//! A map from participant ids to values, kept as a vector sorted by id.

use vstd::prelude::*;

verus! {

/// Entries ordered by strictly increasing id; each id appears once.
pub struct IdMap<T> {
    entries: Vec<(usize, T)>,
}

pub open spec fn ids_increasing<T>(s: Seq<(usize, T)>) -> bool {
    forall|i: int, j: int| 0 <= i < j < s.len() ==> s[i].0 < s[j].0
}

impl<T> IdMap<T> {
    #[verifier::type_invariant]
    pub open spec fn inv(&self) -> bool {
        ids_increasing(self.entries())
    }

    /// The entries, in increasing order of id.
    pub closed spec fn entries(&self) -> Seq<(usize, T)> {
        self.entries@
    }

    /// The ids, in increasing order.
    pub open spec fn ids(&self) -> Seq<usize> {
        self.entries().map_values(|e: (usize, T)| e.0)
    }

    pub open spec fn has(&self, id: usize) -> bool {
        exists|i: int| 0 <= i < self.entries().len() && self.entries()[i].0 == id
    }

    pub open spec fn at(&self, id: usize) -> T {
        self.entries()[choose|i: int| 0 <= i < self.entries().len() && self.entries()[i].0 == id].1
    }

    /// The map that the entries describe.
    pub open spec fn view(&self) -> Map<usize, T> {
        Map::new(|k: usize| self.has(k), |k: usize| self.at(k))
    }

    /// Ids are strictly increasing, so each entry is what the map holds at its id.
    pub proof fn lemma_wf(&self)
        requires
            self.inv(),
        ensures
            ids_increasing(self.entries()),
            forall|i: int|
                #![trigger self.entries()[i]]
                0 <= i < self.entries().len() ==> self@.contains_key(self.entries()[i].0)
                    && self@[self.entries()[i].0] == self.entries()[i].1,
            forall|k: usize|
                #![trigger self@.contains_key(k)]
                self@.contains_key(k) ==> exists|i: int|
                    0 <= i < self.entries().len() && self.entries()[i].0 == k,
    {
        assert forall|i: int|
            #![trigger self.entries()[i]]
            0 <= i < self.entries().len() implies self@.contains_key(self.entries()[i].0)
                && self@[self.entries()[i].0] == self.entries()[i].1 by {
            let k = self.entries()[i].0;
            assert(self.has(k));
            let j = choose|j: int| 0 <= j < self.entries().len() && self.entries()[j].0 == k;
            assert(j == i);
        }
    }

    pub fn new() -> (r: Self)
        ensures
            r.entries() == Seq::<(usize, T)>::empty(),
            r@ == Map::<usize, T>::empty(),
    {
        let r = IdMap { entries: Vec::new() };
        assert(r@ =~= Map::<usize, T>::empty());
        r
    }

    /// A map with the given entries, whose ids must be strictly increasing.
    pub fn from_sorted(entries: Vec<(usize, T)>) -> (r: Self)
        requires
            ids_increasing(entries@),
        ensures
            r.entries() == entries@,
    {
        IdMap { entries }
    }

    /// The ids held, in increasing order.
    pub fn keys(&self) -> (r: Vec<usize>)
        ensures
            r@ == self.ids(),
    {
        let mut r: Vec<usize> = Vec::new();
        let mut i: usize = 0;
        while i < self.entries.len()
            invariant
                i <= self.entries@.len(),
                r@ == self.ids().subrange(0, i as int),
            decreases self.entries@.len() - i,
        {
            r.push(self.entries[i].0);
            i = i + 1;
            assert(r@ =~= self.ids().subrange(0, i as int));
        }
        assert(r@ =~= self.ids());
        r
    }

    /// The number of ids held.
    pub fn len(&self) -> (r: usize)
        ensures
            r == self.entries().len(),
    {
        self.entries.len()
    }

    /// The entry at position `i` in order of id.
    pub fn entry(&self, i: usize) -> (r: &(usize, T))
        requires
            i < self.entries().len(),
        ensures
            *r == self.entries()[i as int],
    {
        &self.entries[i]
    }

    pub fn into_entries(self) -> (r: Vec<(usize, T)>)
        ensures
            r@ == self.entries(),
            ids_increasing(r@),
    {
        proof {
            use_type_invariant(&self);
        }
        self.entries
    }

    /// The position of `id`, if it is held.
    pub fn position(&self, id: usize) -> (r: Option<usize>)
        ensures
            match r {
                Some(i) => i < self.entries().len() && self.entries()[i as int].0 == id,
                None => !self@.contains_key(id),
            },
    {
        let mut i: usize = 0;
        while i < self.entries.len()
            invariant
                i <= self.entries@.len(),
                forall|j: int| 0 <= j < i ==> self.entries@[j].0 != id,
            decreases self.entries@.len() - i,
        {
            if self.entries[i].0 == id {
                return Some(i);
            }
            i = i + 1;
        }
        None
    }

    pub fn get(&self, id: usize) -> (r: Option<&T>)
        ensures
            match r {
                Some(v) => self@.contains_key(id) && self@[id] == *v,
                None => !self@.contains_key(id),
            },
    {
        proof {
            use_type_invariant(self);
            self.lemma_wf();
        }
        match self.position(id) {
            Some(i) => Some(&self.entries[i].1),
            None => None,
        }
    }

    pub fn contains_key(&self, id: usize) -> (r: bool)
        ensures
            r == self@.contains_key(id),
    {
        proof {
            use_type_invariant(self);
            self.lemma_wf();
        }
        self.position(id).is_some()
    }

    /// Puts `x` under `id`, replacing what was there.
    pub fn insert(&mut self, id: usize, x: T)
        ensures
            final(self)@ == old(self)@.insert(id, x),
            final(self).entries().len() == old(self).entries().len() + if old(self)@.contains_key(
                id,
            ) {
                0int
            } else {
                1int
            },
    {
        proof {
            use_type_invariant(&*self);
            self.lemma_wf();
        }
        let ghost before = *self;
        let mut e: Vec<(usize, T)> = Vec::new();
        std::mem::swap(&mut e, &mut self.entries);
        let mut i: usize = 0;
        while i < e.len() && e[i].0 < id
            invariant
                e@ == before.entries(),
                ids_increasing(e@),
                i <= e@.len(),
                forall|j: int| 0 <= j < i ==> e@[j].0 < id,
            decreases e@.len() - i,
        {
            i = i + 1;
        }
        let replace = i < e.len() && e[i].0 == id;
        proof {
            if !replace && before@.contains_key(id) {
                let j = choose|j: int| 0 <= j < e@.len() && e@[j].0 == id;
                if j > i {
                    assert(e@[i as int].0 < e@[j].0);
                }
            }
        }
        if replace {
            e.set(i, (id, x));
        } else {
            e.insert(i, (id, x));
        }
        proof {
            let old_e = before.entries();
            assert(forall|j: int| i <= j < old_e.len() ==> old_e[j].0 >= id) by {
                assert forall|j: int| i <= j < old_e.len() implies old_e[j].0 >= id by {
                    if j > i {
                        assert(old_e[i as int].0 < old_e[j].0);
                    }
                }
            }
            assert(ids_increasing(e@));
        }
        self.entries = e;
        proof {
            self.lemma_wf();
            let old_e = before.entries();
            assert forall|k: usize| #[trigger] self@.contains_key(k) == before@.insert(id, x).contains_key(k)
                && (self@.contains_key(k) ==> self@[k] == before@.insert(id, x)[k]) by {
                if self@.contains_key(k) {
                    let j = choose|j: int| 0 <= j < self.entries().len() && self.entries()[j].0 == k;
                    if k != id {
                        let jo = if replace || j < i { j } else { j - 1 };
                        assert(old_e[jo].0 == k);
                        assert(before@[k] == old_e[jo].1);
                    }
                } else if k != id && before@.contains_key(k) {
                    let jo = choose|j: int| 0 <= j < old_e.len() && old_e[j].0 == k;
                    let jn = if replace || jo < i { jo } else { jo + 1 };
                    assert(self.entries()[jn].0 == k);
                }
                if k == id {
                    assert(self.entries()[i as int].0 == id);
                }
            }
            assert(self@ =~= before@.insert(id, x));
        }
    }
}

impl<T: Copy> IdMap<T> {
    /// A copy of the map.
    pub fn copied(&self) -> (r: Self)
        ensures
            r.entries() == self.entries(),
    {
        proof {
            use_type_invariant(self);
        }
        let mut e: Vec<(usize, T)> = Vec::new();
        let mut i: usize = 0;
        while i < self.entries.len()
            invariant
                i <= self.entries@.len(),
                e@ == self.entries@.subrange(0, i as int),
            decreases self.entries@.len() - i,
        {
            e.push(self.entries[i]);
            i = i + 1;
            assert(e@ =~= self.entries@.subrange(0, i as int));
        }
        assert(e@ =~= self.entries@);
        IdMap { entries: e }
    }
}

/// The set of the ids in `ids`, which must be strictly increasing.
pub fn id_set_of(ids: &Vec<usize>) -> (r: IdMap<()>)
    requires
        forall|i: int, j: int| 0 <= i < j < ids@.len() ==> ids@[i] < ids@[j],
    ensures
        r.ids() == ids@,
{
    let mut e: Vec<(usize, ())> = Vec::new();
    let mut i: usize = 0;
    while i < ids.len()
        invariant
            i <= ids@.len(),
            e@.len() == i,
            forall|j: int| 0 <= j < i ==> (#[trigger] e@[j]).0 == ids@[j],
        decreases ids@.len() - i,
    {
        e.push((ids[i], ()));
        i = i + 1;
    }
    proof {
        assert forall|a: int, b: int| 0 <= a < b < e@.len() implies e@[a].0 < e@[b].0 by {
            assert(e@[a].0 == ids@[a]);
            assert(e@[b].0 == ids@[b]);
        }
    }
    let r = IdMap::from_sorted(e);
    assert(r.ids() =~= ids@);
    r
}

} // verus!
