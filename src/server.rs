//! The coordinator's side of the protocol: it routes each round's messages and
//! finally removes the masks from the sum.

use vstd::prelude::*;
use crate::crypto::{
    combine_shares, dh, recovered_of, share_views, shares_well_formed, KAPublicKey,
};
use crate::error::ProtocolError;
use crate::helpers::{
    chacha_mask, scalar_mul, scale_spec, sum_components, sum_spec, vector_from_seed, views,
    BundledSignature, Collector, CryptoMsg, RevealedShare,
};
use crate::idmap::{id_set_of, IdMap};
use crate::types::{IdSet, ServerOutput, ServerState, SignedKeys, UserInput, UserOutput};
use crate::user::{pair_mask, pair_sign, rand_keys_of};

verus! {

/// Round zero to one: everyone gets every user's signed keys.
fn round_0(c: Collector<SignedKeys>) -> (r: Result<
    (IdMap<UserInput>, IdMap<KAPublicKey>),
    ProtocolError,
>)
    ensures
        r is Err <==> c.collected().entries().len() < c.threshold(),
        r matches Err(e) ==> e == ProtocolError::ThresholdNotMet,
        r matches Ok((out, rand_pks)) ==> {
            &&& rand_pks.entries() == rand_keys_of(c.collected().entries())
            &&& out.ids() == c.collected().ids()
            &&& forall|i: int|
                0 <= i < out.entries().len() ==> ((#[trigger] out.entries()[i].1) matches UserInput::Round1(keys) && keys.entries() == c.collected().entries())
        },
{
    let m = c.get()?;
    let n = m.len();
    let mut msgs: Vec<(usize, UserInput)> = Vec::new();
    let mut rand: Vec<(usize, KAPublicKey)> = Vec::new();
    let mut i: usize = 0;
    while i < n
        invariant
            n == m.entries().len(),
            i <= n,
            msgs@.len() == i,
            rand@ == rand_keys_of(m.entries()).subrange(0, i as int),
            forall|j: int|
                0 <= j < i ==> (#[trigger] msgs@[j]).0 == m.entries()[j].0 && (msgs@[j].1 matches UserInput::Round1(keys) && keys.entries() == m.entries()),
        decreases n - i,
    {
        let e = m.entry(i);
        msgs.push((e.0, UserInput::Round1(m.copied())));
        rand.push((e.0, (e.1).1.msg));
        i = i + 1;
        assert(rand@ =~= rand_keys_of(m.entries()).subrange(0, i as int));
    }
    proof {
        use_type_invariant(&m);
        m.lemma_wf();
        assert(rand@ =~= rand_keys_of(m.entries()));
        assert forall|a: int, b: int| 0 <= a < b < msgs@.len() implies msgs@[a].0 < msgs@[b].0 by {
            assert(msgs@[a].0 == m.entries()[a].0);
            assert(msgs@[b].0 == m.entries()[b].0);
        }
    }
    let out = IdMap::from_sorted(msgs);
    assert(out.ids() =~= m.ids());
    Ok((out, IdMap::from_sorted(rand)))
}

/// Every sender addressed an envelope to every user that sent any.
pub open spec fn routable(maps: IdMap<IdMap<CryptoMsg>>) -> bool {
    forall|i: int, j: int|
        0 <= i < maps.entries().len() && 0 <= j < maps.entries().len() ==> (#[trigger] maps.entries()[j]).1@.contains_key(
            #[trigger] maps.ids()[i],
        )
}

/// `env` holds, for each sender of `maps` in order, the envelope it addressed to `to`.
pub open spec fn routed_to(env: IdMap<CryptoMsg>, maps: IdMap<IdMap<CryptoMsg>>, to: usize) -> bool {
    &&& env.ids() == maps.ids()
    &&& forall|j: int|
        0 <= j < env.entries().len() ==> (#[trigger] env.entries()[j]).1.nonce
            == maps.entries()[j].1@[to].nonce && env.entries()[j].1.c@ == maps.entries()[j].1@[to].c@
}

/// Round one to two: each user gets the envelopes addressed to it.
fn round_1(c: Collector<IdMap<CryptoMsg>>) -> (r: Result<(IdMap<UserInput>, IdSet), ProtocolError>)
    ensures
        (r == Err::<(IdMap<UserInput>, IdSet), ProtocolError>(ProtocolError::ThresholdNotMet))
            <==> c.collected().entries().len() < c.threshold(),
        (r == Err::<(IdMap<UserInput>, IdSet), ProtocolError>(ProtocolError::MalformedMessage))
            <==> c.collected().entries().len() >= c.threshold() && !routable(c.collected()),
        r is Ok <==> c.collected().entries().len() >= c.threshold() && routable(c.collected()),
        r matches Ok((out, sharing)) ==> {
            &&& sharing.ids() == c.collected().ids()
            &&& out.ids() == c.collected().ids()
            &&& forall|i: int|
                0 <= i < out.entries().len() ==> ((#[trigger] out.entries()[i].1) matches UserInput::Round2(env) && routed_to(env, c.collected(), out.entries()[i].0))
        },
{
    let maps = c.get()?;
    let users = maps.keys();
    let n = users.len();
    let mut msgs: Vec<(usize, UserInput)> = Vec::new();
    let mut i: usize = 0;
    while i < n
        invariant
            n == maps.entries().len(),
            maps == c.collected(),
            n >= c.threshold(),
            users@ == maps.ids(),
            i <= n,
            msgs@.len() == i,
            forall|k: int, j: int|
                0 <= k < i && 0 <= j < n ==> (#[trigger] maps.entries()[j]).1@.contains_key(
                    #[trigger] maps.ids()[k],
                ),
            forall|k: int|
                0 <= k < i ==> (#[trigger] msgs@[k]).0 == maps.ids()[k] && (msgs@[k].1 matches UserInput::Round2(env) && routed_to(env, maps, msgs@[k].0)),
        decreases n - i,
    {
        let v = users[i];
        let mut env: Vec<(usize, CryptoMsg)> = Vec::new();
        let mut j: usize = 0;
        while j < n
            invariant
                n == maps.entries().len(),
                maps == c.collected(),
                n >= c.threshold(),
                users@ == maps.ids(),
                i < n,
                v == maps.ids()[i as int],
                j <= n,
                env@.len() == j,
                forall|k: int| 0 <= k < j ==> (#[trigger] maps.entries()[k]).1@.contains_key(v),
                forall|k: int|
                    0 <= k < j ==> (#[trigger] env@[k]).0 == maps.ids()[k] && env@[k].1.nonce
                        == maps.entries()[k].1@[v].nonce && env@[k].1.c@ == maps.entries()[k].1@[v].c@,
            decreases n - j,
        {
            let e = maps.entry(j);
            match e.1.get(v) {
                Some(m) => {
                    env.push((e.0, m.duplicate()));
                },
                None => {
                    assert(!maps.entries()[j as int].1@.contains_key(maps.ids()[i as int]));
                    return Err(ProtocolError::MalformedMessage);
                },
            }
            j = j + 1;
        }
        proof {
            use_type_invariant(&maps);
            assert forall|a: int, b: int| 0 <= a < b < env@.len() implies env@[a].0 < env@[b].0 by {
                assert(env@[a].0 == maps.ids()[a]);
                assert(env@[b].0 == maps.ids()[b]);
            }
        }
        let env = IdMap::from_sorted(env);
        assert(env.ids() =~= maps.ids());
        msgs.push((v, UserInput::Round2(env)));
        i = i + 1;
    }
    proof {
        use_type_invariant(&maps);
        assert forall|a: int, b: int| 0 <= a < b < msgs@.len() implies msgs@[a].0 < msgs@[b].0 by {
            assert(msgs@[a].0 == maps.ids()[a]);
            assert(msgs@[b].0 == maps.ids()[b]);
        }
    }
    let out = IdMap::from_sorted(msgs);
    assert(out.ids() =~= maps.ids());
    proof {
        use_type_invariant(&maps);
    }
    let sharing = id_set_of(&users);
    Ok((out, sharing))
}

/// The vectors held in the entries, in order.
pub open spec fn values_of(s: Seq<(usize, Vec<i64>)>) -> Seq<Seq<i64>> {
    Seq::new(s.len(), |i: int| s[i].1@)
}

/// Round two to three: everyone gets the list of users whose masked vectors
/// arrived; the vectors are kept for the sum.
fn round_2(c: Collector<Vec<i64>>) -> (r: Result<
    (IdMap<UserInput>, Vec<Vec<i64>>, IdSet),
    ProtocolError,
>)
    ensures
        r is Err <==> c.collected().entries().len() < c.threshold(),
        r matches Err(e) ==> e == ProtocolError::ThresholdNotMet,
        r matches Ok((out, vecs, alive)) ==> {
            &&& alive.ids() == c.collected().ids()
            &&& views(vecs@) == values_of(c.collected().entries())
            &&& out.ids() == c.collected().ids()
            &&& forall|i: int|
                0 <= i < out.entries().len() ==> ((#[trigger] out.entries()[i].1) matches UserInput::Round3(users) && users@ == c.collected().ids())
        },
{
    let m = c.get()?;
    let users = m.keys();
    let n = users.len();
    let mut msgs: Vec<(usize, UserInput)> = Vec::new();
    let mut i: usize = 0;
    while i < n
        invariant
            n == m.entries().len(),
            users@ == m.ids(),
            i <= n,
            msgs@.len() == i,
            forall|k: int|
                0 <= k < i ==> (#[trigger] msgs@[k]).0 == m.ids()[k] && (msgs@[k].1 matches UserInput::Round3(list) && list@ == m.ids()),
        decreases n - i,
    {
        let list = users.clone();
        assert(list@ =~= users@);
        msgs.push((users[i], UserInput::Round3(list)));
        i = i + 1;
    }
    proof {
        use_type_invariant(&m);
        assert forall|a: int, b: int| 0 <= a < b < msgs@.len() implies msgs@[a].0 < msgs@[b].0 by {
            assert(msgs@[a].0 == m.ids()[a]);
            assert(msgs@[b].0 == m.ids()[b]);
        }
    }
    let out = IdMap::from_sorted(msgs);
    assert(out.ids() =~= m.ids());
    proof {
        use_type_invariant(&m);
    }
    let alive = id_set_of(&users);
    let ghost all = m.entries();
    let mut entries = m.into_entries();
    let mut vecs: Vec<Vec<i64>> = Vec::new();
    while entries.len() > 0
        invariant
            vecs@.len() + entries@.len() == all.len(),
            views(vecs@) == values_of(all.subrange(0, vecs@.len() as int)),
            entries@ == all.subrange(vecs@.len() as int, all.len() as int),
        decreases entries@.len(),
    {
        let ghost k = vecs@.len();
        let ghost before = vecs@;
        let (_, v) = entries.remove(0);
        assert(v == all[k as int].1);
        vecs.push(v);
        assert(vecs@ == before.push(v));
        assert(views(vecs@) =~= views(before).push(v@));
        assert(views(vecs@) =~= values_of(all.subrange(0, vecs@.len() as int)));
        assert(entries@ =~= all.subrange(vecs@.len() as int, all.len() as int));
    }
    assert(all.subrange(0, all.len() as int) =~= all);
    Ok((out, vecs, alive))
}

/// Round three to four: everyone gets every alive-set signature.
fn round_3(c: Collector<BundledSignature>) -> (r: Result<IdMap<UserInput>, ProtocolError>)
    ensures
        r is Err <==> c.collected().entries().len() < c.threshold(),
        r matches Err(e) ==> e == ProtocolError::ThresholdNotMet,
        r matches Ok(out) ==> {
            &&& out.ids() == c.collected().ids()
            &&& forall|i: int|
                0 <= i < out.entries().len() ==> ((#[trigger] out.entries()[i].1) matches UserInput::Round4(sigs) && sigs.entries() == c.collected().entries())
        },
{
    let m = c.get()?;
    let n = m.len();
    let mut msgs: Vec<(usize, UserInput)> = Vec::new();
    let mut i: usize = 0;
    while i < n
        invariant
            n == m.entries().len(),
            i <= n,
            msgs@.len() == i,
            forall|j: int|
                0 <= j < i ==> (#[trigger] msgs@[j]).0 == m.entries()[j].0 && (msgs@[j].1 matches UserInput::Round4(sigs) && sigs.entries() == m.entries()),
        decreases n - i,
    {
        let id = m.entry(i).0;
        msgs.push((id, UserInput::Round4(m.copied())));
        i = i + 1;
    }
    proof {
        use_type_invariant(&m);
        assert forall|a: int, b: int| 0 <= a < b < msgs@.len() implies msgs@[a].0 < msgs@[b].0 by {
            assert(msgs@[a].0 == m.entries()[a].0);
            assert(msgs@[b].0 == m.entries()[b].0);
        }
    }
    let out = IdMap::from_sorted(msgs);
    assert(out.ids() =~= m.ids());
    Ok(out)
}

} // verus!

verus! {

/// The share of `u`'s secret that `rev` reveals: its seed share when `seed`
/// holds, else its rand secret share; none when it reveals the other kind.
pub open spec fn revealed_share(rev: IdMap<RevealedShare>, u: usize, seed: bool) -> Option<Seq<u8>> {
    if rev@.contains_key(u) {
        match rev@[u] {
            RevealedShare::Seed(s) => if seed {
                Some(s@)
            } else {
                None
            },
            RevealedShare::RandSk(s) => if seed {
                None
            } else {
                Some(s@)
            },
        }
    } else {
        None
    }
}

/// The shares of `u`'s secret, one from each user that revealed in the last round.
pub open spec fn shares_for(m: IdMap<IdMap<RevealedShare>>, u: usize, seed: bool) -> Seq<
    Option<Seq<u8>>,
> {
    Seq::new(m.entries().len(), |j: int| revealed_share(m.entries()[j].1, u, seed))
}

/// The shares of a list where every one is present.
pub open spec fn unwrap_shares(s: Seq<Option<Seq<u8>>>) -> Seq<Seq<u8>> {
    Seq::new(s.len(), |j: int| s[j]->Some_0)
}

/// The 32-byte secret of `u` that the revealed shares rebuild, if every user
/// revealed one share of the right kind and they rebuild 32 bytes.
pub open spec fn secret_of(m: IdMap<IdMap<RevealedShare>>, u: usize, seed: bool) -> Option<Seq<u8>> {
    let s = shares_for(m, u, seed);
    if forall|j: int| 0 <= j < s.len() ==> (#[trigger] s[j]) is Some {
        let shares = unwrap_shares(s);
        if shares_well_formed(shares) {
            match recovered_of(shares) {
                Some(secret) => if secret.len() == 32 {
                    Some(secret)
                } else {
                    None
                },
                None => None,
            }
        } else {
            None
        }
    } else {
        None
    }
}

/// The ids of `s` that are not in `a`, in order.
pub open spec fn minus(s: Seq<usize>, a: Set<usize>) -> Seq<usize>
    decreases s.len(),
{
    if s.len() == 0 {
        s
    } else if a.contains(s.last()) {
        minus(s.drop_last(), a)
    } else {
        minus(s.drop_last(), a).push(s.last())
    }
}

/// What removes alive user `u`'s own mask.
pub open spec fn alive_correction(m: IdMap<IdMap<RevealedShare>>, u: usize, len: nat) -> Seq<i64> {
    scale_spec(-1i64, chacha_mask(secret_of(m, u, true)->Some_0, len))
}

/// What removes the pairwise masks that the alive users share with dropped user `d`.
pub open spec fn dropped_correction(
    m: IdMap<IdMap<RevealedShare>>,
    d: usize,
    alive: Seq<usize>,
    rand_pks: Map<usize, KAPublicKey>,
    len: nat,
) -> Seq<i64> {
    sum_spec(pair_masks_of(secret_of(m, d, false)->Some_0, d, alive, rand_pks, len), len)
}

/// The masks that the dropped user `d`, whose rand secret is `sk`, shares with
/// each alive user, signed as each alive user added them.
pub open spec fn pair_masks_of(
    sk: Seq<u8>,
    d: usize,
    alive: Seq<usize>,
    rand_pks: Map<usize, KAPublicKey>,
    len: nat,
) -> Seq<Seq<i64>> {
    Seq::new(alive.len(), |k: int| pair_mask(sk, rand_pks[alive[k]]@, alive[k], d, len))
}

/// Every secret the unmasking needs can be rebuilt, and every alive user's
/// rand key is known when someone dropped.
pub open spec fn unmaskable(
    m: IdMap<IdMap<RevealedShare>>,
    alive: Seq<usize>,
    dropped: Seq<usize>,
    rand_pks: Map<usize, KAPublicKey>,
) -> bool {
    &&& forall|k: int| 0 <= k < alive.len() ==> (#[trigger] secret_of(m, alive[k], true)) is Some
    &&& forall|k: int| 0 <= k < dropped.len() ==> (#[trigger] secret_of(m, dropped[k], false)) is Some
    &&& dropped.len() > 0 ==> forall|k: int| 0 <= k < alive.len() ==> rand_pks.contains_key(#[trigger] alive[k])
}

/// The terms the server adds up: the alive users' corrections, the dropped
/// users' corrections, and the masked vectors.
pub open spec fn unmasking_terms(
    m: IdMap<IdMap<RevealedShare>>,
    alive: Seq<usize>,
    dropped: Seq<usize>,
    rand_pks: Map<usize, KAPublicKey>,
    vecs: Seq<Seq<i64>>,
    len: nat,
) -> Seq<Seq<i64>> {
    Seq::new(alive.len(), |k: int| alive_correction(m, alive[k], len)) + Seq::new(
        dropped.len(),
        |k: int| dropped_correction(m, dropped[k], alive, rand_pks, len),
    ) + vecs
}

/// Rebuilds `u`'s seed (`seed`) or rand secret key from the revealed shares.
fn recover(m: &IdMap<IdMap<RevealedShare>>, u: usize, seed: bool) -> (r: Result<[u8; 32], ProtocolError>)
    ensures
        match r {
            Ok(s) => secret_of(*m, u, seed) == Some(s@),
            Err(e) => secret_of(*m, u, seed) is None && e == ProtocolError::SecretReconstructionFailed,
        },
{
    let ghost s = shares_for(*m, u, seed);
    let n = m.len();
    let mut shares: Vec<Vec<u8>> = Vec::new();
    let mut j: usize = 0;
    while j < n
        invariant
            n == m.entries().len(),
            s == shares_for(*m, u, seed),
            j <= n,
            shares@.len() == j,
            forall|k: int| 0 <= k < j ==> (#[trigger] s[k]) == Some(shares@[k]@),
        decreases n - j,
    {
        let rev = &m.entry(j).1;
        let share = match rev.get(u) {
            Some(RevealedShare::Seed(x)) => if seed {
                x.clone()
            } else {
                return Err(ProtocolError::SecretReconstructionFailed);
            },
            Some(RevealedShare::RandSk(x)) => if seed {
                return Err(ProtocolError::SecretReconstructionFailed);
            } else {
                x.clone()
            },
            None => {
                return Err(ProtocolError::SecretReconstructionFailed);
            },
        };
        assert(s[j as int] == Some(share@));
        shares.push(share);
        j = j + 1;
    }
    let ghost unwrapped = unwrap_shares(s);
    assert(forall|k: int| 0 <= k < s.len() ==> (#[trigger] s[k]) is Some);
    assert(share_views(shares@) =~= unwrapped);
    if n == 0 {
        return Err(ProtocolError::SecretReconstructionFailed);
    }
    let len0 = shares[0].len();
    if len0 == 0 {
        return Err(ProtocolError::SecretReconstructionFailed);
    }
    let mut a: usize = 0;
    while a < n
        invariant
            n == shares@.len(),
            share_views(shares@) == unwrapped,
            unwrapped == unwrap_shares(s),
            s == shares_for(*m, u, seed),
            forall|k: int| 0 <= k < s.len() ==> (#[trigger] s[k]) is Some,
            n > 0,
            len0 == shares@[0]@.len(),
            a <= n,
            forall|k: int| 0 <= k < a ==> (#[trigger] shares@[k]@).len() == len0,
        decreases n - a,
    {
        if shares[a].len() != len0 {
            assert(unwrapped[a as int].len() != unwrapped[0].len());
            return Err(ProtocolError::SecretReconstructionFailed);
        }
        a = a + 1;
    }
    let mut a: usize = 0;
    while a < n
        invariant
            n == shares@.len(),
            share_views(shares@) == unwrapped,
            unwrapped == unwrap_shares(s),
            s == shares_for(*m, u, seed),
            forall|k: int| 0 <= k < s.len() ==> (#[trigger] s[k]) is Some,
            n > 0,
            len0 > 0,
            a <= n,
            forall|k: int| 0 <= k < n ==> (#[trigger] shares@[k]@).len() == len0,
            forall|k: int, l: int|
                0 <= k < l < n && k < a ==> #[trigger] shares@[k]@[0] != #[trigger] shares@[l]@[0],
        decreases n - a,
    {
        let x = shares[a][0];
        let mut b: usize = a + 1;
        while b < n
            invariant
                n == shares@.len(),
                share_views(shares@) == unwrapped,
                unwrapped == unwrap_shares(s),
                s == shares_for(*m, u, seed),
                forall|k: int| 0 <= k < s.len() ==> (#[trigger] s[k]) is Some,
                a < n,
                a < b <= n,
                len0 > 0,
                forall|k: int| 0 <= k < n ==> (#[trigger] shares@[k]@).len() == len0,
                x == shares@[a as int]@[0],
                forall|l: int| a < l < b ==> #[trigger] shares@[l]@[0] != x,
            decreases n - b,
        {
            if shares[b][0] == x {
                assert(unwrapped[a as int][0] == unwrapped[b as int][0]);
                return Err(ProtocolError::SecretReconstructionFailed);
            }
            b = b + 1;
        }
        a = a + 1;
    }
    assert(shares_well_formed(unwrapped));
    let secret = match combine_shares(&shares) {
        Ok(x) => x,
        Err(()) => {
            return Err(ProtocolError::SecretReconstructionFailed);
        },
    };
    if secret.len() != 32 {
        return Err(ProtocolError::SecretReconstructionFailed);
    }
    let mut out = [0u8; 32];
    let mut i: usize = 0;
    while i < 32
        invariant
            i <= 32,
            secret@.len() == 32,
            forall|k: int| 0 <= k < i ==> out@[k] == secret@[k],
        decreases 32 - i,
    {
        out[i] = secret[i];
        i = i + 1;
    }
    assert(out@ =~= secret@);
    Ok(out)
}

} // verus!

verus! {

/// The last round: rebuild the seeds of the alive users and the rand secrets
/// of the dropped ones, and take every mask out of the sum of masked vectors.
fn round_4(
    c: Collector<IdMap<RevealedShare>>,
    rand_pks: &IdMap<KAPublicKey>,
    sharing_users: &IdSet,
    vecs: Vec<Vec<i64>>,
    alive: &IdSet,
    vec_len: usize,
) -> (r: Result<Vec<i64>, ProtocolError>)
    ensures
        (r == Err::<Vec<i64>, ProtocolError>(ProtocolError::ThresholdNotMet))
            <==> c.collected().entries().len() < c.threshold(),
        r is Ok <==> c.collected().entries().len() >= c.threshold() && unmaskable(
            c.collected(),
            alive.ids(),
            minus(sharing_users.ids(), alive@.dom()),
            rand_pks@,
        ),
        r matches Err(e) ==> e == ProtocolError::ThresholdNotMet || e
            == ProtocolError::SecretReconstructionFailed,
        (r == Err::<Vec<i64>, ProtocolError>(ProtocolError::SecretReconstructionFailed))
            <==> c.collected().entries().len() >= c.threshold() && !unmaskable(
            c.collected(),
            alive.ids(),
            minus(sharing_users.ids(), alive@.dom()),
            rand_pks@,
        ),
        r matches Ok(res) ==> res@ == sum_spec(
            unmasking_terms(
                c.collected(),
                alive.ids(),
                minus(sharing_users.ids(), alive@.dom()),
                rand_pks@,
                views(vecs@),
                vec_len as nat,
            ),
            vec_len as nat,
        ),
{
    let m = c.get()?;
    let alive_ids = alive.keys();
    let sharing_ids = sharing_users.keys();
    let mut dropped: Vec<usize> = Vec::new();
    let mut i: usize = 0;
    while i < sharing_ids.len()
        invariant
            sharing_ids@ == sharing_users.ids(),
            i <= sharing_ids@.len(),
            dropped@ == minus(sharing_ids@.subrange(0, i as int), alive@.dom()),
        decreases sharing_ids@.len() - i,
    {
        let v = sharing_ids[i];
        proof {
            let t = sharing_ids@.subrange(0, i + 1);
            assert(t.drop_last() =~= sharing_ids@.subrange(0, i as int));
            assert(t.last() == v);
        }
        if !alive.contains_key(v) {
            dropped.push(v);
        }
        i = i + 1;
    }
    assert(sharing_ids@.subrange(0, sharing_ids@.len() as int) =~= sharing_ids@);
    let ghost all = unmasking_terms(m, alive_ids@, dropped@, rand_pks@, views(vecs@), vec_len as nat);
    let na = alive_ids.len();
    let nd = dropped.len();
    let mut terms: Vec<Vec<i64>> = Vec::new();
    let mut k: usize = 0;
    while k < na
        invariant
            m == c.collected(),
            m.entries().len() >= c.threshold(),
            alive_ids@ == alive.ids(),
            dropped@ == minus(sharing_users.ids(), alive@.dom()),
            na == alive_ids@.len(),
            all == unmasking_terms(m, alive_ids@, dropped@, rand_pks@, views(vecs@), vec_len as nat),
            all.len() == na + nd + vecs@.len(),
            nd == dropped@.len(),
            k <= na,
            views(terms@) == all.subrange(0, k as int),
            forall|j: int| 0 <= j < k ==> (#[trigger] secret_of(m, alive_ids@[j], true)) is Some,
        decreases na - k,
    {
        let u = alive_ids[k];
        let seed = match recover(&m, u, true) {
            Ok(s) => s,
            Err(e) => {
                return Err(e);
            },
        };
        let mask = scalar_mul(-1, vector_from_seed(seed, vec_len));
        let ghost before = terms@;
        terms.push(mask);
        assert(mask@ == all[k as int]);
        assert(views(terms@) =~= views(before).push(mask@));
        k = k + 1;
        assert(views(terms@) =~= all.subrange(0, k as int));
    }
    let mut k: usize = 0;
    while k < nd
        invariant
            m == c.collected(),
            m.entries().len() >= c.threshold(),
            dropped@ == minus(sharing_users.ids(), alive@.dom()),
            na == alive_ids@.len(),
            alive_ids@ == alive.ids(),
            all == unmasking_terms(m, alive_ids@, dropped@, rand_pks@, views(vecs@), vec_len as nat),
            all.len() == na + nd + vecs@.len(),
            nd == dropped@.len(),
            k <= nd,
            views(terms@) == all.subrange(0, na + k),
            forall|j: int| 0 <= j < na ==> (#[trigger] secret_of(m, alive_ids@[j], true)) is Some,
            forall|j: int| 0 <= j < k ==> (#[trigger] secret_of(m, dropped@[j], false)) is Some,
            k > 0 ==> forall|j: int| 0 <= j < na ==> rand_pks@.contains_key(#[trigger] alive_ids@[j]),
        decreases nd - k,
    {
        let d = dropped[k];
        let sk = match recover(&m, d, false) {
            Ok(s) => s,
            Err(e) => {
                return Err(e);
            },
        };
        let ghost pms = pair_masks_of(sk@, d, alive_ids@, rand_pks@, vec_len as nat);
        let mut masks: Vec<Vec<i64>> = Vec::new();
        let mut j: usize = 0;
        while j < na
            invariant
                m == c.collected(),
                m.entries().len() >= c.threshold(),
                alive_ids@ == alive.ids(),
                dropped@ == minus(sharing_users.ids(), alive@.dom()),
                k < nd,
                forall|l: int| 0 <= l < na ==> (#[trigger] secret_of(m, alive_ids@[l], true)) is Some,
                forall|l: int| 0 <= l < k ==> (#[trigger] secret_of(m, dropped@[l], false)) is Some,
                nd == dropped@.len(),
                na == alive_ids@.len(),
                pms == pair_masks_of(sk@, d, alive_ids@, rand_pks@, vec_len as nat),
                j <= na,
                views(masks@) == pms.subrange(0, j as int),
                forall|l: int| 0 <= l < j ==> rand_pks@.contains_key(#[trigger] alive_ids@[l]),
            decreases na - j,
        {
            let v = alive_ids[j];
            let pk = match rand_pks.get(v) {
                Some(pk) => pk,
                None => {
                    return Err(ProtocolError::SecretReconstructionFailed);
                },
            };
            let common_seed = dh(sk, *pk);
            let l: i64 = if v < d {
                1
            } else if v == d {
                0
            } else {
                -1
            };
            let mask = scalar_mul(l, vector_from_seed(common_seed, vec_len));
            let ghost before = masks@;
            masks.push(mask);
            assert(l == pair_sign(v, d));
            assert(mask@ == pms[j as int]);
            assert(views(masks@) =~= views(before).push(mask@));
            j = j + 1;
            assert(views(masks@) =~= pms.subrange(0, j as int));
        }
        assert(views(masks@) =~= pms);
        let contribution = sum_components(masks, vec_len);
        let ghost before = terms@;
        terms.push(contribution);
        assert(contribution@ == all[na + k]);
        assert(views(terms@) =~= views(before).push(contribution@));
        k = k + 1;
        assert(views(terms@) =~= all.subrange(0, na + k));
    }
    let ghost before = terms@;
    let ghost given = vecs@;
    let mut vecs = vecs;
    terms.append(&mut vecs);
    assert(terms@ =~= before + given);
    assert(views(terms@) =~= views(before) + views(given));
    assert(views(terms@) =~= all);
    Ok(sum_components(terms, vec_len))
}

} // verus!

verus! {

/// A collector for the next round: empty, with the server's threshold.
pub open spec fn fresh<T>(c: Collector<T>, threshold: usize) -> bool {
    c.threshold() == threshold && c.collected().entries().len() == 0
}

/// The coordinator's state machine.
pub struct Server {
    threshold: usize,
    vec_len: usize,
    state: ServerState,
}

/// Whether `msg` is a message of the round that state `s` collects.
pub open spec fn round_of_message(s: ServerState, msg: UserOutput) -> bool {
    match (s, msg) {
        (ServerState::Round0(_), UserOutput::Round0(_, _)) => true,
        (ServerState::Round1(_, _), UserOutput::Round1(_)) => true,
        (ServerState::Round2(_, _, _), UserOutput::Round2(_)) => true,
        (ServerState::Round3(_, _, _, _, _), UserOutput::Round3(_)) => true,
        (ServerState::Round4(_, _, _, _, _), UserOutput::Round4(_)) => true,
        _ => false,
    }
}

/// The threshold of the collector a state holds, if it holds one.
pub open spec fn collector_threshold(s: ServerState) -> Option<usize> {
    match s {
        ServerState::Round0(c) => Some(c.threshold()),
        ServerState::Round1(c, _) => Some(c.threshold()),
        ServerState::Round2(c, _, _) => Some(c.threshold()),
        ServerState::Round3(c, _, _, _, _) => Some(c.threshold()),
        ServerState::Round4(c, _, _, _, _) => Some(c.threshold()),
        _ => None,
    }
}

impl Server {
    /// The collector of the current round gates on the server's threshold.
    #[verifier::type_invariant]
    pub open spec fn inv(&self) -> bool {
        match collector_threshold(self.state()) {
            Some(t) => t == self.threshold(),
            None => true,
        }
    }

    pub closed spec fn threshold(&self) -> usize {
        self.threshold
    }

    pub closed spec fn vec_len(&self) -> usize {
        self.vec_len
    }

    pub closed spec fn state(&self) -> ServerState {
        self.state
    }

    pub fn new(threshold: usize, vec_len: usize) -> (r: Self)
        ensures
            r.threshold() == threshold,
            r.vec_len() == vec_len,
            r.state() matches ServerState::Round0(c) && fresh(c, threshold),
    {
        Server { threshold, vec_len, state: ServerState::Round0(Collector::new(threshold)) }
    }

    /// A server in the given state, as saved from an earlier one.
    /// A server in the given state, as saved from an earlier one; refused when
    /// the state's collector has another threshold than `threshold`.
    pub fn restore(threshold: usize, vec_len: usize, state: ServerState) -> (r: Result<
        Self,
        ProtocolError,
    >)
        ensures
            match r {
                Ok(srv) => srv.threshold() == threshold && srv.vec_len() == vec_len && srv.state()
                    == state,
                Err(e) => e == ProtocolError::MalformedMessage && collector_threshold(state) is Some
                    && collector_threshold(state) != Some(threshold),
            },
            r is Err <==> collector_threshold(state) is Some && collector_threshold(state) != Some(
                threshold,
            ),
    {
        let t = match &state {
            ServerState::Round0(c) => Some(c.threshold_value()),
            ServerState::Round1(c, _) => Some(c.threshold_value()),
            ServerState::Round2(c, _, _) => Some(c.threshold_value()),
            ServerState::Round3(c, _, _, _, _) => Some(c.threshold_value()),
            ServerState::Round4(c, _, _, _, _) => Some(c.threshold_value()),
            _ => None,
        };
        match t {
            Some(t) => if t != threshold {
                return Err(ProtocolError::MalformedMessage);
            },
            None => {},
        }
        Ok(Server { threshold, vec_len, state })
    }

    pub fn threshold_value(&self) -> (r: usize)
        ensures
            r == self.threshold(),
    {
        self.threshold
    }

    pub fn vector_length(&self) -> (r: usize)
        ensures
            r == self.vec_len(),
    {
        self.vec_len
    }

    pub fn current_state(&self) -> (r: &ServerState)
        ensures
            *r == self.state(),
    {
        &self.state
    }

    /// Whether `msg` belongs to the round the server is in.
    pub fn accepts(&self, msg: &UserOutput) -> (r: bool)
        ensures
            r == round_of_message(self.state(), *msg),
    {
        match (&self.state, msg) {
            (ServerState::Round0(_), UserOutput::Round0(_, _)) => true,
            (ServerState::Round1(_, _), UserOutput::Round1(_)) => true,
            (ServerState::Round2(_, _, _), UserOutput::Round2(_)) => true,
            (ServerState::Round3(_, _, _, _, _), UserOutput::Round3(_)) => true,
            (ServerState::Round4(_, _, _, _, _), UserOutput::Round4(_)) => true,
            _ => false,
        }
    }

    /// Records user `id`'s message for the current round. A message of another
    /// round is a caller's error: the caller checks `accepts` first.
    pub fn recv(&mut self, id: usize, msg: UserOutput)
        requires
            round_of_message(old(self).state(), msg),
        ensures
            final(self).threshold() == old(self).threshold(),
            final(self).vec_len() == old(self).vec_len(),
            match (old(self).state(), msg) {
                (ServerState::Round0(c), UserOutput::Round0(x, y)) => match final(self).state() {
                    ServerState::Round0(c2) => c2.threshold() == c.threshold() && c2.collected()@
                        == c.collected()@.insert(id, (x, y)),
                    _ => false,
                },
                (ServerState::Round1(c, p), UserOutput::Round1(x)) => match final(self).state() {
                    ServerState::Round1(c2, p2) => p2 == p && c2.threshold() == c.threshold()
                        && c2.collected()@ == c.collected()@.insert(id, x),
                    _ => false,
                },
                (ServerState::Round2(c, p, s), UserOutput::Round2(x)) => match final(self).state() {
                    ServerState::Round2(c2, p2, s2) => p2 == p && s2 == s && c2.threshold()
                        == c.threshold() && c2.collected()@ == c.collected()@.insert(id, x),
                    _ => false,
                },
                (ServerState::Round3(c, p, s, v, a), UserOutput::Round3(x)) => match final(self).state() {
                    ServerState::Round3(c2, p2, s2, v2, a2) => p2 == p && s2 == s && v2 == v && a2
                        == a && c2.threshold() == c.threshold() && c2.collected()@
                        == c.collected()@.insert(id, x),
                    _ => false,
                },
                (ServerState::Round4(c, p, s, v, a), UserOutput::Round4(x)) => match final(self).state() {
                    ServerState::Round4(c2, p2, s2, v2, a2) => p2 == p && s2 == s && v2 == v && a2
                        == a && c2.threshold() == c.threshold() && c2.collected()@
                        == c.collected()@.insert(id, x),
                    _ => false,
                },
                _ => false,
            },
    {
        proof {
            use_type_invariant(&*self);
        }
        let mut state = ServerState::Failed;
        std::mem::swap(&mut state, &mut self.state);
        let next = match (state, msg) {
            (ServerState::Round0(mut c), UserOutput::Round0(x, y)) => {
                c.recv(id, (x, y));
                ServerState::Round0(c)
            },
            (ServerState::Round1(mut c, p), UserOutput::Round1(x)) => {
                c.recv(id, x);
                ServerState::Round1(c, p)
            },
            (ServerState::Round2(mut c, p, s), UserOutput::Round2(x)) => {
                c.recv(id, x);
                ServerState::Round2(c, p, s)
            },
            (ServerState::Round3(mut c, p, s, v, a), UserOutput::Round3(x)) => {
                c.recv(id, x);
                ServerState::Round3(c, p, s, v, a)
            },
            (ServerState::Round4(mut c, p, s, v, a), UserOutput::Round4(x)) => {
                c.recv(id, x);
                ServerState::Round4(c, p, s, v, a)
            },
            (st, _) => st,
        };
        self.state = next;
    }

    /// Closes the current round: releases what was collected, computes what
    /// goes out, and moves on; fails for good when the round cannot close.
    pub fn round(&mut self) -> (r: Result<ServerOutput, ProtocolError>)
        ensures
            final(self).threshold() == old(self).threshold(),
            final(self).vec_len() == old(self).vec_len(),
            old(self).state() is Done || old(self).state() is Failed ==> r == Err::<
                ServerOutput,
                ProtocolError,
            >(ProtocolError::RoundMismatch) && final(self).state() == old(self).state(),
            !(old(self).state() is Done || old(self).state() is Failed) ==> (r is Err
                <==> final(self).state() is Failed),
            match old(self).state() {
                ServerState::Round0(c) => {
                    &&& r is Err <==> c.collected().entries().len() < old(self).threshold()
                    &&& r matches Err(e) ==> e == ProtocolError::ThresholdNotMet
                    &&& r matches Ok(out) ==> match (out, final(self).state()) {
                        (ServerOutput::Messages(msgs), ServerState::Round1(c2, rand_pks)) => {
                            &&& fresh(c2, old(self).threshold())
                            &&& rand_pks.entries() == rand_keys_of(c.collected().entries())
                            &&& msgs.ids() == c.collected().ids()
                            &&& forall|i: int|
                                0 <= i < msgs.entries().len() ==> ((#[trigger] msgs.entries()[i].1) matches UserInput::Round1(keys)
                                    && keys.entries() == c.collected().entries())
                        },
                        _ => false,
                    }
                },
                ServerState::Round1(c, rand_pks) => {
                    &&& (r == Err::<ServerOutput, ProtocolError>(ProtocolError::ThresholdNotMet))
                        <==> c.collected().entries().len() < old(self).threshold()
                    &&& (r == Err::<ServerOutput, ProtocolError>(ProtocolError::MalformedMessage))
                        <==> c.collected().entries().len() >= old(self).threshold() && !routable(c.collected())
                    &&& r is Ok <==> c.collected().entries().len() >= old(self).threshold() && routable(c.collected())
                    &&& r matches Ok(out) ==> match (out, final(self).state()) {
                        (ServerOutput::Messages(msgs), ServerState::Round2(c2, p2, sharing)) => {
                            &&& fresh(c2, old(self).threshold())
                            &&& p2 == rand_pks
                            &&& sharing.ids() == c.collected().ids()
                            &&& msgs.ids() == c.collected().ids()
                            &&& forall|i: int|
                                0 <= i < msgs.entries().len() ==> ((#[trigger] msgs.entries()[i].1) matches UserInput::Round2(env)
                                    && routed_to(env, c.collected(), msgs.entries()[i].0))
                        },
                        _ => false,
                    }
                },
                ServerState::Round2(c, rand_pks, sharing) => {
                    &&& r is Err <==> c.collected().entries().len() < old(self).threshold()
                    &&& r matches Err(e) ==> e == ProtocolError::ThresholdNotMet
                    &&& r matches Ok(out) ==> match (out, final(self).state()) {
                        (ServerOutput::Messages(msgs), ServerState::Round3(c2, p2, s2, vecs, alive)) => {
                            &&& fresh(c2, old(self).threshold())
                            &&& p2 == rand_pks
                            &&& s2 == sharing
                            &&& alive.ids() == c.collected().ids()
                            &&& views(vecs@) == values_of(c.collected().entries())
                            &&& msgs.ids() == c.collected().ids()
                            &&& forall|i: int|
                                0 <= i < msgs.entries().len() ==> ((#[trigger] msgs.entries()[i].1) matches UserInput::Round3(users)
                                    && users@ == c.collected().ids())
                        },
                        _ => false,
                    }
                },
                ServerState::Round3(c, rand_pks, sharing, vecs, alive) => {
                    &&& r is Err <==> c.collected().entries().len() < old(self).threshold()
                    &&& r matches Err(e) ==> e == ProtocolError::ThresholdNotMet
                    &&& r matches Ok(out) ==> match (out, final(self).state()) {
                        (ServerOutput::Messages(msgs), ServerState::Round4(c2, p2, s2, v2, a2)) => {
                            &&& fresh(c2, old(self).threshold())
                            &&& p2 == rand_pks && s2 == sharing && v2 == vecs && a2 == alive
                            &&& msgs.ids() == c.collected().ids()
                            &&& forall|i: int|
                                0 <= i < msgs.entries().len() ==> ((#[trigger] msgs.entries()[i].1) matches UserInput::Round4(sigs)
                                    && sigs.entries() == c.collected().entries())
                        },
                        _ => false,
                    }
                },
                ServerState::Round4(c, rand_pks, sharing, vecs, alive) => {
                    let dropped = minus(sharing.ids(), alive@.dom());
                    &&& (r == Err::<ServerOutput, ProtocolError>(ProtocolError::ThresholdNotMet))
                        <==> c.collected().entries().len() < old(self).threshold()
                    &&& r is Ok <==> c.collected().entries().len() >= old(self).threshold() && unmaskable(
                        c.collected(),
                        alive.ids(),
                        dropped,
                        rand_pks@,
                    )
                    &&& r matches Err(e) ==> e == ProtocolError::ThresholdNotMet || e
                        == ProtocolError::SecretReconstructionFailed
                    &&& (r == Err::<ServerOutput, ProtocolError>(
                        ProtocolError::SecretReconstructionFailed,
                    )) <==> c.collected().entries().len() >= old(self).threshold() && !unmaskable(
                        c.collected(),
                        alive.ids(),
                        dropped,
                        rand_pks@,
                    )
                    &&& r matches Ok(out) ==> final(self).state() is Done && match out {
                        ServerOutput::Gradient(res) => res@ == sum_spec(
                            unmasking_terms(
                                c.collected(),
                                alive.ids(),
                                dropped,
                                rand_pks@,
                                views(vecs@),
                                old(self).vec_len() as nat,
                            ),
                            old(self).vec_len() as nat,
                        ),
                        _ => false,
                    }
                },
                _ => true,
            },
    {
        proof {
            use_type_invariant(&*self);
        }
        if matches!(self.state, ServerState::Done) || matches!(self.state, ServerState::Failed) {
            return Err(ProtocolError::RoundMismatch);
        }
        let mut state = ServerState::Failed;
        std::mem::swap(&mut state, &mut self.state);
        let (res, next) = match state {
            ServerState::Round0(c) => match round_0(c) {
                Ok((msgs, rand_pks)) => (
                    Ok(ServerOutput::Messages(msgs)),
                    ServerState::Round1(Collector::new(self.threshold), rand_pks),
                ),
                Err(e) => (Err(e), ServerState::Failed),
            },
            ServerState::Round1(c, rand_pks) => match round_1(c) {
                Ok((msgs, sharing)) => (
                    Ok(ServerOutput::Messages(msgs)),
                    ServerState::Round2(Collector::new(self.threshold), rand_pks, sharing),
                ),
                Err(e) => (Err(e), ServerState::Failed),
            },
            ServerState::Round2(c, rand_pks, sharing) => match round_2(c) {
                Ok((msgs, vecs, alive)) => (
                    Ok(ServerOutput::Messages(msgs)),
                    ServerState::Round3(Collector::new(self.threshold), rand_pks, sharing, vecs, alive),
                ),
                Err(e) => (Err(e), ServerState::Failed),
            },
            ServerState::Round3(c, rand_pks, sharing, vecs, alive) => match round_3(c) {
                Ok(msgs) => (
                    Ok(ServerOutput::Messages(msgs)),
                    ServerState::Round4(Collector::new(self.threshold), rand_pks, sharing, vecs, alive),
                ),
                Err(e) => (Err(e), ServerState::Failed),
            },
            ServerState::Round4(c, rand_pks, sharing, vecs, alive) => match round_4(
                c,
                &rand_pks,
                &sharing,
                vecs,
                &alive,
                self.vec_len,
            ) {
                Ok(res) => (Ok(ServerOutput::Gradient(res)), ServerState::Done),
                Err(e) => (Err(e), ServerState::Failed),
            },
            _ => (Err(ProtocolError::RoundMismatch), ServerState::Failed),
        };
        self.state = next;
        res
    }
}

} // verus!
