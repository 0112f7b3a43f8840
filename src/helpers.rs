//! Building blocks of the rounds: masks and their arithmetic, signed values,
//! sealed share records, and the per-round collector.

use vstd::prelude::*;
use rand::{Rng, SeedableRng};
use crate::codec::{from_le, le_bytes, lemma_u64_round_trip, push_u64, read_u64};
use crate::crypto::{
    crypto_secret_unwrap, crypto_secret_wrap, gen_nonce, opened_of, sealed_of, sign, signature_of,
    signature_valid, verify_signature, Key, Nonce, SignPublicKey, SignSecretKey, Signature,
};
use crate::error::ProtocolError;
use crate::idmap::IdMap;

verus! {

/// Component-wise wrapping sum; as long as the shorter of the two.
pub open spec fn zip_add(a: Seq<i64>, b: Seq<i64>) -> Seq<i64> {
    Seq::new(
        if a.len() <= b.len() { a.len() } else { b.len() },
        |i: int| vstd::wrapping::i64_specs::wrapping_add(a[i], b[i]),
    )
}

/// The contents of each vector.
pub open spec fn views(vs: Seq<Vec<i64>>) -> Seq<Seq<i64>> {
    vs.map_values(|v: Vec<i64>| v@)
}

/// `n` zeros.
pub open spec fn zeros(n: nat) -> Seq<i64> {
    Seq::new(n, |i: int| 0i64)
}

/// Folds `zip_add` over the vectors, starting from `n` zeros.
pub open spec fn sum_spec(vs: Seq<Seq<i64>>, n: nat) -> Seq<i64>
    decreases vs.len(),
{
    if vs.len() == 0 {
        zeros(n)
    } else {
        zip_add(sum_spec(vs.drop_last(), n), vs.last())
    }
}

/// Component-wise wrapping product with `l`.
pub open spec fn scale_spec(l: i64, v: Seq<i64>) -> Seq<i64> {
    Seq::new(v.len(), |i: int| vstd::wrapping::i64_specs::wrapping_mul(l, v[i]))
}

/// Word `i` of the ChaCha8 stream of a seed, read as little-endian 64-bit integers.
pub uninterp spec fn chacha_word(seed: Seq<u8>, i: nat) -> i64;

/// The first `length` words of the ChaCha8 stream of a seed.
pub open spec fn chacha_mask(seed: Seq<u8>, length: nat) -> Seq<i64> {
    Seq::new(length, |i: int| chacha_word(seed, i as nat))
}

/// Relies on rand_chacha::ChaCha8Rng::from_seed and rand::Rng::fill: the
/// stream depends on the seed alone, and slot `i` of the slice gets word `i`
/// of it (eight stream bytes, little-endian).
#[verifier::external_body]
pub fn vector_from_seed(seed: [u8; 32], length: usize) -> (r: Vec<i64>)
    ensures
        r@.len() == length,
        forall|i: int| 0 <= i < length ==> #[trigger] r@[i] == chacha_word(seed@, i as nat),
        r@ == chacha_mask(seed@, length as nat),
{
    let mut noise = vec![0i64; length];
    let mut rng = rand_chacha::ChaCha8Rng::from_seed(seed);
    rng.fill(noise.as_mut_slice());
    noise
}

fn zero_vector(n: usize) -> (r: Vec<i64>)
    ensures
        r@ == zeros(n as nat),
{
    let mut r: Vec<i64> = Vec::new();
    let mut i: usize = 0;
    while i < n
        invariant
            i <= n,
            r@ == zeros(i as nat),
        decreases n - i,
    {
        r.push(0i64);
        i = i + 1;
        assert(r@ =~= zeros(i as nat));
    }
    r
}

fn add_into(acc: Vec<i64>, v: &Vec<i64>) -> (r: Vec<i64>)
    ensures
        r@ == zip_add(acc@, v@),
{
    let n = if acc.len() <= v.len() { acc.len() } else { v.len() };
    let mut r: Vec<i64> = Vec::new();
    let mut i: usize = 0;
    while i < n
        invariant
            i <= n,
            n == if acc@.len() <= v@.len() { acc@.len() } else { v@.len() },
            r@ == zip_add(acc@, v@).subrange(0, i as int),
        decreases n - i,
    {
        r.push(acc[i].wrapping_add(v[i]));
        i = i + 1;
        assert(r@ =~= zip_add(acc@, v@).subrange(0, i as int));
    }
    assert(r@ =~= zip_add(acc@, v@));
    r
}

/// Adds the vectors component by component, modulo 2^64, starting from `n`
/// zeros; a shorter vector shortens the result.
pub fn sum_components(v: Vec<Vec<i64>>, n: usize) -> (r: Vec<i64>)
    ensures
        r@ == sum_spec(views(v@), n as nat),
{
    let mut acc = zero_vector(n);
    let mut j: usize = 0;
    while j < v.len()
        invariant
            j <= v@.len(),
            acc@ == sum_spec(views(v@).subrange(0, j as int), n as nat),
        decreases v@.len() - j,
    {
        acc = add_into(acc, &v[j]);
        proof {
            let s = views(v@).subrange(0, j + 1);
            assert(s.drop_last() =~= views(v@).subrange(0, j as int));
        }
        j = j + 1;
    }
    assert(views(v@).subrange(0, v@.len() as int) =~= views(v@));
    acc
}

/// Multiplies each component by `l`, modulo 2^64.
pub fn scalar_mul(l: i64, v: Vec<i64>) -> (r: Vec<i64>)
    ensures
        r@ == scale_spec(l, v@),
{
    let mut r: Vec<i64> = Vec::new();
    let mut i: usize = 0;
    while i < v.len()
        invariant
            i <= v@.len(),
            r@ == scale_spec(l, v@).subrange(0, i as int),
        decreases v@.len() - i,
    {
        r.push(l.wrapping_mul(v[i]));
        i = i + 1;
        assert(r@ =~= scale_spec(l, v@).subrange(0, i as int));
    }
    assert(r@ =~= scale_spec(l, v@));
    r
}

/// A value that can be signed: it has a canonical byte form.
pub trait Signable {
    spec fn message(&self) -> Seq<u8>;

    fn as_message(&self) -> (r: Vec<u8>)
        ensures
            r@ == self.message(),
    ;
}

impl Signable for [u8; 32] {
    open spec fn message(&self) -> Seq<u8> {
        self@
    }

    fn as_message(&self) -> (r: Vec<u8>) {
        let mut r: Vec<u8> = Vec::new();
        let mut i: usize = 0;
        while i < 32
            invariant
                i <= 32,
                r@ == self@.subrange(0, i as int),
            decreases 32 - i,
        {
            r.push(self[i]);
            i = i + 1;
            assert(r@ =~= self@.subrange(0, i as int));
        }
        assert(r@ =~= self@);
        r
    }
}

/// A value with a signature over its byte form.
#[derive(Clone, Copy)]
pub struct Signed<T: Signable> {
    pub msg: T,
    pub sig: Signature,
}

impl<T: Signable> Signed<T> {
    pub fn wrap(msg: T, sk: &SignSecretKey) -> (r: Signed<T>)
        ensures
            r.msg == msg,
            r.sig@ == signature_of(msg.message(), sk@),
    {
        let m = msg.as_message();
        let sig = sign(m.as_slice(), sk);
        Signed { msg, sig }
    }

    pub fn verify(&self, pk: &SignPublicKey) -> (r: Result<(), ()>)
        ensures
            r.is_ok() == signature_valid(self.msg.message(), self.sig@, pk@),
    {
        let m = self.msg.as_message();
        verify_signature(m.as_slice(), &self.sig, pk)
    }

    pub fn msg(&self) -> (r: &T)
        ensures
            *r == self.msg,
    {
        &self.msg
    }

    pub fn into_msg(self) -> (r: T)
        ensures
            r == self.msg,
    {
        self.msg
    }
}

/// What one user sends another in round one: where it comes from, where it
/// goes, and the recipient's shares of the sender's two secrets.
pub struct MaskGenShares {
    pub u: usize,
    pub v: usize,
    pub rand_sk_share: Vec<u8>,
    pub seed_share: Vec<u8>,
}

/// The byte form of a share record: sender, recipient, then each share
/// after its length.
pub open spec fn shares_bytes(u: usize, v: usize, a: Seq<u8>, b: Seq<u8>) -> Seq<u8> {
    le_bytes(u as nat, 8) + le_bytes(v as nat, 8) + le_bytes(a.len(), 8) + a + le_bytes(
        b.len(),
        8,
    ) + b
}

/// The share record that bytes hold, if they hold one.
pub open spec fn parse_shares(b: Seq<u8>) -> Option<(usize, usize, Seq<u8>, Seq<u8>)> {
    if b.len() < 32 {
        None
    } else {
        let la = from_le(b.subrange(16, 24)) as int;
        if b.len() < 32 + la {
            None
        } else {
            let lb = from_le(b.subrange(24 + la, 32 + la)) as int;
            if b.len() != 32 + la + lb || from_le(b.subrange(0, 8)) > usize::MAX || from_le(
                b.subrange(8, 16),
            ) > usize::MAX {
                None
            } else {
                Some(
                    (
                        from_le(b.subrange(0, 8)) as usize,
                        from_le(b.subrange(8, 16)) as usize,
                        b.subrange(24, 24 + la),
                        b.subrange(32 + la, 32 + la + lb),
                    ),
                )
            }
        }
    }
}

/// A share record reads back as itself: sealing a record and opening it
/// gives the same sender, recipient and shares.
pub proof fn lemma_shares_round_trip(u: usize, v: usize, a: Seq<u8>, b: Seq<u8>)
    requires
        a.len() <= u64::MAX,
        b.len() <= u64::MAX,
    ensures
        parse_shares(shares_bytes(u, v, a, b)) == Some((u, v, a, b)),
{
    let bytes = shares_bytes(u, v, a, b);
    lemma_u64_round_trip(u as nat);
    lemma_u64_round_trip(v as nat);
    lemma_u64_round_trip(a.len());
    lemma_u64_round_trip(b.len());
    let la = a.len() as int;
    let lb = b.len() as int;
    assert(bytes.len() == 32 + la + lb);
    assert(bytes.subrange(0, 8) =~= le_bytes(u as nat, 8));
    assert(bytes.subrange(8, 16) =~= le_bytes(v as nat, 8));
    assert(bytes.subrange(16, 24) =~= le_bytes(a.len(), 8));
    assert(bytes.subrange(24, 24 + la) =~= a);
    assert(bytes.subrange(24 + la, 32 + la) =~= le_bytes(b.len(), 8));
    assert(bytes.subrange(32 + la, 32 + la + lb) =~= b);
}

fn append_bytes(out: &mut Vec<u8>, b: &Vec<u8>)
    ensures
        final(out)@ == old(out)@ + b@,
{
    let ghost start = old(out)@;
    let mut i: usize = 0;
    while i < b.len()
        invariant
            i <= b@.len(),
            out@ == start + b@.subrange(0, i as int),
        decreases b@.len() - i,
    {
        out.push(b[i]);
        i = i + 1;
        assert(out@ =~= start + b@.subrange(0, i as int));
    }
    assert(b@.subrange(0, b@.len() as int) =~= b@);
}

fn copy_range(b: &Vec<u8>, from: usize, to: usize) -> (r: Vec<u8>)
    requires
        from <= to <= b@.len(),
    ensures
        r@ == b@.subrange(from as int, to as int),
{
    let mut r: Vec<u8> = Vec::new();
    let mut i: usize = from;
    while i < to
        invariant
            from <= i <= to,
            to <= b@.len(),
            r@ == b@.subrange(from as int, i as int),
        decreases to - i,
    {
        r.push(b[i]);
        i = i + 1;
        assert(r@ =~= b@.subrange(from as int, i as int));
    }
    r
}

impl MaskGenShares {
    pub fn new(u: usize, v: usize, rand_sk_share: Vec<u8>, seed_share: Vec<u8>) -> (r: Self)
        ensures
            r.u == u,
            r.v == v,
            r.rand_sk_share == rand_sk_share,
            r.seed_share == seed_share,
    {
        MaskGenShares { u, v, rand_sk_share, seed_share }
    }

    pub fn to_bytes(&self) -> (r: Vec<u8>)
        ensures
            r@ == shares_bytes(self.u, self.v, self.rand_sk_share@, self.seed_share@),
    {
        let mut out: Vec<u8> = Vec::new();
        push_u64(&mut out, self.u as u64);
        push_u64(&mut out, self.v as u64);
        push_u64(&mut out, self.rand_sk_share.len() as u64);
        append_bytes(&mut out, &self.rand_sk_share);
        push_u64(&mut out, self.seed_share.len() as u64);
        append_bytes(&mut out, &self.seed_share);
        assert(out@ =~= shares_bytes(self.u, self.v, self.rand_sk_share@, self.seed_share@));
        out
    }

    pub fn from_bytes(b: &Vec<u8>) -> (r: Option<Self>)
        ensures
            match (r, parse_shares(b@)) {
                (Some(m), Some(p)) => p == (m.u, m.v, m.rand_sk_share@, m.seed_share@),
                (None, None) => true,
                _ => false,
            },
    {
        let n = b.len();
        if n < 32 {
            return None;
        }
        let la = read_u64(b.as_slice(), 16);
        if (n as u64) < 32 || ((n - 32) as u64) < la {
            return None;
        }
        let la = la as usize;
        let lb = read_u64(b.as_slice(), 24 + la);
        if ((n - 32 - la) as u64) != lb {
            return None;
        }
        let u = read_u64(b.as_slice(), 0);
        let v = read_u64(b.as_slice(), 8);
        if u > usize::MAX as u64 || v > usize::MAX as u64 {
            return None;
        }
        let a = copy_range(b, 24, 24 + la);
        let s = copy_range(b, 32 + la, n);
        Some(MaskGenShares { u: u as usize, v: v as usize, rand_sk_share: a, seed_share: s })
    }
}

/// A share that a user reveals in the last round.
pub enum RevealedShare {
    RandSk(Vec<u8>),
    Seed(Vec<u8>),
}

/// A secret box and the nonce it was sealed under.
pub struct CryptoMsg {
    pub nonce: Nonce,
    pub c: Vec<u8>,
}

impl CryptoMsg {
    /// Seals `m` under `k` and the given nonce.
    pub fn seal(m: &[u8], k: Key, nonce: Nonce) -> (r: Self)
        ensures
            r.nonce == nonce,
            r.c@ == sealed_of(m@, nonce@, k@),
            opened_of(r.c@, nonce@, k@) == Some(m@),
    {
        match crypto_secret_wrap(m, nonce, k) {
            Ok(c) => CryptoMsg { nonce, c },
            Err(()) => {
                assert(false);
                CryptoMsg { nonce, c: Vec::new() }
            },
        }
    }

    /// Seals `m` under `k` with a fresh nonce; fails only when no random
    /// nonce can be had.
    pub fn new(m: &[u8], k: Key) -> (r: Result<Self, ()>)
        ensures
            r matches Ok(cm) ==> cm.c@ == sealed_of(m@, cm.nonce@, k@) && opened_of(
                cm.c@,
                cm.nonce@,
                k@,
            ) == Some(m@),
    {
        let nonce = gen_nonce()?;
        Ok(CryptoMsg::seal(m, k, nonce))
    }

    /// A copy of the box and its nonce.
    pub fn duplicate(&self) -> (r: Self)
        ensures
            r.nonce == self.nonce,
            r.c@ == self.c@,
    {
        let c = self.c.clone();
        assert(c@ =~= self.c@);
        CryptoMsg { nonce: self.nonce, c }
    }

    pub fn unwrap(&self, k: Key) -> (r: Result<Vec<u8>, ()>)
        ensures
            match r {
                Ok(m) => opened_of(self.c@, self.nonce@, k@) == Some(m@),
                Err(_) => opened_of(self.c@, self.nonce@, k@) is None,
            },
    {
        crypto_secret_unwrap(self.c.as_slice(), self.nonce, k)
    }
}

/// A signature over the set of alive ids.
#[derive(Clone, Copy)]
pub struct BundledSignature {
    pub sig: Signature,
}

impl BundledSignature {
    pub fn new(sig: Signature) -> (r: Self)
        ensures
            r.sig == sig,
    {
        BundledSignature { sig }
    }
}

/// Gathers one contribution per id for a round; releases them once at least
/// `threshold` ids have contributed.
pub struct Collector<T> {
    threshold: usize,
    map: IdMap<T>,
}

impl<T> Collector<T> {
    pub closed spec fn threshold(&self) -> usize {
        self.threshold
    }

    /// What has been collected so far.
    pub closed spec fn collected(&self) -> IdMap<T> {
        self.map
    }

    pub fn new(threshold: usize) -> (r: Self)
        ensures
            r.threshold() == threshold,
            r.collected()@ == Map::<usize, T>::empty(),
            r.collected().entries().len() == 0,
    {
        Collector { threshold, map: IdMap::new() }
    }

    /// Records `x` from `id`; a second contribution from the same id replaces the first.
    pub fn recv(&mut self, id: usize, x: T)
        ensures
            final(self).threshold() == old(self).threshold(),
            final(self).collected()@ == old(self).collected()@.insert(id, x),
            final(self).collected().entries().len() == old(self).collected().entries().len()
                + if old(self).collected()@.contains_key(id) {
                0int
            } else {
                1int
            },
    {
        self.map.insert(id, x);
    }

    pub fn threshold_value(&self) -> (r: usize)
        ensures
            r == self.threshold(),
    {
        self.threshold
    }

    /// What has been collected so far, without releasing it.
    pub fn contents(&self) -> (r: &IdMap<T>)
        ensures
            *r == self.collected(),
    {
        &self.map
    }

    /// The collected contributions, if there are at least `threshold` of them.
    pub fn get(self) -> (r: Result<IdMap<T>, ProtocolError>)
        ensures
            match r {
                Ok(m) => self.collected().entries().len() >= self.threshold() && m == self.collected(),
                Err(e) => self.collected().entries().len() < self.threshold() && e
                    == ProtocolError::ThresholdNotMet,
            },
    {
        if self.map.len() < self.threshold {
            Err(ProtocolError::ThresholdNotMet)
        } else {
            Ok(self.map)
        }
    }
}

} // verus!
