//! Little-endian framing of integers and of sets of ids: the bytes that are
//! signed or sealed must be the same at both ends.

use vstd::prelude::*;
use vstd::arithmetic::power::pow;

verus! {

/// The `n` low bytes of `x`, least significant first.
pub open spec fn le_bytes(x: nat, n: nat) -> Seq<u8>
    decreases n,
{
    if n == 0 {
        Seq::empty()
    } else {
        seq![(x % 256) as u8] + le_bytes(x / 256, (n - 1) as nat)
    }
}

/// The number that little-endian bytes stand for.
pub open spec fn from_le(s: Seq<u8>) -> nat
    decreases s.len(),
{
    if s.len() == 0 {
        0
    } else {
        s[0] as nat + 256 * from_le(s.drop_first())
    }
}

/// The bytes of a sequence of ids: each as eight little-endian bytes.
pub open spec fn ids_bytes(s: Seq<usize>) -> Seq<u8>
    decreases s.len(),
{
    if s.len() == 0 {
        Seq::empty()
    } else {
        ids_bytes(s.drop_last()) + le_bytes(s.last() as nat, 8)
    }
}

/// The bytes of a set of ids, given in increasing order: its size, then each id.
pub open spec fn id_set_bytes(s: Seq<usize>) -> Seq<u8> {
    le_bytes(s.len(), 8) + ids_bytes(s)
}

pub proof fn lemma_le_bytes_len(x: nat, n: nat)
    ensures
        le_bytes(x, n).len() == n,
    decreases n,
{
    if n > 0 {
        lemma_le_bytes_len(x / 256, (n - 1) as nat);
    }
}

pub proof fn lemma_from_le_bound(s: Seq<u8>)
    ensures
        from_le(s) < pow(256, s.len()),
    decreases s.len(),
{
    vstd::arithmetic::power::lemma_pow_positive(256, s.len());
    if s.len() > 0 {
        lemma_from_le_bound(s.drop_first());
        let r = from_le(s.drop_first());
        let p = pow(256, (s.len() - 1) as nat);
        vstd::arithmetic::power::lemma_pow_adds(256, 1, (s.len() - 1) as nat);
        vstd::arithmetic::power::lemma_pow1(256);
        assert(s[0] as nat + 256 * r < 256 * p) by (nonlinear_arith)
            requires
                r < p,
                s[0] < 256,
        ;
    }
}

/// Reading back `n` little-endian bytes gives the number modulo 256^n.
pub proof fn lemma_from_le_bytes(x: nat, n: nat)
    ensures
        from_le(le_bytes(x, n)) == (x as int) % pow(256, n),
    decreases n,
{
    reveal_with_fuel(pow, 2);
    if n == 0 {
        vstd::arithmetic::div_mod::lemma_mod_bound(x as int, 1);
    } else {
        let rest = le_bytes(x / 256, (n - 1) as nat);
        lemma_from_le_bytes(x / 256, (n - 1) as nat);
        assert(le_bytes(x, n).drop_first() =~= rest);
        let p = pow(256, (n - 1) as nat);
        vstd::arithmetic::power::lemma_pow_positive(256, (n - 1) as nat);
        vstd::arithmetic::div_mod::lemma_breakdown(x as int, 256, p);
        vstd::arithmetic::power::lemma_pow_adds(256, 1, (n - 1) as nat);
        vstd::arithmetic::power::lemma_pow1(256);
    }
}

/// Eight little-endian bytes of a 64-bit number read back as that number.
pub proof fn lemma_u64_round_trip(x: nat)
    requires
        x <= u64::MAX,
    ensures
        from_le(le_bytes(x, 8)) == x,
        le_bytes(x, 8).len() == 8,
{
    lemma_from_le_bytes(x, 8);
    lemma_le_bytes_len(x, 8);
    reveal_with_fuel(pow, 9);
    assert(pow(256, 8) == 0x1_0000_0000_0000_0000);
    vstd::arithmetic::div_mod::lemma_small_mod(x, pow(256, 8) as nat);
}

/// Appends the eight little-endian bytes of `x`.
pub fn push_u64(out: &mut Vec<u8>, x: u64)
    ensures
        final(out)@ == old(out)@ + le_bytes(x as nat, 8),
{
    let ghost start = old(out)@;
    let mut cur: u64 = x;
    let mut k: usize = 0;
    while k < 8
        invariant
            k <= 8,
            out@ + le_bytes(cur as nat, (8 - k) as nat) == start + le_bytes(x as nat, 8),
        decreases 8 - k,
    {
        let ghost before = out@;
        out.push((cur % 256) as u8);
        proof {
            assert(le_bytes(cur as nat, (8 - k) as nat) == seq![(cur % 256) as u8] + le_bytes(
                (cur / 256) as nat,
                (8 - k - 1) as nat,
            ));
            assert(out@ + le_bytes((cur / 256) as nat, (8 - k - 1) as nat) =~= before + le_bytes(
                cur as nat,
                (8 - k) as nat,
            ));
        }
        cur = cur / 256;
        k = k + 1;
    }
    assert(out@ =~= start + le_bytes(x as nat, 8));
}

/// The number held by the eight bytes of `b` from `at` on.
pub fn read_u64(b: &[u8], at: usize) -> (r: u64)
    requires
        at + 8 <= b@.len(),
    ensures
        r as nat == from_le(b@.subrange(at as int, at + 8)),
{
    let n = b.len();
    let mut acc: u64 = 0;
    let mut k: usize = 8;
    while k > 0
        invariant
            k <= 8,
            at + 8 <= b@.len(),
            n == b@.len(),
            acc as nat == from_le(b@.subrange(at + k, at + 8)),
        decreases k,
    {
        let ghost tail = b@.subrange(at + k, at + 8);
        let ghost s = b@.subrange(at + k - 1, at + 8);
        proof {
            assert(s.drop_first() =~= tail);
            lemma_from_le_bound(tail);
            vstd::arithmetic::power::lemma_pow_increases(256, tail.len(), 7);
            reveal_with_fuel(pow, 8);
            assert(pow(256, 7) == 0x100000000000000);
        }
        let byte = b[at + (k - 1)];
        acc = acc * 256 + byte as u64;
        k = k - 1;
    }
    acc
}

/// Appends the bytes of a set of ids, given in increasing order.
pub fn push_id_set(out: &mut Vec<u8>, ids: &Vec<usize>)
    ensures
        final(out)@ == old(out)@ + id_set_bytes(ids@),
{
    let ghost start = old(out)@;
    push_u64(out, ids.len() as u64);
    let mut i: usize = 0;
    while i < ids.len()
        invariant
            i <= ids@.len(),
            out@ == start + le_bytes(ids@.len(), 8) + ids_bytes(ids@.subrange(0, i as int)),
        decreases ids@.len() - i,
    {
        let ghost before = out@;
        push_u64(out, ids[i] as u64);
        proof {
            let s = ids@.subrange(0, i + 1);
            assert(s.drop_last() =~= ids@.subrange(0, i as int));
            assert(out@ =~= start + le_bytes(ids@.len(), 8) + ids_bytes(s));
        }
        i = i + 1;
    }
    assert(ids@.subrange(0, ids@.len() as int) =~= ids@);
    assert(out@ =~= start + id_set_bytes(ids@));
}

} // verus!
