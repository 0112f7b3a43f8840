//! What the protocol guarantees across rounds and parties, proved over the
//! contracts of the rounds.

use vstd::prelude::*;
use crate::crypto::{x25519_of, KAPublicKey};
use crate::helpers::{chacha_mask, chacha_word, sum_spec, RevealedShare};
use crate::idmap::IdMap;
use crate::server::{
    alive_correction, dropped_correction, minus, pair_masks_of, secret_of, unmasking_terms,
};
use crate::user::{masked_terms, pair_mask, pair_sign};

verus! {

/// The residue of `x` modulo 2^64.
pub open spec fn residue(x: int) -> int {
    x % 0x1_0000_0000_0000_0000
}

/// Sum of `f(k)` for `k` below `n`.
pub open spec fn idx_sum(n: nat, f: spec_fn(int) -> int) -> int
    decreases n,
{
    if n == 0 {
        0
    } else {
        idx_sum((n - 1) as nat, f) + f(n - 1)
    }
}

/// Component `i` of the vectors, summed without wrapping.
pub open spec fn col_sum(vs: Seq<Seq<i64>>, i: int) -> int
    decreases vs.len(),
{
    if vs.len() == 0 {
        0
    } else {
        col_sum(vs.drop_last(), i) + vs.last()[i]
    }
}

proof fn lemma_wrapping_add(a: i64, b: i64)
    ensures
        residue(vstd::wrapping::i64_specs::wrapping_add(a, b) as int) == residue(a + b),
{
    let s = a + b;
    let r = vstd::wrapping::i64_specs::wrapping_add(a, b) as int;
    if s > i64::MAX {
        assert(r == s - 0x1_0000_0000_0000_0000);
        vstd::arithmetic::div_mod::lemma_mod_sub_multiples_vanish(s, 0x1_0000_0000_0000_0000);
    } else if s < i64::MIN {
        assert(r == s + 0x1_0000_0000_0000_0000);
        vstd::arithmetic::div_mod::lemma_mod_add_multiples_vanish(s, 0x1_0000_0000_0000_0000);
    }
}

proof fn lemma_wrapping_mul(l: i64, x: i64)
    ensures
        residue(vstd::wrapping::i64_specs::wrapping_mul(l, x) as int) == residue(l * x),
{
    let p = l * x;
    let m = p % 0x1_0000_0000_0000_0000;
    vstd::arithmetic::div_mod::lemma_mod_bound(p, 0x1_0000_0000_0000_0000);
    vstd::arithmetic::div_mod::lemma_mod_twice(p, 0x1_0000_0000_0000_0000);
    if m > i64::MAX {
        vstd::arithmetic::div_mod::lemma_mod_sub_multiples_vanish(m, 0x1_0000_0000_0000_0000);
    }
}

/// Two 64-bit integers with one residue are equal.
proof fn lemma_residue_eq(a: i64, b: i64)
    requires
        residue(a as int) == residue(b as int),
    ensures
        a == b,
{
    let d = a - b;
    vstd::arithmetic::div_mod::lemma_fundamental_div_mod(a as int, 0x1_0000_0000_0000_0000);
    vstd::arithmetic::div_mod::lemma_fundamental_div_mod(b as int, 0x1_0000_0000_0000_0000);
    let qa = (a as int) / 0x1_0000_0000_0000_0000;
    let qb = (b as int) / 0x1_0000_0000_0000_0000;
    assert(d == 0x1_0000_0000_0000_0000 * (qa - qb)) by (nonlinear_arith)
        requires
            a == 0x1_0000_0000_0000_0000 * qa + residue(a as int),
            b == 0x1_0000_0000_0000_0000 * qb + residue(b as int),
            residue(a as int) == residue(b as int),
            d == a - b,
    ;
    assert(qa - qb == 0) by (nonlinear_arith)
        requires
            d == 0x1_0000_0000_0000_0000 * (qa - qb),
            -0x1_0000_0000_0000_0000 < d < 0x1_0000_0000_0000_0000,
    ;
}

/// Each component of a wrapping sum is the plain sum, modulo 2^64.
proof fn lemma_sum_spec_col(vs: Seq<Seq<i64>>, n: nat, i: int)
    requires
        0 <= i < n,
        forall|j: int| 0 <= j < vs.len() ==> (#[trigger] vs[j]).len() == n,
    ensures
        sum_spec(vs, n).len() == n,
        residue(sum_spec(vs, n)[i] as int) == residue(col_sum(vs, i)),
    decreases vs.len(),
{
    if vs.len() > 0 {
        let prev = vs.drop_last();
        lemma_sum_spec_col(prev, n, i);
        let p = sum_spec(prev, n)[i];
        let l = vs.last()[i];
        lemma_wrapping_add(p, l);
        vstd::arithmetic::div_mod::lemma_add_mod_noop(p as int, l as int, 0x1_0000_0000_0000_0000);
        vstd::arithmetic::div_mod::lemma_add_mod_noop(col_sum(prev, i), l as int, 0x1_0000_0000_0000_0000);
        vstd::arithmetic::div_mod::lemma_mod_twice(p as int, 0x1_0000_0000_0000_0000);
        vstd::arithmetic::div_mod::lemma_mod_twice(col_sum(prev, i), 0x1_0000_0000_0000_0000);
    }
}

proof fn lemma_idx_sum_ext(n: nat, f: spec_fn(int) -> int, g: spec_fn(int) -> int)
    requires
        forall|k: int| 0 <= k < n ==> #[trigger] f(k) == g(k),
    ensures
        idx_sum(n, f) == idx_sum(n, g),
    decreases n,
{
    if n > 0 {
        lemma_idx_sum_ext((n - 1) as nat, f, g);
    }
}

proof fn lemma_idx_sum_add(n: nat, f: spec_fn(int) -> int, g: spec_fn(int) -> int)
    ensures
        idx_sum(n, |k: int| f(k) + g(k)) == idx_sum(n, f) + idx_sum(n, g),
    decreases n,
{
    if n > 0 {
        lemma_idx_sum_add((n - 1) as nat, f, g);
    }
}

proof fn lemma_idx_sum_neg(n: nat, f: spec_fn(int) -> int)
    ensures
        idx_sum(n, |k: int| -f(k)) == -idx_sum(n, f),
    decreases n,
{
    if n > 0 {
        lemma_idx_sum_neg((n - 1) as nat, f);
    }
}

proof fn lemma_idx_sum_zero(n: nat)
    ensures
        idx_sum(n, |k: int| 0) == 0,
    decreases n,
{
    if n > 0 {
        lemma_idx_sum_zero((n - 1) as nat);
    }
}

/// Summing a table by rows or by columns gives the same.
proof fn lemma_fubini(n: nat, m: nat, f: spec_fn(int, int) -> int)
    ensures
        idx_sum(n, |a: int| idx_sum(m, |b: int| f(a, b))) == idx_sum(
            m,
            |b: int| idx_sum(n, |a: int| f(a, b)),
        ),
    decreases n,
{
    if n > 0 {
        let n1 = (n - 1) as nat;
        lemma_fubini(n1, m, f);
        let row = |a: int| idx_sum(m, |b: int| f(a, b));
        let cols = |b: int| idx_sum(n1, |a: int| f(a, b));
        let cols_n = |b: int| idx_sum(n, |a: int| f(a, b));
        let last = |b: int| f(n1 as int, b);
        assert(idx_sum(n, row) == idx_sum(n1, row) + row(n1 as int));
        assert(idx_sum(n1, row) == idx_sum(m, cols));
        lemma_idx_sum_add(m, cols, last);
        lemma_idx_sum_ext(m, cols_n, |b: int| cols(b) + last(b));
        assert(row(n1 as int) == idx_sum(m, last)) by {
            lemma_idx_sum_ext(m, |b: int| f(n1 as int, b), last);
        }
        assert(idx_sum(n, row) == idx_sum(m, cols_n));
        assert((|a: int| idx_sum(m, |b: int| f(a, b))) =~= row);
        assert((|b: int| idx_sum(n, |a: int| f(a, b))) =~= cols_n);
        assert(idx_sum(n, |a: int| idx_sum(m, |b: int| f(a, b))) == idx_sum(n, row));
    } else {
        assert(idx_sum(m, |b: int| idx_sum(n, |a: int| f(a, b))) == 0) by {
            lemma_idx_sum_ext(m, |b: int| idx_sum(n, |a: int| f(a, b)), |b: int| 0);
            lemma_idx_sum_zero(m);
        }
    }
}

/// Residues of sums depend on the residues of the terms alone.
proof fn lemma_idx_sum_residue(n: nat, f: spec_fn(int) -> int, g: spec_fn(int) -> int)
    requires
        forall|k: int| 0 <= k < n ==> residue(#[trigger] f(k)) == residue(g(k)),
    ensures
        residue(idx_sum(n, f)) == residue(idx_sum(n, g)),
    decreases n,
{
    if n > 0 {
        let n1 = (n - 1) as nat;
        lemma_idx_sum_residue(n1, f, g);
        let m: int = 0x1_0000_0000_0000_0000;
        vstd::arithmetic::div_mod::lemma_add_mod_noop(idx_sum(n1, f), f(n1 as int), m);
        vstd::arithmetic::div_mod::lemma_add_mod_noop(idx_sum(n1, g), g(n1 as int), m);
    }
}

proof fn lemma_col_sum_concat(a: Seq<Seq<i64>>, b: Seq<Seq<i64>>, i: int)
    ensures
        col_sum(a + b, i) == col_sum(a, i) + col_sum(b, i),
    decreases b.len(),
{
    if b.len() == 0 {
        assert(a + b =~= a);
    } else {
        lemma_col_sum_concat(a, b.drop_last(), i);
        assert((a + b).drop_last() =~= a + b.drop_last());
    }
}

proof fn lemma_col_sum_new(n: nat, f: spec_fn(int) -> Seq<i64>, i: int)
    ensures
        col_sum(Seq::new(n, f), i) == idx_sum(n, |k: int| f(k)[i] as int),
    decreases n,
{
    if n > 0 {
        lemma_col_sum_new((n - 1) as nat, f, i);
        assert(Seq::new(n, f).drop_last() =~= Seq::new((n - 1) as nat, f));
    }
}

/// The ids of `s` that are in `a`, in order.
pub open spec fn keep(s: Seq<usize>, a: Set<usize>) -> Seq<usize>
    decreases s.len(),
{
    if s.len() == 0 {
        s
    } else if a.contains(s.last()) {
        keep(s.drop_last(), a).push(s.last())
    } else {
        keep(s.drop_last(), a)
    }
}

/// Sum of `h` over the ids of `s`.
pub open spec fn over(s: Seq<usize>, h: spec_fn(usize) -> int) -> int {
    idx_sum(s.len(), |j: int| h(s[j]))
}

proof fn lemma_over_push(s: Seq<usize>, x: usize, h: spec_fn(usize) -> int)
    ensures
        over(s.push(x), h) == over(s, h) + h(x),
{
    let t = s.push(x);
    assert(idx_sum(t.len(), |j: int| h(t[j])) == idx_sum(s.len(), |j: int| h(t[j])) + h(x));
    lemma_idx_sum_ext(s.len(), |j: int| h(t[j]), |j: int| h(s[j]));
}

proof fn lemma_over_ext(s: Seq<usize>, h: spec_fn(usize) -> int, g: spec_fn(usize) -> int)
    requires
        forall|j: int| 0 <= j < s.len() ==> #[trigger] h(s[j]) == g(s[j]),
    ensures
        over(s, h) == over(s, g),
{
    lemma_idx_sum_ext(s.len(), |j: int| h(s[j]), |j: int| g(s[j]));
}

/// A sum over `s` splits into the sum over the ids kept and the ids left out.
proof fn lemma_over_split(s: Seq<usize>, a: Set<usize>, h: spec_fn(usize) -> int)
    ensures
        over(s, h) == over(keep(s, a), h) + over(crate::server::minus(s, a), h),
    decreases s.len(),
{
    if s.len() > 0 {
        let p = s.drop_last();
        lemma_over_split(p, a, h);
        assert(p.push(s.last()) =~= s);
        lemma_over_push(p, s.last(), h);
        if a.contains(s.last()) {
            lemma_over_push(keep(p, a), s.last(), h);
        } else {
            lemma_over_push(crate::server::minus(p, a), s.last(), h);
        }
    } else {
        assert(over(s, h) == 0);
    }
}

/// Double sums over two lists of ids can be taken in either order.
proof fn lemma_over_swap(a: Seq<usize>, b: Seq<usize>, g: spec_fn(usize, usize) -> int)
    ensures
        over(a, |x: usize| over(b, |y: usize| g(x, y))) == over(
            b,
            |y: usize| over(a, |x: usize| g(x, y)),
        ),
{
    let f = |k: int, j: int| g(a[k], b[j]);
    lemma_fubini(a.len(), b.len(), f);
    assert((|k: int| (|x: usize| over(b, |y: usize| g(x, y)))(a[k])) =~= (|k: int|
        idx_sum(b.len(), |j: int| f(k, j)))) by {
        assert forall|k: int| over(b, |y: usize| g(#[trigger] a[k], y))
            == idx_sum(b.len(), |j: int| f(k, j)) by {
            lemma_idx_sum_ext(b.len(), |j: int| (|y: usize| g(a[k], y))(b[j]), |j: int| f(k, j));
        }
    }
    assert((|j: int| (|y: usize| over(a, |x: usize| g(x, y)))(b[j])) =~= (|j: int|
        idx_sum(a.len(), |k: int| f(k, j)))) by {
        assert forall|j: int| over(a, |x: usize| g(x, #[trigger] b[j]))
            == idx_sum(a.len(), |k: int| f(k, j)) by {
            lemma_idx_sum_ext(a.len(), |k: int| (|x: usize| g(x, b[j]))(a[k]), |k: int| f(k, j));
        }
    }
}

proof fn lemma_over_add(s: Seq<usize>, h: spec_fn(usize) -> int, g: spec_fn(usize) -> int)
    ensures
        over(s, |x: usize| h(x) + g(x)) == over(s, h) + over(s, g),
{
    lemma_idx_sum_add(s.len(), |j: int| h(s[j]), |j: int| g(s[j]));
    lemma_idx_sum_ext(
        s.len(),
        |j: int| (|x: usize| h(x) + g(x))(s[j]),
        |j: int| (|j: int| h(s[j]))(j) + (|j: int| g(s[j]))(j),
    );
}

proof fn lemma_over_neg(s: Seq<usize>, h: spec_fn(usize) -> int)
    ensures
        over(s, |x: usize| -h(x)) == -over(s, h),
{
    lemma_idx_sum_neg(s.len(), |j: int| h(s[j]));
    lemma_idx_sum_ext(s.len(), |j: int| (|x: usize| -h(x))(s[j]), |j: int| -(|j: int| h(s[j]))(j));
}

/// Pairwise terms that change sign when their two ids swap cancel out: summed
/// over the users of `a`, what each shares with the users of `a` and of `d`,
/// plus, summed over the users of `d`, what each shares with the users of `a`,
/// gives zero.
proof fn lemma_pairs_cancel(a: Seq<usize>, d: Seq<usize>, f: spec_fn(usize, usize) -> int)
    requires
        forall|x: usize, y: usize|
            (a.contains(x) || d.contains(x)) && (a.contains(y) || d.contains(y)) ==> #[trigger] f(x, y)
                == -f(y, x),
    ensures
        over(a, |x: usize| over(a, |v: usize| f(v, x)) + over(d, |v: usize| f(v, x))) + over(
            d,
            |y: usize| over(a, |v: usize| f(v, y)),
        ) == 0,
{
    let inner_a = |x: usize| over(a, |v: usize| f(v, x));
    let inner_d = |x: usize| over(d, |v: usize| f(v, x));
    lemma_over_add(a, inner_a, inner_d);
    assert((|x: usize| over(a, |v: usize| f(v, x)) + over(d, |v: usize| f(v, x))) =~= (|x: usize|
        inner_a(x) + inner_d(x)));
    // what the users of `a` share among themselves
    let t = over(a, inner_a);
    let g1 = |x: usize, v: usize| f(v, x);
    lemma_over_swap(a, a, g1);
    let flipped = |v: usize| over(a, |x: usize| f(v, x));
    assert forall|x: usize| #[trigger] inner_a(x) == over(a, |v: usize| g1(x, v)) by {
        lemma_over_ext(a, |v: usize| g1(x, v), |v: usize| f(v, x));
    }
    assert forall|v: usize| #[trigger] flipped(v) == over(a, |x: usize| g1(x, v)) by {
        lemma_over_ext(a, |x: usize| g1(x, v), |x: usize| f(v, x));
    }
    assert((|x: usize| over(a, |v: usize| g1(x, v))) =~= inner_a);
    assert((|v: usize| over(a, |x: usize| g1(x, v))) =~= flipped);
    assert forall|j: int| 0 <= j < a.len() implies #[trigger] flipped(a[j]) == -inner_a(a[j]) by {
        let y = a[j];
        assert(a.contains(y));
        lemma_over_ext(a, |x: usize| f(y, x), |x: usize| -(|v: usize| f(v, y))(x));
        lemma_over_neg(a, |v: usize| f(v, y));
    }
    lemma_over_ext(a, flipped, |x: usize| -inner_a(x));
    lemma_over_neg(a, inner_a);
    assert(t == -t);
    // what the users of `a` share with those of `d`
    let c2 = |y: usize| over(a, |v: usize| f(v, y));
    let g2 = |y: usize, v: usize| f(v, y);
    lemma_over_swap(d, a, g2);
    let back = |v: usize| over(d, |y: usize| f(v, y));
    assert forall|y: usize| #[trigger] c2(y) == over(a, |v: usize| g2(y, v)) by {
        lemma_over_ext(a, |v: usize| g2(y, v), |v: usize| f(v, y));
    }
    assert forall|v: usize| #[trigger] back(v) == over(d, |y: usize| g2(y, v)) by {
        lemma_over_ext(d, |y: usize| g2(y, v), |y: usize| f(v, y));
    }
    assert((|y: usize| over(a, |v: usize| g2(y, v))) =~= c2);
    assert((|v: usize| over(d, |y: usize| g2(y, v))) =~= back);
    assert forall|j: int| 0 <= j < a.len() implies #[trigger] back(a[j]) == -inner_d(a[j]) by {
        let x = a[j];
        assert(a.contains(x));
        assert forall|k: int| 0 <= k < d.len() implies f(x, #[trigger] d[k]) == -f(d[k], x) by {
            assert(d.contains(d[k]));
        }
        lemma_over_ext(d, |y: usize| f(x, y), |y: usize| -(|v: usize| f(v, x))(y));
        lemma_over_neg(d, |v: usize| f(v, x));
    }
    lemma_over_ext(a, back, |x: usize| -inner_d(x));
    lemma_over_neg(a, inner_d);
}

/// Component `i` of the mask that `u` adds for peer `v`, before wrapping.
pub open spec fn pair_term(
    rand_sks: Map<usize, Seq<u8>>,
    rand_pks: Map<usize, KAPublicKey>,
    i: nat,
) -> spec_fn(usize, usize) -> int {
    |v: usize, u: usize|
        pair_sign(v, u) * chacha_word(x25519_of(rand_sks[u], rand_pks[v]@), i) as int
}

proof fn lemma_idx_sum_shift2(n: nat, f: spec_fn(int) -> int)
    ensures
        idx_sum(n + 2, f) == f(0) + f(1) + idx_sum(n, |j: int| f(j + 2)),
    decreases n,
{
    if n > 0 {
        lemma_idx_sum_shift2((n - 1) as nat, f);
    } else {
        assert(idx_sum(2, f) == idx_sum(1, f) + f(1));
        assert(idx_sum(1, f) == idx_sum(0, f) + f(0));
    }
}

proof fn lemma_pair_mask_col(sk: Seq<u8>, pk: Seq<u8>, v: usize, u: usize, len: nat, i: int)
    requires
        0 <= i < len,
    ensures
        pair_mask(sk, pk, v, u, len).len() == len,
        residue(pair_mask(sk, pk, v, u, len)[i] as int) == residue(
            pair_sign(v, u) * chacha_word(x25519_of(sk, pk), i as nat) as int,
        ),
{
    lemma_wrapping_mul(pair_sign(v, u), chacha_word(x25519_of(sk, pk), i as nat));
}

/// Component `i` of the masked vector of user `a` is its own component,
/// its mask's, and the pairwise terms, modulo 2^64.
proof fn lemma_masked_col(
    grad: Seq<i64>,
    seed: Seq<u8>,
    rand_sks: Map<usize, Seq<u8>>,
    rand_pks: Map<usize, KAPublicKey>,
    a: usize,
    peers: Seq<usize>,
    len: nat,
    i: int,
)
    requires
        0 <= i < len,
        grad.len() == len,
    ensures
        sum_spec(masked_terms(grad, seed, rand_sks[a], a, peers, rand_pks), len).len() == len,
        residue(sum_spec(masked_terms(grad, seed, rand_sks[a], a, peers, rand_pks), len)[i] as int)
            == residue(grad[i] + chacha_word(seed, i as nat) + over(
            peers,
            |v: usize| (pair_term(rand_sks, rand_pks, i as nat))(v, a),
        )),
{
    let terms = masked_terms(grad, seed, rand_sks[a], a, peers, rand_pks);
    assert forall|j: int| 0 <= j < terms.len() implies (#[trigger] terms[j]).len() == len by {
        if j >= 2 {
            lemma_pair_mask_col(rand_sks[a], rand_pks[peers[j - 2]]@, peers[j - 2], a, len, i);
        }
    }
    lemma_sum_spec_col(terms, len, i);
    let f = |k: int| terms[k][i] as int;
    assert(Seq::new(terms.len(), |k: int| terms[k]) =~= terms);
    lemma_col_sum_new(terms.len(), |k: int| terms[k], i);
    lemma_idx_sum_ext(terms.len(), |k: int| (|k: int| terms[k])(k)[i] as int, f);
    lemma_idx_sum_shift2(peers.len(), f);
    let pt = pair_term(rand_sks, rand_pks, i as nat);
    assert forall|j: int| 0 <= j < peers.len() implies residue(#[trigger] f(j + 2)) == residue(
        (|j: int| (|v: usize| pt(v, a))(peers[j]))(j),
    ) by {
        lemma_pair_mask_col(rand_sks[a], rand_pks[peers[j]]@, peers[j], a, len, i);
    }
    lemma_idx_sum_residue(peers.len(), |j: int| f(j + 2), |j: int| (|v: usize| pt(v, a))(peers[j]));
    let m: int = 0x1_0000_0000_0000_0000;
    let head = f(0) + f(1);
    vstd::arithmetic::div_mod::lemma_add_mod_noop(head, idx_sum(peers.len(), |j: int| f(j + 2)), m);
    vstd::arithmetic::div_mod::lemma_add_mod_noop(head, over(peers, |v: usize| pt(v, a)), m);
}

proof fn lemma_dropped_col(
    m: IdMap<IdMap<RevealedShare>>,
    d: usize,
    alive: Seq<usize>,
    rand_sks: Map<usize, Seq<u8>>,
    rand_pks: Map<usize, KAPublicKey>,
    len: nat,
    i: int,
)
    requires
        0 <= i < len,
        secret_of(m, d, false) == Some(rand_sks[d]),
    ensures
        dropped_correction(m, d, alive, rand_pks, len).len() == len,
        residue(dropped_correction(m, d, alive, rand_pks, len)[i] as int) == residue(
            over(alive, |v: usize| (pair_term(rand_sks, rand_pks, i as nat))(v, d)),
        ),
{
    let pms = pair_masks_of(rand_sks[d], d, alive, rand_pks, len);
    assert forall|j: int| 0 <= j < pms.len() implies (#[trigger] pms[j]).len() == len by {
        lemma_pair_mask_col(rand_sks[d], rand_pks[alive[j]]@, alive[j], d, len, i);
    }
    lemma_sum_spec_col(pms, len, i);
    assert(Seq::new(pms.len(), |k: int| pms[k]) =~= pms);
    lemma_col_sum_new(pms.len(), |k: int| pms[k], i);
    let pt = pair_term(rand_sks, rand_pks, i as nat);
    assert forall|j: int| 0 <= j < alive.len() implies residue(
        (#[trigger] pms[j])[i] as int,
    ) == residue(pt(alive[j], d)) by {
        lemma_pair_mask_col(rand_sks[d], rand_pks[alive[j]]@, alive[j], d, len, i);
    }
    lemma_idx_sum_residue(
        alive.len(),
        |k: int| (|k: int| pms[k])(k)[i] as int,
        |j: int| (|v: usize| pt(v, d))(alive[j]),
    );
}

proof fn lemma_alive_col(m: IdMap<IdMap<RevealedShare>>, a: usize, seed: Seq<u8>, len: nat, i: int)
    requires
        0 <= i < len,
        secret_of(m, a, true) == Some(seed),
    ensures
        alive_correction(m, a, len).len() == len,
        residue(alive_correction(m, a, len)[i] as int) == residue(
            -(chacha_word(seed, i as nat) as int),
        ),
{
    lemma_wrapping_mul(-1i64, chacha_word(seed, i as nat));
}

proof fn lemma_parts_in(s: Seq<usize>, a: Set<usize>)
    ensures
        forall|k: int| 0 <= k < keep(s, a).len() ==> s.contains(#[trigger] keep(s, a)[k]),
        forall|k: int| 0 <= k < minus(s, a).len() ==> s.contains(#[trigger] minus(s, a)[k]),
    decreases s.len(),
{
    if s.len() > 0 {
        let p = s.drop_last();
        lemma_parts_in(p, a);
        assert forall|x: usize| p.contains(x) implies s.contains(x) by {
            let j = choose|j: int| 0 <= j < p.len() && p[j] == x;
            assert(s[j] == x);
        }
        assert(s[s.len() - 1] == s.last());
        assert(s.contains(s.last()));
        assert forall|k: int| 0 <= k < keep(s, a).len() implies s.contains(#[trigger] keep(s, a)[k]) by {
            if k < keep(p, a).len() {
                assert(p.contains(keep(p, a)[k]));
            }
        }
        assert forall|k: int| 0 <= k < minus(s, a).len() implies s.contains(#[trigger] minus(s, a)[k]) by {
            if k < minus(p, a).len() {
                assert(p.contains(minus(p, a)[k]));
            }
        }
    }
}

proof fn lemma_sum_spec_len(vs: Seq<Seq<i64>>, n: nat)
    requires
        forall|j: int| 0 <= j < vs.len() ==> (#[trigger] vs[j]).len() == n,
    ensures
        sum_spec(vs, n).len() == n,
    decreases vs.len(),
{
    if vs.len() > 0 {
        lemma_sum_spec_len(vs.drop_last(), n);
    }
}

proof fn lemma_pair_term_antisym(
    rand_sks: Map<usize, Seq<u8>>,
    rand_pks: Map<usize, KAPublicKey>,
    sharing: Seq<usize>,
    alive_set: Set<usize>,
    i: nat,
)
    requires
        forall|u: usize, v: usize|
            sharing.contains(u) && sharing.contains(v) ==> #[trigger] x25519_of(rand_sks[u], rand_pks[v]@)
                == #[trigger] x25519_of(rand_sks[v], rand_pks[u]@),
    ensures
        forall|x: usize, y: usize|
            (keep(sharing, alive_set).contains(x) || minus(sharing, alive_set).contains(x)) && (keep(
                sharing,
                alive_set,
            ).contains(y) || minus(sharing, alive_set).contains(y)) ==> #[trigger] (pair_term(
                rand_sks,
                rand_pks,
                i,
            ))(x, y) == -(pair_term(rand_sks, rand_pks, i))(y, x),
{
    let a = keep(sharing, alive_set);
    let d = minus(sharing, alive_set);
    let pt = pair_term(rand_sks, rand_pks, i);
    lemma_parts_in(sharing, alive_set);
    assert forall|x: usize, y: usize|
        (a.contains(x) || d.contains(x)) && (a.contains(y) || d.contains(y)) implies #[trigger] pt(x, y)
        == -pt(y, x) by {
        assert(sharing.contains(x)) by {
            if a.contains(x) {
                let k = choose|k: int| 0 <= k < a.len() && a[k] == x;
                assert(sharing.contains(a[k]));
            } else {
                let k = choose|k: int| 0 <= k < d.len() && d[k] == x;
                assert(sharing.contains(d[k]));
            }
        }
        assert(sharing.contains(y)) by {
            if a.contains(y) {
                let k = choose|k: int| 0 <= k < a.len() && a[k] == y;
                assert(sharing.contains(a[k]));
            } else {
                let k = choose|k: int| 0 <= k < d.len() && d[k] == y;
                assert(sharing.contains(d[k]));
            }
        }
        assert(x25519_of(rand_sks[y], rand_pks[x]@) == x25519_of(rand_sks[x], rand_pks[y]@));
        let w = chacha_word(x25519_of(rand_sks[y], rand_pks[x]@), i) as int;
        assert(pair_sign(x, y) == -pair_sign(y, x));
        vstd::arithmetic::mul::lemma_mul_unary_negation(pair_sign(y, x) as int, w);
    }
}

/// Over the integers: the removed own masks, the dropped users' corrections
/// and the masked vectors add up to the plain vectors.
proof fn lemma_algebra(
    sharing: Seq<usize>,
    alive_set: Set<usize>,
    pt: spec_fn(usize, usize) -> int,
    g: spec_fn(int) -> int,
    s: spec_fn(int) -> int,
)
    requires
        forall|x: usize, y: usize|
            (keep(sharing, alive_set).contains(x) || minus(sharing, alive_set).contains(x)) && (keep(
                sharing,
                alive_set,
            ).contains(y) || minus(sharing, alive_set).contains(y)) ==> #[trigger] pt(x, y) == -pt(y, x),
    ensures
        idx_sum(keep(sharing, alive_set).len(), |k: int| -s(k)) + idx_sum(
            minus(sharing, alive_set).len(),
            |k: int| over(keep(sharing, alive_set), |v: usize| pt(v, minus(sharing, alive_set)[k])),
        ) + idx_sum(
            keep(sharing, alive_set).len(),
            |k: int| g(k) + s(k) + over(sharing, |v: usize| pt(v, keep(sharing, alive_set)[k])),
        ) == idx_sum(keep(sharing, alive_set).len(), g),
{
    let a = keep(sharing, alive_set);
    let d = minus(sharing, alive_set);
    let neg_s = |k: int| -s(k);
    let drop_k = |k: int| over(a, |v: usize| pt(v, d[k]));
    let mv_k = |k: int| g(k) + s(k) + over(sharing, |v: usize| pt(v, a[k]));
    let inner = |x: usize| over(sharing, |v: usize| pt(v, x));
    let inner_a = |x: usize| over(a, |v: usize| pt(v, x));
    let inner_d = |x: usize| over(d, |v: usize| pt(v, x));
    assert forall|x: usize| #[trigger] inner(x) == inner_a(x) + inner_d(x) by {
        lemma_over_split(sharing, alive_set, |v: usize| pt(v, x));
    }
    lemma_idx_sum_add(a.len(), |k: int| g(k) + s(k), |k: int| inner(a[k]));
    lemma_idx_sum_ext(a.len(), mv_k, |k: int| (|k: int| g(k) + s(k))(k) + (|k: int| inner(a[k]))(k));
    lemma_idx_sum_add(a.len(), g, s);
    lemma_idx_sum_neg(a.len(), s);
    lemma_idx_sum_ext(a.len(), neg_s, |k: int| -s(k));
    lemma_over_ext(a, inner, |x: usize| inner_a(x) + inner_d(x));
    lemma_over_add(a, inner_a, inner_d);
    lemma_idx_sum_ext(d.len(), drop_k, |j: int| (|y: usize| over(a, |v: usize| pt(v, y)))(d[j]));
    lemma_pairs_cancel(a, d, pt);
    assert((|x: usize| over(a, |v: usize| pt(v, x)) + over(d, |v: usize| pt(v, x))) =~= (|x: usize|
        inner_a(x) + inner_d(x)));
}

proof fn lemma_one_component(
    grads: Map<usize, Seq<i64>>,
    seeds: Map<usize, Seq<u8>>,
    rand_sks: Map<usize, Seq<u8>>,
    rand_pks: Map<usize, KAPublicKey>,
    sharing: Seq<usize>,
    alive_set: Set<usize>,
    m: IdMap<IdMap<RevealedShare>>,
    len: nat,
    i: int,
)
    requires
        0 <= i < len,
        forall|k: int|
            0 <= k < keep(sharing, alive_set).len() ==> (#[trigger] grads[keep(sharing, alive_set)[k]]).len()
                == len,
        forall|u: usize, v: usize|
            sharing.contains(u) && sharing.contains(v) ==> #[trigger] x25519_of(rand_sks[u], rand_pks[v]@)
                == #[trigger] x25519_of(rand_sks[v], rand_pks[u]@),
        forall|k: int|
            0 <= k < keep(sharing, alive_set).len() ==> #[trigger] secret_of(
                m,
                keep(sharing, alive_set)[k],
                true,
            ) == Some(seeds[keep(sharing, alive_set)[k]]),
        forall|k: int|
            0 <= k < minus(sharing, alive_set).len() ==> #[trigger] secret_of(
                m,
                minus(sharing, alive_set)[k],
                false,
            ) == Some(rand_sks[minus(sharing, alive_set)[k]]),
    ensures
        ({
            let a = keep(sharing, alive_set);
            let terms = unmasking_terms(
                m,
                a,
                minus(sharing, alive_set),
                rand_pks,
                masked_vectors(grads, seeds, rand_sks, rand_pks, sharing, a, len),
                len,
            );
            &&& forall|j: int| 0 <= j < terms.len() ==> (#[trigger] terms[j]).len() == len
            &&& sum_spec(terms, len)[i] == sum_spec(vectors_of(grads, a), len)[i]
        }),
{
    let a = keep(sharing, alive_set);
    let d = minus(sharing, alive_set);
    let mv = masked_vectors(grads, seeds, rand_sks, rand_pks, sharing, a, len);
    let terms = unmasking_terms(m, a, d, rand_pks, mv, len);
    let ac = Seq::new(a.len(), |k: int| alive_correction(m, a[k], len));
    let dc = Seq::new(d.len(), |k: int| dropped_correction(m, d[k], a, rand_pks, len));
    assert(terms =~= ac + dc + mv);
    let plain = vectors_of(grads, a);
    let pt = pair_term(rand_sks, rand_pks, i as nat);
    let g = |k: int| grads[a[k]][i] as int;
    let s = |k: int| chacha_word(seeds[a[k]], i as nat) as int;
    lemma_parts_in(sharing, alive_set);
    // lengths and residues of each part
    assert forall|k: int| 0 <= k < a.len() implies (#[trigger] ac[k]).len() == len && residue(
        ac[k][i] as int,
    ) == residue(-s(k)) by {
        lemma_alive_col(m, a[k], seeds[a[k]], len, i);
    }
    assert forall|k: int| 0 <= k < d.len() implies (#[trigger] dc[k]).len() == len && residue(
        dc[k][i] as int,
    ) == residue(over(a, |v: usize| pt(v, d[k]))) by {
        lemma_dropped_col(m, d[k], a, rand_sks, rand_pks, len, i);
    }
    assert forall|k: int| 0 <= k < a.len() implies (#[trigger] mv[k]).len() == len && residue(
        mv[k][i] as int,
    ) == residue(g(k) + s(k) + over(sharing, |v: usize| pt(v, a[k]))) by {
        lemma_masked_col(grads[a[k]], seeds[a[k]], rand_sks, rand_pks, a[k], sharing, len, i);
    }
    assert forall|j: int| 0 <= j < terms.len() implies (#[trigger] terms[j]).len() == len by {
        if j < a.len() {
            assert(terms[j] == ac[j]);
        } else if j < a.len() + d.len() {
            assert(terms[j] == dc[j - a.len()]);
        } else {
            assert(terms[j] == mv[j - a.len() - d.len()]);
        }
    }
    // the sum, component by component
    lemma_sum_spec_col(terms, len, i);
    lemma_col_sum_concat(ac + dc, mv, i);
    lemma_col_sum_concat(ac, dc, i);
    assert(Seq::new(a.len(), |k: int| ac[k]) =~= ac);
    assert(Seq::new(d.len(), |k: int| dc[k]) =~= dc);
    assert(Seq::new(a.len(), |k: int| mv[k]) =~= mv);
    lemma_col_sum_new(a.len(), |k: int| ac[k], i);
    lemma_col_sum_new(d.len(), |k: int| dc[k], i);
    lemma_col_sum_new(a.len(), |k: int| mv[k], i);
    let neg_s = |k: int| -s(k);
    let drop_k = |k: int| over(a, |v: usize| pt(v, d[k]));
    let mv_k = |k: int| g(k) + s(k) + over(sharing, |v: usize| pt(v, a[k]));
    lemma_idx_sum_residue(a.len(), |k: int| (|k: int| ac[k])(k)[i] as int, neg_s);
    lemma_idx_sum_residue(d.len(), |k: int| (|k: int| dc[k])(k)[i] as int, drop_k);
    lemma_idx_sum_residue(a.len(), |k: int| (|k: int| mv[k])(k)[i] as int, mv_k);
    let total = idx_sum(a.len(), neg_s) + idx_sum(d.len(), drop_k) + idx_sum(a.len(), mv_k);
    let md: int = 0x1_0000_0000_0000_0000;
    let x1 = idx_sum(a.len(), |k: int| (|k: int| ac[k])(k)[i] as int);
    let x2 = idx_sum(d.len(), |k: int| (|k: int| dc[k])(k)[i] as int);
    let x3 = idx_sum(a.len(), |k: int| (|k: int| mv[k])(k)[i] as int);
    assert(residue(x1 + x2 + x3) == residue(total)) by {
        vstd::arithmetic::div_mod::lemma_add_mod_noop(x1, x2, md);
        vstd::arithmetic::div_mod::lemma_add_mod_noop(
            idx_sum(a.len(), neg_s),
            idx_sum(d.len(), drop_k),
            md,
        );
        vstd::arithmetic::div_mod::lemma_add_mod_noop(x1 + x2, x3, md);
        vstd::arithmetic::div_mod::lemma_add_mod_noop(
            idx_sum(a.len(), neg_s) + idx_sum(d.len(), drop_k),
            idx_sum(a.len(), mv_k),
            md,
        );
        vstd::arithmetic::div_mod::lemma_mod_twice(x1 + x2, md);
        vstd::arithmetic::div_mod::lemma_mod_twice(
            idx_sum(a.len(), neg_s) + idx_sum(d.len(), drop_k),
            md,
        );
    }
    lemma_pair_term_antisym(rand_sks, rand_pks, sharing, alive_set, i as nat);
    lemma_algebra(sharing, alive_set, pt, g, s);
    assert(total == idx_sum(a.len(), g));
    // the plain sum
    assert forall|j: int| 0 <= j < plain.len() implies (#[trigger] plain[j]).len() == len by {}
    lemma_sum_spec_col(plain, len, i);
    assert(Seq::new(a.len(), |k: int| plain[k]) =~= plain);
    lemma_col_sum_new(a.len(), |k: int| plain[k], i);
    lemma_idx_sum_ext(a.len(), |k: int| (|k: int| plain[k])(k)[i] as int, g);
    lemma_residue_eq(sum_spec(terms, len)[i], sum_spec(plain, len)[i]);
}

/// The masked vector each user of `alive` sends in round two, when every user
/// shared with the users of `sharing` and all use the rand keys `rand_pks`.
pub open spec fn masked_vectors(
    grads: Map<usize, Seq<i64>>,
    seeds: Map<usize, Seq<u8>>,
    rand_sks: Map<usize, Seq<u8>>,
    rand_pks: Map<usize, KAPublicKey>,
    sharing: Seq<usize>,
    alive: Seq<usize>,
    len: nat,
) -> Seq<Seq<i64>> {
    Seq::new(
        alive.len(),
        |k: int|
            sum_spec(
                masked_terms(grads[alive[k]], seeds[alive[k]], rand_sks[alive[k]], alive[k], sharing, rand_pks),
                len,
            ),
    )
}

/// The plain vectors of the users of `alive`.
pub open spec fn vectors_of(grads: Map<usize, Seq<i64>>, alive: Seq<usize>) -> Seq<Seq<i64>> {
    Seq::new(alive.len(), |k: int| grads[alive[k]])
}

/// Unmasking gives the sum of the vectors of the users who sent a masked
/// vector (`alive`, among the users who shared keys in round one). Their own
/// masks come off with their rebuilt seeds; masks they share with each other
/// cancel in pairs; masks they share with users who dropped after sharing come
/// off with those users' rebuilt rand keys. This needs the two primitives to do
/// their part: both ends of a pair derive one seed, and the shares rebuild the
/// secrets that were split.
pub proof fn lemma_aggregate_is_sum(
    grads: Map<usize, Seq<i64>>,
    seeds: Map<usize, Seq<u8>>,
    rand_sks: Map<usize, Seq<u8>>,
    rand_pks: Map<usize, KAPublicKey>,
    sharing: Seq<usize>,
    alive_set: Set<usize>,
    m: IdMap<IdMap<RevealedShare>>,
    len: nat,
)
    requires
        forall|k: int|
            0 <= k < keep(sharing, alive_set).len() ==> (#[trigger] grads[keep(sharing, alive_set)[k]]).len()
                == len,
        forall|u: usize, v: usize|
            sharing.contains(u) && sharing.contains(v) ==> #[trigger] x25519_of(rand_sks[u], rand_pks[v]@)
                == #[trigger] x25519_of(rand_sks[v], rand_pks[u]@),
        forall|k: int|
            0 <= k < keep(sharing, alive_set).len() ==> #[trigger] secret_of(
                m,
                keep(sharing, alive_set)[k],
                true,
            ) == Some(seeds[keep(sharing, alive_set)[k]]),
        forall|k: int|
            0 <= k < minus(sharing, alive_set).len() ==> #[trigger] secret_of(
                m,
                minus(sharing, alive_set)[k],
                false,
            ) == Some(rand_sks[minus(sharing, alive_set)[k]]),
    ensures
        sum_spec(
            unmasking_terms(
                m,
                keep(sharing, alive_set),
                minus(sharing, alive_set),
                rand_pks,
                masked_vectors(grads, seeds, rand_sks, rand_pks, sharing, keep(sharing, alive_set), len),
                len,
            ),
            len,
        ) == sum_spec(vectors_of(grads, keep(sharing, alive_set)), len),
{
    let a = keep(sharing, alive_set);
    let d = minus(sharing, alive_set);
    let mv = masked_vectors(grads, seeds, rand_sks, rand_pks, sharing, a, len);
    let terms = unmasking_terms(m, a, d, rand_pks, mv, len);
    let ac = Seq::new(a.len(), |k: int| alive_correction(m, a[k], len));
    let dc = Seq::new(d.len(), |k: int| dropped_correction(m, d[k], a, rand_pks, len));
    assert(terms =~= ac + dc + mv);
    let plain = vectors_of(grads, a);
    lemma_parts_in(sharing, alive_set);
    if len == 0 {
        assert forall|j: int| 0 <= j < terms.len() implies (#[trigger] terms[j]).len() == 0 by {
            if j < a.len() {
            } else if j < a.len() + d.len() {
                let k = j - a.len();
                lemma_sum_spec_len(pair_masks_of(secret_of(m, d[k], false)->Some_0, d[k], a, rand_pks, 0), 0);
            } else {
                let k = j - a.len() - d.len();
                lemma_sum_spec_len(masked_terms(grads[a[k]], seeds[a[k]], rand_sks[a[k]], a[k], sharing, rand_pks), 0);
            }
        }
        lemma_sum_spec_len(terms, 0);
        lemma_sum_spec_len(plain, 0);
        assert(sum_spec(terms, 0) =~= sum_spec(plain, 0));
        return;
    }
    assert forall|i: int| 0 <= i < len implies #[trigger] sum_spec(terms, len)[i] == sum_spec(plain, len)[i] by {
        lemma_one_component(grads, seeds, rand_sks, rand_pks, sharing, alive_set, m, len, i);
    }
    assert forall|j: int| 0 <= j < terms.len() implies (#[trigger] terms[j]).len() == len by {
        lemma_one_component(grads, seeds, rand_sks, rand_pks, sharing, alive_set, m, len, 0);
    }
    lemma_sum_spec_len(terms, len);
    lemma_sum_spec_len(plain, len);
    assert(sum_spec(terms, len) =~= sum_spec(plain, len));
}

pub open spec fn increasing(s: Seq<usize>) -> bool {
    forall|i: int, j: int| 0 <= i < j < s.len() ==> s[i] < s[j]
}

proof fn lemma_increasing_last(s: Seq<usize>, x: usize)
    requires
        increasing(s),
        s.contains(x),
    ensures
        x <= s.last(),
        x != s.last() ==> s.drop_last().contains(x),
{
    let k = choose|k: int| 0 <= k < s.len() && s[k] == x;
    if k < s.len() - 1 {
        assert(s.drop_last()[k] == x);
    }
}

/// An increasing list of ids, all among the increasing list `s`, is what `s`
/// keeps of the ids in `a` when `a` picks out exactly those ids of `s`.
pub proof fn lemma_kept_ids(s: Seq<usize>, a: Set<usize>, t: Seq<usize>)
    requires
        increasing(s),
        increasing(t),
        forall|x: usize| t.contains(x) <==> s.contains(x) && a.contains(x),
    ensures
        keep(s, a) == t,
    decreases s.len(),
{
    if s.len() == 0 {
        if t.len() > 0 {
            assert(t.contains(t[0]));
        }
        assert(t =~= s);
    } else {
        let p = s.drop_last();
        let last = s.last();
        assert(s.contains(last)) by {
            assert(s[s.len() - 1] == last);
        }
        assert(increasing(p));
        assert forall|x: usize| p.contains(x) implies s.contains(x) && x < last by {
            let k = choose|k: int| 0 <= k < p.len() && p[k] == x;
            assert(s[k] == x);
            assert(s[k] < s[s.len() - 1]);
        }
        if a.contains(last) {
            assert(t.contains(last));
            let tl = t.last();
            assert(t.contains(tl)) by {
                assert(t[t.len() - 1] == tl);
            }
            lemma_increasing_last(t, last);
            lemma_increasing_last(s, tl);
            let u = t.drop_last();
            assert(increasing(u));
            assert forall|x: usize| u.contains(x) <==> p.contains(x) && a.contains(x) by {
                if u.contains(x) {
                    let k = choose|k: int| 0 <= k < u.len() && u[k] == x;
                    assert(t[k] == x);
                    assert(t[k] < t[t.len() - 1]);
                    assert(t.contains(x));
                    lemma_increasing_last(s, x);
                }
                if p.contains(x) && a.contains(x) {
                    assert(t.contains(x));
                    lemma_increasing_last(t, x);
                }
            }
            lemma_kept_ids(p, a, u);
            assert(u.push(tl) =~= t);
        } else {
            assert forall|x: usize| t.contains(x) <==> p.contains(x) && a.contains(x) by {
                if t.contains(x) {
                    lemma_increasing_last(s, x);
                }
            }
            lemma_kept_ids(p, a, t);
        }
    }
}

/// The law above, in the terms of the server's state: `alive` are the users
/// whose masked vectors arrived, `sharing` those who shared keys in round one,
/// and every alive user shared.
pub proof fn lemma_server_aggregate_is_sum(
    grads: Map<usize, Seq<i64>>,
    seeds: Map<usize, Seq<u8>>,
    rand_sks: Map<usize, Seq<u8>>,
    rand_pks: Map<usize, KAPublicKey>,
    sharing: IdMap<()>,
    alive: IdMap<()>,
    m: IdMap<IdMap<RevealedShare>>,
    len: nat,
)
    requires
        sharing.inv(),
        alive.inv(),
        forall|k: usize| alive@.contains_key(k) ==> #[trigger] sharing@.contains_key(k),
        forall|k: int| 0 <= k < alive.ids().len() ==> (#[trigger] grads[alive.ids()[k]]).len() == len,
        forall|u: usize, v: usize|
            sharing.ids().contains(u) && sharing.ids().contains(v) ==> #[trigger] x25519_of(
                rand_sks[u],
                rand_pks[v]@,
            ) == #[trigger] x25519_of(rand_sks[v], rand_pks[u]@),
        forall|k: int|
            0 <= k < alive.ids().len() ==> #[trigger] secret_of(m, alive.ids()[k], true) == Some(
                seeds[alive.ids()[k]],
            ),
        forall|k: int|
            0 <= k < minus(sharing.ids(), alive@.dom()).len() ==> #[trigger] secret_of(
                m,
                minus(sharing.ids(), alive@.dom())[k],
                false,
            ) == Some(rand_sks[minus(sharing.ids(), alive@.dom())[k]]),
    ensures
        sum_spec(
            unmasking_terms(
                m,
                alive.ids(),
                minus(sharing.ids(), alive@.dom()),
                rand_pks,
                masked_vectors(grads, seeds, rand_sks, rand_pks, sharing.ids(), alive.ids(), len),
                len,
            ),
            len,
        ) == sum_spec(vectors_of(grads, alive.ids()), len),
{
    sharing.lemma_wf();
    alive.lemma_wf();
    let s = sharing.ids();
    let t = alive.ids();
    assert forall|x: usize| t.contains(x) <==> s.contains(x) && alive@.dom().contains(x) by {
        if t.contains(x) {
            let k = choose|k: int| 0 <= k < t.len() && t[k] == x;
            assert(alive.entries()[k].0 == x);
            assert(alive@.contains_key(x));
            assert(sharing@.contains_key(x));
            let j = choose|j: int| 0 <= j < sharing.entries().len() && sharing.entries()[j].0 == x;
            assert(s[j] == x);
            assert(s.contains(x));
        }
        if s.contains(x) && alive@.dom().contains(x) {
            assert(alive@.contains_key(x));
            let k = choose|k: int| 0 <= k < alive.entries().len() && alive.entries()[k].0 == x;
            assert(t[k] == x);
        }
    }
    lemma_kept_ids(s, alive@.dom(), t);
    lemma_aggregate_is_sum(grads, seeds, rand_sks, rand_pks, s, alive@.dom(), m, len);
}

/// Masks are deterministic: two expansions of one seed to one length agree,
/// whoever computes them.
pub proof fn lemma_mask_deterministic(seed1: Seq<u8>, seed2: Seq<u8>, len1: nat, len2: nat)
    requires
        seed1 == seed2,
        len1 == len2,
    ensures
        chacha_mask(seed1, len1) == chacha_mask(seed2, len2),
        chacha_mask(seed1, len1).len() == len1,
{
}

} // verus!
