//! Arithmetic modulo the order of the BLS12-381 groups.
//!
//! `G1`, `G2` and the pairing target group are cyclic of the same prime
//! order `r`. Fixing the canonical generators as bases, every group element
//! is determined by its discrete logarithm in `[0, r)`, group addition is
//! addition of logarithms modulo `r`, scalar multiplication is
//! multiplication modulo `r`, and the pairing multiplies the logarithms of
//! its two arguments. This module holds that arithmetic and the lemmas the
//! rest of the crate proves its contracts with.

use vstd::arithmetic::div_mod::{
    lemma_add_mod_noop, lemma_mod_bound, lemma_mod_twice, lemma_mul_mod_noop_general,
    lemma_mul_mod_noop_right, lemma_small_mod,
};
use vstd::arithmetic::mul::{
    lemma_mul_is_associative, lemma_mul_is_commutative, lemma_mul_is_distributive_add,
};
use vstd::prelude::*;

verus! {

/// `r`, the (prime) order of the scalar field and of the three groups of the
/// BLS12-381 pairing.
pub open spec fn group_order() -> int {
    52435875175126190479447740508185965837690552500527637822603658699938581184513int
}

/// A canonical residue: an integer that stands for a scalar or for the
/// discrete logarithm of a group element.
pub open spec fn in_field(a: int) -> bool {
    0 <= a < group_order()
}

/// Product modulo the group order.
pub open spec fn fmul(a: int, b: int) -> int {
    (a * b) % group_order()
}

/// Sum modulo the group order.
pub open spec fn fadd(a: int, b: int) -> int {
    (a + b) % group_order()
}

/// `w` is the multiplicative inverse of `a`.
pub open spec fn is_inv(a: int, w: int) -> bool {
    in_field(w) && fmul(a, w) == 1
}

/// The sequence `v` rescaled pointwise by the scalar `c`.
pub open spec fn scaled(v: Seq<int>, c: int) -> Seq<int> {
    Seq::new(v.len(), |i: int| fmul(c, v[i]))
}

/// `m[0]*x[0] + ... + m[n-1]*x[n-1]`, not reduced.
pub open spec fn dot(m: Seq<int>, x: Seq<int>, n: int) -> int
    decreases n,
{
    if n <= 0 {
        0
    } else {
        dot(m, x, n - 1) + m[n - 1] * x[n - 1]
    }
}

pub proof fn lemma_fmul_in_field(a: int, b: int)
    ensures
        in_field(fmul(a, b)),
{
    lemma_mod_bound(a * b, group_order());
}

pub proof fn lemma_fadd_in_field(a: int, b: int)
    ensures
        in_field(fadd(a, b)),
{
    lemma_mod_bound(a + b, group_order());
}

pub proof fn lemma_fmul_comm(a: int, b: int)
    ensures
        fmul(a, b) == fmul(b, a),
{
    lemma_mul_is_commutative(a, b);
}

/// Both ways of parenthesising a triple product agree with the unreduced
/// product taken modulo the group order.
pub proof fn lemma_fmul_unfold(a: int, b: int, c: int)
    ensures
        fmul(fmul(a, b), c) == (a * b * c) % group_order(),
        fmul(a, fmul(b, c)) == (a * b * c) % group_order(),
{
    let r = group_order();
    lemma_mul_mod_noop_general(a * b, c, r);
    lemma_mul_mod_noop_general(a, b * c, r);
    lemma_mul_is_associative(a, b, c);
}

pub proof fn lemma_fmul_assoc(a: int, b: int, c: int)
    ensures
        fmul(fmul(a, b), c) == fmul(a, fmul(b, c)),
{
    lemma_fmul_unfold(a, b, c);
}

/// Multiplying by an element and then by its inverse gives the element back.
pub proof fn lemma_fmul_cancel(a: int, y: int, w: int)
    requires
        in_field(a),
        is_inv(y, w),
    ensures
        fmul(fmul(a, y), w) == a,
{
    let r = group_order();
    lemma_fmul_unfold(a, y, w);
    lemma_mul_is_associative(a, y, w);
    lemma_mul_mod_noop_right(a, y * w, r);
    assert(fmul(fmul(a, y), w) == (a * ((y * w) % r)) % r);
    assert((y * w) % r == 1);
    lemma_small_mod(a as nat, r as nat);
}

/// Inverses are unique.
pub proof fn lemma_inv_unique(y: int, w1: int, w2: int)
    requires
        is_inv(y, w1),
        is_inv(y, w2),
    ensures
        w1 == w2,
{
    lemma_fmul_comm(y, w1);
    lemma_fmul_cancel(w1, y, w2);
    lemma_fmul_comm(y, w2);
    lemma_fmul_cancel(w2, y, w1);
    lemma_fmul_unfold(w1, y, w2);
    lemma_fmul_unfold(w2, y, w1);
    assert((w1 * y * w2) % group_order() == (w2 * y * w1) % group_order()) by {
        lemma_mul_is_commutative(w1, y);
        lemma_mul_is_commutative(w2, y);
        lemma_mul_is_associative(y, w1, w2);
        lemma_mul_is_associative(y, w2, w1);
        lemma_mul_is_commutative(w1, w2);
    }
}

/// The inverse of a product is the product of the inverses.
pub proof fn lemma_inv_of_product(y1: int, w1: int, y2: int, w2: int)
    requires
        is_inv(y1, w1),
        is_inv(y2, w2),
    ensures
        is_inv(fmul(y1, y2), fmul(w1, w2)),
{
    let r = group_order();
    lemma_fmul_in_field(w1, w2);
    lemma_mul_mod_noop_general(y1 * y2, w1 * w2, r);
    assert(fmul(fmul(y1, y2), fmul(w1, w2)) == (y1 * y2 * (w1 * w2)) % r);
    assert(y1 * y2 * (w1 * w2) == (y1 * w1) * (y2 * w2)) by {
        lemma_mul_is_associative(y1, y2, w1 * w2);
        lemma_mul_is_associative(y2, w1, w2);
        lemma_mul_is_commutative(y2, w1);
        lemma_mul_is_associative(w1, y2, w2);
        lemma_mul_is_associative(y1, w1, y2 * w2);
    }
    lemma_mul_mod_noop_general(y1 * w1, y2 * w2, r);
    assert(((y1 * w1) * (y2 * w2)) % r == (((y1 * w1) % r) * ((y2 * w2) % r)) % r);
    lemma_small_mod(1nat, r as nat);
}

pub proof fn lemma_fmul_one(a: int)
    requires
        in_field(a),
    ensures
        fmul(1, a) == a,
        fmul(a, 1) == a,
{
    lemma_small_mod(a as nat, group_order() as nat);
    lemma_fmul_comm(a, 1);
}

pub proof fn lemma_dot_comm(m: Seq<int>, x: Seq<int>, n: int)
    ensures
        dot(m, x, n) == dot(x, m, n),
    decreases n,
{
    if n > 0 {
        lemma_dot_comm(m, x, n - 1);
        lemma_mul_is_commutative(m[n - 1], x[n - 1]);
    }
}

/// Rescaling by `1` leaves a vector of canonical residues unchanged.
pub proof fn lemma_scaled_one(v: Seq<int>)
    requires
        forall|i: int| 0 <= i < v.len() ==> in_field(#[trigger] v[i]),
    ensures
        scaled(v, 1) == v,
{
    assert forall|i: int| 0 <= i < v.len() implies scaled(v, 1)[i] == v[i] by {
        lemma_fmul_one(v[i]);
    }
    assert(scaled(v, 1) =~= v);
}

/// The inner product only reads the first `n` components.
pub proof fn lemma_dot_pointwise(m: Seq<int>, x1: Seq<int>, x2: Seq<int>, n: int)
    requires
        forall|i: int| 0 <= i < n ==> x1[i] == x2[i],
    ensures
        dot(m, x1, n) == dot(m, x2, n),
    decreases n,
{
    if n > 0 {
        lemma_dot_pointwise(m, x1, x2, n - 1);
    }
}

/// Rescaling the right-hand vector rescales the inner product.
pub proof fn lemma_dot_scaled(m: Seq<int>, x: Seq<int>, c: int, n: int)
    requires
        0 <= n <= x.len(),
    ensures
        dot(m, scaled(x, c), n) % group_order() == (c * dot(m, x, n)) % group_order(),
    decreases n,
{
    let r = group_order();
    if n <= 0 {
        assert(c * 0 == 0) by (nonlinear_arith);
    } else {
        lemma_dot_scaled(m, x, c, n - 1);
        let a = dot(m, scaled(x, c), n - 1);
        let b = m[n - 1] * scaled(x, c)[n - 1];
        let d1 = dot(m, x, n - 1);
        let t = m[n - 1] * x[n - 1];
        assert(scaled(x, c)[n - 1] == fmul(c, x[n - 1]));
        lemma_mul_mod_noop_right(m[n - 1], c * x[n - 1], r);
        assert(b % r == (m[n - 1] * (c * x[n - 1])) % r);
        assert(m[n - 1] * (c * x[n - 1]) == c * (m[n - 1] * x[n - 1])) by (nonlinear_arith);
        lemma_add_mod_noop(a, b, r);
        lemma_add_mod_noop(c * d1, c * t, r);
        assert(c * d1 + c * t == c * (d1 + t)) by {
            lemma_mul_is_distributive_add(c, d1, t);
        }
        assert(dot(m, scaled(x, c), n) == a + b);
        assert(dot(m, x, n) == d1 + t);
    }
}

/// Rescaling the left-hand vector rescales the inner product.
pub proof fn lemma_dot_scaled_left(m: Seq<int>, x: Seq<int>, c: int, n: int)
    requires
        0 <= n <= m.len(),
    ensures
        dot(scaled(m, c), x, n) % group_order() == (c * dot(m, x, n)) % group_order(),
{
    lemma_dot_comm(scaled(m, c), x, n);
    lemma_dot_scaled(x, m, c, n);
    lemma_dot_comm(x, m, n);
}

} // verus!
