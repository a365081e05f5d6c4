//! The laws of the scheme, proved over the spec-level views.
//!
//! Every statement is about the discrete logarithms of keys, parameters,
//! messages and signatures, so each applies to the exec functions through
//! their contracts: `sign` ensures `is_fresh_signature`, the conversions
//! ensure `converted_sig` and `scaled`, and `verify` returns exactly
//! `verify_spec`.

use crate::algebra::{
    dot, fmul, group_order, in_field, is_inv, lemma_dot_pointwise, lemma_dot_scaled,
    lemma_dot_scaled_left, lemma_fmul_one, lemma_inv_of_product, lemma_inv_unique, scaled,
};
use crate::params::ParamsView;
use crate::public_key::{is_key_pair, verify_spec};
use crate::signature::{converted_sig, fresh_sig_witness, is_fresh_signature, SigView};
use vstd::arithmetic::div_mod::{
    lemma_mul_mod_noop_general, lemma_mul_mod_noop_left, lemma_mul_mod_noop_right,
};
use vstd::arithmetic::mul::{lemma_mul_is_associative, lemma_mul_is_commutative};
use vstd::prelude::*;

verus! {

/// A fresh signature verifies: `Verify(pk, pp, M, Sign(sk, pp, M))` holds,
/// also when the message is shorter than the key.
pub proof fn lemma_sign_verifies(
    pk: Seq<int>,
    sk: Seq<int>,
    pp: ParamsView,
    m: Seq<int>,
    sig: SigView,
)
    requires
        is_key_pair(pk, sk, pp),
        is_fresh_signature(sig, sk, pp, m),
        m.len() <= pk.len(),
    ensures
        verify_spec(pk, pp, m, sig),
{
    let r = group_order();
    let n = m.len() as int;
    let (y, w) = choose|y: int, w: int| fresh_sig_witness(sig, sk, pp, m, y, w);
    let d = dot(m, sk, n);
    // First equation: e(y1, p2) = e(p1, y2) over logarithms.
    lemma_mul_mod_noop_left(w * pp.p1, pp.p2, r);
    assert((w * pp.p1) * pp.p2 == pp.p1 * (w * pp.p2)) by (nonlinear_arith);
    lemma_mul_mod_noop_right(pp.p1, w * pp.p2, r);
    // Second equation, left side: z·y2 ≡ d·p2.
    lemma_mul_mod_noop_general(y * d, w * pp.p2, r);
    assert(fmul(sig.z, sig.y2) == ((y * d) * (w * pp.p2)) % r);
    assert((y * d) * (w * pp.p2) == (d * pp.p2) * (y * w)) by (nonlinear_arith);
    lemma_mul_mod_noop_right(d * pp.p2, y * w, r);
    assert(fmul(sig.z, sig.y2) == ((d * pp.p2) * 1) % r);
    // Second equation, right side: the key components are sk[i]·p2.
    assert forall|i: int| 0 <= i < n implies pk[i] == scaled(sk, pp.p2)[i] by {
        lemma_mul_is_commutative(pp.p2, sk[i]);
    }
    lemma_dot_pointwise(m, pk, scaled(sk, pp.p2), n);
    lemma_dot_scaled(m, sk, pp.p2, n);
    lemma_mul_is_commutative(pp.p2, d);
}

/// How conversion acts on the two verification checks: the generator
/// check is preserved, and the product `z·y2` is rescaled by exactly `p`.
pub proof fn lemma_converted_checks(
    pp: ParamsView,
    s0: SigView,
    s1: SigView,
    p: int,
    f: int,
    w: int,
)
    requires
        converted_sig(s0, s1, p, f, w),
    ensures
        fmul(s0.y1, pp.p2) == fmul(pp.p1, s0.y2) ==> fmul(s1.y1, pp.p2) == fmul(pp.p1, s1.y2),
        fmul(s1.z, s1.y2) == fmul(p, fmul(s0.z, s0.y2)),
{
    let r = group_order();
    let z = s0.z;
    let y1 = s0.y1;
    let y2 = s0.y2;
    // s1.z == (z·p·f) mod r.
    lemma_mul_mod_noop_right(z, p * f, r);
    lemma_mul_is_associative(z, p, f);
    assert(s1.z == (z * p * f) % r);
    // z'·y2' ≡ (p·(z·y2))·(f·w) ≡ p·(z·y2).
    lemma_mul_mod_noop_general(z * p * f, y2 * w, r);
    assert(fmul(s1.z, s1.y2) == ((z * p * f) * (y2 * w)) % r);
    assert((z * p * f) * (y2 * w) == (p * (z * y2)) * (f * w)) by (nonlinear_arith);
    lemma_mul_mod_noop_right(p * (z * y2), f * w, r);
    assert(fmul(s1.z, s1.y2) == ((p * (z * y2)) * 1) % r);
    lemma_mul_mod_noop_right(p, z * y2, r);
    assert(fmul(s1.z, s1.y2) == fmul(p, fmul(z, y2)));
    // The generator check is carried along by the common factor w.
    if fmul(y1, pp.p2) == fmul(pp.p1, y2) {
        lemma_mul_mod_noop_left(y1 * w, pp.p2, r);
        assert((y1 * w) * pp.p2 == (y1 * pp.p2) * w) by (nonlinear_arith);
        lemma_mul_mod_noop_left(y1 * pp.p2, w, r);
        lemma_mul_mod_noop_left(pp.p1 * y2, w, r);
        assert((pp.p1 * y2) * w == pp.p1 * (y2 * w)) by (nonlinear_arith);
        lemma_mul_mod_noop_right(pp.p1, y2 * w, r);
    }
}

/// Converting the key pair and the signature with the same scalar `p`
/// keeps the original message verifiable.
pub proof fn lemma_convert_preserves_verify(
    pk: Seq<int>,
    pp: ParamsView,
    m: Seq<int>,
    s0: SigView,
    s1: SigView,
    p: int,
    f: int,
    w: int,
)
    requires
        verify_spec(pk, pp, m, s0),
        converted_sig(s0, s1, p, f, w),
    ensures
        verify_spec(scaled(pk, p), pp, m, s1),
{
    let r = group_order();
    let n = m.len() as int;
    lemma_converted_checks(pp, s0, s1, p, f, w);
    lemma_dot_scaled(m, pk, p, n);
    lemma_mul_mod_noop_right(p, dot(m, pk, n), r);
    assert(fmul(s1.z, s1.y2) == (p * dot(m, pk, n)) % r);
}

/// Changing the representation — message rescaled by `u`, signature
/// randomized to match — keeps the untouched key verifying.
pub proof fn lemma_change_rep_preserves_verify(
    pk: Seq<int>,
    pp: ParamsView,
    m: Seq<int>,
    s0: SigView,
    s1: SigView,
    u: int,
    f: int,
    w: int,
)
    requires
        verify_spec(pk, pp, m, s0),
        converted_sig(s0, s1, u, f, w),
    ensures
        verify_spec(pk, pp, scaled(m, u), s1),
{
    let r = group_order();
    let n = m.len() as int;
    lemma_converted_checks(pp, s0, s1, u, f, w);
    lemma_dot_scaled_left(m, pk, u, n);
    lemma_mul_mod_noop_right(u, dot(m, pk, n), r);
    assert(fmul(s1.z, s1.y2) == (u * dot(m, pk, n)) % r);
}

/// A key pair converted with `p` is again a key pair under the same
/// parameters.
pub proof fn lemma_converted_key_pair(pk: Seq<int>, sk: Seq<int>, pp: ParamsView, p: int)
    requires
        is_key_pair(pk, sk, pp),
    ensures
        is_key_pair(scaled(pk, p), scaled(sk, p), pp),
{
    let r = group_order();
    assert forall|i: int| 0 <= i < sk.len() implies #[trigger] scaled(pk, p)[i] == fmul(
        pp.p2,
        scaled(sk, p)[i],
    ) by {
        lemma_mul_mod_noop_right(p, pp.p2 * sk[i], r);
        lemma_mul_mod_noop_right(pp.p2, p * sk[i], r);
        assert(p * (pp.p2 * sk[i]) == pp.p2 * (p * sk[i])) by (nonlinear_arith);
    }
}

/// The converted secret key signs the original message into a signature
/// that verifies under the converted public key.
pub proof fn lemma_converted_key_signs(
    pk: Seq<int>,
    sk: Seq<int>,
    pp: ParamsView,
    m: Seq<int>,
    sig: SigView,
    p: int,
)
    requires
        is_key_pair(pk, sk, pp),
        is_fresh_signature(sig, scaled(sk, p), pp, m),
        m.len() <= pk.len(),
    ensures
        verify_spec(scaled(pk, p), pp, m, sig),
{
    lemma_converted_key_pair(pk, sk, pp, p);
    lemma_sign_verifies(scaled(pk, p), scaled(sk, p), pp, m, sig);
}

/// The signature left alone is a conversion with scalar `1` and
/// randomizer `1`.
pub proof fn lemma_identity_conversion(s: SigView)
    requires
        in_field(s.z),
        in_field(s.y1),
        in_field(s.y2),
    ensures
        converted_sig(s, s, 1, 1, 1),
{
    lemma_fmul_one(1);
    lemma_fmul_one(s.z);
    lemma_fmul_one(s.y1);
    lemma_fmul_one(s.y2);
}

/// Converting the key with `p` but the signature with `q` verifies
/// exactly when the two scalars act equally on `z·y2`; with a prime
/// order, that is only when `p ≡ q` or the signed product is the
/// identity.
pub proof fn lemma_mismatched_conversion(
    pk: Seq<int>,
    pp: ParamsView,
    m: Seq<int>,
    s0: SigView,
    s1: SigView,
    p: int,
    q: int,
    f: int,
    w: int,
)
    requires
        verify_spec(pk, pp, m, s0),
        converted_sig(s0, s1, q, f, w),
    ensures
        verify_spec(scaled(pk, p), pp, m, s1) <==> fmul(q, fmul(s0.z, s0.y2)) == fmul(
            p,
            fmul(s0.z, s0.y2),
        ),
{
    let r = group_order();
    let n = m.len() as int;
    lemma_converted_checks(pp, s0, s1, q, f, w);
    lemma_dot_scaled(m, pk, p, n);
    lemma_mul_mod_noop_right(p, dot(m, pk, n), r);
    assert(dot(m, scaled(pk, p), n) % r == fmul(p, fmul(s0.z, s0.y2)));
}

/// Rescaling the message by `u` while converting the signature with `q`
/// (in particular `q = 1`: not at all) verifies under the unchanged key
/// exactly when `u` and `q` act equally on `z·y2`.
pub proof fn lemma_scaled_message_mismatch(
    pk: Seq<int>,
    pp: ParamsView,
    m: Seq<int>,
    s0: SigView,
    s1: SigView,
    u: int,
    q: int,
    f: int,
    w: int,
)
    requires
        verify_spec(pk, pp, m, s0),
        converted_sig(s0, s1, q, f, w),
    ensures
        verify_spec(pk, pp, scaled(m, u), s1) <==> fmul(q, fmul(s0.z, s0.y2)) == fmul(
            u,
            fmul(s0.z, s0.y2),
        ),
{
    let r = group_order();
    let n = m.len() as int;
    lemma_converted_checks(pp, s0, s1, q, f, w);
    lemma_dot_scaled_left(m, pk, u, n);
    lemma_mul_mod_noop_right(u, dot(m, pk, n), r);
    assert(dot(scaled(m, u), pk, n) % r == fmul(u, fmul(s0.z, s0.y2)));
}

/// Key conversion and change of representation commute: from one
/// accepting triple, both orders give accepting triples on the same key
/// and message views, and with equal combined randomizers they give the
/// same signature.
pub proof fn lemma_convert_change_rep_commute(
    pk: Seq<int>,
    pp: ParamsView,
    m: Seq<int>,
    s0: SigView,
    sa1: SigView,
    sa2: SigView,
    sb1: SigView,
    sb2: SigView,
    p: int,
    u: int,
    f1: int,
    w1: int,
    f2: int,
    w2: int,
    f3: int,
    w3: int,
    f4: int,
    w4: int,
)
    requires
        verify_spec(pk, pp, m, s0),
        converted_sig(s0, sa1, p, f1, w1),
        converted_sig(sa1, sa2, u, f2, w2),
        converted_sig(s0, sb1, u, f3, w3),
        converted_sig(sb1, sb2, p, f4, w4),
    ensures
        verify_spec(scaled(pk, p), pp, scaled(m, u), sa2),
        verify_spec(scaled(pk, p), pp, scaled(m, u), sb2),
        fmul(f1, f2) == fmul(f3, f4) ==> sa2 == sb2,
{
    let r = group_order();
    lemma_convert_preserves_verify(pk, pp, m, s0, sa1, p, f1, w1);
    lemma_change_rep_preserves_verify(scaled(pk, p), pp, m, sa1, sa2, u, f2, w2);
    lemma_change_rep_preserves_verify(pk, pp, m, s0, sb1, u, f3, w3);
    lemma_convert_preserves_verify(pk, pp, scaled(m, u), sb1, sb2, p, f4, w4);
    if fmul(f1, f2) == fmul(f3, f4) {
        lemma_inv_of_product(f1, w1, f2, w2);
        lemma_inv_of_product(f3, w3, f4, w4);
        lemma_inv_unique(fmul(f1, f2), fmul(w1, w2), fmul(w3, w4));
        // The z components agree: both are z·(p·u)·(f-product) mod r.
        lemma_two_step_z(s0.z, p, f1, u, f2);
        lemma_two_step_z(s0.z, u, f3, p, f4);
        crate::algebra::lemma_fmul_comm(p, u);
        // The y components agree: both are rescaled by the same combined
        // inverse.
        lemma_two_step_y(s0.y1, w1, w2);
        lemma_two_step_y(s0.y1, w3, w4);
        lemma_two_step_y(s0.y2, w1, w2);
        lemma_two_step_y(s0.y2, w3, w4);
    }
}

/// A fresh variable-length signature verifies: each coordinate tuple,
/// rebuilt from the message and the glue element, passes base
/// verification under the length-5 base key.
pub proof fn lemma_var_sign_verifies(
    pk: Seq<int>,
    sk: Seq<int>,
    pp: ParamsView,
    msg: crate::extension::representation::VarMessageView,
    vsig: crate::extension::signature::VarSigView,
)
    requires
        is_key_pair(pk, sk, pp),
        pk.len() == 5,
        msg.u.len() >= 1,
        vsig.sigs.len() == msg.u.len(),
        forall|i: int|
            0 <= i < msg.u.len() ==> is_fresh_signature(
                #[trigger] vsig.sigs[i],
                sk,
                pp,
                crate::extension::representation::tuple_view(
                    msg.g,
                    msg.u.len() as int,
                    vsig.h,
                    msg.u[i],
                    i,
                ),
            ),
    ensures
        crate::extension::public_key::var_verify_spec(pk, pp, msg, vsig),
{
    let n = msg.u.len() as int;
    assert forall|i: int| 0 <= i < n implies verify_spec(
        pk,
        pp,
        crate::extension::representation::tuple_view(msg.g, n, vsig.h, msg.u[i], i),
        #[trigger] vsig.sigs[i],
    ) by {
        let t = crate::extension::representation::tuple_view(msg.g, n, vsig.h, msg.u[i], i);
        assert(t.len() == 5);
        lemma_sign_verifies(pk, sk, pp, t, vsig.sigs[i]);
    }
}

/// Rescaling base point, glue element and coordinate by `u` rescales the
/// whole coordinate tuple by `u`.
pub proof fn lemma_tuple_scaled(g: int, n: int, h: int, ui: int, u: int, i: int)
    ensures
        crate::extension::representation::tuple_view(
            fmul(u, g),
            n,
            fmul(u, h),
            fmul(u, ui),
            i,
        ) == scaled(crate::extension::representation::tuple_view(g, n, h, ui, i), u),
{
    let t0 = crate::extension::representation::tuple_view(g, n, h, ui, i);
    let t1 = crate::extension::representation::tuple_view(fmul(u, g), n, fmul(u, h), fmul(u, ui), i);
    lemma_fmul_swap(i + 1, u, g);
    lemma_fmul_swap(n, u, g);
    assert(t1 =~= scaled(t0, u));
}

/// `a·(u·g) = u·(a·g)` modulo the group order.
proof fn lemma_fmul_swap(a: int, u: int, g: int)
    ensures
        fmul(a, fmul(u, g)) == fmul(u, fmul(a, g)),
{
    let r = group_order();
    lemma_mul_mod_noop_right(a, u * g, r);
    lemma_mul_mod_noop_right(u, a * g, r);
    assert(a * (u * g) == u * (a * g)) by (nonlinear_arith);
}

/// A change of representation of a variable-length message — message,
/// glue element and coordinate signatures all moved by the same `u` —
/// keeps the untouched key verifying.
pub proof fn lemma_var_change_rep_preserves_verify(
    pk: Seq<int>,
    pp: ParamsView,
    m0: crate::extension::representation::VarMessageView,
    vs0: crate::extension::signature::VarSigView,
    m1: crate::extension::representation::VarMessageView,
    vs1: crate::extension::signature::VarSigView,
    u: int,
)
    requires
        crate::extension::public_key::var_verify_spec(pk, pp, m0, vs0),
        m1.g == fmul(u, m0.g),
        m1.u == scaled(m0.u, u),
        vs1.h == fmul(u, vs0.h),
        crate::signature::sigs_converted(vs0.sigs, vs1.sigs, u),
    ensures
        crate::extension::public_key::var_verify_spec(pk, pp, m1, vs1),
{
    let n = m0.u.len() as int;
    assert forall|i: int| 0 <= i < n implies verify_spec(
        pk,
        pp,
        crate::extension::representation::tuple_view(m1.g, n, vs1.h, m1.u[i], i),
        #[trigger] vs1.sigs[i],
    ) by {
        assert(crate::signature::sig_converted_some(vs0.sigs[i], vs1.sigs[i], u));
        let (f, w) = choose|f: int, w: int| converted_sig(vs0.sigs[i], vs1.sigs[i], u, f, w);
        let t0 = crate::extension::representation::tuple_view(m0.g, n, vs0.h, m0.u[i], i);
        lemma_change_rep_preserves_verify(pk, pp, t0, vs0.sigs[i], vs1.sigs[i], u, f, w);
        lemma_tuple_scaled(m0.g, n, vs0.h, m0.u[i], u, i);
        assert(m1.u[i] == fmul(u, m0.u[i]));
    }
}

/// Converting key pair and variable-length signature with the same `p`,
/// together with a change of representation by `u`, keeps verification:
/// the general shape behind converting and re-randomizing in either
/// order.
pub proof fn lemma_var_convert_preserves_verify(
    pk: Seq<int>,
    pp: ParamsView,
    m0: crate::extension::representation::VarMessageView,
    vs0: crate::extension::signature::VarSigView,
    m1: crate::extension::representation::VarMessageView,
    vs1: crate::extension::signature::VarSigView,
    p: int,
    u: int,
)
    requires
        crate::extension::public_key::var_verify_spec(pk, pp, m0, vs0),
        m1.g == fmul(u, m0.g),
        m1.u == scaled(m0.u, u),
        vs1.h == fmul(u, vs0.h),
        crate::signature::sigs_converted_twice(vs0.sigs, vs1.sigs, u, p),
    ensures
        crate::extension::public_key::var_verify_spec(scaled(pk, p), pp, m1, vs1),
{
    let n = m0.u.len() as int;
    assert forall|i: int| 0 <= i < n implies verify_spec(
        scaled(pk, p),
        pp,
        crate::extension::representation::tuple_view(m1.g, n, vs1.h, m1.u[i], i),
        #[trigger] vs1.sigs[i],
    ) by {
        assert(crate::signature::sig_converted_twice_some(vs0.sigs[i], vs1.sigs[i], u, p));
        let (mid, f1, w1, f2, w2) = choose|mid: SigView, f1: int, w1: int, f2: int, w2: int|
            converted_sig(vs0.sigs[i], mid, u, f1, w1) && converted_sig(
                mid,
                vs1.sigs[i],
                p,
                f2,
                w2,
            );
        let t0 = crate::extension::representation::tuple_view(m0.g, n, vs0.h, m0.u[i], i);
        lemma_change_rep_preserves_verify(pk, pp, t0, vs0.sigs[i], mid, u, f1, w1);
        lemma_tuple_scaled(m0.g, n, vs0.h, m0.u[i], u, i);
        let t1 = crate::extension::representation::tuple_view(m1.g, n, vs1.h, m1.u[i], i);
        assert(m1.u[i] == fmul(u, m0.u[i]));
        assert(t1 == scaled(t0, u));
        lemma_convert_preserves_verify(pk, pp, t1, mid, vs1.sigs[i], p, f2, w2);
    }
}

/// Two successive conversions of `z` depend only on the product of the
/// scalars and the product of the randomizers.
proof fn lemma_two_step_z(z: int, a: int, f: int, b: int, g: int)
    ensures
        fmul(fmul(z, fmul(a, f)), fmul(b, g)) == fmul(z, fmul(fmul(a, b), fmul(f, g))),
{
    let r = group_order();
    lemma_mul_mod_noop_right(z, a * f, r);
    lemma_mul_is_associative(z, a, f);
    assert(fmul(z, fmul(a, f)) == (z * a * f) % r);
    lemma_mul_mod_noop_general(z * a * f, b * g, r);
    assert(fmul(fmul(z, fmul(a, f)), fmul(b, g)) == ((z * a * f) * (b * g)) % r);
    lemma_mul_mod_noop_general(a * b, f * g, r);
    assert(fmul(fmul(a, b), fmul(f, g)) == ((a * b) * (f * g)) % r);
    lemma_mul_mod_noop_right(z, (a * b) * (f * g), r);
    assert(fmul(z, fmul(fmul(a, b), fmul(f, g))) == (z * ((a * b) * (f * g))) % r);
    assert((z * a * f) * (b * g) == z * ((a * b) * (f * g))) by (nonlinear_arith);
}

proof fn lemma_two_step_y(y: int, wa: int, wb: int)
    ensures
        fmul(fmul(y, wa), wb) == fmul(y, fmul(wa, wb)),
{
    crate::algebra::lemma_fmul_assoc(y, wa, wb);
}

} // verus!
