//! Extension secret keys: variable-length signing and key conversion.

use crate::algebra::{fmul, group_order, in_field, is_inv, lemma_fmul_in_field, scaled};
use crate::group::{
    fr_eq, fr_inv, fr_mul, fr_one, g1_add, g1_mul, g1_zero, G1Elem, Rng, Scalar,
};
use crate::params::PublicParams;
use crate::signature::is_fresh_signature;
use super::representation::{tuple_view, VarMessage};
use super::signature::VarSignature;
use vstd::arithmetic::div_mod::{
    lemma_add_mod_noop, lemma_mod_bound, lemma_mul_mod_noop_left, lemma_mul_mod_noop_right,
};
use vstd::arithmetic::mul::lemma_mul_is_commutative;
use vstd::arithmetic::power::{lemma_pow0, lemma_pow1, lemma_pow_adds, pow};
use vstd::prelude::*;

verus! {

/// The extension secret key: a base key of length 5 and the five scalars
/// hiding the trapdoor `x = x7/x6`, `y = (x9/x8)·(x10/x8)`.
pub struct SecretKey {
    pub(crate) sk: crate::secret_key::SecretKey,
    pub(crate) x6: Scalar,
    pub(crate) x7: Scalar,
    pub(crate) x8: Scalar,
    pub(crate) x9: Scalar,
    pub(crate) x10: Scalar,
}

/// The spec-level image of an extension secret key.
pub struct ExtSkView {
    pub sk: Seq<int>,
    pub x6: int,
    pub x7: int,
    pub x8: int,
    pub x9: int,
    pub x10: int,
}

impl View for SecretKey {
    type V = ExtSkView;

    closed spec fn view(&self) -> ExtSkView {
        ExtSkView {
            sk: self.sk@,
            x6: self.x6@,
            x7: self.x7@,
            x8: self.x8@,
            x9: self.x9@,
            x10: self.x10@,
        }
    }
}

impl Clone for SecretKey {
    fn clone(&self) -> (r: Self)
        ensures
            r@ == self@,
    {
        SecretKey {
            sk: self.sk.clone(),
            x6: self.x6,
            x7: self.x7,
            x8: self.x8,
            x9: self.x9,
            x10: self.x10,
        }
    }
}

impl PartialEq for SecretKey {
    fn eq(&self, other: &SecretKey) -> bool {
        self.sk == other.sk && fr_eq(&self.x6, &other.x6) && fr_eq(&self.x7, &other.x7) && fr_eq(
            &self.x8,
            &other.x8,
        ) && fr_eq(&self.x9, &other.x9) && fr_eq(&self.x10, &other.x10)
    }
}

impl vstd::std_specs::cmp::PartialEqSpecImpl for SecretKey {
    open spec fn obeys_eq_spec() -> bool {
        false
    }

    open spec fn eq_spec(&self, other: &SecretKey) -> bool {
        self@ == other@
    }
}

/// `(x, y)` is the trapdoor hidden in the key: `x = x7/x6` and
/// `y = (x9/x8)·(x10/x8)`.
pub open spec fn is_trapdoor(sk: ExtSkView, x: int, y: int) -> bool {
    exists|w6: int, w8: int|
        {
            &&& #[trigger] is_inv(sk.x6, w6)
            &&& #[trigger] is_inv(sk.x8, w8)
            &&& x == fmul(sk.x7, w6)
            &&& y == fmul(fmul(sk.x9, w8), fmul(sk.x10, w8))
        }
}

/// `u1·y + u2·x·y + ... + un·x^(n-1)·y`, the logarithm of the glue
/// element before reduction.
pub open spec fn glue_sum(u: Seq<int>, x: int, y: int, n: int) -> int
    decreases n,
{
    if n <= 0 {
        0
    } else {
        glue_sum(u, x, y, n - 1) + u[n - 1] * (pow(x, (n - 1) as nat) * y)
    }
}

impl SecretKey {
    /// The base key has length 5, every scalar is a canonical residue,
    /// and the two denominators of the trapdoor are nonzero.
    pub open spec fn wf(&self) -> bool {
        &&& self@.sk.len() == 5
        &&& forall|i: int| 0 <= i < 5 ==> in_field(#[trigger] self@.sk[i])
        &&& in_field(self@.x6)
        &&& in_field(self@.x7)
        &&& in_field(self@.x8)
        &&& in_field(self@.x9)
        &&& in_field(self@.x10)
        &&& self@.x6 != 0
        &&& self@.x8 != 0
    }

    /// Assemble a key from its components.
    pub(crate) fn from_parts(
        sk: crate::secret_key::SecretKey,
        x6: Scalar,
        x7: Scalar,
        x8: Scalar,
        x9: Scalar,
        x10: Scalar,
    ) -> (r: SecretKey)
        ensures
            r@ == (ExtSkView { sk: sk@, x6: x6@, x7: x7@, x8: x8@, x9: x9@, x10: x10@ }),
    {
        SecretKey { sk, x6, x7, x8, x9, x10 }
    }

    /// Sign a variable-length message: recover the trapdoor, derive the
    /// glue element `h = y·(u1 + x·u2 + ... + x^(n-1)·un)`, and sign each
    /// coordinate tuple with the base key.
    pub fn sign(&self, rng: &mut Rng, pp: &PublicParams, message: &VarMessage) -> (vs: VarSignature)
        requires
            self.wf(),
            pp.wf(),
            message.wf(),
            message@.u.len() >= 1,
        ensures
            vs.wf(),
            vs@.sigs.len() == message@.u.len(),
            in_field(vs@.h),
            exists|x: int, y: int|
                #[trigger] is_trapdoor(self@, x, y) && vs@.h == glue_sum(
                    message@.u,
                    x,
                    y,
                    message@.u.len() as int,
                ) % group_order(),
            forall|i: int|
                0 <= i < message@.u.len() ==> is_fresh_signature(
                    #[trigger] vs@.sigs[i],
                    self@.sk,
                    pp@,
                    tuple_view(
                        message@.g,
                        message@.u.len() as int,
                        vs@.h,
                        message@.u[i],
                        i,
                    ),
                ),
    {
        let n = message.u.len();
        let ghost uviews = message@.u;
        // Recover the trapdoor.
        let w6 = fr_inv(&self.x6);
        let x = fr_mul(&self.x7, &w6);
        let w8 = fr_inv(&self.x8);
        let y1 = fr_mul(&self.x9, &w8);
        let y2 = fr_mul(&self.x10, &w8);
        let y = fr_mul(&y1, &y2);
        proof {
            assert(is_trapdoor(self@, x@, y@));
        }
        // The glue element.
        let mut h = g1_zero();
        let mut xi = fr_one();
        let mut i: usize = 0;
        proof {
            lemma_mod_bound(0, group_order());
            lemma_pow0(x@);
            assert(1int % group_order() == 1);
            assert(0int % group_order() == 0);
        }
        while i < n
            invariant
                i <= n,
                n == message@.u.len(),
                uviews == message@.u,
                message.wf(),
                in_field(x@),
                in_field(y@),
                xi@ == pow(x@, i as nat) % group_order(),
                in_field(xi@),
                h@ == glue_sum(uviews, x@, y@, i as int) % group_order(),
                in_field(h@),
            decreases n - i,
        {
            let c = fr_mul(&xi, &y);
            proof {
                let r = group_order();
                assert(in_field(uviews[i as int]));
                let pw = pow(x@, i as nat);
                lemma_mul_mod_noop_left(pw, y@, r);
                assert(c@ == (pw * y@) % r);
            }
            let term = g1_mul(&message.u[i], &c);
            proof {
                let r = group_order();
                let pw = pow(x@, i as nat);
                let ui = uviews[i as int];
                lemma_mul_mod_noop_right(ui, pw * y@, r);
                assert(term@ == (ui * (pw * y@)) % r);
                let gl = glue_sum(uviews, x@, y@, i as int);
                lemma_add_mod_noop(gl, ui * (pw * y@), r);
                lemma_mod_bound(gl + ui * (pw * y@), r);
                assert(glue_sum(uviews, x@, y@, i + 1) == gl + ui * (pw * y@));
            }
            h = g1_add(&h, &term);
            proof {
                let r = group_order();
                let pw = pow(x@, i as nat);
                lemma_mul_mod_noop_left(pw, x@, r);
                lemma_mul_is_commutative(pw, x@);
                lemma_pow1(x@);
                lemma_pow_adds(x@, 1nat, i as nat);
                assert(pow(x@, (i + 1) as nat) == x@ * pow(x@, i as nat));
            }
            xi = fr_mul(&xi, &x);
            i = i + 1;
        }
        // Sign each coordinate tuple with the base key.
        let tuples = message.to_tuples(h);
        let mut sigs: Vec<crate::signature::Signature> = Vec::new();
        let mut k: usize = 0;
        while k < n
            invariant
                k <= n,
                n == message@.u.len(),
                n >= 1,
                self.wf(),
                pp.wf(),
                message.wf(),
                in_field(h@),
                tuples@.len() == n,
                forall|j: int|
                    0 <= j < n ==> {
                        &&& (#[trigger] tuples@[j])@.len() == 5
                        &&& crate::group::g1_all_in_field(tuples@[j]@)
                        &&& crate::group::g1_views(tuples@[j]@) == tuple_view(
                            message@.g,
                            n as int,
                            h@,
                            message@.u[j],
                            j,
                        )
                    },
                sigs@.len() == k,
                forall|j: int|
                    0 <= j < k ==> {
                        &&& (#[trigger] sigs@[j]).wf()
                        &&& is_fresh_signature(
                            sigs@[j]@,
                            self@.sk,
                            pp@,
                            tuple_view(message@.g, n as int, h@, message@.u[j], j),
                        )
                    },
            decreases n - k,
        {
            let sig = self.sk.sign_unchecked(rng, pp, &tuples[k]);
            sigs.push(sig);
            k = k + 1;
        }
        let vs = VarSignature { h, sigs };
        proof {
            assert(vs@.sigs.len() == n);
            assert forall|j: int| 0 <= j < n implies is_fresh_signature(
                #[trigger] vs@.sigs[j],
                self@.sk,
                pp@,
                tuple_view(message@.g, n as int, vs@.h, message@.u[j], j),
            ) by {
                assert(vs@.sigs[j] == sigs@[j]@);
            }
            assert forall|j: int| 0 <= j < n implies {
                &&& in_field((#[trigger] vs@.sigs[j]).z)
                &&& in_field(vs@.sigs[j].y1)
                &&& in_field(vs@.sigs[j].y2)
            } by {
                assert(vs@.sigs[j] == sigs@[j]@);
                assert(sigs@[j].wf());
            }
        }
        vs
    }

    /// Convert the secret key: rescale the base key and all five
    /// trapdoor scalars by `p`.
    pub fn convert(&mut self, p: Scalar)
        requires
            old(self).wf(),
            in_field(p@),
            p@ != 0,
        ensures
            final(self).wf(),
            final(self)@.sk == scaled(old(self)@.sk, p@),
            final(self)@.x6 == fmul(p@, old(self)@.x6),
            final(self)@.x7 == fmul(p@, old(self)@.x7),
            final(self)@.x8 == fmul(p@, old(self)@.x8),
            final(self)@.x9 == fmul(p@, old(self)@.x9),
            final(self)@.x10 == fmul(p@, old(self)@.x10),
    {
        self.sk.convert(p);
        self.x6 = fr_mul(&p, &self.x6);
        self.x7 = fr_mul(&p, &self.x7);
        self.x8 = fr_mul(&p, &self.x8);
        self.x9 = fr_mul(&p, &self.x9);
        self.x10 = fr_mul(&p, &self.x10);
        proof {
            assert(self@.sk.len() == 5);
            assert forall|i: int| 0 <= i < 5 implies in_field(#[trigger] self@.sk[i]) by {
                assert(self@.sk[i] == scaled(old(self)@.sk, p@)[i]);
                lemma_fmul_in_field(p@, old(self)@.sk[i]);
            }
            lemma_fmul_in_field(p@, old(self)@.x6);
            lemma_fmul_in_field(p@, old(self)@.x7);
            lemma_fmul_in_field(p@, old(self)@.x8);
            lemma_fmul_in_field(p@, old(self)@.x9);
            lemma_fmul_in_field(p@, old(self)@.x10);
        }
    }
}

} // verus!
