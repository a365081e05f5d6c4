//! Secret keys: signing and key conversion.

use crate::algebra::{
    dot, fmul, group_order, in_field, lemma_fmul_comm, lemma_fmul_in_field, scaled,
};
use crate::error::Error;
use crate::group::{
    fr_eq, fr_inv, fr_mul, fr_random_nonzero, g1_add, g1_all_in_field, g1_mul,
    g1_views, g1_zero, g2_mul, G1Elem, Rng, Scalar,
};
use crate::params::PublicParams;
use crate::signature::{fresh_sig_witness, is_fresh_signature, SigView, Signature};
use vstd::arithmetic::div_mod::{lemma_add_mod_noop, lemma_mod_bound, lemma_mul_mod_noop_left};
use vstd::prelude::*;

verus! {

/// A secret key: the vector of scalars `(x1, ..., xl)`.
pub struct SecretKey {
    pub(crate) x: Vec<Scalar>,
}

impl View for SecretKey {
    type V = Seq<int>;

    closed spec fn view(&self) -> Seq<int> {
        crate::group::scalar_views(self.x@)
    }
}

impl Clone for SecretKey {
    fn clone(&self) -> (r: Self)
        ensures
            r@ == self@,
    {
        let mut x: Vec<Scalar> = Vec::new();
        let mut i: usize = 0;
        while i < self.x.len()
            invariant
                i <= self.x@.len(),
                x@.len() == i,
                forall|j: int| 0 <= j < i ==> x@[j]@ == #[trigger] self.x@[j]@,
            decreases self.x@.len() - i,
        {
            x.push(self.x[i].clone());
            i = i + 1;
        }
        let r = SecretKey { x };
        proof {
            assert(r@ =~= self@);
        }
        r
    }
}

impl PartialEq for SecretKey {
    fn eq(&self, other: &SecretKey) -> bool {
        if self.x.len() != other.x.len() {
            return false;
        }
        let mut i: usize = 0;
        while i < self.x.len()
            invariant
                i <= self.x@.len(),
                self.x@.len() == other.x@.len(),
            decreases self.x@.len() - i,
        {
            if !fr_eq(&self.x[i], &other.x[i]) {
                return false;
            }
            i = i + 1;
        }
        true
    }
}

impl vstd::std_specs::cmp::PartialEqSpecImpl for SecretKey {
    open spec fn obeys_eq_spec() -> bool {
        false
    }

    open spec fn eq_spec(&self, other: &SecretKey) -> bool {
        self@ == other@
    }
}

impl SecretKey {
    /// Every scalar of the key is a canonical residue.
    pub open spec fn wf(&self) -> bool {
        forall|i: int| 0 <= i < self@.len() ==> in_field(#[trigger] self@[i])
    }

    /// Assemble a key from its components.
    pub(crate) fn from_parts(x: Vec<Scalar>) -> (r: SecretKey)
        ensures
            r@ == crate::group::scalar_views(x@),
    {
        SecretKey { x }
    }

    /// The scalars of the key.
    pub(crate) fn parts(&self) -> (r: &Vec<Scalar>)
        ensures
            crate::group::scalar_views(r@) == self@,
    {
        &self.x
    }

    /// Length of the secret key.
    pub fn length(&self) -> (n: usize)
        ensures
            n == self@.len(),
    {
        self.x.len()
    }

    /// Sign a message of at most the key's length; a longer message is
    /// reported as `MessageTooLong`.
    pub fn sign(&self, rng: &mut Rng, pp: &PublicParams, message: &Vec<G1Elem>) -> (r: Result<
        Signature,
        Error,
    >)
        requires
            self.wf(),
            pp.wf(),
            g1_all_in_field(message@),
        ensures
            r is Ok <==> message@.len() <= self@.len(),
            r is Err ==> r == Result::<Signature, Error>::Err(Error::MessageTooLong),
            r is Ok ==> (r->Ok_0).wf() && is_fresh_signature(
                (r->Ok_0)@,
                self@,
                pp@,
                g1_views(message@),
            ),
    {
        if message.len() > self.x.len() {
            return Result::Err(Error::MessageTooLong);
        }
        Result::Ok(self.sign_unchecked(rng, pp, message))
    }

    /// The signing core, for messages known to fit the key:
    /// `z = y·(x1·M1 + ... + xm·Mm)`, `y1 = (1/y)·p1`, `y2 = (1/y)·p2`
    /// for a fresh nonzero `y`.
    pub(crate) fn sign_unchecked(&self, rng: &mut Rng, pp: &PublicParams, message: &Vec<G1Elem>) -> (sig:
        Signature)
        requires
            self.wf(),
            pp.wf(),
            g1_all_in_field(message@),
            message@.len() <= self@.len(),
        ensures
            sig.wf(),
            is_fresh_signature(sig@, self@, pp@, g1_views(message@)),
    {
        let ghost mviews = g1_views(message@);
        let y = fr_random_nonzero(rng);
        let w = fr_inv(&y);
        let mut acc = g1_zero();
        let mut i: usize = 0;
        proof {
            lemma_mod_bound(0, group_order());
        }
        while i < message.len()
            invariant
                self.wf(),
                g1_all_in_field(message@),
                i <= message@.len(),
                message@.len() <= self@.len(),
                mviews == g1_views(message@),
                acc@ == dot(mviews, self@, i as int) % group_order(),
                in_field(acc@),
            decreases message@.len() - i,
        {
            proof {
                assert(in_field(self@[i as int]));
                assert(in_field(message@[i as int]@));
                assert(self@[i as int] == self.x@[i as int]@);
            }
            let t = g1_mul(&message[i], &self.x[i]);
            proof {
                let d = dot(mviews, self@, i as int);
                let step = mviews[i as int] * self@[i as int];
                lemma_add_mod_noop(d, step, group_order());
                lemma_mod_bound(d + step, group_order());
                assert(dot(mviews, self@, i + 1) == d + step);
            }
            acc = g1_add(&acc, &t);
            i = i + 1;
        }
        let z = g1_mul(&acc, &y);
        let y1 = g1_mul(&pp.p1, &w);
        let y2 = g2_mul(&pp.p2, &w);
        let sig = Signature { z, y1, y2 };
        proof {
            let d = dot(mviews, self@, mviews.len() as int);
            lemma_mul_mod_noop_left(d, y@, group_order());
            lemma_fmul_comm(d, y@);
            assert(z@ == fmul(y@, d));
            lemma_fmul_comm(pp@.p1, w@);
            lemma_fmul_comm(pp@.p2, w@);
            lemma_fmul_in_field(y@, d);
            lemma_fmul_in_field(pp@.p1, w@);
            lemma_fmul_in_field(pp@.p2, w@);
            assert(fresh_sig_witness(sig@, self@, pp@, mviews, y@, w@));
        }
        sig
    }

    /// Convert the secret key: rescale every component by `p`. The same
    /// `p` must be applied to the public key and to any signature meant to
    /// verify under the converted pair.
    pub fn convert(&mut self, p: Scalar)
        requires
            old(self).wf(),
            in_field(p@),
            p@ != 0,
        ensures
            final(self).wf(),
            final(self)@ == scaled(old(self)@, p@),
    {
        let mut i: usize = 0;
        while i < self.x.len()
            invariant
                self.x@.len() == old(self).x@.len(),
                in_field(p@),
                old(self).wf(),
                forall|j: int| i <= j < self.x@.len() ==> self.x@[j] == #[trigger] old(self).x@[j],
                forall|j: int| 0 <= j < i ==> #[trigger] self.x@[j]@ == fmul(p@, old(self)@[j]),
            decreases self.x@.len() - i,
        {
            proof {
                assert(self.x@[i as int] == old(self).x@[i as int]);
                assert(in_field(old(self)@[i as int]));
            }
            let xi = fr_mul(&p, &self.x[i]);
            self.x[i] = xi;
            i = i + 1;
        }
        proof {
            assert(self@ =~= scaled(old(self)@, p@));
            assert forall|j: int| 0 <= j < self@.len() implies in_field(#[trigger] self@[j]) by {
                lemma_fmul_in_field(p@, old(self)@[j]);
            }
        }
    }
}

} // verus!
