//! Public keys: verification and key conversion.

use crate::algebra::{
    dot, fmul, group_order, in_field, lemma_fmul_comm, lemma_fmul_in_field, scaled,
};
use crate::group::{
    g1_all_in_field, g1_views, g1_zero, g2_eq, g2_mul, g2_views, g2_zero, gt_add, gt_eq, pairing,
    G1Elem, G2Elem, Scalar,
};
use crate::params::{ParamsView, PublicParams};
use crate::signature::{SigView, Signature};
use vstd::arithmetic::div_mod::{
    lemma_add_mod_noop, lemma_mod_bound, lemma_mul_mod_noop_general,
};
use vstd::prelude::*;

verus! {

/// A public key: the vector `(x1·p2, ..., xl·p2)` for the paired secret
/// key `(x1, ..., xl)`.
pub struct PublicKey {
    pub(crate) bx: Vec<G2Elem>,
}

impl View for PublicKey {
    type V = Seq<int>;

    closed spec fn view(&self) -> Seq<int> {
        g2_views(self.bx@)
    }
}

impl Clone for PublicKey {
    fn clone(&self) -> (r: Self)
        ensures
            r@ == self@,
    {
        let mut bx: Vec<G2Elem> = Vec::new();
        let mut i: usize = 0;
        while i < self.bx.len()
            invariant
                i <= self.bx@.len(),
                bx@.len() == i,
                forall|j: int| 0 <= j < i ==> bx@[j]@ == #[trigger] self.bx@[j]@,
            decreases self.bx@.len() - i,
        {
            bx.push(self.bx[i]);
            i = i + 1;
        }
        let r = PublicKey { bx };
        proof {
            assert(r@ =~= self@);
        }
        r
    }
}

impl PublicKey {
    /// Every component carries a canonical residue.
    pub open spec fn wf(&self) -> bool {
        forall|i: int| 0 <= i < self@.len() ==> in_field(#[trigger] self@[i])
    }

    /// Assemble a key from its components.
    pub(crate) fn from_parts(bx: Vec<G2Elem>) -> (r: PublicKey)
        ensures
            r@ == g2_views(bx@),
    {
        PublicKey { bx }
    }

    /// The components of the key.
    pub(crate) fn parts(&self) -> (r: &Vec<G2Elem>)
        ensures
            g2_views(r@) == self@,
    {
        &self.bx
    }

    /// Length of the public key.
    pub fn length(&self) -> (n: usize)
        ensures
            n == self@.len(),
    {
        self.bx.len()
    }
}

impl PartialEq for PublicKey {
    fn eq(&self, other: &PublicKey) -> bool {
        if self.bx.len() != other.bx.len() {
            return false;
        }
        let mut i: usize = 0;
        while i < self.bx.len()
            invariant
                i <= self.bx@.len(),
                self.bx@.len() == other.bx@.len(),
            decreases self.bx@.len() - i,
        {
            if !g2_eq(&self.bx[i], &other.bx[i]) {
                return false;
            }
            i = i + 1;
        }
        true
    }
}

impl vstd::std_specs::cmp::PartialEqSpecImpl for PublicKey {
    open spec fn obeys_eq_spec() -> bool {
        false
    }

    open spec fn eq_spec(&self, other: &PublicKey) -> bool {
        self@ == other@
    }
}

/// `pk` is the public image of `sk` under the parameters: componentwise
/// `pk[i] = sk[i]·p2`.
pub open spec fn is_key_pair(pk: Seq<int>, sk: Seq<int>, pp: ParamsView) -> bool {
    &&& pk.len() == sk.len()
    &&& forall|i: int| 0 <= i < sk.len() ==> #[trigger] pk[i] == fmul(pp.p2, sk[i])
}

/// The two verification equations on discrete logarithms: the message may
/// be shorter than the key, `e(y1, p2) = e(p1, y2)`, and
/// `e(z, y2) = e(M1, bx1)·...·e(Mm, bxm)`.
pub open spec fn verify_spec(pk: Seq<int>, pp: ParamsView, m: Seq<int>, sig: SigView) -> bool {
    &&& m.len() <= pk.len()
    &&& fmul(sig.y1, pp.p2) == fmul(pp.p1, sig.y2)
    &&& fmul(sig.z, sig.y2) == dot(m, pk, m.len() as int) % group_order()
}

impl PublicKey {
    /// Verify a signature: true exactly when both pairing equations hold
    /// and the message is no longer than the key.
    pub fn verify(&self, pp: &PublicParams, message: &Vec<G1Elem>, sig: &Signature) -> (r: bool)
        requires
            self.wf(),
            pp.wf(),
            g1_all_in_field(message@),
            sig.wf(),
        ensures
            r == verify_spec(self@, pp@, g1_views(message@), sig@),
    {
        let ghost mviews = g1_views(message@);
        if message.len() > self.bx.len() {
            return false;
        }
        let lhs1 = pairing(&sig.y1, &pp.p2);
        let rhs1 = pairing(&pp.p1, &sig.y2);
        proof {
            lemma_fmul_in_field(sig@.y1, pp@.p2);
            lemma_fmul_in_field(pp@.p1, sig@.y2);
        }
        if !gt_eq(&lhs1, &rhs1) {
            return false;
        }
        let lhs2 = pairing(&sig.z, &sig.y2);
        let zero1 = g1_zero();
        let zero2 = g2_zero();
        let mut acc = pairing(&zero1, &zero2);
        proof {
            lemma_fmul_in_field(sig@.z, sig@.y2);
            lemma_mod_bound(0, group_order());
            assert(fmul(0, 0) == 0int % group_order());
        }
        let mut i: usize = 0;
        while i < message.len()
            invariant
                self.wf(),
                g1_all_in_field(message@),
                i <= message@.len(),
                message@.len() <= self@.len(),
                mviews == g1_views(message@),
                acc@ == dot(mviews, self@, i as int) % group_order(),
                in_field(acc@),
            decreases message@.len() - i,
        {
            proof {
                assert(in_field(self@[i as int]));
                assert(in_field(message@[i as int]@));
                assert(self@[i as int] == self.bx@[i as int]@);
            }
            let t = pairing(&message[i], &self.bx[i]);
            proof {
                let d = dot(mviews, self@, i as int);
                let step = mviews[i as int] * self@[i as int];
                lemma_mul_mod_noop_general(mviews[i as int], self@[i as int], group_order());
                lemma_add_mod_noop(d, step, group_order());
                lemma_mod_bound(d + step, group_order());
                assert(dot(mviews, self@, i + 1) == d + step);
            }
            acc = gt_add(&acc, &t);
            i = i + 1;
        }
        gt_eq(&lhs2, &acc)
    }

    /// Convert the public key: rescale every component by `p`. The same
    /// `p` must be applied to the secret key and to any signature meant to
    /// verify under the converted pair.
    pub fn convert(&mut self, p: Scalar)
        requires
            old(self).wf(),
            in_field(p@),
            p@ != 0,
        ensures
            final(self).wf(),
            final(self)@ == scaled(old(self)@, p@),
    {
        let mut i: usize = 0;
        while i < self.bx.len()
            invariant
                self.bx@.len() == old(self).bx@.len(),
                in_field(p@),
                old(self).wf(),
                forall|j: int| i <= j < self.bx@.len() ==> self.bx@[j] == #[trigger] old(
                    self,
                ).bx@[j],
                forall|j: int| 0 <= j < i ==> #[trigger] self.bx@[j]@ == fmul(p@, old(self)@[j]),
            decreases self.bx@.len() - i,
        {
            proof {
                assert(self.bx@[i as int] == old(self).bx@[i as int]);
                assert(in_field(old(self)@[i as int]));
            }
            let bxi = g2_mul(&self.bx[i], &p);
            proof {
                lemma_fmul_comm(old(self)@[i as int], p@);
            }
            self.bx[i] = bxi;
            i = i + 1;
        }
        proof {
            assert(self@ =~= scaled(old(self)@, p@));
            assert forall|j: int| 0 <= j < self@.len() implies in_field(#[trigger] self@[j]) by {
                lemma_fmul_in_field(p@, old(self)@[j]);
            }
        }
    }
}

} // verus!
