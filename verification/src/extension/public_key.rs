//! Extension public keys: variable-length verification and key
//! conversion.

use crate::algebra::{fmul, in_field, lemma_fmul_comm, lemma_fmul_in_field};
use crate::group::{g2_eq, g2_mul, G2Elem, Scalar};
use crate::params::{ParamsView, PublicParams};
use crate::public_key::verify_spec;
use super::representation::{tuple_view, VarMessage, VarMessageView};
use super::signature::{VarSignature, VarSigView};
use vstd::prelude::*;

verus! {

/// The extension public key: a base key of length 5 and the public
/// images of the five trapdoor scalars, reserved for a proof of the glue
/// element's well-formedness.
pub struct PublicKey {
    pub(crate) pk: crate::public_key::PublicKey,
    pub(crate) bx6: G2Elem,
    pub(crate) bx7: G2Elem,
    pub(crate) bx8: G2Elem,
    pub(crate) bx9: G2Elem,
    pub(crate) bx10: G2Elem,
}

/// The spec-level image of an extension public key.
pub struct ExtPkView {
    pub pk: Seq<int>,
    pub bx6: int,
    pub bx7: int,
    pub bx8: int,
    pub bx9: int,
    pub bx10: int,
}

impl View for PublicKey {
    type V = ExtPkView;

    closed spec fn view(&self) -> ExtPkView {
        ExtPkView {
            pk: self.pk@,
            bx6: self.bx6@,
            bx7: self.bx7@,
            bx8: self.bx8@,
            bx9: self.bx9@,
            bx10: self.bx10@,
        }
    }
}

impl Clone for PublicKey {
    fn clone(&self) -> (r: Self)
        ensures
            r@ == self@,
    {
        PublicKey {
            pk: self.pk.clone(),
            bx6: self.bx6,
            bx7: self.bx7,
            bx8: self.bx8,
            bx9: self.bx9,
            bx10: self.bx10,
        }
    }
}

impl PartialEq for PublicKey {
    fn eq(&self, other: &PublicKey) -> bool {
        self.pk == other.pk && g2_eq(&self.bx6, &other.bx6) && g2_eq(&self.bx7, &other.bx7)
            && g2_eq(&self.bx8, &other.bx8) && g2_eq(&self.bx9, &other.bx9) && g2_eq(
            &self.bx10,
            &other.bx10,
        )
    }
}

impl vstd::std_specs::cmp::PartialEqSpecImpl for PublicKey {
    open spec fn obeys_eq_spec() -> bool {
        false
    }

    open spec fn eq_spec(&self, other: &PublicKey) -> bool {
        self@ == other@
    }
}

/// Every coordinate tuple of the message, against the glue element of
/// the signature, verifies under the base key.
pub open spec fn var_verify_spec(
    pk: Seq<int>,
    pp: ParamsView,
    msg: VarMessageView,
    vsig: VarSigView,
) -> bool {
    &&& msg.u.len() >= 1
    &&& vsig.sigs.len() == msg.u.len()
    &&& forall|i: int|
        0 <= i < msg.u.len() ==> verify_spec(
            pk,
            pp,
            tuple_view(msg.g, msg.u.len() as int, vsig.h, msg.u[i], i),
            #[trigger] vsig.sigs[i],
        )
}

impl PublicKey {
    /// The base key has length 5 and every component carries a canonical
    /// residue.
    pub open spec fn wf(&self) -> bool {
        &&& self@.pk.len() == 5
        &&& forall|i: int| 0 <= i < 5 ==> in_field(#[trigger] self@.pk[i])
        &&& in_field(self@.bx6)
        &&& in_field(self@.bx7)
        &&& in_field(self@.bx8)
        &&& in_field(self@.bx9)
        &&& in_field(self@.bx10)
    }

    /// Assemble a key from its components.
    pub(crate) fn from_parts(
        pk: crate::public_key::PublicKey,
        bx6: G2Elem,
        bx7: G2Elem,
        bx8: G2Elem,
        bx9: G2Elem,
        bx10: G2Elem,
    ) -> (r: PublicKey)
        ensures
            r@ == (ExtPkView {
                pk: pk@,
                bx6: bx6@,
                bx7: bx7@,
                bx8: bx8@,
                bx9: bx9@,
                bx10: bx10@,
            }),
    {
        PublicKey { pk, bx6, bx7, bx8, bx9, bx10 }
    }

    /// Verify a variable-length signature: rebuild the coordinate tuples
    /// from the message and the signature's glue element and verify each
    /// with the base key.
    pub fn verify(&self, pp: &PublicParams, message: &VarMessage, signature: &VarSignature) -> (r:
        bool)
        requires
            self.wf(),
            pp.wf(),
            message.wf(),
            signature.wf(),
        ensures
            r == var_verify_spec(self@.pk, pp@, message@, signature@),
    {
        let n = message.u.len();
        if n == 0 {
            return false;
        }
        if signature.sigs.len() != n {
            return false;
        }
        let tuples = message.to_tuples(signature.h);
        let mut i: usize = 0;
        while i < n
            invariant
                i <= n,
                n == message@.u.len(),
                n >= 1,
                self.wf(),
                pp.wf(),
                message.wf(),
                signature.wf(),
                signature@.sigs.len() == n,
                tuples@.len() == n,
                forall|j: int|
                    0 <= j < n ==> {
                        &&& crate::group::g1_all_in_field((#[trigger] tuples@[j])@)
                        &&& crate::group::g1_views(tuples@[j]@) == tuple_view(
                            message@.g,
                            n as int,
                            signature@.h,
                            message@.u[j],
                            j,
                        )
                    },
                forall|j: int|
                    0 <= j < i ==> verify_spec(
                        self@.pk,
                        pp@,
                        tuple_view(message@.g, n as int, signature@.h, message@.u[j], j),
                        #[trigger] signature@.sigs[j],
                    ),
            decreases n - i,
        {
            proof {
                assert(signature@.sigs[i as int] == signature.sigs@[i as int]@);
            }
            let ok = self.pk.verify(pp, &tuples[i], &signature.sigs[i]);
            if !ok {
                proof {
                    assert(!verify_spec(
                        self@.pk,
                        pp@,
                        tuple_view(message@.g, n as int, signature@.h, message@.u[i as int], i as int),
                        signature@.sigs[i as int],
                    ));
                }
                return false;
            }
            i = i + 1;
        }
        true
    }

    /// Convert the public key: rescale the base key and the five extra
    /// components by `p`.
    pub fn convert(&mut self, p: Scalar)
        requires
            old(self).wf(),
            in_field(p@),
            p@ != 0,
        ensures
            final(self).wf(),
            final(self)@.pk == crate::algebra::scaled(old(self)@.pk, p@),
            final(self)@.bx6 == fmul(p@, old(self)@.bx6),
            final(self)@.bx7 == fmul(p@, old(self)@.bx7),
            final(self)@.bx8 == fmul(p@, old(self)@.bx8),
            final(self)@.bx9 == fmul(p@, old(self)@.bx9),
            final(self)@.bx10 == fmul(p@, old(self)@.bx10),
    {
        self.pk.convert(p);
        let bx6 = g2_mul(&self.bx6, &p);
        let bx7 = g2_mul(&self.bx7, &p);
        let bx8 = g2_mul(&self.bx8, &p);
        let bx9 = g2_mul(&self.bx9, &p);
        let bx10 = g2_mul(&self.bx10, &p);
        proof {
            lemma_fmul_comm(old(self)@.bx6, p@);
            lemma_fmul_comm(old(self)@.bx7, p@);
            lemma_fmul_comm(old(self)@.bx8, p@);
            lemma_fmul_comm(old(self)@.bx9, p@);
            lemma_fmul_comm(old(self)@.bx10, p@);
        }
        self.bx6 = bx6;
        self.bx7 = bx7;
        self.bx8 = bx8;
        self.bx9 = bx9;
        self.bx10 = bx10;
        proof {
            assert forall|i: int| 0 <= i < 5 implies in_field(#[trigger] self@.pk[i]) by {
                assert(self@.pk[i] == crate::algebra::scaled(old(self)@.pk, p@)[i]);
                lemma_fmul_in_field(p@, old(self)@.pk[i]);
            }
            lemma_fmul_in_field(p@, old(self)@.bx6);
            lemma_fmul_in_field(p@, old(self)@.bx7);
            lemma_fmul_in_field(p@, old(self)@.bx8);
            lemma_fmul_in_field(p@, old(self)@.bx9);
            lemma_fmul_in_field(p@, old(self)@.bx10);
        }
    }
}

} // verus!
