//! Public parameters: the two group generators every key is built on.

use crate::algebra::in_field;
use crate::group::{
    g1_generator, g1_random_nonzero, g2_generator, g2_random_nonzero, G1Elem, G2Elem, Rng,
};
use crate::public_key::PublicKey;
use crate::secret_key::SecretKey;
use vstd::prelude::*;

verus! {

/// The generators `p1` of `G1` and `p2` of `G2`, fixed for the lifetime of
/// every key derived from them.
pub struct PublicParams {
    pub p1: G1Elem,
    pub p2: G2Elem,
}

/// The spec-level image of the parameters: the two discrete logarithms.
pub struct ParamsView {
    pub p1: int,
    pub p2: int,
}

impl View for PublicParams {
    type V = ParamsView;

    open spec fn view(&self) -> ParamsView {
        ParamsView { p1: self.p1@, p2: self.p2@ }
    }
}

impl Clone for PublicParams {
    fn clone(&self) -> (r: Self)
        ensures
            r@ == self@,
    {
        PublicParams { p1: self.p1, p2: self.p2 }
    }
}

impl PublicParams {
    /// Both generators are non-identity elements.
    pub open spec fn wf(&self) -> bool {
        &&& in_field(self@.p1)
        &&& self@.p1 != 0
        &&& in_field(self@.p2)
        &&& self@.p2 != 0
    }

    /// Generate public parameters: a uniform pair of non-identity
    /// generators.
    pub fn new(rng: &mut Rng) -> (pp: PublicParams)
        ensures
            pp.wf(),
    {
        let p1 = g1_random_nonzero(rng);
        let p2 = g2_random_nonzero(rng);
        PublicParams { p1, p2 }
    }

    /// Generate a key pair of length `size` under these parameters.
    pub fn key_gen(&self, rng: &mut Rng, size: u32) -> (keys: (PublicKey, SecretKey))
        requires
            self.wf(),
        ensures
            keys.0.wf(),
            keys.1.wf(),
            keys.1@.len() == size,
            crate::public_key::is_key_pair(keys.0@, keys.1@, self@),
    {
        let ghost pview = self@;
        let mut x: Vec<crate::group::Scalar> = Vec::new();
        let mut bx: Vec<G2Elem> = Vec::new();
        let mut i: u32 = 0;
        while i < size
            invariant
                self.wf(),
                pview == self@,
                i <= size,
                x@.len() == i,
                bx@.len() == i,
                forall|j: int| 0 <= j < i ==> in_field(#[trigger] x@[j]@),
                forall|j: int|
                    0 <= j < i ==> #[trigger] bx@[j]@ == crate::algebra::fmul(self@.p2, x@[j]@),
                forall|j: int| 0 <= j < i ==> in_field(#[trigger] bx@[j]@),
            decreases size - i,
        {
            let xi = crate::group::fr_random(rng);
            let bxi = crate::group::g2_mul(&self.p2, &xi);
            x.push(xi);
            bx.push(bxi);
            i = i + 1;
        }
        let ghost xs = x@;
        let ghost bxs = bx@;
        let pk = PublicKey::from_parts(bx);
        let sk = SecretKey::from_parts(x);
        proof {
            assert forall|j: int| 0 <= j < sk@.len() implies #[trigger] pk@[j] == crate::algebra::fmul(
                self@.p2,
                sk@[j],
            ) by {
                assert(pk@[j] == bxs[j]@);
                assert(sk@[j] == xs[j]@);
            }
            assert forall|j: int| 0 <= j < pk@.len() implies in_field(#[trigger] pk@[j]) by {
                assert(pk@[j] == bxs[j]@);
            }
            assert forall|j: int| 0 <= j < sk@.len() implies in_field(#[trigger] sk@[j]) by {
                assert(sk@[j] == xs[j]@);
            }
        }
        (pk, sk)
    }
}

/// The canonical generators of the curve, for deterministic use.
impl Default for PublicParams {
    fn default() -> (pp: PublicParams)
        ensures
            pp.wf(),
            pp@.p1 == 1,
            pp@.p2 == 1,
    {
        PublicParams { p1: g1_generator(), p2: g2_generator() }
    }
}

} // verus!
