//! The variable-length-message extension: one base signature per
//! coordinate tuple `(g, i·g, n·g, h, ui)`, glued by the element `h`
//! derived from the whole message and the extension secret.
//!
//! The extra key components `bx6..bx10` and `x6..x10` are hooks for a
//! zero-knowledge proof that `h` was computed honestly; without that
//! proof, at a layer above this library, a signer may pick `h` freely.

pub mod public_key;
pub use public_key::PublicKey;

pub mod secret_key;
pub use secret_key::SecretKey;

pub mod representation;
pub use representation::change_representation;

pub mod signature;

use crate::algebra::in_field;
use crate::group::{fr_random, fr_random_nonzero, fr_mul, g2_mul, Rng};
use crate::params::PublicParams;
use vstd::prelude::*;

verus! {

impl PublicParams {
    /// Generate an extension key pair: a base pair of length 5, the
    /// trapdoor scalars `x6, x8` (nonzero), `x7 = x6·x`, `x9 = x8·y1`,
    /// `x10 = x8·y2` for fresh `x, y1, y2`, and their public images.
    pub fn key_gen_ex(&self, rng: &mut Rng) -> (keys: (PublicKey, SecretKey))
        requires
            self.wf(),
        ensures
            keys.0.wf(),
            keys.1.wf(),
            keys.1@.sk.len() == 5,
            crate::public_key::is_key_pair(keys.0@.pk, keys.1@.sk, self@),
            keys.0@.bx6 == crate::algebra::fmul(self@.p2, keys.1@.x6),
            keys.0@.bx7 == crate::algebra::fmul(self@.p2, keys.1@.x7),
            keys.0@.bx8 == crate::algebra::fmul(self@.p2, keys.1@.x8),
            keys.0@.bx9 == crate::algebra::fmul(self@.p2, keys.1@.x9),
            keys.0@.bx10 == crate::algebra::fmul(self@.p2, keys.1@.x10),
    {
        let (pk, sk) = self.key_gen(rng, 5);
        let x = fr_random(rng);
        let yy1 = fr_random(rng);
        let yy2 = fr_random(rng);
        let x6 = fr_random_nonzero(rng);
        let x8 = fr_random_nonzero(rng);
        let x7 = fr_mul(&x6, &x);
        let x9 = fr_mul(&x8, &yy1);
        let x10 = fr_mul(&x8, &yy2);
        let bx6 = g2_mul(&self.p2, &x6);
        let bx7 = g2_mul(&self.p2, &x7);
        let bx8 = g2_mul(&self.p2, &x8);
        let bx9 = g2_mul(&self.p2, &x9);
        let bx10 = g2_mul(&self.p2, &x10);
        proof {
            crate::algebra::lemma_fmul_in_field(x6@, x@);
            crate::algebra::lemma_fmul_in_field(x8@, yy1@);
            crate::algebra::lemma_fmul_in_field(x8@, yy2@);
        }
        let epk = PublicKey::from_parts(pk, bx6, bx7, bx8, bx9, bx10);
        let esk = SecretKey::from_parts(sk, x6, x7, x8, x9, x10);
        (epk, esk)
    }
}

} // verus!
