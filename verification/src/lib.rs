//! Mercurial signatures over the BLS12-381 pairing.
//!
//! A mercurial signature signs a vector of `G1` elements and admits public
//! conversion of keys and signatures to new, equivalent representatives:
//! the key pair can be rescaled by a scalar `p`, and the signed message can
//! be rescaled by a scalar `u` together with the signature, all without the
//! secret key and without invalidating verification.
//!
//! Every group element is carried together with a ghost discrete logarithm
//! with respect to the curve's canonical generator, so the algebra of the
//! scheme is stated and proved as arithmetic modulo the group order.

pub mod algebra;
pub mod codec;
pub mod error;
pub mod extension;
pub mod group;
pub mod laws;
pub mod params;
pub mod public_key;
pub mod representation;
pub mod secret_key;
pub mod signature;

pub use algebra::group_order;
pub use error::Error;
pub use group::{fr_random, fr_random_nonzero, g1_random, g1_random_nonzero, g2_random, g2_random_nonzero, G1Elem, G2Elem, Rng, Scalar};
pub use params::PublicParams;
pub use public_key::PublicKey;
pub use representation::change_representation;
pub use secret_key::SecretKey;
pub use signature::Signature;
