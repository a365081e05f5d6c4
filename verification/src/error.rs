//! The failures the library reports.

use vstd::prelude::*;

verus! {

/// What can go wrong in signing and decoding. Verification never fails: it
/// answers `false`.
#[derive(Clone, Copy, Debug, PartialEq, Eq, Structural)]
pub enum Error {
    /// Bytes did not decode to the expected group elements, or a decoded
    /// public key held the identity element.
    MalformedKey,
    /// The message handed to signing was longer than the secret key.
    MessageTooLong,
}

} // verus!
