//! Change of representation: move a signed message to another
//! representative of its equivalence class.

use crate::algebra::{fmul, in_field, lemma_fmul_comm, lemma_fmul_in_field, scaled};
use crate::group::{fr_random_nonzero, g1_all_in_field, g1_mul, g1_views, G1Elem, Rng, Scalar};
use crate::signature::{converted_sig, Signature};
use vstd::prelude::*;

verus! {

/// Rescale the message by `u` and randomize the signature to match: the
/// result verifies under the unchanged key as a signature on `u·M`.
pub fn change_representation(
    rng: &mut Rng,
    message: &mut Vec<G1Elem>,
    signature: &mut Signature,
    u: Scalar,
)
    requires
        g1_all_in_field(old(message)@),
        old(signature).wf(),
        in_field(u@),
        u@ != 0,
    ensures
        final(message)@.len() == old(message)@.len(),
        g1_views(final(message)@) == scaled(g1_views(old(message)@), u@),
        g1_all_in_field(final(message)@),
        final(signature).wf(),
        exists|f: int, w: int| converted_sig(old(signature)@, final(signature)@, u@, f, w),
{
    let f = fr_random_nonzero(rng);
    signature.convert_with_f(u, f);
    let mut i: usize = 0;
    while i < message.len()
        invariant
            message@.len() == old(message)@.len(),
            in_field(u@),
            g1_all_in_field(old(message)@),
            forall|j: int| i <= j < message@.len() ==> message@[j] == #[trigger] old(message)@[j],
            forall|j: int|
                0 <= j < i ==> #[trigger] message@[j]@ == fmul(u@, old(message)@[j]@),
        decreases message@.len() - i,
    {
        proof {
            assert(message@[i as int] == old(message)@[i as int]);
            assert(in_field(old(message)@[i as int]@));
        }
        let mi = g1_mul(&message[i], &u);
        proof {
            lemma_fmul_comm(old(message)@[i as int]@, u@);
        }
        message[i] = mi;
        i = i + 1;
    }
    proof {
        assert(g1_views(message@) =~= scaled(g1_views(old(message)@), u@));
        assert forall|j: int| 0 <= j < message@.len() implies in_field(
            #[trigger] message@[j]@,
        ) by {
            lemma_fmul_in_field(u@, old(message)@[j]@);
        }
    }
}

} // verus!
