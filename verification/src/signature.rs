//! Signatures and their public conversion.

use crate::algebra::{dot, fmul, group_order, in_field, is_inv};
use crate::group::{fr_inv, fr_mul, fr_random_nonzero, g1_eq, g1_mul, g2_eq, g2_mul, G1Elem, G2Elem, Rng, Scalar};
use crate::params::ParamsView;
use vstd::prelude::*;

verus! {

/// A signature on a vector of `G1` elements: `z = y·(x1·M1 + ... + xm·Mm)`,
/// `y1 = (1/y)·p1`, `y2 = (1/y)·p2` for a fresh nonzero scalar `y`.
pub struct Signature {
    pub z: G1Elem,
    pub y1: G1Elem,
    pub y2: G2Elem,
}

/// The spec-level image of a signature: the discrete logarithms of its
/// three elements.
pub struct SigView {
    pub z: int,
    pub y1: int,
    pub y2: int,
}

impl View for Signature {
    type V = SigView;

    open spec fn view(&self) -> SigView {
        SigView { z: self.z@, y1: self.y1@, y2: self.y2@ }
    }
}

impl Clone for Signature {
    fn clone(&self) -> (r: Self)
        ensures
            r@ == self@,
    {
        Signature { z: self.z, y1: self.y1, y2: self.y2 }
    }
}

impl Copy for Signature {

}

impl PartialEq for Signature {
    fn eq(&self, other: &Signature) -> bool {
        g1_eq(&self.z, &other.z) && g1_eq(&self.y1, &other.y1) && g2_eq(&self.y2, &other.y2)
    }
}

impl vstd::std_specs::cmp::PartialEqSpecImpl for Signature {
    open spec fn obeys_eq_spec() -> bool {
        false
    }

    open spec fn eq_spec(&self, other: &Signature) -> bool {
        self@ == other@
    }
}

/// All three logarithms are canonical residues.
pub open spec fn sig_view_wf(s: SigView) -> bool {
    in_field(s.z) && in_field(s.y1) && in_field(s.y2)
}

impl Signature {
    /// All three logarithms are canonical residues.
    pub open spec fn wf(&self) -> bool {
        sig_view_wf(self@)
    }
}

/// How signing relates a signature to the key, the parameters and the
/// message, for the concrete randomizer `y` with inverse `w`.
pub open spec fn fresh_sig_witness(
    sig: SigView,
    sk: Seq<int>,
    pp: ParamsView,
    m: Seq<int>,
    y: int,
    w: int,
) -> bool {
    &&& in_field(y)
    &&& y != 0
    &&& is_inv(y, w)
    &&& sig.z == fmul(y, dot(m, sk, m.len() as int))
    &&& sig.y1 == fmul(w, pp.p1)
    &&& sig.y2 == fmul(w, pp.p2)
}

/// The signature is an honest output of signing `m` with `sk` under `pp`,
/// for some nonzero randomizer.
pub open spec fn is_fresh_signature(sig: SigView, sk: Seq<int>, pp: ParamsView, m: Seq<int>) -> bool {
    exists|y: int, w: int| fresh_sig_witness(sig, sk, pp, m, y, w)
}

/// How conversion with scalar `p` and randomizer `f` (of inverse `w`)
/// rewrites a signature: `z' = (p·f)·z`, `y1' = (1/f)·y1`, `y2' = (1/f)·y2`.
pub open spec fn converted_sig(s0: SigView, s1: SigView, p: int, f: int, w: int) -> bool {
    &&& in_field(f)
    &&& f != 0
    &&& is_inv(f, w)
    &&& s1.z == fmul(s0.z, fmul(p, f))
    &&& s1.y1 == fmul(s0.y1, w)
    &&& s1.y2 == fmul(s0.y2, w)
}

/// `post` is a conversion of `pre` with scalar `p`, for some nonzero
/// randomizer.
pub open spec fn sig_converted_some(pre: SigView, post: SigView, p: int) -> bool {
    exists|f: int, w: int| converted_sig(pre, post, p, f, w)
}

/// `post` comes from `pre` by a conversion with `u` followed by a
/// conversion with `p`.
pub open spec fn sig_converted_twice_some(pre: SigView, post: SigView, u: int, p: int) -> bool {
    exists|mid: SigView, f1: int, w1: int, f2: int, w2: int|
        converted_sig(pre, mid, u, f1, w1) && converted_sig(mid, post, p, f2, w2)
}

/// Every signature of `post` is a conversion with scalar `p` of its
/// counterpart in `pre`, for some nonzero randomizer.
pub open spec fn sigs_converted(pre: Seq<SigView>, post: Seq<SigView>, p: int) -> bool {
    &&& post.len() == pre.len()
    &&& forall|i: int|
        0 <= i < pre.len() ==> sig_converted_some(#[trigger] pre[i], post[i], p)
}

/// Every signature of `post` comes from its counterpart in `pre` by a
/// conversion with `u` followed by a conversion with `p`.
pub open spec fn sigs_converted_twice(
    pre: Seq<SigView>,
    post: Seq<SigView>,
    u: int,
    p: int,
) -> bool {
    &&& post.len() == pre.len()
    &&& forall|i: int|
        0 <= i < pre.len() ==> sig_converted_twice_some(#[trigger] pre[i], post[i], u, p)
}

impl Signature {
    /// Convert the signature to an equivalent representative under the key
    /// pair converted with the same scalar `p`.
    pub fn convert(&mut self, rng: &mut Rng, p: Scalar)
        requires
            old(self).wf(),
            in_field(p@),
            p@ != 0,
        ensures
            final(self).wf(),
            exists|f: int, w: int| converted_sig(old(self)@, final(self)@, p@, f, w),
    {
        let f = fr_random_nonzero(rng);
        self.convert_with_f(p, f);
    }

    /// The shared conversion path: rescale `z` by `p·f` and the two
    /// `y`-halves by the inverse of `f`.
    pub(crate) fn convert_with_f(&mut self, p: Scalar, f: Scalar)
        requires
            old(self).wf(),
            in_field(p@),
            in_field(f@),
            f@ != 0,
        ensures
            final(self).wf(),
            exists|w: int| converted_sig(old(self)@, final(self)@, p@, f@, w),
    {
        let w = fr_inv(&f);
        let pf = fr_mul(&p, &f);
        self.z = g1_mul(&self.z, &pf);
        self.y1 = g1_mul(&self.y1, &w);
        self.y2 = g2_mul(&self.y2, &w);
        proof {
            crate::algebra::lemma_fmul_in_field(old(self)@.z, fmul(p@, f@));
            crate::algebra::lemma_fmul_in_field(old(self)@.y1, w@);
            crate::algebra::lemma_fmul_in_field(old(self)@.y2, w@);
            assert(converted_sig(old(self)@, self@, p@, f@, w@));
        }
    }
}

} // verus!
