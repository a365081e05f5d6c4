//! Variable-length signatures and their public conversion.

use crate::algebra::{fmul, in_field, lemma_fmul_comm, lemma_fmul_in_field, scaled};
use crate::group::{fr_random_nonzero, g1_eq, g1_mul, G1Elem, Rng, Scalar};
use crate::signature::{converted_sig, sig_converted_some, sig_converted_twice_some, sig_view_wf, sigs_converted, sigs_converted_twice, SigView, Signature};
use vstd::prelude::*;

verus! {

/// A variable-length signature: the glue element `h` and one base
/// signature per coordinate tuple.
pub struct VarSignature {
    pub h: G1Elem,
    pub sigs: Vec<Signature>,
}

/// The spec-level image of a variable-length signature.
pub struct VarSigView {
    pub h: int,
    pub sigs: Seq<SigView>,
}

impl View for VarSignature {
    type V = VarSigView;

    open spec fn view(&self) -> VarSigView {
        VarSigView { h: self.h@, sigs: self.sigs@.map_values(|s: Signature| s@) }
    }
}

impl Clone for VarSignature {
    fn clone(&self) -> (r: Self)
        ensures
            r@ == self@,
    {
        let mut sigs: Vec<Signature> = Vec::new();
        let mut i: usize = 0;
        while i < self.sigs.len()
            invariant
                i <= self.sigs@.len(),
                sigs@.len() == i,
                forall|j: int| 0 <= j < i ==> sigs@[j]@ == #[trigger] self.sigs@[j]@,
            decreases self.sigs@.len() - i,
        {
            sigs.push(self.sigs[i]);
            i = i + 1;
        }
        let r = VarSignature { h: self.h, sigs };
        proof {
            assert(r@.sigs =~= self@.sigs);
        }
        r
    }
}

impl PartialEq for VarSignature {
    fn eq(&self, other: &VarSignature) -> bool {
        if !g1_eq(&self.h, &other.h) {
            return false;
        }
        if self.sigs.len() != other.sigs.len() {
            return false;
        }
        let mut i: usize = 0;
        while i < self.sigs.len()
            invariant
                i <= self.sigs@.len(),
                self.sigs@.len() == other.sigs@.len(),
            decreases self.sigs@.len() - i,
        {
            if !(self.sigs[i] == other.sigs[i]) {
                return false;
            }
            i = i + 1;
        }
        true
    }
}

impl vstd::std_specs::cmp::PartialEqSpecImpl for VarSignature {
    open spec fn obeys_eq_spec() -> bool {
        false
    }

    open spec fn eq_spec(&self, other: &VarSignature) -> bool {
        self@ == other@
    }
}

impl VarSignature {
    /// The glue element and every coordinate signature carry canonical
    /// residues.
    pub open spec fn wf(&self) -> bool {
        &&& in_field(self@.h)
        &&& forall|i: int| 0 <= i < self@.sigs.len() ==> sig_view_wf(#[trigger] self@.sigs[i])
    }

    /// The randomization half of a change of representation: convert
    /// every coordinate signature with scalar `u` and rescale the glue
    /// element by `u`.
    pub(crate) fn rescale(&mut self, rng: &mut Rng, u: Scalar)
        requires
            old(self).wf(),
            in_field(u@),
            u@ != 0,
        ensures
            final(self).wf(),
            final(self)@.h == fmul(u@, old(self)@.h),
            sigs_converted(old(self)@.sigs, final(self)@.sigs, u@),
    {
        let h = g1_mul(&self.h, &u);
        proof {
            lemma_fmul_comm(old(self)@.h, u@);
            lemma_fmul_in_field(u@, old(self)@.h);
        }
        self.h = h;
        let mut i: usize = 0;
        while i < self.sigs.len()
            invariant
                self.sigs@.len() == old(self).sigs@.len(),
                in_field(u@),
                u@ != 0,
                old(self).wf(),
                self.h@ == fmul(u@, old(self)@.h),
                in_field(self.h@),
                forall|j: int|
                    i <= j < self.sigs@.len() ==> self.sigs@[j] == #[trigger] old(self).sigs@[j],
                forall|j: int|
                    #![trigger self.sigs@[j]]
                    0 <= j < i ==> {
                        &&& self.sigs@[j].wf()
                        &&& sig_converted_some(old(self)@.sigs[j], self.sigs@[j]@, u@)
                    },
            decreases self.sigs@.len() - i,
        {
            proof {
                assert(self.sigs@[i as int] == old(self).sigs@[i as int]);
                assert(in_field((old(self)@.sigs[i as int]).z));
            }
            let f = fr_random_nonzero(rng);
            let mut s = self.sigs[i];
            proof {
                assert(s@ == old(self)@.sigs[i as int]);
            }
            s.convert_with_f(u, f);
            self.sigs[i] = s;
            proof {
                assert(self.sigs@[i as int]@ == s@);
                let wv = choose|w: int| converted_sig(old(self)@.sigs[i as int], s@, u@, f@, w);
                assert(converted_sig(old(self)@.sigs[i as int], self.sigs@[i as int]@, u@, f@, wv));
                assert(sig_converted_some(old(self)@.sigs[i as int], self.sigs@[i as int]@, u@));
                assert(self.sigs@[i as int].wf());
            }
            i = i + 1;
        }
        proof {
            assert forall|i: int| 0 <= i < old(self)@.sigs.len() implies sig_converted_some(
                #[trigger] old(self)@.sigs[i],
                self@.sigs[i],
                u@,
            ) by {
                assert(self.sigs@[i].wf());
                assert(self@.sigs[i] == self.sigs@[i]@);
                assert(sig_converted_some(old(self)@.sigs[i], self.sigs@[i]@, u@));
            }
            assert(sigs_converted(old(self)@.sigs, self@.sigs, u@));
            assert forall|i: int| 0 <= i < self@.sigs.len() implies sig_view_wf(
                #[trigger] self@.sigs[i],
            ) by {
                assert(self.sigs@[i].wf());
                assert(self@.sigs[i] == self.sigs@[i]@);
            }
        }
    }

    /// Convert the signature to the class representative matching the key
    /// pair converted with `p`, changing the message's representation
    /// with `u` on the way: each coordinate signature is converted first
    /// with `u` and then with `p`.
    pub fn convert(
        &mut self,
        rng: &mut Rng,
        message: &mut super::representation::VarMessage,
        p: Scalar,
        u: Scalar,
    )
        requires
            old(self).wf(),
            old(message).wf(),
            in_field(p@),
            p@ != 0,
            in_field(u@),
            u@ != 0,
        ensures
            final(self).wf(),
            final(message).wf(),
            final(message)@.g == fmul(u@, old(message)@.g),
            final(message)@.u == scaled(old(message)@.u, u@),
            final(self)@.h == fmul(u@, old(self)@.h),
            sigs_converted_twice(old(self)@.sigs, final(self)@.sigs, u@, p@),
    {
        let ghost pre = self@;
        super::representation::change_representation(rng, message, self, u);
        let ghost mid_view = self@;
        proof {
            assert(sigs_converted(pre.sigs, mid_view.sigs, u@));
        }
        let mut i: usize = 0;
        while i < self.sigs.len()
            invariant
                self.sigs@.len() == mid_view.sigs.len(),
                in_field(p@),
                p@ != 0,
                self@.h == mid_view.h,
                forall|j: int|
                    0 <= j < mid_view.sigs.len() ==> {
                        &&& in_field((#[trigger] mid_view.sigs[j]).z)
                        &&& in_field(mid_view.sigs[j].y1)
                        &&& in_field(mid_view.sigs[j].y2)
                    },
                forall|j: int|
                    i <= j < self.sigs@.len() ==> self.sigs@[j]@ == #[trigger] mid_view.sigs[j],
                forall|j: int|
                    #![trigger self.sigs@[j]]
                    0 <= j < i ==> {
                        &&& self.sigs@[j].wf()
                        &&& sig_converted_some(mid_view.sigs[j], self.sigs@[j]@, p@)
                    },
            decreases self.sigs@.len() - i,
        {
            let mut s = self.sigs[i];
            proof {
                assert(s@ == mid_view.sigs[i as int]);
            }
            s.convert(rng, p);
            self.sigs[i] = s;
            proof {
                assert(self.sigs@[i as int]@ == s@);
                let (fv, wv) = choose|f: int, w: int|
                    converted_sig(mid_view.sigs[i as int], s@, p@, f, w);
                assert(converted_sig(mid_view.sigs[i as int], self.sigs@[i as int]@, p@, fv, wv));
                assert(sig_converted_some(mid_view.sigs[i as int], self.sigs@[i as int]@, p@));
                assert(self.sigs@[i as int].wf());
            }
            i = i + 1;
        }
        proof {
            assert forall|i: int| 0 <= i < old(self)@.sigs.len() implies sig_converted_twice_some(
                #[trigger] old(self)@.sigs[i],
                self@.sigs[i],
                u@,
                p@,
            ) by {
                assert(self.sigs@[i].wf());
                assert(self@.sigs[i] == self.sigs@[i]@);
                assert(sig_converted_some(pre.sigs[i], mid_view.sigs[i], u@));
                let (f1, w1) = choose|f1: int, w1: int|
                    converted_sig(old(self)@.sigs[i], mid_view.sigs[i], u@, f1, w1);
                assert(sig_converted_some(mid_view.sigs[i], self.sigs@[i]@, p@));
                let (f2, w2) = choose|f2: int, w2: int|
                    converted_sig(mid_view.sigs[i], self.sigs@[i]@, p@, f2, w2);
                assert(converted_sig(old(self)@.sigs[i], mid_view.sigs[i], u@, f1, w1));
                assert(converted_sig(mid_view.sigs[i], self@.sigs[i], p@, f2, w2));
            }
            assert(sigs_converted_twice(old(self)@.sigs, self@.sigs, u@, p@));
            assert forall|i: int| 0 <= i < self@.sigs.len() implies sig_view_wf(
                #[trigger] self@.sigs[i],
            ) by {
                assert(self.sigs@[i].wf());
                assert(self@.sigs[i] == self.sigs@[i]@);
            }
        }
    }
}

} // verus!
