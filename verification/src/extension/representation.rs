//! Variable-length messages and their change of representation.

use crate::algebra::{
    fmul, in_field, lemma_fmul_comm, lemma_fmul_in_field, lemma_fmul_one, scaled,
};
use crate::group::{
    fr_random_nonzero, g1_add, g1_all_in_field, g1_eq, g1_mul, g1_views, G1Elem, Rng, Scalar,
};
use crate::signature::{converted_sig, sigs_converted};
use vstd::arithmetic::div_mod::{lemma_add_mod_noop, lemma_mod_bound, lemma_mul_mod_noop_left};
use vstd::prelude::*;

verus! {

/// A variable-length message: a base point `g` and the points
/// `ui = mi·g` encoding the scalars `mi`.
pub struct VarMessage {
    pub g: G1Elem,
    pub u: Vec<G1Elem>,
}

/// The spec-level image of a variable-length message.
pub struct VarMessageView {
    pub g: int,
    pub u: Seq<int>,
}

impl View for VarMessage {
    type V = VarMessageView;

    open spec fn view(&self) -> VarMessageView {
        VarMessageView { g: self.g@, u: g1_views(self.u@) }
    }
}

impl Clone for VarMessage {
    fn clone(&self) -> (r: Self)
        ensures
            r@ == self@,
    {
        let mut u: Vec<G1Elem> = Vec::new();
        let mut i: usize = 0;
        while i < self.u.len()
            invariant
                i <= self.u@.len(),
                u@.len() == i,
                forall|j: int| 0 <= j < i ==> u@[j]@ == #[trigger] self.u@[j]@,
            decreases self.u@.len() - i,
        {
            u.push(self.u[i]);
            i = i + 1;
        }
        let r = VarMessage { g: self.g, u };
        proof {
            assert(r@.u =~= self@.u);
        }
        r
    }
}

impl PartialEq for VarMessage {
    fn eq(&self, other: &VarMessage) -> bool {
        if !g1_eq(&self.g, &other.g) {
            return false;
        }
        if self.u.len() != other.u.len() {
            return false;
        }
        let mut i: usize = 0;
        while i < self.u.len()
            invariant
                i <= self.u@.len(),
                self.u@.len() == other.u@.len(),
            decreases self.u@.len() - i,
        {
            if !g1_eq(&self.u[i], &other.u[i]) {
                return false;
            }
            i = i + 1;
        }
        true
    }
}

impl vstd::std_specs::cmp::PartialEqSpecImpl for VarMessage {
    open spec fn obeys_eq_spec() -> bool {
        false
    }

    open spec fn eq_spec(&self, other: &VarMessage) -> bool {
        self@.g == other@.g && self@.u == other@.u
    }
}

/// The `i`-th (zero-based) coordinate tuple `(g, (i+1)·g, n·g, h, ui)`
/// signed by the base scheme, on discrete logarithms.
pub open spec fn tuple_view(g: int, n: int, h: int, ui: int, i: int) -> Seq<int> {
    seq![g, fmul(i + 1, g), fmul(n, g), h, ui]
}

impl VarMessage {
    /// Every component carries a canonical residue.
    pub open spec fn wf(&self) -> bool {
        &&& in_field(self@.g)
        &&& forall|i: int| 0 <= i < self@.u.len() ==> in_field(#[trigger] self@.u[i])
    }

    /// Create a variable-length message encoding the scalars `u` on the
    /// base point `g`.
    pub fn new(g: G1Elem, u: &Vec<Scalar>) -> (r: VarMessage)
        requires
            in_field(g@),
            crate::group::scalar_all_in_field(u@),
        ensures
            r.wf(),
            r@.g == g@,
            r@.u.len() == u@.len(),
            forall|i: int|
                0 <= i < u@.len() ==> r@.u[i] == fmul(g@, #[trigger] u@[i]@),
    {
        let mut points: Vec<G1Elem> = Vec::new();
        let mut i: usize = 0;
        while i < u.len()
            invariant
                i <= u@.len(),
                in_field(g@),
                crate::group::scalar_all_in_field(u@),
                points@.len() == i,
                forall|j: int| 0 <= j < i ==> #[trigger] points@[j]@ == fmul(g@, u@[j]@),
            decreases u@.len() - i,
        {
            proof {
                assert(in_field(u@[i as int]@));
            }
            let p = g1_mul(&g, &u[i]);
            points.push(p);
            i = i + 1;
        }
        let r = VarMessage { g, u: points };
        proof {
            assert forall|j: int| 0 <= j < r@.u.len() implies in_field(#[trigger] r@.u[j]) by {
                lemma_fmul_in_field(g@, u@[j]@);
            }
        }
        r
    }

    /// Length of the message (excluding `g`).
    pub fn length(&self) -> (n: usize)
        ensures
            n == self@.u.len(),
    {
        self.u.len()
    }

    /// Size in bytes of the message in compressed encoding.
    pub fn size(&self) -> (n: usize)
        requires
            48 * (1 + self@.u.len()) <= usize::MAX,
        ensures
            n == 48 * (1 + self@.u.len()),
    {
        48 + 48 * self.u.len()
    }

    /// Rescale the whole message by `w`, moving it to another
    /// representative of its class.
    pub fn randomize(&mut self, w: Scalar)
        requires
            old(self).wf(),
            in_field(w@),
            w@ != 0,
        ensures
            final(self).wf(),
            final(self)@.g == fmul(w@, old(self)@.g),
            final(self)@.u == scaled(old(self)@.u, w@),
    {
        let g = g1_mul(&self.g, &w);
        proof {
            lemma_fmul_comm(old(self)@.g, w@);
            lemma_fmul_in_field(w@, old(self)@.g);
        }
        self.g = g;
        let mut i: usize = 0;
        while i < self.u.len()
            invariant
                self.u@.len() == old(self).u@.len(),
                in_field(w@),
                old(self).wf(),
                self.g@ == fmul(w@, old(self)@.g),
                in_field(self.g@),
                forall|j: int| i <= j < self.u@.len() ==> self.u@[j] == #[trigger] old(self).u@[j],
                forall|j: int|
                    0 <= j < i ==> #[trigger] self.u@[j]@ == fmul(w@, old(self)@.u[j]),
            decreases self.u@.len() - i,
        {
            proof {
                assert(self.u@[i as int] == old(self).u@[i as int]);
                assert(in_field(old(self)@.u[i as int]));
            }
            let ui = g1_mul(&self.u[i], &w);
            proof {
                lemma_fmul_comm(old(self)@.u[i as int], w@);
            }
            self.u[i] = ui;
            i = i + 1;
        }
        proof {
            assert(g1_views(self.u@) =~= scaled(old(self)@.u, w@));
            assert forall|j: int| 0 <= j < self@.u.len() implies in_field(
                #[trigger] self@.u[j],
            ) by {
                lemma_fmul_in_field(w@, old(self)@.u[j]);
            }
        }
    }

    /// Build the coordinate tuples `(g, (i+1)·g, n·g, h, ui)` shared by
    /// signing and verification.
    pub(crate) fn to_tuples(&self, h: G1Elem) -> (r: Vec<Vec<G1Elem>>)
        requires
            self.wf(),
            in_field(h@),
            self@.u.len() >= 1,
        ensures
            r@.len() == self@.u.len(),
            forall|i: int|
                0 <= i < r@.len() ==> {
                    &&& (#[trigger] r@[i])@.len() == 5
                    &&& g1_all_in_field(r@[i]@)
                    &&& g1_views(r@[i]@) == tuple_view(
                        self@.g,
                        self@.u.len() as int,
                        h@,
                        self@.u[i],
                        i,
                    )
                },
    {
        let n = self.u.len();
        let ghost gd = self@.g;
        // The multiples g, 2·g, ..., n·g by successive addition.
        let mut gs: Vec<G1Elem> = Vec::new();
        let mut gi = self.g;
        proof {
            lemma_fmul_one(gd);
        }
        let mut i: usize = 0;
        while i < n
            invariant
                i <= n,
                n == self@.u.len(),
                self.wf(),
                gd == self@.g,
                gs@.len() == i,
                in_field(gi@),
                gi@ == fmul(i + 1, gd),
                forall|j: int| 0 <= j < i ==> #[trigger] gs@[j]@ == fmul(j + 1, gd),
            decreases n - i,
        {
            gs.push(gi);
            proof {
                let r = crate::algebra::group_order();
                lemma_add_mod_noop((i + 1) * gd, gd, r);
                lemma_mod_bound(gd, r);
                crate::algebra::lemma_fadd_in_field(gi@, gd);
                assert((i + 1) * gd + gd == (i + 2) * gd) by (nonlinear_arith);
                assert(gd % r == gd);
            }
            gi = g1_add(&gi, &self.g);
            i = i + 1;
        }
        let gn = gs[n - 1];
        let mut tuples: Vec<Vec<G1Elem>> = Vec::new();
        let mut k: usize = 0;
        while k < n
            invariant
                k <= n,
                n == self@.u.len(),
                self.wf(),
                gd == self@.g,
                gs@.len() == n,
                forall|j: int| 0 <= j < n ==> #[trigger] gs@[j]@ == fmul(j + 1, gd),
                gn@ == fmul(n as int, gd),
                in_field(gn@),
                in_field(h@),
                tuples@.len() == k,
                forall|j: int|
                    0 <= j < k ==> {
                        &&& (#[trigger] tuples@[j])@.len() == 5
                        &&& g1_all_in_field(tuples@[j]@)
                        &&& g1_views(tuples@[j]@) == tuple_view(gd, n as int, h@, self@.u[j], j)
                    },
            decreases n - k,
        {
            proof {
                assert(in_field(self@.u[k as int]));
                assert(in_field(gs@[k as int]@));
            }
            let tuple: Vec<G1Elem> = vec![self.g, gs[k], gn, h, self.u[k]];
            proof {
                assert(g1_views(tuple@) =~= tuple_view(gd, n as int, h@, self@.u[k as int], k as int));
            }
            tuples.push(tuple);
            k = k + 1;
        }
        tuples
    }
}

/// Rescale a variable-length message by `u` and randomize its signature
/// to match: every coordinate signature is converted with scalar `u`, and
/// `g`, the `ui` and the glue element `h` are rescaled by `u`.
pub fn change_representation(
    rng: &mut Rng,
    message: &mut VarMessage,
    signature: &mut super::signature::VarSignature,
    u: Scalar,
)
    requires
        old(message).wf(),
        old(signature).wf(),
        in_field(u@),
        u@ != 0,
    ensures
        final(message).wf(),
        final(signature).wf(),
        final(message)@.g == fmul(u@, old(message)@.g),
        final(message)@.u == scaled(old(message)@.u, u@),
        final(signature)@.h == fmul(u@, old(signature)@.h),
        sigs_converted(old(signature)@.sigs, final(signature)@.sigs, u@),
{
    signature.rescale(rng, u);
    message.randomize(u);
}

} // verus!
