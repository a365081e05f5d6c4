//! The pairing groups of BLS12-381, behind trusted wrappers.
//!
//! Each exec value of [`Scalar`], [`G1Elem`], [`G2Elem`] and [`GtElem`] pairs
//! the curve library's element with its ghost discrete logarithm, taken to
//! the canonical generator of its group (for the target group, to the
//! pairing of the two canonical generators). The groups are cyclic of the
//! same prime order `r = group_order()`, so the logarithm is a canonical
//! residue and determines the element; every operation below states its
//! effect on the logarithms. Only the wrappers of this module build these
//! values, and each keeps the logarithm field equal to the true discrete
//! logarithm of the element it returns.

use crate::algebra::{fadd, fmul, group_order, in_field, is_inv};
use crate::codec::{fr_enc, g1_byte, g1_enc, g2_byte, g2_enc};
use crate::error::Error;
use ark_serialize::{CanonicalDeserialize, CanonicalSerialize};
use ark_ec::pairing::Pairing;
use ark_ec::PrimeGroup;
use ark_ff::Field;
use ark_std::{One, UniformRand, Zero};
use vstd::prelude::*;

verus! {

// The curve library's element types are generic over configuration traits
// that the verifier does not know, so they cannot be named in signatures
// that the verifier reads. Each is held instead in an opaque struct of this
// module, and only the trusted wrappers below look inside.
/// Holds an element of the scalar field `Fr` of BLS12-381.
#[verifier::external_body]
pub struct FrRepr {
    raw: ark_bls12_381::Fr,
}

/// Holds an element of the group `G1` of BLS12-381.
#[verifier::external_body]
pub struct G1Repr {
    raw: ark_bls12_381::G1Projective,
}

/// Holds an element of the group `G2` of BLS12-381.
#[verifier::external_body]
pub struct G2Repr {
    raw: ark_bls12_381::G2Projective,
}

/// Holds an element of the target group of the BLS12-381 pairing.
#[verifier::external_body]
pub struct GtRepr {
    raw: ark_ec::pairing::PairingOutput<ark_bls12_381::Bls12_381>,
}

impl Clone for FrRepr {
    /// Relies on the element type's Copy: the copy is the same element.
    #[verifier::external_body]
    fn clone(&self) -> (r: Self) {
        FrRepr { raw: self.raw }
    }
}

impl Copy for FrRepr {

}

impl Clone for G1Repr {
    /// Relies on the element type's Copy: the copy is the same element.
    #[verifier::external_body]
    fn clone(&self) -> (r: Self) {
        G1Repr { raw: self.raw }
    }
}

impl Copy for G1Repr {

}

impl Clone for G2Repr {
    /// Relies on the element type's Copy: the copy is the same element.
    #[verifier::external_body]
    fn clone(&self) -> (r: Self) {
        G2Repr { raw: self.raw }
    }
}

impl Copy for G2Repr {

}

impl Clone for GtRepr {
    /// Relies on the element type's Copy: the copy is the same element.
    #[verifier::external_body]
    fn clone(&self) -> (r: Self) {
        GtRepr { raw: self.raw }
    }
}

impl Copy for GtRepr {

}

/// The caller-supplied randomness source: the thread-local CSPRNG.
#[verifier::external_body]
pub struct Rng {
    raw: rand::rngs::ThreadRng,
}

impl Rng {
    /// Relies on rand's thread_rng: a cryptographically secure generator.
    #[verifier::external_body]
    pub fn new() -> (rng: Rng) {
        Rng { raw: rand::thread_rng() }
    }
}

/// An element of the scalar field `Fr`; its view is its canonical residue.
pub struct Scalar {
    raw: FrRepr,
    val: Ghost<int>,
}

impl View for Scalar {
    type V = int;

    closed spec fn view(&self) -> int {
        self.val@
    }
}

impl Clone for Scalar {
    fn clone(&self) -> (r: Self)
        ensures
            r@ == self@,
    {
        Scalar { raw: self.raw, val: Ghost(self@) }
    }
}

impl Copy for Scalar {

}

/// An element of `G1`; its view is its discrete logarithm.
pub struct G1Elem {
    raw: G1Repr,
    dlog: Ghost<int>,
}

impl View for G1Elem {
    type V = int;

    closed spec fn view(&self) -> int {
        self.dlog@
    }
}

impl Clone for G1Elem {
    fn clone(&self) -> (r: Self)
        ensures
            r@ == self@,
    {
        G1Elem { raw: self.raw, dlog: Ghost(self@) }
    }
}

impl Copy for G1Elem {

}

/// An element of `G2`; its view is its discrete logarithm.
pub struct G2Elem {
    raw: G2Repr,
    dlog: Ghost<int>,
}

impl View for G2Elem {
    type V = int;

    closed spec fn view(&self) -> int {
        self.dlog@
    }
}

impl Clone for G2Elem {
    fn clone(&self) -> (r: Self)
        ensures
            r@ == self@,
    {
        G2Elem { raw: self.raw, dlog: Ghost(self@) }
    }
}

impl Copy for G2Elem {

}

/// An element of the pairing's target group; its view is its discrete
/// logarithm to the base `e(P1, P2)`.
pub struct GtElem {
    raw: GtRepr,
    dlog: Ghost<int>,
}

impl View for GtElem {
    type V = int;

    closed spec fn view(&self) -> int {
        self.dlog@
    }
}

impl Clone for GtElem {
    fn clone(&self) -> (r: Self)
        ensures
            r@ == self@,
    {
        GtElem { raw: self.raw, dlog: Ghost(self@) }
    }
}

impl Copy for GtElem {

}

/// Relies on Fr's UniformRand: a uniform scalar, some canonical residue.
#[verifier::external_body]
pub fn fr_random(rng: &mut Rng) -> (s: Scalar)
    ensures
        in_field(s@),
{
    Scalar { raw: FrRepr { raw: ark_bls12_381::Fr::rand(&mut rng.raw) }, val: Ghost(0) }
}

/// Relies on Fr's Zero: zero is the scalar with residue 0.
#[verifier::external_body]
pub(crate) fn fr_is_zero(s: &Scalar) -> (r: bool)
    requires
        in_field(s@),
    ensures
        r == (s@ == 0),
{
    s.raw.raw.is_zero()
}

/// Relies on Fr's One: the scalar with residue 1.
#[verifier::external_body]
pub(crate) fn fr_one() -> (s: Scalar)
    ensures
        s@ == 1,
{
    Scalar { raw: FrRepr { raw: ark_bls12_381::Fr::one() }, val: Ghost(0) }
}

/// Relies on Fr's Mul: field multiplication multiplies residues mod `r`;
/// as `Fr` is a field, a product of nonzero factors is nonzero.
#[verifier::external_body]
pub(crate) fn fr_mul(a: &Scalar, b: &Scalar) -> (s: Scalar)
    requires
        in_field(a@),
        in_field(b@),
    ensures
        s@ == fmul(a@, b@),
        a@ != 0 && b@ != 0 ==> s@ != 0,
{
    Scalar { raw: FrRepr { raw: a.raw.raw * b.raw.raw }, val: Ghost(0) }
}

/// Relies on Fr's Field::inverse: the multiplicative inverse of a nonzero
/// scalar, which exists since `r` is prime.
#[verifier::external_body]
pub(crate) fn fr_inv(a: &Scalar) -> (s: Scalar)
    requires
        in_field(a@),
        a@ != 0,
    ensures
        is_inv(a@, s@),
{
    Scalar { raw: FrRepr { raw: a.raw.raw.inverse().unwrap() }, val: Ghost(0) }
}

/// Relies on G1's UniformRand: a uniform element, some discrete logarithm.
#[verifier::external_body]
pub fn g1_random(rng: &mut Rng) -> (e: G1Elem)
    ensures
        in_field(e@),
{
    G1Elem { raw: G1Repr { raw: ark_bls12_381::G1Projective::rand(&mut rng.raw) }, dlog: Ghost(0) }
}

/// Relies on G1's Zero: the identity, of discrete logarithm 0.
#[verifier::external_body]
pub(crate) fn g1_zero() -> (e: G1Elem)
    ensures
        e@ == 0,
{
    G1Elem { raw: G1Repr { raw: ark_bls12_381::G1Projective::zero() }, dlog: Ghost(0) }
}

/// Relies on G1's PrimeGroup::generator: the canonical generator, the base
/// of the logarithm, of discrete logarithm 1.
#[verifier::external_body]
pub(crate) fn g1_generator() -> (e: G1Elem)
    ensures
        e@ == 1,
{
    G1Elem { raw: G1Repr { raw: ark_bls12_381::G1Projective::generator() }, dlog: Ghost(0) }
}

/// Relies on G1's Add: adding elements adds logarithms mod `r`.
#[verifier::external_body]
pub(crate) fn g1_add(a: &G1Elem, b: &G1Elem) -> (e: G1Elem)
    requires
        in_field(a@),
        in_field(b@),
    ensures
        e@ == fadd(a@, b@),
{
    G1Elem { raw: G1Repr { raw: a.raw.raw + b.raw.raw }, dlog: Ghost(0) }
}

/// Relies on G1's Mul<Fr>: scalar multiplication multiplies the logarithm
/// by the scalar's residue mod `r`.
#[verifier::external_body]
pub(crate) fn g1_mul(a: &G1Elem, s: &Scalar) -> (e: G1Elem)
    requires
        in_field(a@),
        in_field(s@),
    ensures
        e@ == fmul(a@, s@),
{
    G1Elem { raw: G1Repr { raw: a.raw.raw * s.raw.raw }, dlog: Ghost(0) }
}

/// Relies on G1's Zero::is_zero: only the identity has logarithm 0.
#[verifier::external_body]
pub(crate) fn g1_is_zero(a: &G1Elem) -> (r: bool)
    requires
        in_field(a@),
    ensures
        r == (a@ == 0),
{
    a.raw.raw.is_zero()
}

/// Relies on G1's PartialEq: elements are equal exactly when their
/// logarithms to the generator agree.
#[verifier::external_body]
pub(crate) fn g1_eq(a: &G1Elem, b: &G1Elem) -> (r: bool)
    ensures
        in_field(a@) && in_field(b@) ==> r == (a@ == b@),
{
    a.raw.raw == b.raw.raw
}

/// Relies on G2's UniformRand: a uniform element, some discrete logarithm.
#[verifier::external_body]
pub fn g2_random(rng: &mut Rng) -> (e: G2Elem)
    ensures
        in_field(e@),
{
    G2Elem { raw: G2Repr { raw: ark_bls12_381::G2Projective::rand(&mut rng.raw) }, dlog: Ghost(0) }
}

/// Relies on G2's Zero: the identity, of discrete logarithm 0.
#[verifier::external_body]
pub(crate) fn g2_zero() -> (e: G2Elem)
    ensures
        e@ == 0,
{
    G2Elem { raw: G2Repr { raw: ark_bls12_381::G2Projective::zero() }, dlog: Ghost(0) }
}

/// Relies on G2's PrimeGroup::generator: the canonical generator, the base
/// of the logarithm, of discrete logarithm 1.
#[verifier::external_body]
pub(crate) fn g2_generator() -> (e: G2Elem)
    ensures
        e@ == 1,
{
    G2Elem { raw: G2Repr { raw: ark_bls12_381::G2Projective::generator() }, dlog: Ghost(0) }
}

/// Relies on G2's Add: adding elements adds logarithms mod `r`.
#[verifier::external_body]
pub(crate) fn g2_add(a: &G2Elem, b: &G2Elem) -> (e: G2Elem)
    requires
        in_field(a@),
        in_field(b@),
    ensures
        e@ == fadd(a@, b@),
{
    G2Elem { raw: G2Repr { raw: a.raw.raw + b.raw.raw }, dlog: Ghost(0) }
}

/// Relies on G2's Mul<Fr>: scalar multiplication multiplies the logarithm
/// by the scalar's residue mod `r`.
#[verifier::external_body]
pub(crate) fn g2_mul(a: &G2Elem, s: &Scalar) -> (e: G2Elem)
    requires
        in_field(a@),
        in_field(s@),
    ensures
        e@ == fmul(a@, s@),
{
    G2Elem { raw: G2Repr { raw: a.raw.raw * s.raw.raw }, dlog: Ghost(0) }
}

/// Relies on G2's Zero::is_zero: only the identity has logarithm 0.
#[verifier::external_body]
pub(crate) fn g2_is_zero(a: &G2Elem) -> (r: bool)
    requires
        in_field(a@),
    ensures
        r == (a@ == 0),
{
    a.raw.raw.is_zero()
}

/// Relies on G2's PartialEq: elements are equal exactly when their
/// logarithms to the generator agree.
#[verifier::external_body]
pub(crate) fn g2_eq(a: &G2Elem, b: &G2Elem) -> (r: bool)
    ensures
        in_field(a@) && in_field(b@) ==> r == (a@ == b@),
{
    a.raw.raw == b.raw.raw
}

/// Relies on Fr's PartialEq: scalars are equal exactly when their
/// canonical residues agree.
#[verifier::external_body]
pub(crate) fn fr_eq(a: &Scalar, b: &Scalar) -> (r: bool)
    ensures
        in_field(a@) && in_field(b@) ==> r == (a@ == b@),
{
    a.raw.raw == b.raw.raw
}

/// Relies on Bls12_381's Pairing::pairing: the pairing is bilinear and
/// non-degenerate, so `e(a·P1, b·P2) = e(P1, P2)^(a·b)`.
#[verifier::external_body]
pub(crate) fn pairing(a: &G1Elem, b: &G2Elem) -> (t: GtElem)
    requires
        in_field(a@),
        in_field(b@),
    ensures
        t@ == fmul(a@, b@),
{
    GtElem { raw: GtRepr { raw: ark_bls12_381::Bls12_381::pairing(a.raw.raw, b.raw.raw) }, dlog: Ghost(0) }
}

/// Relies on PairingOutput's Add: the target group is written additively,
/// and adding elements adds logarithms mod `r`.
#[verifier::external_body]
pub(crate) fn gt_add(a: &GtElem, b: &GtElem) -> (t: GtElem)
    requires
        in_field(a@),
        in_field(b@),
    ensures
        t@ == fadd(a@, b@),
{
    GtElem { raw: GtRepr { raw: a.raw.raw + b.raw.raw }, dlog: Ghost(0) }
}

/// Relies on PairingOutput's PartialEq: elements of the target group are
/// equal exactly when their logarithms to `e(P1, P2)` agree.
#[verifier::external_body]
pub(crate) fn gt_eq(a: &GtElem, b: &GtElem) -> (r: bool)
    requires
        in_field(a@),
        in_field(b@),
    ensures
        r == (a@ == b@),
{
    a.raw.raw == b.raw.raw
}

/// Relies on Fr's CanonicalSerialize: the compressed form is the 32
/// little-endian bytes of the canonical residue.
#[verifier::external_body]
pub(crate) fn fr_write(s: &Scalar) -> (b: Vec<u8>)
    requires
        in_field(s@),
    ensures
        b@ == fr_enc(s@),
{
    let mut out: Vec<u8> = Vec::new();
    s.raw.raw.serialize_compressed(&mut out).unwrap();
    out
}

/// Relies on Fr's CanonicalDeserialize: the 32 little-endian bytes of a
/// canonical residue decode to that residue; residues at or above the
/// field order are rejected.
#[verifier::external_body]
pub(crate) fn fr_read(b: &[u8]) -> (r: Result<Scalar, Error>)
    ensures
        r is Ok ==> forall|v: int| in_field(v) && b@ == fr_enc(v) ==> (r->Ok_0)@ == v,
        r is Ok ==> in_field((r->Ok_0)@),
        r is Err ==> r->Err_0 == Error::MalformedKey,
        r is Err ==> forall|v: int| !(in_field(v) && b@ == fr_enc(v)),
{
    match ark_bls12_381::Fr::deserialize_compressed(b) {
        Ok(raw) => Result::Ok(Scalar { raw: FrRepr { raw }, val: Ghost(0) }),
        Err(_) => Result::Err(Error::MalformedKey),
    }
}

/// Relies on G1's CanonicalSerialize: 48 bytes of compressed form,
/// determined by the element alone.
#[verifier::external_body]
pub(crate) fn g1_write(e: &G1Elem) -> (b: Vec<u8>)
    requires
        in_field(e@),
    ensures
        b@ == g1_enc(e@),
        forall|i: int| 0 <= i < 48 ==> b@[i] == g1_byte(e@, i),
{
    let mut out: Vec<u8> = Vec::new();
    e.raw.raw.serialize_compressed(&mut out).unwrap();
    out
}

/// Relies on G1's CanonicalDeserialize with validation: the canonical
/// compressed encoding of a curve point decodes to that point; bytes
/// encoding no point of the prime-order subgroup are rejected.
#[verifier::external_body]
pub(crate) fn g1_read(b: &[u8]) -> (r: Result<G1Elem, Error>)
    ensures
        r is Ok ==> forall|v: int| in_field(v) && b@ == g1_enc(v) ==> (r->Ok_0)@ == v,
        r is Ok ==> in_field((r->Ok_0)@),
        r is Err ==> r->Err_0 == Error::MalformedKey,
        r is Err ==> forall|v: int| !(in_field(v) && b@ == g1_enc(v)),
{
    match ark_bls12_381::G1Projective::deserialize_compressed(b) {
        Ok(raw) => Result::Ok(G1Elem { raw: G1Repr { raw }, dlog: Ghost(0) }),
        Err(_) => Result::Err(Error::MalformedKey),
    }
}

/// Relies on G2's CanonicalSerialize: 96 bytes of compressed form,
/// determined by the element alone.
#[verifier::external_body]
pub(crate) fn g2_write(e: &G2Elem) -> (b: Vec<u8>)
    requires
        in_field(e@),
    ensures
        b@ == g2_enc(e@),
        forall|i: int| 0 <= i < 96 ==> b@[i] == g2_byte(e@, i),
{
    let mut out: Vec<u8> = Vec::new();
    e.raw.raw.serialize_compressed(&mut out).unwrap();
    out
}

/// Relies on G2's CanonicalDeserialize with validation: the canonical
/// compressed encoding of a curve point decodes to that point; bytes
/// encoding no point of the prime-order subgroup are rejected.
#[verifier::external_body]
pub(crate) fn g2_read(b: &[u8]) -> (r: Result<G2Elem, Error>)
    ensures
        r is Ok ==> forall|v: int| in_field(v) && b@ == g2_enc(v) ==> (r->Ok_0)@ == v,
        r is Ok ==> in_field((r->Ok_0)@),
        r is Err ==> r->Err_0 == Error::MalformedKey,
        r is Err ==> forall|v: int| !(in_field(v) && b@ == g2_enc(v)),
{
    match ark_bls12_381::G2Projective::deserialize_compressed(b) {
        Ok(raw) => Result::Ok(G2Elem { raw: G2Repr { raw }, dlog: Ghost(0) }),
        Err(_) => Result::Err(Error::MalformedKey),
    }
}

/// A uniform nonzero scalar: rejection-sampled, with the negligible-odds
/// fallback of `1` after a bounded number of zero draws.
pub fn fr_random_nonzero(rng: &mut Rng) -> (s: Scalar)
    ensures
        in_field(s@),
        s@ != 0,
{
    let mut tries: usize = 0;
    while tries < 128
        invariant
            true,
        decreases 128 - tries,
    {
        let s = fr_random(rng);
        if !fr_is_zero(&s) {
            return s;
        }
        tries = tries + 1;
    }
    fr_one()
}

/// A uniform non-identity element of `G1`, rejection-sampled with the
/// generator as negligible-odds fallback.
pub fn g1_random_nonzero(rng: &mut Rng) -> (e: G1Elem)
    ensures
        in_field(e@),
        e@ != 0,
{
    let mut tries: usize = 0;
    while tries < 128
        invariant
            true,
        decreases 128 - tries,
    {
        let e = g1_random(rng);
        if !g1_is_zero(&e) {
            return e;
        }
        tries = tries + 1;
    }
    g1_generator()
}

/// A uniform non-identity element of `G2`, rejection-sampled with the
/// generator as negligible-odds fallback.
pub fn g2_random_nonzero(rng: &mut Rng) -> (e: G2Elem)
    ensures
        in_field(e@),
        e@ != 0,
{
    let mut tries: usize = 0;
    while tries < 128
        invariant
            true,
        decreases 128 - tries,
    {
        let e = g2_random(rng);
        if !g2_is_zero(&e) {
            return e;
        }
        tries = tries + 1;
    }
    g2_generator()
}

/// The views of a sequence of `G1` elements.
pub open spec fn g1_views(s: Seq<G1Elem>) -> Seq<int> {
    s.map_values(|e: G1Elem| e@)
}

/// Every element of the sequence carries a canonical residue.
pub open spec fn g1_all_in_field(s: Seq<G1Elem>) -> bool {
    forall|i: int| 0 <= i < s.len() ==> in_field(#[trigger] s[i]@)
}

/// The views of a sequence of `G2` elements.
pub open spec fn g2_views(s: Seq<G2Elem>) -> Seq<int> {
    s.map_values(|e: G2Elem| e@)
}

/// Every element of the sequence carries a canonical residue.
pub open spec fn g2_all_in_field(s: Seq<G2Elem>) -> bool {
    forall|i: int| 0 <= i < s.len() ==> in_field(#[trigger] s[i]@)
}

/// The views of a sequence of scalars.
pub open spec fn scalar_views(s: Seq<Scalar>) -> Seq<int> {
    s.map_values(|x: Scalar| x@)
}

/// Every scalar of the sequence is a canonical residue.
pub open spec fn scalar_all_in_field(s: Seq<Scalar>) -> bool {
    forall|i: int| 0 <= i < s.len() ==> in_field(#[trigger] s[i]@)
}

} // verus!
