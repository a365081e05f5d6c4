//! Canonical byte encoding of every public type.
//!
//! Group elements use the curve library's compressed form (48 bytes in
//! `G1`, 96 in `G2`, 32 for a scalar); vectors carry a fixed-width
//! little-endian 64-bit length prefix. Decoding undoes encoding exactly:
//! each `from_bytes` states that on the encoding of any well-formed value
//! it returns that value.

use crate::algebra::in_field;
use crate::error::Error;
use crate::group::{
    fr_read, fr_write, g1_read, g1_write, g2_is_zero, g2_read, g2_write, scalar_all_in_field,
    scalar_views, g1_all_in_field, g1_views, g2_all_in_field, g2_views, G1Elem, G2Elem, Scalar,
};
use crate::params::{ParamsView, PublicParams};
use crate::public_key::PublicKey;
use crate::secret_key::SecretKey;
use crate::signature::{sig_view_wf, SigView, Signature};
use vstd::arithmetic::mul::lemma_mul_inequality;
use vstd::bytes::{
    lemma_auto_spec_u64_to_from_le_bytes, spec_u64_to_le_bytes, u64_from_le_bytes, u64_to_le_bytes,
};
use vstd::prelude::*;
use vstd::slice::slice_subrange;

verus! {

/// Byte `i` of the little-endian form of `v`.
pub open spec fn byte_of(v: int, i: int) -> u8 {
    ((v / vstd::arithmetic::power::pow(256, i as nat)) % 256) as u8
}

/// The 32-byte little-endian encoding of a scalar's canonical residue.
pub open spec fn fr_enc(v: int) -> Seq<u8> {
    Seq::new(32, |i: int| byte_of(v, i))
}

/// Byte `i` of the compressed encoding of the `G1` element of discrete
/// logarithm `d`; the encoding is a function of the element alone.
pub uninterp spec fn g1_byte(d: int, i: int) -> u8;

/// The 48-byte compressed encoding of a `G1` element.
pub open spec fn g1_enc(d: int) -> Seq<u8> {
    Seq::new(48, |i: int| g1_byte(d, i))
}

/// Byte `i` of the compressed encoding of the `G2` element of discrete
/// logarithm `d`; the encoding is a function of the element alone.
pub uninterp spec fn g2_byte(d: int, i: int) -> u8;

/// The 96-byte compressed encoding of a `G2` element.
pub open spec fn g2_enc(d: int) -> Seq<u8> {
    Seq::new(96, |i: int| g2_byte(d, i))
}

/// The encoding of a vector: the encodings of its elements, one after
/// the other.
pub open spec fn vec_enc<A>(v: Seq<A>, enc: spec_fn(A) -> Seq<u8>) -> Seq<u8>
    decreases v.len(),
{
    if v.len() == 0 {
        Seq::empty()
    } else {
        vec_enc(v.drop_last(), enc) + enc(v.last())
    }
}

/// The scalar encoder, as one shared function value.
pub open spec fn fr_encoder() -> spec_fn(int) -> Seq<u8> {
    |d: int| fr_enc(d)
}

/// The `G1` encoder, as one shared function value.
pub open spec fn g1_encoder() -> spec_fn(int) -> Seq<u8> {
    |d: int| g1_enc(d)
}

/// The `G2` encoder, as one shared function value.
pub open spec fn g2_encoder() -> spec_fn(int) -> Seq<u8> {
    |d: int| g2_enc(d)
}

/// The 192-byte encoding of a base signature: `z`, `y1`, `y2`.
pub open spec fn sig_enc(s: SigView) -> Seq<u8> {
    g1_enc(s.z) + g1_enc(s.y1) + g2_enc(s.y2)
}

/// The signature encoder, as one shared function value.
pub open spec fn sig_encoder() -> spec_fn(SigView) -> Seq<u8> {
    |s: SigView| sig_enc(s)
}

/// `PublicParams`: `p1` then `p2`, 144 bytes.
pub open spec fn params_enc(v: ParamsView) -> Seq<u8> {
    g1_enc(v.p1) + g2_enc(v.p2)
}

/// `SecretKey`: length prefix, then the scalars.
pub open spec fn sk_enc(v: Seq<int>) -> Seq<u8> {
    spec_u64_to_le_bytes(v.len() as u64) + vec_enc(v, fr_encoder())
}

/// `PublicKey`: length prefix, then the `G2` components.
pub open spec fn pk_enc(v: Seq<int>) -> Seq<u8> {
    spec_u64_to_le_bytes(v.len() as u64) + vec_enc(v, g2_encoder())
}

/// `VarMessage`: `g`, length prefix, then the `ui`.
pub open spec fn var_msg_enc(g: int, u: Seq<int>) -> Seq<u8> {
    g1_enc(g) + spec_u64_to_le_bytes(u.len() as u64) + vec_enc(u, g1_encoder())
}

/// `VarSignature`: `h`, length prefix, then the coordinate signatures.
pub open spec fn var_sig_enc(h: int, sigs: Seq<SigView>) -> Seq<u8> {
    g1_enc(h) + spec_u64_to_le_bytes(sigs.len() as u64) + vec_enc(sigs, sig_encoder())
}

/// Every entry is a canonical residue.
pub open spec fn residues(v: Seq<int>) -> bool {
    forall|i: int| 0 <= i < v.len() ==> in_field(#[trigger] v[i])
}

/// Every entry is a canonical residue and none is the identity.
pub open spec fn nonzero_residues(v: Seq<int>) -> bool {
    residues(v) && forall|i: int| 0 <= i < v.len() ==> #[trigger] v[i] != 0
}

/// Every signature view is well formed.
pub open spec fn sig_views_wf(v: Seq<SigView>) -> bool {
    forall|i: int| 0 <= i < v.len() ==> sig_view_wf(#[trigger] v[i])
}

proof fn lemma_concat_split(a: Seq<u8>, b: Seq<u8>)
    ensures
        (a + b).len() == a.len() + b.len(),
        (a + b).subrange(0, a.len() as int) == a,
        (a + b).subrange(a.len() as int, (a.len() + b.len()) as int) == b,
{
    assert((a + b).subrange(0, a.len() as int) =~= a);
    assert((a + b).subrange(a.len() as int, (a.len() + b.len()) as int) =~= b);
}

proof fn lemma_vec_enc_len<A>(v: Seq<A>, enc: spec_fn(A) -> Seq<u8>, w: int)
    requires
        forall|a: A| (#[trigger] enc(a)).len() == w,
    ensures
        vec_enc(v, enc).len() == w * v.len(),
    decreases v.len(),
{
    if v.len() == 0 {
        assert(w * 0 == 0) by (nonlinear_arith);
    } else {
        lemma_vec_enc_len(v.drop_last(), enc, w);
        assert(w * (v.len() - 1) + w == w * v.len()) by (nonlinear_arith);
    }
}

proof fn lemma_vec_enc_chunk<A>(v: Seq<A>, enc: spec_fn(A) -> Seq<u8>, w: int, k: int)
    requires
        forall|a: A| (#[trigger] enc(a)).len() == w,
        w >= 0,
        0 <= k < v.len(),
    ensures
        vec_enc(v, enc).subrange(w * k, w * k + w) == enc(v[k]),
    decreases v.len(),
{
    lemma_vec_enc_len(v, enc, w);
    lemma_vec_enc_len(v.drop_last(), enc, w);
    let n = v.len() as int;
    if k == n - 1 {
        assert(w * k + w == w * n) by (nonlinear_arith)
            requires
                k == n - 1,
        ;
        lemma_concat_split(vec_enc(v.drop_last(), enc), enc(v.last()));
        assert(vec_enc(v, enc).subrange(w * k, w * k + w) =~= enc(v.last()));
        assert(v.last() == v[k]);
    } else {
        lemma_vec_enc_chunk(v.drop_last(), enc, w, k);
        assert(w * k + w == w * (k + 1)) by (nonlinear_arith);
        lemma_mul_inequality(k + 1, n - 1, w);
        assert(w * (k + 1) <= w * (n - 1)) by (nonlinear_arith)
            requires
                k + 1 <= n - 1,
                w >= 0,
        ;
        assert(vec_enc(v, enc).subrange(w * k, w * k + w) =~= vec_enc(v.drop_last(), enc).subrange(
            w * k,
            w * k + w,
        ));
        assert(v.drop_last()[k] == v[k]);
    }
}

/// Extending a vector extends its encoding by the new element's bytes.
proof fn lemma_vec_enc_step<A>(v: Seq<A>, enc: spec_fn(A) -> Seq<u8>, k: int)
    requires
        0 <= k < v.len(),
    ensures
        vec_enc(v.take(k + 1), enc) == vec_enc(v.take(k), enc) + enc(v[k]),
{
    assert(v.take(k + 1).drop_last() =~= v.take(k));
    assert(v.take(k + 1).last() == v[k]);
    assert(v.take(k + 1).len() == k + 1);
}

// ------------------------------------------------------------------
// Writing and reading element vectors.
// ------------------------------------------------------------------
fn write_fr_vec(out: &mut Vec<u8>, v: &Vec<Scalar>)
    requires
        scalar_all_in_field(v@),
    ensures
        final(out)@ == old(out)@ + vec_enc(scalar_views(v@), fr_encoder()),
{
    let ghost views = scalar_views(v@);
    proof {
        assert(out@ + vec_enc(views.take(0), fr_encoder()) =~= out@);
    }
    let mut k: usize = 0;
    while k < v.len()
        invariant
            k <= v@.len(),
            scalar_all_in_field(v@),
            views == scalar_views(v@),
            out@ == old(out)@ + vec_enc(views.take(k as int), fr_encoder()),
        decreases v@.len() - k,
    {
        proof {
            assert(in_field(v@[k as int]@));
        }
        let mut b = fr_write(&v[k]);
        proof {
            lemma_vec_enc_step(views, fr_encoder(), k as int);
            assert(fr_encoder()(views[k as int]) == fr_enc(v@[k as int]@));
        }
        out.append(&mut b);
        k = k + 1;
    }
    proof {
        assert(views.take(views.len() as int) =~= views);
    }
}

fn write_g1_vec(out: &mut Vec<u8>, v: &Vec<G1Elem>)
    requires
        g1_all_in_field(v@),
    ensures
        final(out)@ == old(out)@ + vec_enc(g1_views(v@), g1_encoder()),
{
    let ghost views = g1_views(v@);
    proof {
        assert(out@ + vec_enc(views.take(0), g1_encoder()) =~= out@);
    }
    let mut k: usize = 0;
    while k < v.len()
        invariant
            k <= v@.len(),
            g1_all_in_field(v@),
            views == g1_views(v@),
            out@ == old(out)@ + vec_enc(views.take(k as int), g1_encoder()),
        decreases v@.len() - k,
    {
        proof {
            assert(in_field(v@[k as int]@));
        }
        let mut b = g1_write(&v[k]);
        proof {
            lemma_vec_enc_step(views, g1_encoder(), k as int);
            assert(g1_encoder()(views[k as int]) == g1_enc(v@[k as int]@));
        }
        out.append(&mut b);
        k = k + 1;
    }
    proof {
        assert(views.take(views.len() as int) =~= views);
    }
}

fn write_g2_vec(out: &mut Vec<u8>, v: &Vec<G2Elem>)
    requires
        g2_all_in_field(v@),
    ensures
        final(out)@ == old(out)@ + vec_enc(g2_views(v@), g2_encoder()),
{
    let ghost views = g2_views(v@);
    proof {
        assert(out@ + vec_enc(views.take(0), g2_encoder()) =~= out@);
    }
    let mut k: usize = 0;
    while k < v.len()
        invariant
            k <= v@.len(),
            g2_all_in_field(v@),
            views == g2_views(v@),
            out@ == old(out)@ + vec_enc(views.take(k as int), g2_encoder()),
        decreases v@.len() - k,
    {
        proof {
            assert(in_field(v@[k as int]@));
        }
        let mut b = g2_write(&v[k]);
        proof {
            lemma_vec_enc_step(views, g2_encoder(), k as int);
            assert(g2_encoder()(views[k as int]) == g2_enc(v@[k as int]@));
        }
        out.append(&mut b);
        k = k + 1;
    }
    proof {
        assert(views.take(views.len() as int) =~= views);
    }
}

/// Append the 192 bytes of one base signature.
fn write_sig(out: &mut Vec<u8>, s: &Signature)
    requires
        s.wf(),
    ensures
        final(out)@ == old(out)@ + sig_enc(s@),
{
    let mut b1 = g1_write(&s.z);
    let mut b2 = g1_write(&s.y1);
    let mut b3 = g2_write(&s.y2);
    out.append(&mut b1);
    out.append(&mut b2);
    out.append(&mut b3);
    proof {
        assert(out@ =~= old(out)@ + sig_enc(s@));
    }
}

fn write_sig_vec(out: &mut Vec<u8>, v: &Vec<Signature>)
    requires
        forall|i: int| 0 <= i < v@.len() ==> (#[trigger] v@[i]).wf(),
    ensures
        final(out)@ == old(out)@ + vec_enc(
            v@.map_values(|s: Signature| s@),
            sig_encoder(),
        ),
{
    let ghost views = v@.map_values(|s: Signature| s@);
    proof {
        assert(out@ + vec_enc(views.take(0), sig_encoder()) =~= out@);
    }
    let mut k: usize = 0;
    while k < v.len()
        invariant
            k <= v@.len(),
            forall|i: int| 0 <= i < v@.len() ==> (#[trigger] v@[i]).wf(),
            views == v@.map_values(|s: Signature| s@),
            out@ == old(out)@ + vec_enc(views.take(k as int), sig_encoder()),
        decreases v@.len() - k,
    {
        proof {
            assert(v@[k as int].wf());
        }
        write_sig(out, &v[k]);
        proof {
            lemma_vec_enc_step(views, sig_encoder(), k as int);
            assert(sig_encoder()(views[k as int]) == sig_enc(v@[k as int]@));
        }
        k = k + 1;
    }
    proof {
        assert(views.take(views.len() as int) =~= views);
    }
}

fn read_fr_vec(bytes: &[u8], n: usize) -> (r: Result<Vec<Scalar>, Error>)
    requires
        bytes@.len() == 32 * n,
    ensures
        r is Ok ==> (r->Ok_0)@.len() == n && scalar_all_in_field((r->Ok_0)@),
        forall|v: Seq<int>|
            residues(v) && v.len() == n && bytes@ == vec_enc(v, fr_encoder()) ==> r is Ok
                && scalar_views((r->Ok_0)@) == v,
{
    let total = bytes.len();
    let mut out: Vec<Scalar> = Vec::new();
    let mut k: usize = 0;
    while k < n
        invariant
            k <= n,
            bytes@.len() == 32 * n,
            bytes@.len() <= usize::MAX,
            out@.len() == k,
            scalar_all_in_field(out@),
            forall|j: int, d: int|
                #![trigger out@[j], fr_enc(d)]
                0 <= j < k && in_field(d) && bytes@.subrange(32 * j, 32 * j + 32) == fr_enc(d)
                    ==> out@[j]@ == d,
        decreases n - k,
    {
        proof {
            assert(32 * k + 32 <= 32 * n) by (nonlinear_arith)
                requires
                    k < n,
            ;
            assert(0 <= 32 * k) by (nonlinear_arith)
                requires
                    k >= 0,
            ;
        }
        let chunk = slice_subrange(bytes, 32 * k, 32 * k + 32);
        let e = fr_read(chunk);
        match e {
            Result::Ok(s) => {
                out.push(s);
            },
            Result::Err(_) => {
                proof {
                    assert forall|v: Seq<int>|
                        residues(v) && v.len() == n && bytes@ == vec_enc(
                            v,
                            fr_encoder(),
                        ) implies false by {
                        lemma_vec_enc_chunk(v, fr_encoder(), 32, k as int);
                        assert(in_field(v[k as int]));
                        assert(chunk@ == fr_enc(v[k as int]));
                    }
                }
                return Result::Err(Error::MalformedKey);
            },
        }
        k = k + 1;
    }
    proof {
        assert forall|v: Seq<int>|
            residues(v) && v.len() == n && bytes@ == vec_enc(v, fr_encoder()) implies
            scalar_views(out@) == v by {
            assert forall|j: int| 0 <= j < n implies scalar_views(out@)[j] == v[j] by {
                lemma_vec_enc_chunk(v, fr_encoder(), 32, j);
                assert(in_field(v[j]));
                assert(out@[j]@ == v[j]);
            }
            assert(scalar_views(out@) =~= v);
        }
    }
    Result::Ok(out)
}

fn read_g1_vec(bytes: &[u8], n: usize) -> (r: Result<Vec<G1Elem>, Error>)
    requires
        bytes@.len() == 48 * n,
    ensures
        r is Ok ==> (r->Ok_0)@.len() == n && g1_all_in_field((r->Ok_0)@),
        forall|v: Seq<int>|
            residues(v) && v.len() == n && bytes@ == vec_enc(v, g1_encoder()) ==> r is Ok
                && g1_views((r->Ok_0)@) == v,
{
    let total = bytes.len();
    let mut out: Vec<G1Elem> = Vec::new();
    let mut k: usize = 0;
    while k < n
        invariant
            k <= n,
            bytes@.len() == 48 * n,
            bytes@.len() <= usize::MAX,
            out@.len() == k,
            g1_all_in_field(out@),
            forall|j: int, d: int|
                #![trigger out@[j], g1_enc(d)]
                0 <= j < k && in_field(d) && bytes@.subrange(48 * j, 48 * j + 48) == g1_enc(d)
                    ==> out@[j]@ == d,
        decreases n - k,
    {
        proof {
            assert(48 * k + 48 <= 48 * n && 0 <= 48 * k) by (nonlinear_arith)
                requires
                    0 <= k < n,
            ;
        }
        let chunk = slice_subrange(bytes, 48 * k, 48 * k + 48);
        let e = g1_read(chunk);
        match e {
            Result::Ok(s) => {
                out.push(s);
            },
            Result::Err(_) => {
                proof {
                    assert forall|v: Seq<int>|
                        residues(v) && v.len() == n && bytes@ == vec_enc(
                            v,
                            g1_encoder(),
                        ) implies false by {
                        lemma_vec_enc_chunk(v, g1_encoder(), 48, k as int);
                        assert(in_field(v[k as int]));
                        assert(chunk@ == g1_enc(v[k as int]));
                    }
                }
                return Result::Err(Error::MalformedKey);
            },
        }
        k = k + 1;
    }
    proof {
        assert forall|v: Seq<int>|
            residues(v) && v.len() == n && bytes@ == vec_enc(v, g1_encoder()) implies g1_views(
            out@,
        ) == v by {
            assert forall|j: int| 0 <= j < n implies g1_views(out@)[j] == v[j] by {
                lemma_vec_enc_chunk(v, g1_encoder(), 48, j);
                assert(in_field(v[j]));
                assert(out@[j]@ == v[j]);
            }
            assert(g1_views(out@) =~= v);
        }
    }
    Result::Ok(out)
}

fn read_g2_vec(bytes: &[u8], n: usize) -> (r: Result<Vec<G2Elem>, Error>)
    requires
        bytes@.len() == 96 * n,
    ensures
        r is Ok ==> (r->Ok_0)@.len() == n && g2_all_in_field((r->Ok_0)@),
        forall|v: Seq<int>|
            residues(v) && v.len() == n && bytes@ == vec_enc(v, g2_encoder()) ==> r is Ok
                && g2_views((r->Ok_0)@) == v,
{
    let total = bytes.len();
    let mut out: Vec<G2Elem> = Vec::new();
    let mut k: usize = 0;
    while k < n
        invariant
            k <= n,
            bytes@.len() == 96 * n,
            bytes@.len() <= usize::MAX,
            out@.len() == k,
            g2_all_in_field(out@),
            forall|j: int, d: int|
                #![trigger out@[j], g2_enc(d)]
                0 <= j < k && in_field(d) && bytes@.subrange(96 * j, 96 * j + 96) == g2_enc(d)
                    ==> out@[j]@ == d,
        decreases n - k,
    {
        proof {
            assert(96 * k + 96 <= 96 * n && 0 <= 96 * k) by (nonlinear_arith)
                requires
                    0 <= k < n,
            ;
        }
        let chunk = slice_subrange(bytes, 96 * k, 96 * k + 96);
        let e = g2_read(chunk);
        match e {
            Result::Ok(s) => {
                out.push(s);
            },
            Result::Err(_) => {
                proof {
                    assert forall|v: Seq<int>|
                        residues(v) && v.len() == n && bytes@ == vec_enc(
                            v,
                            g2_encoder(),
                        ) implies false by {
                        lemma_vec_enc_chunk(v, g2_encoder(), 96, k as int);
                        assert(in_field(v[k as int]));
                        assert(chunk@ == g2_enc(v[k as int]));
                    }
                }
                return Result::Err(Error::MalformedKey);
            },
        }
        k = k + 1;
    }
    proof {
        assert forall|v: Seq<int>|
            residues(v) && v.len() == n && bytes@ == vec_enc(v, g2_encoder()) implies g2_views(
            out@,
        ) == v by {
            assert forall|j: int| 0 <= j < n implies g2_views(out@)[j] == v[j] by {
                lemma_vec_enc_chunk(v, g2_encoder(), 96, j);
                assert(in_field(v[j]));
                assert(out@[j]@ == v[j]);
            }
            assert(g2_views(out@) =~= v);
        }
    }
    Result::Ok(out)
}

/// Read one 192-byte base signature.
fn read_sig(bytes: &[u8]) -> (r: Result<Signature, Error>)
    requires
        bytes@.len() == 192,
    ensures
        r is Ok ==> (r->Ok_0).wf(),
        forall|s: SigView|
            sig_view_wf(s) && bytes@ == sig_enc(s) ==> r is Ok && (r->Ok_0)@ == s,
{
    let zb = slice_subrange(bytes, 0, 48);
    let y1b = slice_subrange(bytes, 48, 96);
    let y2b = slice_subrange(bytes, 96, 192);
    proof {
        assert forall|s: SigView| sig_view_wf(s) && bytes@ == sig_enc(s) implies {
            &&& zb@ == g1_enc(s.z)
            &&& y1b@ == g1_enc(s.y1)
            &&& y2b@ == g2_enc(s.y2)
        } by {
            assert(zb@ =~= g1_enc(s.z));
            assert(y1b@ =~= g1_enc(s.y1));
            assert(y2b@ =~= g2_enc(s.y2));
        }
    }
    let z = match g1_read(zb) {
        Result::Ok(e) => e,
        Result::Err(e) => {
            return Result::Err(e);
        },
    };
    let y1 = match g1_read(y1b) {
        Result::Ok(e) => e,
        Result::Err(e) => {
            return Result::Err(e);
        },
    };
    let y2 = match g2_read(y2b) {
        Result::Ok(e) => e,
        Result::Err(e) => {
            return Result::Err(e);
        },
    };
    Result::Ok(Signature { z, y1, y2 })
}

fn read_sig_vec(bytes: &[u8], n: usize) -> (r: Result<Vec<Signature>, Error>)
    requires
        bytes@.len() == 192 * n,
    ensures
        r is Ok ==> (r->Ok_0)@.len() == n && forall|i: int|
            0 <= i < n ==> (#[trigger] (r->Ok_0)@[i]).wf(),
        forall|v: Seq<SigView>|
            sig_views_wf(v) && v.len() == n && bytes@ == vec_enc(v, sig_encoder()) ==> r is Ok
                && (r->Ok_0)@.map_values(|s: Signature| s@) == v,
{
    let total = bytes.len();
    let mut out: Vec<Signature> = Vec::new();
    let mut k: usize = 0;
    while k < n
        invariant
            k <= n,
            bytes@.len() == 192 * n,
            bytes@.len() <= usize::MAX,
            out@.len() == k,
            forall|i: int| 0 <= i < k ==> (#[trigger] out@[i]).wf(),
            forall|j: int, s: SigView|
                #![trigger out@[j], sig_enc(s)]
                0 <= j < k && sig_view_wf(s) && bytes@.subrange(192 * j, 192 * j + 192) == sig_enc(
                    s,
                ) ==> out@[j]@ == s,
        decreases n - k,
    {
        proof {
            assert(192 * k + 192 <= 192 * n && 0 <= 192 * k) by (nonlinear_arith)
                requires
                    0 <= k < n,
            ;
        }
        let chunk = slice_subrange(bytes, 192 * k, 192 * k + 192);
        let e = read_sig(chunk);
        match e {
            Result::Ok(s) => {
                out.push(s);
            },
            Result::Err(_) => {
                proof {
                    assert forall|v: Seq<SigView>|
                        sig_views_wf(v) && v.len() == n && bytes@ == vec_enc(
                            v,
                            sig_encoder(),
                        ) implies false by {
                        lemma_sig_enc_len(v[k as int]);
                        lemma_vec_enc_chunk(v, sig_encoder(), 192, k as int);
                        assert(sig_view_wf(v[k as int]));
                        assert(chunk@ == sig_enc(v[k as int]));
                    }
                }
                return Result::Err(Error::MalformedKey);
            },
        }
        k = k + 1;
    }
    proof {
        assert forall|v: Seq<SigView>|
            sig_views_wf(v) && v.len() == n && bytes@ == vec_enc(v, sig_encoder()) implies out@
            .map_values(|s: Signature| s@) == v by {
            assert forall|j: int| 0 <= j < n implies out@.map_values(|s: Signature| s@)[j]
                == v[j] by {
                lemma_sig_enc_len(v[j]);
                lemma_vec_enc_chunk(v, sig_encoder(), 192, j);
                assert(sig_view_wf(v[j]));
                assert(out@[j]@ == v[j]);
            }
            assert(out@.map_values(|s: Signature| s@) =~= v);
        }
    }
    Result::Ok(out)
}

proof fn lemma_sig_enc_len(s: SigView)
    ensures
        sig_enc(s).len() == 192,
        sig_encoder()(s).len() == 192,
{
}

/// Every signature block has 192 bytes.
proof fn lemma_sig_encoder_width()
    ensures
        forall|s: SigView| (#[trigger] sig_encoder()(s)).len() == 192,
{
    assert forall|s: SigView| (#[trigger] sig_encoder()(s)).len() == 192 by {
        lemma_sig_enc_len(s);
    }
}

proof fn lemma_fr_encoder_width()
    ensures
        forall|d: int| (#[trigger] fr_encoder()(d)).len() == 32,
{
}

proof fn lemma_g1_encoder_width()
    ensures
        forall|d: int| (#[trigger] g1_encoder()(d)).len() == 48,
{
}

proof fn lemma_g2_encoder_width()
    ensures
        forall|d: int| (#[trigger] g2_encoder()(d)).len() == 96,
{
}

// ------------------------------------------------------------------
// Public encoding of each type.
// ------------------------------------------------------------------
impl PublicParams {
    /// Encode as `p1 || p2`, 144 bytes of compressed form.
    pub fn to_bytes(&self) -> (b: Vec<u8>)
        requires
            self.wf(),
        ensures
            b@ == params_enc(self@),
    {
        let mut out = g1_write(&self.p1);
        let mut b2 = g2_write(&self.p2);
        out.append(&mut b2);
        out
    }

    /// Decode parameters; both generators must decode and be
    /// non-identity.
    pub fn from_bytes(bytes: &[u8]) -> (r: Result<PublicParams, Error>)
        ensures
            r is Ok ==> (r->Ok_0).wf(),
            forall|v: ParamsView|
                #![trigger params_enc(v)]
                in_field(v.p1) && v.p1 != 0 && in_field(v.p2) && v.p2 != 0 && bytes@ == params_enc(
                    v,
                ) ==> r is Ok && (r->Ok_0)@ == v,
    {
        let total = bytes.len();
        if total != 144 {
            return Result::Err(Error::MalformedKey);
        }
        let p1b = slice_subrange(bytes, 0, 48);
        let p2b = slice_subrange(bytes, 48, 144);
        proof {
            assert forall|v: ParamsView| bytes@ == params_enc(v) implies p1b@ == g1_enc(v.p1)
                && p2b@ == g2_enc(v.p2) by {
                assert(p1b@ =~= g1_enc(v.p1));
                assert(p2b@ =~= g2_enc(v.p2));
            }
        }
        let p1 = match g1_read(p1b) {
            Result::Ok(e) => e,
            Result::Err(e) => {
                return Result::Err(e);
            },
        };
        let p2 = match g2_read(p2b) {
            Result::Ok(e) => e,
            Result::Err(e) => {
                return Result::Err(e);
            },
        };
        if crate::group::g1_is_zero(&p1) {
            return Result::Err(Error::MalformedKey);
        }
        if crate::group::g2_is_zero(&p2) {
            return Result::Err(Error::MalformedKey);
        }
        Result::Ok(PublicParams { p1, p2 })
    }
}

impl Signature {
    /// Encode as `z || y1 || y2`, 192 bytes of compressed form.
    pub fn to_bytes(&self) -> (b: Vec<u8>)
        requires
            self.wf(),
        ensures
            b@ == sig_enc(self@),
    {
        let mut out: Vec<u8> = Vec::new();
        write_sig(&mut out, self);
        proof {
            assert(out@ =~= sig_enc(self@));
        }
        out
    }

    /// Decode a signature; all three elements must decode.
    pub fn from_bytes(bytes: &[u8]) -> (r: Result<Signature, Error>)
        ensures
            r is Ok ==> (r->Ok_0).wf(),
            forall|s: SigView|
                #![trigger sig_enc(s)]
                sig_view_wf(s) && bytes@ == sig_enc(s) ==> r is Ok && (r->Ok_0)@ == s,
    {
        let total = bytes.len();
        if total != 192 {
            return Result::Err(Error::MalformedKey);
        }
        read_sig(bytes)
    }
}

impl SecretKey {
    /// Encode as a little-endian 64-bit length followed by the scalars.
    pub fn to_bytes(&self) -> (b: Vec<u8>)
        requires
            self.wf(),
        ensures
            b@ == sk_enc(self@),
    {
        let n = self.length();
        let mut out = u64_to_le_bytes(n as u64);
        let x = self.parts();
        proof {
            assert forall|i: int| 0 <= i < x@.len() implies in_field(#[trigger] x@[i]@) by {
                assert(x@[i]@ == self@[i]);
            }
        }
        write_fr_vec(&mut out, x);
        out
    }

    /// Decode a secret key; the byte length must match the prefix and
    /// every scalar must decode canonically.
    pub fn from_bytes(bytes: &[u8]) -> (r: Result<SecretKey, Error>)
        ensures
            r is Ok ==> (r->Ok_0).wf(),
            forall|v: Seq<int>|
                #![trigger sk_enc(v)]
                residues(v) && bytes@ == sk_enc(v) ==> r is Ok && (r->Ok_0)@ == v,
    {
        let total = bytes.len();
        proof {
            lemma_auto_spec_u64_to_from_le_bytes();
            assert forall|v: Seq<int>| bytes@ == sk_enc(v) implies bytes@.len() == 8 + 32 * v.len()
                && v.len() < 0x1_0000_0000_0000_0000 by {
                lemma_vec_enc_len(v, fr_encoder(), 32);
            }
        }
        if total < 8 {
            return Result::Err(Error::MalformedKey);
        }
        let nb = slice_subrange(bytes, 0, 8);
        let n64 = u64_from_le_bytes(nb);
        proof {
            assert forall|v: Seq<int>| bytes@ == sk_enc(v) implies n64 == v.len() by {
                assert(nb@ =~= spec_u64_to_le_bytes(v.len() as u64));
            }
        }
        if n64 > (usize::MAX as u64) {
            return Result::Err(Error::MalformedKey);
        }
        let n = n64 as usize;
        if n > (usize::MAX - 8) / 32 {
            proof {
                assert forall|v: Seq<int>| bytes@ == sk_enc(v) implies false by {
                    assert(total == 8 + 32 * v.len());
                    assert(32 * n <= total - 8);
                    assert(n <= (usize::MAX - 8) / 32) by (nonlinear_arith)
                        requires
                            32 * n <= usize::MAX - 8,
                            n >= 0,
                    ;
                }
            }
            return Result::Err(Error::MalformedKey);
        }
        if total != 8 + 32 * n {
            return Result::Err(Error::MalformedKey);
        }
        let body = slice_subrange(bytes, 8, total);
        proof {
            assert forall|v: Seq<int>| bytes@ == sk_enc(v) implies body@ == vec_enc(
                v,
                fr_encoder(),
            ) by {
                lemma_vec_enc_len(v, fr_encoder(), 32);
                assert(body@ =~= vec_enc(v, fr_encoder()));
            }
        }
        match read_fr_vec(body, n) {
            Result::Ok(x) => {
                let ghost xs = x@;
                let key = SecretKey::from_parts(x);
                proof {
                    assert forall|v: Seq<int>|
                        residues(v) && bytes@ == sk_enc(v) implies key@ == v by {
                        assert(scalar_views(xs) == v);
                    }
                }
                Result::Ok(key)
            },
            Result::Err(e) => Result::Err(e),
        }
    }
}

impl PublicKey {
    /// Encode as a little-endian 64-bit length followed by the `G2`
    /// components.
    pub fn to_bytes(&self) -> (b: Vec<u8>)
        requires
            self.wf(),
        ensures
            b@ == pk_enc(self@),
    {
        let n = self.length();
        let mut out = u64_to_le_bytes(n as u64);
        let bx = self.parts();
        proof {
            assert forall|i: int| 0 <= i < bx@.len() implies in_field(#[trigger] bx@[i]@) by {
                assert(bx@[i]@ == self@[i]);
            }
        }
        write_g2_vec(&mut out, bx);
        out
    }

    /// Decode a public key; the byte length must match the prefix, every
    /// component must decode to a point of the prime-order subgroup, and
    /// a key holding the identity element is malformed.
    pub fn from_bytes(bytes: &[u8]) -> (r: Result<PublicKey, Error>)
        ensures
            r is Ok ==> (r->Ok_0).wf() && forall|i: int|
                0 <= i < (r->Ok_0)@.len() ==> (r->Ok_0)@[i] != 0,
            forall|v: Seq<int>|
                #![trigger pk_enc(v)]
                nonzero_residues(v) && bytes@ == pk_enc(v) ==> r is Ok && (r->Ok_0)@ == v,
    {
        let total = bytes.len();
        proof {
            lemma_auto_spec_u64_to_from_le_bytes();
            lemma_g2_encoder_width();
            assert forall|v: Seq<int>| bytes@ == pk_enc(v) implies bytes@.len() == 8 + 96 * v.len()
                && v.len() < 0x1_0000_0000_0000_0000 by {
                lemma_vec_enc_len(v, g2_encoder(), 96);
            }
        }
        if total < 8 {
            return Result::Err(Error::MalformedKey);
        }
        let nb = slice_subrange(bytes, 0, 8);
        let n64 = u64_from_le_bytes(nb);
        proof {
            assert forall|v: Seq<int>| bytes@ == pk_enc(v) implies n64 == v.len() by {
                assert(nb@ =~= spec_u64_to_le_bytes(v.len() as u64));
            }
        }
        if n64 > (usize::MAX as u64) {
            return Result::Err(Error::MalformedKey);
        }
        let n = n64 as usize;
        if n > (usize::MAX - 8) / 96 {
            proof {
                assert forall|v: Seq<int>| bytes@ == pk_enc(v) implies false by {
                    assert(total == 8 + 96 * v.len());
                    assert(n <= (usize::MAX - 8) / 96) by (nonlinear_arith)
                        requires
                            96 * n <= usize::MAX - 8,
                            n >= 0,
                    ;
                }
            }
            return Result::Err(Error::MalformedKey);
        }
        if total != 8 + 96 * n {
            return Result::Err(Error::MalformedKey);
        }
        let body = slice_subrange(bytes, 8, total);
        proof {
            assert forall|v: Seq<int>| bytes@ == pk_enc(v) implies body@ == vec_enc(
                v,
                g2_encoder(),
            ) by {
                lemma_vec_enc_len(v, g2_encoder(), 96);
                assert(body@ =~= vec_enc(v, g2_encoder()));
            }
        }
        let bx = match read_g2_vec(body, n) {
            Result::Ok(bx) => bx,
            Result::Err(e) => {
                return Result::Err(e);
            },
        };
        let ghost bxs = bx@;
        let mut k: usize = 0;
        while k < bx.len()
            invariant
                k <= bx@.len(),
                bx@ == bxs,
                bxs.len() == n,
                g2_all_in_field(bxs),
                forall|v: Seq<int>|
                    #![trigger pk_enc(v)]
                    nonzero_residues(v) && bytes@ == pk_enc(v) ==> g2_views(bxs) == v,
                forall|j: int| 0 <= j < k ==> #[trigger] bxs[j]@ != 0,
            decreases bx@.len() - k,
        {
            proof {
                assert(in_field(bxs[k as int]@));
            }
            if crate::group::g2_is_zero(&bx[k]) {
                proof {
                    assert forall|v: Seq<int>|
                        nonzero_residues(v) && bytes@ == pk_enc(v) implies false by {
                        assert(g2_views(bxs)[k as int] == v[k as int]);
                        assert(v[k as int] != 0);
                    }
                }
                return Result::Err(Error::MalformedKey);
            }
            k = k + 1;
        }
        let key = PublicKey::from_parts(bx);
        proof {
            assert forall|v: Seq<int>|
                nonzero_residues(v) && bytes@ == pk_enc(v) implies key@ == v by {
                assert(g2_views(bxs) == v);
            }
            assert forall|i: int| 0 <= i < key@.len() implies key@[i] != 0 by {
                assert(key@[i] == bxs[i]@);
            }
            assert forall|i: int| 0 <= i < key@.len() implies in_field(#[trigger] key@[i]) by {
                assert(key@[i] == bxs[i]@);
            }
        }
        Result::Ok(key)
    }
}

impl crate::extension::representation::VarMessage {
    /// Encode as `g`, a little-endian 64-bit length, then the `ui`.
    pub fn to_bytes(&self) -> (b: Vec<u8>)
        requires
            self.wf(),
        ensures
            b@ == var_msg_enc(self@.g, self@.u),
    {
        let mut out = g1_write(&self.g);
        let mut nb = u64_to_le_bytes(self.u.len() as u64);
        out.append(&mut nb);
        proof {
            assert forall|i: int| 0 <= i < self.u@.len() implies in_field(
                #[trigger] self.u@[i]@,
            ) by {
                assert(self.u@[i]@ == self@.u[i]);
            }
        }
        write_g1_vec(&mut out, &self.u);
        proof {
            assert(out@ =~= var_msg_enc(self@.g, self@.u));
        }
        out
    }

    /// Decode a variable-length message.
    pub fn from_bytes(bytes: &[u8]) -> (r: Result<
        crate::extension::representation::VarMessage,
        Error,
    >)
        ensures
            r is Ok ==> (r->Ok_0).wf(),
            forall|g: int, u: Seq<int>|
                #![trigger var_msg_enc(g, u)]
                in_field(g) && residues(u) && bytes@ == var_msg_enc(g, u) ==> r is Ok
                    && (r->Ok_0)@.g == g && (r->Ok_0)@.u == u,
    {
        let total = bytes.len();
        proof {
            lemma_auto_spec_u64_to_from_le_bytes();
            lemma_g1_encoder_width();
            assert forall|g: int, u: Seq<int>| bytes@ == var_msg_enc(g, u) implies bytes@.len()
                == 56 + 48 * u.len() && u.len() < 0x1_0000_0000_0000_0000 by {
                lemma_vec_enc_len(u, g1_encoder(), 48);
            }
        }
        if total < 56 {
            return Result::Err(Error::MalformedKey);
        }
        let gb = slice_subrange(bytes, 0, 48);
        let nb = slice_subrange(bytes, 48, 56);
        let n64 = u64_from_le_bytes(nb);
        proof {
            assert forall|g: int, u: Seq<int>| bytes@ == var_msg_enc(g, u) implies n64 == u.len()
                && gb@ == g1_enc(g) by {
                assert(nb@ =~= spec_u64_to_le_bytes(u.len() as u64));
                assert(gb@ =~= g1_enc(g));
            }
        }
        let g = match g1_read(gb) {
            Result::Ok(e) => e,
            Result::Err(e) => {
                return Result::Err(e);
            },
        };
        if n64 > (usize::MAX as u64) {
            return Result::Err(Error::MalformedKey);
        }
        let n = n64 as usize;
        if n > (usize::MAX - 56) / 48 {
            proof {
                assert forall|gd: int, u: Seq<int>| bytes@ == var_msg_enc(gd, u) implies false by {
                    assert(total == 56 + 48 * u.len());
                    assert(n <= (usize::MAX - 56) / 48) by (nonlinear_arith)
                        requires
                            48 * n <= usize::MAX - 56,
                            n >= 0,
                    ;
                }
            }
            return Result::Err(Error::MalformedKey);
        }
        if total != 56 + 48 * n {
            return Result::Err(Error::MalformedKey);
        }
        let body = slice_subrange(bytes, 56, total);
        proof {
            assert forall|gd: int, u: Seq<int>| bytes@ == var_msg_enc(gd, u) implies body@
                == vec_enc(u, g1_encoder()) by {
                lemma_vec_enc_len(u, g1_encoder(), 48);
                assert(body@ =~= vec_enc(u, g1_encoder()));
            }
        }
        match read_g1_vec(body, n) {
            Result::Ok(u) => {
                let ghost us = u@;
                let msg = crate::extension::representation::VarMessage { g, u };
                proof {
                    assert forall|gd: int, uv: Seq<int>|
                        in_field(gd) && residues(uv) && bytes@ == var_msg_enc(gd, uv) implies msg@.g
                        == gd && msg@.u == uv by {
                        assert(g1_views(us) == uv);
                    }
                }
                Result::Ok(msg)
            },
            Result::Err(e) => Result::Err(e),
        }
    }
}

impl crate::extension::signature::VarSignature {
    /// Encode as `h`, a little-endian 64-bit length, then the coordinate
    /// signatures.
    pub fn to_bytes(&self) -> (b: Vec<u8>)
        requires
            self.wf(),
        ensures
            b@ == var_sig_enc(self@.h, self@.sigs),
    {
        let mut out = g1_write(&self.h);
        let mut nb = u64_to_le_bytes(self.sigs.len() as u64);
        out.append(&mut nb);
        proof {
            assert forall|i: int| 0 <= i < self.sigs@.len() implies (
            #[trigger] self.sigs@[i]).wf() by {
                assert(self@.sigs[i] == self.sigs@[i]@);
            }
        }
        write_sig_vec(&mut out, &self.sigs);
        proof {
            assert(out@ =~= var_sig_enc(self@.h, self@.sigs));
        }
        out
    }

    /// Decode a variable-length signature.
    pub fn from_bytes(bytes: &[u8]) -> (r: Result<
        crate::extension::signature::VarSignature,
        Error,
    >)
        ensures
            r is Ok ==> (r->Ok_0).wf(),
            forall|h: int, sigs: Seq<SigView>|
                #![trigger var_sig_enc(h, sigs)]
                in_field(h) && sig_views_wf(sigs) && bytes@ == var_sig_enc(h, sigs) ==> r is Ok
                    && (r->Ok_0)@.h == h && (r->Ok_0)@.sigs == sigs,
    {
        let total = bytes.len();
        proof {
            lemma_auto_spec_u64_to_from_le_bytes();
            lemma_sig_encoder_width();
            assert forall|h: int, sigs: Seq<SigView>| bytes@ == var_sig_enc(h, sigs) implies bytes@
                .len() == 56 + 192 * sigs.len() && sigs.len() < 0x1_0000_0000_0000_0000 by {
                lemma_vec_enc_len(sigs, sig_encoder(), 192);
            }
        }
        if total < 56 {
            return Result::Err(Error::MalformedKey);
        }
        let hb = slice_subrange(bytes, 0, 48);
        let nb = slice_subrange(bytes, 48, 56);
        let n64 = u64_from_le_bytes(nb);
        proof {
            assert forall|h: int, sigs: Seq<SigView>| bytes@ == var_sig_enc(h, sigs) implies n64
                == sigs.len() && hb@ == g1_enc(h) by {
                assert(nb@ =~= spec_u64_to_le_bytes(sigs.len() as u64));
                assert(hb@ =~= g1_enc(h));
            }
        }
        let h = match g1_read(hb) {
            Result::Ok(e) => e,
            Result::Err(e) => {
                return Result::Err(e);
            },
        };
        if n64 > (usize::MAX as u64) {
            return Result::Err(Error::MalformedKey);
        }
        let n = n64 as usize;
        if n > (usize::MAX - 56) / 192 {
            proof {
                assert forall|hd: int, sigs: Seq<SigView>|
                    bytes@ == var_sig_enc(hd, sigs) implies false by {
                    assert(total == 56 + 192 * sigs.len());
                    assert(n <= (usize::MAX - 56) / 192) by (nonlinear_arith)
                        requires
                            192 * n <= usize::MAX - 56,
                            n >= 0,
                    ;
                }
            }
            return Result::Err(Error::MalformedKey);
        }
        if total != 56 + 192 * n {
            return Result::Err(Error::MalformedKey);
        }
        let body = slice_subrange(bytes, 56, total);
        proof {
            assert forall|hd: int, sigs: Seq<SigView>| bytes@ == var_sig_enc(hd, sigs) implies body@
                == vec_enc(sigs, sig_encoder()) by {
                lemma_vec_enc_len(sigs, sig_encoder(), 192);
                assert(body@ =~= vec_enc(sigs, sig_encoder()));
            }
        }
        match read_sig_vec(body, n) {
            Result::Ok(sigs) => {
                let ghost ss = sigs@;
                let vs = crate::extension::signature::VarSignature { h, sigs };
                proof {
                    assert forall|hd: int, sv: Seq<SigView>|
                        in_field(hd) && sig_views_wf(sv) && bytes@ == var_sig_enc(
                            hd,
                            sv,
                        ) implies vs@.h == hd && vs@.sigs == sv by {
                        assert(ss.map_values(|s: Signature| s@) == sv);
                    }
                    assert forall|i: int| 0 <= i < vs@.sigs.len() implies sig_view_wf(
                        #[trigger] vs@.sigs[i],
                    ) by {
                        assert(vs@.sigs[i] == ss[i]@);
                        assert(ss[i].wf());
                    }
                }
                Result::Ok(vs)
            },
            Result::Err(e) => Result::Err(e),
        }
    }
}

} // verus!
