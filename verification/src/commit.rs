//! Setup and commitment. A polynomial is cut into chunks of 64 coefficients, which fill a matrix
//! of ring elements column by column; each column is decomposed and committed to, and so are the
//! column commitments.
use vstd::prelude::*;

use crate::error::GreyhoundError;
use crate::layout::{pack_scalars, packed, regroup, regroup_digits, transpose, transposed};
use crate::linalg::{device_ntt_matmul, mat_mul_transposed, mat_vec, matmul_transposed};
use crate::params::{greyhound_params, greyhound_transcript_params, GreyhoundTranscriptParams};
use crate::poly::{rqs, zqs, PolyRing};
use crate::rq::{rq_dot, Rq, DEGREE};
use crate::zq::Zq;

verus! {

/// The commitment matrices, flat and row-major.
#[allow(non_snake_case)]
pub struct PublicParams {
    /// Matrix for the columns.
    pub A: Vec<PolyRing>,
    /// Matrix for the column commitments.
    pub B: Vec<PolyRing>,
    /// Matrix for the inner products.
    pub D: Vec<PolyRing>,
}

/// A commitment with its opening.
pub struct CommitReturn {
    /// The commitment.
    pub u: Vec<PolyRing>,
    /// The decomposed columns.
    pub s: Vec<PolyRing>,
    /// The decomposed column commitments.
    pub t_hat_concat: Vec<PolyRing>,
}

/// A commitment whose column commitments are still to be decomposed.
pub struct CommitColumns {
    /// The decomposed columns.
    pub s: Vec<PolyRing>,
    /// The column commitments.
    pub t: Vec<PolyRing>,
}

/// A number of scalars that are to be sampled with a seed.
pub struct SampleRequest {
    /// How many ring elements' coefficients.
    pub elements: usize,
    /// The seed.
    pub seed: [u8; 32],
}

impl PublicParams {
    /// The matrices have `nrows` rows and the widths that the parameters ask for.
    pub open spec fn shaped(self, p: GreyhoundTranscriptParams) -> bool {
        &&& self.A@.len() == p.nrows * p.a_width()
        &&& self.B@.len() == p.nrows * p.b_width()
        &&& self.D@.len() == p.nrows * p.d_width()
    }
}

impl GreyhoundTranscriptParams {
    /// The width of `A`.
    pub fn a_cols(&self) -> (r: usize)
        requires
            self.supported(),
        ensures
            r == self.a_width(),
            r == self.delta0 * self.m,
            r > 0,
    {
        proof {
            self.lemma_widths();
        }
        self.delta0 as usize * self.m as usize
    }

    /// The length of one column's decomposed commitment.
    pub fn t_cols(&self) -> (r: usize)
        requires
            self.supported(),
        ensures
            r == self.t_width(),
            r == self.nrows * self.delta,
            r > 0,
    {
        proof {
            self.lemma_widths();
        }
        self.nrows as usize * self.delta as usize
    }

    /// The width of `B`.
    pub fn b_cols(&self) -> (r: usize)
        requires
            self.supported(),
        ensures
            r == self.b_width(),
            r == self.nrows * self.delta * self.r,
            r > 0,
    {
        proof {
            self.lemma_widths();
        }
        self.t_cols() * self.r as usize
    }

    /// The width of `D`.
    pub fn d_cols(&self) -> (r: usize)
        requires
            self.supported(),
        ensures
            r == self.d_width(),
            r == self.delta * self.r,
            r > 0,
    {
        proof {
            self.lemma_widths();
        }
        self.delta as usize * self.r as usize
    }

    /// The widths are positive and no longer than what is known to be counted.
    pub proof fn lemma_widths(self)
        requires
            self.supported(),
        ensures
            0 < self.a_width() <= self.nrows * self.a_width(),
            0 < self.t_width() <= self.b_width(),
            0 < self.b_width() <= self.nrows * self.b_width(),
            0 < self.d_width() <= self.nrows * self.d_width(),
            0 < self.cells(),
            self.r * self.nrows <= self.b_width(),
    {
        lemma_scaled(self.delta0 as int, self.m as int);
        lemma_scaled(self.nrows as int, self.a_width());
        lemma_scaled(self.nrows as int, self.delta as int);
        lemma_scaled(self.t_width(), self.r as int);
        lemma_scaled(self.nrows as int, self.b_width());
        lemma_scaled(self.delta as int, self.r as int);
        lemma_scaled(self.nrows as int, self.d_width());
        lemma_scaled(self.m as int, self.r as int);
        assert(self.r * self.nrows <= self.nrows * self.delta * self.r) by (nonlinear_arith)
            requires
                0 < self.r,
                0 < self.nrows,
                0 < self.delta,
        ;
    }
}

proof fn lemma_scaled(a: int, b: int)
    requires
        0 < a,
        0 < b,
    ensures
        0 < a * b,
        a <= a * b,
        b <= a * b,
{
    assert(0 < a * b && a <= a * b && b <= a * b) by (nonlinear_arith)
        requires
            0 < a,
            0 < b,
    ;
}

/// What `setup` needs: the coefficients of the matrices `A`, `B` and `D`, each sampled with a
/// seed of its own.
pub fn setup_requests_with_params(p: &GreyhoundTranscriptParams) -> (r: (
    SampleRequest,
    SampleRequest,
    SampleRequest,
))
    requires
        p.supported(),
    ensures
        r.0.elements == p.nrows * p.a_width(),
        r.1.elements == p.nrows * p.b_width(),
        r.2.elements == p.nrows * p.d_width(),
        r.0.elements == p.nrows * (p.delta0 * p.m),
        r.1.elements == p.nrows * (p.nrows * p.delta * p.r),
        r.2.elements == p.nrows * (p.delta * p.r),
        r.0.seed@ == Seq::new(32, |k: int| 0xA1u8),
        r.1.seed@ == Seq::new(32, |k: int| 0xB2u8),
        r.2.seed@ == Seq::new(32, |k: int| 0xD3u8),
{
    let nrows: usize = p.nrows as usize;
    let r = (
        SampleRequest { elements: nrows * p.a_cols(), seed: [0xA1u8; 32] },
        SampleRequest { elements: nrows * p.b_cols(), seed: [0xB2u8; 32] },
        SampleRequest { elements: nrows * p.d_cols(), seed: [0xD3u8; 32] },
    );
    assert(r.0.seed@ =~= Seq::new(32, |k: int| 0xA1u8));
    assert(r.1.seed@ =~= Seq::new(32, |k: int| 0xB2u8));
    assert(r.2.seed@ =~= Seq::new(32, |k: int| 0xD3u8));
    r
}

/// What `setup` needs for the parameters of the scheme.
pub fn setup_requests() -> (r: (SampleRequest, SampleRequest, SampleRequest))
    ensures
        r.0.elements == greyhound_params().nrows * greyhound_params().a_width(),
        r.1.elements == greyhound_params().nrows * greyhound_params().b_width(),
        r.2.elements == greyhound_params().nrows * greyhound_params().d_width(),
        r.0.seed@ == Seq::new(32, |k: int| 0xA1u8),
        r.1.seed@ == Seq::new(32, |k: int| 0xB2u8),
        r.2.seed@ == Seq::new(32, |k: int| 0xD3u8),
{
    setup_requests_with_params(&greyhound_transcript_params())
}

/// The coefficients are those of `elements` ring elements.
pub open spec fn coefficients_of(scalars: int, elements: int) -> bool {
    scalars == 64 * elements
}

/// The matrices with the sampled coefficients, which are refused if their numbers are wrong.
pub fn setup_with_params(
    p: &GreyhoundTranscriptParams,
    a_coeffs: &[Zq],
    b_coeffs: &[Zq],
    d_coeffs: &[Zq],
) -> (r: Result<PublicParams, GreyhoundError>)
    requires
        p.supported(),
    ensures
        r is Ok == (coefficients_of(a_coeffs@.len() as int, p.nrows * p.a_width())
            && coefficients_of(b_coeffs@.len() as int, p.nrows * p.b_width()) && coefficients_of(
            d_coeffs@.len() as int,
            p.nrows * p.d_width(),
        )),
        r is Ok == (a_coeffs@.len() == 64 * (p.nrows * (p.delta0 * p.m)) && b_coeffs@.len() == 64
            * (p.nrows * (p.nrows * p.delta * p.r)) && d_coeffs@.len() == 64 * (p.nrows * (p.delta
            * p.r))),
        r matches Err(e) ==> e == GreyhoundError::InvalidDimensions,
        r matches Ok(pp) ==> {
            &&& pp.shaped(*p)
            &&& pp.A@.len() == p.nrows * (p.delta0 * p.m)
            &&& pp.B@.len() == p.nrows * (p.nrows * p.delta * p.r)
            &&& pp.D@.len() == p.nrows * (p.delta * p.r)
            &&& rqs(pp.A@) == packed(zqs(a_coeffs@))
            &&& rqs(pp.B@) == packed(zqs(b_coeffs@))
            &&& rqs(pp.D@) == packed(zqs(d_coeffs@))
            &&& forall|l: int|
                0 <= l < a_coeffs@.len() ==> pp.A@[l / 64]@[l % 64] == (#[trigger] a_coeffs@[l])@
            &&& forall|l: int|
                0 <= l < b_coeffs@.len() ==> pp.B@[l / 64]@[l % 64] == (#[trigger] b_coeffs@[l])@
            &&& forall|l: int|
                0 <= l < d_coeffs@.len() ==> pp.D@[l / 64]@[l % 64] == (#[trigger] d_coeffs@[l])@
        },
{
    let nrows: usize = p.nrows as usize;
    match (pack_scalars(a_coeffs), pack_scalars(b_coeffs), pack_scalars(d_coeffs)) {
        (Some(a), Some(b), Some(d)) => {
            if a.len() != nrows * p.a_cols() || b.len() != nrows * p.b_cols() || d.len() != nrows
                * p.d_cols() {
                return Err(GreyhoundError::InvalidDimensions);
            }
            Ok(PublicParams { A: a, B: b, D: d })
        },
        _ => Err(GreyhoundError::InvalidDimensions),
    }
}

/// The matrices for the parameters of the scheme.
pub fn setup(a_coeffs: &[Zq], b_coeffs: &[Zq], d_coeffs: &[Zq]) -> (r: Result<
    PublicParams,
    GreyhoundError,
>)
    ensures
        r is Ok == (coefficients_of(
            a_coeffs@.len() as int,
            greyhound_params().nrows * greyhound_params().a_width(),
        ) && coefficients_of(
            b_coeffs@.len() as int,
            greyhound_params().nrows * greyhound_params().b_width(),
        ) && coefficients_of(
            d_coeffs@.len() as int,
            greyhound_params().nrows * greyhound_params().d_width(),
        )),
        r matches Err(e) ==> e == GreyhoundError::InvalidDimensions,
        r matches Ok(pp) ==> {
            &&& pp.shaped(greyhound_params())
            &&& rqs(pp.A@) == packed(zqs(a_coeffs@))
            &&& rqs(pp.B@) == packed(zqs(b_coeffs@))
            &&& rqs(pp.D@) == packed(zqs(d_coeffs@))
            &&& forall|l: int|
                0 <= l < a_coeffs@.len() ==> pp.A@[l / 64]@[l % 64] == (#[trigger] a_coeffs@[l])@
            &&& forall|l: int|
                0 <= l < b_coeffs@.len() ==> pp.B@[l / 64]@[l % 64] == (#[trigger] b_coeffs@[l])@
            &&& forall|l: int|
                0 <= l < d_coeffs@.len() ==> pp.D@[l / 64]@[l % 64] == (#[trigger] d_coeffs@[l])@
        },
{
    setup_with_params(&greyhound_transcript_params(), a_coeffs, b_coeffs, d_coeffs)
}

/// Chunk number `l` of a polynomial, as a ring element; places past the end hold zero.
pub open spec fn chunk(raw: Seq<u32>, l: int) -> Rq {
    Seq::new(
        64,
        |k: int|
            if 64 * l + k < raw.len() {
                raw[64 * l + k] as int
            } else {
                0
            },
    )
}

/// The matrix of chunks, column by column.
pub open spec fn chunks(raw: Seq<u32>, p: GreyhoundTranscriptParams) -> Seq<Rq> {
    Seq::new(p.cells() as nat, |l: int| chunk(raw, l))
}

/// The commitments to the columns: `nrows` entries for each.
pub open spec fn column_commitments(
    p: GreyhoundTranscriptParams,
    a: Seq<Rq>,
    s: Seq<Rq>,
) -> Seq<Rq> {
    transpose(
        mat_mul_transposed(a, p.nrows as int, s, p.r as int, p.a_width()),
        p.nrows as int,
        p.r as int,
    )
}

/// One chunk of a polynomial.
pub(crate) fn chunk_poly(raw: &[u32], l: usize) -> (r: PolyRing)
    requires
        64 * l + 64 <= usize::MAX,
    ensures
        r@ == chunk(raw@, l as int),
{
    let mut coeffs: Vec<Zq> = Vec::new();
    for k in 0..DEGREE
        invariant
            64 * l + 64 <= usize::MAX,
            coeffs@.len() == k,
            forall|j: int| 0 <= j < k ==> (#[trigger] coeffs@[j])@ == chunk(raw@, l as int)[j],
    {
        let at: usize = 64 * l + k;
        if at < raw.len() {
            coeffs.push(Zq::from(raw[at]));
        } else {
            coeffs.push(Zq::zero());
        }
    }
    let r = match PolyRing::from_slice(coeffs.as_slice()) {
        Some(p) => p,
        None => PolyRing::zero(),
    };
    assert(zqs(coeffs@) =~= chunk(raw@, l as int));
    r
}

/// The first step of a commitment: the matrix of chunks, which is to be decomposed in base
/// `2^b0` with `delta0` digits.
pub fn commit_chunks_with_params(p: &GreyhoundTranscriptParams, raw_f_coeffs: &[u32]) -> (r: Vec<
    PolyRing,
>)
    requires
        p.supported(),
    ensures
        rqs(r@) == chunks(raw_f_coeffs@, *p),
        r@.len() == p.m * p.r,
        forall|l: int|
            0 <= l < raw_f_coeffs@.len() && l < 64 * r@.len() ==> r@[l / 64]@[l % 64] == (
            #[trigger] raw_f_coeffs@[l]),
{
    proof {
        p.lemma_widths();
    }
    let cells: usize = p.m as usize * p.r as usize;
    let mut out: Vec<PolyRing> = Vec::new();
    for l in 0..cells
        invariant
            64 * cells <= usize::MAX,
            out@.len() == l,
            forall|j: int| 0 <= j < l ==> (#[trigger] out@[j])@ == chunk(raw_f_coeffs@, j),
    {
        out.push(chunk_poly(raw_f_coeffs, l));
    }
    assert(rqs(out@) =~= chunks(raw_f_coeffs@, *p));
    out
}

/// The second step of a commitment: with the digits of the chunks, the decomposed columns and
/// their commitments, which are to be decomposed in base `2^b1` with `delta` digits.
pub fn commit_columns_with_params(
    p: &GreyhoundTranscriptParams,
    pp: &PublicParams,
    s_digits: &[PolyRing],
) -> (r: Result<CommitColumns, GreyhoundError>)
    requires
        p.supported(),
    ensures
        r is Ok == (pp.A@.len() == p.nrows * p.a_width() && s_digits@.len() == p.delta0
            * p.cells()),
        r matches Err(e) ==> e == GreyhoundError::InvalidDimensions,
        r matches Ok(columns) ==> {
            &&& rqs(columns.s@) == regroup(
                rqs(s_digits@),
                p.delta0 as int,
                p.r as int,
                p.m as int,
            )
            &&& rqs(columns.t@) == column_commitments(*p, rqs(pp.A@), rqs(columns.s@))
        },
{
    proof {
        p.lemma_widths();
        assert(p.delta0 * p.r * p.m == p.delta0 * (p.m * p.r)) by (nonlinear_arith);
        assert(p.r * (p.delta0 * p.m) == p.delta0 * (p.m * p.r)) by (nonlinear_arith);
        assert(p.delta0 * p.r <= p.delta0 * p.r * p.m) by (nonlinear_arith)
            requires
                0 < p.m,
        ;
    }
    let (m, cols) = (p.m as usize, p.r as usize);
    let (digits, nrows) = (p.delta0 as usize, p.nrows as usize);
    if s_digits.len() != digits * cols * m {
        return Err(GreyhoundError::InvalidDimensions);
    }
    let s = regroup_digits(s_digits, digits, cols, m);
    let rows = match matmul_transposed(pp.A.as_slice(), nrows, s.as_slice(), cols, p.a_cols()) {
        Ok(out) => out,
        Err(e) => {
            return Err(e);
        },
    };
    let t = transposed(rows.as_slice(), nrows, cols);
    Ok(CommitColumns { s, t })
}

/// The last step of a commitment: with the digits of the column commitments, the commitment and
/// its opening.
pub fn commit_with_params(
    p: &GreyhoundTranscriptParams,
    pp: &PublicParams,
    columns: CommitColumns,
    t_digits: &[PolyRing],
) -> (r: Result<CommitReturn, GreyhoundError>)
    requires
        p.supported(),
    ensures
        r is Ok == (pp.B@.len() == p.nrows * p.b_width() && t_digits@.len() == p.b_width()),
        r matches Err(e) ==> e == GreyhoundError::InvalidDimensions,
        r matches Ok(out) ==> {
            &&& out.s == columns.s
            &&& rqs(out.t_hat_concat@) == regroup(
                rqs(t_digits@),
                p.delta as int,
                p.r as int,
                p.nrows as int,
            )
            &&& rqs(out.u@) == mat_vec(
                rqs(pp.B@),
                p.nrows as int,
                p.b_width(),
                rqs(out.t_hat_concat@),
            )
            &&& out.u@.len() == p.nrows
            &&& forall|i: int|
                0 <= i < p.nrows ==> (#[trigger] out.u@[i])@ == rq_dot(
                    rqs(pp.B@).subrange(i * p.b_width(), i * p.b_width() + p.b_width()),
                    rqs(out.t_hat_concat@),
                )
        },
{
    proof {
        p.lemma_widths();
        assert(p.delta * p.r * p.nrows == p.nrows * p.delta * p.r) by (nonlinear_arith);
        assert(p.r * (p.delta * p.nrows) == p.nrows * p.delta * p.r) by (nonlinear_arith);
        assert(p.delta * p.r <= p.delta * p.r * p.nrows) by (nonlinear_arith)
            requires
                0 < p.nrows,
        ;
    }
    let cols: usize = p.r as usize;
    let (digits, nrows) = (p.delta as usize, p.nrows as usize);
    if t_digits.len() != digits * cols * nrows {
        return Err(GreyhoundError::InvalidDimensions);
    }
    let t_hat_concat = regroup_digits(t_digits, digits, cols, nrows);
    match device_ntt_matmul(pp.B.as_slice(), nrows, p.b_cols(), t_hat_concat.as_slice()) {
        Ok(u) => Ok(CommitReturn { u, s: columns.s, t_hat_concat }),
        Err(e) => Err(e),
    }
}

/// The first step of a commitment with the parameters of the scheme.
pub fn commit_chunks(raw_f_coeffs: &[u32]) -> (r: Vec<PolyRing>)
    ensures
        rqs(r@) == chunks(raw_f_coeffs@, greyhound_params()),
        r@.len() == 3156 * 333,
        forall|l: int|
            0 <= l < raw_f_coeffs@.len() && l < 64 * r@.len() ==> r@[l / 64]@[l % 64] == (
            #[trigger] raw_f_coeffs@[l]),
{
    assert(3156 * 333 == greyhound_params().m * greyhound_params().r) by (nonlinear_arith)
        requires
            greyhound_params().m == 3156,
            greyhound_params().r == 333,
    ;
    commit_chunks_with_params(&greyhound_transcript_params(), raw_f_coeffs)
}

/// The second step of a commitment with the parameters of the scheme.
pub fn commit_columns(pp: &PublicParams, s_digits: &[PolyRing]) -> (r: Result<
    CommitColumns,
    GreyhoundError,
>)
    ensures
        ({
            let p = greyhound_params();
            &&& r is Ok == (pp.A@.len() == p.nrows * p.a_width() && s_digits@.len() == p.delta0
                * p.cells())
            &&& r matches Err(e) ==> e == GreyhoundError::InvalidDimensions
            &&& r matches Ok(columns) ==> {
                &&& rqs(columns.s@) == regroup(
                    rqs(s_digits@),
                    p.delta0 as int,
                    p.r as int,
                    p.m as int,
                )
                &&& rqs(columns.t@) == column_commitments(p, rqs(pp.A@), rqs(columns.s@))
            }
        }),
{
    commit_columns_with_params(&greyhound_transcript_params(), pp, s_digits)
}

/// The last step of a commitment with the parameters of the scheme.
pub fn commit(pp: &PublicParams, columns: CommitColumns, t_digits: &[PolyRing]) -> (r: Result<
    CommitReturn,
    GreyhoundError,
>)
    ensures
        ({
            let p = greyhound_params();
            &&& r is Ok == (pp.B@.len() == p.nrows * p.b_width() && t_digits@.len() == p.b_width())
            &&& r matches Err(e) ==> e == GreyhoundError::InvalidDimensions
            &&& r matches Ok(out) ==> {
                &&& out.s == columns.s
                &&& rqs(out.t_hat_concat@) == regroup(
                    rqs(t_digits@),
                    p.delta as int,
                    p.r as int,
                    p.nrows as int,
                )
                &&& rqs(out.u@) == mat_vec(
                    rqs(pp.B@),
                    p.nrows as int,
                    p.b_width(),
                    rqs(out.t_hat_concat@),
                )
            }
        }),
{
    commit_with_params(&greyhound_transcript_params(), pp, columns, t_digits)
}

} // verus!
