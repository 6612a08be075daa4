//! Protocol parameters.
use vstd::arithmetic::power2::pow2;
use vstd::prelude::*;

use crate::bytes::{le_bytes, u32_to_bytes};

verus! {

/// The number of coefficients of a committed polynomial.
pub const N: usize = 67_108_864;

/// The number of ring elements in a column.
pub const M: usize = 3156;

/// The number of columns.
pub const R: usize = 333;

/// The number of rows of the commitment matrices.
pub const NROWS: usize = 18;

/// The rank of the outer commitments of the row-folding argument.
pub const N1: usize = 7;

/// The logarithm of the base in which the columns are decomposed.
pub const B0: usize = 13;

/// The number of digits of a column entry.
pub const DELTA0: usize = 5;

/// The logarithm of the base in which commitments and inner products are decomposed.
pub const B1: usize = 13;

/// The number of digits of a commitment or an inner product.
pub const DELTA: usize = 5;

/// The width of the matrix `A`.
pub const A_COLS: usize = DELTA0 * M;

/// The width of the matrix `B`.
pub const B_COLS: usize = NROWS * DELTA * R;

/// The width of the matrix `D`.
pub const D_COLS: usize = DELTA * R;

/// The parameters that a transcript is bound to.
#[derive(Clone, Copy, PartialEq, Eq, Structural, Debug)]
pub struct GreyhoundTranscriptParams {
    /// Coefficients of the committed polynomial.
    pub n: u32,
    /// Ring elements in a column.
    pub m: u32,
    /// Columns.
    pub r: u32,
    /// Rows of the commitment matrices.
    pub nrows: u32,
    /// Logarithm of the base for the columns.
    pub b0: u32,
    /// Digits for that base.
    pub delta0: u32,
    /// Logarithm of the base for commitments and inner products.
    pub b1: u32,
    /// Digits for that base.
    pub delta: u32,
}

/// The parameters of the scheme.
pub open spec fn greyhound_params() -> GreyhoundTranscriptParams {
    GreyhoundTranscriptParams {
        n: N as u32,
        m: M as u32,
        r: R as u32,
        nrows: NROWS as u32,
        b0: B0 as u32,
        delta0: DELTA0 as u32,
        b1: B1 as u32,
        delta: DELTA as u32,
    }
}

/// The parameters of the scheme.
pub fn greyhound_transcript_params() -> (r: GreyhoundTranscriptParams)
    ensures
        r == greyhound_params(),
        r.n == 67_108_864 && r.m == 3156 && r.r == 333 && r.nrows == 18,
        r.b0 == 13 && r.delta0 == 5 && r.b1 == 13 && r.delta == 5,
        r.supported(),
{
    proof {
        lemma_greyhound_params();
    }
    GreyhoundTranscriptParams {
        n: N as u32,
        m: M as u32,
        r: R as u32,
        nrows: NROWS as u32,
        b0: B0 as u32,
        delta0: DELTA0 as u32,
        b1: B1 as u32,
        delta: DELTA as u32,
    }
}

impl GreyhoundTranscriptParams {
    /// The width of `A`, which is the length of a decomposed column.
    pub open spec fn a_width(self) -> int {
        self.delta0 * self.m
    }

    /// The length of one column's decomposed commitment.
    pub open spec fn t_width(self) -> int {
        self.nrows * self.delta
    }

    /// The width of `B`, which is the length of all decomposed column commitments.
    pub open spec fn b_width(self) -> int {
        self.t_width() * self.r
    }

    /// The width of `D`, which is the length of the decomposed inner products.
    pub open spec fn d_width(self) -> int {
        self.delta * self.r
    }

    /// The number of ring elements that a polynomial is split into.
    pub open spec fn cells(self) -> int {
        self.m * self.r
    }

    /// The base for the columns.
    pub open spec fn base0(self) -> int {
        pow2(self.b0 as nat) as int
    }

    /// The base for commitments and inner products.
    pub open spec fn base1(self) -> int {
        pow2(self.b1 as nat) as int
    }

    /// Every size is positive and can be counted on this machine, the bases fit in a word, and
    /// the columns hold all `n` coefficients.
    pub open spec fn supported(self) -> bool {
        &&& 0 < self.m && 0 < self.r && 0 < self.nrows && 0 < self.delta0 && 0 < self.delta
        &&& self.b0 < 32 && self.b1 < 32
        &&& self.n <= 64 * self.cells()
        &&& 64 * self.cells() <= usize::MAX
        &&& self.delta0 * self.cells() <= usize::MAX
        &&& self.nrows * self.a_width() <= usize::MAX
        &&& self.nrows * self.b_width() <= usize::MAX
        &&& self.nrows * self.d_width() <= usize::MAX
        &&& self.d_width() + self.b_width() + self.a_width() <= usize::MAX
        &&& 3 * self.nrows + 2 <= usize::MAX
    }
}

/// The scheme's parameters are supported.
pub proof fn lemma_greyhound_params()
    ensures
        greyhound_params().supported(),
        greyhound_params().base0() == 8192,
        greyhound_params().base1() == 8192,
        greyhound_params().a_width() == A_COLS,
        greyhound_params().b_width() == B_COLS,
        greyhound_params().d_width() == D_COLS,
        greyhound_params().n % 64 == 0,
{
    vstd::arithmetic::power2::lemma2_to64();
    let p = greyhound_params();
    assert(p.cells() == 1_050_948) by (nonlinear_arith)
        requires
            p.m == 3156,
            p.r == 333,
            p.cells() == p.m * p.r,
    ;
    assert(p.a_width() == 15_780) by (nonlinear_arith)
        requires
            p.delta0 == 5,
            p.m == 3156,
            p.a_width() == p.delta0 * p.m,
    ;
    assert(p.t_width() == 90) by (nonlinear_arith)
        requires
            p.nrows == 18,
            p.delta == 5,
            p.t_width() == p.nrows * p.delta,
    ;
    assert(p.b_width() == 29_970) by (nonlinear_arith)
        requires
            p.t_width() == 90,
            p.r == 333,
            p.b_width() == p.t_width() * p.r,
    ;
    assert(p.d_width() == 1665) by (nonlinear_arith)
        requires
            p.delta == 5,
            p.r == 333,
            p.d_width() == p.delta * p.r,
    ;
    assert(A_COLS == 15_780 && B_COLS == 29_970 && D_COLS == 1665);
    assert(p.delta0 * p.cells() == 5_254_740) by (nonlinear_arith)
        requires
            p.delta0 == 5,
            p.cells() == 1_050_948,
    ;
    assert(p.nrows * p.a_width() == 284_040) by (nonlinear_arith)
        requires
            p.nrows == 18,
            p.a_width() == 15_780,
    ;
    assert(p.nrows * p.b_width() == 539_460) by (nonlinear_arith)
        requires
            p.nrows == 18,
            p.b_width() == 29_970,
    ;
    assert(p.nrows * p.d_width() == 29_970) by (nonlinear_arith)
        requires
            p.nrows == 18,
            p.d_width() == 1665,
    ;
}

/// The encoding of the parameters: eight 32-bit words.
pub open spec fn params_bytes(p: GreyhoundTranscriptParams) -> Seq<u8> {
    le_bytes(p.n as int, 4) + le_bytes(p.m as int, 4) + le_bytes(p.r as int, 4) + le_bytes(
        p.nrows as int,
        4,
    ) + le_bytes(p.b0 as int, 4) + le_bytes(p.delta0 as int, 4) + le_bytes(p.b1 as int, 4)
        + le_bytes(p.delta as int, 4)
}

/// The encoding of the parameters.
pub fn transcript_params_to_bytes(params: &GreyhoundTranscriptParams) -> (r: Vec<u8>)
    ensures
        r@ == params_bytes(*params),
{
    let mut out = u32_to_bytes(params.n);
    let mut w = u32_to_bytes(params.m);
    out.append(&mut w);
    let mut w = u32_to_bytes(params.r);
    out.append(&mut w);
    let mut w = u32_to_bytes(params.nrows);
    out.append(&mut w);
    let mut w = u32_to_bytes(params.b0);
    out.append(&mut w);
    let mut w = u32_to_bytes(params.delta0);
    out.append(&mut w);
    let mut w = u32_to_bytes(params.b1);
    out.append(&mut w);
    let mut w = u32_to_bytes(params.delta);
    out.append(&mut w);
    out
}

/// The L1 norm of a challenge polynomial.
pub const CHALLENGE_L1: u32 = 51;

/// The squared norm bound on an honest witness: the decomposed inner products and commitments
/// have coefficients up to the second base, and each coefficient of a folded column is at most
/// the number of columns times the L1 norm of a challenge times the first base.
pub open spec fn norm_bound_sq(p: GreyhoundTranscriptParams) -> int {
    let fold = p.r * CHALLENGE_L1 * p.base0();
    p.base1() * p.base1() * (p.nrows + 1) * p.delta * p.r * 64 + fold * fold * p.delta0 * p.m * 64
}

/// The squared norm bound for the parameters of the scheme.
pub fn greyhound_norm_bound_sq() -> (r: u128)
    ensures
        r == norm_bound_sq(greyhound_params()),
        r == 64 * (1665 + 29_970) * (8192 * 8192) + 64 * 15_780 * (139_124_736 * 139_124_736),
{
    proof {
        lemma_greyhound_params();
    }
    let fold: u128 = 333 * 51 * 8192;
    let term1: u128 = 8192 * 8192 * 19 * 5 * 333 * 64;
    assert(fold * fold == 139_124_736 * 139_124_736) by (nonlinear_arith)
        requires
            fold == 139_124_736,
    ;
    let term2: u128 = fold * fold * 5 * 3156 * 64;
    proof {
        let p = greyhound_params();
        assert(p.r * CHALLENGE_L1 * p.base0() == fold) by (nonlinear_arith)
            requires
                p.r == 333,
                CHALLENGE_L1 == 51,
                p.base0() == 8192,
                fold == 333 * 51 * 8192,
        ;
        assert(p.base1() * p.base1() * (p.nrows + 1) * p.delta * p.r * 64 == term1)
            by (nonlinear_arith)
            requires
                p.base1() == 8192,
                p.nrows == 18,
                p.delta == 5,
                p.r == 333,
                term1 == 8192 * 8192 * 19 * 5 * 333 * 64,
        ;
        let f = fold as int;
        assert(f * f * p.delta0 * p.m * 64 == f * f * 5 * 3156 * 64) by (nonlinear_arith)
            requires
                p.delta0 == 5,
                p.m == 3156,
        ;
    }
    term1 + term2
}

} // verus!
