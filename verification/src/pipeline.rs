//! The reference string of the argument for the parameters of the scheme.
use vstd::prelude::*;

use crate::error::GreyhoundError;
use crate::eval::base_word;
use crate::labrador::LabradorCRS;
use crate::params::{
    greyhound_norm_bound_sq, greyhound_params, lemma_greyhound_params, norm_bound_sq, A_COLS, B0,
    B1, B_COLS, DELTA, D_COLS, N1, NROWS, R,
};
use crate::poly::PolyRing;

verus! {

/// The length of a witness.
pub const WITNESS_LEN: usize = D_COLS + B_COLS + A_COLS;

/// The reference string holds the sizes of the scheme.
pub open spec fn is_scheme_crs(crs: LabradorCRS) -> bool {
    &&& crs.r == R && crs.n == WITNESS_LEN && crs.d == 64
    &&& crs.k == NROWS && crs.k1 == N1 && crs.k2 == N1
    &&& crs.t1 == DELTA && crs.t2 == DELTA
    &&& crs.b == greyhound_params().base1()
    &&& crs.b1 == greyhound_params().base1()
    &&& crs.b2 == greyhound_params().base0()
    &&& crs.num_aggregs == 1 && crs.num_constraints == 1
    &&& crs.norm_bound_sq == norm_bound_sq(greyhound_params())
}

proof fn lemma_scheme_sizes()
    ensures
        DELTA * R == 1665,
        DELTA * R * NROWS == 29_970,
        R * (R + 1) == 111_222,
        DELTA * (R * (R + 1) / 2) == 278_055,
        NROWS * WITNESS_LEN == 853_470,
        N1 * (DELTA * R * NROWS) == 209_790,
        N1 * (DELTA * (R * (R + 1) / 2)) == 1_946_385,
        NROWS * DELTA == 90,
        R * NROWS == 5994,
{
    assert(R * (R + 1) == 111_222) by (nonlinear_arith)
        requires
            R == 333,
    ;
}

/// The numbers of random ring elements for the matrices of the reference string.
pub fn labrador_matrix_lens() -> (r: (usize, usize, usize, usize))
    ensures
        r.0 == 853_470 && r.1 == 209_790 && r.2 == 1_946_385 && r.3 == 1_946_385,
        r.0 == NROWS * WITNESS_LEN,
        r.1 == N1 * (DELTA * R * NROWS),
        r.2 == N1 * (DELTA * (R * (R + 1) / 2)),
        r.3 == N1 * (DELTA * (R * (R + 1) / 2)),
{
    proof {
        lemma_scheme_sizes();
    }
    match LabradorCRS::matrix_lens(R, WITNESS_LEN, NROWS, N1, N1, DELTA, DELTA) {
        Some(lens) => lens,
        None => (0, 0, 0, 0),
    }
}

/// The reference string with the given matrices, which are refused if their lengths are wrong.
#[allow(non_snake_case)]
pub fn labrador_crs(
    A: Vec<PolyRing>,
    B: Vec<PolyRing>,
    C: Vec<PolyRing>,
    D_mat: Vec<PolyRing>,
) -> (r: Result<LabradorCRS, GreyhoundError>)
    ensures
        r is Ok == (A@.len() == NROWS * WITNESS_LEN && B@.len() == N1 * (DELTA * R * NROWS)
            && C@.len() == N1 * (DELTA * (R * (R + 1) / 2)) && D_mat@.len() == N1 * (DELTA * (R * (R
            + 1) / 2))),
        r matches Err(e) ==> e == GreyhoundError::InvalidDimensions,
        r matches Ok(crs) ==> {
            &&& is_scheme_crs(crs)
            &&& crs.r == 333 && crs.n == 47_415 && crs.d == 64
            &&& crs.k == 18 && crs.k1 == 7 && crs.k2 == 7 && crs.t1 == 5 && crs.t2 == 5
            &&& crs.b == 8192 && crs.b1 == 8192 && crs.b2 == 8192
            &&& crs.num_aggregs == 1 && crs.num_constraints == 1
            &&& crs.norm_bound_sq == 64 * (1665 + 29_970) * (8192 * 8192) + 64 * 15_780 * (
            139_124_736 * 139_124_736)
            &&& crs.countable()
            &&& crs.A == A && crs.B == B && crs.C == C && crs.D_mat == D_mat
        },
{
    proof {
        lemma_scheme_sizes();
        lemma_greyhound_params();
    }
    let base1: u32 = base_word(B1 as u32);
    let base0: u32 = base_word(B0 as u32);
    LabradorCRS::setup(
        R,
        WITNESS_LEN,
        NROWS,
        N1,
        N1,
        DELTA,
        DELTA,
        base1,
        base1,
        base0,
        1,
        1,
        greyhound_norm_bound_sq(),
        A,
        B,
        C,
        D_mat,
    )
}

} // verus!
