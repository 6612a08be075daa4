//! What a commitment holds of the polynomial.
use vstd::prelude::*;

use crate::commit::{chunks, column_commitments};
use crate::layout::transposing_swaps;
use crate::linalg::mat_mul_transposed;
use crate::params::{norm_bound_sq, GreyhoundTranscriptParams, CHALLENGE_L1};
use crate::ring_laws::entries_of_product;
use crate::rq::{rq_dot, Rq};

verus! {

/// The chunks hold every coefficient: coefficient `l` of the polynomial is coefficient `l % 64` of
/// chunk `l / 64`, and the places past the end hold zero.
pub proof fn chunks_hold_every_coefficient(raw: Seq<u32>, p: GreyhoundTranscriptParams, l: int)
    requires
        0 <= l < 64 * (p.m * p.r),
    ensures
        chunks(raw, p).len() == p.m * p.r,
        chunks(raw, p)[l / 64].len() == 64,
        chunks(raw, p)[l / 64][l % 64] == (if l < raw.len() {
            raw[l] as int
        } else {
            0
        }),
{
}

/// Polynomials that fit and differ in a coefficient have different chunks.
pub proof fn chunks_are_injective(a: Seq<u32>, b: Seq<u32>, p: GreyhoundTranscriptParams)
    requires
        a.len() == b.len() <= 64 * (p.m * p.r),
        chunks(a, p) == chunks(b, p),
    ensures
        a == b,
{
    assert forall|l: int| 0 <= l < a.len() implies #[trigger] a[l] == b[l] by {
        chunks_hold_every_coefficient(a, p, l);
        chunks_hold_every_coefficient(b, p, l);
    }
    assert(a =~= b);
}

/// Entry `row` of the commitment to column `i` is the inner product of row `row` of `A` and the
/// digits of column `i`.
pub proof fn columns_are_committed_to(
    p: GreyhoundTranscriptParams,
    a: Seq<Rq>,
    s: Seq<Rq>,
    i: int,
    row: int,
)
    requires
        p.supported(),
        a.len() == p.nrows * (p.delta0 * p.m),
        s.len() == p.r * (p.delta0 * p.m),
        0 <= i < p.r,
        0 <= row < p.nrows,
    ensures
        column_commitments(p, a, s).len() == p.r * p.nrows,
        column_commitments(p, a, s)[i * p.nrows + row] == rq_dot(
            a.subrange(row * (p.delta0 * p.m), row * (p.delta0 * p.m) + p.delta0 * p.m),
            s.subrange(i * (p.delta0 * p.m), i * (p.delta0 * p.m) + p.delta0 * p.m),
        ),
{
    let w = p.delta0 * p.m;
    p.lemma_widths();
    let m = mat_mul_transposed(a, p.nrows as int, s, p.r as int, p.a_width());
    transposing_swaps(m, p.nrows as int, p.r as int, row, i);
    entries_of_product(a, p.nrows as int, s, p.r as int, w, row, i);
}

/// The norm bound is the norm of the longest witness that the digits and the challenge allow: 64
/// coefficients of size `2^b1` in every digit of the inner products and commitments, and 64 of
/// size `51 r 2^b0` in every entry of the folded column.
pub proof fn norm_bound_is_that_of_the_longest(p: GreyhoundTranscriptParams)
    ensures
        norm_bound_sq(p) == 64 * (p.delta * p.r + p.nrows * p.delta * p.r) * (p.base1()
            * p.base1()) + 64 * (p.delta0 * p.m) * ((51 * p.r * p.base0()) * (51 * p.r
            * p.base0())),
{
    let (b1, fold) = (p.base1(), p.r * CHALLENGE_L1 * p.base0());
    assert(51 * p.r * p.base0() == fold) by (nonlinear_arith)
        requires
            fold == p.r * CHALLENGE_L1 * p.base0(),
            CHALLENGE_L1 == 51,
    ;
    assert(b1 * b1 * (p.nrows + 1) * p.delta * p.r * 64 == 64 * (p.delta * p.r + p.nrows * p.delta
        * p.r) * (b1 * b1)) by (nonlinear_arith);
    assert(fold * fold * p.delta0 * p.m * 64 == 64 * (p.delta0 * p.m) * (fold * fold))
        by (nonlinear_arith);
}

} // verus!
