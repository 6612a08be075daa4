//! Honest folding rounds are accepted.
use vstd::prelude::*;

use crate::challenge::{drawn_challenges, longer_request_appends};
use crate::completeness::folding_commutes;
use crate::error::GreyhoundError;
use crate::folding::{
    exchange, first_commitment, first_commitment_fits, flat_rows, fold_seeds, inner_commitments,
    is_fold_aggregation, is_fold_close, is_fold_linear, is_fold_projection, is_fold_proof,
    is_fold_start, linear_terms, quadratic_terms, rows_shaped, vectors_fit, weights_fit,
    FoldAggregation, FoldClose, FoldLinear, FoldProjection, FoldStart,
};
use crate::folding_check::{
    fold_messages, fold_reading, lower_form, lower_row_form, lower_terms, opening_checks,
    projection_too_large, recomposed_commitments, sampled_checks, upper_form, upper_row_form,
    upper_terms, RoundDecision,
};
use crate::labrador::{LabradorCRS, LabradorProof, Relation};
use crate::layout::{
    flat_columns, lemma_lower_count, lemma_lower_rows_entry, lemma_upper_count,
    lemma_upper_rows_entry, packed,
};
use crate::linalg::{
    fold_rows, is_decomposition, lemma_flat_index, mat_mul_transposed, mat_vec, matmul_fits,
    recompose, recomposed, row_product,
};
use crate::poly::{rqs, zqs, PolyRing};
use crate::rq::{
    conv, is_rq, lemma_rq_add_laws, lemma_rq_add_zero, lemma_rq_mul_add, lemma_rq_mul_associative,
    lemma_rq_mul_commutative, lemma_rq_new, lemma_rq_scale_is_mul, lemma_rq_sum_mul,
    lemma_rq_sum_plus, lemma_rq_sum_same, rq_add, rq_const, rq_dot, rq_mul, rq_scale, rq_sum,
    rq_zero, Rq,
};
use crate::sponge::Transcript;
use crate::zq::{zq_pow, Zq};

verus! {

/// The sum over all ordered pairs.
pub open spec fn pair_sum(f: spec_fn(int, int) -> Rq, n: int) -> Rq {
    rq_sum(|i: int| rq_sum(|j: int| f(i, j), n), n)
}

/// One more row and column of a symmetric sum over pairs.
proof fn lemma_pair_sum_step(f: spec_fn(int, int) -> Rq, n: int)
    requires
        0 <= n,
        forall|i: int, j: int| 0 <= i <= n && 0 <= j <= n ==> #[trigger] f(i, j) == f(j, i),
    ensures
        ({
            let row = rq_sum(|j: int| f(n, j), n);
            pair_sum(f, n + 1) == rq_add(
                rq_add(pair_sum(f, n), row),
                rq_add(row, f(n, n)),
            )
        }),
{
    let inner = |i: int| rq_sum(|j: int| f(i, j), n);
    let wider = |i: int| rq_sum(|j: int| f(i, j), n + 1);
    let column = |i: int| f(i, n);
    let row = |j: int| f(n, j);
    let widened = |i: int| rq_add(inner(i), column(i));
    assert forall|i: int| 0 <= i < n implies #[trigger] wider(i) == widened(i) by {
        let g = |j: int| f(i, j);
        assert(rq_sum(g, n + 1) == rq_add(rq_sum(g, n), g(n)));
    }
    lemma_rq_sum_same(wider, widened, n);
    lemma_rq_sum_plus(inner, column, n);
    lemma_rq_sum_same(column, row, n);
    assert(rq_sum(wider, n + 1) == rq_add(rq_sum(wider, n), wider(n)));
    assert(rq_sum(row, n + 1) == rq_add(rq_sum(row, n), row(n)));
}

/// Twice the value unless the positions are the same.
pub open spec fn doubled(x: Rq, same: bool) -> Rq {
    if same {
        x
    } else {
        rq_add(x, x)
    }
}

/// The terms for `i`, by `j`.
pub open spec fn lower_doubles(f: spec_fn(int, int) -> Rq, i: int) -> spec_fn(int) -> Rq {
    |j: int| doubled(f(i, j), j == i)
}

/// The terms for `i`, by `j - i`.
pub open spec fn upper_doubles(f: spec_fn(int, int) -> Rq, i: int) -> spec_fn(int) -> Rq {
    |d: int| doubled(f(i, i + d), d == 0)
}

/// A symmetric sum over all ordered pairs, from the pairs `j <= i`.
pub proof fn lemma_lower_pairs(f: spec_fn(int, int) -> Rq, n: int)
    requires
        0 <= n,
        forall|i: int, j: int| 0 <= i < n && 0 <= j < n ==> #[trigger] f(i, j) == f(j, i),
    ensures
        pair_sum(f, n) == rq_sum(|i: int| rq_sum(lower_doubles(f, i), i + 1), n),
    decreases n,
{
    let rows = |i: int| rq_sum(lower_doubles(f, i), i + 1);
    if n > 0 {
        let m = n - 1;
        lemma_lower_pairs(f, m);
        lemma_pair_sum_step(f, m);
        let row = |j: int| f(m, j);
        let terms = lower_doubles(f, m);
        lemma_rq_sum_plus(row, row, m);
        lemma_rq_sum_same(terms, |j: int| rq_add(row(j), row(j)), m);
        assert(rq_sum(terms, m + 1) == rq_add(rq_sum(terms, m), terms(m)));
        let (s, r, d) = (pair_sum(f, m), rq_sum(row, m), f(m, m));
        // (s + r) + (r + d) == s + ((r + r) + d)
        lemma_rq_add_laws(s, r, rq_add(r, d));
        lemma_rq_add_laws(r, r, d);
    }
}

/// A symmetric sum over all ordered pairs, from the pairs `i <= j`.
pub proof fn lemma_upper_pairs(f: spec_fn(int, int) -> Rq, n: int)
    requires
        0 <= n,
        forall|i: int, j: int| 0 <= i < n && 0 <= j < n ==> #[trigger] f(i, j) == f(j, i),
        forall|i: int| 0 <= i < n ==> is_rq(#[trigger] f(i, i)),
    ensures
        pair_sum(f, n) == rq_sum(|i: int| rq_sum(upper_doubles(f, i), n - i), n),
    decreases n,
{
    let rows = |i: int| rq_sum(upper_doubles(f, i), n - i);
    if n > 0 {
        let m = n - 1;
        lemma_upper_pairs(f, m);
        lemma_pair_sum_step(f, m);
        let shorter = |i: int| rq_sum(upper_doubles(f, i), m - i);
        let column = |i: int| f(i, m);
        let twice = |i: int| rq_add(column(i), column(i));
        let row = |j: int| f(m, j);
        let longer = |i: int| rq_add(shorter(i), twice(i));
        assert forall|i: int| 0 <= i < m implies #[trigger] rows(i) == longer(i) by {
            let g = upper_doubles(f, i);
            assert(rq_sum(g, m - i + 1) == rq_add(rq_sum(g, m - i), g(m - i)));
            assert(i + (m - i) == m);
        }
        lemma_rq_sum_same(rows, longer, m);
        lemma_rq_sum_plus(shorter, twice, m);
        lemma_rq_sum_plus(column, column, m);
        lemma_rq_sum_same(column, row, m);
        assert(rq_sum(rows, m + 1) == rq_add(rq_sum(rows, m), rows(m)));
        let last = upper_doubles(f, m);
        assert(rq_sum(last, 1) == rq_add(rq_sum(last, 0), last(0)));
        assert(m + 0 == m);
        lemma_rq_add_zero(f(m, m));
        let (s, r, d) = (pair_sum(f, m), rq_sum(row, m), f(m, m));
        // (s + r) + (r + d) == (s + (r + r)) + d
        lemma_rq_add_laws(s, r, rq_add(r, d));
        lemma_rq_add_laws(r, r, d);
        lemma_rq_add_laws(s, rq_add(r, r), d);
    }
}

/// Entry `l` of the vectors `a(0, ..), a(1, ..), ...` folded by `c`.
pub open spec fn folded_entry(
    c: spec_fn(int) -> Rq,
    a: spec_fn(int, int) -> Rq,
    r: int,
    l: int,
) -> Rq {
    rq_sum(|i: int| rq_mul(c(i), a(i, l)), r)
}

/// The inner product of `a(i, ..)` and `b(j, ..)`.
pub open spec fn cross(
    a: spec_fn(int, int) -> Rq,
    b: spec_fn(int, int) -> Rq,
    n: int,
    i: int,
    j: int,
) -> Rq {
    rq_sum(|l: int| rq_mul(a(i, l), b(j, l)), n)
}

/// The inner products, weighted by the challenge.
pub open spec fn weighted_cross(
    c: spec_fn(int) -> Rq,
    a: spec_fn(int, int) -> Rq,
    b: spec_fn(int, int) -> Rq,
    n: int,
) -> spec_fn(int, int) -> Rq {
    |i: int, j: int| rq_mul(rq_mul(c(i), c(j)), cross(a, b, n, i, j))
}

/// One row of the weighted inner products.
proof fn lemma_folded_row(
    c: spec_fn(int) -> Rq,
    a: spec_fn(int, int) -> Rq,
    b: spec_fn(int, int) -> Rq,
    r: int,
    n: int,
    i: int,
)
    ensures
        rq_mul(c(i), rq_sum(|l: int| rq_mul(folded_entry(c, b, r, l), a(i, l)), n)) == rq_sum(
            |j: int| weighted_cross(c, a, b, n)(i, j),
            r,
        ),
{
    let ai = |l: int| a(i, l);
    let left = |l: int| rq_mul(folded_entry(c, b, r, l), a(i, l));
    let left2 = |l: int| rq_mul(ai(l), rq_sum(|j: int| rq_mul(c(j), b(j, l)), r));
    assert forall|l: int| 0 <= l < n implies #[trigger] left(l) == left2(l) by {
        lemma_rq_mul_commutative(folded_entry(c, b, r, l), a(i, l));
        lemma_rq_sum_same(
            |i: int| rq_mul(c(i), b(i, l)),
            |j: int| rq_mul(c(j), b(j, l)),
            r,
        );
    }
    lemma_rq_sum_same(left, left2, n);
    folding_commutes(ai, c, b, r, n);
    let inner = |j: int| rq_mul(c(j), rq_sum(|l: int| rq_mul(ai(l), b(j, l)), n));
    lemma_rq_sum_mul(c(i), inner, r);
    let scaled = |j: int| rq_mul(c(i), inner(j));
    let pairs = |j: int| weighted_cross(c, a, b, n)(i, j);
    assert forall|j: int| 0 <= j < r implies #[trigger] scaled(j) == pairs(j) by {
        lemma_rq_sum_same(
            |l: int| rq_mul(ai(l), b(j, l)),
            |l: int| rq_mul(a(i, l), b(j, l)),
            n,
        );
        lemma_rq_mul_associative(c(i), c(j), cross(a, b, n, i, j));
    }
    lemma_rq_sum_same(scaled, pairs, r);
}

/// The inner product of two folded vectors is the sum of the weighted inner products of what was
/// folded.
pub proof fn folded_inner_product(
    c: spec_fn(int) -> Rq,
    a: spec_fn(int, int) -> Rq,
    b: spec_fn(int, int) -> Rq,
    r: int,
    n: int,
)
    ensures
        rq_sum(
            |l: int| rq_mul(folded_entry(c, a, r, l), folded_entry(c, b, r, l)),
            n,
        ) == pair_sum(weighted_cross(c, a, b, n), r),
{
    let fb = |l: int| folded_entry(c, b, r, l);
    let product = |l: int| rq_mul(folded_entry(c, a, r, l), folded_entry(c, b, r, l));
    let product2 = |l: int| rq_mul(fb(l), rq_sum(|i: int| rq_mul(c(i), a(i, l)), r));
    assert forall|l: int| 0 <= l < n implies #[trigger] product(l) == product2(l) by {
        lemma_rq_mul_commutative(folded_entry(c, a, r, l), folded_entry(c, b, r, l));
    }
    lemma_rq_sum_same(product, product2, n);
    folding_commutes(fb, c, a, r, n);
    let outer = |i: int| rq_mul(c(i), rq_sum(|l: int| rq_mul(fb(l), a(i, l)), n));
    let outer2 = |i: int| rq_sum(|j: int| weighted_cross(c, a, b, n)(i, j), r);
    assert forall|i: int| 0 <= i < r implies #[trigger] outer(i) == outer2(i) by {
        lemma_folded_row(c, a, b, r, n, i);
        lemma_rq_sum_same(
            |l: int| rq_mul(fb(l), a(i, l)),
            |l: int| rq_mul(folded_entry(c, b, r, l), a(i, l)),
            n,
        );
    }
    lemma_rq_sum_same(outer, outer2, r);
}

/// The entries of a flat matrix with `n` columns.
pub open spec fn entries(s: Seq<Rq>, n: int) -> spec_fn(int, int) -> Rq {
    |i: int, l: int| s[i * n + l]
}

/// The entries of a sequence.
pub open spec fn items(c: Seq<Rq>) -> spec_fn(int) -> Rq {
    |i: int| c[i]
}

/// The inner products of the rows of two matrices.
proof fn lemma_products(a: Seq<Rq>, b: Seq<Rq>, r: int, n: int, i: int, j: int)
    requires
        0 <= i < r,
        0 <= j < r,
    ensures
        mat_mul_transposed(a, r, b, r, n)[i * r + j] == cross(
            entries(a, n),
            entries(b, n),
            n,
            i,
            j,
        ),
{
    lemma_flat_index(i, j, r, r);
    lemma_rq_sum_same(
        |l: int| rq_mul(a[i * n + l], b[j * n + l]),
        |l: int| rq_mul(entries(a, n)(i, l), entries(b, n)(j, l)),
        n,
    );
}

/// The inner product of two folded matrices.
proof fn lemma_dot_of_folded(c: Seq<Rq>, a: Seq<Rq>, b: Seq<Rq>, n: int)
    requires
        0 <= n,
    ensures
        rq_dot(fold_rows(c, a, n), fold_rows(c, b, n)) == pair_sum(
            weighted_cross(items(c), entries(a, n), entries(b, n), n),
            c.len() as int,
        ),
{
    let r = c.len() as int;
    let (fa, fb) = (fold_rows(c, a, n), fold_rows(c, b, n));
    folded_inner_product(items(c), entries(a, n), entries(b, n), r, n);
    let left = |l: int| rq_mul(fa[l], fb[l]);
    let right = |l: int|
        rq_mul(
            folded_entry(items(c), entries(a, n), r, l),
            folded_entry(items(c), entries(b, n), r, l),
        );
    assert forall|l: int| 0 <= l < n implies #[trigger] left(l) == right(l) by {
        lemma_rq_sum_same(
            |i: int| rq_mul(c[i], a[i * n + l]),
            |i: int| rq_mul(items(c)(i), entries(a, n)(i, l)),
            r,
        );
        lemma_rq_sum_same(
            |i: int| rq_mul(c[i], b[i * n + l]),
            |i: int| rq_mul(items(c)(i), entries(b, n)(i, l)),
            r,
        );
    }
    lemma_rq_sum_same(left, right, n);
}

/// The squared folded vector is the quadratic form of the quadratic garbage terms.
proof fn lemma_quadratic_form(c: Seq<Rq>, s: Seq<Rq>, n: int)
    requires
        0 <= n,
    ensures
        ({
            let r = c.len() as int;
            rq_dot(fold_rows(c, s, n), fold_rows(c, s, n)) == upper_form(
                c,
                crate::layout::upper_rows(mat_mul_transposed(s, r, s, r, n), r, r),
                r,
            )
        }),
{
    let r = c.len() as int;
    let m = mat_mul_transposed(s, r, s, r, n);
    let g = crate::layout::upper_rows(m, r, r);
    let e = entries(s, n);
    let f = weighted_cross(items(c), e, e, n);
    lemma_dot_of_folded(c, s, s, n);
    assert forall|i: int, j: int| 0 <= i < r && 0 <= j < r implies #[trigger] f(i, j) == f(
        j,
        i,
    ) by {
        lemma_rq_mul_commutative(c[i], c[j]);
        let (x, y) = (|l: int| rq_mul(e(i, l), e(j, l)), |l: int| rq_mul(e(j, l), e(i, l)));
        assert forall|l: int| 0 <= l < n implies #[trigger] x(l) == y(l) by {
            lemma_rq_mul_commutative(e(i, l), e(j, l));
        }
        lemma_rq_sum_same(x, y, n);
    }
    assert forall|i: int| 0 <= i < r implies is_rq(#[trigger] f(i, i)) by {
        let (x, y) = (rq_mul(c[i], c[i]), cross(e, e, n, i, i));
        lemma_rq_new(|k: int| conv(x, y, k));
    }
    lemma_upper_pairs(f, r);
    let rows = |i: int| rq_sum(upper_doubles(f, i), r - i);
    let form = |i: int| upper_row_form(c, g, r, i, r - i);
    assert forall|i: int| 0 <= i < r implies #[trigger] rows(i) == form(i) by {
        let (x, y) = (upper_doubles(f, i), upper_terms(c, g, r, i));
        assert forall|d: int| 0 <= d < r - i implies #[trigger] x(d) == y(d) by {
            lemma_upper_rows_entry(m, r, r, i, d);
            lemma_products(s, s, r, n, i, i + d);
        }
        lemma_rq_sum_same(x, y, r - i);
    }
    lemma_rq_sum_same(rows, form, r);
}

/// Twice the inner product of the folded vectors and the folded witness is the quadratic form of
/// the linear garbage terms.
proof fn lemma_linear_form(c: Seq<Rq>, phi: Seq<Rq>, s: Seq<Rq>, n: int)
    requires
        0 <= n,
    ensures
        ({
            let r = c.len() as int;
            let dot = rq_dot(fold_rows(c, phi, n), fold_rows(c, s, n));
            rq_add(dot, dot) == lower_form(
                c,
                crate::layout::lower_rows(mat_mul_transposed(phi, r, s, r, n), r, r),
                r,
            )
        }),
{
    let r = c.len() as int;
    let m = mat_mul_transposed(phi, r, s, r, n);
    let h = crate::layout::lower_rows(m, r, r);
    let (ep, es) = (entries(phi, n), entries(s, n));
    let w = weighted_cross(items(c), ep, es, n);
    lemma_dot_of_folded(c, phi, s, n);
    let f = |i: int, j: int| rq_add(w(i, j), w(j, i));
    // The sum over all pairs of `w(i, j) + w(j, i)` is twice the sum of `w(i, j)`.
    let (plain, flipped) = (
        |i: int| rq_sum(|j: int| w(i, j), r),
        |i: int| rq_sum(|j: int| w(j, i), r),
    );
    let both = |i: int| rq_sum(|j: int| f(i, j), r);
    let summed = |i: int| rq_add(plain(i), flipped(i));
    assert forall|i: int| 0 <= i < r implies #[trigger] both(i) == summed(i) by {
        let (x, y) = (|j: int| w(i, j), |j: int| w(j, i));
        lemma_rq_sum_plus(x, y, r);
        lemma_rq_sum_same(|j: int| f(i, j), |j: int| rq_add(x(j), y(j)), r);
    }
    lemma_rq_sum_same(both, summed, r);
    lemma_rq_sum_plus(plain, flipped, r);
    crate::rq::lemma_rq_sum_swap(w, r, r);
    let renamed = |j: int| rq_sum(|i: int| w(i, j), r);
    assert forall|i: int| 0 <= i < r implies #[trigger] flipped(i) == renamed(i) by {
        lemma_rq_sum_same(|j: int| w(j, i), |j: int| w(j, i), r);
    }
    lemma_rq_sum_same(flipped, renamed, r);
    assert forall|i: int, j: int| 0 <= i < r && 0 <= j < r implies #[trigger] f(i, j) == f(
        j,
        i,
    ) by {
        lemma_rq_add_laws(w(i, j), w(j, i), rq_zero());
    }
    lemma_lower_pairs(f, r);
    let rows = |i: int| rq_sum(lower_doubles(f, i), i + 1);
    let form = |i: int| lower_row_form(c, h, i, i + 1);
    assert forall|i: int| 0 <= i < r implies #[trigger] rows(i) == form(i) by {
        let (x, y) = (lower_doubles(f, i), lower_terms(c, h, i));
        assert forall|j: int| 0 <= j < i + 1 implies #[trigger] x(j) == y(j) by {
            lemma_lower_rows_entry(m, r, r, i, j);
            lemma_products(phi, s, r, n, i, j);
            lemma_products(phi, s, r, n, j, i);
            let (mij, mji) = (cross(ep, es, n, i, j), cross(ep, es, n, j, i));
            lemma_rq_mul_add(rq_mul(c[i], c[j]), mij, mji);
            lemma_rq_mul_commutative(c[i], c[j]);
        }
        lemma_rq_sum_same(x, y, i + 1);
    }
    lemma_rq_sum_same(rows, form, r);
}

/// A witness vector satisfies the gadget relation: its first part holds the digits of the
/// weighted last part.
pub open spec fn row_satisfies_gadget(crs: LabradorCRS, rel: Relation, row: Seq<Rq>) -> bool {
    recomposed(rel.w_part(row), 1, rel.n_w, crs.b as int, 0) == rq_sum(
        |j: int| rq_mul(rel.a_eval[j], rel.s_part(row)[j]),
        rel.a_eval.len() as int,
    )
}

/// What an honest folding round produces: commitments to digits that recompose to what they are
/// digits of, and the witness vectors folded by the challenge. The matrices fit, and every
/// witness vector satisfies the gadget relation.
pub open spec fn is_honest_fold(
    crs: LabradorCRS,
    rel: Relation,
    rows: Seq<Vec<PolyRing>>,
    proof: LabradorProof,
    c: Seq<Rq>,
    psi: Seq<int>,
    phi: Seq<int>,
) -> bool {
    let (t, g, h) = (rqs(proof.t_flat@), rqs(proof.G_flat@), rqs(proof.H_flat@));
    let terms = quadratic_terms(crs, rows, rel);
    let n = rel.witness_len();
    &&& rel.n_w >= 0 && rel.n_t >= 0 && rel.a_eval.len() <= rel.n_s
    &&& rows_shaped(crs, rows, rel)
    &&& forall|i: int|
        0 <= i < rows.len() ==> row_satisfies_gadget(crs, rel, #[trigger] rqs(rows[i]@))
    &&& crs.k1 == crs.k2
    &&& first_commitment_fits(crs, t.len() as int, g.len() as int)
    &&& matmul_fits(crs.D_mat@.len() as int, crs.k1 as int, crs.d_width(), h.len() as int)
    &&& recomposed_commitments(crs, t) == inner_commitments(crs, rows, rel)
    &&& is_decomposition(g, terms, crs.t2 as int, crs.b2 as int)
    &&& is_decomposition(
        h,
        linear_terms(crs, rows, rel, packed(phi)),
        crs.t1 as int,
        crs.b1 as int,
    )
    &&& weights_fit(psi.len() as int, crs.num_aggregs as int, terms.len() as int)
    &&& vectors_fit(phi.len() as int, crs.r as int, n)
    &&& rqs(proof.u_1@) == first_commitment(crs, t, g)
    &&& rqs(proof.b_agg@) == mat_vec(
        packed(psi),
        crs.num_aggregs as int,
        terms.len() as int,
        terms,
    )
    &&& rqs(proof.u_2@) == mat_vec(rqs(crs.D_mat@), crs.k1 as int, crs.d_width(), h)
    &&& c.len() == crs.r
    &&& rqs(proof.z_folded@) == fold_rows(c, flat_rows(rows, rel), n)
}

/// An entry of the flat witness vectors.
proof fn lemma_flat_entry(rows: Seq<Vec<PolyRing>>, lo: int, hi: int, i: int, l: int)
    requires
        0 <= lo,
        0 <= i < rows.len(),
        0 <= l < hi - lo,
    ensures
        0 <= i * (hi - lo) + l < flat_columns(rows, lo, hi).len(),
        flat_columns(rows, lo, hi)[i * (hi - lo) + l] == rows[i]@[lo + l]@,
{
    lemma_flat_index(i, l, rows.len() as int, hi - lo);
}

/// The folded inner commitments commit to the last part of the folded vector.
proof fn lemma_fold_commitments(
    crs: LabradorCRS,
    rel: Relation,
    rows: Seq<Vec<PolyRing>>,
    c: Seq<Rq>,
)
    requires
        rel.n_w >= 0,
        rel.n_t >= 0,
        rows_shaped(crs, rows, rel),
        c.len() == crs.r,
    ensures
        mat_vec(
            rel.A_ajtai,
            crs.k as int,
            rel.n_s,
            rel.s_part(fold_rows(c, flat_rows(rows, rel), rel.witness_len())),
        ) == fold_rows(c, inner_commitments(crs, rows, rel), crs.k as int),
{
    let (r, k, w, n) = (crs.r as int, crs.k as int, rel.n_s, rel.witness_len());
    let offset = rel.n_w + rel.n_t;
    let s = flat_rows(rows, rel);
    let z = fold_rows(c, s, n);
    let t = inner_commitments(crs, rows, rel);
    let last = flat_columns(rows, offset, n);
    let left = mat_vec(rel.A_ajtai, k, w, rel.s_part(z));
    let right = fold_rows(c, t, k);
    assert(last.len() == r * w);
    assert forall|j: int| 0 <= j < k implies #[trigger] left[j] == right[j] by {
        let aa = |l: int| rel.A_ajtai[j * w + l];
        let ca = |i: int| c[i];
        let sa = |i: int, l: int| rows[i]@[offset + l]@;
        folding_commutes(aa, ca, sa, r, w);
        let x = |l: int| rq_mul(rel.A_ajtai[j * w + l], rel.s_part(z)[l]);
        let y = |l: int| rq_mul(aa(l), rq_sum(|i: int| rq_mul(ca(i), sa(i, l)), r));
        assert forall|l: int| 0 <= l < w implies #[trigger] x(l) == y(l) by {
            assert(rel.s_part(z)[l] == z[offset + l]);
            let (u, v) = (
                |i: int| rq_mul(c[i], s[i * n + (offset + l)]),
                |i: int| rq_mul(ca(i), sa(i, l)),
            );
            assert forall|i: int| 0 <= i < r implies #[trigger] u(i) == v(i) by {
                lemma_flat_entry(rows, 0, n, i, offset + l);
            }
            lemma_rq_sum_same(u, v, r);
        }
        lemma_rq_sum_same(x, y, w);
        let p = |i: int| rq_mul(ca(i), rq_sum(|l: int| rq_mul(aa(l), sa(i, l)), w));
        let q = |i: int| rq_mul(c[i], t[i * k + j]);
        assert forall|i: int| 0 <= i < r implies #[trigger] p(i) == q(i) by {
            lemma_flat_index(i, j, r, k);
            lemma_flat_index(j, i, k, r);
            assert(t[i * k + j] == row_product(rel.A_ajtai, j, last, i, w));
            let (u, v) = (
                |l: int| rq_mul(rel.A_ajtai[j * w + l], last[i * w + l]),
                |l: int| rq_mul(aa(l), sa(i, l)),
            );
            assert forall|l: int| 0 <= l < w implies #[trigger] u(l) == v(l) by {
                lemma_flat_entry(rows, offset, n, i, l);
            }
            lemma_rq_sum_same(u, v, w);
        }
        lemma_rq_sum_same(p, q, r);
    }
    assert(left =~= right);
}

/// The folded vector satisfies the gadget relation if every witness vector does.
proof fn lemma_fold_gadget(
    crs: LabradorCRS,
    rel: Relation,
    rows: Seq<Vec<PolyRing>>,
    c: Seq<Rq>,
)
    requires
        rel.n_w >= 0,
        rel.n_t >= 0,
        rel.a_eval.len() <= rel.n_s,
        rows_shaped(crs, rows, rel),
        c.len() == crs.r,
        forall|i: int|
            0 <= i < rows.len() ==> row_satisfies_gadget(crs, rel, #[trigger] rqs(rows[i]@)),
    ensures
        row_satisfies_gadget(crs, rel, fold_rows(c, flat_rows(rows, rel), rel.witness_len())),
{
    let (r, n, nw, na) = (crs.r as int, rel.witness_len(), rel.n_w, rel.a_eval.len() as int);
    let b = crs.b as int;
    let offset = rel.n_w + rel.n_t;
    let s = flat_rows(rows, rel);
    let z = fold_rows(c, s, n);
    let ca = |i: int| c[i];
    // Digits: the powers of the base are weights.
    let pa = |k: int| rq_const(zq_pow(b, k as nat));
    let sw = |i: int, k: int| rows[i]@[k]@;
    folding_commutes(pa, ca, sw, r, nw);
    let digit = |k: int| rq_scale(rel.w_part(z)[k * 1 + 0], zq_pow(b, k as nat));
    let digit2 = |k: int| rq_mul(pa(k), rq_sum(|i: int| rq_mul(ca(i), sw(i, k)), r));
    assert forall|k: int| 0 <= k < nw implies #[trigger] digit(k) == digit2(k) by {
        let (u, v) = (
            |i: int| rq_mul(c[i], s[i * n + k]),
            |i: int| rq_mul(ca(i), sw(i, k)),
        );
        assert forall|i: int| 0 <= i < r implies #[trigger] u(i) == v(i) by {
            lemma_flat_entry(rows, 0, n, i, k);
        }
        lemma_rq_sum_same(u, v, r);
        assert(rel.w_part(z)[k] == z[k]);
        lemma_rq_scale_is_mul(z[k], zq_pow(b, k as nat));
    }
    lemma_rq_sum_same(digit, digit2, nw);
    // Weighted entries.
    let aa = |j: int| rel.a_eval[j];
    let sl = |i: int, j: int| rows[i]@[offset + j]@;
    folding_commutes(aa, ca, sl, r, na);
    let entry = |j: int| rq_mul(rel.a_eval[j], rel.s_part(z)[j]);
    let entry2 = |j: int| rq_mul(aa(j), rq_sum(|i: int| rq_mul(ca(i), sl(i, j)), r));
    assert forall|j: int| 0 <= j < na implies #[trigger] entry(j) == entry2(j) by {
        let (u, v) = (
            |i: int| rq_mul(c[i], s[i * n + (offset + j)]),
            |i: int| rq_mul(ca(i), sl(i, j)),
        );
        assert forall|i: int| 0 <= i < r implies #[trigger] u(i) == v(i) by {
            lemma_flat_entry(rows, 0, n, i, offset + j);
        }
        lemma_rq_sum_same(u, v, r);
        assert(rel.s_part(z)[j] == z[offset + j]);
    }
    lemma_rq_sum_same(entry, entry2, na);
    // Both sides agree for each witness vector.
    let x = |i: int| rq_mul(ca(i), rq_sum(|k: int| rq_mul(pa(k), sw(i, k)), nw));
    let y = |i: int| rq_mul(ca(i), rq_sum(|j: int| rq_mul(aa(j), sl(i, j)), na));
    assert forall|i: int| 0 <= i < r implies #[trigger] x(i) == y(i) by {
        let row = rqs(rows[i]@);
        assert(row_satisfies_gadget(crs, rel, row));
        let (u, v) = (
            |k: int| rq_scale(rel.w_part(row)[k * 1 + 0], zq_pow(b, k as nat)),
            |k: int| rq_mul(pa(k), sw(i, k)),
        );
        assert forall|k: int| 0 <= k < nw implies #[trigger] u(k) == v(k) by {
            assert(rel.w_part(row)[k] == row[k]);
            lemma_rq_scale_is_mul(row[k], zq_pow(b, k as nat));
        }
        lemma_rq_sum_same(u, v, nw);
        let (p, q) = (
            |j: int| rq_mul(rel.a_eval[j], rel.s_part(row)[j]),
            |j: int| rq_mul(aa(j), sl(i, j)),
        );
        assert forall|j: int| 0 <= j < na implies #[trigger] p(j) == q(j) by {
            assert(rel.s_part(row)[j] == row[offset + j]);
        }
        lemma_rq_sum_same(p, q, na);
    }
    lemma_rq_sum_same(x, y, r);
}

/// The verifier accepts an honest folding round: both blocks of checks succeed, for any witness
/// vectors that satisfy the gadget relation, any digits that recompose to what they are digits
/// of, and any challenge and samples.
pub proof fn honest_fold_is_accepted(
    crs: LabradorCRS,
    rel: Relation,
    rows: Seq<Vec<PolyRing>>,
    proof: LabradorProof,
    c: Seq<Rq>,
    psi: Seq<int>,
    phi: Seq<int>,
)
    requires
        is_honest_fold(crs, rel, rows, proof, c, psi, phi),
    ensures
        opening_checks(crs, proof, rel, c) == Ok::<bool, GreyhoundError>(true),
        ({
            let g = recompose(rqs(proof.G_flat@), crs.pairs(), crs.t2 as int, crs.b2 as int);
            sampled_checks(crs, proof, rel, c, g, psi, phi) == Ok::<bool, GreyhoundError>(true)
        }),
{
    let (r, n) = (crs.r as int, rel.witness_len());
    let s = flat_rows(rows, rel);
    let z = fold_rows(c, s, n);
    let terms = quadratic_terms(crs, rows, rel);
    let linear = linear_terms(crs, rows, rel, packed(phi));
    lemma_upper_count(r);
    lemma_lower_count(r);
    crate::layout::lemma_upper_rows_len(mat_mul_transposed(s, r, s, r, n), r, r);
    crate::layout::lemma_lower_rows_len(
        mat_mul_transposed(packed(phi), r, s, r, n),
        r,
        r,
    );
    assert(terms.len() == crs.pairs());
    assert(linear.len() == crs.pairs());
    lemma_fold_commitments(crs, rel, rows, c);
    lemma_fold_gadget(crs, rel, rows, c);
    lemma_quadratic_form(c, s, n);
    lemma_linear_form(c, packed(phi), s, n);
    assert(crs.t1 * crs.pairs() == crs.pairs() * crs.t1) by (nonlinear_arith);
}

/// The verifier of an honest folding round draws the challenges that the prover drew, accepts
/// the first block of checks and asks for the samples that the prover used, as long as all
/// projections are below the norm bound.
pub proof fn folding_transcript_is_replayed(
    crs: LabradorCRS,
    rel: Relation,
    rows: Seq<Vec<PolyRing>>,
    proof: LabradorProof,
    t: Transcript,
    psi: Seq<int>,
    phi: Seq<int>,
)
    requires
        ({
            let (m1, m2, m3, m4) = fold_messages(proof);
            let seeds = fold_seeds(t, m1, m2, m3, m4);
            is_honest_fold(
                crs,
                rel,
                rows,
                proof,
                drawn_challenges(seeds.c, crs.r as int).0,
                psi,
                phi,
            )
        }),
        !projection_too_large(crs, zqs(proof.p@)),
    ensures
        ({
            let (m1, m2, m3, m4) = fold_messages(proof);
            let seeds = fold_seeds(t, m1, m2, m3, m4);
            let g = recompose(rqs(proof.G_flat@), crs.pairs(), crs.t2 as int, crs.b2 as int);
            fold_reading(crs, proof, rel, t, m1 + m2 + m3 + m4).decision == Ok::<
                RoundDecision,
                GreyhoundError,
            >(
                RoundDecision::Sample {
                    psi_seed: seeds.psi,
                    phi_seed: seeds.phi,
                    c: drawn_challenges(seeds.c, crs.r as int).0,
                    g,
                },
            )
        }),
{
    let (m1, m2, m3, m4) = fold_messages(proof);
    let seeds = fold_seeds(t, m1, m2, m3, m4);
    let c = drawn_challenges(seeds.c, crs.r as int).0;
    honest_fold_is_accepted(crs, rel, rows, proof, c, psi, phi);
    let unread = m1 + m2 + m3 + m4;
    let e1 = m1.len() as int;
    let e2 = e1 + m2.len();
    let e3 = e2 + m3.len();
    assert(unread.take(e1) =~= m1);
    assert(unread.skip(e1).take(m2.len() as int) =~= m2);
    assert(unread.skip(e2).take(m3.len() as int) =~= m3);
    assert(unread.skip(e3).take(m4.len() as int) =~= m4);
}

/// What the prover's steps return is an honest folding round: from witness vectors that satisfy
/// the gadget relation, digits that recompose to what they are digits of, and any samples, the
/// steps make a proof whose checks succeed. The seeds that the steps draw are those that answer
/// the messages in the proof, and the transcript holds these messages.
pub proof fn folding_steps_are_honest(
    crs: LabradorCRS,
    rel: Relation,
    rows: Seq<Vec<PolyRing>>,
    start: FoldStart,
    t_flat: Vec<PolyRing>,
    g_flat: Vec<PolyRing>,
    projection: FoldProjection,
    p: Vec<Zq>,
    aggregation: FoldAggregation,
    psi: Seq<int>,
    linear: FoldLinear,
    phi: Seq<int>,
    close: FoldClose,
    h_flat: Vec<PolyRing>,
    proof: LabradorProof,
    t: Transcript,
)
    requires
        rel.n_w >= 0 && rel.n_t >= 0 && rel.a_eval.len() <= rel.n_s,
        crs.k1 == crs.k2,
        rows_shaped(crs, rows, rel),
        forall|i: int|
            0 <= i < rows.len() ==> row_satisfies_gadget(crs, rel, #[trigger] rqs(rows[i]@)),
        is_fold_start(start, crs, rows, rel),
        recomposed_commitments(crs, rqs(t_flat@)) == rqs(start.t@),
        is_decomposition(rqs(g_flat@), rqs(start.g@), crs.t2 as int, crs.b2 as int),
        first_commitment_fits(crs, t_flat@.len() as int, g_flat@.len() as int),
        is_fold_projection(projection, crs, start, t_flat, g_flat, t),
        ({
            let (m1, m2, m3, m4) = fold_messages(proof);
            let t1 = exchange(t, m1);
            let t2 = exchange(t1, m2);
            let t3 = exchange(t2, m3);
            &&& is_fold_aggregation(aggregation, projection, p, t1)
            &&& is_fold_linear(linear, crs, aggregation, psi, t2)
            &&& is_fold_proof(proof, crs, rows, rel, close, h_flat, t3)
        }),
        weights_fit(psi.len() as int, crs.num_aggregs as int, start.g@.len() as int),
        is_fold_close(close, crs, rows, rel, linear, phi),
        vectors_fit(phi.len() as int, crs.r as int, rel.witness_len()),
        is_decomposition(rqs(h_flat@), rqs(close.h@), crs.t1 as int, crs.b1 as int),
        matmul_fits(
            crs.D_mat@.len() as int,
            crs.k1 as int,
            crs.d_width(),
            h_flat@.len() as int,
        ),
    ensures
        ({
            let (m1, m2, m3, m4) = fold_messages(proof);
            let seeds = fold_seeds(t, m1, m2, m3, m4);
            &&& projection.seed@ == seeds.pi
            &&& aggregation.seed@ == seeds.psi
            &&& linear.seed@ == seeds.phi
            &&& is_honest_fold(
                crs,
                rel,
                rows,
                proof,
                drawn_challenges(seeds.c, crs.r as int).0,
                psi,
                phi,
            )
        }),
{
    let (m1, m2, m3, m4) = fold_messages(proof);
    let seeds = fold_seeds(t, m1, m2, m3, m4);
    longer_request_appends(seeds.c, crs.r as int, crs.r as int);
    assert(rqs(start.g@).len() == start.g@.len());
    assert(rqs(t_flat@).len() == t_flat@.len());
    assert(rqs(g_flat@).len() == g_flat@.len());
    assert(rqs(h_flat@).len() == h_flat@.len());
}

/// A folding round is bound to its transcript: where the transcript is long enough and does not
/// start with the messages in the proof, the proof is rejected.
pub proof fn foreign_fold_transcript_is_rejected(
    crs: LabradorCRS,
    rel: Relation,
    proof: LabradorProof,
    t: Transcript,
    unread: Seq<u8>,
)
    requires
        ({
            let (m1, m2, m3, m4) = fold_messages(proof);
            let messages = m1 + m2 + m3 + m4;
            unread.len() >= messages.len() && unread.take(messages.len() as int) != messages
        }),
    ensures
        fold_reading(crs, proof, rel, t, unread).decision == Ok::<RoundDecision, GreyhoundError>(
            RoundDecision::Decided(false),
        ),
{
    let (m1, m2, m3, m4) = fold_messages(proof);
    let e1 = m1.len() as int;
    let e2 = e1 + m2.len();
    let e3 = e2 + m3.len();
    let e4 = e3 + m4.len();
    if unread.take(e1) == m1 && unread.skip(e1).take(m2.len() as int) == m2 && unread.skip(e2).take(
        m3.len() as int,
    ) == m3 && unread.skip(e3).take(m4.len() as int) == m4 {
        assert forall|i: int| 0 <= i < e4 implies #[trigger] unread[i] == (m1 + m2 + m3 + m4)[i] by {
            if i < e1 {
                assert(unread.take(e1)[i] == unread[i]);
            } else if i < e2 {
                assert(unread.skip(e1).take(m2.len() as int)[i - e1] == unread[i]);
            } else if i < e3 {
                assert(unread.skip(e2).take(m3.len() as int)[i - e2] == unread[i]);
            } else {
                assert(unread.skip(e3).take(m4.len() as int)[i - e3] == unread[i]);
            }
        }
        assert(unread.take(e4) =~= m1 + m2 + m3 + m4);
    }
}

} // verus!
