//! Honest proofs are accepted.
use vstd::prelude::*;

use crate::commit::{chunk, chunks, column_commitments, CommitReturn, PublicParams};
use crate::error::GreyhoundError;
use crate::eval::{
    column_weights, constant_term_is_value, entry_weights, lemma_pow_add, sigma_denominator,
    sigma_inverse_undoes_sigma, weighted_chunks,
};
use crate::eval_check::{evaluation_decision, recovered_seed};
use crate::fiat_shamir::statement_bytes;
use crate::folding_check::RoundDecision;
use crate::labrador::{LabradorCRS, Relation};
use crate::layout::regroup;
use crate::linalg::{
    fold_rows, is_decomposition, lemma_flat_index, mat_vec, recompose, recomposed, row_product,
    vec_add,
};
use crate::norm::vec_norm_sq;
use crate::params::GreyhoundTranscriptParams;
use crate::poly::rqs;
use crate::prover::{
    column_values, full_chunks, is_committed, is_proof, is_start, relation_for, relation_witness,
    start_refusal, EvalCommitted, EvalStart, ProverProof,
};
use crate::rq::{
    lemma_rq_add_zero, lemma_rq_mul_exchange, lemma_rq_scale_is_mul, lemma_rq_scale_laws,
    lemma_rq_sum_blocks, lemma_rq_sum_mul, lemma_rq_sum_same, lemma_rq_sum_scale,
    lemma_rq_sum_split, lemma_rq_sum_swap, lemma_rq_sum_valid, lemma_rq_sum_zero, rq_const, rq_dot,
    rq_mul, rq_scale, rq_sum, rq_zero, Rq,
};
use crate::zq::{is_unit, zq_pow};

verus! {

/// Folding commutes with an inner product: weighting the rows first and folding the results is
/// the same as folding the rows and weighting the result.
pub proof fn folding_commutes(
    a: spec_fn(int) -> Rq,
    c: spec_fn(int) -> Rq,
    s: spec_fn(int, int) -> Rq,
    r: int,
    w: int,
)
    ensures
        rq_sum(|i: int| rq_mul(c(i), rq_sum(|j: int| rq_mul(a(j), s(i, j)), w)), r) == rq_sum(
            |j: int| rq_mul(a(j), rq_sum(|i: int| rq_mul(c(i), s(i, j)), r)),
            w,
        ),
{
    let t = |i: int, j: int| rq_mul(c(i), rq_mul(a(j), s(i, j)));
    let left = |i: int| rq_mul(c(i), rq_sum(|j: int| rq_mul(a(j), s(i, j)), w));
    let left2 = |i: int| rq_sum(|j: int| t(i, j), w);
    assert forall|i: int| 0 <= i < r implies #[trigger] left(i) == left2(i) by {
        let row = |j: int| rq_mul(a(j), s(i, j));
        lemma_rq_sum_mul(c(i), row, w);
        lemma_rq_sum_same(|j: int| rq_mul(c(i), row(j)), |j: int| t(i, j), w);
    }
    lemma_rq_sum_same(left, left2, r);
    lemma_rq_sum_swap(t, r, w);
    let right = |j: int| rq_mul(a(j), rq_sum(|i: int| rq_mul(c(i), s(i, j)), r));
    let right2 = |j: int| rq_sum(|i: int| t(i, j), r);
    assert forall|j: int| 0 <= j < w implies #[trigger] right2(j) == right(j) by {
        let col = |i: int| rq_mul(c(i), s(i, j));
        lemma_rq_sum_mul(a(j), col, r);
        let scaled = |i: int| rq_mul(a(j), col(i));
        let column = |i: int| t(i, j);
        assert forall|i: int| 0 <= i < r implies #[trigger] scaled(i) == column(i) by {
            lemma_rq_mul_exchange(a(j), c(i), s(i, j));
        }
        lemma_rq_sum_same(scaled, column, r);
    }
    lemma_rq_sum_same(right2, right, w);
}

/// The place of digit `k` of entry `j` of vector `i` after regrouping.
pub proof fn lemma_regroup_entry<T>(
    d: Seq<T>,
    count: int,
    groups: int,
    width: int,
    i: int,
    k: int,
    j: int,
)
    requires
        0 <= i < groups,
        0 <= k < count,
        0 <= j < width,
    ensures
        0 <= i * (count * width) + (k * width + j) < groups * (count * width),
        regroup(d, count, groups, width)[i * (count * width) + (k * width + j)] == d[k * (groups
            * width) + (i * width + j)],
{
    lemma_flat_index(k, j, count, width);
    lemma_flat_index(i, k * width + j, groups, count * width);
    assert((k * groups + i) * width + j == k * (groups * width) + (i * width + j))
        by (nonlinear_arith);
}

/// Recomposing a vector out of its own digits gives the same values as recomposing all vectors
/// together.
pub proof fn regrouped_digits_recompose(
    d: Seq<Rq>,
    count: int,
    groups: int,
    width: int,
    base: int,
    i: int,
    j: int,
)
    requires
        0 <= count,
        0 <= i < groups,
        0 <= j < width,
    ensures
        recomposed(
            regroup(d, count, groups, width).subrange(
                i * (count * width),
                i * (count * width) + count * width,
            ),
            width,
            count,
            base,
            j,
        ) == recomposed(d, groups * width, count, base, i * width + j),
{
    let cw = count * width;
    let g = regroup(d, count, groups, width);
    assert(0 <= cw) by (nonlinear_arith)
        requires
            0 <= count,
            0 <= width,
            cw == count * width,
    ;
    assert(0 <= i * cw && i * cw + cw <= groups * cw) by (nonlinear_arith)
        requires
            0 <= i < groups,
            0 <= cw,
    ;
    let block = g.subrange(i * cw, i * cw + cw);
    let f = |k: int| rq_scale(block[k * width + j], zq_pow(base, k as nat));
    let h = |k: int| rq_scale(d[k * (groups * width) + (i * width + j)], zq_pow(base, k as nat));
    assert forall|k: int| 0 <= k < count implies #[trigger] f(k) == h(k) by {
        lemma_regroup_entry(d, count, groups, width, i, k, j);
        lemma_flat_index(k, j, count, width);
    }
    lemma_rq_sum_same(f, h, count);
}

/// A constant times an element.
proof fn lemma_const_mul(c: int, a: Rq)
    ensures
        rq_mul(rq_const(c), a) == rq_scale(a, c),
{
    lemma_rq_scale_is_mul(a, c);
}

/// The weighted entries of one decomposed column are its entries, weighted by powers of `x^64`.
proof fn lemma_column_value(
    p: GreyhoundTranscriptParams,
    x: int,
    digits: Seq<Rq>,
    cells: Seq<Rq>,
    i: int,
)
    requires
        p.supported(),
        0 <= i < p.r,
        cells.len() == p.cells(),
        is_decomposition(digits, cells, p.delta0 as int, p.base0()),
    ensures
        column_values(
            p,
            x,
            regroup(digits, p.delta0 as int, p.r as int, p.m as int),
        )[i] == rq_sum(
            |j: int| rq_scale(cells[i * p.m + j], zq_pow(x, (64 * j) as nat)),
            p.m as int,
        ),
{
    let (d0, m, r, b0) = (p.delta0 as int, p.m as int, p.r as int, p.base0());
    let w = p.a_width();
    let s = regroup(digits, d0, r, m);
    let a = entry_weights(p, x);
    p.lemma_widths();
    assert(1 * r == r);
    assert(0 * w == 0);
    vstd::arithmetic::div_mod::lemma_small_mod(i as nat, r as nat);
    vstd::arithmetic::div_mod::lemma_basic_div(i, r);
    let term = |l: int| rq_mul(a[0 * w + l], s[i * w + l]);
    assert(column_values(p, x, s)[i] == rq_sum(term, w));
    lemma_rq_sum_blocks(term, d0, m);
    let cell = |k: int, j: int|
        rq_scale(
            rq_scale(digits[k * (r * m) + (i * m + j)], zq_pow(b0, k as nat)),
            zq_pow(x, (64 * j) as nat),
        );
    let rows = |k: int| rq_sum(|j: int| term(k * m + j), m);
    let rows2 = |k: int| rq_sum(|j: int| cell(k, j), m);
    assert forall|k: int| 0 <= k < d0 implies #[trigger] rows(k) == rows2(k) by {
        let terms = |j: int| term(k * m + j);
        let row = |j: int| cell(k, j);
        assert forall|j: int| 0 <= j < m implies #[trigger] terms(j) == row(j) by {
            lemma_regroup_entry(digits, d0, r, m, i, k, j);
            lemma_flat_index(k, j, d0, m);
            let (px, pb) = (zq_pow(x, (64 * j) as nat), zq_pow(b0, k as nat));
            let e = digits[k * (r * m) + (i * m + j)];
            lemma_const_mul(px * pb, e);
            lemma_rq_scale_laws(e, pb, px);
            assert(px * pb == pb * px) by (nonlinear_arith);
        }
        lemma_rq_sum_same(terms, row, m);
    }
    lemma_rq_sum_same(rows, rows2, d0);
    lemma_rq_sum_swap(cell, d0, m);
    let cols = |j: int| rq_sum(|k: int| cell(k, j), d0);
    let target = |j: int| rq_scale(cells[i * m + j], zq_pow(x, (64 * j) as nat));
    assert(r * m == p.cells()) by (nonlinear_arith)
        requires
            r == p.r,
            m == p.m,
            p.cells() == p.m * p.r,
    ;
    assert forall|j: int| 0 <= j < m implies #[trigger] cols(j) == target(j) by {
        let px = zq_pow(x, (64 * j) as nat);
        let digit = |k: int|
            rq_scale(digits[k * (r * m) + (i * m + j)], zq_pow(b0, k as nat));
        lemma_rq_sum_scale(px, digit, d0);
        lemma_rq_sum_same(|k: int| cell(k, j), |k: int| rq_scale(digit(k), px), d0);
        lemma_flat_index(i, j, r, m);
        assert(recompose(digits, p.cells(), d0, b0)[i * m + j] == cells[i * m + j]);
        lemma_rq_sum_same(
            digit,
            |k: int| rq_scale(digits[k * p.cells() + (i * m + j)], zq_pow(b0, k as nat)),
            d0,
        );
    }
    lemma_rq_sum_same(cols, target, m);
}

/// The inner products, weighted by the column weights, add up to the weighted chunks.
pub proof fn column_values_add_up(
    p: GreyhoundTranscriptParams,
    x: int,
    raw: Seq<u32>,
    digits: Seq<Rq>,
)
    requires
        p.supported(),
        raw.len() == 64 * full_chunks(p),
        is_decomposition(digits, chunks(raw, p), p.delta0 as int, p.base0()),
    ensures
        rq_dot(
            column_weights(p, x),
            column_values(p, x, regroup(digits, p.delta0 as int, p.r as int, p.m as int)),
        ) == weighted_chunks(raw, x, full_chunks(p)),
{
    let (m, r) = (p.m as int, p.r as int);
    let cells = chunks(raw, p);
    let s = regroup(digits, p.delta0 as int, r, m);
    let w = column_values(p, x, s);
    let b = column_weights(p, x);
    let g = |l: int| rq_scale(chunk(raw, l), zq_pow(x, (64 * l) as nat));
    let term = |i: int| rq_mul(b[i], w[i]);
    let rows = |i: int| rq_sum(|j: int| g(i * m + j), m);
    assert forall|i: int| 0 <= i < r implies #[trigger] term(i) == rows(i) by {
        lemma_column_value(p, x, digits, cells, i);
        let pi = zq_pow(x, (64 * (m * i)) as nat);
        let entry = |j: int| rq_scale(cells[i * m + j], zq_pow(x, (64 * j) as nat));
        lemma_const_mul(pi, w[i]);
        lemma_rq_sum_scale(pi, entry, m);
        let scaled = |j: int| rq_scale(entry(j), pi);
        let block = |j: int| g(i * m + j);
        assert forall|j: int| 0 <= j < m implies #[trigger] scaled(j) == block(j) by {
            let pj = zq_pow(x, (64 * j) as nat);
            lemma_flat_index(i, j, r, m);
            assert(r * m == p.cells()) by (nonlinear_arith)
                requires
                    r == p.r,
                    m == p.m,
                    p.cells() == p.m * p.r,
            ;
            let f = chunk(raw, i * m + j);
            lemma_rq_scale_laws(f, pj, pi);
            lemma_rq_scale_laws(f, pj * pi, 1);
            assert(0 <= m * i) by (nonlinear_arith)
                requires
                    0 <= m,
                    0 <= i,
            ;
            lemma_pow_add(x, (64 * j) as nat, (64 * (m * i)) as nat);
            assert(64 * j + 64 * (m * i) == 64 * (i * m + j)) by (nonlinear_arith);
        }
        lemma_rq_sum_same(scaled, block, m);
    }
    lemma_rq_sum_same(term, rows, r);
    lemma_rq_sum_blocks(g, r, m);
    assert(r * m == p.cells()) by (nonlinear_arith)
        requires
            r == p.r,
            m == p.m,
            p.cells() == p.m * p.r,
    ;
    // The cells past the last chunk are zero.
    let n = full_chunks(p);
    let rest = p.cells() - n;
    lemma_rq_sum_split(g, n, rest);
    let tail = |j: int| g(n + j);
    assert forall|j: int| 0 <= j < rest implies #[trigger] tail(j) == rq_zero() by {
        assert(chunk(raw, n + j) =~= rq_zero());
        lemma_rq_scale_laws(rq_zero(), zq_pow(x, (64 * (n + j)) as nat), 1);
    }
    lemma_rq_sum_zero(tail, rest);
    lemma_rq_sum_valid(g, n);
    lemma_rq_add_zero(rq_sum(g, n));
}

/// A commitment to a polynomial, made with digits that recompose to the chunks and to the
/// column commitments.
pub open spec fn is_commitment(
    p: GreyhoundTranscriptParams,
    pp: PublicParams,
    raw: Seq<u32>,
    s_digits: Seq<Rq>,
    t_digits: Seq<Rq>,
    commit: CommitReturn,
) -> bool {
    let s = rqs(commit.s@);
    let t_hat = rqs(commit.t_hat_concat@);
    &&& is_decomposition(s_digits, chunks(raw, p), p.delta0 as int, p.base0())
    &&& s == regroup(s_digits, p.delta0 as int, p.r as int, p.m as int)
    &&& is_decomposition(
        t_digits,
        column_commitments(p, rqs(pp.A@), s),
        p.delta as int,
        p.base1(),
    )
    &&& t_hat == regroup(t_digits, p.delta as int, p.r as int, p.nrows as int)
    &&& rqs(commit.u@) == mat_vec(rqs(pp.B@), p.nrows as int, p.b_width(), t_hat)
}

/// The lengths of an honest witness and relation fit together.
proof fn lemma_relation_shape(
    p: GreyhoundTranscriptParams,
    pp: PublicParams,
    u: Seq<Rq>,
    x: int,
    v: Seq<Rq>,
    target: Rq,
    c: Seq<Rq>,
    z: Seq<Rq>,
)
    requires
        p.supported(),
        pp.shaped(p),
        u.len() == p.nrows,
        v.len() == p.nrows,
        c.len() == p.r,
        z.len() == p.d_width() + p.b_width() + p.a_width(),
    ensures
        ({
            let rel = relation_for(p, pp, u, x, v, target, c);
            &&& rel.shaped(z.len() as int)
            &&& rel.columns() == p.r
            &&& rel.n_w / rel.columns() == p.delta
            &&& rel.t_width() == p.t_width()
            &&& rel.t_width() % rel.n_commit == 0
            &&& rel.t_width() / rel.n_commit == p.delta
            &&& rel.h_v() == v
            &&& rel.h_u() == u
            &&& rel.h_y() == target
            &&& rel.h_fold() == rq_zero()
            &&& rel.h_rows() == Seq::new(p.nrows as nat, |i: int| rq_zero())
        }),
{
    let rel = relation_for(p, pp, u, x, v, target, c);
    let (r, d, n) = (p.r as int, p.delta as int, p.nrows as int);
    p.lemma_widths();
    assert(d * r == r * d + 0) by (nonlinear_arith);
    vstd::arithmetic::div_mod::lemma_fundamental_div_mod_converse(d * r, r, d, 0);
    assert(p.t_width() * r == r * p.t_width() + 0) by (nonlinear_arith);
    vstd::arithmetic::div_mod::lemma_fundamental_div_mod_converse(
        p.b_width(),
        r,
        p.t_width(),
        0,
    );
    vstd::arithmetic::div_mod::lemma_fundamental_div_mod_converse(p.t_width(), n, d, 0);
    assert(rel.h_target.len() == 3 * n + 2);
    assert(rel.h_v() =~= v);
    assert(rel.h_u() =~= u);
    assert(rel.h_rows() =~= Seq::new(n as nat, |i: int| rq_zero()));
}

/// The folded column commitments of an honest witness commit to the folded column.
proof fn lemma_commitment_rows(
    p: GreyhoundTranscriptParams,
    pp: PublicParams,
    rel: Relation,
    w_hat: Seq<Rq>,
    t_digits: Seq<Rq>,
    s: Seq<Rq>,
    c: Seq<Rq>,
)
    requires
        p.supported(),
        pp.shaped(p),
        c.len() == p.r,
        s.len() == p.r * p.a_width(),
        w_hat.len() == p.d_width(),
        is_decomposition(
            t_digits,
            column_commitments(p, rqs(pp.A@), s),
            p.delta as int,
            p.base1(),
        ),
        rel.c_eval == c,
        rel.A_ajtai == rqs(pp.A@),
        rel.n_w == p.d_width() && rel.n_t == p.b_width() && rel.n_s == p.a_width(),
        rel.n_commit == p.nrows,
        rel.t_width() == p.t_width(),
        rel.t_width() / rel.n_commit == p.delta,
        rel.h_rows() == Seq::new(p.nrows as nat, |i: int| rq_zero()),
    ensures
        rel.row_commit(
            p.base1(),
            relation_witness(
                p,
                w_hat,
                regroup(t_digits, p.delta as int, p.r as int, p.nrows as int),
                s,
                c,
            ),
        ),
{
    let (r, d, n, w) = (p.r as int, p.delta as int, p.nrows as int, p.a_width());
    let a = rqs(pp.A@);
    let t = column_commitments(p, a, s);
    let t_hat = regroup(t_digits, d, r, n);
    let folded = fold_rows(c, s, w);
    let z = relation_witness(p, w_hat, t_hat, s, c);
    p.lemma_widths();
    assert(n * d == d * n) by (nonlinear_arith);
    assert(r * (d * n) == p.b_width()) by (nonlinear_arith)
        requires
            p.b_width() == n * d * r,
    ;
    assert(rel.t_part(z) =~= t_hat);
    assert(rel.s_part(z) =~= folded);
    let left = rel.folded_commitments(p.base1(), z);
    let right = vec_add(mat_vec(a, n, w, folded), rel.h_rows());
    assert forall|row: int| 0 <= row < n implies #[trigger] left[row] == right[row] by {
        let ca = |i: int| c[i];
        let aa = |j: int| a[row * w + j];
        let sa = |i: int, j: int| s[i * w + j];
        folding_commutes(aa, ca, sa, r, w);
        // Each column commitment is the inner product of a row of the matrix and the column.
        let committed = |i: int|
            rq_mul(rel.c_eval[i], rel.column_commitment(p.base1(), z, i, row));
        let folded_rows = |i: int| rq_mul(ca(i), rq_sum(|j: int| rq_mul(aa(j), sa(i, j)), w));
        assert forall|i: int| 0 <= i < r implies #[trigger] committed(i) == folded_rows(i) by {
            regrouped_digits_recompose(t_digits, d, r, n, p.base1(), i, row);
            lemma_flat_index(i, row, r, n);
            assert(t.len() == r * n);
            assert(recompose(t_digits, r * n, d, p.base1())[i * n + row] == t[i * n + row]);
            lemma_flat_index(row, i, n, r);
            assert(t[i * n + row] == row_product(a, row, s, i, w));
            lemma_rq_sum_same(
                |j: int| rq_mul(a[row * w + j], s[i * w + j]),
                |j: int| rq_mul(aa(j), sa(i, j)),
                w,
            );
        }
        lemma_rq_sum_same(committed, folded_rows, r);
        let weighed = |j: int| rq_mul(aa(j), rq_sum(|i: int| rq_mul(ca(i), sa(i, j)), r));
        let product = |j: int| rq_mul(a[row * w + j], folded[j]);
        assert forall|j: int| 0 <= j < w implies #[trigger] weighed(j) == product(j) by {
            lemma_rq_sum_same(
                |i: int| rq_mul(ca(i), sa(i, j)),
                |i: int| rq_mul(c[i], s[i * w + j]),
                r,
            );
        }
        lemma_rq_sum_same(weighed, product, w);
        lemma_rq_sum_valid(product, w);
        lemma_rq_add_zero(rq_sum(product, w));
    }
    assert(left =~= right);
}

/// The folded inner products of an honest witness are the weighted entries of the folded column.
proof fn lemma_fold_row(
    p: GreyhoundTranscriptParams,
    x: int,
    s: Seq<Rq>,
    c: Seq<Rq>,
)
    requires
        p.supported(),
        c.len() == p.r,
    ensures
        rq_dot(c, column_values(p, x, s)) == rq_dot(
            entry_weights(p, x),
            fold_rows(c, s, p.a_width()),
        ),
{
    let (r, w) = (p.r as int, p.a_width());
    let a = entry_weights(p, x);
    let values = column_values(p, x, s);
    let folded = fold_rows(c, s, w);
    p.lemma_widths();
    let ca = |i: int| c[i];
    let aa = |j: int| a[j];
    let sa = |i: int, j: int| s[i * w + j];
    folding_commutes(aa, ca, sa, r, w);
    let left = |i: int| rq_mul(c[i], values[i]);
    let left2 = |i: int| rq_mul(ca(i), rq_sum(|j: int| rq_mul(aa(j), sa(i, j)), w));
    assert forall|i: int| 0 <= i < r implies #[trigger] left(i) == left2(i) by {
        assert(1 * r == r);
        assert(0 * w == 0);
        vstd::arithmetic::div_mod::lemma_small_mod(i as nat, r as nat);
        vstd::arithmetic::div_mod::lemma_basic_div(i, r);
        assert(values[i] == row_product(a, 0, s, i, w));
        lemma_rq_sum_same(
            |j: int| rq_mul(a[0 * w + j], s[i * w + j]),
            |j: int| rq_mul(aa(j), sa(i, j)),
            w,
        );
    }
    lemma_rq_sum_same(left, left2, r);
    let right = |j: int| rq_mul(aa(j), rq_sum(|i: int| rq_mul(ca(i), sa(i, j)), r));
    let right2 = |j: int| rq_mul(a[j], folded[j]);
    assert forall|j: int| 0 <= j < w implies #[trigger] right(j) == right2(j) by {
        lemma_rq_sum_same(
            |i: int| rq_mul(ca(i), sa(i, j)),
            |i: int| rq_mul(c[i], s[i * w + j]),
            r,
        );
    }
    lemma_rq_sum_same(right, right2, w);
}

/// An honest witness satisfies the linear relation.
pub proof fn honest_witness_satisfies_relation(
    p: GreyhoundTranscriptParams,
    pp: PublicParams,
    raw: Seq<u32>,
    x: int,
    s_digits: Seq<Rq>,
    t_digits: Seq<Rq>,
    commit: CommitReturn,
    w_hat: Seq<Rq>,
    c: Seq<Rq>,
)
    requires
        p.supported(),
        pp.shaped(p),
        raw.len() == 64 * full_chunks(p),
        is_commitment(p, pp, raw, s_digits, t_digits, commit),
        is_decomposition(
            w_hat,
            column_values(p, x, rqs(commit.s@)),
            p.delta as int,
            p.base1(),
        ),
        c.len() == p.r,
    ensures
        ({
            let v = mat_vec(rqs(pp.D@), p.nrows as int, p.d_width(), w_hat);
            let target = weighted_chunks(raw, x, full_chunks(p));
            let rel = relation_for(p, pp, rqs(commit.u@), x, v, target, c);
            let z = relation_witness(
                p,
                w_hat,
                rqs(commit.t_hat_concat@),
                rqs(commit.s@),
                c,
            );
            &&& z.len() == rel.witness_len()
            &&& rel.outcome(p.base1(), z) == Ok::<bool, GreyhoundError>(true)
        }),
{
    let (r, d, n, w) = (p.r as int, p.delta as int, p.nrows as int, p.a_width());
    let s = rqs(commit.s@);
    let t_hat = rqs(commit.t_hat_concat@);
    let u = rqs(commit.u@);
    let v = mat_vec(rqs(pp.D@), n, p.d_width(), w_hat);
    let target = weighted_chunks(raw, x, full_chunks(p));
    let rel = relation_for(p, pp, u, x, v, target, c);
    let z = relation_witness(p, w_hat, t_hat, s, c);
    p.lemma_widths();
    let values = column_values(p, x, s);
    assert(values.len() == r) by {
        assert(1 * r == r);
    }
    assert(r * d == p.d_width()) by (nonlinear_arith)
        requires
            p.d_width() == d * r,
    ;
    assert(r * (d * n) == p.b_width()) by (nonlinear_arith)
        requires
            p.b_width() == n * d * r,
    ;
    assert(s.len() == r * w);
    lemma_relation_shape(p, pp, u, x, v, target, c, z);
    assert(rel.w_part(z) =~= w_hat);
    assert(rel.t_part(z) =~= t_hat);
    assert(rel.s_part(z) =~= fold_rows(c, s, w));
    assert(rel.inner_products(p.base1(), z) == values);
    column_values_add_up(p, x, raw, s_digits);
    lemma_fold_row(p, x, s, c);
    let dot = rq_dot(entry_weights(p, x), fold_rows(c, s, w));
    lemma_rq_sum_valid(
        |i: int| rq_mul(entry_weights(p, x)[i], fold_rows(c, s, w)[i]),
        entry_weights(p, x).len() as int,
    );
    lemma_rq_add_zero(dot);
    lemma_commitment_rows(p, pp, rel, w_hat, t_digits, s, c);
}

/// The verifier accepts what the prover makes: for any matrices, any polynomial that fills its
/// chunks, any digits that recompose to what they are digits of and any challenge, the proof is
/// accepted, as long as `1 + x^64` is a unit and the witness is within the norm bound. The
/// verifier also recovers the seed that the prover drew.
pub proof fn honest_proof_is_accepted(
    p: GreyhoundTranscriptParams,
    pp: PublicParams,
    raw: Seq<u32>,
    x: int,
    s_digits: Seq<Rq>,
    t_digits: Seq<Rq>,
    commit: CommitReturn,
    start: EvalStart,
    w_hat: Seq<Rq>,
    step: EvalCommitted,
    c: Seq<Rq>,
    lab_crs: LabradorCRS,
    proof: ProverProof,
)
    requires
        p.supported(),
        pp.shaped(p),
        raw.len() == 64 * full_chunks(p),
        is_unit(sigma_denominator(x)),
        is_commitment(p, pp, raw, s_digits, t_digits, commit),
        is_start(start, p, raw, rqs(commit.s@), x),
        is_decomposition(w_hat, rqs(start.w@), p.delta as int, p.base1()),
        is_committed(step, start, p, pp, rqs(commit.u@), x, w_hat),
        c.len() == p.r,
        lab_crs.b == p.base1(),
        ({
            let z = relation_witness(p, w_hat, rqs(commit.t_hat_concat@), rqs(commit.s@), c);
            is_proof(proof, step, z) && vec_norm_sq(z) <= lab_crs.norm_bound_sq
        }),
    ensures
        recovered_seed(p, rqs(commit.u@), x, proof) == Ok::<Seq<u8>, GreyhoundError>(step.seed@),
        evaluation_decision(p, pp, rqs(commit.u@), x, proof, c, lab_crs) == Ok::<
            RoundDecision,
            GreyhoundError,
        >(RoundDecision::Decided(true)),
{
    let target = weighted_chunks(raw, x, full_chunks(p));
    lemma_rq_sum_valid(
        |i: int| rq_scale(chunk(raw, i), zq_pow(x, (64 * i) as nat)),
        full_chunks(p),
    );
    sigma_inverse_undoes_sigma(x, target);
    honest_witness_satisfies_relation(p, pp, raw, x, s_digits, t_digits, commit, w_hat, c);
    let bytes = statement_bytes(p, rqs(commit.u@), x, proof.y@, rqs(proof.v@));
    assert(proof.narg_transcript@.take(bytes.len() as int) =~= bytes);
}

/// The prover never refuses an honest input for its value: where the polynomial fills its
/// chunks, the constant term of `y` is the value.
pub proof fn honest_claim_is_consistent(
    p: GreyhoundTranscriptParams,
    raw: Seq<u32>,
    s_len: int,
    x: int,
)
    requires
        raw.len() == 64 * full_chunks(p),
        s_len == p.r * p.a_width(),
    ensures
        start_refusal(p, raw, s_len, x) is None,
{
    constant_term_is_value(raw, x, full_chunks(p));
}

} // verus!
