//! What the messages of a folding round hold, and what its checks establish.
use vstd::prelude::*;

use crate::challenge::drawn_challenges;
use crate::error::GreyhoundError;
use crate::folding::{
    first_commitment, first_commitment_fits, flat_rows, fold_seeds, inner_commitments, linear_terms,
    quadratic_terms, rows_shaped,
};
use crate::folding_check::{
    fold_messages, fold_reading, lower_form, lower_row_form, lower_terms, opening_checks,
    recomposed_commitments, sampled_checks, upper_form, upper_row_form, upper_terms, RoundDecision,
};
use crate::folding_complete::{lemma_lower_pairs, lemma_upper_pairs, lower_doubles, upper_doubles};
use crate::labrador::{LabradorCRS, LabradorProof, Relation};
use crate::layout::{
    flat_columns, flattening_keeps_every_entry, lemma_lower_count, lemma_upper_total, packed,
    symmetric_sums_keep_every_pair, transposing_swaps, upper_triangle_keeps_every_entry,
};
use crate::linalg::{
    fold_rows, lemma_flat_index, mat_mul_transposed, mat_vec, recompose, recomposed,
};
use crate::linearity::lemma_rq_cancel;
use crate::norm::magnitude_sq;
use crate::poly::{rqs, zqs, PolyRing};
use crate::ring_laws::{entries_of_mat_vec, entries_of_product};
use crate::rq::{
    is_rq, lemma_rq_mul_commutative, lemma_rq_new, lemma_rq_sum_same, lemma_rq_sum_valid, rq_add,
    rq_dot, rq_mul, rq_sum, Rq,
};
use crate::sponge::Transcript;

verus! {

/// Entry `i` of the first outer commitment is the inner product of row `i` of `B` and the digits
/// of the inner commitments plus that of row `i` of `C` and the digits of the quadratic garbage
/// terms.
pub proof fn first_commitment_covers_both(crs: LabradorCRS, t: Seq<Rq>, g: Seq<Rq>, i: int)
    requires
        first_commitment_fits(crs, t.len() as int, g.len() as int),
        0 <= i < crs.k1,
    ensures
        first_commitment(crs, t, g).len() == crs.k1,
        first_commitment(crs, t, g)[i] == rq_add(
            rq_dot(
                rqs(crs.B@).subrange(
                    i * (crs.t1 * crs.r * crs.k),
                    i * (crs.t1 * crs.r * crs.k) + crs.t1 * crs.r * crs.k,
                ),
                t,
            ),
            rq_dot(
                rqs(crs.C@).subrange(
                    i * (crs.t2 * (crs.r * (crs.r + 1) / 2)),
                    i * (crs.t2 * (crs.r * (crs.r + 1) / 2)) + crs.t2 * (crs.r * (crs.r + 1) / 2),
                ),
                g,
            ),
        ),
{
    entries_of_mat_vec(rqs(crs.B@), crs.k1 as int, crs.b_width(), t, i);
    entries_of_mat_vec(rqs(crs.C@), crs.k2 as int, crs.c_width(), g, i);
}

/// What the first block of checks establishes of the two outer commitments: every entry of `u_1`
/// is made from both digit vectors, and every entry of `u_2` from the digits of the linear
/// garbage terms.
pub proof fn opened_commitments(
    crs: LabradorCRS,
    proof: LabradorProof,
    rel: Relation,
    c: Seq<Rq>,
    i: int,
)
    requires
        opening_checks(crs, proof, rel, c) == Ok::<bool, GreyhoundError>(true),
        0 <= i < crs.k1,
    ensures
        proof.u_1@.len() == crs.k1,
        proof.u_1@[i]@ == rq_add(
            rq_dot(
                rqs(crs.B@).subrange(
                    i * (crs.t1 * crs.r * crs.k),
                    i * (crs.t1 * crs.r * crs.k) + crs.t1 * crs.r * crs.k,
                ),
                rqs(proof.t_flat@),
            ),
            rq_dot(
                rqs(crs.C@).subrange(
                    i * (crs.t2 * (crs.r * (crs.r + 1) / 2)),
                    i * (crs.t2 * (crs.r * (crs.r + 1) / 2)) + crs.t2 * (crs.r * (crs.r + 1) / 2),
                ),
                rqs(proof.G_flat@),
            ),
        ),
        proof.u_2@.len() == crs.k1,
        proof.u_2@[i]@ == rq_dot(
            rqs(crs.D_mat@).subrange(
                i * (crs.t1 * (crs.r * (crs.r + 1) / 2)),
                i * (crs.t1 * (crs.r * (crs.r + 1) / 2)) + crs.t1 * (crs.r * (crs.r + 1) / 2),
            ),
            rqs(proof.H_flat@),
        ),
{
    let (t, g, h) = (rqs(proof.t_flat@), rqs(proof.G_flat@), rqs(proof.H_flat@));
    entries_of_mat_vec(rqs(crs.B@), crs.k1 as int, crs.b_width(), t, i);
    entries_of_mat_vec(rqs(crs.C@), crs.k2 as int, crs.c_width(), g, i);
    entries_of_mat_vec(rqs(crs.D_mat@), crs.k1 as int, crs.d_width(), h, i);
    assert(rqs(proof.u_1@) == first_commitment(crs, t, g));
    assert(rqs(proof.u_1@).len() == crs.k1);
    assert(rqs(proof.u_2@).len() == crs.k1);
    assert(rqs(proof.u_1@)[i] == proof.u_1@[i]@);
    assert(rqs(proof.u_2@)[i] == proof.u_2@[i]@);
}

/// The first outer commitment binds each digit vector once the other is fixed: two proofs that
/// pass the first block of checks with the same `u_1` and the same digits of the inner
/// commitments have the same product of `C` and the digits of the garbage terms.
pub proof fn first_commitment_binds_garbage(
    crs: LabradorCRS,
    proof: LabradorProof,
    rel: Relation,
    c: Seq<Rq>,
    proof2: LabradorProof,
    rel2: Relation,
    c2: Seq<Rq>,
)
    requires
        opening_checks(crs, proof, rel, c) == Ok::<bool, GreyhoundError>(true),
        opening_checks(crs, proof2, rel2, c2) == Ok::<bool, GreyhoundError>(true),
        rqs(proof.u_1@) == rqs(proof2.u_1@),
        rqs(proof.t_flat@) == rqs(proof2.t_flat@),
    ensures
        mat_vec(rqs(crs.C@), crs.k2 as int, crs.c_width(), rqs(proof.G_flat@)) == mat_vec(
            rqs(crs.C@),
            crs.k2 as int,
            crs.c_width(),
            rqs(proof2.G_flat@),
        ),
{
    let (g, g2) = (rqs(proof.G_flat@), rqs(proof2.G_flat@));
    let (k2, w) = (crs.k2 as int, crs.c_width());
    let (x, y) = (mat_vec(rqs(crs.C@), k2, w, g), mat_vec(rqs(crs.C@), k2, w, g2));
    assert forall|i: int| 0 <= i < k2 implies #[trigger] x[i] == y[i] by {
        opened_commitments(crs, proof, rel, c, i);
        opened_commitments(crs, proof2, rel2, c2, i);
        entries_of_mat_vec(rqs(crs.C@), k2, w, g, i);
        entries_of_mat_vec(rqs(crs.C@), k2, w, g2, i);
        assert(rqs(proof.u_1@)[i] == rqs(proof2.u_1@)[i]);
        let row = rqs(crs.C@).subrange(i * w, i * w + w);
        lemma_rq_sum_valid(|l: int| rq_mul(row[l], g[l]), row.len() as int);
        lemma_rq_sum_valid(|l: int| rq_mul(row[l], g2[l]), row.len() as int);
        lemma_rq_cancel(
            rq_dot(
                rqs(crs.B@).subrange(
                    i * (crs.t1 * crs.r * crs.k),
                    i * (crs.t1 * crs.r * crs.k) + crs.t1 * crs.r * crs.k,
                ),
                rqs(proof.t_flat@),
            ),
            rq_dot(row, g),
            rq_dot(row, g2),
        );
    }
    assert(x =~= y);
}

/// The quadratic form over a list of `g(i, j)` for `i <= j` is the sum of `c_i c_j g(i, j)` over
/// all ordered pairs, where a pair and its reverse share an entry of the list.
pub proof fn upper_form_sums_all_pairs(c: Seq<Rq>, g: Seq<Rq>, r: int)
    requires
        0 <= r,
    ensures
        upper_form(c, g, r) == rq_sum(
            |i: int|
                rq_sum(
                    |j: int|
                        rq_mul(
                            rq_mul(c[i], c[j]),
                            if i <= j {
                                g[i * (2 * r - i + 1) / 2 + (j - i)]
                            } else {
                                g[j * (2 * r - j + 1) / 2 + (i - j)]
                            },
                        ),
                    r,
                ),
            r,
        ),
{
    let f = |i: int, j: int|
        rq_mul(
            rq_mul(c[i], c[j]),
            if i <= j {
                g[i * (2 * r - i + 1) / 2 + (j - i)]
            } else {
                g[j * (2 * r - j + 1) / 2 + (i - j)]
            },
        );
    assert forall|i: int, j: int| 0 <= i < r && 0 <= j < r implies #[trigger] f(i, j) == f(
        j,
        i,
    ) by {
        lemma_rq_mul_commutative(c[i], c[j]);
    }
    assert forall|i: int| 0 <= i < r implies is_rq(#[trigger] f(i, i)) by {
        broadcast use lemma_rq_new;

    }
    lemma_upper_pairs(f, r);
    let (x, y) = (
        |i: int| rq_sum(upper_doubles(f, i), r - i),
        |i: int| upper_row_form(c, g, r, i, r - i),
    );
    assert forall|i: int| 0 <= i < r implies #[trigger] x(i) == y(i) by {
        lemma_upper_total(r, i);
        let (u, v) = (upper_doubles(f, i), upper_terms(c, g, r, i));
        assert forall|d: int| 0 <= d < r - i implies #[trigger] u(d) == v(d) by {
            assert(i * (2 * r - i + 1) / 2 + (i + d - i) == crate::layout::upper_count(r, i) + d);
        }
        lemma_rq_sum_same(u, v, r - i);
    }
    lemma_rq_sum_same(x, y, r);
    let rows = |i: int| rq_sum(|j: int| f(i, j), r);
    let stated = |i: int|
        rq_sum(
            |j: int|
                rq_mul(
                    rq_mul(c[i], c[j]),
                    if i <= j {
                        g[i * (2 * r - i + 1) / 2 + (j - i)]
                    } else {
                        g[j * (2 * r - j + 1) / 2 + (i - j)]
                    },
                ),
            r,
        );
    assert forall|i: int| 0 <= i < r implies #[trigger] rows(i) == stated(i) by {
        lemma_rq_sum_same(
            |j: int| f(i, j),
            |j: int|
                rq_mul(
                    rq_mul(c[i], c[j]),
                    if i <= j {
                        g[i * (2 * r - i + 1) / 2 + (j - i)]
                    } else {
                        g[j * (2 * r - j + 1) / 2 + (i - j)]
                    },
                ),
            r,
        );
    }
    lemma_rq_sum_same(rows, stated, r);
}

/// The quadratic form over a list of `h(i, j)` for `j <= i` is the sum of `c_i c_j h(i, j)` over
/// all ordered pairs, where a pair and its reverse share an entry of the list.
pub proof fn lower_form_sums_all_pairs(c: Seq<Rq>, h: Seq<Rq>, r: int)
    requires
        0 <= r,
    ensures
        lower_form(c, h, r) == rq_sum(
            |i: int|
                rq_sum(
                    |j: int|
                        rq_mul(
                            rq_mul(c[i], c[j]),
                            if j <= i {
                                h[i * (i + 1) / 2 + j]
                            } else {
                                h[j * (j + 1) / 2 + i]
                            },
                        ),
                    r,
                ),
            r,
        ),
{
    let f = |i: int, j: int|
        rq_mul(
            rq_mul(c[i], c[j]),
            if j <= i {
                h[i * (i + 1) / 2 + j]
            } else {
                h[j * (j + 1) / 2 + i]
            },
        );
    assert forall|i: int, j: int| 0 <= i < r && 0 <= j < r implies #[trigger] f(i, j) == f(
        j,
        i,
    ) by {
        lemma_rq_mul_commutative(c[i], c[j]);
    }
    lemma_lower_pairs(f, r);
    let (x, y) = (
        |i: int| rq_sum(lower_doubles(f, i), i + 1),
        |i: int| lower_row_form(c, h, i, i + 1),
    );
    assert forall|i: int| 0 <= i < r implies #[trigger] x(i) == y(i) by {
        lemma_lower_count(i);
        let (u, v) = (lower_doubles(f, i), lower_terms(c, h, i));
        assert forall|j: int| 0 <= j < i + 1 implies #[trigger] u(j) == v(j) by {
            assert(i * (i + 1) / 2 + j == crate::layout::lower_count(i) + j);
        }
        lemma_rq_sum_same(u, v, i + 1);
    }
    lemma_rq_sum_same(x, y, r);
    let rows = |i: int| rq_sum(|j: int| f(i, j), r);
    let stated = |i: int|
        rq_sum(
            |j: int|
                rq_mul(
                    rq_mul(c[i], c[j]),
                    if j <= i {
                        h[i * (i + 1) / 2 + j]
                    } else {
                        h[j * (j + 1) / 2 + i]
                    },
                ),
            r,
        );
    assert forall|i: int| 0 <= i < r implies #[trigger] rows(i) == stated(i) by {
        lemma_rq_sum_same(
            |j: int| f(i, j),
            |j: int|
                rq_mul(
                    rq_mul(c[i], c[j]),
                    if j <= i {
                        h[i * (i + 1) / 2 + j]
                    } else {
                        h[j * (j + 1) / 2 + i]
                    },
                ),
            r,
        );
    }
    lemma_rq_sum_same(rows, stated, r);
}

/// What the first block of checks establishes of the folded vector: row by row, the inner
/// commitment matrix takes its last part to the folded inner commitments; its first part holds
/// the digits of the weighted last part; and its inner product with itself is the quadratic form
/// of the garbage terms.
pub proof fn opened_vector(
    crs: LabradorCRS,
    proof: LabradorProof,
    rel: Relation,
    c: Seq<Rq>,
    j: int,
)
    requires
        opening_checks(crs, proof, rel, c) == Ok::<bool, GreyhoundError>(true),
        c.len() == crs.r,
        rel.n_w >= 0 && rel.n_t >= 0,
        0 <= j < crs.k,
    ensures
        ({
            let z = rqs(proof.z_folded@);
            let t = recomposed_commitments(crs, rqs(proof.t_flat@));
            let s = z.subrange(rel.n_w + rel.n_t, z.len() as int);
            let g = recompose(
                rqs(proof.G_flat@),
                crs.r * (crs.r + 1) / 2,
                crs.t2 as int,
                crs.b2 as int,
            );
            &&& s.len() == rel.n_s
            &&& rel.a_eval.len() <= rel.n_s
            &&& rq_dot(rel.A_ajtai.subrange(j * rel.n_s, j * rel.n_s + rel.n_s), s) == rq_sum(
                |i: int| rq_mul(c[i], t[i * crs.k + j]),
                crs.r as int,
            )
            &&& recompose(z.subrange(0, rel.n_w), 1, rel.n_w, crs.b as int)[0] == rq_dot(
                rel.a_eval,
                s,
            )
            &&& rq_dot(z, z) == upper_form(c, g, crs.r as int)
        }),
{
    let z = rqs(proof.z_folded@);
    let s = z.subrange(rel.n_w + rel.n_t, z.len() as int);
    assert(rel.s_part(z) =~= s);
    entries_of_mat_vec(rel.A_ajtai, crs.k as int, rel.n_s, s, j);
    let t = recomposed_commitments(crs, rqs(proof.t_flat@));
    let az = mat_vec(rel.A_ajtai, crs.k as int, rel.n_s, s);
    assert(az[j] == fold_rows(c, t, crs.k as int)[j]);
    lemma_rq_sum_same(
        |i: int| rq_mul(rel.a_eval[i], rel.s_part(z)[i]),
        |i: int| rq_mul(rel.a_eval[i], s[i]),
        rel.a_eval.len() as int,
    );
}

/// What the second block of checks establishes: every aggregated term is the inner product of its
/// weights and the garbage terms, and twice the inner product of the folded vectors and the
/// folded witness is the quadratic form of the linear garbage terms.
pub proof fn sampled_checks_establish(
    crs: LabradorCRS,
    proof: LabradorProof,
    rel: Relation,
    c: Seq<Rq>,
    g: Seq<Rq>,
    psi: Seq<int>,
    phi: Seq<int>,
    i: int,
)
    requires
        sampled_checks(crs, proof, rel, c, g, psi, phi) == Ok::<bool, GreyhoundError>(true),
        0 <= i < crs.num_aggregs,
    ensures
        proof.b_agg@.len() == crs.num_aggregs,
        proof.b_agg@[i]@ == rq_dot(
            packed(psi).subrange(i * g.len(), i * g.len() + g.len()),
            g,
        ),
        ({
            let z = rqs(proof.z_folded@);
            let dot = rq_dot(fold_rows(c, packed(phi), rel.witness_len()), z);
            let h = recompose(
                rqs(proof.H_flat@),
                crs.r * (crs.r + 1) / 2,
                crs.t1 as int,
                crs.b1 as int,
            );
            &&& z.len() == rel.witness_len()
            &&& c.len() == crs.r
            &&& phi.len() == 64 * (crs.r * rel.witness_len())
            &&& rq_add(dot, dot) == lower_form(c, h, crs.r as int)
        }),
{
    entries_of_mat_vec(packed(psi), crs.num_aggregs as int, g.len() as int, g, i);
    assert(rqs(proof.b_agg@)[i] == proof.b_agg@[i]@);
    assert(rqs(proof.b_agg@).len() == proof.b_agg@.len());
}

/// Entry `j` of the inner commitment to witness vector `i` is the inner product of row `j` of the
/// commitment matrix and the last part of the vector.
pub proof fn inner_commitments_are_of_every_row(
    crs: LabradorCRS,
    rows: Seq<Vec<PolyRing>>,
    rel: Relation,
    i: int,
    j: int,
)
    requires
        rows_shaped(crs, rows, rel),
        0 <= rel.n_w + rel.n_t,
        0 <= i < crs.r,
        0 <= j < crs.k,
    ensures
        inner_commitments(crs, rows, rel).len() == crs.r * crs.k,
        inner_commitments(crs, rows, rel)[i * crs.k + j] == rq_dot(
            rel.A_ajtai.subrange(j * rel.n_s, j * rel.n_s + rel.n_s),
            rqs(rows[i]@).subrange(rel.n_w + rel.n_t, rel.n_w + rel.n_t + rel.n_s),
        ),
{
    let (lo, hi) = (rel.n_w + rel.n_t, rel.witness_len());
    let s = flat_columns(rows, lo, hi);
    let m = mat_mul_transposed(rel.A_ajtai, crs.k as int, s, crs.r as int, rel.n_s);
    transposing_swaps(m, crs.k as int, crs.r as int, j, i);
    entries_of_product(rel.A_ajtai, crs.k as int, s, crs.r as int, rel.n_s, j, i);
    lemma_row_of_flat(rows, lo, hi, i);
}

/// Row `i` of the flat vectors.
proof fn lemma_row_of_flat(rows: Seq<Vec<PolyRing>>, lo: int, hi: int, i: int)
    requires
        0 <= i < rows.len(),
        0 <= lo < hi <= rows[i]@.len(),
    ensures
        flat_columns(rows, lo, hi).len() == rows.len() * (hi - lo),
        flat_columns(rows, lo, hi).subrange(i * (hi - lo), i * (hi - lo) + (hi - lo)) == rqs(
            rows[i]@,
        ).subrange(lo, hi),
{
    let w = hi - lo;
    lemma_flat_index(i, 0, rows.len() as int, w);
    let (x, y) = (
        flat_columns(rows, lo, hi).subrange(i * w, i * w + w),
        rqs(rows[i]@).subrange(lo, hi),
    );
    assert forall|l: int| 0 <= l < w implies #[trigger] x[l] == y[l] by {
        flattening_keeps_every_entry(rows, lo, hi, i, lo + l);
    }
    assert(x =~= y);
}

/// The quadratic garbage terms hold the inner product of every two witness vectors.
pub proof fn quadratic_terms_are_of_every_pair(
    crs: LabradorCRS,
    rows: Seq<Vec<PolyRing>>,
    rel: Relation,
    i: int,
    j: int,
)
    requires
        rows_shaped(crs, rows, rel),
        0 <= i <= j < crs.r,
        0 < rel.witness_len(),
    ensures
        2 * quadratic_terms(crs, rows, rel).len() == crs.r * (crs.r + 1),
        quadratic_terms(crs, rows, rel)[i * (2 * crs.r - i + 1) / 2 + (j - i)] == rq_dot(
            rqs(rows[i]@),
            rqs(rows[j]@),
        ),
{
    let (r, n) = (crs.r as int, rel.witness_len());
    let s = flat_rows(rows, rel);
    upper_triangle_keeps_every_entry(mat_mul_transposed(s, r, s, r, n), r, i, j);
    lemma_row_of_flat(rows, 0, n, i);
    lemma_row_of_flat(rows, 0, n, j);
    entries_of_product(s, r, s, r, n, i, j);
    assert(rqs(rows[i]@).subrange(0, n) =~= rqs(rows[i]@));
    assert(rqs(rows[j]@).subrange(0, n) =~= rqs(rows[j]@));
}

/// The linear garbage terms hold, for every two positions, the inner products of the sampled
/// vector of one and the witness vector of the other, added up both ways.
pub proof fn linear_terms_are_of_every_pair(
    crs: LabradorCRS,
    rows: Seq<Vec<PolyRing>>,
    rel: Relation,
    phi: Seq<Rq>,
    i: int,
    j: int,
)
    requires
        rows_shaped(crs, rows, rel),
        phi.len() == crs.r * rel.witness_len(),
        0 <= j <= i < crs.r,
        0 < rel.witness_len(),
    ensures
        2 * linear_terms(crs, rows, rel, phi).len() == crs.r * (crs.r + 1),
        ({
            let n = rel.witness_len();
            linear_terms(crs, rows, rel, phi)[i * (i + 1) / 2 + j] == rq_add(
                rq_dot(phi.subrange(i * n, i * n + n), rqs(rows[j]@)),
                rq_dot(phi.subrange(j * n, j * n + n), rqs(rows[i]@)),
            )
        }),
{
    let (r, n) = (crs.r as int, rel.witness_len());
    let s = flat_rows(rows, rel);
    symmetric_sums_keep_every_pair(mat_mul_transposed(phi, r, s, r, n), r, i, j);
    lemma_row_of_flat(rows, 0, n, i);
    lemma_row_of_flat(rows, 0, n, j);
    entries_of_product(phi, r, s, r, n, i, j);
    entries_of_product(phi, r, s, r, n, j, i);
    assert(rqs(rows[i]@).subrange(0, n) =~= rqs(rows[i]@));
    assert(rqs(rows[j]@).subrange(0, n) =~= rqs(rows[j]@));
}

/// The recomposed inner commitments: entry `j` for vector `i` comes from the digits of that
/// vector alone.
pub proof fn commitments_recompose_by_vector(crs: LabradorCRS, t_flat: Seq<Rq>, i: int, j: int)
    requires
        0 <= i < crs.r,
        0 <= j < crs.k,
    ensures
        recomposed_commitments(crs, t_flat).len() == crs.r * crs.k,
        recomposed_commitments(crs, t_flat)[i * crs.k + j] == recompose(
            t_flat.subrange(i * (crs.k * crs.t1), i * (crs.k * crs.t1) + crs.k * crs.t1),
            crs.k as int,
            crs.t1 as int,
            crs.b1 as int,
        )[j],
{
    lemma_flat_index(i, j, crs.r as int, crs.k as int);
}

/// Samples are asked for only if every projection is below the norm bound and the four messages
/// are what the transcript holds.
pub proof fn sampling_needs_small_projections(
    crs: LabradorCRS,
    proof: LabradorProof,
    rel: Relation,
    t: Transcript,
    unread: Seq<u8>,
    i: int,
)
    requires
        fold_reading(crs, proof, rel, t, unread).decision matches Ok(RoundDecision::Sample { .. }),
        0 <= i < proof.p@.len(),
    ensures
        magnitude_sq(proof.p@[i]@) < crs.norm_bound_sq,
{
    assert(zqs(proof.p@)[i] == proof.p@[i]@);
}

/// A projection that is not below the norm bound is never accepted: the round ends in a
/// rejection or, where the transcript ends before the projections do, in an error.
pub proof fn large_projection_is_not_sampled(
    crs: LabradorCRS,
    proof: LabradorProof,
    rel: Relation,
    t: Transcript,
    unread: Seq<u8>,
    i: int,
)
    requires
        0 <= i < proof.p@.len(),
        magnitude_sq(proof.p@[i]@) >= crs.norm_bound_sq,
    ensures
        fold_reading(crs, proof, rel, t, unread).decision == Ok::<RoundDecision, GreyhoundError>(
            RoundDecision::Decided(false),
        ) || fold_reading(crs, proof, rel, t, unread).decision == Err::<
            RoundDecision,
            GreyhoundError,
        >(GreyhoundError::TranscriptTooShort),
{
    assert(zqs(proof.p@)[i] == proof.p@[i]@);
}

/// The four challenges of a round answer all messages so far: each is drawn from a transcript
/// that has absorbed every message up to its own.
pub proof fn seeds_answer_all_messages(
    t: Transcript,
    m1: Seq<u8>,
    m2: Seq<u8>,
    m3: Seq<u8>,
    m4: Seq<u8>,
)
    requires
        m1.len() > 0 && m2.len() > 0 && m3.len() > 0 && m4.len() > 0,
    ensures
        ({
            let seeds = fold_seeds(t, m1, m2, m3, m4);
            let after = |m: Seq<u8>| Transcript { absorbed: t.absorbed + m, drawn: 0, ..t };
            &&& seeds.pi == after(m1).challenge()
            &&& seeds.psi == after(m1 + m2).challenge()
            &&& seeds.phi == after(m1 + m2 + m3).challenge()
            &&& seeds.c == after(m1 + m2 + m3 + m4).challenge()
        }),
{
    assert(t.absorbed + m1 + m2 =~= t.absorbed + (m1 + m2));
    assert(t.absorbed + m1 + m2 + m3 =~= t.absorbed + (m1 + m2 + m3));
    assert(t.absorbed + m1 + m2 + m3 + m4 =~= t.absorbed + (m1 + m2 + m3 + m4));
}

/// Entry `j` of the folded vector is the sum of the entries `j` of all witness vectors, each with
/// its challenge.
pub proof fn folded_vector_folds_every_row(
    c: Seq<Rq>,
    rows: Seq<Vec<PolyRing>>,
    rel: Relation,
    j: int,
)
    requires
        c.len() == rows.len(),
        forall|i: int|
            0 <= i < rows.len() ==> (#[trigger] rows[i])@.len() == rel.n_w + rel.n_t + rel.n_s,
        0 <= j < rel.n_w + rel.n_t + rel.n_s,
    ensures
        ({
            let n = rel.n_w + rel.n_t + rel.n_s;
            let z = fold_rows(c, flat_rows(rows, rel), n);
            &&& z.len() == n
            &&& z[j] == rq_sum(|i: int| rq_mul(c[i], rows[i]@[j]@), c.len() as int)
        }),
{
    let n = rel.n_w + rel.n_t + rel.n_s;
    let s = flat_rows(rows, rel);
    let (f, g) = (
        |i: int| rq_mul(c[i], s[i * n + j]),
        |i: int| rq_mul(c[i], rows[i]@[j]@),
    );
    assert forall|i: int| 0 <= i < c.len() implies #[trigger] f(i) == g(i) by {
        flattening_keeps_every_entry(rows, 0, n, i, j);
    }
    lemma_rq_sum_same(f, g, c.len() as int);
}

/// The equations for row `i` of the two outer commitments.
pub open spec fn outer_row(crs: LabradorCRS, proof: LabradorProof, i: int) -> bool {
    let (t, g, h) = (rqs(proof.t_flat@), rqs(proof.G_flat@), rqs(proof.H_flat@));
    let pairs = crs.r * (crs.r + 1) / 2;
    let (wb, wc, wd) = (crs.t1 * crs.r * crs.k, crs.t2 * pairs, crs.t1 * pairs);
    &&& proof.u_1@[i]@ == rq_add(
        rq_dot(rqs(crs.B@).subrange(i * wb, i * wb + wb), t),
        rq_dot(rqs(crs.C@).subrange(i * wc, i * wc + wc), g),
    )
    &&& proof.u_2@[i]@ == rq_dot(rqs(crs.D_mat@).subrange(i * wd, i * wd + wd), h)
}

/// The equation for row `j` of the inner commitments: the commitment matrix takes the last part
/// of the folded vector to the inner commitments folded by the challenge.
pub open spec fn inner_row(
    crs: LabradorCRS,
    proof: LabradorProof,
    rel: Relation,
    c: Seq<Rq>,
    j: int,
) -> bool {
    let z = rqs(proof.z_folded@);
    let s = z.subrange(rel.n_w + rel.n_t, z.len() as int);
    let t = recomposed_commitments(crs, rqs(proof.t_flat@));
    rq_dot(rel.A_ajtai.subrange(j * rel.n_s, j * rel.n_s + rel.n_s), s) == rq_sum(
        |i: int| rq_mul(c[i], t[i * crs.k + j]),
        c.len() as int,
    )
}

/// The lengths under which the first block of checks can succeed.
pub open spec fn opening_sizes(crs: LabradorCRS, proof: LabradorProof, rel: Relation) -> bool {
    let pairs = crs.r * (crs.r + 1) / 2;
    let (wb, wc, wd) = (crs.t1 * crs.r * crs.k, crs.t2 * pairs, crs.t1 * pairs);
    &&& crs.k1 == crs.k2 && crs.k1 > 0 && crs.k > 0 && rel.n_s > 0
    &&& wb > 0 && wc > 0 && wd > 0
    &&& crs.B@.len() == crs.k1 * wb && proof.t_flat@.len() == wb
    &&& crs.C@.len() == crs.k2 * wc && proof.G_flat@.len() == wc
    &&& crs.D_mat@.len() == crs.k1 * wd && proof.H_flat@.len() == wd
    &&& rel.A_ajtai.len() == crs.k * rel.n_s
    &&& proof.z_folded@.len() == rel.n_w + rel.n_t + rel.n_s
    &&& rel.a_eval.len() <= rel.n_s
    &&& proof.u_1@.len() == crs.k1 && proof.u_2@.len() == crs.k1
}

/// The gadget relation and the quadratic garbage terms of the folded vector.
pub open spec fn folded_equations(
    crs: LabradorCRS,
    proof: LabradorProof,
    rel: Relation,
    c: Seq<Rq>,
) -> bool {
    let z = rqs(proof.z_folded@);
    let s = z.subrange(rel.n_w + rel.n_t, z.len() as int);
    let g = recompose(
        rqs(proof.G_flat@),
        crs.r * (crs.r + 1) / 2,
        crs.t2 as int,
        crs.b2 as int,
    );
    &&& recompose(z.subrange(0, rel.n_w), 1, rel.n_w, crs.b as int)[0] == rq_dot(rel.a_eval, s)
    &&& rq_dot(z, z) == upper_form(c, g, crs.r as int)
}

/// What the blocks of the first checks say of one row of the outer commitments.
proof fn lemma_outer_row(crs: LabradorCRS, proof: LabradorProof, rel: Relation, i: int)
    requires
        opening_sizes(crs, proof, rel),
        0 <= i < crs.k1,
    ensures
        outer_row(crs, proof, i) == (rqs(proof.u_1@)[i] == first_commitment(
            crs,
            rqs(proof.t_flat@),
            rqs(proof.G_flat@),
        )[i] && rqs(proof.u_2@)[i] == mat_vec(
            rqs(crs.D_mat@),
            crs.k1 as int,
            crs.d_width(),
            rqs(proof.H_flat@),
        )[i]),
{
    first_commitment_covers_both(crs, rqs(proof.t_flat@), rqs(proof.G_flat@), i);
    entries_of_mat_vec(rqs(crs.D_mat@), crs.k1 as int, crs.d_width(), rqs(proof.H_flat@), i);
    assert(rqs(proof.u_1@)[i] == proof.u_1@[i]@);
    assert(rqs(proof.u_2@)[i] == proof.u_2@[i]@);
}

/// What they say of one row of the inner commitments.
proof fn lemma_inner_row(
    crs: LabradorCRS,
    proof: LabradorProof,
    rel: Relation,
    c: Seq<Rq>,
    j: int,
)
    requires
        opening_sizes(crs, proof, rel),
        rel.n_w >= 0 && rel.n_t >= 0,
        0 <= j < crs.k,
    ensures
        ({
            let z = rqs(proof.z_folded@);
            let t = recomposed_commitments(crs, rqs(proof.t_flat@));
            inner_row(crs, proof, rel, c, j) == (mat_vec(
                rel.A_ajtai,
                crs.k as int,
                rel.n_s,
                rel.s_part(z),
            )[j] == fold_rows(c, t, crs.k as int)[j])
        }),
{
    let z = rqs(proof.z_folded@);
    let s = z.subrange(rel.n_w + rel.n_t, z.len() as int);
    assert(rel.s_part(z) =~= s);
    entries_of_mat_vec(rel.A_ajtai, crs.k as int, rel.n_s, s, j);
}

/// The first block of checks succeeds exactly if the lengths fit and every equation holds: for
/// every row of the outer and of the inner commitments, for the gadget relation and for the
/// quadratic garbage terms.
pub proof fn openings_succeed_if_every_row_holds(
    crs: LabradorCRS,
    proof: LabradorProof,
    rel: Relation,
    c: Seq<Rq>,
)
    requires
        rel.n_w >= 0 && rel.n_t >= 0,
    ensures
        (opening_checks(crs, proof, rel, c) == Ok::<bool, GreyhoundError>(true)) <==> {
            &&& opening_sizes(crs, proof, rel)
            &&& forall|i: int| 0 <= i < crs.k1 ==> #[trigger] outer_row(crs, proof, i)
            &&& forall|j: int| 0 <= j < crs.k ==> #[trigger] inner_row(crs, proof, rel, c, j)
            &&& folded_equations(crs, proof, rel, c)
        },
        opening_sizes(crs, proof, rel) ==> opening_checks(crs, proof, rel, c) is Ok,
        opening_checks(crs, proof, rel, c) matches Err(e) ==> e
            == GreyhoundError::InvalidDimensions,
{
    let (t, g, h) = (rqs(proof.t_flat@), rqs(proof.G_flat@), rqs(proof.H_flat@));
    let (u1, u2, z) = (rqs(proof.u_1@), rqs(proof.u_2@), rqs(proof.z_folded@));
    let first = first_commitment(crs, t, g);
    let second = mat_vec(rqs(crs.D_mat@), crs.k1 as int, crs.d_width(), h);
    let az = mat_vec(rel.A_ajtai, crs.k as int, rel.n_s, rel.s_part(z));
    let ct = fold_rows(c, recomposed_commitments(crs, t), crs.k as int);
    let s = z.subrange(rel.n_w + rel.n_t, z.len() as int);
    if opening_checks(crs, proof, rel, c) == Ok::<bool, GreyhoundError>(true) {
        assert(u1.len() == crs.k1 && u2.len() == crs.k1);
        assert(opening_sizes(crs, proof, rel));
        assert forall|i: int| 0 <= i < crs.k1 implies #[trigger] outer_row(crs, proof, i) by {
            lemma_outer_row(crs, proof, rel, i);
        }
        assert forall|j: int| 0 <= j < crs.k implies #[trigger] inner_row(
            crs,
            proof,
            rel,
            c,
            j,
        ) by {
            lemma_inner_row(crs, proof, rel, c, j);
        }
    }
    if opening_sizes(crs, proof, rel) {
        assert(rel.s_part(z) =~= s);
        assert(rel.w_part(z) =~= z.subrange(0, rel.n_w));
        lemma_rq_sum_same(
            |i: int| rq_mul(rel.a_eval[i], rel.s_part(z)[i]),
            |i: int| rq_mul(rel.a_eval[i], s[i]),
            rel.a_eval.len() as int,
        );
        if (forall|i: int| 0 <= i < crs.k1 ==> #[trigger] outer_row(crs, proof, i)) && (forall|
            j: int,
        |
            0 <= j < crs.k ==> #[trigger] inner_row(crs, proof, rel, c, j)) {
            assert forall|i: int| 0 <= i < crs.k1 implies #[trigger] u1[i] == first[i] by {
                assert(outer_row(crs, proof, i));
                lemma_outer_row(crs, proof, rel, i);
            }
            assert forall|i: int| 0 <= i < crs.k1 implies #[trigger] u2[i] == second[i] by {
                assert(outer_row(crs, proof, i));
                lemma_outer_row(crs, proof, rel, i);
            }
            assert forall|j: int| 0 <= j < crs.k implies #[trigger] az[j] == ct[j] by {
                assert(inner_row(crs, proof, rel, c, j));
                lemma_inner_row(crs, proof, rel, c, j);
            }
            assert(u1 =~= first);
            assert(u2 =~= second);
            assert(az =~= ct);
        }
    }
}

/// The second block of checks succeeds exactly if the lengths fit, every aggregated term is the
/// inner product of its weights and the garbage terms, and the linear garbage terms are those of
/// the folded vector.
pub proof fn samples_succeed_if_every_row_holds(
    crs: LabradorCRS,
    proof: LabradorProof,
    rel: Relation,
    c: Seq<Rq>,
    g: Seq<Rq>,
    psi: Seq<int>,
    phi: Seq<int>,
)
    ensures
        (sampled_checks(crs, proof, rel, c, g, psi, phi) == Ok::<bool, GreyhoundError>(true))
            <==> ({
            let n = rel.n_w + rel.n_t + rel.n_s;
            let z = rqs(proof.z_folded@);
            let dot = rq_dot(fold_rows(c, packed(phi), n), z);
            let pairs = crs.r * (crs.r + 1) / 2;
            let h = recompose(rqs(proof.H_flat@), pairs, crs.t1 as int, crs.b1 as int);
            &&& crs.num_aggregs > 0 && g.len() > 0 && psi.len() == 64 * (crs.num_aggregs
                * g.len())
            &&& proof.b_agg@.len() == crs.num_aggregs
            &&& forall|i: int|
                0 <= i < crs.num_aggregs ==> (#[trigger] proof.b_agg@[i])@ == rq_dot(
                    packed(psi).subrange(i * g.len(), i * g.len() + g.len()),
                    g,
                )
            &&& proof.H_flat@.len() == crs.t1 * pairs && z.len() == n && n > 0
            &&& c.len() == crs.r && crs.r > 0 && phi.len() == 64 * (crs.r * n)
            &&& rq_add(dot, dot) == lower_form(c, h, crs.r as int)
        }),
{
    let n = rel.n_w + rel.n_t + rel.n_s;
    let (a, b) = (crs.num_aggregs as int, rqs(proof.b_agg@));
    let w = packed(psi);
    let product = mat_vec(w, a, g.len() as int, g);
    if a > 0 && g.len() > 0 && psi.len() == 64 * (a * g.len()) {
        assert(w.len() == a * g.len());
        assert forall|i: int| 0 <= i < a implies #[trigger] product[i] == rq_dot(
            w.subrange(i * g.len(), i * g.len() + g.len()),
            g,
        ) by {
            entries_of_mat_vec(w, a, g.len() as int, g, i);
        }
        if proof.b_agg@.len() == a {
            if forall|i: int|
                0 <= i < a ==> (#[trigger] proof.b_agg@[i])@ == rq_dot(
                    w.subrange(i * g.len(), i * g.len() + g.len()),
                    g,
                ) {
                assert forall|i: int| 0 <= i < a implies #[trigger] b[i] == product[i] by {
                    assert(b[i] == proof.b_agg@[i]@);
                }
                assert(b =~= product);
            } else if b == product {
                assert forall|i: int| 0 <= i < a implies (#[trigger] proof.b_agg@[i])@ == rq_dot(
                    w.subrange(i * g.len(), i * g.len() + g.len()),
                    g,
                ) by {
                    assert(b[i] == product[i]);
                }
            }
        }
    }
    assert(b.len() == proof.b_agg@.len());
}

/// Where samples are asked for, all four messages have been read and absorbed, in their order,
/// and a challenge has been drawn after the last.
pub proof fn sampling_has_read_all_messages(
    crs: LabradorCRS,
    proof: LabradorProof,
    rel: Relation,
    t: Transcript,
    unread: Seq<u8>,
)
    requires
        fold_reading(crs, proof, rel, t, unread).decision matches Ok(RoundDecision::Sample { .. }),
    ensures
        ({
            let (m1, m2, m3, m4) = fold_messages(proof);
            let messages = m1 + m2 + m3 + m4;
            let reading = fold_reading(crs, proof, rel, t, unread);
            &&& reading.read == messages.len()
            &&& reading.transcript.absorbed == t.absorbed + messages
            &&& reading.transcript.protocol == t.protocol
            &&& reading.transcript.session == t.session
            &&& m4.len() > 0 ==> reading.transcript.drawn == 1
        }),
{
    let (m1, m2, m3, m4) = fold_messages(proof);
    let e = t.absorbed;
    assert(e + m1 + m2 + m3 + m4 =~= e + (m1 + m2 + m3 + m4));
    assert(m1.len() == 0 ==> e + m1 =~= e);
    assert(m2.len() == 0 ==> e + m1 + m2 =~= e + m1);
    assert(m3.len() == 0 ==> e + m1 + m2 + m3 =~= e + m1 + m2);
    assert(m4.len() == 0 ==> e + m1 + m2 + m3 + m4 =~= e + m1 + m2 + m3);
}

/// A transcript that ends within the first message is an error, and nothing is taken in.
pub proof fn short_fold_transcript_is_an_error(
    crs: LabradorCRS,
    proof: LabradorProof,
    rel: Relation,
    t: Transcript,
    unread: Seq<u8>,
)
    requires
        unread.len() < 512 * proof.u_1@.len(),
    ensures
        fold_reading(crs, proof, rel, t, unread).decision == Err::<RoundDecision, GreyhoundError>(
            GreyhoundError::TranscriptTooShort,
        ),
        fold_reading(crs, proof, rel, t, unread).transcript == t,
        fold_reading(crs, proof, rel, t, unread).read == 0,
{
    crate::bytes::lemma_rqs_bytes_len(proof.u_1@);
}

/// The seeds and the challenges with which a folding round goes on answer the messages in the
/// proof, and its garbage terms are those whose digits the proof holds.
pub proof fn samples_answer_the_messages(
    crs: LabradorCRS,
    proof: LabradorProof,
    rel: Relation,
    t: Transcript,
    unread: Seq<u8>,
)
    requires
        fold_reading(crs, proof, rel, t, unread).decision matches Ok(RoundDecision::Sample { .. }),
    ensures
        ({
            let (m1, m2, m3, m4) = fold_messages(proof);
            let seeds = fold_seeds(t, m1, m2, m3, m4);
            &&& fold_reading(crs, proof, rel, t, unread).decision matches Ok(
                RoundDecision::Sample { psi_seed, phi_seed, c, g },
            )
            &&& psi_seed == seeds.psi
            &&& phi_seed == seeds.phi
            &&& c == drawn_challenges(seeds.c, crs.r as int).0
            &&& g == recompose(
                rqs(proof.G_flat@),
                crs.r * (crs.r + 1) / 2,
                crs.t2 as int,
                crs.b2 as int,
            )
            &&& opening_checks(crs, proof, rel, c) == Ok::<bool, GreyhoundError>(true)
        }),
{
}

/// The first block of checks ends in an error exactly where an ill-sized product comes up before
/// an equation fails: at the first outer commitment, at the second, at the inner commitments and
/// at the gadget relation, in this order.
pub proof fn ill_sized_openings_are_errors(
    crs: LabradorCRS,
    proof: LabradorProof,
    rel: Relation,
    c: Seq<Rq>,
)
    ensures
        ({
            let pairs = crs.r * (crs.r + 1) / 2;
            let (wb, wc, wd) = (crs.t1 * crs.r * crs.k, crs.t2 * pairs, crs.t1 * pairs);
            let (t, g, h) = (rqs(proof.t_flat@), rqs(proof.G_flat@), rqs(proof.H_flat@));
            let z = rqs(proof.z_folded@);
            let first_fits = crs.k1 == crs.k2 && crs.k1 > 0 && wb > 0 && wc > 0 && crs.B@.len()
                == crs.k1 * wb && proof.t_flat@.len() == wb && crs.C@.len() == crs.k2 * wc
                && proof.G_flat@.len() == wc;
            let second_fits = wd > 0 && crs.D_mat@.len() == crs.k1 * wd && proof.H_flat@.len()
                == wd;
            let inner_fits = crs.k > 0 && rel.n_s > 0 && rel.A_ajtai.len() == crs.k * rel.n_s
                && proof.z_folded@.len() == rel.n_w + rel.n_t + rel.n_s;
            let first = rqs(proof.u_1@) == first_commitment(crs, t, g);
            let second = rqs(proof.u_2@) == mat_vec(rqs(crs.D_mat@), crs.k1 as int, wd, h);
            let inner = mat_vec(
                rel.A_ajtai,
                crs.k as int,
                rel.n_s,
                z.subrange(rel.n_w + rel.n_t, rel.n_w + rel.n_t + rel.n_s),
            ) == fold_rows(c, recomposed_commitments(crs, t), crs.k as int);
            opening_checks(crs, proof, rel, c) is Err <==> !first_fits || (first && (!second_fits
                || (second && (!inner_fits || (inner && rel.a_eval.len() > rel.n_s)))))
        }),
{
}

/// The second block of checks ends in an error exactly if the weights do not fit, or if they do,
/// the aggregated terms are right and another length is wrong.
pub proof fn ill_sized_samples_are_errors(
    crs: LabradorCRS,
    proof: LabradorProof,
    rel: Relation,
    c: Seq<Rq>,
    g: Seq<Rq>,
    psi: Seq<int>,
    phi: Seq<int>,
)
    ensures
        ({
            let n = rel.n_w + rel.n_t + rel.n_s;
            let pairs = crs.r * (crs.r + 1) / 2;
            let fit = crs.num_aggregs > 0 && g.len() > 0 && psi.len() == 64 * (crs.num_aggregs
                * g.len());
            let aggregated = rqs(proof.b_agg@) == mat_vec(
                packed(psi),
                crs.num_aggregs as int,
                g.len() as int,
                g,
            );
            let others = proof.H_flat@.len() == crs.t1 * pairs && proof.z_folded@.len() == n && n
                > 0 && c.len() == crs.r && crs.r > 0 && phi.len() == 64 * (crs.r * n);
            sampled_checks(crs, proof, rel, c, g, psi, phi) is Err <==> !fit || (aggregated
                && !others)
        }),
        sampled_checks(crs, proof, rel, c, g, psi, phi) matches Err(e) ==> e
            == GreyhoundError::InvalidDimensions,
{
}

/// A transcript that is cut off within the messages of a folding round is an error, as long as no
/// projection is too large.
pub proof fn cut_fold_transcript_is_an_error(
    crs: LabradorCRS,
    proof: LabradorProof,
    rel: Relation,
    t: Transcript,
    kept: int,
)
    requires
        ({
            let (m1, m2, m3, m4) = fold_messages(proof);
            0 <= kept < (m1 + m2 + m3 + m4).len()
        }),
        forall|i: int|
            0 <= i < proof.p@.len() ==> magnitude_sq((#[trigger] proof.p@[i])@)
                < crs.norm_bound_sq,
    ensures
        ({
            let (m1, m2, m3, m4) = fold_messages(proof);
            fold_reading(crs, proof, rel, t, (m1 + m2 + m3 + m4).take(kept)).decision == Err::<
                RoundDecision,
                GreyhoundError,
            >(GreyhoundError::TranscriptTooShort)
        }),
{
    let (m1, m2, m3, m4) = fold_messages(proof);
    let unread = (m1 + m2 + m3 + m4).take(kept);
    let e1 = m1.len() as int;
    let e2 = e1 + m2.len();
    let e3 = e2 + m3.len();
    assert forall|i: int| 0 <= i < zqs(proof.p@).len() implies #[trigger] magnitude_sq(
        zqs(proof.p@)[i],
    ) < crs.norm_bound_sq by {
        assert(zqs(proof.p@)[i] == proof.p@[i]@);
    }
    if kept >= e1 {
        assert(unread.take(e1) =~= m1);
        if kept >= e2 {
            assert(unread.skip(e1).take(m2.len() as int) =~= m2);
            if kept >= e3 {
                assert(unread.skip(e2).take(m3.len() as int) =~= m3);
            }
        }
    }
}

} // verus!
