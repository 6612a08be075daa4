//! The relation `P z = h` is linear in `z` and `h`, and `z` determines `h`.
use vstd::prelude::*;

use crate::error::GreyhoundError;
use crate::labrador::Relation;
use crate::linalg::{lemma_flat_index, mat_vec, recomposed, vec_add};
use crate::rq::{
    is_rq, lemma_rq_add_regroup, lemma_rq_mul_add, lemma_rq_scale_add, lemma_rq_sum_plus,
    lemma_rq_sum_same, rq_add, rq_dot, rq_mul, rq_scale, Rq,
};
use crate::zq::{modq, q, zq_pow};

verus! {

/// The relation with another right-hand side.
pub open spec fn with_target(rel: Relation, h: Seq<Rq>) -> Relation {
    Relation { h_target: h, ..rel }
}

/// An inner product is linear in its second factor.
proof fn lemma_dot_linear(a: Seq<Rq>, b: Seq<Rq>, c: Seq<Rq>)
    requires
        a.len() <= b.len(),
        b.len() == c.len(),
    ensures
        rq_dot(a, vec_add(b, c)) == rq_add(rq_dot(a, b), rq_dot(a, c)),
{
    let n = a.len() as int;
    let (f, g) = (|i: int| rq_mul(a[i], b[i]), |i: int| rq_mul(a[i], c[i]));
    let both = |i: int| rq_mul(a[i], vec_add(b, c)[i]);
    assert forall|i: int| 0 <= i < n implies #[trigger] both(i) == rq_add(f(i), g(i)) by {
        lemma_rq_mul_add(a[i], b[i], c[i]);
    }
    lemma_rq_sum_same(both, |i: int| rq_add(f(i), g(i)), n);
    lemma_rq_sum_plus(f, g, n);
}

/// A product of a matrix and a vector is linear in the vector.
proof fn lemma_mat_vec_linear(a: Seq<Rq>, rows: int, cols: int, b: Seq<Rq>, c: Seq<Rq>)
    requires
        0 <= rows,
        b.len() == cols,
        c.len() == cols,
    ensures
        mat_vec(a, rows, cols, vec_add(b, c)) == vec_add(
            mat_vec(a, rows, cols, b),
            mat_vec(a, rows, cols, c),
        ),
{
    let left = mat_vec(a, rows, cols, vec_add(b, c));
    let right = vec_add(mat_vec(a, rows, cols, b), mat_vec(a, rows, cols, c));
    assert forall|i: int| 0 <= i < rows implies #[trigger] left[i] == right[i] by {
        let (f, g) = (
            |j: int| rq_mul(a[i * cols + j], b[j]),
            |j: int| rq_mul(a[i * cols + j], c[j]),
        );
        let both = |j: int| rq_mul(a[i * cols + j], vec_add(b, c)[j]);
        assert forall|j: int| 0 <= j < cols implies #[trigger] both(j) == rq_add(f(j), g(j)) by {
            lemma_rq_mul_add(a[i * cols + j], b[j], c[j]);
        }
        lemma_rq_sum_same(both, |j: int| rq_add(f(j), g(j)), cols);
        lemma_rq_sum_plus(f, g, cols);
    }
    assert(left =~= right);
}

/// Recomposing is linear in the digits.
proof fn lemma_recomposed_linear(
    a: Seq<Rq>,
    b: Seq<Rq>,
    num: int,
    count: int,
    base: int,
    i: int,
)
    requires
        0 <= i < num,
        0 <= count,
        a.len() == count * num,
        b.len() == count * num,
    ensures
        recomposed(vec_add(a, b), num, count, base, i) == rq_add(
            recomposed(a, num, count, base, i),
            recomposed(b, num, count, base, i),
        ),
{
    let (f, g) = (
        |k: int| rq_scale(a[k * num + i], zq_pow(base, k as nat)),
        |k: int| rq_scale(b[k * num + i], zq_pow(base, k as nat)),
    );
    let both = |k: int| rq_scale(vec_add(a, b)[k * num + i], zq_pow(base, k as nat));
    assert forall|k: int| 0 <= k < count implies #[trigger] both(k) == rq_add(f(k), g(k)) by {
        lemma_flat_index(k, i, count, num);
        lemma_rq_scale_add(a[k * num + i], b[k * num + i], zq_pow(base, k as nat));
    }
    lemma_rq_sum_same(both, |k: int| rq_add(f(k), g(k)), count);
    lemma_rq_sum_plus(f, g, count);
}

/// The parts of a relation that do not depend on the right-hand side.
proof fn lemma_target_aside(rel: Relation, h: Seq<Rq>, base: int, z: Seq<Rq>)
    ensures
        with_target(rel, h).inner_products(base, z) == rel.inner_products(base, z),
        with_target(rel, h).folded_commitments(base, z) == rel.folded_commitments(base, z),
{
    let t = with_target(rel, h);
    let (x, y) = (t.folded_commitments(base, z), rel.folded_commitments(base, z));
    assert forall|row: int| 0 <= row < x.len() implies #[trigger] x[row] == y[row] by {
        lemma_rq_sum_same(
            |i: int| rq_mul(t.c_eval[i], t.column_commitment(base, z, i, row)),
            |i: int| rq_mul(rel.c_eval[i], rel.column_commitment(base, z, i, row)),
            t.columns(),
        );
    }
    assert(x =~= y);
}

/// What an accepted witness says of the sizes of the relation.
pub proof fn lemma_sizes(rel: Relation, base: int, z: Seq<Rq>)
    requires
        rel.outcome(base, z) == Ok::<bool, GreyhoundError>(true),
    ensures
        rel.n_commit > 0,
        rel.n_w > 0,
        rel.n_t > 0,
        rel.n_s > 0,
        rel.n_w == (rel.n_w / rel.columns()) * rel.columns(),
        rel.n_w / rel.columns() > 0,
        rel.n_t == rel.columns() * rel.t_width(),
        rel.t_width() > 0,
        rel.t_width() == (rel.t_width() / rel.n_commit) * rel.n_commit,
        rel.t_width() / rel.n_commit > 0,
{
    let (n, r, nw, nt) = (rel.n_commit, rel.columns(), rel.n_w, rel.n_t);
    assert(nw >= 0) by (nonlinear_arith)
        requires
            n > 0,
            n * nw >= 0,
    ;
    assert(nt >= 0) by (nonlinear_arith)
        requires
            n > 0,
            n * nt >= 0,
    ;
    let (a, b) = (nw / r, nt / r);
    vstd::arithmetic::div_mod::lemma_fundamental_div_mod(nw, r);
    vstd::arithmetic::div_mod::lemma_fundamental_div_mod(nt, r);
    vstd::arithmetic::div_mod::lemma_fundamental_div_mod(b, n);
    assert(r * a == a * r) by (nonlinear_arith);
    assert(a > 0) by (nonlinear_arith)
        requires
            nw == r * a,
            nw > 0,
            r > 0,
    ;
    assert(b > 0) by (nonlinear_arith)
        requires
            nt == r * b,
            nt > 0,
            r > 0,
    ;
    let d = b / n;
    assert(n * d == d * n) by (nonlinear_arith);
    assert(d > 0) by (nonlinear_arith)
        requires
            b == n * d,
            b > 0,
            n > 0,
    ;
}

/// The inner products in a sum of witnesses.
proof fn lemma_inner_products_linear(rel: Relation, base: int, z1: Seq<Rq>, z2: Seq<Rq>)
    requires
        rel.outcome(base, z1) == Ok::<bool, GreyhoundError>(true),
        z2.len() == z1.len(),
    ensures
        rel.inner_products(base, vec_add(z1, z2)) == vec_add(
            rel.inner_products(base, z1),
            rel.inner_products(base, z2),
        ),
{
    lemma_sizes(rel, base, z1);
    let (r, count) = (rel.columns(), rel.n_w / rel.columns());
    let (a, b) = (rel.w_part(z1), rel.w_part(z2));
    assert(rel.w_part(vec_add(z1, z2)) =~= vec_add(a, b));
    let left = rel.inner_products(base, vec_add(z1, z2));
    let right = vec_add(rel.inner_products(base, z1), rel.inner_products(base, z2));
    assert forall|i: int| 0 <= i < r implies #[trigger] left[i] == right[i] by {
        lemma_recomposed_linear(a, b, r, count, base, i);
    }
    assert(left =~= right);
}

/// The folded column commitments in a sum of witnesses.
proof fn lemma_folded_commitments_linear(rel: Relation, base: int, z1: Seq<Rq>, z2: Seq<Rq>)
    requires
        rel.outcome(base, z1) == Ok::<bool, GreyhoundError>(true),
        z2.len() == z1.len(),
    ensures
        rel.folded_commitments(base, vec_add(z1, z2)) == vec_add(
            rel.folded_commitments(base, z1),
            rel.folded_commitments(base, z2),
        ),
{
    lemma_sizes(rel, base, z1);
    let (r, width, n) = (rel.columns(), rel.t_width(), rel.n_commit);
    let z = vec_add(z1, z2);
    let left = rel.folded_commitments(base, z);
    let right = vec_add(rel.folded_commitments(base, z1), rel.folded_commitments(base, z2));
    assert forall|row: int| 0 <= row < n implies #[trigger] left[row] == right[row] by {
        let (f, g) = (
            |i: int| rq_mul(rel.c_eval[i], rel.column_commitment(base, z1, i, row)),
            |i: int| rq_mul(rel.c_eval[i], rel.column_commitment(base, z2, i, row)),
        );
        let both = |i: int| rq_mul(rel.c_eval[i], rel.column_commitment(base, z, i, row));
        assert forall|i: int| 0 <= i < r implies #[trigger] both(i) == rq_add(f(i), g(i)) by {
            lemma_flat_index(i, 0, r, width);
            let (lo, hi) = (i * width, i * width + width);
            let (a, b) = (rel.t_part(z1).subrange(lo, hi), rel.t_part(z2).subrange(lo, hi));
            assert(rel.t_part(z).subrange(lo, hi) =~= vec_add(a, b));
            lemma_recomposed_linear(a, b, n, width / n, base, row);
            lemma_rq_mul_add(
                rel.c_eval[i],
                rel.column_commitment(base, z1, i, row),
                rel.column_commitment(base, z2, i, row),
            );
        }
        lemma_rq_sum_same(both, |i: int| rq_add(f(i), g(i)), r);
        lemma_rq_sum_plus(f, g, r);
    }
    assert(left =~= right);
}

/// The relation is linear: the sum of two witnesses is a witness for the sum of their right-hand
/// sides.
pub proof fn relation_is_linear(
    rel: Relation,
    base: int,
    h1: Seq<Rq>,
    z1: Seq<Rq>,
    h2: Seq<Rq>,
    z2: Seq<Rq>,
)
    requires
        with_target(rel, h1).outcome(base, z1) == Ok::<bool, GreyhoundError>(true),
        with_target(rel, h2).outcome(base, z2) == Ok::<bool, GreyhoundError>(true),
    ensures
        with_target(rel, vec_add(h1, h2)).outcome(base, vec_add(z1, z2)) == Ok::<
            bool,
            GreyhoundError,
        >(true),
{
    let (z, h) = (vec_add(z1, z2), vec_add(h1, h2));
    let (r1, r2, r3) = (with_target(rel, h1), with_target(rel, h2), with_target(rel, h));
    let n = rel.n_commit;
    lemma_sizes(r1, base, z1);
    lemma_target_aside(rel, h1, base, z1);
    lemma_target_aside(rel, h2, base, z2);
    lemma_target_aside(rel, h1, base, z2);
    lemma_target_aside(rel, h, base, z);
    lemma_target_aside(rel, h1, base, z);
    lemma_inner_products_linear(r1, base, z1, z2);
    lemma_folded_commitments_linear(r1, base, z1, z2);
    assert(r3.w_part(z) =~= vec_add(r1.w_part(z1), r2.w_part(z2)));
    assert(r3.t_part(z) =~= vec_add(r1.t_part(z1), r2.t_part(z2)));
    assert(r3.s_part(z) =~= vec_add(r1.s_part(z1), r2.s_part(z2)));
    assert(r3.h_v() =~= vec_add(r1.h_v(), r2.h_v()));
    assert(r3.h_u() =~= vec_add(r1.h_u(), r2.h_u()));
    assert(r3.h_rows() =~= vec_add(r1.h_rows(), r2.h_rows()));
    lemma_mat_vec_linear(rel.D_commit, n, rel.n_w, r1.w_part(z1), r2.w_part(z2));
    lemma_mat_vec_linear(rel.B_commit, n, rel.n_t, r1.t_part(z1), r2.t_part(z2));
    lemma_mat_vec_linear(rel.A_ajtai, n, rel.n_s, r1.s_part(z1), r2.s_part(z2));
    let (w1, w2) = (r1.inner_products(base, z1), r2.inner_products(base, z2));
    lemma_dot_linear(rel.b_eval, w1, w2);
    lemma_dot_linear(rel.c_eval, w1, w2);
    lemma_dot_linear(rel.a_eval, r1.s_part(z1), r2.s_part(z2));
    assert(r3.row_v(z));
    assert(r3.row_u(z));
    assert(r3.row_y(base, z));
    lemma_rq_add_regroup(
        rq_dot(rel.a_eval, r1.s_part(z1)),
        r1.h_fold(),
        rq_dot(rel.a_eval, r2.s_part(z2)),
        r2.h_fold(),
    );
    assert(r3.row_fold(base, z));
    let (a1, a2) = (
        mat_vec(rel.A_ajtai, n, rel.n_s, r1.s_part(z1)),
        mat_vec(rel.A_ajtai, n, rel.n_s, r2.s_part(z2)),
    );
    let (left, right) = (
        r3.folded_commitments(base, z),
        vec_add(vec_add(a1, a2), r3.h_rows()),
    );
    assert forall|row: int| 0 <= row < n implies #[trigger] left[row] == right[row] by {
        lemma_rq_add_regroup(a1[row], r1.h_rows()[row], a2[row], r2.h_rows()[row]);
        assert(r1.folded_commitments(base, z1)[row] == rq_add(a1[row], r1.h_rows()[row]));
        assert(r2.folded_commitments(base, z2)[row] == rq_add(a2[row], r2.h_rows()[row]));
    }
    assert(left =~= right);
    assert(r3.row_commit(base, z));
}

/// A summand is determined by the other one and the sum.
pub proof fn lemma_rq_cancel(a: Rq, b: Rq, c: Rq)
    requires
        is_rq(b),
        is_rq(c),
        rq_add(a, b) == rq_add(a, c),
    ensures
        b == c,
{
    assert forall|k: int| 0 <= k < 64 implies #[trigger] b[k] == c[k] by {
        let (x, y) = (a[k] + b[k], a[k] + c[k]);
        assert(rq_add(a, b)[k] == modq(x));
        assert(rq_add(a, c)[k] == modq(y));
        vstd::arithmetic::div_mod::lemma_fundamental_div_mod(x, q());
        vstd::arithmetic::div_mod::lemma_fundamental_div_mod(y, q());
        let (d, e) = (x / q(), y / q());
        assert(d == e) by (nonlinear_arith)
            requires
                -q() < x - y < q(),
                x - y == q() * d - q() * e,
                q() > 0,
        ;
    }
    assert(b =~= c);
}

/// A witness has one right-hand side: if it is accepted for two with reduced entries, these are
/// the same, in every entry.
pub proof fn accepted_target_is_unique(
    rel: Relation,
    base: int,
    h1: Seq<Rq>,
    h2: Seq<Rq>,
    z: Seq<Rq>,
)
    requires
        with_target(rel, h1).outcome(base, z) == Ok::<bool, GreyhoundError>(true),
        with_target(rel, h2).outcome(base, z) == Ok::<bool, GreyhoundError>(true),
        forall|i: int| 0 <= i < h1.len() ==> is_rq(#[trigger] h1[i]),
        forall|i: int| 0 <= i < h2.len() ==> is_rq(#[trigger] h2[i]),
    ensures
        h1 == h2,
{
    let (r1, r2) = (with_target(rel, h1), with_target(rel, h2));
    let n = rel.n_commit;
    lemma_sizes(r1, base, z);
    lemma_target_aside(rel, h1, base, z);
    lemma_target_aside(rel, h2, base, z);
    assert forall|i: int| 0 <= i < h1.len() implies #[trigger] h1[i] == h2[i] by {
        if i < n {
            assert(r1.h_v()[i] == r2.h_v()[i]);
        } else if i < 2 * n {
            assert(r1.h_u()[i - n] == r2.h_u()[i - n]);
        } else if i == 2 * n + 1 {
            lemma_rq_cancel(rq_dot(rel.a_eval, r1.s_part(z)), h1[i], h2[i]);
        } else if i > 2 * n + 1 {
            let row = i - (2 * n + 2);
            let az = mat_vec(rel.A_ajtai, n, rel.n_s, r1.s_part(z));
            assert(vec_add(az, r1.h_rows())[row] == rq_add(az[row], h1[i]));
            assert(vec_add(az, r2.h_rows())[row] == rq_add(az[row], h2[i]));
            lemma_rq_cancel(az[row], h1[i], h2[i]);
        }
    }
    assert(h1 =~= h2);
}

} // verus!
