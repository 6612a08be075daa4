//! The linear relation `P z = h`, row by row.
use vstd::prelude::*;

use crate::error::GreyhoundError;
use crate::labrador::Relation;
use crate::linalg::{mat_vec, recompose, vec_add};
use crate::linearity::lemma_sizes;
use crate::ring_laws::entries_of_mat_vec;
use crate::rq::{lemma_rq_sum_same, rq_add, rq_dot, rq_mul, rq_sum, Rq};

verus! {

/// The three equations for commitment row `i`: row `i` of `D` takes the decomposed inner products
/// to `h[i]`; row `i` of `B` takes the decomposed column commitments to `h[n + i]`; and entry `i`
/// of the column commitments, folded by the challenge, is what row `i` of `A` takes the folded
/// column to, plus `h[2 n + 2 + i]`.
pub open spec fn row_equations(rel: Relation, base: int, z: Seq<Rq>, i: int) -> bool {
    let n = rel.n_commit;
    let width = rel.n_t / (rel.c_eval.len() as int);
    let w = z.subrange(0, rel.n_w);
    let t = z.subrange(rel.n_w, rel.n_w + rel.n_t);
    let s = z.subrange(rel.n_w + rel.n_t, rel.n_w + rel.n_t + rel.n_s);
    &&& rq_dot(rel.D_commit.subrange(i * rel.n_w, i * rel.n_w + rel.n_w), w) == rel.h_target[i]
    &&& rq_dot(rel.B_commit.subrange(i * rel.n_t, i * rel.n_t + rel.n_t), t) == rel.h_target[n + i]
    &&& rq_sum(
        |j: int|
            rq_mul(
                rel.c_eval[j],
                recompose(t.subrange(j * width, j * width + width), n, width / n, base)[i],
            ),
        rel.c_eval.len() as int,
    ) == rq_add(
        rq_dot(rel.A_ajtai.subrange(i * rel.n_s, i * rel.n_s + rel.n_s), s),
        rel.h_target[2 * n + 2 + i],
    )
}

/// The two equations for the inner products in a witness: weighted they add up to `h[2 n]`, and
/// folded by the challenge they are the weighted folded column plus `h[2 n + 1]`.
pub open spec fn product_equations(rel: Relation, base: int, z: Seq<Rq>) -> bool {
    let (n, r) = (rel.n_commit, rel.c_eval.len() as int);
    let w = recompose(z.subrange(0, rel.n_w), r, rel.n_w / r, base);
    let s = z.subrange(rel.n_w + rel.n_t, rel.n_w + rel.n_t + rel.n_s);
    &&& rq_dot(rel.b_eval, w) == rel.h_target[2 * n]
    &&& rq_dot(rel.c_eval, w) == rq_add(rq_dot(rel.a_eval, s), rel.h_target[2 * n + 1])
}

/// The lengths under which the relation is checked at all.
pub open spec fn sizes_fit(rel: Relation, z_len: int) -> bool {
    let r = rel.c_eval.len() as int;
    &&& r > 0
    &&& rel.n_commit > 0 && rel.n_w > 0 && rel.n_t > 0 && rel.n_s > 0
    &&& z_len == rel.n_w + rel.n_t + rel.n_s
    &&& rel.h_target.len() == 3 * rel.n_commit + 2
    &&& rel.n_w % r == 0 && rel.n_t % r == 0 && (rel.n_t / r) % rel.n_commit == 0
    &&& rel.b_eval.len() == r
    &&& rel.a_eval.len() == rel.n_s
    &&& rel.D_commit.len() == rel.n_commit * rel.n_w
    &&& rel.B_commit.len() == rel.n_commit * rel.n_t
    &&& rel.A_ajtai.len() == rel.n_commit * rel.n_s
}

/// What the row blocks say of one row.
proof fn lemma_rows(rel: Relation, base: int, z: Seq<Rq>, i: int)
    requires
        sizes_fit(rel, z.len() as int),
        0 <= i < rel.n_commit,
    ensures
        ({
            let n = rel.n_commit;
            let dw = mat_vec(rel.D_commit, n, rel.n_w, rel.w_part(z));
            let bt = mat_vec(rel.B_commit, n, rel.n_t, rel.t_part(z));
            let right = vec_add(
                mat_vec(rel.A_ajtai, n, rel.n_s, rel.s_part(z)),
                rel.h_rows(),
            );
            row_equations(rel, base, z, i) == (dw[i] == rel.h_v()[i] && bt[i] == rel.h_u()[i]
                && rel.folded_commitments(base, z)[i] == right[i])
        }),
{
    let (n, r) = (rel.n_commit, rel.c_eval.len() as int);
    let width = rel.n_t / r;
    let t = z.subrange(rel.n_w, rel.n_w + rel.n_t);
    entries_of_mat_vec(rel.D_commit, n, rel.n_w, rel.w_part(z), i);
    entries_of_mat_vec(rel.B_commit, n, rel.n_t, rel.t_part(z), i);
    entries_of_mat_vec(rel.A_ajtai, n, rel.n_s, rel.s_part(z), i);
    assert(rel.t_part(z) =~= t);
    lemma_rq_sum_same(
        |j: int| rq_mul(rel.c_eval[j], rel.column_commitment(base, z, j, i)),
        |j: int|
            rq_mul(
                rel.c_eval[j],
                recompose(t.subrange(j * width, j * width + width), n, width / n, base)[i],
            ),
        r,
    );
}

/// A witness is accepted exactly if every size fits and every one of the `3 n + 2` rows of
/// `P z = h` holds.
pub proof fn accepted_if_every_row_holds(rel: Relation, base: int, z: Seq<Rq>)
    ensures
        (rel.outcome(base, z) == Ok::<bool, GreyhoundError>(true)) <==> {
            &&& sizes_fit(rel, z.len() as int)
            &&& product_equations(rel, base, z)
            &&& forall|i: int|
                0 <= i < rel.n_commit ==> #[trigger] row_equations(rel, base, z, i)
        },
{
    let n = rel.n_commit;
    if rel.outcome(base, z) == Ok::<bool, GreyhoundError>(true) {
        lemma_sizes(rel, base, z);
        assert forall|i: int| 0 <= i < n implies #[trigger] row_equations(rel, base, z, i) by {
            lemma_rows(rel, base, z, i);
        }
    } else if sizes_fit(rel, z.len() as int) && product_equations(rel, base, z) && (forall|i: int|
        0 <= i < n ==> #[trigger] row_equations(rel, base, z, i)) {
        let dw = mat_vec(rel.D_commit, n, rel.n_w, rel.w_part(z));
        let bt = mat_vec(rel.B_commit, n, rel.n_t, rel.t_part(z));
        let right = vec_add(mat_vec(rel.A_ajtai, n, rel.n_s, rel.s_part(z)), rel.h_rows());
        assert forall|i: int| 0 <= i < n implies (#[trigger] dw[i]) == rel.h_v()[i] && bt[i]
            == rel.h_u()[i] && rel.folded_commitments(base, z)[i] == right[i] by {
            assert(row_equations(rel, base, z, i));
            lemma_rows(rel, base, z, i);
        }
        assert(dw =~= rel.h_v());
        assert forall|i: int| 0 <= i < n implies (#[trigger] bt[i]) == rel.h_u()[i] by {
            assert(dw[i] == rel.h_v()[i]);
        }
        assert(bt =~= rel.h_u());
        assert forall|i: int| 0 <= i < n implies (#[trigger] rel.folded_commitments(base, z)[i])
            == right[i] by {
            assert(dw[i] == rel.h_v()[i]);
        }
        assert(rel.folded_commitments(base, z) =~= right);
    }
}

/// A witness of another length than the three blocks together is refused.
pub proof fn witness_of_wrong_length_is_refused(rel: Relation, base: int, z: Seq<Rq>)
    requires
        z.len() != rel.n_w + rel.n_t + rel.n_s,
    ensures
        rel.outcome(base, z) == Ok::<bool, GreyhoundError>(false),
{
}

/// Row `i` of `D` takes the decomposed inner products to `h[i]`.
pub open spec fn message_row(rel: Relation, z: Seq<Rq>, i: int) -> bool {
    rq_dot(
        rel.D_commit.subrange(i * rel.n_w, i * rel.n_w + rel.n_w),
        z.subrange(0, rel.n_w),
    ) == rel.h_target[i]
}

/// Row `i` of `B` takes the decomposed column commitments to `h[n + i]`.
pub open spec fn commitment_row(rel: Relation, z: Seq<Rq>, i: int) -> bool {
    rq_dot(
        rel.B_commit.subrange(i * rel.n_t, i * rel.n_t + rel.n_t),
        z.subrange(rel.n_w, rel.n_w + rel.n_t),
    ) == rel.h_target[rel.n_commit + i]
}

/// The lengths that are compared before any product is taken.
pub open spec fn lengths_agree(rel: Relation, z_len: int) -> bool {
    let r = rel.c_eval.len() as int;
    &&& r > 0
    &&& z_len == rel.n_w + rel.n_t + rel.n_s
    &&& rel.h_target.len() == 3 * rel.n_commit + 2
    &&& rel.n_w % r == 0 && rel.n_t % r == 0
    &&& rel.b_eval.len() == r
    &&& rel.a_eval.len() == rel.n_s
    &&& rel.D_commit.len() == rel.n_commit * rel.n_w
    &&& rel.B_commit.len() == rel.n_commit * rel.n_t
}

/// Checking ends in an error exactly where a product with an empty or ill-sized matrix comes up:
/// at once with `D`; after the rows of `D` with `B`; and after all rows but the last block with
/// `A`. Lengths that do not agree, and rows that fail before that, are a rejection.
pub proof fn errors_come_from_ill_sized_products(rel: Relation, base: int, z: Seq<Rq>)
    requires
        rel.n_w >= 0 && rel.n_t >= 0 && rel.n_s >= 0 && rel.n_commit >= 0,
    ensures
        rel.outcome(base, z) is Err <==> lengths_agree(rel, z.len() as int) && (rel.n_commit == 0
            || rel.n_w == 0 || ((forall|i: int|
            0 <= i < rel.n_commit ==> #[trigger] message_row(rel, z, i)) && (rel.n_t == 0 || ((
        forall|i: int|
            0 <= i < rel.n_commit ==> #[trigger] commitment_row(rel, z, i)) && product_equations(
            rel,
            base,
            z,
        ) && (rel.n_t / (rel.c_eval.len() as int)) % rel.n_commit == 0 && (rel.n_s == 0
            || rel.A_ajtai.len() != rel.n_commit * rel.n_s))))),
        rel.outcome(base, z) matches Err(e) ==> e == GreyhoundError::InvalidDimensions,
        !lengths_agree(rel, z.len() as int) ==> rel.outcome(base, z) == Ok::<bool, GreyhoundError>(
            false,
        ),
{
    let n = rel.n_commit;
    if lengths_agree(rel, z.len() as int) && n > 0 && rel.n_w > 0 {
        let dw = mat_vec(rel.D_commit, n, rel.n_w, rel.w_part(z));
        let bt = mat_vec(rel.B_commit, n, rel.n_t, rel.t_part(z));
        assert forall|i: int| 0 <= i < n implies #[trigger] message_row(rel, z, i) == (dw[i]
            == rel.h_v()[i]) by {
            entries_of_mat_vec(rel.D_commit, n, rel.n_w, rel.w_part(z), i);
        }
        assert forall|i: int| 0 <= i < n implies #[trigger] commitment_row(rel, z, i) == (bt[i]
            == rel.h_u()[i]) by {
            entries_of_mat_vec(rel.B_commit, n, rel.n_t, rel.t_part(z), i);
        }
        if forall|i: int| 0 <= i < n ==> #[trigger] message_row(rel, z, i) {
            assert forall|i: int| 0 <= i < n implies #[trigger] dw[i] == rel.h_v()[i] by {
                assert(message_row(rel, z, i));
            }
            assert(dw =~= rel.h_v());
        }
        if forall|i: int| 0 <= i < n ==> #[trigger] commitment_row(rel, z, i) {
            assert forall|i: int| 0 <= i < n implies #[trigger] bt[i] == rel.h_u()[i] by {
                assert(commitment_row(rel, z, i));
            }
            assert(bt =~= rel.h_u());
        }
    }
}

} // verus!
