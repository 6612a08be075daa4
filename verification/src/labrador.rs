//! The Labrador argument: the relation that it proves and the check of a witness for it.
use vstd::prelude::*;
use vstd::slice::slice_subrange;

use crate::error::GreyhoundError;
use crate::linalg::{
    device_ntt_matmul, dot_product_host, is_product, mat_vec, recompose, recompose_digit_major,
    recomposed, vec_add, vec_add_host,
};
use crate::poly::{add_poly, mul_poly, poly_equal, poly_vecs_equal, rqs, PolyRing};
use crate::rq::{rq_add, rq_dot, rq_mul, rq_sum, Rq, DEGREE};
use crate::zq::Zq;

verus! {

/// Common reference string for one round of the argument. Matrices are flat and row-major.
#[allow(non_snake_case)]
pub struct LabradorCRS {
    /// Number of witness vectors.
    pub r: usize,
    /// Length of each witness vector.
    pub n: usize,
    /// Ring degree.
    pub d: usize,
    /// Bound on the squared norm of the witness.
    pub norm_bound_sq: u128,
    /// Rank of the inner commitment matrix `A`, which is `k` by `n`.
    pub k: usize,
    /// Rank of the outer commitment matrices `B` and `D_mat`.
    pub k1: usize,
    /// Rank of the outer commitment matrix `C`.
    pub k2: usize,
    /// Number of digits in base `b1`.
    pub t1: usize,
    /// Number of digits in base `b2`.
    pub t2: usize,
    /// Base of the digits in a witness.
    pub b: u32,
    /// Base of the digits of inner commitments and of linear garbage terms.
    pub b1: u32,
    /// Base of the digits of quadratic garbage terms.
    pub b2: u32,
    /// Number of aggregated constraints.
    pub num_aggregs: usize,
    /// Number of constraints.
    pub num_constraints: usize,
    /// Inner commitment matrix.
    pub A: Vec<PolyRing>,
    /// Outer commitment matrix for the inner commitments.
    pub B: Vec<PolyRing>,
    /// Outer commitment matrix for the quadratic garbage terms.
    pub C: Vec<PolyRing>,
    /// Outer commitment matrix for the linear garbage terms.
    pub D_mat: Vec<PolyRing>,
}

/// The linear relation `P z = h` that an evaluation proof comes down to. `P` is held by the
/// matrices and vectors that it is composed of.
#[allow(non_snake_case)]
pub struct ConstraintSystem {
    /// Weights of the entries within a decomposed column.
    pub a_eval: Vec<PolyRing>,
    /// Weights of the columns.
    pub b_eval: Vec<PolyRing>,
    /// Challenge, one entry for each column.
    pub c_eval: Vec<PolyRing>,
    /// The polynomial whose product with a chunk has the chunk's value as its constant term.
    pub sigma_inv_x: PolyRing,
    /// Inner commitment matrix, `n_commit` by `n_s`.
    pub A_ajtai: Vec<PolyRing>,
    /// Outer commitment matrix, `n_commit` by `n_t`.
    pub B_commit: Vec<PolyRing>,
    /// Commitment matrix for the inner products, `n_commit` by `n_w`.
    pub D_commit: Vec<PolyRing>,
    /// Right-hand side `h`.
    pub h_target: Vec<PolyRing>,
    /// Length of the block of decomposed inner products.
    pub n_w: usize,
    /// Length of the block of decomposed column commitments.
    pub n_t: usize,
    /// Length of the folded column.
    pub n_s: usize,
    /// Number of commitment rows.
    pub n_commit: usize,
}

/// The secret input of the argument.
pub struct LabradorWitness {
    /// Witness for the linear relation: decomposed inner products, decomposed column
    /// commitments, folded column.
    pub z: Vec<PolyRing>,
    /// Witness vectors for the row-folding round; empty where `z` is proved directly.
    pub s: Vec<Vec<PolyRing>>,
}

/// The output of one round of the prover.
#[allow(non_snake_case)]
pub struct LabradorProof {
    /// Outer commitment to the inner commitments and the quadratic garbage terms.
    pub u_1: Vec<PolyRing>,
    /// Projections of the witness.
    pub p: Vec<Zq>,
    /// Aggregated quadratic garbage terms.
    pub b_agg: Vec<PolyRing>,
    /// Outer commitment to the linear garbage terms.
    pub u_2: Vec<PolyRing>,
    /// The witness, or its folding.
    pub z_folded: Vec<PolyRing>,
    /// Digits of the inner commitments.
    pub t_flat: Vec<PolyRing>,
    /// Digits of the quadratic garbage terms.
    pub G_flat: Vec<PolyRing>,
    /// Digits of the linear garbage terms.
    pub H_flat: Vec<PolyRing>,
}

/// The number of pairs out of `r` things, in no order.
pub fn pair_count(r: usize) -> (res: usize)
    requires
        r * (r + 1) <= usize::MAX,
    ensures
        res == r * (r + 1) / 2,
{
    proof {
        if r > 0 {
            assert(r + 1 <= r * (r + 1)) by (nonlinear_arith)
                requires
                    r >= 1,
            ;
        }
    }
    r * (r + 1) / 2
}

impl LabradorCRS {
    /// The width of `B`.
    pub open spec fn b_width(self) -> int {
        self.t1 * self.r * self.k
    }

    /// The number of pairs of witness vectors, in no order.
    pub open spec fn pairs(self) -> int {
        self.r * (self.r + 1) / 2
    }

    /// The width of `C`.
    pub open spec fn c_width(self) -> int {
        self.t2 * self.pairs()
    }

    /// The width of `D_mat`.
    pub open spec fn d_width(self) -> int {
        self.t1 * self.pairs()
    }

    /// Every size that the argument works with can be counted.
    pub open spec fn countable(self) -> bool {
        &&& self.t1 * self.r <= usize::MAX
        &&& self.b_width() <= usize::MAX
        &&& self.k * self.t1 <= usize::MAX
        &&& self.r * self.k <= usize::MAX
        &&& self.r * (self.r + 1) <= usize::MAX
        &&& self.c_width() <= usize::MAX
        &&& self.d_width() <= usize::MAX
    }

    /// The lengths of the matrices `A`, `B`, `C` and `D_mat`; `None` if one cannot be counted.
    pub fn matrix_lens(r: usize, n: usize, k: usize, k1: usize, k2: usize, t1: usize, t2: usize)
        -> (res: Option<(usize, usize, usize, usize)>)
        requires
            t1 * r <= usize::MAX,
            t1 * r * k <= usize::MAX,
            r * (r + 1) <= usize::MAX,
            t2 * (r * (r + 1) / 2) <= usize::MAX,
            t1 * (r * (r + 1) / 2) <= usize::MAX,
        ensures
            res is Some == (k * n <= usize::MAX && k1 * (t1 * r * k) <= usize::MAX && k2 * (t2 * (r
                * (r + 1) / 2)) <= usize::MAX && k1 * (t1 * (r * (r + 1) / 2)) <= usize::MAX),
            res matches Some(l) ==> l.0 == k * n && l.1 == k1 * (t1 * r * k) && l.2 == k2 * (t2 * (r
                * (r + 1) / 2)) && l.3 == k1 * (t1 * (r * (r + 1) / 2)),
    {
        let pairs: usize = pair_count(r);
        match (
            k.checked_mul(n),
            k1.checked_mul(t1 * r * k),
            k2.checked_mul(t2 * pairs),
            k1.checked_mul(t1 * pairs),
        ) {
            (Some(a), Some(b), Some(c), Some(d)) => Some((a, b, c, d)),
            _ => None,
        }
    }

    /// Puts a reference string together out of its sizes and four matrices of random elements,
    /// which are refused if their lengths do not fit the sizes.
    #[allow(non_snake_case)]
    pub fn setup(
        r: usize,
        n: usize,
        k: usize,
        k1: usize,
        k2: usize,
        t1: usize,
        t2: usize,
        b: u32,
        b1: u32,
        b2: u32,
        num_aggregs: usize,
        num_constraints: usize,
        norm_bound_sq: u128,
        A: Vec<PolyRing>,
        B: Vec<PolyRing>,
        C: Vec<PolyRing>,
        D_mat: Vec<PolyRing>,
    ) -> (res: Result<LabradorCRS, GreyhoundError>)
        requires
            t1 * r <= usize::MAX,
            t1 * r * k <= usize::MAX,
            r * (r + 1) <= usize::MAX,
            t2 * (r * (r + 1) / 2) <= usize::MAX,
            t1 * (r * (r + 1) / 2) <= usize::MAX,
        ensures
            res is Ok == (A@.len() == k * n && B@.len() == k1 * (t1 * r * k) && C@.len() == k2 * (t2
                * (r * (r + 1) / 2)) && D_mat@.len() == k1 * (t1 * (r * (r + 1) / 2))),
            res matches Err(e) ==> e == GreyhoundError::InvalidDimensions,
            res matches Ok(crs) ==> crs == (LabradorCRS {
                r,
                n,
                d: 64,
                norm_bound_sq,
                k,
                k1,
                k2,
                t1,
                t2,
                b,
                b1,
                b2,
                num_aggregs,
                num_constraints,
                A,
                B,
                C,
                D_mat,
            }),
    {
        let pairs: usize = pair_count(r);
        if !is_product(A.len(), k, n) || !is_product(B.len(), k1, t1 * r * k) || !is_product(
            C.len(),
            k2,
            t2 * pairs,
        ) || !is_product(D_mat.len(), k1, t1 * pairs) {
            return Err(GreyhoundError::InvalidDimensions);
        }
        Ok(
            LabradorCRS {
                r,
                n,
                d: DEGREE,
                norm_bound_sq,
                k,
                k1,
                k2,
                t1,
                t2,
                b,
                b1,
                b2,
                num_aggregs,
                num_constraints,
                A,
                B,
                C,
                D_mat,
            },
        )
    }

    /// The width of `B`.
    pub fn b_cols(&self) -> (res: usize)
        requires
            self.t1 * self.r <= usize::MAX,
            self.b_width() <= usize::MAX,
        ensures
            res == self.b_width(),
            res == self.t1 * self.r * self.k,
    {
        self.t1 * self.r * self.k
    }

    /// The width of `C`.
    pub fn c_cols(&self) -> (res: usize)
        requires
            self.r * (self.r + 1) <= usize::MAX,
            self.c_width() <= usize::MAX,
        ensures
            res == self.c_width(),
            res == self.t2 * (self.r * (self.r + 1) / 2),
    {
        self.t2 * pair_count(self.r)
    }

    /// The width of `D_mat`.
    pub fn d_cols(&self) -> (res: usize)
        requires
            self.r * (self.r + 1) <= usize::MAX,
            self.d_width() <= usize::MAX,
        ensures
            res == self.d_width(),
            res == self.t1 * (self.r * (self.r + 1) / 2),
    {
        self.t1 * pair_count(self.r)
    }
}

/// The linear relation in mathematical terms.
#[allow(non_snake_case)]
pub struct Relation {
    /// Weights of the entries within a decomposed column.
    pub a_eval: Seq<Rq>,
    /// Weights of the columns.
    pub b_eval: Seq<Rq>,
    /// Challenge.
    pub c_eval: Seq<Rq>,
    /// The polynomial whose product with a chunk has the chunk's value as its constant term.
    pub sigma_inv_x: Rq,
    /// Inner commitment matrix.
    pub A_ajtai: Seq<Rq>,
    /// Outer commitment matrix.
    pub B_commit: Seq<Rq>,
    /// Commitment matrix for the inner products.
    pub D_commit: Seq<Rq>,
    /// Right-hand side.
    pub h_target: Seq<Rq>,
    /// Length of the block of decomposed inner products.
    pub n_w: int,
    /// Length of the block of decomposed column commitments.
    pub n_t: int,
    /// Length of the folded column.
    pub n_s: int,
    /// Number of commitment rows.
    pub n_commit: int,
}

impl View for ConstraintSystem {
    type V = Relation;

    open spec fn view(&self) -> Relation {
        Relation {
            a_eval: rqs(self.a_eval@),
            b_eval: rqs(self.b_eval@),
            c_eval: rqs(self.c_eval@),
            sigma_inv_x: self.sigma_inv_x@,
            A_ajtai: rqs(self.A_ajtai@),
            B_commit: rqs(self.B_commit@),
            D_commit: rqs(self.D_commit@),
            h_target: rqs(self.h_target@),
            n_w: self.n_w as int,
            n_t: self.n_t as int,
            n_s: self.n_s as int,
            n_commit: self.n_commit as int,
        }
    }
}

impl Relation {
    /// The number of columns.
    pub open spec fn columns(self) -> int {
        self.c_eval.len() as int
    }

    /// The length of a witness.
    pub open spec fn witness_len(self) -> int {
        self.n_w + self.n_t + self.n_s
    }

    /// The lengths of the witness and of the parts of the relation fit together.
    pub open spec fn shaped(self, z_len: int) -> bool {
        &&& z_len == self.witness_len()
        &&& self.h_target.len() == 3 * self.n_commit + 2
        &&& self.columns() > 0
        &&& self.n_w % self.columns() == 0
        &&& self.n_t % self.columns() == 0
        &&& self.b_eval.len() == self.columns()
        &&& self.a_eval.len() == self.n_s
        &&& self.D_commit.len() == self.n_commit * self.n_w
        &&& self.B_commit.len() == self.n_commit * self.n_t
    }

    /// The decomposed inner products in a witness.
    pub open spec fn w_part(self, z: Seq<Rq>) -> Seq<Rq> {
        z.subrange(0, self.n_w)
    }

    /// The decomposed column commitments in a witness.
    pub open spec fn t_part(self, z: Seq<Rq>) -> Seq<Rq> {
        z.subrange(self.n_w, self.n_w + self.n_t)
    }

    /// The folded column in a witness.
    pub open spec fn s_part(self, z: Seq<Rq>) -> Seq<Rq> {
        z.subrange(self.n_w + self.n_t, self.witness_len())
    }

    /// The inner products in a witness.
    pub open spec fn inner_products(self, base: int, z: Seq<Rq>) -> Seq<Rq> {
        let r = self.columns();
        recompose(self.w_part(z), r, self.n_w / r, base)
    }

    /// The length of one column's decomposed commitment.
    pub open spec fn t_width(self) -> int {
        self.n_t / self.columns()
    }

    /// Entry `row` of the commitment to column `i` in a witness.
    pub open spec fn column_commitment(self, base: int, z: Seq<Rq>, i: int, row: int) -> Rq {
        let width = self.t_width();
        recomposed(
            self.t_part(z).subrange(i * width, i * width + width),
            self.n_commit,
            width / self.n_commit,
            base,
            row,
        )
    }

    /// The column commitments in a witness, folded by the challenge.
    pub open spec fn folded_commitments(self, base: int, z: Seq<Rq>) -> Seq<Rq> {
        Seq::new(
            self.n_commit as nat,
            |row: int|
                rq_sum(
                    |i: int|
                        rq_mul(self.c_eval[i], self.column_commitment(base, z, i, row)),
                    self.columns(),
                ),
        )
    }

    /// The first block of `h`: the commitment to the inner products.
    pub open spec fn h_v(self) -> Seq<Rq> {
        self.h_target.subrange(0, self.n_commit)
    }

    /// The second block of `h`: the commitment to the column commitments.
    pub open spec fn h_u(self) -> Seq<Rq> {
        self.h_target.subrange(self.n_commit, 2 * self.n_commit)
    }

    /// The entry of `h` for the value of the polynomial.
    pub open spec fn h_y(self) -> Rq {
        self.h_target[2 * self.n_commit]
    }

    /// The entry of `h` for the folded inner products.
    pub open spec fn h_fold(self) -> Rq {
        self.h_target[2 * self.n_commit + 1]
    }

    /// The last block of `h`: for the folded column commitments.
    pub open spec fn h_rows(self) -> Seq<Rq> {
        self.h_target.subrange(2 * self.n_commit + 2, 3 * self.n_commit + 2)
    }

    /// `D w = v`.
    pub open spec fn row_v(self, z: Seq<Rq>) -> bool {
        mat_vec(self.D_commit, self.n_commit, self.n_w, self.w_part(z))
            == self.h_v()
    }

    /// `B t = u`.
    pub open spec fn row_u(self, z: Seq<Rq>) -> bool {
        mat_vec(self.B_commit, self.n_commit, self.n_t, self.t_part(z))
            == self.h_u()
    }

    /// The weighted inner products add up to the value.
    pub open spec fn row_y(self, base: int, z: Seq<Rq>) -> bool {
        rq_dot(self.b_eval, self.inner_products(base, z)) == self.h_y()
    }

    /// The folded inner products are the weighted entries of the folded column.
    pub open spec fn row_fold(self, base: int, z: Seq<Rq>) -> bool {
        rq_dot(self.c_eval, self.inner_products(base, z)) == rq_add(
            rq_dot(self.a_eval, self.s_part(z)),
            self.h_fold(),
        )
    }

    /// The folded column commitments commit to the folded column.
    pub open spec fn row_commit(self, base: int, z: Seq<Rq>) -> bool {
        self.folded_commitments(base, z) == vec_add(
            mat_vec(self.A_ajtai, self.n_commit, self.n_s, self.s_part(z)),
            self.h_rows(),
        )
    }

    /// Whether `P z = h`, for digits of `z` in base `base`: the blocks of rows are checked in
    /// turn, and a product with an empty or ill-sized matrix is an error.
    pub open spec fn outcome(self, base: int, z: Seq<Rq>) -> Result<bool, GreyhoundError> {
        if !self.shaped(z.len() as int) {
            Ok(false)
        } else if self.n_commit == 0 || self.n_w == 0 {
            Err(GreyhoundError::InvalidDimensions)
        } else if !self.row_v(z) {
            Ok(false)
        } else if self.n_t == 0 {
            Err(GreyhoundError::InvalidDimensions)
        } else if !self.row_u(z) || !self.row_y(base, z) || !self.row_fold(base, z)
            || self.t_width() % self.n_commit != 0 {
            Ok(false)
        } else if self.n_s == 0 || self.A_ajtai.len() != self.n_commit * self.n_s {
            Err(GreyhoundError::InvalidDimensions)
        } else {
            Ok(self.row_commit(base, z))
        }
    }
}

/// The elements of a part are the part of the elements.
pub proof fn lemma_rqs_subrange(s: Seq<PolyRing>, lo: int, hi: int)
    requires
        0 <= lo <= hi <= s.len(),
    ensures
        rqs(s.subrange(lo, hi)) == rqs(s).subrange(lo, hi),
{
    assert(rqs(s.subrange(lo, hi)) =~= rqs(s).subrange(lo, hi));
}

/// `a[lo..hi]`.
fn part(a: &[PolyRing], lo: usize, hi: usize) -> (r: &[PolyRing])
    requires
        lo <= hi <= a.len(),
    ensures
        rqs(r@) == rqs(a@).subrange(lo as int, hi as int),
        r@ == a@.subrange(lo as int, hi as int),
{
    proof {
        lemma_rqs_subrange(a@, lo as int, hi as int);
    }
    slice_subrange(a, lo, hi)
}

impl ConstraintSystem {
    /// `n_w + n_t + n_s`, if it can be counted.
    pub fn checked_len(&self) -> (r: Option<usize>)
        ensures
            r is Some == (self@.witness_len() <= usize::MAX),
            r matches Some(n) ==> n == self@.witness_len(),
    {
        match self.n_w.checked_add(self.n_t) {
            Some(n) => n.checked_add(self.n_s),
            None => None,
        }
    }

    /// Whether the lengths fit together.
    fn is_shaped(&self, z_len: usize) -> (r: bool)
        ensures
            r == self@.shaped(z_len as int),
    {
        let r: usize = self.c_eval.len();
        match self.checked_len() {
            Some(n) => {
                if z_len != n {
                    return false;
                }
            },
            None => {
                return false;
            },
        }
        let h: usize = self.h_target.len();
        if h < 2 || (h - 2) % 3 != 0 || (h - 2) / 3 != self.n_commit {
            return false;
        }
        if r == 0 || self.n_w % r != 0 || self.n_t % r != 0 {
            return false;
        }
        if self.b_eval.len() != r || self.a_eval.len() != self.n_s {
            return false;
        }
        is_product(self.D_commit.len(), self.n_commit, self.n_w) && is_product(
            self.B_commit.len(),
            self.n_commit,
            self.n_t,
        )
    }

    /// The column commitments in a witness, folded by the challenge.
    fn fold_commitments(&self, base: u32, z: &[PolyRing]) -> (r: Vec<PolyRing>)
        requires
            self@.shaped(z.len() as int),
            self.n_commit > 0,
            self@.t_width() % self.n_commit as int == 0,
        ensures
            rqs(r@) == self@.folded_commitments(base as int, rqs(z@)),
    {
        let r: usize = self.c_eval.len();
        let width: usize = self.n_t / r;
        let digits: usize = width / self.n_commit;
        let z_t = part(z, self.n_w, self.n_w + self.n_t);
        let ghost term = |row: int|
            (|i: int|
                rq_mul(
                    rqs(self.c_eval@)[i],
                    self@.column_commitment(base as int, rqs(z@), i, row),
                ));
        proof {
            vstd::arithmetic::div_mod::lemma_fundamental_div_mod(self.n_t as int, r as int);
            vstd::arithmetic::div_mod::lemma_fundamental_div_mod(
                width as int,
                self.n_commit as int,
            );
        }
        assert(r * width == self.n_t);
        assert(self.n_commit * digits == width);
        let mut acc: Vec<PolyRing> = Vec::new();
        for row in 0..self.n_commit
            invariant
                acc@.len() == row,
                forall|l: int| 0 <= l < row ==> (#[trigger] acc@[l])@ == rq_sum(term(l), 0),
        {
            acc.push(PolyRing::zero());
        }
        for i in 0..r
            invariant
                r == self.c_eval@.len(),
                r > 0,
                r * width == self.n_t,
                self.n_commit * digits == width,
                self.n_commit > 0,
                width == self@.t_width(),
                digits == width as int / self.n_commit as int,
                rqs(z_t@) == self@.t_part(rqs(z@)),
                z_t.len() == self.n_t,
                term == (|row: int|
                    (|i: int|
                        rq_mul(
                            rqs(self.c_eval@)[i],
                            self@.column_commitment(base as int, rqs(z@), i, row),
                        ))),
                acc@.len() == self.n_commit,
                forall|l: int|
                    0 <= l < self.n_commit ==> (#[trigger] acc@[l])@ == rq_sum(term(l), i as int),
        {
            proof {
                assert(i * width + width <= r * width) by (nonlinear_arith)
                    requires
                        i + 1 <= r,
                        0 <= width,
                ;
                assert(0 <= i * width) by (nonlinear_arith);
            }
            let start: usize = i * width;
            let block = part(z_t, start, start + width);
            let t_i = recompose_digit_major(block, self.n_commit, digits, base);
            assert forall|l: int| 0 <= l < self.n_commit implies (#[trigger] t_i@[l])@
                == self@.column_commitment(base as int, rqs(z@), i as int, l) by {
                assert(rqs(t_i@)[l] == t_i@[l]@);
            }
            for row in 0..self.n_commit
                invariant
                    r == self.c_eval@.len(),
                    i < r,
                    term == (|row: int|
                        (|i: int|
                            rq_mul(
                                rqs(self.c_eval@)[i],
                                self@.column_commitment(base as int, rqs(z@), i, row),
                            ))),
                    t_i@.len() == self.n_commit,
                    forall|l: int|
                        0 <= l < self.n_commit ==> (#[trigger] t_i@[l])@ == self@.column_commitment(
                            base as int,
                            rqs(z@),
                            i as int,
                            l,
                        ),
                    acc@.len() == self.n_commit,
                    forall|l: int|
                        0 <= l < self.n_commit ==> (#[trigger] acc@[l])@ == rq_sum(
                            term(l),
                            if l < row {
                                i + 1
                            } else {
                                i as int
                            },
                        ),
            {
                let t = mul_poly(&self.c_eval[i], &t_i[row]);
                let sum = add_poly(&acc[row], &t);
                acc.set(row, sum);
            }
        }
        assert(rqs(acc@) =~= self@.folded_commitments(base as int, rqs(z@)));
        acc
    }
}

/// Whether `z` satisfies the linear relation, with digits in the base of the reference string.
pub fn verify_greyhound_pz(crs: &LabradorCRS, z: &[PolyRing], constraint: &ConstraintSystem) -> (r:
    Result<bool, GreyhoundError>)
    ensures
        r == constraint@.outcome(crs.b as int, rqs(z@)),
{
    if !constraint.is_shaped(z.len()) {
        return Ok(false);
    }
    let (n_w, n_t, n_s) = (constraint.n_w, constraint.n_t, constraint.n_s);
    let n_commit = constraint.n_commit;
    let r: usize = constraint.c_eval.len();
    let h = constraint.h_target.as_slice();
    assert(h.len() == 3 * n_commit + 2);
    let z_w = part(z, 0, n_w);
    let z_t = part(z, n_w, n_w + n_t);
    let z_s = part(z, n_w + n_t, z.len());

    let d_w = match device_ntt_matmul(constraint.D_commit.as_slice(), n_commit, n_w, z_w) {
        Ok(out) => out,
        Err(e) => {
            return Err(e);
        },
    };
    if !poly_vecs_equal(d_w.as_slice(), part(h, 0, n_commit)) {
        return Ok(false);
    }
    let b_t = match device_ntt_matmul(constraint.B_commit.as_slice(), n_commit, n_t, z_t) {
        Ok(out) => out,
        Err(e) => {
            return Err(e);
        },
    };
    if !poly_vecs_equal(b_t.as_slice(), part(h, n_commit, 2 * n_commit)) {
        return Ok(false);
    }
    let w_digits: usize = n_w / r;
    proof {
        vstd::arithmetic::div_mod::lemma_fundamental_div_mod(n_w as int, r as int);
    }
    let w = recompose_digit_major(z_w, r, w_digits, crs.b);
    let b_dot_w = dot_product_host(constraint.b_eval.as_slice(), w.as_slice());
    if !poly_equal(&b_dot_w, &h[2 * n_commit]) {
        return Ok(false);
    }
    let c_dot_w = dot_product_host(constraint.c_eval.as_slice(), w.as_slice());
    let a_dot_z = dot_product_host(constraint.a_eval.as_slice(), z_s);
    let row4_expected = add_poly(&a_dot_z, &h[2 * n_commit + 1]);
    if !poly_equal(&c_dot_w, &row4_expected) {
        return Ok(false);
    }
    if (n_t / r) % n_commit != 0 {
        return Ok(false);
    }
    let c_dot_t = constraint.fold_commitments(crs.b, z);
    let a_z = match device_ntt_matmul(constraint.A_ajtai.as_slice(), n_commit, n_s, z_s) {
        Ok(out) => out,
        Err(e) => {
            return Err(e);
        },
    };
    let row5_expected = vec_add_host(
        a_z.as_slice(),
        part(h, 2 * n_commit + 2, 3 * n_commit + 2),
    );
    Ok(poly_vecs_equal(c_dot_t.as_slice(), row5_expected.as_slice()))
}

} // verus!
