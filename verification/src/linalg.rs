//! Vectors and matrices of ring elements. Matrices are flat and row-major.
use vstd::prelude::*;

use crate::error::GreyhoundError;
use crate::poly::{add_poly, mul_poly, rqs, scale_poly_host, PolyRing};
use crate::ring_laws::entries_of_mat_vec;
use crate::rq::{rq_add, rq_dot, rq_mul, rq_scale, rq_sum, Rq};
use crate::zq::{zq_pow, Zq};

verus! {

/// `A * v` for a matrix with `rows` rows and `cols` columns.
pub open spec fn mat_vec(a: Seq<Rq>, rows: int, cols: int, v: Seq<Rq>) -> Seq<Rq> {
    Seq::new(rows as nat, |i: int| rq_sum(|j: int| rq_mul(a[i * cols + j], v[j]), cols))
}

/// `A * B^T` for two matrices with `cols` columns: the entry in row `i` and column `l` is the
/// inner product of row `i` of `A` and row `l` of `B`.
pub open spec fn mat_mul_transposed(
    a: Seq<Rq>,
    rows_a: int,
    b: Seq<Rq>,
    rows_b: int,
    cols: int,
) -> Seq<Rq> {
    Seq::new(
        (rows_a * rows_b) as nat,
        |x: int| row_product(a, x / rows_b, b, x % rows_b, cols),
    )
}

/// The inner product of row `i` of `A` and row `l` of `B`, both with `cols` columns.
pub open spec fn row_product(a: Seq<Rq>, i: int, b: Seq<Rq>, l: int, cols: int) -> Rq {
    rq_sum(|j: int| rq_mul(a[i * cols + j], b[l * cols + j]), cols)
}

/// `c^T * S` for a matrix `S` with a row of length `cols` for each entry of `c`.
pub open spec fn fold_rows(c: Seq<Rq>, s: Seq<Rq>, cols: int) -> Seq<Rq> {
    Seq::new(
        cols as nat,
        |j: int| rq_sum(|i: int| rq_mul(c[i], s[i * cols + j]), c.len() as int),
    )
}

/// The value number `i` out of `num` whose base-`base` digits are stored digit by digit:
/// digit `k` of all values comes before digit `k + 1` of any.
pub open spec fn recomposed(digits: Seq<Rq>, num: int, count: int, base: int, i: int) -> Rq {
    rq_sum(|k: int| rq_scale(digits[k * num + i], zq_pow(base, k as nat)), count)
}

/// All `num` values whose digits are stored digit by digit.
pub open spec fn recompose(digits: Seq<Rq>, num: int, count: int, base: int) -> Seq<Rq> {
    Seq::new(num as nat, |i: int| recomposed(digits, num, count, base, i))
}

/// `digits` are `count` digits of each of `values` for the base `base`, digit by digit: that
/// is, they recompose to `values`.
pub open spec fn is_decomposition(
    digits: Seq<Rq>,
    values: Seq<Rq>,
    count: int,
    base: int,
) -> bool {
    &&& digits.len() == values.len() * count
    &&& recompose(digits, values.len() as int, count, base) == values
}

/// Entrywise addition.
pub open spec fn vec_add(a: Seq<Rq>, b: Seq<Rq>) -> Seq<Rq> {
    Seq::new(a.len(), |i: int| rq_add(a[i], b[i]))
}

/// Position `(i, j)` of a matrix lies inside its flat form, and division recovers it.
pub proof fn lemma_flat_index(i: int, j: int, rows: int, cols: int)
    requires
        0 <= i < rows,
        0 <= j < cols,
    ensures
        0 <= i * cols,
        i * cols + cols <= rows * cols,
        0 <= i * cols + j < rows * cols,
        (i * cols + j) / cols == i,
        (i * cols + j) % cols == j,
{
    assert(0 <= i * cols) by (nonlinear_arith)
        requires
            0 <= i,
            0 <= cols,
    ;
    assert(i * cols + cols <= rows * cols) by (nonlinear_arith)
        requires
            i + 1 <= rows,
            0 <= cols,
    ;
    vstd::arithmetic::div_mod::lemma_fundamental_div_mod_converse(i * cols + j, cols, i, j);
}

/// A flat position splits into a row and a column.
pub proof fn lemma_flat_split(x: int, rows: int, cols: int)
    requires
        0 <= x < rows * cols,
        0 <= rows,
        0 <= cols,
    ensures
        0 < cols,
        0 <= x / cols < rows,
        0 <= x % cols < cols,
        (x / cols) * cols + x % cols == x,
{
    assert(0 < cols) by (nonlinear_arith)
        requires
            0 <= x < rows * cols,
            0 <= cols,
    ;
    vstd::arithmetic::div_mod::lemma_fundamental_div_mod(x, cols);
    let (d, m) = (x / cols, x % cols);
    assert(cols * d == d * cols) by (nonlinear_arith);
    assert(d < rows) by (nonlinear_arith)
        requires
            d * cols + m == x,
            x < rows * cols,
            0 <= m,
            0 < cols,
    ;
    assert(0 <= d) by (nonlinear_arith)
        requires
            d * cols + m == x,
            0 <= x,
            m < cols,
            0 < cols,
    ;
}

/// Whether `len == rows * cols`.
pub fn is_product(len: usize, rows: usize, cols: usize) -> (r: bool)
    ensures
        r == (len == rows * cols),
{
    match rows.checked_mul(cols) {
        Some(p) => len == p,
        None => false,
    }
}

/// The inner product of `n` consecutive entries of two vectors.
pub fn dot_range(a: &[PolyRing], a0: usize, b: &[PolyRing], b0: usize, n: usize) -> (r: PolyRing)
    requires
        a0 + n <= a.len(),
        b0 + n <= b.len(),
    ensures
        r@ == rq_sum(|j: int| rq_mul(rqs(a@)[a0 + j], rqs(b@)[b0 + j]), n as int),
{
    let ghost f = |j: int| rq_mul(rqs(a@)[a0 + j], rqs(b@)[b0 + j]);
    let mut acc = PolyRing::zero();
    for j in 0..n
        invariant
            a0 + n <= a.len(),
            b0 + n <= b.len(),
            f == (|j: int| rq_mul(rqs(a@)[a0 + j], rqs(b@)[b0 + j])),
            acc@ == rq_sum(f, j as int),
    {
        let t = mul_poly(&a[a0 + j], &b[b0 + j]);
        acc = add_poly(&acc, &t);
    }
    acc
}

/// The inner product of two vectors of the same length.
pub fn dot_product_host(a: &[PolyRing], b: &[PolyRing]) -> (r: PolyRing)
    requires
        a.len() == b.len(),
    ensures
        r@ == rq_dot(rqs(a@), rqs(b@)),
{
    proof {
        crate::rq::lemma_rq_sum_same(
            |j: int| rq_mul(rqs(a@)[0usize + j], rqs(b@)[0usize + j]),
            |i: int| rq_mul(rqs(a@)[i], rqs(b@)[i]),
            a.len() as int,
        );
    }
    dot_range(a, 0, b, 0, a.len())
}

/// Entrywise addition of two vectors of the same length.
pub fn vec_add_host(a: &[PolyRing], b: &[PolyRing]) -> (r: Vec<PolyRing>)
    requires
        a.len() == b.len(),
    ensures
        r@.len() == a@.len(),
        rqs(r@) == vec_add(rqs(a@), rqs(b@)),
        forall|i: int| 0 <= i < a@.len() ==> (#[trigger] r@[i])@ == rq_add(a@[i]@, b@[i]@),
{
    let mut r: Vec<PolyRing> = Vec::new();
    for i in 0..a.len()
        invariant
            a.len() == b.len(),
            r@.len() == i,
            forall|j: int| 0 <= j < i ==> (#[trigger] r@[j])@ == rq_add(a@[j]@, b@[j]@),
    {
        r.push(add_poly(&a[i], &b[i]));
    }
    assert(rqs(r@) =~= vec_add(rqs(a@), rqs(b@)));
    r
}

/// `A * v`, for a nonempty matrix whose size matches the vector.
pub fn device_ntt_matmul(a: &[PolyRing], rows: usize, cols: usize, v: &[PolyRing]) -> (r: Result<
    Vec<PolyRing>,
    GreyhoundError,
>)
    ensures
        r is Ok == matmul_fits(a.len() as int, rows as int, cols as int, v.len() as int),
        r is Ok == (rows > 0 && cols > 0 && a.len() == rows * cols && v.len() == cols),
        r matches Ok(out) ==> forall|i: int|
            0 <= i < rows ==> (#[trigger] out@[i])@ == rq_dot(
                rqs(a@).subrange(i * cols, i * cols + cols),
                rqs(v@),
            ),
        r matches Err(e) ==> e == GreyhoundError::InvalidDimensions,
        r matches Ok(out) ==> out@.len() == rows && rqs(out@) == mat_vec(
            rqs(a@),
            rows as int,
            cols as int,
            rqs(v@),
        ),
{
    if rows == 0 || cols == 0 || !is_product(a.len(), rows, cols) || v.len() != cols {
        return Err(GreyhoundError::InvalidDimensions);
    }
    let mut out: Vec<PolyRing> = Vec::new();
    for i in 0..rows
        invariant
            a.len() == rows * cols,
            v.len() == cols,
            out@.len() == i,
            forall|l: int|
                0 <= l < i ==> (#[trigger] out@[l])@ == rq_sum(
                    |j: int| rq_mul(rqs(a@)[l * cols + j], rqs(v@)[j]),
                    cols as int,
                ),
    {
        proof {
            if cols > 0 {
                lemma_flat_index(i as int, 0, rows as int, cols as int);
            }
        }
        let start: usize = i * cols;
        let p = dot_range(a, start, v, 0, cols);
        proof {
            crate::rq::lemma_rq_sum_same(
                |j: int| rq_mul(rqs(a@)[start + j], rqs(v@)[0usize + j]),
                |j: int| rq_mul(rqs(a@)[i * cols + j], rqs(v@)[j]),
                cols as int,
            );
        }
        out.push(p);
    }
    assert(rqs(out@) =~= mat_vec(rqs(a@), rows as int, cols as int, rqs(v@)));
    assert forall|i: int| 0 <= i < rows implies (#[trigger] out@[i])@ == rq_dot(
        rqs(a@).subrange(i * cols, i * cols + cols),
        rqs(v@),
    ) by {
        entries_of_mat_vec(rqs(a@), rows as int, cols as int, rqs(v@), i);
        assert(rqs(out@)[i] == out@[i]@);
    }
    Ok(out)
}

/// A nonempty matrix of `len` entries has `rows` rows and `cols` columns, and a vector of
/// length `v_len` can be multiplied by it.
pub open spec fn matmul_fits(len: int, rows: int, cols: int, v_len: int) -> bool {
    rows > 0 && cols > 0 && len == rows * cols && v_len == cols
}

/// `A * B^T`, for nonempty matrices whose sizes match.
pub fn matmul_transposed(
    a: &[PolyRing],
    rows_a: usize,
    b: &[PolyRing],
    rows_b: usize,
    cols: usize,
) -> (r: Result<Vec<PolyRing>, GreyhoundError>)
    ensures
        r is Ok == (rows_a > 0 && rows_b > 0 && cols > 0 && a.len() == rows_a * cols && b.len()
            == rows_b * cols),
        r matches Err(e) ==> e == GreyhoundError::InvalidDimensions,
        r matches Ok(out) ==> out@.len() == rows_a * rows_b && rqs(out@) == mat_mul_transposed(
            rqs(a@),
            rows_a as int,
            rqs(b@),
            rows_b as int,
            cols as int,
        ),
{
    if rows_a == 0 || rows_b == 0 || cols == 0 || !is_product(a.len(), rows_a, cols)
        || !is_product(b.len(), rows_b, cols) {
        return Err(GreyhoundError::InvalidDimensions);
    }
    let mut out: Vec<PolyRing> = Vec::new();
    assert(0 * rows_b == 0);
    for i in 0..rows_a
        invariant
            rows_b > 0,
            cols > 0,
            a.len() == rows_a * cols,
            b.len() == rows_b * cols,
            out@.len() == i * rows_b,
            forall|x: int|
                0 <= x < i * rows_b ==> (#[trigger] out@[x])@ == row_product(
                    rqs(a@),
                    x / rows_b as int,
                    rqs(b@),
                    x % rows_b as int,
                    cols as int,
                ),
    {
        proof {
            lemma_flat_index(i as int, 0, rows_a as int, cols as int);
        }
        let sa: usize = i * cols;
        for l in 0..rows_b
            invariant
                i < rows_a,
                cols > 0,
                sa == i * cols,
                sa + cols <= a.len(),
                b.len() == rows_b * cols,
                out@.len() == i * rows_b + l,
                forall|x: int|
                    0 <= x < i * rows_b + l ==> (#[trigger] out@[x])@ == row_product(
                        rqs(a@),
                        x / rows_b as int,
                        rqs(b@),
                        x % rows_b as int,
                        cols as int,
                    ),
        {
            proof {
                lemma_flat_index(l as int, 0, rows_b as int, cols as int);
                lemma_flat_index(i as int, l as int, rows_a as int, rows_b as int);
            }
            let sb: usize = l * cols;
            let p = dot_range(a, sa, b, sb, cols);
            proof {
                crate::rq::lemma_rq_sum_same(
                    |j: int| rq_mul(rqs(a@)[sa + j], rqs(b@)[sb + j]),
                    |j: int| rq_mul(rqs(a@)[i * cols + j], rqs(b@)[l * cols + j]),
                    cols as int,
                );
            }
            out.push(p);
        }
        proof {
            assert(i * rows_b + rows_b == (i + 1) * rows_b) by (nonlinear_arith);
        }
    }
    assert(rqs(out@) =~= mat_mul_transposed(
        rqs(a@),
        rows_a as int,
        rqs(b@),
        rows_b as int,
        cols as int,
    ));
    Ok(out)
}

/// `c^T * S`, for nonempty sizes that match.
pub fn matmul_fold(c: &[PolyRing], s: &[PolyRing], cols: usize) -> (r: Result<
    Vec<PolyRing>,
    GreyhoundError,
>)
    ensures
        r is Ok == (c.len() > 0 && cols > 0 && s.len() == c.len() * cols),
        r matches Err(e) ==> e == GreyhoundError::InvalidDimensions,
        r matches Ok(out) ==> out@.len() == cols && rqs(out@) == fold_rows(
            rqs(c@),
            rqs(s@),
            cols as int,
        ),
{
    let n = c.len();
    if n == 0 || cols == 0 || !is_product(s.len(), n, cols) {
        return Err(GreyhoundError::InvalidDimensions);
    }
    let mut out: Vec<PolyRing> = Vec::new();
    for j in 0..cols
        invariant
            n == c.len(),
            s.len() == n * cols,
            out@.len() == j,
            forall|l: int|
                0 <= l < j ==> (#[trigger] out@[l])@ == rq_sum(
                    |i: int| rq_mul(rqs(c@)[i], rqs(s@)[i * cols + l]),
                    n as int,
                ),
    {
        let ghost f = |i: int| rq_mul(rqs(c@)[i], rqs(s@)[i * cols + j]);
        let mut acc = PolyRing::zero();
        for i in 0..n
            invariant
                n == c.len(),
                j < cols,
                s.len() == n * cols,
                f == (|i: int| rq_mul(rqs(c@)[i], rqs(s@)[i * cols + j])),
                acc@ == rq_sum(f, i as int),
        {
            proof {
                lemma_flat_index(i as int, j as int, n as int, cols as int);
            }
            let t = mul_poly(&c[i], &s[i * cols + j]);
            acc = add_poly(&acc, &t);
        }
        out.push(acc);
    }
    assert(rqs(out@) =~= fold_rows(rqs(c@), rqs(s@), cols as int));
    Ok(out)
}

/// The values whose digits are stored digit by digit.
pub fn recompose_digit_major(
    digits: &[PolyRing],
    num_values: usize,
    digit_count: usize,
    base: u32,
) -> (r: Vec<PolyRing>)
    requires
        digits.len() == num_values * digit_count,
    ensures
        r@.len() == num_values,
        rqs(r@) == recompose(rqs(digits@), num_values as int, digit_count as int, base as int),
{
    let base_zq = Zq::from(base);
    let mut powers: Vec<Zq> = Vec::new();
    let mut b_pow = Zq::one();
    for k in 0..digit_count
        invariant
            base_zq@ == base,
            b_pow@ == zq_pow(base as int, k as nat),
            powers@.len() == k,
            forall|j: int| 0 <= j < k ==> (#[trigger] powers@[j])@ == zq_pow(base as int, j as nat),
    {
        powers.push(b_pow);
        b_pow = b_pow.times(base_zq);
    }
    let mut out: Vec<PolyRing> = Vec::new();
    for i in 0..num_values
        invariant
            digits.len() == num_values * digit_count,
            powers@.len() == digit_count,
            forall|j: int|
                0 <= j < digit_count ==> (#[trigger] powers@[j])@ == zq_pow(base as int, j as nat),
            out@.len() == i,
            forall|l: int|
                0 <= l < i ==> (#[trigger] out@[l])@ == recomposed(
                    rqs(digits@),
                    num_values as int,
                    digit_count as int,
                    base as int,
                    l,
                ),
    {
        let ghost f = |k: int|
            rq_scale(rqs(digits@)[k * num_values + i], zq_pow(base as int, k as nat));
        let mut acc = PolyRing::zero();
        for k in 0..digit_count
            invariant
                i < num_values,
                digits.len() == num_values * digit_count,
                powers@.len() == digit_count,
                forall|j: int|
                    0 <= j < digit_count ==> (#[trigger] powers@[j])@ == zq_pow(
                        base as int,
                        j as nat,
                    ),
                f == (|k: int|
                    rq_scale(rqs(digits@)[k * num_values + i], zq_pow(base as int, k as nat))),
                acc@ == rq_sum(f, k as int),
        {
            proof {
                lemma_flat_index(k as int, i as int, digit_count as int, num_values as int);
                assert(digit_count * num_values == num_values * digit_count) by (nonlinear_arith);
            }
            let t = scale_poly_host(&digits[k * num_values + i], powers[k]);
            acc = add_poly(&acc, &t);
        }
        out.push(acc);
    }
    assert(rqs(out@) =~= recompose(
        rqs(digits@),
        num_values as int,
        digit_count as int,
        base as int,
    ));
    out
}

} // verus!
