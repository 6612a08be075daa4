//! What sums, products and matrices of ring elements are, by how they grow with their arguments.
use vstd::prelude::*;

use crate::linalg::{fold_rows, lemma_flat_index, mat_mul_transposed, mat_vec, recompose};
use crate::rq::{
    coeff, conv, is_rq, lemma_coeff_stored, lemma_rq_add_zero, lemma_rq_scale_is_mul,
    lemma_rq_scale_laws, lemma_rq_sum_same, lemma_rq_sum_scale, lemma_rq_sum_split, rq_add,
    rq_const, rq_dot, rq_mul, rq_scale, rq_sum, rq_zero, Rq,
};
use crate::sums::{lemma_sum_split, lemma_sum_zero, sum};
use crate::zq::{lemma_modq_mul, lemma_modq_small, modq, q, zq_pow};

verus! {

/// A sum of no terms is zero, and a sum of one term is that term; `lemma_sum_split` gives the
/// rest.
pub proof fn sum_of_few(f: spec_fn(int) -> int, lo: int)
    ensures
        sum(f, lo, lo) == 0,
        sum(f, lo, lo + 1) == f(lo),
{
    assert(sum(f, lo, lo + 1) == sum(f, lo, lo) + f(lo));
}

/// A sum of no elements is zero, and a sum of one element is that element; `lemma_rq_sum_split`
/// gives the rest.
pub proof fn rq_sum_of_few(f: spec_fn(int) -> Rq)
    ensures
        rq_sum(f, 0) == rq_zero(),
        is_rq(f(0)) ==> rq_sum(f, 1) == f(0),
{
    assert(rq_sum(f, 1) == rq_add(rq_sum(f, 0), f(0)));
    if is_rq(f(0)) {
        lemma_rq_add_zero(f(0));
    }
}

/// `X^i`.
pub open spec fn monomial(i: int) -> Rq {
    Seq::new(
        64,
        |k: int|
            if k == i {
                1int
            } else {
                0
            },
    )
}

/// A sum with one term that is not zero.
proof fn lemma_sum_single(f: spec_fn(int) -> int, i: int, n: int)
    requires
        0 <= i < n,
        forall|k: int| 0 <= k < n && k != i ==> #[trigger] f(k) == 0,
    ensures
        sum(f, 0, n) == f(i),
{
    lemma_sum_split(f, 0, i, n);
    lemma_sum_split(f, i, i + 1, n);
    lemma_sum_zero(f, 0, i);
    lemma_sum_zero(f, i + 1, n);
    sum_of_few(f, i);
}

/// Multiplying by `X^i` moves every coefficient up by `i` places; what passes `X^63` comes in
/// again from below with the opposite sign.
pub proof fn monomial_shifts(i: int, a: Rq, k: int)
    requires
        0 <= i < 64,
        0 <= k < 64,
        is_rq(a),
    ensures
        rq_mul(monomial(i), a)[k] == (if k >= i {
            a[k - i]
        } else {
            modq(-a[k - i + 64])
        }),
{
    let x = monomial(i);
    let f = |l: int| coeff(x, l) * coeff(a, k - l);
    assert forall|l: int| 0 <= l < 64 && l != i implies #[trigger] f(l) == 0 by {
        lemma_coeff_stored(x, l);
        assert(0 * coeff(a, k - l) == 0);
    }
    lemma_sum_single(f, i, 64);
    lemma_coeff_stored(x, i);
    lemma_coeff_stored(a, k - i);
    assert(1 * coeff(a, k - i) == coeff(a, k - i));
    assert(rq_mul(x, a)[k] == modq(conv(x, a, k)));
    if k >= i {
        lemma_modq_small(a[k - i]);
    }
}

/// `X^i X^j` is `X^(i + j)`, or `-X^(i + j - 64)` where the degree passes 63.
pub proof fn monomials_multiply(i: int, j: int)
    requires
        0 <= i < 64,
        0 <= j < 64,
    ensures
        i + j < 64 ==> rq_mul(monomial(i), monomial(j)) == monomial(i + j),
        i + j >= 64 ==> rq_mul(monomial(i), monomial(j)) == rq_scale(monomial(i + j - 64), -1),
{
    let p = rq_mul(monomial(i), monomial(j));
    lemma_modq_small(0);
    if i + j < 64 {
        let r = monomial(i + j);
        assert forall|k: int| 0 <= k < 64 implies #[trigger] p[k] == r[k] by {
            monomial_shifts(i, monomial(j), k);
        }
        assert(p =~= r);
    } else {
        let r = rq_scale(monomial(i + j - 64), -1);
        assert forall|k: int| 0 <= k < 64 implies #[trigger] p[k] == r[k] by {
            monomial_shifts(i, monomial(j), k);
        }
        assert(p =~= r);
    }
}

/// One is neutral for multiplication.
pub proof fn one_is_neutral(a: Rq)
    requires
        is_rq(a),
    ensures
        rq_mul(rq_const(1), a) == a,
{
    lemma_rq_scale_is_mul(a, 1);
    lemma_rq_scale_laws(a, 1, 1);
}

/// Addition and scaling work on each coefficient for itself.
pub proof fn coefficients_add_and_scale(a: Rq, b: Rq, c: int, k: int)
    requires
        0 <= k < 64,
    ensures
        rq_add(a, b).len() == 64,
        rq_add(a, b)[k] == (a[k] + b[k]) % q(),
        rq_scale(a, c).len() == 64,
        rq_scale(a, c)[k] == (a[k] * c) % q(),
{
}

/// The inner product of joined vectors is the sum of the inner products, and that of vectors
/// with one entry is the product.
pub proof fn dot_of_joined(a: Seq<Rq>, b: Seq<Rq>, a2: Seq<Rq>, b2: Seq<Rq>)
    requires
        a.len() == b.len(),
        a2.len() == b2.len(),
    ensures
        rq_dot(a + a2, b + b2) == rq_add(rq_dot(a, b), rq_dot(a2, b2)),
        a.len() == 0 ==> rq_dot(a, b) == rq_zero(),
        a.len() == 1 ==> rq_dot(a, b) == rq_mul(a[0], b[0]),
{
    let (n, m) = (a.len() as int, a2.len() as int);
    let f = |i: int| rq_mul((a + a2)[i], (b + b2)[i]);
    lemma_rq_sum_split(f, n, m);
    lemma_rq_sum_same(f, |i: int| rq_mul(a[i], b[i]), n);
    lemma_rq_sum_same(|j: int| f(n + j), |i: int| rq_mul(a2[i], b2[i]), m);
    if n == 1 {
        let g = |i: int| rq_mul(a[i], b[i]);
        crate::rq::lemma_rq_new(|k: int| conv(a[0], b[0], k));
        assert(is_rq(g(0)));
        rq_sum_of_few(g);
    }
}

/// Entry `i` of `A v` is the inner product of row `i` of `A` and `v`.
pub proof fn entries_of_mat_vec(a: Seq<Rq>, rows: int, cols: int, v: Seq<Rq>, i: int)
    requires
        0 <= i < rows,
        0 <= cols,
        a.len() == rows * cols,
        v.len() == cols,
    ensures
        mat_vec(a, rows, cols, v).len() == rows,
        mat_vec(a, rows, cols, v)[i] == rq_dot(a.subrange(i * cols, i * cols + cols), v),
{
    if cols > 0 {
        lemma_flat_index(i, 0, rows, cols);
    } else {
        assert(i * cols == 0 && rows * cols == 0) by (nonlinear_arith)
            requires
                cols == 0,
        ;
    }
    let row = a.subrange(i * cols, i * cols + cols);
    lemma_rq_sum_same(
        |j: int| rq_mul(a[i * cols + j], v[j]),
        |j: int| rq_mul(row[j], v[j]),
        cols,
    );
}

/// The entry of `A B^T` in row `i` and column `l` is the inner product of row `i` of `A` and row
/// `l` of `B`.
pub proof fn entries_of_product(
    a: Seq<Rq>,
    rows_a: int,
    b: Seq<Rq>,
    rows_b: int,
    cols: int,
    i: int,
    l: int,
)
    requires
        0 <= i < rows_a,
        0 <= l < rows_b,
        0 < cols,
        a.len() == rows_a * cols,
        b.len() == rows_b * cols,
    ensures
        mat_mul_transposed(a, rows_a, b, rows_b, cols).len() == rows_a * rows_b,
        mat_mul_transposed(a, rows_a, b, rows_b, cols)[i * rows_b + l] == rq_dot(
            a.subrange(i * cols, i * cols + cols),
            b.subrange(l * cols, l * cols + cols),
        ),
{
    lemma_flat_index(i, l, rows_a, rows_b);
    lemma_flat_index(i, 0, rows_a, cols);
    lemma_flat_index(l, 0, rows_b, cols);
    let (x, y) = (a.subrange(i * cols, i * cols + cols), b.subrange(l * cols, l * cols + cols));
    lemma_rq_sum_same(
        |j: int| rq_mul(a[i * cols + j], b[l * cols + j]),
        |j: int| rq_mul(x[j], y[j]),
        cols,
    );
}

/// Folding one more row adds the row times its weight; folding no row gives zeros.
pub proof fn fold_of_one_more_row(c: Seq<Rq>, s: Seq<Rq>, cols: int, d: Rq, row: Seq<Rq>, j: int)
    requires
        0 <= j < cols,
        s.len() == c.len() * cols,
        row.len() == cols,
    ensures
        fold_rows(c.push(d), s + row, cols).len() == cols,
        fold_rows(c.push(d), s + row, cols)[j] == rq_add(
            fold_rows(c, s, cols)[j],
            rq_mul(d, row[j]),
        ),
        c.len() == 0 ==> fold_rows(c, s, cols)[j] == rq_zero(),
{
    let (c2, s2, n) = (c.push(d), s + row, c.len() as int);
    let (f, g) = (
        |i: int| rq_mul(c2[i], s2[i * cols + j]),
        |i: int| rq_mul(c[i], s[i * cols + j]),
    );
    assert forall|i: int| 0 <= i < n implies #[trigger] f(i) == g(i) by {
        lemma_flat_index(i, j, n, cols);
    }
    lemma_rq_sum_same(f, g, n);
    assert(rq_sum(f, n + 1) == rq_add(rq_sum(f, n), f(n)));
    assert(0 <= n * cols) by (nonlinear_arith)
        requires
            0 <= n,
            0 <= cols,
    ;
}

/// Recomposing follows the digits: a value with no digits is zero, and one whose digits are `d`
/// followed by those of a value `v` is `d + base * v`.
pub proof fn recomposing_by_low_digit(digits: Seq<Rq>, num: int, count: int, base: int, i: int)
    requires
        0 <= i < num,
        0 <= count,
        digits.len() == (count + 1) * num,
    ensures
        recompose(digits, num, count + 1, base).len() == num,
        recompose(digits, num, count + 1, base)[i] == rq_add(
            rq_scale(digits[i], 1),
            rq_scale(recompose(digits.skip(num), num, count, base)[i], base),
        ),
        recompose(digits.skip(num), num, 0, base)[i] == rq_zero(),
{
    let rest = digits.skip(num);
    let f = |k: int| rq_scale(digits[k * num + i], zq_pow(base, k as nat));
    let g = |k: int| rq_scale(rest[k * num + i], zq_pow(base, k as nat));
    lemma_rq_sum_split(f, 1, count);
    crate::rq::lemma_rq_new(|k: int| digits[0 * num + i][k] * zq_pow(base, 0));
    assert(0 * num == 0);
    rq_sum_of_few(f);
    assert(f(0) == rq_scale(digits[i], 1));
    let shifted = |k: int| f(1 + k);
    let scaled = |k: int| rq_scale(g(k), base);
    assert forall|k: int| 0 <= k < count implies #[trigger] shifted(k) == scaled(k) by {
        lemma_flat_index(k + 1, i, count + 1, num);
        lemma_flat_index(k, i, count, num);
        assert((k + 1) * num == k * num + num) by (nonlinear_arith);
        assert((count + 1) * num == count * num + num) by (nonlinear_arith);
        let d = digits[(k + 1) * num + i];
        assert(rest[k * num + i] == d);
        let (pk, pn) = (zq_pow(base, k as nat), zq_pow(base, (k + 1) as nat));
        assert(((k + 1) as nat - 1) as nat == k as nat);
        let (l, r) = (rq_scale(d, pn), rq_scale(rq_scale(d, pk), base));
        assert forall|e: int| 0 <= e < 64 implies #[trigger] l[e] == r[e] by {
            lemma_modq_mul(d[e], pk * base);
            lemma_modq_mul(d[e] * pk, base);
            assert(d[e] * (pk * base) == d[e] * pk * base) by (nonlinear_arith);
        }
        assert(l =~= r);
    }
    lemma_rq_sum_same(shifted, scaled, count);
    lemma_rq_sum_scale(base, g, count);
}

} // verus!
