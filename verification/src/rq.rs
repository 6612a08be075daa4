//! The ring `Z_q[X] / (X^64 + 1)` as mathematics: an element is the sequence of its 64
//! coefficients.
use vstd::prelude::*;

use crate::sums::{
    lemma_sum_congruent, lemma_sum_first, lemma_sum_plus, lemma_sum_reverse, lemma_sum_same,
    lemma_sum_scale, lemma_sum_shift, lemma_sum_swap, lemma_sum_window, lemma_sum_zero, sum,
};
use crate::zq::{lemma_modq_add, lemma_modq_mul, lemma_modq_range, lemma_modq_small, modq, q};

verus! {

/// The degree of the ring's modulus `X^64 + 1`.
pub const DEGREE: usize = 64;

/// A ring element as a sequence of 64 residues.
pub type Rq = Seq<int>;

/// `a` has 64 coefficients, all in `0..q`.
pub open spec fn is_rq(a: Rq) -> bool {
    a.len() == 64 && forall|k: int| 0 <= k < 64 ==> 0 <= #[trigger] a[k] < q()
}

/// The element whose coefficient `k` is the residue of `f(k)`.
pub open spec fn rq_new(f: spec_fn(int) -> int) -> Rq {
    Seq::new(64, |k: int| modq(f(k)))
}

/// The zero element.
pub open spec fn rq_zero() -> Rq {
    Seq::new(64, |k: int| 0int)
}

/// The constant polynomial `c`.
pub open spec fn rq_const(c: int) -> Rq {
    rq_new(|k: int| if k == 0 { c } else { 0 })
}

/// Coefficientwise addition.
pub open spec fn rq_add(a: Rq, b: Rq) -> Rq {
    rq_new(|k: int| a[k] + b[k])
}

/// Multiplication of every coefficient by `c`.
pub open spec fn rq_scale(a: Rq, c: int) -> Rq {
    rq_new(|k: int| a[k] * c)
}

/// The coefficient of `X^n` for any integer `n`, where `X^64 = -1`.
pub open spec fn coeff(a: Rq, n: int) -> int {
    if (n / 64) % 2 == 0 {
        a[n % 64]
    } else {
        -a[n % 64]
    }
}

/// The coefficient of `X^n` in the product of `a` and `b`, before reduction modulo `q`:
/// the sum of `a_i * b_j` over all `i + j = n`, where `X^64 = -1`.
pub open spec fn conv(a: Rq, b: Rq, n: int) -> int {
    sum(|i: int| coeff(a, i) * coeff(b, n - i), 0, 64)
}

/// Multiplication modulo `X^64 + 1` and modulo `q`.
pub open spec fn rq_mul(a: Rq, b: Rq) -> Rq {
    rq_new(|k: int| conv(a, b, k))
}

/// `f(0) + f(1) + ... + f(n - 1)` in the ring.
pub open spec fn rq_sum(f: spec_fn(int) -> Rq, n: int) -> Rq
    decreases n,
{
    if n <= 0 {
        rq_zero()
    } else {
        rq_add(rq_sum(f, n - 1), f(n - 1))
    }
}

/// The inner product of two vectors, over the length of the first.
pub open spec fn rq_dot(a: Seq<Rq>, b: Seq<Rq>) -> Rq {
    rq_sum(|i: int| rq_mul(a[i], b[i]), a.len() as int)
}

pub broadcast proof fn lemma_rq_new(f: spec_fn(int) -> int)
    ensures
        is_rq(#[trigger] rq_new(f)),
{
    assert forall|k: int| 0 <= k < 64 implies 0 <= #[trigger] rq_new(f)[k] < q() by {
        lemma_modq_range(f(k));
    }
}

/// Every sum is a ring element.
pub proof fn lemma_rq_sum_valid(f: spec_fn(int) -> Rq, n: int)
    ensures
        is_rq(rq_sum(f, n)),
{
    broadcast use lemma_rq_new;

}

/// `X^64 = -1`.
pub proof fn lemma_coeff_antiperiodic(a: Rq, n: int)
    ensures
        coeff(a, n + 64) == -coeff(a, n),
{
    assert((n + 64) / 64 == n / 64 + 1);
    assert((n + 64) % 64 == n % 64);
}

/// The coefficients of `X^0` to `X^63` are those that are stored.
pub proof fn lemma_coeff_stored(a: Rq, n: int)
    ensures
        0 <= n < 64 ==> coeff(a, n) == a[n],
        -64 <= n < 0 ==> coeff(a, n) == -a[n + 64],
{
}

/// The product of two coefficients whose exponents add up to a fixed one has period 64.
proof fn lemma_product_periodic(a: Rq, b: Rq, n: int, i: int)
    ensures
        coeff(a, i + 64) * coeff(b, n - (i + 64)) == coeff(a, i) * coeff(b, n - i),
{
    lemma_coeff_antiperiodic(a, i);
    lemma_coeff_antiperiodic(b, n - i - 64);
    let (x, y) = (coeff(a, i), coeff(b, n - i - 64));
    assert((-x) * y == x * (-y)) by (nonlinear_arith);
}

/// `conv` is commutative.
proof fn lemma_conv_commutative(a: Rq, b: Rq, n: int)
    ensures
        conv(a, b, n) == conv(b, a, n),
{
    let g = |i: int| coeff(a, i) * coeff(b, n - i);
    let h = |j: int| coeff(b, j) * coeff(a, n - j);
    assert forall|i: int| #[trigger] g(i + 64) == g(i) by {
        lemma_product_periodic(a, b, n, i);
    }
    lemma_sum_reverse(h, 0, 64);
    lemma_sum_shift(g, n - 63, 0, 64);
    let hr = |i: int| h(0 + 64 - 1 - i);
    let gs = |i: int| g(i + (n - 63));
    assert forall|i: int| 0 <= i < 64 implies #[trigger] hr(i) == gs(i) by {
        assert(n - (63 - i) == i + (n - 63));
        assert(n - (i + (n - 63)) == 63 - i);
        assert(coeff(b, 63 - i) * coeff(a, n - (63 - i)) == coeff(a, n - (63 - i)) * coeff(b, 63 - i))
            by (nonlinear_arith);
    }
    lemma_sum_same(hr, gs, 0, 64);
    lemma_sum_window(g, n - 63);
}

/// Multiplication is commutative.
pub proof fn lemma_rq_mul_commutative(a: Rq, b: Rq)
    ensures
        rq_mul(a, b) == rq_mul(b, a),
{
    assert forall|k: int| 0 <= k < 64 implies rq_mul(a, b)[k] == rq_mul(b, a)[k] by {
        lemma_conv_commutative(a, b, k);
    }
    assert(rq_mul(a, b) =~= rq_mul(b, a));
}

/// The coefficient of any power of `X` in a product is congruent to `conv`.
pub proof fn lemma_coeff_mul(a: Rq, b: Rq, n: int)
    ensures
        modq(coeff(rq_mul(a, b), n)) == modq(conv(a, b, n)),
    decreases (if n >= 0 { n } else { -n }),
{
    let p = rq_mul(a, b);
    if 0 <= n < 64 {
        lemma_modq_range(conv(a, b, n));
    } else if n >= 64 {
        lemma_coeff_mul(a, b, n - 64);
        lemma_coeff_antiperiodic(p, n - 64);
        lemma_conv_antiperiodic(a, b, n - 64);
        lemma_modq_neg(coeff(p, n - 64), conv(a, b, n - 64));
    } else if n <= -64 {
        lemma_coeff_mul(a, b, n + 64);
        lemma_coeff_antiperiodic(p, n);
        lemma_conv_antiperiodic(a, b, n);
        lemma_modq_neg(coeff(p, n + 64), conv(a, b, n + 64));
    } else {
        let v = conv(a, b, n + 64);
        lemma_modq_range(v);
        lemma_coeff_antiperiodic(p, n);
        lemma_conv_antiperiodic(a, b, n);
        lemma_modq_neg(coeff(p, n + 64), v);
    }
}

/// Congruent integers have congruent negatives.
pub proof fn lemma_modq_neg(a: int, b: int)
    requires
        modq(a) == modq(b),
    ensures
        modq(-a) == modq(-b),
{
    lemma_modq_add(0, a);
    lemma_modq_add(0, b);
}

proof fn lemma_conv_antiperiodic(a: Rq, b: Rq, n: int)
    ensures
        conv(a, b, n + 64) == -conv(a, b, n),
{
    let f = |i: int| coeff(a, i) * coeff(b, n - i);
    let g = |i: int| coeff(a, i) * coeff(b, n + 64 - i);
    assert forall|i: int| 0 <= i < 64 implies #[trigger] g(i) == (-1) * f(i) by {
        lemma_coeff_antiperiodic(b, n - i);
        assert(n + 64 - i == n - i + 64);
        let (x, y) = (coeff(a, i), coeff(b, n - i));
        assert(x * (-y) == (-1) * (x * y)) by (nonlinear_arith);
    }
    lemma_sum_same(g, |i: int| (-1) * f(i), 0, 64);
    lemma_sum_scale(-1, f, 0, 64);
}

/// Multiplication is associative.
pub proof fn lemma_rq_mul_associative(a: Rq, b: Rq, c: Rq)
    ensures
        rq_mul(rq_mul(a, b), c) == rq_mul(a, rq_mul(b, c)),
{
    let ab = rq_mul(a, b);
    let bc = rq_mul(b, c);
    assert forall|k: int| 0 <= k < 64 implies rq_mul(ab, c)[k] == rq_mul(a, bc)[k] by {
        let t = |j: int, i: int| coeff(a, i) * (coeff(b, j - i) * coeff(c, k - j));
        // The left side.
        let l0 = |j: int| coeff(ab, j) * coeff(c, k - j);
        let l1 = |j: int| sum(|i: int| t(j, i), 0, 64);
        assert forall|j: int| 0 <= j < 64 implies modq(#[trigger] l0(j)) == modq(l1(j)) by {
            lemma_coeff_mul(a, b, j);
            let cj = coeff(c, k - j);
            lemma_modq_mul(coeff(ab, j), cj);
            lemma_modq_mul(conv(a, b, j), cj);
            let f = |i: int| coeff(a, i) * coeff(b, j - i);
            lemma_sum_scale(cj, f, 0, 64);
            let fc = |i: int| cj * f(i);
            let tj = |i: int| t(j, i);
            assert forall|i: int| 0 <= i < 64 implies #[trigger] fc(i) == tj(i) by {
                let (x, y) = (coeff(a, i), coeff(b, j - i));
                assert(cj * (x * y) == x * (y * cj)) by (nonlinear_arith);
            }
            lemma_sum_same(fc, tj, 0, 64);
            assert(cj * conv(a, b, j) == conv(a, b, j) * cj) by (nonlinear_arith);
        }
        lemma_sum_congruent(l0, l1, 0, 64);
        // The right side.
        let r0 = |i: int| coeff(a, i) * coeff(bc, k - i);
        let r1 = |i: int| sum(|j: int| t(j, i), 0, 64);
        assert forall|i: int| 0 <= i < 64 implies modq(#[trigger] r0(i)) == modq(r1(i)) by {
            lemma_coeff_mul(b, c, k - i);
            let ai = coeff(a, i);
            lemma_modq_mul(ai, coeff(bc, k - i));
            lemma_modq_mul(ai, conv(b, c, k - i));
            let g = |l: int| coeff(b, l) * coeff(c, k - i - l);
            assert forall|l: int| #[trigger] g(l + 64) == g(l) by {
                lemma_product_periodic(b, c, k - i, l);
            }
            lemma_sum_window(g, -i);
            lemma_sum_shift(g, -i, 0, 64);
            let gs = |j: int| g(j + (-i));
            lemma_sum_scale(ai, gs, 0, 64);
            let ti = |j: int| t(j, i);
            assert forall|j: int| 0 <= j < 64 implies #[trigger] ti(j) == ai * gs(j) by {
                assert(j + (-i) == j - i);
                assert(k - i - (j - i) == k - j);
            }
            lemma_sum_same(ti, |j: int| ai * gs(j), 0, 64);
        }
        lemma_sum_congruent(r0, r1, 0, 64);
        lemma_sum_swap(t, 64, 64);
    }
    assert(rq_mul(ab, c) =~= rq_mul(a, bc));
}

/// Addition is commutative and associative.
pub proof fn lemma_rq_add_laws(a: Rq, b: Rq, c: Rq)
    ensures
        rq_add(a, b) == rq_add(b, a),
        rq_add(rq_add(a, b), c) == rq_add(a, rq_add(b, c)),
{
    assert(rq_add(a, b) =~= rq_add(b, a));
    assert forall|k: int| 0 <= k < 64 implies rq_add(rq_add(a, b), c)[k] == rq_add(
        a,
        rq_add(b, c),
    )[k] by {
        lemma_modq_add(a[k] + b[k], c[k]);
        lemma_modq_add(a[k], b[k] + c[k]);
    }
    assert(rq_add(rq_add(a, b), c) =~= rq_add(a, rq_add(b, c)));
}

/// Regrouping a sum of four elements.
pub proof fn lemma_rq_add_regroup(a: Rq, b: Rq, c: Rq, d: Rq)
    ensures
        rq_add(rq_add(a, b), rq_add(c, d)) == rq_add(rq_add(a, c), rq_add(b, d)),
{
    lemma_rq_add_laws(a, b, rq_add(c, d));
    lemma_rq_add_laws(b, c, d);
    lemma_rq_add_laws(c, b, d);
    lemma_rq_add_laws(a, c, rq_add(b, d));
}

/// Zero is neutral for addition.
pub proof fn lemma_rq_add_zero(a: Rq)
    requires
        is_rq(a),
    ensures
        rq_add(a, rq_zero()) == a,
        rq_add(rq_zero(), a) == a,
{
    assert forall|k: int| 0 <= k < 64 implies rq_add(a, rq_zero())[k] == a[k] && rq_add(
        rq_zero(),
        a,
    )[k] == a[k] by {
        lemma_modq_small(a[k]);
    }
    assert(rq_add(a, rq_zero()) =~= a);
    assert(rq_add(rq_zero(), a) =~= a);
}

/// Zero is a ring element, and `0 + 0 = 0`.
pub proof fn lemma_rq_zero()
    ensures
        is_rq(rq_zero()),
        rq_add(rq_zero(), rq_zero()) == rq_zero(),
{
    lemma_rq_add_zero(rq_zero());
}

proof fn lemma_coeff_add(b: Rq, c: Rq, n: int)
    ensures
        modq(coeff(rq_add(b, c), n)) == modq(coeff(b, n) + coeff(c, n)),
{
    let k = n % 64;
    lemma_modq_range(b[k] + c[k]);
    lemma_modq_neg(rq_add(b, c)[k], b[k] + c[k]);
}

/// Multiplication distributes over addition.
pub proof fn lemma_rq_mul_add(a: Rq, b: Rq, c: Rq)
    ensures
        rq_mul(a, rq_add(b, c)) == rq_add(rq_mul(a, b), rq_mul(a, c)),
{
    let bc = rq_add(b, c);
    assert forall|k: int| 0 <= k < 64 implies rq_mul(a, bc)[k] == rq_add(
        rq_mul(a, b),
        rq_mul(a, c),
    )[k] by {
        let f = |i: int| coeff(a, i) * coeff(bc, k - i);
        let g = |i: int| coeff(a, i) * coeff(b, k - i);
        let h = |i: int| coeff(a, i) * coeff(c, k - i);
        let gh = |i: int| g(i) + h(i);
        assert forall|i: int| 0 <= i < 64 implies modq(#[trigger] f(i)) == modq(gh(i)) by {
            lemma_coeff_add(b, c, k - i);
            let (x, y, z) = (coeff(a, i), coeff(b, k - i), coeff(c, k - i));
            lemma_modq_mul(x, coeff(bc, k - i));
            lemma_modq_mul(x, y + z);
            assert(x * (y + z) == x * y + x * z) by (nonlinear_arith);
        }
        lemma_sum_congruent(f, gh, 0, 64);
        lemma_sum_plus(g, h, 0, 64);
        lemma_modq_add(conv(a, b, k), conv(a, c, k));
    }
    assert(rq_mul(a, bc) =~= rq_add(rq_mul(a, b), rq_mul(a, c)));
}

/// A product with zero is zero.
pub proof fn lemma_rq_mul_zero(a: Rq)
    ensures
        rq_mul(a, rq_zero()) == rq_zero(),
        rq_mul(rq_zero(), a) == rq_zero(),
{
    assert forall|k: int| 0 <= k < 64 implies rq_mul(a, rq_zero())[k] == 0 by {
        let f = |i: int| coeff(a, i) * coeff(rq_zero(), k - i);
        assert forall|i: int| 0 <= i < 64 implies #[trigger] f(i) == 0 by {
            assert(coeff(rq_zero(), k - i) == 0);
        }
        lemma_sum_zero(f, 0, 64);
        lemma_modq_small(0);
    }
    assert(rq_mul(a, rq_zero()) =~= rq_zero());
    lemma_rq_mul_commutative(a, rq_zero());
}

/// Scaling is multiplication by a constant polynomial.
pub proof fn lemma_rq_scale_is_mul(a: Rq, c: int)
    ensures
        rq_scale(a, c) == rq_mul(rq_const(c), a),
{
    assert forall|k: int| 0 <= k < 64 implies rq_scale(a, c)[k] == rq_mul(rq_const(c), a)[k] by {
        let f = |i: int| coeff(rq_const(c), i) * coeff(a, k - i);
        lemma_sum_first(f, 0, 64);
        lemma_modq_small(0);
        assert forall|i: int| 1 <= i < 64 implies #[trigger] f(i) == 0 by {
            assert(coeff(rq_const(c), i) == 0);
        }
        lemma_sum_zero(f, 1, 64);
        assert(f(0) == modq(c) * a[k]);
        lemma_modq_mul(c, a[k]);
        assert(c * a[k] == a[k] * c) by (nonlinear_arith);
    }
    assert(rq_scale(a, c) =~= rq_mul(rq_const(c), a));
}

/// Scaling by `1` changes nothing; scaling twice is scaling by the product.
pub proof fn lemma_rq_scale_laws(a: Rq, c: int, d: int)
    ensures
        is_rq(a) ==> rq_scale(a, 1) == a,
        rq_scale(rq_scale(a, c), d) == rq_scale(a, c * d),
        rq_scale(a, modq(c)) == rq_scale(a, c),
        rq_scale(rq_zero(), c) == rq_zero(),
{
    assert forall|k: int| 0 <= k < 64 implies rq_scale(rq_scale(a, c), d)[k] == rq_scale(
        a,
        c * d,
    )[k] && rq_scale(a, modq(c))[k] == rq_scale(a, c)[k] && rq_scale(rq_zero(), c)[k] == 0 by {
        lemma_modq_mul(a[k] * c, d);
        assert((a[k] * c) * d == a[k] * (c * d)) by (nonlinear_arith);
        lemma_modq_mul(a[k], c);
        lemma_modq_small(0);
    }
    assert(rq_scale(rq_scale(a, c), d) =~= rq_scale(a, c * d));
    assert(rq_scale(a, modq(c)) =~= rq_scale(a, c));
    assert(rq_scale(rq_zero(), c) =~= rq_zero());
    if is_rq(a) {
        assert forall|k: int| 0 <= k < 64 implies rq_scale(a, 1)[k] == a[k] by {
            lemma_modq_small(a[k]);
        }
        assert(rq_scale(a, 1) =~= a);
    }
}

/// Scaling distributes over addition.
pub proof fn lemma_rq_scale_add(a: Rq, b: Rq, c: int)
    ensures
        rq_scale(rq_add(a, b), c) == rq_add(rq_scale(a, c), rq_scale(b, c)),
{
    lemma_rq_scale_is_mul(rq_add(a, b), c);
    lemma_rq_scale_is_mul(a, c);
    lemma_rq_scale_is_mul(b, c);
    lemma_rq_mul_add(rq_const(c), a, b);
}

/// A scalar moves out of either factor of a product.
pub proof fn lemma_rq_scale_mul(a: Rq, b: Rq, c: int)
    ensures
        rq_mul(rq_scale(a, c), b) == rq_scale(rq_mul(a, b), c),
        rq_mul(a, rq_scale(b, c)) == rq_scale(rq_mul(a, b), c),
{
    lemma_rq_scale_is_mul(a, c);
    lemma_rq_scale_is_mul(b, c);
    lemma_rq_scale_is_mul(rq_mul(a, b), c);
    lemma_rq_mul_associative(rq_const(c), a, b);
    lemma_rq_mul_commutative(rq_const(c), b);
    lemma_rq_mul_associative(a, b, rq_const(c));
    lemma_rq_mul_commutative(rq_mul(a, b), rq_const(c));
}

/// Exchanging the first two of three factors.
pub proof fn lemma_rq_mul_exchange(a: Rq, b: Rq, c: Rq)
    ensures
        rq_mul(a, rq_mul(b, c)) == rq_mul(b, rq_mul(a, c)),
{
    lemma_rq_mul_associative(a, b, c);
    lemma_rq_mul_commutative(a, b);
    lemma_rq_mul_associative(b, a, c);
}

/// Sums of pointwise equal terms are equal.
pub proof fn lemma_rq_sum_same(f: spec_fn(int) -> Rq, g: spec_fn(int) -> Rq, n: int)
    requires
        forall|i: int| 0 <= i < n ==> #[trigger] f(i) == g(i),
    ensures
        rq_sum(f, n) == rq_sum(g, n),
    decreases n,
{
    if n > 0 {
        lemma_rq_sum_same(f, g, n - 1);
    }
}

/// A sum of zeros is zero.
pub proof fn lemma_rq_sum_zero(f: spec_fn(int) -> Rq, n: int)
    requires
        forall|i: int| 0 <= i < n ==> #[trigger] f(i) == rq_zero(),
    ensures
        rq_sum(f, n) == rq_zero(),
    decreases n,
{
    lemma_rq_zero();
    if n > 0 {
        lemma_rq_sum_zero(f, n - 1);
    }
}

/// A sum of sums of two terms splits.
pub proof fn lemma_rq_sum_plus(f: spec_fn(int) -> Rq, g: spec_fn(int) -> Rq, n: int)
    ensures
        rq_sum(|i: int| rq_add(f(i), g(i)), n) == rq_add(rq_sum(f, n), rq_sum(g, n)),
    decreases n,
{
    if n > 0 {
        lemma_rq_sum_plus(f, g, n - 1);
        lemma_rq_add_regroup(rq_sum(f, n - 1), rq_sum(g, n - 1), f(n - 1), g(n - 1));
    } else {
        lemma_rq_zero();
    }
}

/// A common factor moves out of a sum.
pub proof fn lemma_rq_sum_mul(c: Rq, f: spec_fn(int) -> Rq, n: int)
    ensures
        rq_sum(|i: int| rq_mul(c, f(i)), n) == rq_mul(c, rq_sum(f, n)),
    decreases n,
{
    if n > 0 {
        lemma_rq_sum_mul(c, f, n - 1);
        lemma_rq_mul_add(c, rq_sum(f, n - 1), f(n - 1));
    } else {
        lemma_rq_mul_zero(c);
    }
}

/// A common scalar moves out of a sum.
pub proof fn lemma_rq_sum_scale(c: int, f: spec_fn(int) -> Rq, n: int)
    ensures
        rq_sum(|i: int| rq_scale(f(i), c), n) == rq_scale(rq_sum(f, n), c),
    decreases n,
{
    if n > 0 {
        lemma_rq_sum_scale(c, f, n - 1);
        lemma_rq_scale_add(rq_sum(f, n - 1), f(n - 1), c);
    } else {
        lemma_rq_scale_laws(rq_zero(), c, c);
    }
}

/// The order of two summations can be exchanged.
pub proof fn lemma_rq_sum_swap(f: spec_fn(int, int) -> Rq, n: int, m: int)
    ensures
        rq_sum(|i: int| rq_sum(|j: int| f(i, j), m), n) == rq_sum(
            |j: int| rq_sum(|i: int| f(i, j), n),
            m,
        ),
    decreases n,
{
    let whole = |j: int| rq_sum(|i: int| f(i, j), n);
    if n > 0 {
        lemma_rq_sum_swap(f, n - 1, m);
        let row = |j: int| f(n - 1, j);
        let rest = |j: int| rq_sum(|i: int| f(i, j), n - 1);
        lemma_rq_sum_plus(rest, row, m);
        lemma_rq_sum_same(|j: int| rq_add(rest(j), row(j)), whole, m);
    } else {
        lemma_rq_sum_zero(whole, m);
    }
}

/// A sum over `n * m` terms is a sum of `n` sums over blocks of `m` terms.
pub proof fn lemma_rq_sum_blocks(f: spec_fn(int) -> Rq, n: int, m: int)
    requires
        0 <= n,
        0 <= m,
    ensures
        rq_sum(f, n * m) == rq_sum(|i: int| rq_sum(|j: int| f(i * m + j), m), n),
    decreases n,
{
    if n > 0 {
        lemma_rq_sum_blocks(f, n - 1, m);
        assert(n * m == (n - 1) * m + m) by (nonlinear_arith);
        assert((n - 1) * m >= 0) by (nonlinear_arith)
            requires
                n > 0,
                m >= 0,
        ;
        lemma_rq_sum_split(f, (n - 1) * m, m);
    } else {
        assert(n * m == 0) by (nonlinear_arith)
            requires
                n == 0,
        ;
    }
}

/// A sum splits after its first `n` terms.
pub proof fn lemma_rq_sum_split(f: spec_fn(int) -> Rq, n: int, m: int)
    requires
        0 <= n,
        0 <= m,
    ensures
        rq_sum(f, n + m) == rq_add(rq_sum(f, n), rq_sum(|j: int| f(n + j), m)),
    decreases m,
{
    let g = |j: int| f(n + j);
    if m > 0 {
        lemma_rq_sum_split(f, n, m - 1);
        lemma_rq_add_laws(rq_sum(f, n), rq_sum(g, m - 1), g(m - 1));
    } else {
        lemma_rq_sum_valid(f, n);
        lemma_rq_add_zero(rq_sum(f, n));
    }
}

} // verus!
