//! Evaluation of a polynomial, and its form as the constant term of a product in the ring.
use vstd::prelude::*;

use crate::commit::{chunk, chunk_poly};
use crate::error::GreyhoundError;
use crate::params::GreyhoundTranscriptParams;
use crate::poly::{add_poly, mul_poly, rqs, scale_poly_host, zqs, PolyRing};
use crate::rq::{
    coeff, conv, is_rq, lemma_coeff_stored, lemma_modq_neg, lemma_rq_mul_associative,
    lemma_rq_mul_commutative, lemma_rq_scale_is_mul, lemma_rq_scale_laws, lemma_rq_scale_mul,
    lemma_rq_sum_mul, lemma_rq_sum_same, rq_const, rq_mul, rq_scale, rq_sum, Rq, DEGREE,
};
use crate::sums::{lemma_sum_congruent, lemma_sum_split, lemma_sum_zero, sum};
use crate::zq::{
    is_inverse, is_unit, lemma_modq_add, lemma_modq_mul, lemma_modq_range, lemma_modq_small, modq,
    q, zq_pow, Zq,
};

verus! {

/// The value at `x` of the polynomial with coefficients `raw`.
pub open spec fn poly_value(raw: Seq<u32>, x: int) -> int {
    modq(sum(|l: int| raw[l] * zq_pow(x, l as nat), 0, raw.len() as int))
}

pub proof fn lemma_pow_range(x: int, e: nat)
    ensures
        0 <= zq_pow(x, e) < q(),
{
    if e > 0 {
        lemma_modq_range(zq_pow(x, (e - 1) as nat) * x);
    }
}

/// Exponents add up.
pub proof fn lemma_pow_add(x: int, a: nat, b: nat)
    ensures
        zq_pow(x, a + b) == modq(zq_pow(x, a) * zq_pow(x, b)),
    decreases b,
{
    let pa = zq_pow(x, a);
    lemma_pow_range(x, a);
    if b == 0 {
        lemma_modq_small(pa);
        assert(pa * 1 == pa);
    } else {
        let c = (b - 1) as nat;
        let pc = zq_pow(x, c);
        lemma_pow_add(x, a, c);
        assert((a + b - 1) as nat == a + c);
        lemma_modq_mul(pa * pc, x);
        lemma_modq_mul(pa, pc * x);
        assert(pa * pc * x == pa * (pc * x)) by (nonlinear_arith);
    }
}

/// Exponents multiply.
pub proof fn lemma_pow_mul(x: int, a: nat, i: nat)
    ensures
        zq_pow(zq_pow(x, a), i) == zq_pow(x, a * i),
    decreases i,
{
    if i == 0 {
        assert(a * 0 == 0);
    } else {
        let j = (i - 1) as nat;
        lemma_pow_mul(x, a, j);
        assert(a * i == a * j + a) by (nonlinear_arith)
            requires
                j == i - 1,
        ;
        lemma_pow_add(x, a * j, a);
    }
}

/// `x` to the power `e`.
pub fn power(x: Zq, e: usize) -> (r: Zq)
    ensures
        r@ == zq_pow(x@, e as nat),
{
    let mut acc = Zq::one();
    for i in 0..e
        invariant
            acc@ == zq_pow(x@, i as nat),
    {
        acc = acc.times(x);
    }
    acc
}

/// The sum of `raw[l] * x^(l - from)` over `l >= from`.
spec fn tail_value(raw: Seq<u32>, x: int, from: int) -> int
    decreases raw.len() - from,
{
    if from >= raw.len() {
        0
    } else {
        modq(tail_value(raw, x, from + 1) * x + raw[from])
    }
}

proof fn lemma_tail_value(raw: Seq<u32>, x: int, from: int)
    requires
        0 <= from <= raw.len(),
    ensures
        tail_value(raw, x, from) == modq(
            sum(
                |l: int| raw[l] * zq_pow(x, (l - from) as nat),
                from,
                raw.len() as int,
            ),
        ),
    decreases raw.len() - from,
{
    let n = raw.len() as int;
    let f = |l: int| raw[l] * zq_pow(x, (l - from) as nat);
    if from < n {
        let g = |l: int| raw[l] * zq_pow(x, (l - (from + 1)) as nat);
        let gx = |l: int| x * g(l);
        lemma_tail_value(raw, x, from + 1);
        crate::sums::lemma_sum_first(f, from, n);
        crate::sums::lemma_sum_scale(x, g, from + 1, n);
        assert forall|l: int| from + 1 <= l < n implies modq(#[trigger] f(l)) == modq(gx(l)) by {
            let e = (l - (from + 1)) as nat;
            let pe = zq_pow(x, e);
            assert((e + 1 - 1) as nat == e);
            assert(zq_pow(x, (l - from) as nat) == modq(pe * x));
            lemma_modq_mul(raw[l] as int, pe * x);
            assert(raw[l] * (pe * x) == x * (raw[l] * pe)) by (nonlinear_arith);
        }
        lemma_sum_congruent(f, gx, from + 1, n);
        let (sg, sf) = (sum(g, from + 1, n), sum(f, from + 1, n));
        lemma_modq_mul(sg, x);
        lemma_modq_add(modq(sg) * x, raw[from] as int);
        lemma_modq_add(sg * x, raw[from] as int);
        lemma_modq_add(sf, raw[from] as int);
        assert(sg * x == x * sg) by (nonlinear_arith);
        assert(raw[from] * 1 == raw[from]);
    } else {
        lemma_modq_small(0);
    }
}

/// The value of a polynomial, by Horner's rule.
pub fn evaluate_polynomial(raw_f_coeffs: &[u32], x: &Zq) -> (r: Zq)
    ensures
        r@ == poly_value(raw_f_coeffs@, x@),
{
    let mut y = Zq::zero();
    let mut i: usize = raw_f_coeffs.len();
    while i > 0
        invariant
            i <= raw_f_coeffs@.len(),
            y@ == tail_value(raw_f_coeffs@, x@, i as int),
        decreases i,
    {
        i = i - 1;
        let t = y.times(*x);
        let c = Zq::from(raw_f_coeffs[i]);
        proof {
            lemma_modq_add(y@ * x@, c@);
        }
        y = t.plus(c);
    }
    proof {
        lemma_tail_value(raw_f_coeffs@, x@, 0);
        crate::sums::lemma_sum_same(
            |l: int| raw_f_coeffs@[l] * zq_pow(x@, (l - 0) as nat),
            |l: int| raw_f_coeffs@[l] * zq_pow(x@, l as nat),
            0,
            raw_f_coeffs@.len() as int,
        );
    }
    y
}

/// The image of an element under the automorphism `X -> X^-1`: coefficients `a_0, .., a_63`
/// become `a_0, -a_63, .., -a_1`.
pub open spec fn conjugate(a: Rq) -> Rq {
    Seq::new(
        64,
        |j: int|
            if j == 0 {
                a[0]
            } else {
                modq(-a[64 - j])
            },
    )
}

/// `1 + x X + ... + x^63 X^63`.
pub open spec fn powers(x: int) -> Rq {
    Seq::new(64, |j: int| zq_pow(x, j as nat))
}

/// The conjugate of the powers of `x`: the constant term of its product with a ring element is
/// the element's value at `x`.
pub open spec fn sigma(x: int) -> Rq {
    conjugate(powers(x))
}

/// The chunks of a polynomial, weighted by the powers of `x^64`.
pub open spec fn weighted_chunks(raw: Seq<u32>, x: int, n: int) -> Rq {
    rq_sum(|i: int| rq_scale(chunk(raw, i), zq_pow(x, (64 * i) as nat)), n)
}

/// The weights of the entries of a decomposed column: `x^(64 j) b^k` for digit `k` of entry `j`.
pub open spec fn entry_weights(p: GreyhoundTranscriptParams, x: int) -> Seq<Rq> {
    Seq::new(
        p.a_width() as nat,
        |l: int|
            rq_const(
                zq_pow(x, (64 * (l % p.m as int)) as nat) * zq_pow(
                    p.base0(),
                    (l / p.m as int) as nat,
                ),
            ),
    )
}

/// The weights of the columns: `x^(64 m i)` for column `i`.
pub open spec fn column_weights(p: GreyhoundTranscriptParams, x: int) -> Seq<Rq> {
    Seq::new(p.r as nat, |i: int| rq_const(zq_pow(x, (64 * (p.m * i)) as nat)))
}

/// `sigma(x)`.
pub fn sigma_poly(x: &Zq) -> (r: PolyRing)
    ensures
        r@ == sigma(x@),
{
    let mut powers: Vec<Zq> = Vec::new();
    let mut curr = Zq::one();
    for j in 0..DEGREE
        invariant
            curr@ == zq_pow(x@, j as nat),
            powers@.len() == j,
            forall|l: int| 0 <= l < j ==> (#[trigger] powers@[l])@ == zq_pow(x@, l as nat),
    {
        powers.push(curr);
        curr = curr.times(*x);
    }
    let mut coeffs: Vec<Zq> = Vec::new();
    for j in 0..DEGREE
        invariant
            powers@.len() == 64,
            forall|l: int| 0 <= l < 64 ==> (#[trigger] powers@[l])@ == zq_pow(x@, l as nat),
            coeffs@.len() == j,
            forall|l: int| 0 <= l < j ==> (#[trigger] coeffs@[l])@ == sigma(x@)[l],
    {
        if j == 0 {
            coeffs.push(powers[0]);
        } else {
            coeffs.push(Zq::zero().minus(powers[DEGREE - j]));
        }
    }
    let r = match PolyRing::from_slice(coeffs.as_slice()) {
        Some(p) => p,
        None => PolyRing::zero(),
    };
    assert(zqs(coeffs@) =~= sigma(x@));
    r
}

/// The first `n` chunks of a polynomial, weighted by the powers of `x^64`.
pub fn weigh_chunks(raw: &[u32], x: &Zq, n: usize) -> (r: PolyRing)
    requires
        64 * n <= usize::MAX,
    ensures
        r@ == weighted_chunks(raw@, x@, n as int),
{
    let x_d = power(*x, DEGREE);
    let ghost f = |i: int| rq_scale(chunk(raw@, i), zq_pow(x@, (64 * i) as nat));
    let mut acc = PolyRing::zero();
    let mut curr_xd = Zq::one();
    for i in 0..n
        invariant
            64 * n <= usize::MAX,
            x_d@ == zq_pow(x@, 64),
            curr_xd@ == zq_pow(x_d@, i as nat),
            f == (|i: int| rq_scale(chunk(raw@, i), zq_pow(x@, (64 * i) as nat))),
            acc@ == rq_sum(f, i as int),
    {
        proof {
            lemma_pow_mul(x@, 64, i as nat);
        }
        let term = scale_poly_host(&chunk_poly(raw, i), curr_xd);
        acc = add_poly(&acc, &term);
        curr_xd = curr_xd.times(x_d);
    }
    acc
}

/// The weights of the entries of a decomposed column.
pub fn weigh_entries(p: &GreyhoundTranscriptParams, x: &Zq) -> (r: Vec<PolyRing>)
    requires
        p.supported(),
    ensures
        r@.len() == p.a_width(),
        rqs(r@) == entry_weights(*p, x@),
{
    let m: usize = p.m as usize;
    let x_d = power(*x, DEGREE);
    let base = base_scalar(p.b0);
    let mut out: Vec<PolyRing> = Vec::new();
    let mut b0_pow = Zq::one();
    assert(0 * m == 0);
    for k in 0..p.delta0
        invariant
            m == p.m,
            m > 0,
            x_d@ == zq_pow(x@, 64),
            base@ == p.base0(),
            b0_pow@ == zq_pow(p.base0(), k as nat),
            out@.len() == k * m,
            forall|l: int|
                0 <= l < k * m ==> (#[trigger] out@[l])@ == rq_const(
                    zq_pow(x@, (64 * (l % p.m as int)) as nat) * zq_pow(
                        p.base0(),
                        (l / p.m as int) as nat,
                    ),
                ),
    {
        let mut x_jd = Zq::one();
        for j in 0..m
            invariant
                k < p.delta0,
                m == p.m,
                m > 0,
                x_d@ == zq_pow(x@, 64),
                b0_pow@ == zq_pow(p.base0(), k as nat),
                x_jd@ == zq_pow(x_d@, j as nat),
                out@.len() == k * m + j,
                forall|l: int|
                    0 <= l < k * m + j ==> (#[trigger] out@[l])@ == rq_const(
                        zq_pow(x@, (64 * (l % p.m as int)) as nat) * zq_pow(
                            p.base0(),
                            (l / p.m as int) as nat,
                        ),
                    ),
        {
            proof {
                lemma_pow_mul(x@, 64, j as nat);
                crate::linalg::lemma_flat_index(k as int, j as int, p.delta0 as int, m as int);
                lemma_const_reduced(x_jd@ * b0_pow@);
            }
            out.push(PolyRing::constant(x_jd.times(b0_pow)));
            x_jd = x_jd.times(x_d);
        }
        b0_pow = b0_pow.times(base);
        assert(k * m + m == (k + 1) * m) by (nonlinear_arith);
    }
    assert(rqs(out@) =~= entry_weights(*p, x@));
    out
}

/// A constant polynomial depends on the residue alone.
pub proof fn lemma_const_reduced(c: int)
    ensures
        rq_const(modq(c)) == rq_const(c),
{
    lemma_modq_range(c);
    assert(rq_const(modq(c)) =~= rq_const(c));
}

/// `2^b` as a scalar.
fn base_scalar(b: u32) -> (r: Zq)
    requires
        b < 32,
    ensures
        r@ == vstd::arithmetic::power2::pow2(b as nat),
{
    Zq::from(base_word(b))
}

/// `2^b`.
pub fn base_word(b: u32) -> (r: u32)
    requires
        b < 32,
    ensures
        r == vstd::arithmetic::power2::pow2(b as nat),
{
    let mut w: u32 = 1;
    proof {
        vstd::arithmetic::power2::lemma2_to64();
    }
    for i in 0..b
        invariant
            b < 32,
            w == vstd::arithmetic::power2::pow2(i as nat),
    {
        proof {
            vstd::arithmetic::power2::lemma2_to64();
            vstd::arithmetic::power2::lemma_pow2_unfold((i + 1) as nat);
            if i < 31 {
                vstd::arithmetic::power2::lemma_pow2_strictly_increases(i as nat, 31);
            }
        }
        w = w * 2;
    }
    w
}

/// The weights of the columns.
pub fn weigh_columns(p: &GreyhoundTranscriptParams, x: &Zq) -> (r: Vec<PolyRing>)
    requires
        p.supported(),
    ensures
        r@.len() == p.r,
        rqs(r@) == column_weights(*p, x@),
{
    proof {
        assert(p.m <= p.cells()) by (nonlinear_arith)
            requires
                p.r >= 1,
                p.cells() == p.m * p.r,
        ;
    }
    let x_md = power(*x, p.m as usize * DEGREE);
    let mut out: Vec<PolyRing> = Vec::new();
    let mut x_imd = Zq::one();
    for i in 0..p.r
        invariant
            x_md@ == zq_pow(x@, (p.m * 64) as nat),
            x_imd@ == zq_pow(x_md@, i as nat),
            out@.len() == i,
            forall|l: int|
                0 <= l < i ==> (#[trigger] out@[l])@ == rq_const(
                    zq_pow(x@, (64 * (p.m * l)) as nat),
                ),
    {
        proof {
            lemma_pow_mul(x@, (p.m * 64) as nat, i as nat);
            assert(p.m * 64 * i == 64 * (p.m * i)) by (nonlinear_arith);
        }
        out.push(PolyRing::constant(x_imd));
        x_imd = x_imd.times(x_md);
    }
    assert(rqs(out@) =~= column_weights(*p, x@));
    out
}

/// The inverse of a unit.
pub open spec fn inverse_of(a: int) -> int {
    choose|b: int| 0 <= b < q() && #[trigger] is_inverse(a, b)
}

/// A unit has one inverse in `0..q`.
pub proof fn lemma_inverse_unique(a: int, b: int)
    requires
        0 <= b < q(),
        is_inverse(a, b),
    ensures
        b == inverse_of(a),
{
    let c = inverse_of(a);
    assert(0 <= c < q() && is_inverse(a, c));
    lemma_modq_small(b);
    lemma_modq_small(c);
    lemma_modq_mul(b, a * c);
    lemma_modq_mul(a * b, c);
    assert(b * (a * c) == a * b * c) by (nonlinear_arith);
    assert(b * 1 == b && 1 * c == c);
}

proof fn lemma_inverse_exists(a: int)
    requires
        is_unit(a),
    ensures
        0 <= inverse_of(a) < q(),
        is_inverse(a, inverse_of(a)),
{
    let b = choose|b: int| #[trigger] is_inverse(a, b);
    lemma_modq_range(b);
    lemma_modq_mul(a, b);
    assert(is_inverse(a, modq(b)));
}

/// `1 + x^64`, by which the inverse of `sigma(x)` divides.
pub open spec fn sigma_denominator(x: int) -> int {
    modq(1 + zq_pow(x, 64))
}

/// The inverse of `sigma(x)`: `(1 + x X^63) / (1 + x^64)`.
pub open spec fn unsigma(x: int) -> Rq {
    let inv = inverse_of(sigma_denominator(x));
    Seq::new(
        64,
        |j: int|
            if j == 0 {
                inv
            } else if j == 63 {
                modq(x * inv)
            } else {
                0
            },
    )
}

/// `y` divided by `sigma(x)`.
pub fn sigma_inverse_apply(y: &PolyRing, x_scalar: &Zq) -> (r: Result<PolyRing, GreyhoundError>)
    ensures
        r is Ok == is_unit(sigma_denominator(x_scalar@)),
        r matches Err(e) ==> e == GreyhoundError::NotInvertible,
        r matches Ok(t) ==> t@ == rq_mul(unsigma(x_scalar@), y@),
{
    let x_pow = power(*x_scalar, DEGREE);
    let inv = match Zq::one().plus(x_pow).try_inv() {
        Some(inv) => inv,
        None => {
            return Err(GreyhoundError::NotInvertible);
        },
    };
    proof {
        lemma_inverse_unique(sigma_denominator(x_scalar@), inv@);
    }
    let mut coeffs: Vec<Zq> = Vec::new();
    coeffs.push(inv);
    for j in 1..DEGREE
        invariant
            inv@ == inverse_of(sigma_denominator(x_scalar@)),
            coeffs@.len() == j,
            forall|l: int| 0 <= l < j ==> (#[trigger] coeffs@[l])@ == unsigma(x_scalar@)[l],
    {
        if j == DEGREE - 1 {
            coeffs.push((*x_scalar).times(inv));
        } else {
            coeffs.push(Zq::zero());
        }
    }
    let g = match PolyRing::from_slice(coeffs.as_slice()) {
        Some(p) => p,
        None => PolyRing::zero(),
    };
    assert(zqs(coeffs@) =~= unsigma(x_scalar@));
    Ok(mul_poly(&g, y))
}

/// A product with a polynomial of two terms, of degrees 0 and 63.
proof fn lemma_two_terms(g: Rq, s: Rq, k: int)
    requires
        forall|i: int| 0 < i < 63 ==> #[trigger] g[i] == 0,
    ensures
        conv(g, s, k) == g[0] * coeff(s, k) + g[63] * coeff(s, k - 63),
{
    let f = |i: int| coeff(g, i) * coeff(s, k - i);
    lemma_sum_split(f, 0, 1, 64);
    lemma_sum_split(f, 1, 63, 64);
    assert forall|i: int| 1 <= i < 63 implies #[trigger] f(i) == 0 by {
        lemma_coeff_stored(g, i);
        assert(0 * coeff(s, k - i) == 0);
    }
    lemma_sum_zero(f, 1, 63);
    lemma_coeff_stored(g, 0);
    lemma_coeff_stored(g, 63);
    assert(sum(f, 0, 1) == sum(f, 0, 0) + f(0));
    assert(sum(f, 63, 64) == sum(f, 63, 63) + f(63));
}

/// `unsigma(x)` is the inverse of `sigma(x)`.
pub proof fn lemma_unsigma(x: int)
    requires
        is_unit(sigma_denominator(x)),
    ensures
        rq_mul(unsigma(x), sigma(x)) == rq_const(1),
{
    let (g, s) = (unsigma(x), sigma(x));
    let inv = inverse_of(sigma_denominator(x));
    lemma_inverse_exists(sigma_denominator(x));
    assert forall|k: int| 0 <= k < 64 implies modq(#[trigger] conv(g, s, k)) == (if k == 0 {
        1int
    } else {
        0int
    }) by {
        lemma_two_terms(g, s, k);
        lemma_coeff_stored(s, k);
        lemma_coeff_stored(s, k - 63);
        let (c0, c1) = (coeff(s, k), coeff(s, k - 63));
        // The coefficient is `inv` times `c0 + x c1`.
        let inner = c0 + x * c1;
        lemma_modq_mul(x * inv, c1);
        lemma_modq_add(inv * c0, modq(x * inv) * c1);
        lemma_modq_add(inv * c0, x * inv * c1);
        assert(inv * c0 + x * inv * c1 == inv * inner) by (nonlinear_arith)
            requires
                inner == c0 + x * c1,
        ;
        assert(modq(conv(g, s, k)) == modq(inv * inner));
        lemma_modq_mul(inv, inner);
        if k == 63 {
            // -x + x
            let p1 = zq_pow(x, 1);
            assert(zq_pow(x, 0) == 1);
            assert(p1 == modq(zq_pow(x, 0) * x));
            assert(1 * x == x);
            lemma_modq_add(-p1, x);
            lemma_modq_add(-x, x);
            lemma_modq_add(0 - x, x);
            lemma_modq_range(x);
            lemma_modq_neg(p1, x);
            assert(c0 == modq(-p1));
            assert(x * c1 == x) by (nonlinear_arith)
                requires
                    c1 == 1,
            ;
            assert(modq(inner) == modq(modq(-p1) + x));
            assert(modq(modq(-x) + x) == modq(-x + x));
            assert(-x + x == 0);
            lemma_modq_small(0);
            assert(inv * 0 == 0);
        } else {
            // c1 is -s[k + 1], which is congruent to x^(63 - k).
            let e = (63 - k) as nat;
            let pe = zq_pow(x, e);
            assert(c1 == -modq(-pe));
            lemma_modq_range(-pe);
            lemma_modq_neg(modq(-pe), -pe);
            assert(modq(c1) == modq(pe));
            lemma_modq_mul(c1, x);
            lemma_modq_mul(pe, x);
            assert(c1 * x == x * c1) by (nonlinear_arith);
            let pn = zq_pow(x, (64 - k) as nat);
            assert((64 - k - 1) as nat == e);
            assert(pn == modq(pe * x));
            assert(modq(x * c1) == pn);
            lemma_modq_add(c0, x * c1);
            if k == 0 {
                assert(c0 == 1);
                assert(modq(inner) == modq(1 + pn));
                assert(inv * modq(1 + pn) == modq(1 + pn) * inv) by (nonlinear_arith);
            } else {
                assert(c0 == modq(-pn));
                lemma_modq_add(-pn, pn);
                lemma_modq_small(0);
                assert(-pn + pn == 0);
                assert(modq(inner) == modq(modq(-pn) + pn));
                assert(inv * 0 == 0);
            }
        }
    }
    lemma_modq_small(0);
    lemma_modq_small(1);
    assert(rq_mul(g, s) =~= rq_const(1));
}

/// Dividing by `sigma(x)` and multiplying by it undo each other, wherever `1 + x^64` is a unit.
pub proof fn sigma_inverse_undoes_sigma(x: int, t: Rq)
    requires
        is_unit(sigma_denominator(x)),
        is_rq(t),
    ensures
        rq_mul(unsigma(x), rq_mul(sigma(x), t)) == t,
        rq_mul(sigma(x), rq_mul(unsigma(x), t)) == t,
{
    let (g, s) = (unsigma(x), sigma(x));
    lemma_unsigma(x);
    lemma_rq_mul_associative(g, s, t);
    lemma_rq_mul_associative(s, g, t);
    lemma_rq_mul_commutative(g, s);
    lemma_rq_scale_is_mul(t, 1);
    lemma_rq_scale_laws(t, 1, 1);
}

/// The constant term of a product with a conjugate is the inner product of the coefficients.
pub proof fn conjugate_gives_inner_product(a: Rq, b: Rq)
    ensures
        rq_mul(conjugate(a), b)[0] == modq(sum(|k: int| b[k] * a[k], 0, 64)),
{
    let s = conjugate(a);
    lemma_rq_mul_commutative(s, b);
    let f = |i: int| coeff(b, i) * coeff(s, 0 - i);
    let g = |k: int| b[k] * a[k];
    assert forall|i: int| 0 <= i < 64 implies modq(#[trigger] f(i)) == modq(g(i)) by {
        lemma_coeff_stored(b, i);
        lemma_coeff_stored(s, 0 - i);
        if i > 0 {
            let c = coeff(s, 0 - i);
            assert(c == -modq(-a[i]));
            lemma_modq_range(-a[i]);
            lemma_modq_neg(modq(-a[i]), -a[i]);
            lemma_modq_mul(b[i], c);
            lemma_modq_mul(b[i], a[i]);
        }
    }
    lemma_sum_congruent(f, g, 0, 64);
}

/// The constant term of a product with `sigma(x)` is the value at `x`.
pub proof fn lemma_sigma_constant_term(t: Rq, x: int)
    ensures
        rq_mul(sigma(x), t)[0] == modq(sum(|k: int| t[k] * zq_pow(x, k as nat), 0, 64)),
{
    conjugate_gives_inner_product(powers(x), t);
    crate::sums::lemma_sum_same(
        |k: int| t[k] * powers(x)[k],
        |k: int| t[k] * zq_pow(x, k as nat),
        0,
        64,
    );
}

/// Multiplying the weighted chunks by `sigma(x)` once gives what multiplying each chunk and
/// weighting the products gives.
pub proof fn sigma_factors_out(raw: Seq<u32>, x: int, n: int)
    ensures
        rq_mul(sigma(x), weighted_chunks(raw, x, n)) == rq_sum(
            |i: int| rq_scale(rq_mul(sigma(x), chunk(raw, i)), zq_pow(x, (64 * i) as nat)),
            n,
        ),
{
    let term = |i: int| rq_scale(chunk(raw, i), zq_pow(x, (64 * i) as nat));
    lemma_rq_sum_mul(sigma(x), term, n);
    let inside = |i: int| rq_mul(sigma(x), term(i));
    let outside = |i: int|
        rq_scale(rq_mul(sigma(x), chunk(raw, i)), zq_pow(x, (64 * i) as nat));
    assert forall|i: int| 0 <= i < n implies #[trigger] inside(i) == outside(i) by {
        lemma_rq_scale_mul(sigma(x), chunk(raw, i), zq_pow(x, (64 * i) as nat));
    }
    lemma_rq_sum_same(inside, outside, n);
}

/// A coefficient of a sum of ring elements.
pub proof fn lemma_rq_sum_coefficient(f: spec_fn(int) -> Rq, n: int, k: int)
    requires
        0 <= k < 64,
    ensures
        rq_sum(f, n)[k] == modq(sum(|i: int| f(i)[k], 0, n)),
    decreases n,
{
    let g = |i: int| f(i)[k];
    if n > 0 {
        lemma_rq_sum_coefficient(f, n - 1, k);
        lemma_modq_add(sum(g, 0, n - 1), f(n - 1)[k]);
    } else {
        lemma_modq_small(0);
    }
}

/// A sum over blocks of 64.
pub proof fn lemma_sum_blocks(f: spec_fn(int) -> int, n: int)
    requires
        0 <= n,
    ensures
        sum(f, 0, 64 * n) == sum(|i: int| sum(|k: int| f(64 * i + k), 0, 64), 0, n),
    decreases n,
{
    let g = |i: int| sum(|k: int| f(64 * i + k), 0, 64);
    if n > 0 {
        lemma_sum_blocks(f, n - 1);
        lemma_sum_split(f, 0, 64 * (n - 1), 64 * n);
        let s = 64 * (n - 1);
        crate::sums::lemma_sum_shift(f, s, 0, 64);
        crate::sums::lemma_sum_same(|i: int| f(i + s), |k: int| f(64 * (n - 1) + k), 0, 64);
        assert(g(n - 1) == sum(f, s, s + 64));
    }
}

/// The constant term of `sigma(x)` times the weighted chunks is the value of the polynomial, for
/// a polynomial that fills `n` chunks.
pub proof fn constant_term_is_value(raw: Seq<u32>, x: int, n: int)
    requires
        0 <= n,
        raw.len() == 64 * n,
    ensures
        rq_mul(sigma(x), weighted_chunks(raw, x, n))[0] == poly_value(raw, x),
{
    let t = weighted_chunks(raw, x, n);
    lemma_sigma_constant_term(t, x);
    let term = |i: int| rq_scale(chunk(raw, i), zq_pow(x, (64 * i) as nat));
    let raw_term = |l: int| raw[l] * zq_pow(x, l as nat);
    let cell = |k: int, i: int| raw_term(64 * i + k);
    let outer = |k: int| t[k] * zq_pow(x, k as nat);
    let inner = |k: int| sum(|i: int| cell(k, i), 0, n);
    assert forall|k: int| 0 <= k < 64 implies modq(#[trigger] outer(k)) == modq(inner(k)) by {
        let pk = zq_pow(x, k as nat);
        let entry = |i: int| term(i)[k];
        let scaled = |i: int| pk * entry(i);
        lemma_rq_sum_coefficient(term, n, k);
        crate::sums::lemma_sum_scale(pk, entry, 0, n);
        lemma_modq_mul(sum(entry, 0, n), pk);
        assert(sum(entry, 0, n) * pk == pk * sum(entry, 0, n)) by (nonlinear_arith);
        assert forall|i: int| 0 <= i < n implies modq(#[trigger] scaled(i)) == modq(
            (|i: int| cell(k, i))(i),
        ) by {
            let c = raw[64 * i + k] as int;
            let pi = zq_pow(x, (64 * i) as nat);
            assert(chunk(raw, i)[k] == c);
            assert(entry(i) == modq(c * pi));
            lemma_modq_mul(pk, c * pi);
            lemma_pow_add(x, (64 * i) as nat, k as nat);
            assert((64 * i + k) as nat == (64 * i) as nat + k as nat);
            lemma_modq_mul(c, pi * pk);
            assert(pk * (c * pi) == c * (pi * pk)) by (nonlinear_arith);
        }
        lemma_sum_congruent(scaled, |i: int| cell(k, i), 0, n);
    }
    lemma_sum_congruent(outer, inner, 0, 64);
    crate::sums::lemma_sum_swap(cell, 64, n);
    lemma_sum_blocks(raw_term, n);
    let swapped = |i: int| sum(|k: int| cell(k, i), 0, 64);
    let blocks = |i: int| sum(|k: int| raw_term(64 * i + k), 0, 64);
    assert forall|i: int| 0 <= i < n implies #[trigger] swapped(i) == blocks(i) by {
        crate::sums::lemma_sum_same(
            |k: int| cell(k, i),
            |k: int| raw_term(64 * i + k),
            0,
            64,
        );
    }
    crate::sums::lemma_sum_same(swapped, blocks, 0, n);
}

} // verus!
