//! Rearrangements of flat vectors and matrices.
use vstd::prelude::*;

use crate::linalg::{lemma_flat_index, lemma_flat_split};
use crate::poly::{add_poly, rqs, zqs, PolyRing};
use crate::rq::{rq_add, Rq};
use crate::zq::Zq;

verus! {

/// The transpose of a matrix with `rows` rows and `cols` columns.
pub open spec fn transpose<T>(a: Seq<T>, rows: int, cols: int) -> Seq<T> {
    Seq::new((cols * rows) as nat, |x: int| a[(x % rows) * cols + x / rows])
}

/// Digits of `groups` vectors of length `width`, from digit-major order over all vectors to
/// digit-major order within each: digit `k` of entry `j` of vector `i` moves from place
/// `(k * groups + i) * width + j` to place `(i * count + k) * width + j`.
pub open spec fn regroup<T>(digits: Seq<T>, count: int, groups: int, width: int) -> Seq<T> {
    Seq::new(
        (groups * (count * width)) as nat,
        |x: int|
            {
                let i = x / (count * width);
                let k = (x % (count * width)) / width;
                let j = (x % (count * width)) % width;
                digits[(k * groups + i) * width + j]
            },
    )
}

/// The ring elements with the given coefficients, 64 for each.
pub open spec fn packed(scalars: Seq<int>) -> Seq<Rq> {
    Seq::new(
        scalars.len() / 64,
        |i: int| Seq::new(64, |k: int| scalars[64 * i + k]),
    )
}

/// The entries `lo..hi` of each row, one row after the other.
pub open spec fn flat_columns(rows: Seq<Vec<PolyRing>>, lo: int, hi: int) -> Seq<Rq> {
    Seq::new(
        (rows.len() * (hi - lo)) as nat,
        |x: int| rows[x / (hi - lo)]@[lo + x % (hi - lo)]@,
    )
}

/// The entries of the first `n` rows of a square matrix of size `r` that are on or above the
/// diagonal, row by row.
pub open spec fn upper_rows(a: Seq<Rq>, r: int, n: int) -> Seq<Rq>
    decreases n,
{
    if n <= 0 {
        Seq::empty()
    } else {
        upper_rows(a, r, n - 1) + Seq::new(
            (r - (n - 1)) as nat,
            |d: int| a[(n - 1) * r + (n - 1) + d],
        )
    }
}

/// The number of entries on or above the diagonal in the first `n` rows.
pub open spec fn upper_count(r: int, n: int) -> int
    decreases n,
{
    if n <= 0 {
        0
    } else {
        upper_count(r, n - 1) + (r - (n - 1))
    }
}

/// The entries of `a + a^T` in the first `n` rows that are on or below the diagonal, row by row.
pub open spec fn lower_rows(a: Seq<Rq>, r: int, n: int) -> Seq<Rq>
    decreases n,
{
    if n <= 0 {
        Seq::empty()
    } else {
        lower_rows(a, r, n - 1) + Seq::new(
            n as nat,
            |j: int| rq_add(a[(n - 1) * r + j], a[j * r + (n - 1)]),
        )
    }
}

/// The number of entries on or below the diagonal in the first `n` rows.
pub open spec fn lower_count(n: int) -> int
    decreases n,
{
    if n <= 0 {
        0
    } else {
        lower_count(n - 1) + n
    }
}

/// The number of entries on or above the diagonal in the first `n` rows, in closed form.
pub proof fn lemma_upper_total(r: int, n: int)
    requires
        0 <= n <= r,
    ensures
        2 * upper_count(r, n) == n * (2 * r - n + 1),
    decreases n,
{
    if n > 0 {
        lemma_upper_total(r, n - 1);
        assert((n - 1) * (2 * r - (n - 1) + 1) + 2 * (r - (n - 1)) == n * (2 * r - n + 1))
            by (nonlinear_arith);
    } else {
        assert(0 * (2 * r + 1) == 0);
    }
}

/// There are as many entries above the diagonal as below it.
pub proof fn lemma_upper_count(r: int)
    requires
        0 <= r,
    ensures
        upper_count(r, r) == lower_count(r),
{
    lemma_upper_total(r, r);
    lemma_lower_count(r);
    assert(r * (2 * r - r + 1) == r * (r + 1)) by (nonlinear_arith);
}

pub proof fn lemma_lower_count(n: int)
    requires
        0 <= n,
    ensures
        2 * lower_count(n) == n * (n + 1),
        lower_count(n) == n * (n + 1) / 2,
    decreases n,
{
    if n > 0 {
        lemma_lower_count(n - 1);
        assert((n - 1) * ((n - 1) + 1) + 2 * n == n * (n + 1)) by (nonlinear_arith);
    } else {
        assert(n * (n + 1) == 0) by (nonlinear_arith)
            requires
                n == 0,
        ;
    }
}

pub proof fn lemma_upper_rows_len(a: Seq<Rq>, r: int, n: int)
    requires
        0 <= n <= r,
    ensures
        upper_rows(a, r, n).len() == upper_count(r, n),
    decreases n,
{
    if n > 0 {
        lemma_upper_rows_len(a, r, n - 1);
    }
}

pub proof fn lemma_lower_rows_len(a: Seq<Rq>, r: int, n: int)
    requires
        0 <= n,
    ensures
        lower_rows(a, r, n).len() == lower_count(n),
    decreases n,
{
    if n > 0 {
        lemma_lower_rows_len(a, r, n - 1);
    }
}

/// Place `d` of row `i` above the diagonal.
pub proof fn lemma_upper_rows_entry(a: Seq<Rq>, r: int, n: int, i: int, d: int)
    requires
        0 <= i < n <= r,
        0 <= d < r - i,
    ensures
        upper_rows(a, r, n).len() == upper_count(r, n),
        0 <= upper_count(r, i) + d < upper_count(r, n),
        upper_rows(a, r, n)[upper_count(r, i) + d] == a[i * r + i + d],
    decreases n,
{
    lemma_upper_rows_len(a, r, n);
    lemma_upper_rows_len(a, r, n - 1);
    if i < n - 1 {
        lemma_upper_rows_entry(a, r, n - 1, i, d);
    }
}

/// Place `j` of row `i` below the diagonal.
pub proof fn lemma_lower_rows_entry(a: Seq<Rq>, r: int, n: int, i: int, j: int)
    requires
        0 <= i < n,
        0 <= j <= i,
    ensures
        lower_rows(a, r, n).len() == lower_count(n),
        0 <= lower_count(i) + j < lower_count(n),
        lower_rows(a, r, n)[lower_count(i) + j] == rq_add(a[i * r + j], a[j * r + i]),
    decreases n,
{
    lemma_lower_rows_len(a, r, n);
    lemma_lower_rows_len(a, r, n - 1);
    if i < n - 1 {
        lemma_lower_rows_entry(a, r, n - 1, i, j);
    }
}

/// The transpose of a matrix.
pub fn transposed(a: &[PolyRing], rows: usize, cols: usize) -> (r: Vec<PolyRing>)
    requires
        a.len() == rows * cols,
    ensures
        r@.len() == cols * rows,
        rqs(r@) == transpose(rqs(a@), rows as int, cols as int),
{
    let mut out: Vec<PolyRing> = Vec::new();
    assert(0 * rows == 0);
    for i in 0..cols
        invariant
            a.len() == rows * cols,
            out@.len() == i * rows,
            forall|x: int|
                0 <= x < i * rows ==> #[trigger] out@[x] == a@[(x % rows as int) * cols + x
                    / rows as int],
    {
        for row in 0..rows
            invariant
                i < cols,
                a.len() == rows * cols,
                out@.len() == i * rows + row,
                forall|x: int|
                    0 <= x < i * rows + row ==> #[trigger] out@[x] == a@[(x % rows as int) * cols
                        + x / rows as int],
        {
            proof {
                lemma_flat_index(row as int, i as int, rows as int, cols as int);
                lemma_flat_index(i as int, row as int, cols as int, rows as int);
            }
            out.push(a[row * cols + i]);
        }
        proof {
            assert(i * rows + rows == (i + 1) * rows) by (nonlinear_arith);
        }
    }
    proof {
        let (k, l) = (rows as int, cols as int);
        assert forall|x: int| 0 <= x < l * k implies 0 <= #[trigger] ((x % k) * l + x / k)
            && (x % k) * l + x / k < a@.len() by {
            lemma_flat_split(x, l, k);
            lemma_flat_index(x % k, x / k, k, l);
        }
        assert(rqs(out@) =~= transpose(rqs(a@), k, l));
    }
    out
}

proof fn lemma_regroup_place(i: int, k: int, j: int, count: int, groups: int, width: int)
    requires
        0 <= i < groups,
        0 <= k < count,
        0 <= j < width,
    ensures
        0 <= (i * count + k) * width + j < groups * (count * width),
        ((i * count + k) * width + j) / (count * width) == i,
        ((i * count + k) * width + j) % (count * width) == k * width + j,
        (k * width + j) / width == k,
        (k * width + j) % width == j,
        0 <= (k * groups + i) * width + j < count * groups * width,
        0 <= k * groups + i < count * groups,
{
    lemma_flat_index(k, j, count, width);
    lemma_flat_index(i, k * width + j, groups, count * width);
    assert((i * count + k) * width + j == i * (count * width) + (k * width + j))
        by (nonlinear_arith);
    lemma_flat_index(k, i, count, groups);
    lemma_flat_index(k * groups + i, j, count * groups, width);
}

/// Digits in digit-major order within each vector.
pub fn regroup_digits(digits: &[PolyRing], count: usize, groups: usize, width: usize) -> (r: Vec<
    PolyRing,
>)
    requires
        digits.len() == count * groups * width,
    ensures
        r@.len() == groups * (count * width),
        rqs(r@) == regroup(rqs(digits@), count as int, groups as int, width as int),
{
    let ghost (gc, gg, gw) = (count as int, groups as int, width as int);
    let ghost at = |x: int|
        digits@[((x % (gc * gw)) / gw * gg + x / (gc * gw)) * gw + (x % (gc * gw)) % gw];
    let mut out: Vec<PolyRing> = Vec::new();
    assert(0 * (gc * gw) == 0);
    for i in 0..groups
        invariant
            digits.len() == count * groups * width,
            gc == count && gg == groups && gw == width,
            at == (|x: int|
                digits@[((x % (gc * gw)) / gw * gg + x / (gc * gw)) * gw + (x % (gc * gw)) % gw]),
            out@.len() == i * (gc * gw),
            forall|x: int| 0 <= x < i * (gc * gw) ==> #[trigger] out@[x] == at(x),
    {
        assert(0 * gw == 0);
        for k in 0..count
            invariant
                i < groups,
                digits.len() == count * groups * width,
                gc == count && gg == groups && gw == width,
                at == (|x: int|
                    digits@[((x % (gc * gw)) / gw * gg + x / (gc * gw)) * gw + (x % (gc * gw))
                        % gw]),
                out@.len() == i * (gc * gw) + k * gw,
                forall|x: int| 0 <= x < i * (gc * gw) + k * gw ==> #[trigger] out@[x] == at(x),
        {
            for j in 0..width
                invariant
                    i < groups,
                    k < count,
                    digits.len() == count * groups * width,
                    gc == count && gg == groups && gw == width,
                    at == (|x: int|
                        digits@[((x % (gc * gw)) / gw * gg + x / (gc * gw)) * gw + (x % (gc * gw))
                            % gw]),
                    out@.len() == i * (gc * gw) + k * gw + j,
                    forall|x: int|
                        0 <= x < i * (gc * gw) + k * gw + j ==> #[trigger] out@[x] == at(x),
            {
                proof {
                    lemma_regroup_place(i as int, k as int, j as int, gc, gg, gw);
                    assert((i * gc + k) * gw + j == i * (gc * gw) + k * gw + j)
                        by (nonlinear_arith);
                    let row = k * gg + i;
                    assert(row * gw <= row * gw + j);
                    assert(row <= row * gw) by (nonlinear_arith)
                        requires
                            0 <= row,
                            1 <= gw,
                    ;
                    assert(0 <= k * gg) by (nonlinear_arith)
                        requires
                            0 <= k,
                            0 <= gg,
                    ;
                    assert(at(i * (gc * gw) + k * gw + j) == digits@[row * gw + j]);
                }
                out.push(digits[(k * groups + i) * width + j]);
            }
            proof {
                assert(k * gw + gw == (k + 1) * gw) by (nonlinear_arith);
            }
        }
        proof {
            assert(i * (gc * gw) + gc * gw == (i + 1) * (gc * gw)) by (nonlinear_arith);
        }
    }
    proof {
        assert forall|x: int| 0 <= x < gg * (gc * gw) implies (#[trigger] rqs(out@)[x])
            == regroup(rqs(digits@), gc, gg, gw)[x] by {
            assert(0 <= gc * gw) by (nonlinear_arith)
                requires
                    0 <= gc,
                    0 <= gw,
            ;
            lemma_flat_split(x, gg, gc * gw);
            lemma_flat_split(x % (gc * gw), gc, gw);
            let (i, y) = (x / (gc * gw), x % (gc * gw));
            lemma_regroup_place(i, y / gw, y % gw, gc, gg, gw);
            assert(out@[x] == at(x));
        }
        assert(rqs(out@) =~= regroup(rqs(digits@), gc, gg, gw));
    }
    out
}

/// The ring elements with the given coefficients; `None` unless 64 divides their number.
pub fn pack_scalars(scalars: &[Zq]) -> (r: Option<Vec<PolyRing>>)
    ensures
        r is Some == (scalars@.len() % 64 == 0),
        r matches Some(out) ==> out@.len() == scalars@.len() / 64 && rqs(out@) == packed(
            zqs(scalars@),
        ),
        r matches Some(out) ==> forall|l: int|
            0 <= l < scalars@.len() ==> out@[l / 64]@[l % 64] == (#[trigger] scalars@[l])@,
{
    if scalars.len() % 64 != 0 {
        return None;
    }
    let n: usize = scalars.len() / 64;
    let mut out: Vec<PolyRing> = Vec::new();
    for i in 0..n
        invariant
            n == scalars.len() / 64,
            out@.len() == i,
            forall|l: int|
                0 <= l < i ==> (#[trigger] out@[l])@ == Seq::new(
                    64,
                    |k: int| zqs(scalars@)[64 * l + k],
                ),
    {
        let chunk = vstd::slice::slice_subrange(scalars, 64 * i, 64 * i + 64);
        let p = match PolyRing::from_slice(chunk) {
            Some(p) => p,
            None => PolyRing::zero(),
        };
        assert(p@ =~= Seq::new(64, |k: int| zqs(scalars@)[64 * i + k]));
        out.push(p);
    }
    assert(rqs(out@) =~= packed(zqs(scalars@)));
    proof {
        assert forall|l: int| 0 <= l < scalars@.len() implies out@[l / 64]@[l % 64] == (
        #[trigger] scalars@[l])@ by {
            packing_keeps_every_scalar(zqs(scalars@), l);
            assert(rqs(out@)[l / 64] == out@[l / 64]@);
        }
    }
    Some(out)
}

/// The entries `lo..hi` of each row, one row after the other.
pub fn flatten_columns(rows: &Vec<Vec<PolyRing>>, lo: usize, hi: usize) -> (r: Vec<PolyRing>)
    requires
        lo <= hi,
        forall|i: int| 0 <= i < rows@.len() ==> hi <= (#[trigger] rows@[i]).len(),
    ensures
        r@.len() == rows@.len() * (hi - lo),
        rqs(r@) == flat_columns(rows@, lo as int, hi as int),
{
    let ghost w = hi - lo;
    let mut out: Vec<PolyRing> = Vec::new();
    assert(0 * w == 0);
    for i in 0..rows.len()
        invariant
            lo <= hi,
            w == hi - lo,
            forall|i: int| 0 <= i < rows@.len() ==> hi <= (#[trigger] rows@[i]).len(),
            out@.len() == i * w,
            forall|x: int|
                0 <= x < i * w ==> (#[trigger] out@[x])@ == rows@[x / w]@[lo + x % w]@,
    {
        for j in lo..hi
            invariant
                i < rows@.len(),
                lo <= hi,
                w == hi - lo,
                forall|i: int| 0 <= i < rows@.len() ==> hi <= (#[trigger] rows@[i]).len(),
                out@.len() == i * w + (j - lo),
                forall|x: int|
                    0 <= x < i * w + (j - lo) ==> (#[trigger] out@[x])@ == rows@[x / w]@[lo + x
                        % w]@,
        {
            proof {
                lemma_flat_index(i as int, j - lo, rows@.len() as int, w);
            }
            out.push(rows[i][j]);
        }
        proof {
            assert(i * w + w == (i + 1) * w) by (nonlinear_arith);
        }
    }
    assert(rqs(out@) =~= flat_columns(rows@, lo as int, hi as int));
    out
}

/// The entries of a square matrix on or above the diagonal, row by row.
pub fn upper_triangle(a: &[PolyRing], r: usize) -> (out: Vec<PolyRing>)
    requires
        a.len() == r * r,
    ensures
        out@.len() == upper_count(r as int, r as int),
        rqs(out@) == upper_rows(rqs(a@), r as int, r as int),
{
    let ghost m = rqs(a@);
    let mut out: Vec<PolyRing> = Vec::new();
    assert(rqs(out@) =~= upper_rows(m, r as int, 0));
    for i in 0..r
        invariant
            a.len() == r * r,
            m == rqs(a@),
            rqs(out@) == upper_rows(m, r as int, i as int),
    {
        let ghost before = out@;
        for j in i..r
            invariant
                i < r,
                a.len() == r * r,
                m == rqs(a@),
                out@.len() == before.len() + (j - i),
                rqs(out@) =~= rqs(before) + Seq::new((j - i) as nat, |d: int| m[i * r + i + d]),
        {
            proof {
                lemma_flat_index(i as int, j as int, r as int, r as int);
            }
            let ghost earlier = out@;
            out.push(a[i * r + j]);
            assert(rqs(out@) =~= rqs(earlier).push(m[i * r + j]));
            assert(m[i * r + j] == m[i * r + i + (j - i)]);
        }
        assert(rqs(out@) =~= upper_rows(m, r as int, i + 1));
    }
    proof {
        lemma_upper_rows_len(m, r as int, r as int);
        assert(out@.len() == rqs(out@).len());
    }
    out
}

/// The entries of `a + a^T` on or below the diagonal, row by row.
pub fn symmetric_sums(a: &[PolyRing], r: usize) -> (out: Vec<PolyRing>)
    requires
        a.len() == r * r,
    ensures
        out@.len() == lower_count(r as int),
        rqs(out@) == lower_rows(rqs(a@), r as int, r as int),
{
    let ghost m = rqs(a@);
    let mut out: Vec<PolyRing> = Vec::new();
    assert(rqs(out@) =~= lower_rows(m, r as int, 0));
    for i in 0..r
        invariant
            a.len() == r * r,
            m == rqs(a@),
            rqs(out@) == lower_rows(m, r as int, i as int),
    {
        let ghost before = out@;
        for j in 0..(i + 1)
            invariant
                i < r,
                a.len() == r * r,
                m == rqs(a@),
                out@.len() == before.len() + j,
                rqs(out@) =~= rqs(before) + Seq::new(
                    j as nat,
                    |j: int| rq_add(m[i * r + j], m[j * r + i]),
                ),
        {
            proof {
                lemma_flat_index(i as int, j as int, r as int, r as int);
                lemma_flat_index(j as int, i as int, r as int, r as int);
            }
            let ghost earlier = out@;
            let s = add_poly(&a[i * r + j], &a[j * r + i]);
            out.push(s);
            assert(rqs(out@) =~= rqs(earlier).push(s@));
        }
        assert(rqs(out@) =~= lower_rows(m, r as int, i + 1));
    }
    proof {
        lemma_lower_rows_len(m, r as int, r as int);
        assert(out@.len() == rqs(out@).len());
    }
    out
}

/// Packing keeps every scalar: scalar `l` is coefficient `l % 64` of element `l / 64`.
pub proof fn packing_keeps_every_scalar(s: Seq<int>, l: int)
    requires
        s.len() % 64 == 0,
        0 <= l < s.len(),
    ensures
        64 * packed(s).len() == s.len(),
        packed(s)[l / 64].len() == 64,
        packed(s)[l / 64][l % 64] == s[l],
{
}

/// Different scalars of the same number make different elements.
pub proof fn packing_is_injective(s: Seq<int>, t: Seq<int>)
    requires
        s.len() == t.len(),
        s.len() % 64 == 0,
        packed(s) == packed(t),
    ensures
        s == t,
{
    assert forall|l: int| 0 <= l < s.len() implies #[trigger] s[l] == t[l] by {
        packing_keeps_every_scalar(s, l);
        packing_keeps_every_scalar(t, l);
    }
    assert(s =~= t);
}

/// Transposing moves the entry in row `i` and column `j` to row `j` and column `i`.
pub proof fn transposing_swaps<T>(a: Seq<T>, rows: int, cols: int, i: int, j: int)
    requires
        0 <= i < rows,
        0 <= j < cols,
    ensures
        transpose(a, rows, cols).len() == cols * rows,
        transpose(a, rows, cols)[j * rows + i] == a[i * cols + j],
{
    lemma_flat_index(j, i, cols, rows);
}

/// Transposing twice gives the matrix back.
pub proof fn transposing_twice<T>(a: Seq<T>, rows: int, cols: int)
    requires
        0 <= rows,
        0 <= cols,
        a.len() == rows * cols,
    ensures
        transpose(transpose(a, rows, cols), cols, rows) == a,
{
    let t = transpose(transpose(a, rows, cols), cols, rows);
    assert forall|x: int| 0 <= x < rows * cols implies #[trigger] t[x] == a[x] by {
        lemma_flat_split(x, rows, cols);
        let (i, j) = (x / cols, x % cols);
        transposing_swaps(a, rows, cols, i, j);
        transposing_swaps(transpose(a, rows, cols), cols, rows, j, i);
    }
    assert(t =~= a);
}

/// Regrouping moves digit `k` of entry `j` of vector `i` from the digits `k` of all vectors to
/// the digits of vector `i`.
pub proof fn regrouping_moves<T>(
    digits: Seq<T>,
    count: int,
    groups: int,
    width: int,
    i: int,
    k: int,
    j: int,
)
    requires
        0 <= i < groups,
        0 <= k < count,
        0 <= j < width,
    ensures
        regroup(digits, count, groups, width).len() == groups * (count * width),
        regroup(digits, count, groups, width)[i * (count * width) + k * width + j] == digits[k * (
        groups * width) + i * width + j],
{
    lemma_regroup_place(i, k, j, count, groups, width);
    assert((i * count + k) * width + j == i * (count * width) + k * width + j)
        by (nonlinear_arith);
    assert((k * groups + i) * width + j == k * (groups * width) + i * width + j)
        by (nonlinear_arith);
}

/// Every entry of every row is kept, in order.
pub proof fn flattening_keeps_every_entry(
    rows: Seq<Vec<PolyRing>>,
    lo: int,
    hi: int,
    i: int,
    j: int,
)
    requires
        0 <= i < rows.len(),
        lo <= j < hi,
    ensures
        flat_columns(rows, lo, hi).len() == rows.len() * (hi - lo),
        flat_columns(rows, lo, hi)[i * (hi - lo) + (j - lo)] == rows[i]@[j]@,
{
    lemma_flat_index(i, j - lo, rows.len() as int, hi - lo);
}

/// The upper triangle holds the entry in row `i` and column `j >= i` at its place: after the
/// `r + (r - 1) + ... + (r - i + 1)` entries of the rows before, and the `j - i` before it.
pub proof fn upper_triangle_keeps_every_entry(a: Seq<Rq>, r: int, i: int, j: int)
    requires
        0 <= i <= j < r,
    ensures
        2 * upper_rows(a, r, r).len() == r * (r + 1),
        upper_rows(a, r, r)[i * (2 * r - i + 1) / 2 + (j - i)] == a[i * r + j],
{
    lemma_upper_rows_entry(a, r, r, i, j - i);
    lemma_upper_total(r, i);
    lemma_upper_total(r, r);
    assert(r * (2 * r - r + 1) == r * (r + 1)) by (nonlinear_arith);
    assert(i * r + i + (j - i) == i * r + j);
}

/// The symmetric sums hold `a(i, j) + a(j, i)` for `j <= i` at its place: after the `1 + 2 + ... +
/// i` entries of the rows before, and the `j` before it.
pub proof fn symmetric_sums_keep_every_pair(a: Seq<Rq>, r: int, i: int, j: int)
    requires
        0 <= j <= i < r,
    ensures
        2 * lower_rows(a, r, r).len() == r * (r + 1),
        lower_rows(a, r, r)[i * (i + 1) / 2 + j] == rq_add(a[i * r + j], a[j * r + i]),
{
    lemma_lower_rows_entry(a, r, r, i, j);
    lemma_lower_count(i);
    lemma_lower_count(r);
}

} // verus!
