//! Mathematical model of the matrix library.
//!
//! Every stored value is a fixed-point number counted in units of `1/100000`:
//! the library's rounding convention keeps all produced values on that
//! five-decimal grid, so a grid of `int` units models a matrix exactly.
//! The spec functions here define the grid operations (elementwise
//! arithmetic, transpose, trace, cofactor-expansion determinant, adjugate,
//! inverse) and the magnitude/factorial bounds under which the executable
//! code is proved free of overflow.

use vstd::prelude::*;
use vstd::arithmetic::div_mod::lemma_div_is_ordered;
use vstd::arithmetic::div_mod::lemma_div_pos_is_pos;
use vstd::arithmetic::div_mod::lemma_div_multiples_vanish_fancy;

verus! {

/// Fixed-point units per 1.0: values are stored as multiples of 1/100000.
pub const UNIT: i64 = 100000;

/// Headroom limit for the intermediate `i128` determinant arithmetic.
pub const DET_LIMIT: i128 = 0x1fffffffffffffffffffffffffffffff;

pub open spec fn abs_i(x: int) -> int {
    if x < 0 {
        -x
    } else {
        x
    }
}

pub open spec fn max_i(a: int, b: int) -> int {
    if a >= b {
        a
    } else {
        b
    }
}

/// The view of an executable row: each `i64` element as a mathematical integer.
pub open spec fn row_view(v: Seq<i64>) -> Seq<int> {
    v.map_values(|x: i64| x as int)
}

/// The view of an executable grid: each `i64` element as a mathematical integer.
pub open spec fn grid_view(v: Seq<Vec<i64>>) -> Seq<Seq<int>> {
    v.map_values(|row: Vec<i64>| row_view(row@))
}

pub broadcast proof fn lemma_row_view_len(v: Seq<i64>)
    ensures
        (#[trigger] row_view(v)).len() == v.len(),
{
}

pub broadcast proof fn lemma_row_view_index(v: Seq<i64>, j: int)
    requires
        0 <= j < v.len(),
    ensures
        #[trigger] row_view(v)[j] == v[j] as int,
{
}

pub broadcast proof fn lemma_grid_view_len(v: Seq<Vec<i64>>)
    ensures
        (#[trigger] grid_view(v)).len() == v.len(),
{
}

pub broadcast proof fn lemma_grid_view_index(v: Seq<Vec<i64>>, i: int)
    requires
        0 <= i < v.len(),
    ensures
        #[trigger] grid_view(v)[i] == row_view(v[i]@),
{
}

pub broadcast proof fn lemma_row_view_elem(v: Seq<i64>, j: int)
    requires
        0 <= j < v.len(),
    ensures
        row_view(v)[j] == (#[trigger] v[j]) as int,
{
}

pub broadcast proof fn lemma_grid_view_row(v: Seq<Vec<i64>>, i: int)
    requires
        0 <= i < v.len(),
    ensures
        grid_view(v)[i] == row_view((#[trigger] v[i])@),
        grid_view(v)[i].len() == v[i]@.len(),
{
}

/// The index and length facts that tie an executable grid to its view.
pub broadcast group group_grid_view {
    lemma_row_view_len,
    lemma_row_view_index,
    lemma_grid_view_len,
    lemma_grid_view_index,
    lemma_row_view_elem,
    lemma_grid_view_row,
}

/// `g` is a grid with exactly `r` rows, each of exactly `c` elements.
pub open spec fn is_grid(g: Seq<Seq<int>>, r: int, c: int) -> bool {
    &&& g.len() == r
    &&& forall|i: int| 0 <= i < g.len() ==> (#[trigger] g[i]).len() == c
}

/// Every element of `g` has absolute value at most `m`.
pub open spec fn grid_bounded(g: Seq<Seq<int>>, m: int) -> bool {
    forall|i: int, j: int|
        0 <= i < g.len() && 0 <= j < g[i].len() ==> abs_i(#[trigger] g[i][j]) <= m
}

/// Largest absolute value among the first `k` elements of a row, at least 1.
pub open spec fn row_mag(r: Seq<int>, k: nat) -> int
    decreases k,
{
    if k == 0 {
        1
    } else {
        max_i(row_mag(r, (k - 1) as nat), abs_i(r[k - 1]))
    }
}

/// Largest absolute value among the first `k` rows of a grid, at least 1.
pub open spec fn grid_mag_upto(g: Seq<Seq<int>>, k: nat) -> int
    decreases k,
{
    if k == 0 {
        1
    } else {
        max_i(grid_mag_upto(g, (k - 1) as nat), row_mag(g[k - 1 as int], g[k - 1 as int].len()))
    }
}

/// Magnitude of a grid: the largest absolute value of any element, at least 1.
pub open spec fn grid_mag(g: Seq<Seq<int>>) -> int {
    grid_mag_upto(g, g.len())
}

/// `num / den` rounded to the nearest integer, halves away from zero
/// (the rounding the five-decimal grid uses). Meaningful for `den >= 1`.
pub open spec fn round_ratio(num: int, den: int) -> int {
    if num >= 0 {
        (num + den / 2) / den
    } else {
        -((-num + den / 2) / den)
    }
}

/// `round_ratio` for a divisor of either sign (but not zero).
pub open spec fn round_signed(num: int, den: int) -> int {
    if den < 0 {
        round_ratio(-num, -den)
    } else {
        round_ratio(num, den)
    }
}

/// n factorial.
pub open spec fn fact(n: nat) -> int
    decreases n,
{
    if n == 0 {
        1
    } else {
        n * fact((n - 1) as nat)
    }
}

/// `b` to the power of `e`.
pub open spec fn pow_i(b: int, e: nat) -> int
    decreases e,
{
    if e == 0 {
        1
    } else {
        b * pow_i(b, (e - 1) as nat)
    }
}

pub proof fn lemma_pow_i_pos(b: int, e: nat)
    requires
        b >= 1,
    ensures
        pow_i(b, e) >= 1,
    decreases e,
{
    if e > 0 {
        lemma_pow_i_pos(b, (e - 1) as nat);
        assert(b * pow_i(b, (e - 1) as nat) >= 1) by (nonlinear_arith)
            requires
                b >= 1,
                pow_i(b, (e - 1) as nat) >= 1,
        ;
    }
}

pub proof fn lemma_pow_i_increases(b: int, e1: nat, e2: nat)
    requires
        b >= 1,
        e1 <= e2,
    ensures
        pow_i(b, e1) <= pow_i(b, e2),
    decreases e2,
{
    if e1 < e2 {
        lemma_pow_i_increases(b, e1, (e2 - 1) as nat);
        lemma_pow_i_pos(b, (e2 - 1) as nat);
        assert(pow_i(b, (e2 - 1) as nat) <= b * pow_i(b, (e2 - 1) as nat)) by (nonlinear_arith)
            requires
                b >= 1,
                pow_i(b, (e2 - 1) as nat) >= 1,
        ;
    }
}

/// The sub-grid of `g` with row `r` and column `c` deleted.
pub open spec fn minor_grid(g: Seq<Seq<int>>, r: int, c: int) -> Seq<Seq<int>> {
    Seq::new(
        (g.len() - 1) as nat,
        |i: int|
            {
                let src = if i < r {
                    g[i]
                } else {
                    g[i + 1]
                };
                Seq::new(
                    (src.len() - 1) as nat,
                    |j: int|
                        if j < c {
                            src[j]
                        } else {
                            src[j + 1]
                        },
                )
            },
    )
}

/// The sign `(-1)^k` of a cofactor position.
pub open spec fn term_sign(k: nat) -> int {
    if k % 2 == 0 {
        1
    } else {
        -1
    }
}

/// Partial Laplace expansion of the determinant along the first row:
/// the signed sum of the first `j` terms.
pub open spec fn det_sum(g: Seq<Seq<int>>, j: nat) -> int
    decreases g.len(), j,
{
    if j == 0 || g.len() == 0 {
        0
    } else {
        det_sum(g, (j - 1) as nat) + term_sign((j - 1) as nat) * g[0][j - 1] * int_det(
            minor_grid(g, 0, j - 1),
        )
    }
}

/// Determinant of a square grid of integer units, by cofactor expansion
/// along the first row. The determinant of the empty grid is 1.
pub open spec fn int_det(g: Seq<Seq<int>>) -> int
    decreases g.len(), g.len() + 1,
{
    if g.len() == 0 {
        1
    } else {
        det_sum(g, g.len())
    }
}

/// The determinant of an n-by-n grid, expressed back in fixed-point units:
/// element units are value*100000, so `int_det` carries a factor of
/// 100000^n and the rounded value carries a factor of 100000.
pub open spec fn det_units(g: Seq<Seq<int>>) -> int {
    if g.len() == 0 {
        100000 as int
    } else {
        round_ratio(int_det(g), pow_i(100000, (g.len() - 1) as nat))
    }
}

/// Element (i, j) of the adjugate: the cofactor at the transposed position.
pub open spec fn adj_entry(g: Seq<Seq<int>>, i: int, j: int) -> int {
    term_sign((i + j) as nat) * det_units(minor_grid(g, j, i))
}

/// The adjugate (transposed cofactor grid) of a square grid.
pub open spec fn adjoint_grid(g: Seq<Seq<int>>) -> Seq<Seq<int>> {
    Seq::new(g.len(), |i: int| Seq::new(g.len(), |j: int| adj_entry(g, i, j)))
}

/// Element (i, j) of the inverse: the adjugate element divided by the
/// determinant, rounded to the five-decimal grid.
pub open spec fn inv_entry(g: Seq<Seq<int>>, i: int, j: int) -> int {
    round_signed(100000 * adj_entry(g, i, j), det_units(g))
}

/// The rounded inverse of a square grid with nonzero determinant.
pub open spec fn inverse_grid(g: Seq<Seq<int>>) -> Seq<Seq<int>> {
    Seq::new(g.len(), |i: int| Seq::new(g.len(), |j: int| inv_entry(g, i, j)))
}

/// Elementwise sum. Sums of grid values stay on the grid, so no rounding.
pub open spec fn add_grid(a: Seq<Seq<int>>, b: Seq<Seq<int>>) -> Seq<Seq<int>> {
    Seq::new(a.len(), |i: int| Seq::new(a[i].len(), |j: int| a[i][j] + b[i][j]))
}

/// Elementwise difference.
pub open spec fn sub_grid(a: Seq<Seq<int>>, b: Seq<Seq<int>>) -> Seq<Seq<int>> {
    Seq::new(a.len(), |i: int| Seq::new(a[i].len(), |j: int| a[i][j] - b[i][j]))
}

/// Elementwise negation.
pub open spec fn neg_grid(g: Seq<Seq<int>>) -> Seq<Seq<int>> {
    Seq::new(g.len(), |i: int| Seq::new(g[i].len(), |j: int| -g[i][j]))
}

/// Every element multiplied by the fixed-point scalar `s`, rounded back
/// to the grid (two unit factors in the product, one in the result).
pub open spec fn scale_grid(s: int, g: Seq<Seq<int>>) -> Seq<Seq<int>> {
    Seq::new(g.len(), |i: int| Seq::new(g[i].len(), |j: int| round_ratio(s * g[i][j], 100000)))
}

/// Transpose of a grid with `c` columns (passed separately so that grids
/// with zero rows still transpose to `c` empty rows).
pub open spec fn transpose_grid(g: Seq<Seq<int>>, c: int) -> Seq<Seq<int>> {
    Seq::new(c as nat, |i: int| Seq::new(g.len(), |j: int| g[j][i]))
}

/// Dot product of row `a` with column `col` of `b`, over the first `k` terms.
pub open spec fn dot_prefix(a: Seq<int>, b: Seq<Seq<int>>, col: int, k: nat) -> int
    decreases k,
{
    if k == 0 {
        0
    } else {
        dot_prefix(a, b, col, (k - 1) as nat) + a[k - 1] * b[k - 1 as int][col]
    }
}

/// Matrix product of `a` and `b`, where `b` has `p` columns; each cell is
/// the full dot product rounded once back to the grid.
pub open spec fn mul_grid(a: Seq<Seq<int>>, b: Seq<Seq<int>>, p: int) -> Seq<Seq<int>> {
    Seq::new(
        a.len(),
        |i: int| Seq::new(p as nat, |j: int| round_ratio(dot_prefix(a[i], b, j, b.len()), 100000)),
    )
}

/// Sum of the first `k` diagonal elements.
pub open spec fn trace_prefix(g: Seq<Seq<int>>, k: nat) -> int
    decreases k,
{
    if k == 0 {
        0
    } else {
        trace_prefix(g, (k - 1) as nat) + g[k - 1 as int][k - 1 as int]
    }
}

/// Equal to its own transpose (read over a square index range).
pub open spec fn symmetric_grid(g: Seq<Seq<int>>) -> bool {
    forall|i: int, j: int|
        0 <= i < g.len() && 0 <= j < g.len() ==> #[trigger] g[i][j] == g[j][i]
}

/// Equal to the negation of its own transpose.
pub open spec fn skew_symmetric_grid(g: Seq<Seq<int>>) -> bool {
    forall|i: int, j: int|
        0 <= i < g.len() && 0 <= j < g.len() ==> #[trigger] g[i][j] == -g[j][i]
}

/// Every off-diagonal element is exactly zero.
pub open spec fn diagonal_grid(g: Seq<Seq<int>>) -> bool {
    forall|i: int, j: int|
        0 <= i < g.len() && 0 <= j < g.len() && i != j ==> #[trigger] g[i][j] == 0
}

/// Every diagonal element equals the top-left element, everything else zero.
pub open spec fn scalar_grid(g: Seq<Seq<int>>) -> bool {
    forall|i: int, j: int|
        0 <= i < g.len() && 0 <= j < g.len() ==> #[trigger] g[i][j] == if i == j {
            g[0][0]
        } else {
            0
        }
}

/// Every element (any shape) is exactly zero.
pub open spec fn zero_grid(g: Seq<Seq<int>>) -> bool {
    forall|i: int, j: int| 0 <= i < g.len() && 0 <= j < g[i].len() ==> #[trigger] g[i][j] == 0
}

/// The machine-limit precondition of the determinant computation, with an
/// explicit element bound `m`: every intermediate cofactor product of every
/// sub-determinant of size `k <= n` fits the `i128` working type, the power
/// of 100000 used as the rounding divisor fits it, and every rounded
/// sub-determinant fits an `i64` element.
pub open spec fn det_ok_with(g: Seq<Seq<int>>, m: int) -> bool {
    let n = g.len();
    &&& m >= 1
    &&& fact(n) * pow_i(m, n) <= DET_LIMIT as int
    &&& (n >= 1 ==> pow_i(100000, (n - 1) as nat) <= DET_LIMIT as int)
    &&& forall|k: nat|
        1 <= k <= n ==> fact(k) * #[trigger] pow_i(m, k) <= pow_i(100000, (k - 1) as nat) * (
        i64::MAX as int)
}

/// The machine-limit precondition of the determinant (and adjugate)
/// computation on `g`, in terms of the grid's own magnitude.
pub open spec fn det_ok(g: Seq<Seq<int>>) -> bool {
    det_ok_with(g, grid_mag(g))
}

/// The machine limit for the inverse: the determinant machinery fits, and
/// when the matrix is invertible every rounded inverse element fits an `i64`.
pub open spec fn inv_ok(g: Seq<Seq<int>>) -> bool {
    &&& det_ok(g)
    &&& det_units(g) != 0 ==> forall|i: int, j: int|
        0 <= i < g.len() && 0 <= j < g.len() ==> i64::MIN as int <= #[trigger] inv_entry(g, i, j)
            <= i64::MAX as int
}

pub proof fn lemma_row_mag_bounds(r: Seq<int>, k: nat)
    requires
        k <= r.len(),
    ensures
        row_mag(r, k) >= 1,
        forall|j: int| 0 <= j < k ==> abs_i(r[j]) <= row_mag(r, k),
    decreases k,
{
    if k > 0 {
        lemma_row_mag_bounds(r, (k - 1) as nat);
    }
}

pub proof fn lemma_grid_mag_upto_bounds(g: Seq<Seq<int>>, k: nat)
    requires
        k <= g.len(),
    ensures
        grid_mag_upto(g, k) >= 1,
        forall|i: int, j: int|
            0 <= i < k && 0 <= j < g[i].len() ==> abs_i(#[trigger] g[i][j]) <= grid_mag_upto(g, k),
    decreases k,
{
    if k > 0 {
        lemma_grid_mag_upto_bounds(g, (k - 1) as nat);
        lemma_row_mag_bounds(g[k - 1], g[k - 1].len());
    }
}

/// The grid magnitude is at least 1 and bounds every element.
pub proof fn lemma_grid_mag_bounds(g: Seq<Seq<int>>)
    ensures
        grid_mag(g) >= 1,
        grid_bounded(g, grid_mag(g)),
{
    lemma_grid_mag_upto_bounds(g, g.len());
}

pub proof fn lemma_fact_pos(n: nat)
    ensures
        fact(n) >= 1,
    decreases n,
{
    if n > 0 {
        lemma_fact_pos((n - 1) as nat);
        assert(n * fact((n - 1) as nat) >= 1) by (nonlinear_arith)
            requires
                n >= 1,
                fact((n - 1) as nat) >= 1,
        ;
    }
}

/// The minor of a square bounded grid is square, one size smaller, and
/// bounded by the same magnitude.
pub proof fn lemma_minor_props(g: Seq<Seq<int>>, r: int, c: int, m: int)
    requires
        is_grid(g, g.len() as int, g.len() as int),
        g.len() >= 1,
        0 <= r < g.len(),
        0 <= c < g.len(),
        grid_bounded(g, m),
    ensures
        is_grid(minor_grid(g, r, c), g.len() - 1, g.len() - 1),
        grid_bounded(minor_grid(g, r, c), m),
{
    let sub = minor_grid(g, r, c);
    let n = g.len() as int;
    assert forall|i: int| 0 <= i < sub.len() implies (#[trigger] sub[i]).len() == n - 1 by {
        assert(0 <= (if i < r { i } else { i + 1 }) < n);
    }
    assert forall|i: int, j: int|
        0 <= i < sub.len() && 0 <= j < sub[i].len() implies abs_i(#[trigger] sub[i][j]) <= m by {
        let si = if i < r { i } else { i + 1 };
        let sj = if j < c { j } else { j + 1 };
        assert(0 <= si < n && 0 <= sj < n);
        assert(sub[i][j] == g[si][sj]);
    }
}

/// The determinant machine limit carries over to every minor of the grid,
/// with the same magnitude bound.
pub proof fn lemma_det_ok_minor(g: Seq<Seq<int>>, m: int, r: int, c: int)
    requires
        is_grid(g, g.len() as int, g.len() as int),
        g.len() >= 1,
        0 <= r < g.len(),
        0 <= c < g.len(),
        grid_bounded(g, m),
        det_ok_with(g, m),
    ensures
        det_ok_with(minor_grid(g, r, c), m),
{
    let n = g.len();
    let sub = minor_grid(g, r, c);
    lemma_minor_props(g, r, c, m);
    assert(sub.len() == n - 1);
    lemma_fact_pos((n - 1) as nat);
    lemma_pow_i_pos(m, (n - 1) as nat);
    assert(fact(n) == n * fact((n - 1) as nat));
    assert(pow_i(m, n) == m * pow_i(m, (n - 1) as nat));
    assert(fact((n - 1) as nat) * pow_i(m, (n - 1) as nat) <= fact(n) * pow_i(m, n))
        by (nonlinear_arith)
        requires
            n >= 1,
            m >= 1,
            fact((n - 1) as nat) >= 1,
            pow_i(m, (n - 1) as nat) >= 1,
            fact(n) == n * fact((n - 1) as nat),
            pow_i(m, n) == m * pow_i(m, (n - 1) as nat),
    ;
    if n >= 2 {
        lemma_pow_i_increases(100000, (n - 2) as nat, (n - 1) as nat);
    }
}

/// Bound on the partial Laplace expansion: each of the `j` terms is at
/// most the magnitude times the bound on a minor's determinant.
pub proof fn lemma_det_sum_bound(g: Seq<Seq<int>>, m: int, j: nat)
    requires
        is_grid(g, g.len() as int, g.len() as int),
        g.len() >= 1,
        grid_bounded(g, m),
        m >= 1,
        j <= g.len(),
    ensures
        abs_i(det_sum(g, j)) <= j * (m * (fact((g.len() - 1) as nat) * pow_i(
            m,
            (g.len() - 1) as nat,
        ))),
    decreases g.len(), j,
{
    let n = g.len();
    let sb = fact((n - 1) as nat) * pow_i(m, (n - 1) as nat);
    lemma_fact_pos((n - 1) as nat);
    lemma_pow_i_pos(m, (n - 1) as nat);
    assert(sb >= 1) by (nonlinear_arith)
        requires
            fact((n - 1) as nat) >= 1,
            pow_i(m, (n - 1) as nat) >= 1,
            sb == fact((n - 1) as nat) * pow_i(m, (n - 1) as nat),
    ;
    if j == 0 {
    } else {
        lemma_det_sum_bound(g, m, (j - 1) as nat);
        let sub = minor_grid(g, 0, j - 1);
        lemma_minor_props(g, 0, j - 1, m);
        lemma_int_det_bound(sub, m);
        let a = g[0][j - 1];
        let d = int_det(sub);
        let s = term_sign((j - 1) as nat);
        assert(abs_i(s * a * d) <= m * sb) by (nonlinear_arith)
            requires
                s == 1 || s == -1,
                -m <= a <= m,
                -sb <= d <= sb,
                m >= 1,
                sb >= 1,
        ;
        assert((j - 1) * (m * sb) + (m * sb) == j * (m * sb)) by (nonlinear_arith);
    }
}

/// The cofactor-expansion determinant of a square grid bounded by `m` is
/// at most `n! * m^n` in absolute value.
pub proof fn lemma_int_det_bound(g: Seq<Seq<int>>, m: int)
    requires
        is_grid(g, g.len() as int, g.len() as int),
        grid_bounded(g, m),
        m >= 1,
    ensures
        abs_i(int_det(g)) <= fact(g.len()) * pow_i(m, g.len()),
    decreases g.len(), g.len() + 1,
{
    let n = g.len();
    lemma_fact_pos(n);
    lemma_pow_i_pos(m, n);
    if n == 0 {
        assert(fact(n) * pow_i(m, n) >= 1) by (nonlinear_arith)
            requires
                fact(n) >= 1,
                pow_i(m, n) >= 1,
        ;
    } else {
        lemma_det_sum_bound(g, m, n);
        assert(n * (m * (fact((n - 1) as nat) * pow_i(m, (n - 1) as nat))) == fact(n) * pow_i(m, n))
            by (nonlinear_arith)
            requires
                fact(n) == n * fact((n - 1) as nat),
                pow_i(m, n) == m * pow_i(m, (n - 1) as nat),
        ;
    }
}

/// Rounding a ratio whose numerator is at most `cap` times the denominator
/// gives a result of at most `cap`.
pub proof fn lemma_round_ratio_le(num: int, den: int, cap: int)
    requires
        den >= 1,
        cap >= 0,
        abs_i(num) <= cap * den,
    ensures
        abs_i(round_ratio(num, den)) <= cap,
{
    let h = den / 2;
    assert(0 <= h < den);
    assert(den * cap == cap * den) by (nonlinear_arith);
    lemma_div_multiples_vanish_fancy(cap, h, den);
    if num >= 0 {
        lemma_div_is_ordered(num + h, cap * den + h, den);
        lemma_div_pos_is_pos(num + h, den);
    } else {
        lemma_div_is_ordered(-num + h, cap * den + h, den);
        lemma_div_pos_is_pos(-num + h, den);
    }
}

/// Rounding an exact multiple of the denominator recovers the multiplier.
pub proof fn lemma_round_ratio_multiple(x: int, den: int)
    requires
        den >= 1,
    ensures
        round_ratio(den * x, den) == x,
{
    let h = den / 2;
    assert(0 <= h < den);
    if den * x >= 0 {
        lemma_div_multiples_vanish_fancy(x, h, den);
    } else {
        assert(-(den * x) == den * (-x)) by (nonlinear_arith);
        lemma_div_multiples_vanish_fancy(-x, h, den);
    }
}

} // verus!
