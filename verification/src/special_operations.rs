//! The special operations: transpose, trace, determinant, adjugate, inverse.
//!
//! The determinant works in exact fixed-point arithmetic: the `i64` unit
//! grid is expanded by cofactors along the first row in `i128`, and the
//! exact integer determinant is rounded back to the five-decimal grid once
//! at the end. Exact integer arithmetic never divides by a pivot, so no
//! pivot selection is needed for accuracy; the result is the exactly
//! rounded determinant of the stored grid. The adjugate computes, for every
//! cell, the determinant of the minor with that cell's row and column
//! deleted, mirroring the recursive-minor construction of the model.

use vstd::prelude::*;
use vstd::arithmetic::div_mod::lemma_div_nonincreasing;
use vstd::arithmetic::div_mod::lemma_add_mod_noop;
use vstd::pervasive::unreached;

use crate::{Matrix, MatrixError};
use crate::model::{
    abs_i, adj_entry, adjoint_grid, det_ok, det_ok_with, det_sum, det_units, fact, grid_bounded,
    grid_mag, grid_view, int_det, inv_entry, inv_ok, inverse_grid, is_grid, lemma_det_ok_minor,
    lemma_grid_mag_bounds, lemma_int_det_bound, lemma_minor_props, lemma_pow_i_increases,
    lemma_pow_i_pos, lemma_round_ratio_le, minor_grid, pow_i, round_ratio, round_signed,
    term_sign, trace_prefix, transpose_grid, DET_LIMIT, UNIT,
};

verus! {

broadcast use crate::model::group_grid_view;

/// `num / den` rounded to the nearest integer, halves away from zero.
pub(crate) fn round_div_i128(num: i128, den: i128) -> (r: i128)
    requires
        1 <= den as int,
        abs_i(num as int) + den as int <= i128::MAX as int,
    ensures
        r as int == round_ratio(num as int, den as int),
        abs_i(r as int) <= abs_i(num as int) + den as int,
{
    let h: u128 = (den as u128) / 2;
    if num >= 0 {
        let q: u128 = ((num as u128) + h) / (den as u128);
        proof {
            lemma_div_nonincreasing(num as int + h as int, den as int);
        }
        q as i128
    } else {
        let q: u128 = (((-num) as u128) + h) / (den as u128);
        proof {
            lemma_div_nonincreasing(-(num as int) + h as int, den as int);
        }
        -(q as i128)
    }
}

/// The sub-grid with row `r` and column `c` deleted, as a fresh grid.
fn build_minor(g: &Vec<Vec<i64>>, r: usize, c: usize) -> (sub: Vec<Vec<i64>>)
    requires
        is_grid(grid_view(g@), g@.len() as int, g@.len() as int),
        r < g@.len(),
        c < g@.len(),
    ensures
        grid_view(sub@) == minor_grid(grid_view(g@), r as int, c as int),
        sub@.len() == g@.len() - 1,
{
    let ghost gv = grid_view(g@);
    let ghost target = minor_grid(gv, r as int, c as int);
    let n = g.len();
    let mut sub: Vec<Vec<i64>> = Vec::new();
    let mut i: usize = 0;
    while i < n - 1
        invariant
            i <= n - 1,
            n == g@.len(),
            n >= 1,
            r < n,
            c < n,
            gv == grid_view(g@),
            target == minor_grid(gv, r as int, c as int),
            is_grid(gv, n as int, n as int),
            sub@.len() == i,
            forall|k: int| 0 <= k < i ==> grid_view(sub@)[k] == target[k],
        decreases n - 1 - i,
    {
        let src = if i < r {
            i
        } else {
            i + 1
        };
        let mut row: Vec<i64> = Vec::new();
        let mut j: usize = 0;
        while j < n - 1
            invariant
                j <= n - 1,
                n == g@.len(),
                n >= 1,
                r < n,
                c < n,
                src < n,
                src == if i < r {
                    i as int
                } else {
                    i + 1
                },
                gv == grid_view(g@),
                is_grid(gv, n as int, n as int),
                row@.len() == j,
                forall|l: int|
                    0 <= l < j ==> #[trigger] row@[l] as int == gv[src as int][if l < c {
                        l
                    } else {
                        l + 1
                    }],
            decreases n - 1 - j,
        {
            let src_col = if j < c {
                j
            } else {
                j + 1
            };
            row.push(g[src][src_col]);
            j += 1;
        }
        proof {
            assert(crate::model::row_view(row@) =~= target[i as int]);
        }
        sub.push(row);
        i += 1;
    }
    proof {
        assert(grid_view(sub@) =~~= target);
    }
    sub
}

/// Exact integer determinant of the unit grid, by cofactor expansion
/// along the first row in `i128`.
fn int_det_exec(g: &Vec<Vec<i64>>, Ghost(m): Ghost<int>) -> (r: i128)
    requires
        is_grid(grid_view(g@), g@.len() as int, g@.len() as int),
        grid_bounded(grid_view(g@), m),
        m >= 1,
        fact(g@.len()) * pow_i(m, g@.len()) <= DET_LIMIT as int,
    ensures
        r as int == int_det(grid_view(g@)),
        abs_i(r as int) <= fact(g@.len()) * pow_i(m, g@.len()),
    decreases g@.len(),
{
    let ghost gv = grid_view(g@);
    let n = g.len();
    if n == 0 {
        return 1;
    }

    let ghost sb = fact((n - 1) as nat) * pow_i(m, (n - 1) as nat);
    proof {
        crate::model::lemma_fact_pos((n - 1) as nat);
        lemma_pow_i_pos(m, (n - 1) as nat);
        assert(sb >= 1) by (nonlinear_arith)
            requires
                sb == fact((n - 1) as nat) * pow_i(m, (n - 1) as nat),
                fact((n - 1) as nat) >= 1,
                pow_i(m, (n - 1) as nat) >= 1,
        ;
        assert(fact(n as nat) * pow_i(m, n as nat) == (n as int) * (m * sb)) by (nonlinear_arith)
            requires
                fact(n as nat) == n * fact((n - 1) as nat),
                pow_i(m, n as nat) == m * pow_i(m, (n - 1) as nat),
                sb == fact((n - 1) as nat) * pow_i(m, (n - 1) as nat),
        ;
        assert(sb <= (n as int) * (m * sb)) by (nonlinear_arith)
            requires
                n >= 1,
                m >= 1,
                sb >= 1,
        ;
    }

    let mut acc: i128 = 0;
    let mut j: usize = 0;
    while j < n
        invariant
            j <= n,
            n == g@.len(),
            n >= 1,
            m >= 1,
            sb == fact((n - 1) as nat) * pow_i(m, (n - 1) as nat),
            sb >= 1,
            gv == grid_view(g@),
            is_grid(gv, n as int, n as int),
            grid_bounded(gv, m),
            fact(n as nat) * pow_i(m, n as nat) == (n as int) * (m * sb),
            fact(n as nat) * pow_i(m, n as nat) <= DET_LIMIT as int,
            acc as int == det_sum(gv, j as nat),
            abs_i(acc as int) <= (j as int) * (m * sb),
        decreases n - j,
    {
        let sub = build_minor(g, 0, j);
        proof {
            lemma_minor_props(gv, 0, j as int, m);
            assert(fact((n - 1) as nat) * pow_i(m, (n - 1) as nat) <= DET_LIMIT as int)
                by (nonlinear_arith)
                requires
                    n >= 1,
                    m >= 1,
                    sb >= 1,
                    sb == fact((n - 1) as nat) * pow_i(m, (n - 1) as nat),
                    fact(n as nat) * pow_i(m, n as nat) == (n as int) * (m * sb),
                    fact(n as nat) * pow_i(m, n as nat) <= DET_LIMIT as int,
            ;
        }
        let d = int_det_exec(&sub, Ghost(m));
        let a = g[0][j];
        proof {
            assert(a as int == gv[0][j as int]);
            assert(abs_i(a as int) <= m);
            assert(abs_i((a as int) * (d as int)) <= m * sb) by (nonlinear_arith)
                requires
                    -m <= a as int <= m,
                    -sb <= d as int <= sb,
                    m >= 1,
                    sb >= 1,
            ;
            assert((j as int) * (m * sb) + (m * sb) == (j + 1) as int * (m * sb))
                by (nonlinear_arith);
            assert((j + 1) as int * (m * sb) <= (n as int) * (m * sb)) by (nonlinear_arith)
                requires
                    j + 1 <= n,
                    m >= 1,
                    sb >= 1,
            ;
        }
        let term: i128 = (a as i128) * d;
        proof {
            assert(term as int == gv[0][j as int] * int_det(minor_grid(gv, 0, j as int)));
            assert(det_sum(gv, (j + 1) as nat) == det_sum(gv, j as nat) + term_sign(j as nat) * gv[0][j as int]
                * int_det(minor_grid(gv, 0, j as int)));
            assert(term_sign(j as nat) * gv[0][j as int] * int_det(minor_grid(gv, 0, j as int))
                == term_sign(j as nat) * (term as int)) by (nonlinear_arith)
                requires
                    term as int == gv[0][j as int] * int_det(minor_grid(gv, 0, j as int)),
            ;
        }
        if j % 2 == 0 {
            proof {
                assert(term_sign(j as nat) * (term as int) == term as int) by (nonlinear_arith)
                    requires
                        term_sign(j as nat) == 1,
                ;
            }
            acc = acc + term;
        } else {
            proof {
                assert(term_sign(j as nat) * (term as int) == -(term as int)) by (nonlinear_arith)
                    requires
                        term_sign(j as nat) == -1,
                ;
            }
            acc = acc - term;
        }
        proof {
            assert(acc as int == det_sum(gv, (j + 1) as nat));
        }
        j += 1;
    }
    acc
}

/// The determinant of the unit grid expressed in fixed-point units:
/// the exact integer determinant, rounded once by the accumulated power
/// of 100000.
fn det_units_exec(g: &Vec<Vec<i64>>, Ghost(m): Ghost<int>) -> (r: i64)
    requires
        is_grid(grid_view(g@), g@.len() as int, g@.len() as int),
        grid_bounded(grid_view(g@), m),
        det_ok_with(grid_view(g@), m),
    ensures
        r as int == det_units(grid_view(g@)),
        abs_i(r as int) <= i64::MAX as int,
{
    let ghost gv = grid_view(g@);
    let n = g.len();
    if n == 0 {
        return UNIT;
    }

    let det_i = int_det_exec(g, Ghost(m));

    let mut den: i128 = 1;
    let mut k: usize = 0;
    while k < n - 1
        invariant
            k <= n - 1,
            n >= 1,
            den as int == pow_i(100000, k as nat),
            pow_i(100000, (n - 1) as nat) <= DET_LIMIT as int,
            1 <= den as int <= DET_LIMIT as int,
        decreases n - 1 - k,
    {
        proof {
            lemma_pow_i_pos(100000, (k + 1) as nat);
            lemma_pow_i_increases(100000, (k + 1) as nat, (n - 1) as nat);
            assert(pow_i(100000, (k + 1) as nat) == 100000 * pow_i(100000, k as nat));
        }
        den = den * 100000;
        k += 1;
    }

    proof {
        lemma_int_det_bound(gv, m);
        assert(fact(n as nat) * pow_i(m, n as nat) <= pow_i(100000, (n - 1) as nat) * (
        i64::MAX as int));
        assert(pow_i(100000, (n - 1) as nat) * (i64::MAX as int) == (i64::MAX as int) * pow_i(
            100000,
            (n - 1) as nat,
        )) by (nonlinear_arith);
        lemma_round_ratio_le(int_det(gv), pow_i(100000, (n - 1) as nat), i64::MAX as int);
    }
    let q = round_div_i128(det_i, den);
    q as i64
}

impl Matrix {
    /// The transpose: a `columns`-by-`rows` matrix with the rows and
    /// columns of this one exchanged. Always succeeds, for any shape.
    pub fn transpose(&self) -> (r: Matrix)
        requires
            self.wf(),
        ensures
            r.wf(),
            r.rows == self.columns,
            r.columns == self.rows,
            r@ == transpose_grid(self@, self.columns as int),
    {
        let ghost target = transpose_grid(self@, self.columns as int);
        let mut data: Vec<Vec<i64>> = Vec::new();
        let mut i: usize = 0;
        while i < self.columns
            invariant
                i <= self.columns,
                self.wf(),
                target == transpose_grid(self@, self.columns as int),
                data@.len() == i,
                forall|k: int| 0 <= k < i ==> grid_view(data@)[k] == target[k],
            decreases self.columns - i,
        {
            let mut row: Vec<i64> = Vec::new();
            let mut j: usize = 0;
            while j < self.rows
                invariant
                    j <= self.rows,
                    i < self.columns,
                    self.wf(),
                    row@.len() == j,
                    forall|l: int| 0 <= l < j ==> #[trigger] row@[l] as int == self@[l][i as int],
                decreases self.rows - j,
            {
                row.push(self.data[j][i]);
                j += 1;
            }
            proof {
                assert(crate::model::row_view(row@) =~= target[i as int]);
            }
            data.push(row);
            i += 1;
        }
        proof {
            assert(grid_view(data@) =~~= target);
        }
        Matrix { rows: self.columns, columns: self.rows, data }
    }

    /// The trace: the sum of the diagonal elements (exact on the grid, so
    /// the rounding of the sum is the identity); `NonSquareMatrix` otherwise.
    pub fn trace(&self) -> (r: Result<i64, MatrixError>)
        requires
            self.wf(),
            self.spec_is_square() ==> (self.rows as int) * grid_mag(self@) <= i64::MAX as int,
        ensures
            match r {
                Ok(t) => self.spec_is_square() && t as int == trace_prefix(
                    self@,
                    self.rows as nat,
                ),
                Err(e) => !self.spec_is_square() && e == MatrixError::NonSquareMatrix,
            },
    {
        if self.rows != self.columns {
            return Err(MatrixError::NonSquareMatrix);
        }

        let ghost mg = grid_mag(self@);
        proof {
            lemma_grid_mag_bounds(self@);
        }
        let n = self.rows;
        let mut total: i64 = 0;
        let mut k: usize = 0;
        while k < n
            invariant
                k <= n,
                n == self.rows,
                self.wf(),
                self.spec_is_square(),
                mg == grid_mag(self@),
                mg >= 1,
                grid_bounded(self@, mg),
                (n as int) * mg <= i64::MAX as int,
                total as int == trace_prefix(self@, k as nat),
                abs_i(total as int) <= (k as int) * mg,
            decreases n - k,
        {
            proof {
                assert(abs_i(self@[k as int][k as int]) <= mg);
                assert((k as int) * mg + mg == (k + 1) as int * mg) by (nonlinear_arith);
                assert((k + 1) as int * mg <= (n as int) * mg) by (nonlinear_arith)
                    requires
                        k + 1 <= n,
                        mg >= 1,
                ;
            }
            total = total + self.data[k][k];
            k += 1;
        }
        Ok(total)
    }

    /// The determinant, in fixed-point units: the exact determinant of the
    /// stored grid rounded once to the five-decimal grid (a 1-by-1 grid
    /// rounds to its own element); `NonSquareMatrix` otherwise.
    /// `det_ok` is the machine limit under which the exact `i128`
    /// computation cannot overflow.
    pub fn determinant(&self) -> (r: Result<i64, MatrixError>)
        requires
            self.wf(),
            self.spec_is_square() ==> det_ok(self@),
        ensures
            match r {
                Ok(d) => self.spec_is_square() && d as int == det_units(self@),
                Err(e) => !self.spec_is_square() && e == MatrixError::NonSquareMatrix,
            },
    {
        if self.rows != self.columns {
            return Err(MatrixError::NonSquareMatrix);
        }
        proof {
            lemma_grid_mag_bounds(self@);
        }
        let d = det_units_exec(&self.data, Ghost(grid_mag(self@)));
        Ok(d)
    }

    /// The adjugate: the transpose of the cofactor matrix, where the
    /// cofactor at (i, j) is the determinant of the minor with row `i` and
    /// column `j` deleted, negated at odd positions. A 1-by-1 matrix has
    /// the empty minor, whose determinant is 1.0 by convention;
    /// `NonSquareMatrix` otherwise.
    pub fn adjoint(&self) -> (r: Result<Matrix, MatrixError>)
        requires
            self.wf(),
            self.spec_is_square() ==> det_ok(self@),
        ensures
            match r {
                Ok(m) => {
                    &&& self.spec_is_square()
                    &&& m.wf()
                    &&& m.rows == self.rows && m.columns == self.columns
                    &&& m@ == adjoint_grid(self@)
                },
                Err(e) => !self.spec_is_square() && e == MatrixError::NonSquareMatrix,
            },
    {
        if self.rows != self.columns {
            return Err(MatrixError::NonSquareMatrix);
        }
        let ghost gv = self@;
        let ghost mg = grid_mag(gv);
        proof {
            lemma_grid_mag_bounds(gv);
        }
        let n = self.rows;

        let mut cof: Vec<Vec<i64>> = Vec::new();
        let mut i: usize = 0;
        while i < n
            invariant
                i <= n,
                n == self.rows,
                self.wf(),
                self.spec_is_square(),
                gv == self@,
                mg == grid_mag(gv),
                mg >= 1,
                grid_bounded(gv, mg),
                det_ok_with(gv, mg),
                cof@.len() == i,
                forall|k: int|
                    0 <= k < i ==> (#[trigger] grid_view(cof@)[k]).len() == n as int,
                forall|k: int, l: int|
                    0 <= k < i && 0 <= l < n ==> #[trigger] grid_view(cof@)[k][l] == adj_entry(
                        gv,
                        l,
                        k,
                    ),
            decreases n - i,
        {
            let mut row: Vec<i64> = Vec::new();
            let mut j: usize = 0;
            while j < n
                invariant
                    j <= n,
                    i < n,
                    n == self.rows,
                    self.wf(),
                    self.spec_is_square(),
                    gv == self@,
                    mg == grid_mag(gv),
                    mg >= 1,
                    grid_bounded(gv, mg),
                    det_ok_with(gv, mg),
                    row@.len() == j,
                    forall|l: int| 0 <= l < j ==> #[trigger] row@[l] as int == adj_entry(gv, l, i as int),
                decreases n - j,
            {
                let sub = build_minor(&self.data, i, j);
                proof {
                    lemma_minor_props(gv, i as int, j as int, mg);
                    lemma_det_ok_minor(gv, mg, i as int, j as int);
                }
                let minor_det = det_units_exec(&sub, Ghost(mg));
                let value = if (i % 2) == (j % 2) {
                    minor_det
                } else {
                    -minor_det
                };
                proof {
                    lemma_add_mod_noop(i as int, j as int, 2);
                    assert(term_sign((i + j) as nat) == if (i as int) % 2 == (j as int) % 2 {
                        1int
                    } else {
                        -1int
                    });
                    assert(value as int == adj_entry(gv, j as int, i as int));
                }
                row.push(value);
                j += 1;
            }
            cof.push(row);
            proof {
                assert(forall|l: int|
                    0 <= l < n ==> #[trigger] grid_view(cof@)[i as int][l] == adj_entry(
                        gv,
                        l,
                        i as int,
                    ));
            }
            i += 1;
        }

        let cofactor_matrix = Matrix { rows: n, columns: n, data: cof };
        assert(cofactor_matrix.wf());
        let adjugate = cofactor_matrix.transpose();
        proof {
            assert(adjugate@ =~~= adjoint_grid(gv));
        }
        Ok(adjugate)
    }

    /// The inverse: the adjugate scaled by the reciprocal of the
    /// determinant, each element rounded to the five-decimal grid.
    /// `NonSquareMatrix` for non-square input; `SingularMatrix` when the
    /// (rounded) determinant is exactly zero.
    pub fn inverse(&self) -> (r: Result<Matrix, MatrixError>)
        requires
            self.wf(),
            self.spec_is_square() ==> inv_ok(self@),
        ensures
            match r {
                Ok(m) => {
                    &&& self.spec_is_square() && det_units(self@) != 0
                    &&& m.wf()
                    &&& m.rows == self.rows && m.columns == self.columns
                    &&& m@ == inverse_grid(self@)
                },
                Err(MatrixError::NonSquareMatrix) => !self.spec_is_square(),
                Err(MatrixError::SingularMatrix) => self.spec_is_square() && det_units(self@)
                    == 0,
                Err(_) => false,
            },
    {
        if self.rows != self.columns {
            return Err(MatrixError::NonSquareMatrix);
        }

        let det = match self.determinant() {
            Ok(d) => d,
            Err(_) => unreached(),
        };
        if det == 0 {
            return Err(MatrixError::SingularMatrix);
        }

        let adjugate = match self.adjoint() {
            Ok(a) => a,
            Err(_) => unreached(),
        };

        let ghost gv = self@;
        let n = self.rows;
        let mut data: Vec<Vec<i64>> = Vec::new();
        let mut i: usize = 0;
        while i < n
            invariant
                i <= n,
                n == self.rows,
                self.wf(),
                self.spec_is_square(),
                gv == self@,
                inv_ok(gv),
                det as int == det_units(gv),
                det != 0,
                adjugate.wf(),
                adjugate.rows == n && adjugate.columns == n,
                adjugate@ == adjoint_grid(gv),
                data@.len() == i,
                forall|k: int| 0 <= k < i ==> grid_view(data@)[k] == inverse_grid(gv)[k],
            decreases n - i,
        {
            let mut row: Vec<i64> = Vec::new();
            let mut j: usize = 0;
            while j < n
                invariant
                    j <= n,
                    i < n,
                    n == self.rows,
                    self.wf(),
                    self.spec_is_square(),
                    gv == self@,
                    inv_ok(gv),
                    det as int == det_units(gv),
                    det != 0,
                    adjugate.wf(),
                    adjugate.rows == n && adjugate.columns == n,
                    adjugate@ == adjoint_grid(gv),
                    row@.len() == j,
                    forall|l: int| 0 <= l < j ==> #[trigger] row@[l] as int == inv_entry(gv, i as int, l),
                decreases n - j,
            {
                let a = adjugate.data[i][j];
                proof {
                    assert(a as int == adj_entry(gv, i as int, j as int));
                }
                let num: i128 = (UNIT as i128) * (a as i128);
                let (nn, dd): (i128, i128) = if det < 0 {
                    (-num, -(det as i128))
                } else {
                    (num, det as i128)
                };
                let q = round_div_i128(nn, dd);
                proof {
                    assert(q as int == round_signed(
                        100000 * adj_entry(gv, i as int, j as int),
                        det_units(gv),
                    ));
                    assert(q as int == inv_entry(gv, i as int, j as int));
                    assert(i64::MIN as int <= inv_entry(gv, i as int, j as int) <= i64::MAX as int);
                }
                row.push(q as i64);
                j += 1;
            }
            proof {
                assert(crate::model::row_view(row@) =~= inverse_grid(gv)[i as int]);
            }
            data.push(row);
            i += 1;
        }

        let m = Matrix { rows: n, columns: n, data };
        proof {
            assert(m@ =~~= inverse_grid(gv));
        }
        Ok(m)
    }
}

} // verus!
