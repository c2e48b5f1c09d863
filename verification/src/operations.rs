//! Elementwise and linear arithmetic: addition, subtraction, matrix
//! multiplication, scalar multiplication, and negation.
//!
//! Sums and differences of grid values stay on the five-decimal grid, so
//! they are exact unit sums. A product of two unit values carries two
//! factors of 100000, so scalar and matrix products are rounded back to
//! the grid once per cell — after the whole dot product for matrix
//! multiplication, not per term.

use vstd::prelude::*;

use crate::{Matrix, MatrixError};
use crate::special_operations::round_div_i128;
use crate::model::{
    abs_i, add_grid, dot_prefix, grid_bounded, grid_mag, grid_view, lemma_grid_mag_bounds,
    lemma_round_ratio_le, lemma_round_ratio_multiple, mul_grid, neg_grid, round_ratio, scale_grid,
    sub_grid, UNIT,
};

verus! {

broadcast use crate::model::group_grid_view;

impl Matrix {
    /// Elementwise sum, `DimensionMismatch` unless both operands have the
    /// same shape. Sums of grid values are exact, so no rounding happens.
    pub fn add(&self, rhs: &Matrix) -> (r: Result<Matrix, MatrixError>)
        requires
            self.wf(),
            rhs.wf(),
            (self.rows == rhs.rows && self.columns == rhs.columns) ==> forall|i: int, j: int|
                0 <= i < self.rows && 0 <= j < self.columns ==> i64::MIN as int <= self@[i][j]
                    + #[trigger] rhs@[i][j] <= i64::MAX as int,
        ensures
            match r {
                Ok(m) => {
                    &&& self.rows == rhs.rows && self.columns == rhs.columns
                    &&& m.wf()
                    &&& m.rows == self.rows && m.columns == self.columns
                    &&& m@ == add_grid(self@, rhs@)
                },
                Err(e) => {
                    &&& self.rows != rhs.rows || self.columns != rhs.columns
                    &&& e == MatrixError::DimensionMismatch
                },
            },
    {
        if self.rows != rhs.rows || self.columns != rhs.columns {
            return Err(MatrixError::DimensionMismatch);
        }

        let mut data: Vec<Vec<i64>> = Vec::new();
        let mut i: usize = 0;
        while i < self.rows
            invariant
                i <= self.rows,
                self.wf(),
                rhs.wf(),
                self.rows == rhs.rows && self.columns == rhs.columns,
                forall|k: int, l: int|
                    0 <= k < self.rows && 0 <= l < self.columns ==> i64::MIN as int <= self@[k][l]
                        + #[trigger] rhs@[k][l] <= i64::MAX as int,
                data@.len() == i,
                forall|k: int| 0 <= k < i ==> grid_view(data@)[k] == add_grid(self@, rhs@)[k],
            decreases self.rows - i,
        {
            let mut row: Vec<i64> = Vec::new();
            let mut j: usize = 0;
            while j < self.columns
                invariant
                    j <= self.columns,
                    i < self.rows,
                    self.wf(),
                    rhs.wf(),
                    self.rows == rhs.rows && self.columns == rhs.columns,
                    forall|k: int, l: int|
                        0 <= k < self.rows && 0 <= l < self.columns ==> i64::MIN as int
                            <= self@[k][l] + #[trigger] rhs@[k][l] <= i64::MAX as int,
                    row@.len() == j,
                    forall|l: int|
                        0 <= l < j ==> #[trigger] row@[l] as int == self@[i as int][l] + rhs@[i as
                            int][l],
                decreases self.columns - j,
            {
                row.push(self.data[i][j] + rhs.data[i][j]);
                j += 1;
            }
            proof {
                assert(crate::model::row_view(row@) =~= add_grid(self@, rhs@)[i as int]);
            }
            data.push(row);
            i += 1;
        }
        proof {
            assert(grid_view(data@) =~~= add_grid(self@, rhs@));
        }
        Ok(Matrix { rows: self.rows, columns: self.columns, data })
    }

    /// Elementwise difference, `DimensionMismatch` unless both operands
    /// have the same shape.
    pub fn sub(&self, rhs: &Matrix) -> (r: Result<Matrix, MatrixError>)
        requires
            self.wf(),
            rhs.wf(),
            (self.rows == rhs.rows && self.columns == rhs.columns) ==> forall|i: int, j: int|
                0 <= i < self.rows && 0 <= j < self.columns ==> i64::MIN as int <= self@[i][j]
                    - #[trigger] rhs@[i][j] <= i64::MAX as int,
        ensures
            match r {
                Ok(m) => {
                    &&& self.rows == rhs.rows && self.columns == rhs.columns
                    &&& m.wf()
                    &&& m.rows == self.rows && m.columns == self.columns
                    &&& m@ == sub_grid(self@, rhs@)
                },
                Err(e) => {
                    &&& self.rows != rhs.rows || self.columns != rhs.columns
                    &&& e == MatrixError::DimensionMismatch
                },
            },
    {
        if self.rows != rhs.rows || self.columns != rhs.columns {
            return Err(MatrixError::DimensionMismatch);
        }

        let mut data: Vec<Vec<i64>> = Vec::new();
        let mut i: usize = 0;
        while i < self.rows
            invariant
                i <= self.rows,
                self.wf(),
                rhs.wf(),
                self.rows == rhs.rows && self.columns == rhs.columns,
                forall|k: int, l: int|
                    0 <= k < self.rows && 0 <= l < self.columns ==> i64::MIN as int <= self@[k][l]
                        - #[trigger] rhs@[k][l] <= i64::MAX as int,
                data@.len() == i,
                forall|k: int| 0 <= k < i ==> grid_view(data@)[k] == sub_grid(self@, rhs@)[k],
            decreases self.rows - i,
        {
            let mut row: Vec<i64> = Vec::new();
            let mut j: usize = 0;
            while j < self.columns
                invariant
                    j <= self.columns,
                    i < self.rows,
                    self.wf(),
                    rhs.wf(),
                    self.rows == rhs.rows && self.columns == rhs.columns,
                    forall|k: int, l: int|
                        0 <= k < self.rows && 0 <= l < self.columns ==> i64::MIN as int
                            <= self@[k][l] - #[trigger] rhs@[k][l] <= i64::MAX as int,
                    row@.len() == j,
                    forall|l: int|
                        0 <= l < j ==> #[trigger] row@[l] as int == self@[i as int][l] - rhs@[i as
                            int][l],
                decreases self.columns - j,
            {
                row.push(self.data[i][j] - rhs.data[i][j]);
                j += 1;
            }
            proof {
                assert(crate::model::row_view(row@) =~= sub_grid(self@, rhs@)[i as int]);
            }
            data.push(row);
            i += 1;
        }
        proof {
            assert(grid_view(data@) =~~= sub_grid(self@, rhs@));
        }
        Ok(Matrix { rows: self.rows, columns: self.columns, data })
    }

    /// Matrix product, `DimensionMismatch` unless this matrix has as many
    /// columns as `rhs` has rows. Each cell is the full dot product,
    /// rounded once back to the grid after summation.
    pub fn mul(&self, rhs: &Matrix) -> (r: Result<Matrix, MatrixError>)
        requires
            self.wf(),
            rhs.wf(),
            self.columns == rhs.rows ==> (self.columns as int) * (grid_mag(self@) * grid_mag(rhs@))
                <= 100000 * (i64::MAX as int),
        ensures
            match r {
                Ok(m) => {
                    &&& self.columns == rhs.rows
                    &&& m.wf()
                    &&& m.rows == self.rows && m.columns == rhs.columns
                    &&& m@ == mul_grid(self@, rhs@, rhs.columns as int)
                },
                Err(e) => self.columns != rhs.rows && e == MatrixError::DimensionMismatch,
            },
    {
        if self.columns != rhs.rows {
            return Err(MatrixError::DimensionMismatch);
        }

        let ghost ma = grid_mag(self@);
        let ghost mb = grid_mag(rhs@);
        let ghost cap = (self.columns as int) * (ma * mb);
        proof {
            lemma_grid_mag_bounds(self@);
            lemma_grid_mag_bounds(rhs@);
            assert(ma * mb >= 1) by (nonlinear_arith)
                requires
                    ma >= 1,
                    mb >= 1,
            ;
        }

        let mut data: Vec<Vec<i64>> = Vec::new();
        let mut i: usize = 0;
        while i < self.rows
            invariant
                i <= self.rows,
                self.wf(),
                rhs.wf(),
                self.columns == rhs.rows,
                ma == grid_mag(self@),
                mb == grid_mag(rhs@),
                ma >= 1,
                mb >= 1,
                ma * mb >= 1,
                grid_bounded(self@, ma),
                grid_bounded(rhs@, mb),
                cap == (self.columns as int) * (ma * mb),
                cap <= 100000 * (i64::MAX as int),
                data@.len() == i,
                forall|k: int|
                    0 <= k < i ==> grid_view(data@)[k] == mul_grid(
                        self@,
                        rhs@,
                        rhs.columns as int,
                    )[k],
            decreases self.rows - i,
        {
            let mut row: Vec<i64> = Vec::new();
            let mut j: usize = 0;
            while j < rhs.columns
                invariant
                    j <= rhs.columns,
                    i < self.rows,
                    self.wf(),
                    rhs.wf(),
                    self.columns == rhs.rows,
                    ma == grid_mag(self@),
                    mb == grid_mag(rhs@),
                    ma >= 1,
                    mb >= 1,
                    ma * mb >= 1,
                    grid_bounded(self@, ma),
                    grid_bounded(rhs@, mb),
                    cap == (self.columns as int) * (ma * mb),
                    cap <= 100000 * (i64::MAX as int),
                    row@.len() == j,
                    forall|l: int|
                        0 <= l < j ==> #[trigger] row@[l] as int == mul_grid(
                            self@,
                            rhs@,
                            rhs.columns as int,
                        )[i as int][l],
                decreases rhs.columns - j,
            {
                let mut total: i128 = 0;
                let mut k: usize = 0;
                while k < self.columns
                    invariant
                        k <= self.columns,
                        i < self.rows,
                        j < rhs.columns,
                        self.wf(),
                        rhs.wf(),
                        self.columns == rhs.rows,
                        ma >= 1,
                        mb >= 1,
                        ma * mb >= 1,
                        grid_bounded(self@, ma),
                        grid_bounded(rhs@, mb),
                        cap == (self.columns as int) * (ma * mb),
                        cap <= 100000 * (i64::MAX as int),
                        total as int == dot_prefix(self@[i as int], rhs@, j as int, k as nat),
                        abs_i(total as int) <= (k as int) * (ma * mb),
                    decreases self.columns - k,
                {
                    let x = self.data[i][k];
                    let y = rhs.data[k][j];
                    proof {
                        assert(abs_i(x as int) <= ma);
                        assert(abs_i(y as int) <= mb);
                        assert(abs_i((x as int) * (y as int)) <= ma * mb) by (nonlinear_arith)
                            requires
                                -ma <= x as int <= ma,
                                -mb <= y as int <= mb,
                                ma >= 1,
                                mb >= 1,
                        ;
                        assert((k as int) * (ma * mb) + (ma * mb) == (k + 1) as int * (ma * mb))
                            by (nonlinear_arith);
                        assert((k + 1) as int * (ma * mb) <= (self.columns as int) * (ma * mb))
                            by (nonlinear_arith)
                            requires
                                k + 1 <= self.columns,
                                ma * mb >= 1,
                        ;
                    }
                    total = total + (x as i128) * (y as i128);
                    k += 1;
                }
                proof {
                    lemma_round_ratio_le(total as int, 100000, i64::MAX as int);
                }
                let value = round_div_i128(total, 100000);
                row.push(value as i64);
                j += 1;
            }
            proof {
                assert(crate::model::row_view(row@) =~= mul_grid(
                    self@,
                    rhs@,
                    rhs.columns as int,
                )[i as int]);
            }
            data.push(row);
            i += 1;
        }
        proof {
            assert(grid_view(data@) =~~= mul_grid(self@, rhs@, rhs.columns as int));
        }
        Ok(Matrix { rows: self.rows, columns: rhs.columns, data })
    }

    /// Every element multiplied by the fixed-point scalar, rounded back to
    /// the grid. Always succeeds (within the stated machine limit).
    pub fn scale(&self, scalar: i64) -> (r: Matrix)
        requires
            self.wf(),
            forall|i: int, j: int|
                0 <= i < self.rows && 0 <= j < self.columns ==> i64::MIN as int <= round_ratio(
                    (scalar as int) * #[trigger] self@[i][j],
                    100000,
                ) <= i64::MAX as int,
        ensures
            r.wf(),
            r.rows == self.rows && r.columns == self.columns,
            r@ == scale_grid(scalar as int, self@),
    {
        let mut data: Vec<Vec<i64>> = Vec::new();
        let mut i: usize = 0;
        while i < self.rows
            invariant
                i <= self.rows,
                self.wf(),
                forall|k: int, l: int|
                    0 <= k < self.rows && 0 <= l < self.columns ==> i64::MIN as int <= round_ratio(
                        (scalar as int) * #[trigger] self@[k][l],
                        100000,
                    ) <= i64::MAX as int,
                data@.len() == i,
                forall|k: int|
                    0 <= k < i ==> grid_view(data@)[k] == scale_grid(scalar as int, self@)[k],
            decreases self.rows - i,
        {
            let mut row: Vec<i64> = Vec::new();
            let mut j: usize = 0;
            while j < self.columns
                invariant
                    j <= self.columns,
                    i < self.rows,
                    self.wf(),
                    forall|k: int, l: int|
                        0 <= k < self.rows && 0 <= l < self.columns ==> i64::MIN as int
                            <= round_ratio((scalar as int) * #[trigger] self@[k][l], 100000)
                            <= i64::MAX as int,
                    row@.len() == j,
                    forall|l: int|
                        0 <= l < j ==> #[trigger] row@[l] as int == scale_grid(
                            scalar as int,
                            self@,
                        )[i as int][l],
                decreases self.columns - j,
            {
                let x = self.data[i][j];
                proof {
                    assert(abs_i((scalar as int) * (x as int))
                        <= 0x40000000000000000000000000000000) by (nonlinear_arith)
                        requires
                            -0x8000000000000000 <= scalar as int <= 0x7fffffffffffffff,
                            -0x8000000000000000 <= x as int <= 0x7fffffffffffffff,
                    ;
                }
                let product: i128 = (scalar as i128) * (x as i128);
                let value = round_div_i128(product, 100000);
                row.push(value as i64);
                j += 1;
            }
            proof {
                assert(crate::model::row_view(row@) =~= scale_grid(scalar as int, self@)[i as int]);
            }
            data.push(row);
            i += 1;
        }
        proof {
            assert(grid_view(data@) =~~= scale_grid(scalar as int, self@));
        }
        Matrix { rows: self.rows, columns: self.columns, data }
    }

    /// Negation: scalar multiplication by -1.0, which on the grid negates
    /// every element exactly.
    pub fn neg(&self) -> (r: Matrix)
        requires
            self.wf(),
            forall|i: int, j: int|
                0 <= i < self.rows && 0 <= j < self.columns ==> #[trigger] self@[i][j]
                    > i64::MIN as int,
        ensures
            r.wf(),
            r.rows == self.rows && r.columns == self.columns,
            r@ == neg_grid(self@),
    {
        proof {
            assert forall|i: int, j: int|
                0 <= i < self.rows && 0 <= j < self.columns implies i64::MIN as int <= round_ratio(
                (-(UNIT as int)) * #[trigger] self@[i][j],
                100000,
            ) <= i64::MAX as int by {
                assert((-(UNIT as int)) * self@[i][j] == 100000 * (-self@[i][j]))
                    by (nonlinear_arith);
                lemma_round_ratio_multiple(-self@[i][j], 100000);
            }
        }
        let r = self.scale(-UNIT);
        proof {
            assert forall|i: int, j: int|
                0 <= i < self.rows && 0 <= j < self.columns implies #[trigger] scale_grid(
                -(UNIT as int),
                self@,
            )[i][j] == -self@[i][j] by {
                assert((-(UNIT as int)) * self@[i][j] == 100000 * (-self@[i][j]))
                    by (nonlinear_arith);
                lemma_round_ratio_multiple(-self@[i][j], 100000);
            }
            assert(r@ =~~= neg_grid(self@));
        }
        r
    }
}

} // verus!
