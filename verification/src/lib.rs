//! A dense real-valued matrix library with verified contracts.
//!
//! Values are fixed-point numbers counted in units of `1/100000` (the
//! library's five-decimal rounding grid), stored as `i64`. Construction,
//! element access and mutation, elementwise and linear arithmetic,
//! structural property predicates, and the special operations (transpose,
//! trace, determinant, adjugate, inverse) are all specified against the
//! grid model in [`model`] and verified.

use vstd::prelude::*;

pub mod laws;
pub mod model;
mod operations;
mod properties;
mod special_operations;

use crate::model::{grid_view, is_grid, row_view, UNIT};
use vstd::pervasive::unreached;

verus! {

broadcast use crate::model::group_grid_view;

/// A rectangular grid of fixed-point values with a fixed shape.
///
/// `data` holds exactly `rows` rows of exactly `columns` elements each
/// (the well-formedness predicate [`Matrix::wf`]). Elements are counted
/// in units of `1/100000`.
#[derive(Debug, Clone)]
pub struct Matrix {
    pub rows: usize,
    pub columns: usize,
    pub data: Vec<Vec<i64>>,
}

/// The failure modes of the library. Every error is returned as a value;
/// no operation panics on inputs its precondition admits.
#[derive(Debug, PartialEq, Eq, Clone, Copy)]
pub enum MatrixError {
    ZeroDimension,
    InconsistentColumnSize,
    DimensionMismatch,
    NonSquareMatrix,
    SingularMatrix,
    IndexOutOfBounds,
}

impl View for Matrix {
    type V = Seq<Seq<int>>;

    open spec fn view(&self) -> Seq<Seq<int>> {
        grid_view(self.data@)
    }
}

impl Matrix {
    /// The struct invariant: the stored grid has exactly the declared shape.
    pub open spec fn wf(&self) -> bool {
        is_grid(self@, self.rows as int, self.columns as int)
    }

    /// A matrix is square when it has as many rows as columns.
    pub open spec fn spec_is_square(&self) -> bool {
        self.rows == self.columns
    }

    /// A zero matrix of the requested shape; a shape with a zero side is
    /// rejected with `ZeroDimension`.
    pub fn new_zero_matrix(rows: usize, columns: usize) -> (r: Result<Matrix, MatrixError>)
        ensures
            match r {
                Ok(m) => {
                    &&& rows >= 1 && columns >= 1
                    &&& m.wf()
                    &&& m.rows == rows && m.columns == columns
                    &&& forall|i: int, j: int|
                        0 <= i < rows && 0 <= j < columns ==> m@[i][j] == 0
                },
                Err(e) => (rows == 0 || columns == 0) && e == MatrixError::ZeroDimension,
            },
    {
        if rows == 0 || columns == 0 {
            return Err(MatrixError::ZeroDimension);
        }

        let mut data: Vec<Vec<i64>> = Vec::new();
        let mut i: usize = 0;
        while i < rows
            invariant
                i <= rows,
                data@.len() == i,
                forall|k: int| 0 <= k < i ==> (#[trigger] data@[k])@.len() == columns,
                forall|k: int, l: int|
                    0 <= k < i && 0 <= l < columns ==> #[trigger] data@[k]@[l] == 0,
            decreases rows - i,
        {
            let mut row: Vec<i64> = Vec::new();
            let mut j: usize = 0;
            while j < columns
                invariant
                    j <= columns,
                    row@.len() == j,
                    forall|l: int| 0 <= l < j ==> row@[l] == 0,
                decreases columns - j,
            {
                row.push(0);
                j += 1;
            }
            data.push(row);
            i += 1;
        }

        let m = Matrix { rows, columns, data };
        assert(forall|i: int, j: int|
            0 <= i < rows && 0 <= j < columns ==> m@[i][j] == 0);
        Ok(m)
    }

    /// A matrix holding exactly the given grid; rows of unequal length are
    /// rejected with `InconsistentColumnSize`. An empty grid yields the
    /// (otherwise unconstructible) 0-by-0 matrix.
    pub fn new_with_data(data: Vec<Vec<i64>>) -> (r: Result<Matrix, MatrixError>)
        ensures
            match r {
                Ok(m) => {
                    &&& forall|i: int|
                        0 <= i < data@.len() ==> (#[trigger] data@[i])@.len() == data@[0]@.len()
                    &&& m.wf()
                    &&& m.rows == data@.len()
                    &&& m.columns == if data@.len() == 0 {
                        0int
                    } else {
                        data@[0]@.len() as int
                    }
                    &&& m@ == grid_view(data@)
                },
                Err(e) => {
                    &&& e == MatrixError::InconsistentColumnSize
                    &&& exists|i: int|
                        0 <= i < data@.len() && (#[trigger] data@[i])@.len() != data@[0]@.len()
                },
            },
    {
        let rows = data.len();
        let columns = if rows == 0 {
            0
        } else {
            data[0].len()
        };

        let mut i: usize = 0;
        while i < rows
            invariant
                i <= rows,
                rows == data@.len(),
                rows > 0 ==> columns == data@[0]@.len(),
                forall|k: int| 0 <= k < i ==> (#[trigger] data@[k])@.len() == columns as int,
            decreases rows - i,
        {
            if data[i].len() != columns {
                return Err(MatrixError::InconsistentColumnSize);
            }
            i += 1;
        }

        Ok(Matrix { rows, columns, data })
    }

    /// A square matrix with the given values on the main diagonal and 0
    /// elsewhere; an empty list is rejected with `ZeroDimension`.
    pub fn new_diagonal_matrix(diagonal_elements: &Vec<i64>) -> (r: Result<Matrix, MatrixError>)
        ensures
            match r {
                Ok(m) => {
                    &&& diagonal_elements@.len() >= 1
                    &&& m.wf()
                    &&& m.rows == diagonal_elements@.len()
                    &&& m.columns == diagonal_elements@.len()
                    &&& forall|i: int|
                        0 <= i < m.rows ==> #[trigger] m@[i][i] == diagonal_elements@[i] as int
                    &&& forall|i: int, j: int|
                        0 <= i < m.rows && 0 <= j < m.columns && i != j ==> #[trigger] m@[i][j]
                            == 0
                },
                Err(e) => diagonal_elements@.len() == 0 && e == MatrixError::ZeroDimension,
            },
    {
        let n = diagonal_elements.len();
        if n == 0 {
            return Err(MatrixError::ZeroDimension);
        }

        let mut diagonal_matrix = match Matrix::new_zero_matrix(n, n) {
            Ok(m) => m,
            Err(_) => unreached(),
        };

        let mut i: usize = 0;
        while i < n
            invariant
                i <= n,
                diagonal_matrix.wf(),
                diagonal_matrix.rows == n,
                diagonal_matrix.columns == n,
                n == diagonal_elements@.len(),
                forall|k: int|
                    0 <= k < i ==> diagonal_matrix@[k][k] == #[trigger] diagonal_elements@[k] as int,
                forall|k: int, l: int|
                    0 <= k < n && 0 <= l < n && k != l ==> #[trigger] diagonal_matrix@[k][l] == 0,
            decreases n - i,
        {
            set_grid_element(&mut diagonal_matrix.data, i, i, diagonal_elements[i]);
            i += 1;
        }

        Ok(diagonal_matrix)
    }

    /// A square matrix with the given value everywhere on the main diagonal;
    /// built atop `new_diagonal_matrix`, with the same `ZeroDimension` failure.
    pub fn new_scalar_matrix(scalar: i64, size: usize) -> (r: Result<Matrix, MatrixError>)
        ensures
            match r {
                Ok(m) => {
                    &&& size >= 1
                    &&& m.wf()
                    &&& m.rows == size && m.columns == size
                    &&& forall|i: int| 0 <= i < size ==> #[trigger] m@[i][i] == scalar as int
                    &&& forall|i: int, j: int|
                        0 <= i < size && 0 <= j < size && i != j ==> #[trigger] m@[i][j] == 0
                },
                Err(e) => size == 0 && e == MatrixError::ZeroDimension,
            },
    {
        if size == 0 {
            return Err(MatrixError::ZeroDimension);
        }

        let mut diagonal: Vec<i64> = Vec::new();
        let mut i: usize = 0;
        while i < size
            invariant
                i <= size,
                diagonal@.len() == i,
                forall|k: int| 0 <= k < i ==> diagonal@[k] == scalar,
            decreases size - i,
        {
            diagonal.push(scalar);
            i += 1;
        }

        match Matrix::new_diagonal_matrix(&diagonal) {
            Ok(m) => Ok(m),
            Err(_) => unreached(),
        }
    }

    /// The n-by-n identity matrix (diagonal of 1.0, i.e. `UNIT` units);
    /// `ZeroDimension` when `n == 0`.
    pub fn nth_identity(n: usize) -> (r: Result<Matrix, MatrixError>)
        ensures
            match r {
                Ok(m) => {
                    &&& n >= 1
                    &&& m.wf()
                    &&& m.rows == n && m.columns == n
                    &&& forall|i: int| 0 <= i < n ==> #[trigger] m@[i][i] == UNIT as int
                    &&& forall|i: int, j: int|
                        0 <= i < n && 0 <= j < n && i != j ==> #[trigger] m@[i][j] == 0
                },
                Err(e) => n == 0 && e == MatrixError::ZeroDimension,
            },
    {
        if n == 0 {
            return Err(MatrixError::ZeroDimension);
        }
        match Matrix::new_scalar_matrix(UNIT, n) {
            Ok(m) => Ok(m),
            Err(_) => unreached(),
        }
    }

    /// The number of rows.
    pub fn rows(&self) -> (r: usize)
        ensures
            r == self.rows,
    {
        self.rows
    }

    /// The number of columns.
    pub fn columns(&self) -> (r: usize)
        ensures
            r == self.columns,
    {
        self.columns
    }

    /// A copy of the whole grid.
    pub fn get_data(&self) -> (r: Vec<Vec<i64>>)
        requires
            self.wf(),
        ensures
            grid_view(r@) == self@,
            r@.len() == self.rows,
    {
        let mut out: Vec<Vec<i64>> = Vec::new();
        let mut i: usize = 0;
        while i < self.data.len()
            invariant
                i <= self.data@.len(),
                out@.len() == i,
                forall|k: int| 0 <= k < i ==> #[trigger] out@[k]@ == self.data@[k]@,
            decreases self.data@.len() - i,
        {
            out.push(copy_row(&self.data[i]));
            i += 1;
        }
        proof {
            assert(grid_view(out@) =~~= self@);
        }
        out
    }

    /// A copy of one row; `IndexOutOfBounds` when the index is at or past
    /// the row count.
    pub fn get_row(&self, row: usize) -> (r: Result<Vec<i64>, MatrixError>)
        requires
            self.wf(),
        ensures
            match r {
                Ok(v) => row < self.rows && row_view(v@) == self@[row as int],
                Err(e) => row >= self.rows && e == MatrixError::IndexOutOfBounds,
            },
    {
        if row >= self.rows {
            return Err(MatrixError::IndexOutOfBounds);
        }
        let v = copy_row(&self.data[row]);
        proof {
            assert(row_view(v@) =~= self@[row as int]);
        }
        Ok(v)
    }

    /// A copy of one column; `IndexOutOfBounds` when the index is at or
    /// past the column count.
    pub fn get_column(&self, column: usize) -> (r: Result<Vec<i64>, MatrixError>)
        requires
            self.wf(),
        ensures
            match r {
                Ok(v) => {
                    &&& column < self.columns
                    &&& v@.len() == self.rows
                    &&& forall|i: int|
                        0 <= i < self.rows ==> #[trigger] v@[i] as int == self@[i][column as int]
                },
                Err(e) => column >= self.columns && e == MatrixError::IndexOutOfBounds,
            },
    {
        if column >= self.columns {
            return Err(MatrixError::IndexOutOfBounds);
        }
        let mut v: Vec<i64> = Vec::new();
        let mut i: usize = 0;
        while i < self.data.len()
            invariant
                self.wf(),
                column < self.columns,
                i <= self.rows,
                v@.len() == i,
                forall|k: int| 0 <= k < i ==> #[trigger] v@[k] as int == self@[k][column as int],
            decreases self.data@.len() - i,
        {
            v.push(self.data[i][column]);
            i += 1;
        }
        Ok(v)
    }

    /// One element; `IndexOutOfBounds` when either index is out of range.
    pub fn get_element(&self, row: usize, column: usize) -> (r: Result<i64, MatrixError>)
        requires
            self.wf(),
        ensures
            match r {
                Ok(x) => {
                    &&& row < self.rows && column < self.columns
                    &&& x as int == self@[row as int][column as int]
                },
                Err(e) => (row >= self.rows || column >= self.columns) && e
                    == MatrixError::IndexOutOfBounds,
            },
    {
        if row >= self.rows || column >= self.columns {
            return Err(MatrixError::IndexOutOfBounds);
        }
        Ok(self.data[row][column])
    }

    /// Replace the whole grid; the replacement must have exactly the fixed
    /// shape (`DimensionMismatch`) and be rectangular (`InconsistentColumnSize`).
    /// The first row of the replacement is inspected, so a matrix with zero
    /// rows cannot be given an empty replacement.
    pub fn set_data(&mut self, data: Vec<Vec<i64>>) -> (r: Result<(), MatrixError>)
        requires
            old(self).wf(),
            !(old(self).rows == 0 && data@.len() == 0),
        ensures
            final(self).rows == old(self).rows,
            final(self).columns == old(self).columns,
            final(self).wf(),
            match r {
                Ok(()) => {
                    &&& data@.len() == old(self).rows
                    &&& data@[0]@.len() == old(self).columns
                    &&& forall|i: int|
                        0 <= i < data@.len() ==> (#[trigger] data@[i])@.len() == data@[0]@.len()
                    &&& final(self)@ == grid_view(data@)
                },
                Err(MatrixError::DimensionMismatch) => {
                    &&& data@.len() != old(self).rows || data@[0]@.len() != old(self).columns
                    &&& *final(self) == *old(self)
                },
                Err(MatrixError::InconsistentColumnSize) => {
                    &&& data@.len() == old(self).rows && data@[0]@.len() == old(self).columns
                    &&& exists|i: int|
                        0 <= i < data@.len() && (#[trigger] data@[i])@.len() != data@[0]@.len()
                    &&& *final(self) == *old(self)
                },
                Err(_) => false,
            },
    {
        if data.len() != self.rows || data[0].len() != self.columns {
            return Err(MatrixError::DimensionMismatch);
        }

        let first_len = data[0].len();
        let mut i: usize = 0;
        while i < data.len()
            invariant
                i <= data@.len(),
                data@.len() > 0,
                first_len == data@[0]@.len(),
                data@.len() == old(self).rows,
                first_len == old(self).columns,
                forall|k: int| 0 <= k < i ==> (#[trigger] data@[k])@.len() == first_len as int,
                *self == *old(self),
                old(self).wf(),
            decreases data@.len() - i,
        {
            if data[i].len() != first_len {
                return Err(MatrixError::InconsistentColumnSize);
            }
            i += 1;
        }

        self.data = data;
        Ok(())
    }

    /// Replace one row; the index must exist (`IndexOutOfBounds`) and the
    /// replacement must have exactly one element per column (`DimensionMismatch`).
    pub fn set_row(&mut self, row: usize, data: Vec<i64>) -> (r: Result<(), MatrixError>)
        requires
            old(self).wf(),
        ensures
            final(self).rows == old(self).rows,
            final(self).columns == old(self).columns,
            final(self).wf(),
            match r {
                Ok(()) => {
                    &&& row < old(self).rows
                    &&& data@.len() == old(self).columns
                    &&& final(self)@ == old(self)@.update(row as int, row_view(data@))
                },
                Err(MatrixError::IndexOutOfBounds) => row >= old(self).rows && *final(self)
                    == *old(self),
                Err(MatrixError::DimensionMismatch) => {
                    &&& row < old(self).rows && data@.len() != old(self).columns
                    &&& *final(self) == *old(self)
                },
                Err(_) => false,
            },
    {
        if row >= self.rows {
            return Err(MatrixError::IndexOutOfBounds);
        }
        if data.len() != self.columns {
            return Err(MatrixError::DimensionMismatch);
        }

        self.data[row] = data;
        proof {
            assert(self@ =~~= old(self)@.update(row as int, row_view(data@)));
        }
        Ok(())
    }

    /// Replace one column; the index must exist (`IndexOutOfBounds`) and the
    /// replacement must have exactly one element per row (`DimensionMismatch`).
    pub fn set_column(&mut self, column: usize, data: Vec<i64>) -> (r: Result<(), MatrixError>)
        requires
            old(self).wf(),
        ensures
            final(self).rows == old(self).rows,
            final(self).columns == old(self).columns,
            final(self).wf(),
            match r {
                Ok(()) => {
                    &&& column < old(self).columns
                    &&& data@.len() == old(self).rows
                    &&& forall|i: int|
                        0 <= i < old(self).rows ==> #[trigger] final(self)@[i] == old(
                            self,
                        )@[i].update(column as int, data@[i] as int)
                },
                Err(MatrixError::IndexOutOfBounds) => column >= old(self).columns && *final(self)
                    == *old(self),
                Err(MatrixError::DimensionMismatch) => {
                    &&& column < old(self).columns && data@.len() != old(self).rows
                    &&& *final(self) == *old(self)
                },
                Err(_) => false,
            },
    {
        if column >= self.columns {
            return Err(MatrixError::IndexOutOfBounds);
        }
        if data.len() != self.rows {
            return Err(MatrixError::DimensionMismatch);
        }

        let mut i: usize = 0;
        while i < data.len()
            invariant
                i <= data@.len(),
                data@.len() == old(self).rows,
                column < old(self).columns,
                self.rows == old(self).rows,
                self.columns == old(self).columns,
                self.wf(),
                forall|k: int|
                    0 <= k < i ==> #[trigger] self@[k] == old(self)@[k].update(
                        column as int,
                        data@[k] as int,
                    ),
                forall|k: int| i <= k < old(self).rows ==> #[trigger] self@[k] == old(self)@[k],
            decreases data@.len() - i,
        {
            let ghost pre = *self;
            set_grid_element(&mut self.data, i, column, data[i]);
            proof {
                assert(forall|k: int|
                    0 <= k < old(self).rows && k != i ==> #[trigger] self@[k] == pre@[k]);
                assert(self@[i as int] =~= pre@[i as int].update(
                    column as int,
                    data@[i as int] as int,
                ));
            }
            i += 1;
        }
        Ok(())
    }

    /// Replace one element; both indexes must exist (`IndexOutOfBounds`).
    pub fn set_element(&mut self, row: usize, column: usize, data: i64) -> (r: Result<
        (),
        MatrixError,
    >)
        requires
            old(self).wf(),
        ensures
            final(self).rows == old(self).rows,
            final(self).columns == old(self).columns,
            final(self).wf(),
            match r {
                Ok(()) => {
                    &&& row < old(self).rows && column < old(self).columns
                    &&& final(self)@ == old(self)@.update(
                        row as int,
                        old(self)@[row as int].update(column as int, data as int),
                    )
                },
                Err(e) => {
                    &&& (row >= old(self).rows || column >= old(self).columns)
                    &&& e == MatrixError::IndexOutOfBounds
                    &&& *final(self) == *old(self)
                },
            },
    {
        if column >= self.columns || row >= self.rows {
            return Err(MatrixError::IndexOutOfBounds);
        }

        set_grid_element(&mut self.data, row, column, data);
        proof {
            assert(self@[row as int] =~= old(self)@[row as int].update(
                column as int,
                data as int,
            ));
            assert(self@ =~~= old(self)@.update(
                row as int,
                old(self)@[row as int].update(column as int, data as int),
            ));
        }
        Ok(())
    }
}

impl PartialEq for Matrix {
    /// Structural equality: the same declared shape and the same stored grid.
    fn eq(&self, other: &Self) -> (r: bool) {
        if self.rows != other.rows || self.columns != other.columns {
            return false;
        }
        if self.data.len() != other.data.len() {
            proof {
                assert(self@.len() != other@.len());
            }
            return false;
        }
        let mut i: usize = 0;
        while i < self.data.len()
            invariant
                i <= self.data@.len(),
                self.data@.len() == other.data@.len(),
                forall|k: int| 0 <= k < i ==> #[trigger] self.data@[k]@ == other.data@[k]@,
            decreases self.data@.len() - i,
        {
            if self.data[i].len() != other.data[i].len() {
                proof {
                    assert(self@[i as int].len() != other@[i as int].len());
                }
                return false;
            }
            let mut j: usize = 0;
            while j < self.data[i].len()
                invariant
                    i < self.data@.len(),
                    self.data@.len() == other.data@.len(),
                    j <= self.data@[i as int]@.len(),
                    self.data@[i as int]@.len() == other.data@[i as int]@.len(),
                    forall|l: int|
                        0 <= l < j ==> #[trigger] self.data@[i as int]@[l] == other.data@[i as
                            int]@[l],
                decreases self.data@[i as int]@.len() - j,
            {
                if self.data[i][j] != other.data[i][j] {
                    proof {
                        assert(self@[i as int][j as int] != other@[i as int][j as int]);
                    }
                    return false;
                }
                j += 1;
            }
            proof {
                assert(self.data@[i as int]@ =~= other.data@[i as int]@);
            }
            i += 1;
        }
        proof {
            assert(self@ =~~= other@);
        }
        true
    }
}

impl vstd::std_specs::cmp::PartialEqSpecImpl for Matrix {
    open spec fn obeys_eq_spec() -> bool {
        true
    }

    open spec fn eq_spec(&self, other: &Self) -> bool {
        &&& self.rows == other.rows
        &&& self.columns == other.columns
        &&& self@ == other@
    }
}

/// A copy of a row vector, element by element.
fn copy_row(row: &Vec<i64>) -> (r: Vec<i64>)
    ensures
        r@ == row@,
{
    let mut out: Vec<i64> = Vec::new();
    let mut j: usize = 0;
    while j < row.len()
        invariant
            j <= row@.len(),
            out@.len() == j,
            forall|l: int| 0 <= l < j ==> out@[l] == row@[l],
        decreases row@.len() - j,
    {
        out.push(row[j]);
        j += 1;
    }
    proof {
        assert(out@ =~= row@);
    }
    out
}

/// Overwrite one cell of a grid, leaving every other cell and all row
/// lengths unchanged.
fn set_grid_element(data: &mut Vec<Vec<i64>>, row: usize, column: usize, value: i64)
    requires
        row < old(data)@.len(),
        column < old(data)@[row as int]@.len(),
    ensures
        final(data)@.len() == old(data)@.len(),
        forall|k: int|
            0 <= k < old(data)@.len() && k != row ==> #[trigger] final(data)@[k] == old(data)@[k],
        final(data)@[row as int]@ == old(data)@[row as int]@.update(column as int, value),
{
    data[row][column] = value;
}

} // verus!
