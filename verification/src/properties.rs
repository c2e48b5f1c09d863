//! Structural property predicates: pure boolean classifiers over a
//! matrix's current grid. Non-square inputs simply yield `false` for the
//! square-only properties; none of these operations fails.

use vstd::prelude::*;

use crate::Matrix;
use crate::model::{
    det_ok, det_units, diagonal_grid, scalar_grid, skew_symmetric_grid, symmetric_grid, zero_grid,
    UNIT,
};

verus! {

broadcast use crate::model::group_grid_view;

impl Matrix {
    /// Whether the matrix has as many rows as columns.
    pub fn is_square(&self) -> (r: bool)
        ensures
            r == self.spec_is_square(),
    {
        self.rows == self.columns
    }

    /// Whether the matrix is square and equal to its own transpose
    /// (exact equality on the stored grid values).
    pub fn is_symmetric(&self) -> (r: bool)
        requires
            self.wf(),
        ensures
            r == (self.spec_is_square() && symmetric_grid(self@)),
    {
        if self.rows != self.columns {
            return false;
        }
        let n = self.rows;
        let mut i: usize = 0;
        while i < n
            invariant
                i <= n,
                n == self.rows,
                self.wf(),
                self.spec_is_square(),
                forall|k: int, l: int|
                    0 <= k < i && 0 <= l < n ==> #[trigger] self@[k][l] == self@[l][k],
            decreases n - i,
        {
            let mut j: usize = 0;
            while j < n
                invariant
                    j <= n,
                    i < n,
                    n == self.rows,
                    self.wf(),
                    self.spec_is_square(),
                    forall|l: int| 0 <= l < j ==> #[trigger] self@[i as int][l] == self@[l][i as int],
                decreases n - j,
            {
                if self.data[i][j] != self.data[j][i] {
                    proof {
                        assert(self@[i as int][j as int] != self@[j as int][i as int]);
                    }
                    return false;
                }
                j += 1;
            }
            i += 1;
        }
        true
    }

    /// Whether the matrix is square and equal to the negation of its own
    /// transpose.
    pub fn is_skew_symmetric(&self) -> (r: bool)
        requires
            self.wf(),
        ensures
            r == (self.spec_is_square() && skew_symmetric_grid(self@)),
    {
        if self.rows != self.columns {
            return false;
        }
        let n = self.rows;
        let mut i: usize = 0;
        while i < n
            invariant
                i <= n,
                n == self.rows,
                self.wf(),
                self.spec_is_square(),
                forall|k: int, l: int|
                    0 <= k < i && 0 <= l < n ==> #[trigger] self@[k][l] == -self@[l][k],
            decreases n - i,
        {
            let mut j: usize = 0;
            while j < n
                invariant
                    j <= n,
                    i < n,
                    n == self.rows,
                    self.wf(),
                    self.spec_is_square(),
                    forall|l: int|
                        0 <= l < j ==> #[trigger] self@[i as int][l] == -self@[l][i as int],
                decreases n - j,
            {
                if (self.data[i][j] as i128) != -(self.data[j][i] as i128) {
                    proof {
                        assert(self@[i as int][j as int] != -self@[j as int][i as int]);
                    }
                    return false;
                }
                j += 1;
            }
            i += 1;
        }
        true
    }

    /// Whether the matrix is square with every off-diagonal element zero.
    pub fn is_diagonal(&self) -> (r: bool)
        requires
            self.wf(),
        ensures
            r == (self.spec_is_square() && diagonal_grid(self@)),
    {
        if self.rows != self.columns {
            return false;
        }
        let n = self.rows;
        let mut i: usize = 0;
        while i < n
            invariant
                i <= n,
                n == self.rows,
                self.wf(),
                self.spec_is_square(),
                forall|k: int, l: int|
                    0 <= k < i && 0 <= l < n && k != l ==> #[trigger] self@[k][l] == 0,
            decreases n - i,
        {
            let mut j: usize = 0;
            while j < n
                invariant
                    j <= n,
                    i < n,
                    n == self.rows,
                    self.wf(),
                    self.spec_is_square(),
                    forall|l: int|
                        0 <= l < j && l != i ==> #[trigger] self@[i as int][l] == 0,
                decreases n - j,
            {
                if j != i && self.data[i][j] != 0 {
                    proof {
                        assert(self@[i as int][j as int] != 0);
                    }
                    return false;
                }
                j += 1;
            }
            i += 1;
        }
        true
    }

    /// Whether the matrix is square, non-empty, with every diagonal element
    /// equal to the top-left element and every off-diagonal element zero.
    pub fn is_scalar(&self) -> (r: bool)
        requires
            self.wf(),
        ensures
            r == (self.spec_is_square() && self.rows >= 1 && scalar_grid(self@)),
    {
        if self.rows != self.columns || self.rows == 0 {
            return false;
        }
        let n = self.rows;
        let first_element = self.data[0][0];
        let mut i: usize = 0;
        while i < n
            invariant
                i <= n,
                n == self.rows,
                n >= 1,
                self.wf(),
                self.spec_is_square(),
                first_element as int == self@[0][0],
                forall|k: int, l: int|
                    0 <= k < i && 0 <= l < n ==> #[trigger] self@[k][l] == if k == l {
                        self@[0][0]
                    } else {
                        0
                    },
            decreases n - i,
        {
            let mut j: usize = 0;
            while j < n
                invariant
                    j <= n,
                    i < n,
                    n == self.rows,
                    n >= 1,
                    self.wf(),
                    self.spec_is_square(),
                    first_element as int == self@[0][0],
                    forall|l: int|
                        0 <= l < j ==> #[trigger] self@[i as int][l] == if i as int == l {
                            self@[0][0]
                        } else {
                            0
                        },
                decreases n - j,
            {
                let expected = if i == j {
                    first_element
                } else {
                    0
                };
                if self.data[i][j] != expected {
                    proof {
                        assert(self@[i as int][j as int] != if i as int == j as int {
                            self@[0][0]
                        } else {
                            0int
                        });
                    }
                    return false;
                }
                j += 1;
            }
            i += 1;
        }
        true
    }

    /// Whether the matrix is a scalar matrix whose shared diagonal value is
    /// exactly 1.0 (`UNIT` units).
    pub fn is_identity(&self) -> (r: bool)
        requires
            self.wf(),
        ensures
            r == (self.spec_is_square() && self.rows >= 1 && scalar_grid(self@) && self@[0][0]
                == UNIT as int),
    {
        if self.is_scalar() {
            self.data[0][0] == UNIT
        } else {
            false
        }
    }

    /// Whether every element, of any shape, is exactly zero.
    pub fn is_zero(&self) -> (r: bool)
        requires
            self.wf(),
        ensures
            r == zero_grid(self@),
    {
        let mut i: usize = 0;
        while i < self.rows
            invariant
                i <= self.rows,
                self.wf(),
                forall|k: int, l: int|
                    0 <= k < i && 0 <= l < self.columns ==> #[trigger] self@[k][l] == 0,
            decreases self.rows - i,
        {
            let mut j: usize = 0;
            while j < self.columns
                invariant
                    j <= self.columns,
                    i < self.rows,
                    self.wf(),
                    forall|l: int| 0 <= l < j ==> #[trigger] self@[i as int][l] == 0,
                decreases self.columns - j,
            {
                if self.data[i][j] != 0 {
                    proof {
                        assert(self@[i as int][j as int] != 0);
                    }
                    return false;
                }
                j += 1;
            }
            i += 1;
        }
        true
    }

    /// Whether the determinant is computable (the matrix is square) and is
    /// exactly zero after rounding; non-square matrices are not singular.
    pub fn is_singular(&self) -> (r: bool)
        requires
            self.wf(),
            self.spec_is_square() ==> det_ok(self@),
        ensures
            r == (self.spec_is_square() && det_units(self@) == 0),
    {
        match self.determinant() {
            Ok(d) => d == 0,
            Err(_) => false,
        }
    }
}

} // verus!
