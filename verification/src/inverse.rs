//! Matrix inversion by Gauss-Jordan elimination on a pair of matrices.

use crate::elimination::{column, eliminated, first_nonzero_row};
use crate::grid::{identity_grid, scaled_row, swapped_rows, Grid};
use crate::matrix::Matrix;
use crate::scalar::Scalar;
use vstd::prelude::*;

verus! {

/// Gauss-Jordan inversion continued from column `i`: `a` is what is left of
/// the input, `b` what the identity has become under the same row
/// operations. `None` as soon as a column has no pivot at or below the
/// diagonal.
pub open spec fn inverted_from(a: Grid, b: Grid, n: int, i: int) -> Option<Grid>
    decreases n - i,
{
    if i < 0 || i >= n {
        Some(b)
    } else {
        match first_nonzero_row(a, i, i) {
            None => None,
            Some(j) => {
                let a1 = swapped_rows(a, i, j);
                let b1 = swapped_rows(b, i, j);
                let factor = Scalar::spec_one().spec_over(a1[i][i]);
                let a2 = scaled_row(a1, i, factor);
                let b2 = scaled_row(b1, i, factor);
                let factors = column(a2, i);
                inverted_from(
                    eliminated(a2, factors, i, 0),
                    eliminated(b2, factors, i, 0),
                    n,
                    i + 1,
                )
            },
        }
    }
}

/// The inverse that the engine computes for an `n` by `n` grid, or `None`
/// when elimination meets a column without a pivot.
pub open spec fn inverse_of(g: Grid, n: int) -> Option<Grid> {
    inverted_from(g, identity_grid(n), n, 0)
}

impl Matrix {
    /// The inverse, or `None` when the matrix is not square or is singular.
    ///
    /// The matrix and an identity of the same size are taken through the
    /// same row operations: for each column the topmost non-zero cell at or
    /// below the diagonal becomes the pivot, its row is swapped into place
    /// and normalized, and the column is cleared from every other row.
    pub fn inverse(&self) -> (res: Option<Matrix>)
        requires
            self.wf(),
        ensures
            self.rows != self.cols ==> res is None,
            self.rows == self.cols ==> match res {
                Some(m) => {
                    &&& m.wf()
                    &&& m.rows == self.rows
                    &&& m.cols == self.cols
                    &&& inverse_of(self@, self.rows as int) == Some(m@)
                },
                None => inverse_of(self@, self.rows as int) is None,
            },
    {
        if self.rows != self.cols {
            return None;
        }
        let n = self.rows;
        let mut a = self.clone();
        let mut b = Matrix::identity(n);
        let ghost goal = inverse_of(self@, n as int);
        let mut i: usize = 0;
        while i < n
            invariant
                a.wf(),
                b.wf(),
                a.rows == n,
                a.cols == n,
                b.rows == n,
                b.cols == n,
                i <= n,
                self.rows == n,
                self.cols == n,
                goal == inverse_of(self@, n as int),
                inverted_from(a@, b@, n as int, i as int) == goal,
            decreases n - i,
        {
            match a.first_nonzero_in_column(i, i) {
                None => {
                    return None;
                },
                Some(j) => {
                    let ghost a0 = a@;
                    let ghost b0 = b@;
                    if j != i {
                        a.swap_rows(i, j);
                        b.swap_rows(i, j);
                    }
                    proof {
                        assert(a@ =~= swapped_rows(a0, i as int, j as int));
                        assert(b@ =~= swapped_rows(b0, i as int, j as int));
                    }
                    let pivot = a.get(i, i);
                    let factor = Scalar::one().over(pivot);
                    a.scale_row(i, factor);
                    b.scale_row(i, factor);
                    let factors = a.column(i);
                    a.eliminate(&factors, i, 0);
                    b.eliminate(&factors, i, 0);
                },
            }
            i += 1;
        }
        Some(b)
    }
}

} // verus!
