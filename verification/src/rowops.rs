//! Elementary row operations, transpose, products and minors.

use crate::error::MatrixError;
use crate::grid::{
    dot_prefix, minor, product, row_plus_multiple, scaled, scaled_row, swapped_rows, transposed,
};
use crate::matrix::Matrix;
use crate::scalar::Scalar;
use vstd::prelude::*;

verus! {

/// A product bounds the product of any two smaller factors, and does not
/// depend on the order of its own.
pub proof fn lemma_smaller_product_fits(a: int, b: int, c: int, d: int)
    requires
        0 <= c <= a,
        0 <= d <= b,
    ensures
        0 <= c * d <= a * b,
        a * b == b * a,
{
    assert(0 <= c * d <= a * b) by (nonlinear_arith)
        requires
            0 <= c <= a,
            0 <= d <= b,
    ;
    assert(a * b == b * a) by (nonlinear_arith);
}

impl Matrix {
    /// Exchanges rows `row1` and `row2` in place.
    pub fn swap_rows(&mut self, row1: usize, row2: usize)
        requires
            old(self).wf(),
            row1 < old(self).rows,
            row2 < old(self).rows,
        ensures
            final(self).wf(),
            final(self).rows == old(self).rows,
            final(self).cols == old(self).cols,
            final(self)@ == swapped_rows(old(self)@, row1 as int, row2 as int),
    {
        let ghost before = self@;
        let mut j: usize = 0;
        while j < self.cols
            invariant
                self.wf(),
                self.rows == old(self).rows,
                self.cols == old(self).cols,
                before == old(self)@,
                row1 < self.rows,
                row2 < self.rows,
                j <= self.cols,
                forall|i: int|
                    0 <= i < self.rows && i != row1 && i != row2 ==> (#[trigger] self@[i])
                        == before[i],
                forall|k: int|
                    0 <= k < self.cols ==> (#[trigger] self@[row1 as int][k]) == (if k < j {
                        before[row2 as int][k]
                    } else {
                        before[row1 as int][k]
                    }),
                forall|k: int|
                    0 <= k < self.cols ==> (#[trigger] self@[row2 as int][k]) == (if k < j {
                        before[row1 as int][k]
                    } else {
                        before[row2 as int][k]
                    }),
            decreases self.cols - j,
        {
            let temp = self.get(row1, j);
            let other = self.get(row2, j);
            self.set(row1, j, other);
            self.set(row2, j, temp);
            j += 1;
        }
        proof {
            let target = swapped_rows(before, row1 as int, row2 as int);
            assert forall|i: int| 0 <= i < self.rows implies (#[trigger] self@[i]) =~= target[i] by {}
            assert(self@ =~= target);
        }
    }

    /// Multiplies every cell of row `row` by `factor` in place.
    pub fn scale_row(&mut self, row: usize, factor: Scalar)
        requires
            old(self).wf(),
            row < old(self).rows,
        ensures
            final(self).wf(),
            final(self).rows == old(self).rows,
            final(self).cols == old(self).cols,
            final(self)@ == scaled_row(old(self)@, row as int, factor),
    {
        let ghost before = self@;
        let mut j: usize = 0;
        while j < self.cols
            invariant
                self.wf(),
                self.rows == old(self).rows,
                self.cols == old(self).cols,
                before == old(self)@,
                row < self.rows,
                j <= self.cols,
                forall|i: int| 0 <= i < self.rows && i != row ==> (#[trigger] self@[i]) == before[i],
                forall|k: int|
                    0 <= k < self.cols ==> (#[trigger] self@[row as int][k]) == (if k < j {
                        before[row as int][k].spec_times(factor)
                    } else {
                        before[row as int][k]
                    }),
            decreases self.cols - j,
        {
            let val = self.get(row, j).times(factor);
            self.set(row, j, val);
            j += 1;
        }
        proof {
            let target = scaled_row(before, row as int, factor);
            assert forall|i: int| 0 <= i < self.rows implies (#[trigger] self@[i]) =~= target[i] by {}
            assert(self@ =~= target);
        }
    }

    /// Adds `factor` times row `src_row` to row `dest_row` in place: every
    /// cell of the destination becomes `src * factor + dest`.
    pub fn add_multiple_of_row(&mut self, src_row: usize, dest_row: usize, factor: Scalar)
        requires
            old(self).wf(),
            src_row < old(self).rows,
            dest_row < old(self).rows,
        ensures
            final(self).wf(),
            final(self).rows == old(self).rows,
            final(self).cols == old(self).cols,
            final(self)@ == row_plus_multiple(
                old(self)@,
                src_row as int,
                dest_row as int,
                factor,
            ),
    {
        let ghost before = self@;
        let mut j: usize = 0;
        while j < self.cols
            invariant
                self.wf(),
                self.rows == old(self).rows,
                self.cols == old(self).cols,
                before == old(self)@,
                src_row < self.rows,
                dest_row < self.rows,
                j <= self.cols,
                forall|i: int|
                    0 <= i < self.rows && i != dest_row ==> (#[trigger] self@[i]) == before[i],
                forall|k: int|
                    0 <= k < self.cols ==> (#[trigger] self@[dest_row as int][k]) == (if k < j {
                        before[src_row as int][k].spec_times(factor).spec_plus(
                            before[dest_row as int][k],
                        )
                    } else {
                        before[dest_row as int][k]
                    }),
            decreases self.cols - j,
        {
            let val = self.get(src_row, j).times(factor).plus(self.get(dest_row, j));
            self.set(dest_row, j, val);
            j += 1;
        }
        proof {
            let target = row_plus_multiple(before, src_row as int, dest_row as int, factor);
            assert forall|i: int| 0 <= i < self.rows implies (#[trigger] self@[i]) =~= target[i] by {}
            assert(self@ =~= target);
        }
    }

    /// The transpose as a new matrix: cell (j, i) of the result is cell (i, j) of `self`.
    pub fn transpose(&self) -> (t: Matrix)
        requires
            self.wf(),
        ensures
            t.wf(),
            t.rows == self.cols,
            t.cols == self.rows,
            t@ == transposed(self@, self.rows as int, self.cols as int),
    {
        proof {
            lemma_smaller_product_fits(
                self.rows as int,
                self.cols as int,
                self.rows as int,
                self.cols as int,
            );
        }
        let mut result = Matrix::new(self.cols, self.rows);
        let mut i: usize = 0;
        while i < self.rows
            invariant
                self.wf(),
                result.wf(),
                result.rows == self.cols,
                result.cols == self.rows,
                i <= self.rows,
                forall|b: int, a: int|
                    0 <= b < self.cols && 0 <= a < i ==> (#[trigger] result@[b][a]) == self@[a][b],
            decreases self.rows - i,
        {
            let mut j: usize = 0;
            while j < self.cols
                invariant
                    self.wf(),
                    result.wf(),
                    result.rows == self.cols,
                    result.cols == self.rows,
                    i < self.rows,
                    j <= self.cols,
                    forall|b: int, a: int|
                        0 <= b < self.cols && 0 <= a < i ==> (#[trigger] result@[b][a])
                            == self@[a][b],
                    forall|b: int| 0 <= b < j ==> (#[trigger] result@[b][i as int]) == self@[i as int][b],
                decreases self.cols - j,
            {
                result.set(j, i, self.get(i, j));
                j += 1;
            }
            i += 1;
        }
        proof {
            let target = transposed(self@, self.rows as int, self.cols as int);
            assert forall|b: int| 0 <= b < result.rows implies (#[trigger] result@[b]) =~= target[b] by {}
            assert(result@ =~= target);
        }
        result
    }

    /// Transposes a square matrix in place by exchanging the cells that
    /// mirror each other across the diagonal.
    pub fn transpose_in_place(&mut self)
        requires
            old(self).wf(),
            old(self).rows == old(self).cols,
        ensures
            final(self).wf(),
            final(self).rows == old(self).cols,
            final(self).cols == old(self).rows,
            final(self)@ == transposed(old(self)@, old(self).rows as int, old(self).cols as int),
    {
        let ghost before = self@;
        let n = self.rows;
        let mut i: usize = 0;
        while i < n
            invariant
                self.wf(),
                self.rows == n,
                self.cols == n,
                before == old(self)@,
                i <= n,
                forall|a: int, b: int|
                    0 <= a < n && 0 <= b < n ==> (#[trigger] self@[a][b]) == (if a < i || b < i {
                        before[b][a]
                    } else {
                        before[a][b]
                    }),
            decreases n - i,
        {
            let mut j: usize = i + 1;
            while j < n
                invariant
                    self.wf(),
                    self.rows == n,
                    self.cols == n,
                    i < n,
                    i < j <= n,
                    forall|a: int, b: int|
                        0 <= a < n && 0 <= b < n ==> (#[trigger] self@[a][b]) == (if a < i || b < i
                            || (a == i && b < j) || (b == i && a < j) {
                            before[b][a]
                        } else {
                            before[a][b]
                        }),
                decreases n - j,
            {
                let upper = self.get(i, j);
                let lower = self.get(j, i);
                self.set(i, j, lower);
                self.set(j, i, upper);
                j += 1;
            }
            i += 1;
        }
        let rows = self.rows;
        self.rows = self.cols;
        self.cols = rows;
        proof {
            let target = transposed(before, n as int, n as int);
            assert forall|a: int| 0 <= a < n implies (#[trigger] self@[a]) =~= target[a] by {}
            assert(self@ =~= target);
        }
    }

    /// A new matrix with every cell multiplied by `scalar`.
    pub fn scalar_multiply(&self, scalar: Scalar) -> (m: Matrix)
        requires
            self.wf(),
        ensures
            m.wf(),
            m.rows == self.rows,
            m.cols == self.cols,
            m@ == scaled(self@, scalar),
    {
        let mut result = Matrix::new(self.rows, self.cols);
        let mut i: usize = 0;
        while i < self.rows
            invariant
                self.wf(),
                result.wf(),
                result.rows == self.rows,
                result.cols == self.cols,
                i <= self.rows,
                forall|a: int, b: int|
                    0 <= a < i && 0 <= b < self.cols ==> (#[trigger] result@[a][b])
                        == self@[a][b].spec_times(scalar),
            decreases self.rows - i,
        {
            let mut j: usize = 0;
            while j < self.cols
                invariant
                    self.wf(),
                    result.wf(),
                    result.rows == self.rows,
                    result.cols == self.cols,
                    i < self.rows,
                    j <= self.cols,
                    forall|a: int, b: int|
                        0 <= a < i && 0 <= b < self.cols ==> (#[trigger] result@[a][b])
                            == self@[a][b].spec_times(scalar),
                    forall|b: int|
                        0 <= b < j ==> (#[trigger] result@[i as int][b])
                            == self@[i as int][b].spec_times(scalar),
                decreases self.cols - j,
            {
                result.set(i, j, self.get(i, j).times(scalar));
                j += 1;
            }
            i += 1;
        }
        proof {
            let target = scaled(self@, scalar);
            assert forall|a: int| 0 <= a < result.rows implies (#[trigger] result@[a]) =~= target[a] by {}
            assert(result@ =~= target);
        }
        result
    }

    /// The matrix product `self * other`.
    ///
    /// Fails with `DimensionMismatch` exactly when the inner dimensions
    /// differ. Each cell of the product is the dot product of a row of
    /// `self` with a column of `other`, accumulated from zero in column order.
    pub fn matrix_multiply(&self, other: &Matrix) -> (res: Result<Matrix, MatrixError>)
        requires
            self.wf(),
            other.wf(),
            self.cols == other.rows ==> self.rows * other.cols <= usize::MAX,
        ensures
            self.cols != other.rows <==> res == Err::<Matrix, MatrixError>(
                MatrixError::DimensionMismatch,
            ),
            self.cols == other.rows <==> res is Ok,
            res is Ok ==> {
                let m = res->Ok_0;
                &&& m.wf()
                &&& m.rows == self.rows
                &&& m.cols == other.cols
                &&& m@ == product(
                    self@,
                    other@,
                    self.rows as int,
                    self.cols as int,
                    other.cols as int,
                )
            },
    {
        if self.cols != other.rows {
            return Err(MatrixError::DimensionMismatch);
        }
        let mut result = Matrix::new(self.rows, other.cols);
        let mut i: usize = 0;
        while i < self.rows
            invariant
                self.wf(),
                other.wf(),
                self.cols == other.rows,
                result.wf(),
                result.rows == self.rows,
                result.cols == other.cols,
                i <= self.rows,
                forall|a: int, b: int|
                    0 <= a < i && 0 <= b < other.cols ==> (#[trigger] result@[a][b]) == dot_prefix(
                        self@,
                        other@,
                        a,
                        b,
                        self.cols as int,
                    ),
            decreases self.rows - i,
        {
            let mut j: usize = 0;
            while j < other.cols
                invariant
                    self.wf(),
                    other.wf(),
                    self.cols == other.rows,
                    result.wf(),
                    result.rows == self.rows,
                    result.cols == other.cols,
                    i < self.rows,
                    j <= other.cols,
                    forall|a: int, b: int|
                        0 <= a < i && 0 <= b < other.cols ==> (#[trigger] result@[a][b])
                            == dot_prefix(self@, other@, a, b, self.cols as int),
                    forall|b: int|
                        0 <= b < j ==> (#[trigger] result@[i as int][b]) == dot_prefix(
                            self@,
                            other@,
                            i as int,
                            b,
                            self.cols as int,
                        ),
                decreases other.cols - j,
            {
                let mut sum = Scalar::zero();
                let mut k: usize = 0;
                while k < self.cols
                    invariant
                        self.wf(),
                        other.wf(),
                        self.cols == other.rows,
                        i < self.rows,
                        j < other.cols,
                        k <= self.cols,
                        sum == dot_prefix(self@, other@, i as int, j as int, k as int),
                    decreases self.cols - k,
                {
                    sum = sum.plus(self.get(i, k).times(other.get(k, j)));
                    k += 1;
                }
                result.set(i, j, sum);
                j += 1;
            }
            i += 1;
        }
        proof {
            let target = product(
                self@,
                other@,
                self.rows as int,
                self.cols as int,
                other.cols as int,
            );
            assert forall|a: int| 0 <= a < result.rows implies (#[trigger] result@[a]) =~= target[a] by {}
            assert(result@ =~= target);
        }
        Ok(result)
    }

    /// The matrix left after deleting row `row` and column `col`, or `None`
    /// when either index is out of range.
    pub fn submatrix(&self, row: usize, col: usize) -> (res: Option<Matrix>)
        requires
            self.wf(),
        ensures
            res is None <==> (row >= self.rows || col >= self.cols),
            res is Some ==> {
                let m = res->Some_0;
                &&& m.wf()
                &&& m.rows == self.rows - 1
                &&& m.cols == self.cols - 1
                &&& m@ == minor(
                    self@,
                    self.rows as int,
                    self.cols as int,
                    row as int,
                    col as int,
                )
            },
    {
        if row >= self.rows || col >= self.cols {
            return None;
        }
        proof {
            lemma_smaller_product_fits(
                self.rows as int,
                self.cols as int,
                self.rows - 1,
                self.cols - 1,
            );
        }
        let mut result = Matrix::new(self.rows - 1, self.cols - 1);
        let mut i: usize = 0;
        while i < result.rows
            invariant
                self.wf(),
                result.wf(),
                row < self.rows,
                col < self.cols,
                result.rows == self.rows - 1,
                result.cols == self.cols - 1,
                i <= result.rows,
                forall|a: int, b: int|
                    0 <= a < i && 0 <= b < result.cols ==> (#[trigger] result@[a][b])
                        == self@[if a < row {
                        a
                    } else {
                        a + 1
                    }][if b < col {
                        b
                    } else {
                        b + 1
                    }],
            decreases result.rows - i,
        {
            let from_row: usize = if i < row {
                i
            } else {
                i + 1
            };
            let mut j: usize = 0;
            while j < result.cols
                invariant
                    self.wf(),
                    result.wf(),
                    row < self.rows,
                    col < self.cols,
                    result.rows == self.rows - 1,
                    result.cols == self.cols - 1,
                    i < result.rows,
                    j <= result.cols,
                    from_row == (if i < row {
                        i as int
                    } else {
                        i + 1
                    }),
                    forall|a: int, b: int|
                        0 <= a < i && 0 <= b < result.cols ==> (#[trigger] result@[a][b])
                            == self@[if a < row {
                            a
                        } else {
                            a + 1
                        }][if b < col {
                            b
                        } else {
                            b + 1
                        }],
                    forall|b: int|
                        0 <= b < j ==> (#[trigger] result@[i as int][b])
                            == self@[from_row as int][if b < col {
                            b
                        } else {
                            b + 1
                        }],
                decreases result.cols - j,
            {
                let from_col: usize = if j < col {
                    j
                } else {
                    j + 1
                };
                result.set(i, j, self.get(from_row, from_col));
                j += 1;
            }
            i += 1;
        }
        proof {
            let target = minor(self@, self.rows as int, self.cols as int, row as int, col as int);
            assert forall|a: int| 0 <= a < result.rows implies (#[trigger] result@[a]) =~= target[a] by {}
            assert(result@ =~= target);
        }
        Some(result)
    }
}

} // verus!
