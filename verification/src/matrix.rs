//! Storage and cell access for a dense row-major matrix.

use crate::grid::{identity_grid, zero_grid, Grid};
use crate::scalar::Scalar;
use vstd::prelude::*;
use vstd::std_specs::cmp::PartialEqSpecImpl;

verus! {

/// A dense matrix whose cell (i, j) is stored at `data[i * cols + j]`.
#[derive(Debug)]
pub struct Matrix {
    pub rows: usize,
    pub cols: usize,
    pub data: Vec<Scalar>,
}

/// A cell of a `rows` by `cols` grid lies inside the flat buffer.
pub proof fn lemma_cell_in_buffer(rows: int, cols: int, i: int, j: int)
    requires
        0 <= i < rows,
        0 <= j < cols,
    ensures
        0 <= i * cols,
        0 <= i * cols + j < rows * cols,
{
    assert(i * cols >= 0) by (nonlinear_arith)
        requires
            i >= 0,
            cols > 0,
    ;
    assert((i + 1) * cols <= rows * cols) by (nonlinear_arith)
        requires
            i + 1 <= rows,
            cols > 0,
    ;
    assert((i + 1) * cols == i * cols + cols) by (nonlinear_arith);
}

/// Two cells that share a flat position are the same cell.
pub proof fn lemma_cell_unique(cols: int, i: int, j: int, k: int, l: int)
    requires
        0 <= j < cols,
        0 <= l < cols,
        i * cols + j == k * cols + l,
    ensures
        i == k,
        j == l,
{
    if i < k {
        assert((i + 1) * cols <= k * cols) by (nonlinear_arith)
            requires
                i + 1 <= k,
                cols > 0,
        ;
        assert((i + 1) * cols == i * cols + cols) by (nonlinear_arith);
    } else if k < i {
        assert((k + 1) * cols <= i * cols) by (nonlinear_arith)
            requires
                k + 1 <= i,
                cols > 0,
        ;
        assert((k + 1) * cols == k * cols + cols) by (nonlinear_arith);
    }
}

impl View for Matrix {
    type V = Grid;

    /// The rows of the matrix, each a sequence of `cols` scalars.
    open spec fn view(&self) -> Grid {
        Seq::new(
            self.rows as nat,
            |i: int| Seq::new(self.cols as nat, |j: int| self.data@[i * self.cols + j]),
        )
    }
}

impl Matrix {
    /// The storage invariant: the buffer holds exactly `rows * cols` cells.
    pub open spec fn wf(&self) -> bool {
        self.data.len() == self.rows * self.cols
    }

    /// The `rows` by `cols` matrix of positive zeros.
    pub fn new(rows: usize, cols: usize) -> (m: Matrix)
        requires
            rows * cols <= usize::MAX,
        ensures
            m.wf(),
            m.rows == rows,
            m.cols == cols,
            m@ == zero_grid(rows as int, cols as int),
    {
        let n: usize = rows * cols;
        let mut data: Vec<Scalar> = Vec::new();
        let mut k: usize = 0;
        while k < n
            invariant
                k <= n,
                data@.len() == k,
                forall|p: int| 0 <= p < k ==> (#[trigger] data@[p]) == Scalar::zero(),
            decreases n - k,
        {
            data.push(Scalar::zero());
            k += 1;
        }
        let m = Matrix { rows, cols, data };
        proof {
            assert forall|i: int, j: int| 0 <= i < rows && 0 <= j < cols implies (#[trigger] m@[i][j])
                == Scalar::zero() by {
                lemma_cell_in_buffer(rows as int, cols as int, i, j);
            }
            assert(m@ =~~= zero_grid(rows as int, cols as int));
        }
        m
    }

    /// The `size` by `size` identity: `1.0` on the diagonal, positive zero elsewhere.
    pub fn identity(size: usize) -> (m: Matrix)
        requires
            size * size <= usize::MAX,
        ensures
            m.wf(),
            m.rows == size,
            m.cols == size,
            m@ == identity_grid(size as int),
    {
        let mut m = Matrix::new(size, size);
        let mut i: usize = 0;
        while i < size
            invariant
                m.wf(),
                m.rows == size,
                m.cols == size,
                i <= size,
                forall|a: int, b: int|
                    0 <= a < size && 0 <= b < size ==> (#[trigger] m@[a][b]) == (if a == b && a < i {
                        Scalar::spec_one()
                    } else {
                        Scalar::spec_zero()
                    }),
            decreases size - i,
        {
            m.set(i, i, Scalar::one());
            i += 1;
        }
        proof {
            let target = identity_grid(size as int);
            assert forall|a: int| 0 <= a < size implies (#[trigger] m@[a]) =~= target[a] by {}
            assert(m@ =~= target);
        }
        m
    }

    /// Copies `vector` into the leading cells of the matrix in row-major
    /// order. Cells past the end of `vector` keep their value.
    pub fn load_from_vector(&mut self, vector: Vec<Scalar>)
        requires
            old(self).wf(),
            vector.len() <= old(self).rows * old(self).cols,
        ensures
            final(self).wf(),
            final(self).rows == old(self).rows,
            final(self).cols == old(self).cols,
            forall|i: int, j: int|
                0 <= i < old(self).rows && 0 <= j < old(self).cols ==> (
                #[trigger] final(self)@[i][j]) == (if i * old(self).cols + j < vector.len() {
                    vector@[i * old(self).cols + j]
                } else {
                    old(self)@[i][j]
                }),
    {
        let mut k: usize = 0;
        while k < vector.len()
            invariant
                self.wf(),
                self.rows == old(self).rows,
                self.cols == old(self).cols,
                vector.len() <= self.rows * self.cols,
                k <= vector.len(),
                forall|p: int|
                    0 <= p < self.data.len() ==> (#[trigger] self.data@[p]) == (if p < k {
                        vector@[p]
                    } else {
                        old(self).data@[p]
                    }),
            decreases vector.len() - k,
        {
            self.data.set(k, vector[k]);
            k += 1;
        }
        proof {
            assert forall|i: int, j: int|
                0 <= i < self.rows && 0 <= j < self.cols implies (#[trigger] self@[i][j]) == (if i
                * self.cols + j < vector.len() {
                vector@[i * self.cols + j]
            } else {
                old(self)@[i][j]
            }) by {
                lemma_cell_in_buffer(self.rows as int, self.cols as int, i, j);
            }
        }
    }

    /// The rows of the matrix, each as a vector of its own.
    pub fn get_rows(&self) -> (rows: Vec<Vec<Scalar>>)
        requires
            self.wf(),
        ensures
            rows@.len() == self.rows,
            forall|i: int| 0 <= i < self.rows ==> (#[trigger] rows@[i])@ == self@[i],
    {
        let mut rows: Vec<Vec<Scalar>> = Vec::new();
        let mut i: usize = 0;
        while i < self.rows
            invariant
                self.wf(),
                i <= self.rows,
                rows@.len() == i,
                forall|a: int| 0 <= a < i ==> (#[trigger] rows@[a])@ == self@[a],
            decreases self.rows - i,
        {
            let mut row: Vec<Scalar> = Vec::new();
            let mut j: usize = 0;
            while j < self.cols
                invariant
                    self.wf(),
                    i < self.rows,
                    j <= self.cols,
                    row@.len() == j,
                    forall|b: int| 0 <= b < j ==> (#[trigger] row@[b]) == self@[i as int][b],
                decreases self.cols - j,
            {
                row.push(self.get(i, j));
                j += 1;
            }
            proof {
                assert(row@ =~= self@[i as int]);
            }
            rows.push(row);
            i += 1;
        }
        rows
    }

    /// The cell at (`row`, `col`).
    pub fn get(&self, row: usize, col: usize) -> (v: Scalar)
        requires
            self.wf(),
            row < self.rows,
            col < self.cols,
        ensures
            v == self@[row as int][col as int],
    {
        proof {
            lemma_cell_in_buffer(self.rows as int, self.cols as int, row as int, col as int);
        }
        self.data[row * self.cols + col]
    }

    /// Overwrites the cell at (`row`, `col`) and leaves every other cell as it was.
    pub fn set(&mut self, row: usize, col: usize, val: Scalar)
        requires
            old(self).wf(),
            row < old(self).rows,
            col < old(self).cols,
        ensures
            final(self).wf(),
            final(self).rows == old(self).rows,
            final(self).cols == old(self).cols,
            final(self)@ == old(self)@.update(
                row as int,
                old(self)@[row as int].update(col as int, val),
            ),
    {
        proof {
            lemma_cell_in_buffer(self.rows as int, self.cols as int, row as int, col as int);
        }
        let at: usize = row * self.cols + col;
        self.data.set(at, val);
        proof {
            let cols = self.cols as int;
            let target = old(self)@.update(
                row as int,
                old(self)@[row as int].update(col as int, val),
            );
            assert forall|i: int| 0 <= i < self.rows implies (#[trigger] self@[i]) =~= target[i] by {
                assert forall|j: int| 0 <= j < cols implies self@[i][j] == target[i][j] by {
                    lemma_cell_in_buffer(self.rows as int, cols, i, j);
                    if i * cols + j == at as int {
                        lemma_cell_unique(cols, i, j, row as int, col as int);
                    }
                }
            }
            assert(self@ =~= target);
        }
    }
}

impl Clone for Matrix {
    /// An independent copy with the same shape and the same cells.
    fn clone(&self) -> (m: Matrix)
        ensures
            m.rows == self.rows,
            m.cols == self.cols,
            m.data@ == self.data@,
            m@ == self@,
            m.wf() == self.wf(),
    {
        let mut data: Vec<Scalar> = Vec::new();
        let mut k: usize = 0;
        while k < self.data.len()
            invariant
                k <= self.data.len(),
                data@.len() == k,
                forall|p: int| 0 <= p < k ==> (#[trigger] data@[p]) == self.data@[p],
            decreases self.data.len() - k,
        {
            data.push(self.data[k]);
            k += 1;
        }
        proof {
            assert(data@ =~= self.data@);
        }
        Matrix { rows: self.rows, cols: self.cols, data }
    }
}

impl PartialEq for Matrix {
    /// Two matrices are equal when their shapes agree and corresponding
    /// cells are numerically equal.
    fn eq(&self, other: &Matrix) -> (r: bool) {
        if self.rows != other.rows || self.cols != other.cols || self.data.len()
            != other.data.len() {
            return false;
        }
        let mut k: usize = 0;
        while k < self.data.len()
            invariant
                self.data.len() == other.data.len(),
                k <= self.data.len(),
                forall|p: int| 0 <= p < k ==> (#[trigger] self.data@[p]).same_value(other.data@[p]),
            decreases self.data.len() - k,
        {
            if !(self.data[k] == other.data[k]) {
                return false;
            }
            k += 1;
        }
        true
    }
}

impl PartialEqSpecImpl for Matrix {
    open spec fn obeys_eq_spec() -> bool {
        true
    }

    open spec fn eq_spec(&self, other: &Matrix) -> bool {
        &&& self.rows == other.rows
        &&& self.cols == other.cols
        &&& self.data@.len() == other.data@.len()
        &&& forall|p: int|
            0 <= p < self.data@.len() ==> (#[trigger] self.data@[p]).same_value(other.data@[p])
    }
}

} // verus!
