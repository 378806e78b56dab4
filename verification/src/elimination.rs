//! Pivot search, Gauss-Jordan reduction and rank.

use crate::grid::{scaled_row, swapped_rows, Grid};
use crate::matrix::Matrix;
use crate::scalar::Scalar;
use vstd::prelude::*;

verus! {

/// The first row at or below `from` whose cell in column `col` is not zero.
pub open spec fn first_nonzero_row(g: Grid, col: int, from: int) -> Option<int>
    decreases g.len() - from,
{
    if from < 0 || from >= g.len() {
        None
    } else if !g[from][col].spec_is_zero() {
        Some(from)
    } else {
        first_nonzero_row(g, col, from + 1)
    }
}

/// The pivot that reduction uses for row `row` when columns before `lead`
/// are exhausted: the leftmost column at or after `lead` that has a non-zero
/// cell at or below `row`, together with the topmost such row.
pub open spec fn next_pivot(g: Grid, cols: int, row: int, lead: int) -> Option<(int, int)>
    decreases cols - lead,
{
    if lead < 0 || lead >= cols {
        None
    } else {
        match first_nonzero_row(g, lead, row) {
            Some(i) => Some((i, lead)),
            None => next_pivot(g, cols, row, lead + 1),
        }
    }
}

/// Column `c` of the grid, top to bottom.
pub open spec fn column(g: Grid, c: int) -> Seq<Scalar> {
    Seq::new(g.len(), |k: int| g[k][c])
}

/// The grid after subtracting from every row `k` other than `r`, starting at
/// row `from`, the multiple `factors[k]` of row `r`: each cell becomes
/// `g[r][j] * (-factors[k]) + g[k][j]`.
pub open spec fn eliminated(g: Grid, factors: Seq<Scalar>, r: int, from: int) -> Grid {
    Seq::new(
        g.len(),
        |k: int|
            if k != r && k >= from {
                Seq::new(
                    g[k].len(),
                    |j: int| g[r][j].spec_times(factors[k].spec_negate()).spec_plus(g[k][j]),
                )
            } else {
                g[k]
            },
    )
}

/// The grid with row `r` divided through by its cell in column `c`, that is,
/// multiplied by `1.0 / g[r][c]`.
pub open spec fn normalized(g: Grid, r: int, c: int) -> Grid {
    scaled_row(g, r, Scalar::spec_one().spec_over(g[r][c]))
}

/// One reduction step on the pivot found at (`i`, `c`) for target row `r`:
/// bring the pivot row up, normalize it, and clear column `c` in all other rows.
pub open spec fn pivoted(g: Grid, r: int, i: int, c: int) -> Grid {
    let up = swapped_rows(g, i, r);
    let unit = normalized(up, r, c);
    eliminated(unit, column(unit, c), r, 0)
}

/// Gauss-Jordan reduction continued from target row `r` with pivot column
/// cursor `lead`.
pub open spec fn reduced_from(g: Grid, rows: int, cols: int, r: int, lead: int) -> Grid
    decreases rows - r,
{
    if r < 0 || r >= rows {
        g
    } else {
        match next_pivot(g, cols, r, lead) {
            None => g,
            Some((i, c)) => reduced_from(pivoted(g, r, i, c), rows, cols, r + 1, c + 1),
        }
    }
}

/// The reduced row-echelon form that the engine computes for a `rows` by
/// `cols` grid.
pub open spec fn reduced(g: Grid, rows: int, cols: int) -> Grid {
    reduced_from(g, rows, cols, 0, 0)
}

/// Whether every cell of the row is zero.
pub open spec fn is_zero_row(row: Seq<Scalar>) -> bool {
    forall|j: int| 0 <= j < row.len() ==> (#[trigger] row[j]).spec_is_zero()
}

/// How many of the first `n` rows are zero rows.
pub open spec fn zero_row_count(g: Grid, n: int) -> int
    decreases n,
{
    if n <= 0 {
        0
    } else {
        zero_row_count(g, n - 1) + (if is_zero_row(g[n - 1]) {
            1int
        } else {
            0int
        })
    }
}

/// The rank the engine reports: the number of rows of the reduced form that
/// are not zero rows.
pub open spec fn rank_of(g: Grid, rows: int, cols: int) -> int {
    rows - zero_row_count(reduced(g, rows, cols), rows)
}

/// What the column search finds: the hit is in range and non-zero and
/// everything above it, from `from` on, is zero; a miss means the whole
/// column is zero from `from` on.
pub proof fn lemma_first_nonzero_row(g: Grid, col: int, from: int)
    requires
        0 <= from,
    ensures
        match first_nonzero_row(g, col, from) {
            Some(i) => {
                &&& from <= i < g.len()
                &&& !g[i][col].spec_is_zero()
                &&& forall|k: int| from <= k < i ==> (#[trigger] g[k][col]).spec_is_zero()
            },
            None => forall|k: int| from <= k < g.len() ==> (#[trigger] g[k][col]).spec_is_zero(),
        },
    decreases g.len() - from,
{
    if from < g.len() && g[from][col].spec_is_zero() {
        lemma_first_nonzero_row(g, col, from + 1);
    }
}

/// What the pivot search finds: the pivot is the topmost non-zero cell, at
/// or below `row`, of the leftmost column at or after `lead` that has one;
/// a miss means all those columns are zero from `row` down.
pub proof fn lemma_next_pivot(g: Grid, cols: int, row: int, lead: int)
    requires
        0 <= row,
        0 <= lead,
    ensures
        match next_pivot(g, cols, row, lead) {
            Some((i, c)) => {
                &&& lead <= c < cols
                &&& row <= i < g.len()
                &&& !g[i][c].spec_is_zero()
                &&& forall|k: int| row <= k < i ==> (#[trigger] g[k][c]).spec_is_zero()
                &&& forall|k: int, d: int|
                    row <= k < g.len() && lead <= d < c ==> (#[trigger] g[k][d]).spec_is_zero()
            },
            None => forall|k: int, d: int|
                row <= k < g.len() && lead <= d < cols ==> (#[trigger] g[k][d]).spec_is_zero(),
        },
    decreases cols - lead,
{
    if lead < cols {
        lemma_first_nonzero_row(g, lead, row);
        if first_nonzero_row(g, lead, row) is None {
            lemma_next_pivot(g, cols, row, lead + 1);
        }
    }
}

impl Matrix {
    /// The first row at or below `from` whose cell in column `col` is not
    /// zero, or `None` when the column is zero from there on.
    pub fn first_nonzero_in_column(&self, col: usize, from: usize) -> (res: Option<usize>)
        requires
            self.wf(),
            col < self.cols,
        ensures
            match res {
                Some(i) => {
                    &&& first_nonzero_row(self@, col as int, from as int) == Some(i as int)
                    &&& from <= i < self.rows
                    &&& !self@[i as int][col as int].spec_is_zero()
                    &&& forall|k: int|
                        from <= k < i ==> (#[trigger] self@[k][col as int]).spec_is_zero()
                },
                None => {
                    &&& first_nonzero_row(self@, col as int, from as int) is None
                    &&& forall|k: int|
                        from <= k < self.rows ==> (#[trigger] self@[k][col as int]).spec_is_zero()
                },
            },
    {
        proof {
            lemma_first_nonzero_row(self@, col as int, from as int);
        }
        let mut i: usize = from;
        while i < self.rows
            invariant
                self.wf(),
                col < self.cols,
                from <= i,
                first_nonzero_row(self@, col as int, from as int) == first_nonzero_row(
                    self@,
                    col as int,
                    i as int,
                ),
            decreases self.rows - i,
        {
            if !self.get(i, col).is_zero() {
                proof {
                    lemma_first_nonzero_row(self@, col as int, from as int);
                }
                return Some(i);
            }
            i += 1;
        }
        None
    }

    /// The pivot for target row `row` with the column cursor at `lead`, as
    /// (pivot row, pivot column), or `None` when no column from `lead` on
    /// has a non-zero cell at or below `row`.
    pub fn find_pivot(&self, row: usize, lead: usize) -> (res: Option<(usize, usize)>)
        requires
            self.wf(),
        ensures
            match res {
                Some((i, c)) => {
                    &&& next_pivot(self@, self.cols as int, row as int, lead as int) == Some(
                        (i as int, c as int),
                    )
                    &&& row <= i < self.rows
                    &&& lead <= c < self.cols
                    &&& !self@[i as int][c as int].spec_is_zero()
                    &&& forall|k: int|
                        row <= k < i ==> (#[trigger] self@[k][c as int]).spec_is_zero()
                    &&& forall|k: int, d: int|
                        row <= k < self.rows && lead <= d < c ==> (
                        #[trigger] self@[k][d]).spec_is_zero()
                },
                None => {
                    &&& next_pivot(self@, self.cols as int, row as int, lead as int) is None
                    &&& forall|k: int, d: int|
                        row <= k < self.rows && lead <= d < self.cols ==> (
                        #[trigger] self@[k][d]).spec_is_zero()
                },
            },
    {
        proof {
            lemma_next_pivot(self@, self.cols as int, row as int, lead as int);
        }
        let mut c: usize = lead;
        while c < self.cols
            invariant
                self.wf(),
                lead <= c,
                next_pivot(self@, self.cols as int, row as int, lead as int) == next_pivot(
                    self@,
                    self.cols as int,
                    row as int,
                    c as int,
                ),
            decreases self.cols - c,
        {
            match self.first_nonzero_in_column(c, row) {
                Some(i) => {
                    proof {
                        lemma_first_nonzero_row(self@, c as int, row as int);
                        lemma_next_pivot(self@, self.cols as int, row as int, lead as int);
                    }
                    return Some((i, c));
                },
                None => {},
            }
            c += 1;
        }
        None
    }

    /// Column `col`, top to bottom.
    pub fn column(&self, col: usize) -> (v: Vec<Scalar>)
        requires
            self.wf(),
            col < self.cols,
        ensures
            v@ == column(self@, col as int),
    {
        let mut v: Vec<Scalar> = Vec::new();
        let mut k: usize = 0;
        while k < self.rows
            invariant
                self.wf(),
                col < self.cols,
                k <= self.rows,
                v@.len() == k,
                forall|p: int| 0 <= p < k ==> (#[trigger] v@[p]) == self@[p][col as int],
            decreases self.rows - k,
        {
            v.push(self.get(k, col));
            k += 1;
        }
        proof {
            assert(v@ =~= column(self@, col as int));
        }
        v
    }

    /// Subtracts from every row `k` other than `pivot_row`, starting at row
    /// `from`, the multiple `factors[k]` of the pivot row.
    pub fn eliminate(&mut self, factors: &Vec<Scalar>, pivot_row: usize, from: usize)
        requires
            old(self).wf(),
            pivot_row < old(self).rows,
            factors.len() == old(self).rows,
        ensures
            final(self).wf(),
            final(self).rows == old(self).rows,
            final(self).cols == old(self).cols,
            final(self)@ == eliminated(old(self)@, factors@, pivot_row as int, from as int),
    {
        let ghost before = self@;
        let ghost target = eliminated(before, factors@, pivot_row as int, from as int);
        let mut k: usize = 0;
        while k < self.rows
            invariant
                self.wf(),
                self.rows == old(self).rows,
                self.cols == old(self).cols,
                before == old(self)@,
                target == eliminated(before, factors@, pivot_row as int, from as int),
                pivot_row < self.rows,
                factors.len() == self.rows,
                k <= self.rows,
                forall|i: int|
                    0 <= i < self.rows ==> (#[trigger] self@[i]) == (if i < k {
                        target[i]
                    } else {
                        before[i]
                    }),
            decreases self.rows - k,
        {
            if k != pivot_row && k >= from {
                let ghost current = self@;
                self.add_multiple_of_row(pivot_row, k, factors[k].negate());
                proof {
                    assert(current[pivot_row as int] == before[pivot_row as int]);
                    assert(self@[k as int] =~= target[k as int]);
                }
            }
            k += 1;
        }
        proof {
            assert(self@ =~= target);
        }
    }

    /// Reduces the matrix in place to reduced row-echelon form by
    /// Gauss-Jordan elimination. Singular and rectangular inputs are not
    /// errors: reduction stops when the pivot columns are exhausted.
    pub fn echelon_form(&mut self)
        requires
            old(self).wf(),
        ensures
            final(self).wf(),
            final(self).rows == old(self).rows,
            final(self).cols == old(self).cols,
            final(self)@ == reduced(old(self)@, old(self).rows as int, old(self).cols as int),
    {
        let ghost goal = reduced(self@, self.rows as int, self.cols as int);
        let mut lead: usize = 0;
        let mut r: usize = 0;
        while r < self.rows
            invariant
                self.wf(),
                self.rows == old(self).rows,
                self.cols == old(self).cols,
                r <= self.rows,
                lead <= self.cols,
                reduced_from(self@, self.rows as int, self.cols as int, r as int, lead as int)
                    == goal,
                goal == reduced(old(self)@, old(self).rows as int, old(self).cols as int),
            decreases self.rows - r,
        {
            match self.find_pivot(r, lead) {
                None => {
                    return;
                },
                Some((i, c)) => {
                    let ghost start = self@;
                    if i != r {
                        self.swap_rows(i, r);
                    }
                    proof {
                        assert(self@ =~= swapped_rows(start, i as int, r as int));
                    }
                    let pivot = self.get(r, c);
                    self.scale_row(r, Scalar::one().over(pivot));
                    let factors = self.column(c);
                    self.eliminate(&factors, r, 0);
                    proof {
                        assert(self@ == pivoted(start, r as int, i as int, c as int));
                    }
                    lead = c + 1;
                },
            }
            r += 1;
        }
    }

    /// Whether every cell of row `row` is zero.
    pub fn row_is_zero(&self, row: usize) -> (z: bool)
        requires
            self.wf(),
            row < self.rows,
        ensures
            z == is_zero_row(self@[row as int]),
    {
        let mut j: usize = 0;
        while j < self.cols
            invariant
                self.wf(),
                row < self.rows,
                j <= self.cols,
                forall|b: int| 0 <= b < j ==> (#[trigger] self@[row as int][b]).spec_is_zero(),
            decreases self.cols - j,
        {
            if !self.get(row, j).is_zero() {
                return false;
            }
            j += 1;
        }
        true
    }

    /// The rank: the number of rows of the reduced row-echelon form that are
    /// not entirely zero. The matrix itself is left untouched.
    pub fn rank(&self) -> (n: usize)
        requires
            self.wf(),
        ensures
            n == rank_of(self@, self.rows as int, self.cols as int),
            n <= self.rows,
    {
        let mut work = self.clone();
        work.echelon_form();
        let mut zero_rows: usize = 0;
        let mut i: usize = 0;
        while i < work.rows
            invariant
                work.wf(),
                i <= work.rows,
                zero_rows == zero_row_count(work@, i as int),
                zero_rows <= i,
            decreases work.rows - i,
        {
            if work.row_is_zero(i) {
                zero_rows += 1;
            }
            i += 1;
        }
        self.rows - zero_rows
    }
}

} // verus!
