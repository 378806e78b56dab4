//! The mathematical model of a matrix and of the operations on it.
//!
//! A grid is a sequence of rows. Every operation of the engine is described
//! here as a function from grids to grids (or to scalars); the executable
//! code is proved to compute exactly these functions.

use crate::scalar::Scalar;
use vstd::prelude::*;

verus! {

/// The mathematical content of a matrix: a sequence of rows.
pub type Grid = Seq<Seq<Scalar>>;

/// Whether `g` has exactly `rows` rows of `cols` cells each.
pub open spec fn has_shape(g: Grid, rows: int, cols: int) -> bool {
    &&& g.len() == rows
    &&& forall|i: int| 0 <= i < rows ==> (#[trigger] g[i]).len() == cols
}

/// The grid with rows `a` and `b` exchanged.
pub open spec fn swapped_rows(g: Grid, a: int, b: int) -> Grid {
    g.update(a, g[b]).update(b, g[a])
}

/// The grid with every cell of row `r` multiplied by `factor`.
pub open spec fn scaled_row(g: Grid, r: int, factor: Scalar) -> Grid {
    g.update(r, Seq::new(g[r].len(), |j: int| g[r][j].spec_times(factor)))
}

/// The grid in which row `dest` has become `factor * src + dest`, cell by cell.
pub open spec fn row_plus_multiple(g: Grid, src: int, dest: int, factor: Scalar) -> Grid {
    g.update(
        dest,
        Seq::new(g[dest].len(), |j: int| g[src][j].spec_times(factor).spec_plus(g[dest][j])),
    )
}

/// The `cols` by `rows` grid whose cell (j, i) is cell (i, j) of `g`.
pub open spec fn transposed(g: Grid, rows: int, cols: int) -> Grid {
    Seq::new(cols as nat, |j: int| Seq::new(rows as nat, |i: int| g[i][j]))
}

/// The grid with every cell multiplied by `k`.
pub open spec fn scaled(g: Grid, k: Scalar) -> Grid {
    Seq::new(g.len(), |i: int| Seq::new(g[i].len(), |j: int| g[i][j].spec_times(k)))
}

/// The sum of the first `n` products `a[i][k] * b[k][j]`, accumulated from
/// positive zero in increasing order of `k`.
pub open spec fn dot_prefix(a: Grid, b: Grid, i: int, j: int, n: int) -> Scalar
    decreases n,
{
    if n <= 0 {
        Scalar::spec_zero()
    } else {
        dot_prefix(a, b, i, j, n - 1).spec_plus(a[i][n - 1].spec_times(b[n - 1][j]))
    }
}

/// The matrix product of an `n` by `inner` grid with an `inner` by `m` grid.
pub open spec fn product(a: Grid, b: Grid, n: int, inner: int, m: int) -> Grid {
    Seq::new(n as nat, |i: int| Seq::new(m as nat, |j: int| dot_prefix(a, b, i, j, inner)))
}

/// The `n` by `n` grid with `1.0` on the diagonal and positive zero elsewhere.
pub open spec fn identity_grid(n: int) -> Grid {
    Seq::new(
        n as nat,
        |i: int|
            Seq::new(
                n as nat,
                |j: int|
                    if i == j {
                        Scalar::spec_one()
                    } else {
                        Scalar::spec_zero()
                    },
            ),
    )
}

/// The grid of the given shape filled with positive zero.
pub open spec fn zero_grid(rows: int, cols: int) -> Grid {
    Seq::new(rows as nat, |i: int| Seq::new(cols as nat, |j: int| Scalar::spec_zero()))
}

/// The grid left after deleting row `row` and column `col` from a
/// `rows` by `cols` grid.
pub open spec fn minor(g: Grid, rows: int, cols: int, row: int, col: int) -> Grid {
    Seq::new(
        (rows - 1) as nat,
        |i: int|
            Seq::new(
                (cols - 1) as nat,
                |j: int|
                    g[if i < row {
                        i
                    } else {
                        i + 1
                    }][if j < col {
                        j
                    } else {
                        j + 1
                    }],
            ),
    )
}

} // verus!
