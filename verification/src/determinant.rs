//! Determinants: by elimination, and by cofactor expansion along the first row.

use crate::elimination::{column, eliminated, first_nonzero_row};
use crate::grid::{minor, scaled_row, swapped_rows, Grid};
use crate::matrix::Matrix;
use crate::scalar::{Scalar, MINUS_ONE_BITS};
use vstd::prelude::*;

verus! {

/// Elimination continued from column `i` with `acc` the signed product of
/// the pivots met so far. A column without a pivot at or below the diagonal
/// makes the determinant positive zero.
pub open spec fn det_from(a: Grid, n: int, i: int, acc: Scalar) -> Scalar
    decreases n - i,
{
    if i < 0 || i >= n {
        acc
    } else {
        match first_nonzero_row(a, i, i) {
            None => Scalar::spec_zero(),
            Some(j) => {
                let a1 = swapped_rows(a, i, j);
                let signed = if j != i {
                    acc.spec_negate()
                } else {
                    acc
                };
                let pivot = a1[i][i];
                let a2 = scaled_row(a1, i, Scalar::spec_one().spec_over(pivot));
                det_from(
                    eliminated(a2, column(a2, i), i, i + 1),
                    n,
                    i + 1,
                    signed.spec_times(pivot),
                )
            },
        }
    }
}

/// The determinant of an `n` by `n` grid as elimination computes it: the
/// product of the pivots, taken in column order starting from `1.0`, with
/// one sign flip per row exchange.
pub open spec fn determinant_of(g: Grid, n: int) -> Scalar {
    det_from(g, n, 0, Scalar::spec_one())
}

/// The value `-1.0`.
pub open spec fn minus_one() -> Scalar {
    Scalar { bits: MINUS_ONE_BITS }
}

/// The sign of the `k`-th term of a cofactor expansion: `1.0` multiplied
/// `k` times by `-1.0`.
pub open spec fn alternating_sign(k: int) -> Scalar
    decreases k,
{
    if k <= 0 {
        Scalar::spec_one()
    } else {
        alternating_sign(k - 1).spec_times(minus_one())
    }
}

/// The determinant of an `n` by `n` grid by cofactor expansion along the
/// first row, with closed forms for sizes one and two.
pub open spec fn cofactor_determinant(g: Grid, n: int) -> Scalar
    decreases n, n + 1,
{
    if n <= 0 {
        Scalar::spec_zero()
    } else if n == 1 {
        g[0][0]
    } else if n == 2 {
        g[0][0].spec_times(g[1][1]).spec_minus(g[0][1].spec_times(g[1][0]))
    } else {
        cofactor_sum(g, n, n)
    }
}

/// The first `k` terms of the expansion, accumulated from positive zero:
/// each term is `sign * g[0][i] * det(minor(0, i))`.
pub open spec fn cofactor_sum(g: Grid, n: int, k: int) -> Scalar
    decreases n, k,
{
    if k <= 0 || n <= 0 {
        Scalar::spec_zero()
    } else {
        cofactor_sum(g, n, k - 1).spec_plus(
            alternating_sign(k - 1).spec_times(g[0][k - 1]).spec_times(
                cofactor_determinant(minor(g, n, n, 0, k - 1), n - 1),
            ),
        )
    }
}

impl Matrix {
    /// The determinant by Gaussian elimination with row exchanges, or `None`
    /// when the matrix is not square. A singular matrix has determinant
    /// positive zero.
    pub fn determinant(&self) -> (res: Option<Scalar>)
        requires
            self.wf(),
        ensures
            self.rows != self.cols <==> res is None,
            self.rows == self.cols ==> res == Some(determinant_of(self@, self.rows as int)),
    {
        if self.rows != self.cols {
            return None;
        }
        let n = self.rows;
        let mut a = self.clone();
        let mut acc = Scalar::one();
        let ghost goal = determinant_of(self@, n as int);
        let mut i: usize = 0;
        while i < n
            invariant
                a.wf(),
                a.rows == n,
                a.cols == n,
                i <= n,
                self.rows == n,
                self.cols == n,
                goal == determinant_of(self@, n as int),
                det_from(a@, n as int, i as int, acc) == goal,
            decreases n - i,
        {
            match a.first_nonzero_in_column(i, i) {
                None => {
                    return Some(Scalar::zero());
                },
                Some(j) => {
                    let ghost a0 = a@;
                    if j != i {
                        a.swap_rows(i, j);
                        acc = acc.negate();
                    }
                    proof {
                        assert(a@ =~= swapped_rows(a0, i as int, j as int));
                    }
                    let pivot = a.get(i, i);
                    acc = acc.times(pivot);
                    a.scale_row(i, Scalar::one().over(pivot));
                    let factors = a.column(i);
                    a.eliminate(&factors, i, i + 1);
                },
            }
            i += 1;
        }
        Some(acc)
    }

    /// The determinant by cofactor expansion along the first row, or `None`
    /// when the matrix is not square. The cost grows factorially with the
    /// size; it is kept as an independent cross-check of `determinant`.
    pub fn cofactor_determinant(&self) -> (res: Option<Scalar>)
        requires
            self.wf(),
        ensures
            self.rows != self.cols <==> res is None,
            self.rows == self.cols ==> res == Some(cofactor_determinant(self@, self.rows as int)),
        decreases self.rows,
    {
        if self.rows != self.cols {
            return None;
        }
        if self.rows == 0 {
            return Some(Scalar::zero());
        }
        if self.rows == 1 {
            return Some(self.get(0, 0));
        }
        if self.rows == 2 {
            let main = self.get(0, 0).times(self.get(1, 1));
            let anti = self.get(0, 1).times(self.get(1, 0));
            return Some(main.minus(anti));
        }
        let n = self.rows;
        let mut det = Scalar::zero();
        let mut sign = Scalar::one();
        let mut i: usize = 0;
        while i < n
            invariant
                self.wf(),
                self.rows == n,
                self.cols == n,
                n > 2,
                i <= n,
                det == cofactor_sum(self@, n as int, i as int),
                sign == alternating_sign(i as int),
            decreases n - i,
        {
            let sub = match self.submatrix(0, i) {
                Some(m) => m,
                None => {
                    return None;
                },
            };
            let subdet = match sub.cofactor_determinant() {
                Some(d) => d,
                None => {
                    return None;
                },
            };
            det = det.plus(sign.times(self.get(0, i)).times(subdet));
            sign = sign.times(Scalar::from_bits(MINUS_ONE_BITS));
            i += 1;
        }
        Some(det)
    }
}

} // verus!
