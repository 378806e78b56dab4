//! Properties that hold of every matrix, whatever its cells, and properties
//! of identity matrices that rest on a handful of values of the arithmetic.

use crate::determinant::{det_from, determinant_of};
use crate::elimination::{column, eliminated, first_nonzero_row};
use crate::grid::{has_shape, identity_grid, scaled_row, swapped_rows, transposed, Grid};
use crate::inverse::{inverse_of, inverted_from};
use crate::scalar::{Scalar, SIGN_BIT};
use vstd::prelude::*;

verus! {

/// Transposing twice gives the matrix back, cell for cell and bit for bit.
pub proof fn lemma_transpose_involution(g: Grid, rows: int, cols: int)
    requires
        0 <= rows,
        0 <= cols,
        has_shape(g, rows, cols),
    ensures
        has_shape(transposed(g, rows, cols), cols, rows),
        transposed(transposed(g, rows, cols), cols, rows) == g,
{
    let t = transposed(g, rows, cols);
    let back = transposed(t, cols, rows);
    assert forall|i: int| 0 <= i < rows implies (#[trigger] back[i]) =~= g[i] by {
        assert(g[i].len() == cols);
    }
    assert(back =~= g);
}

/// Negative zero.
pub open spec fn negative_zero() -> Scalar {
    Scalar { bits: SIGN_BIT }
}

/// The seven values of the rounded operations that eliminating on an
/// identity matrix uses: `1/1 = 1`, `1*1 = 1`, `0*1 = 0`, `1*(-0) = -0`,
/// `0*(-0) = -0`, `-0 + 1 = 1` and `-0 + 0 = 0`, each as an equality of bit
/// patterns.
pub open spec fn unit_arithmetic() -> bool {
    let zero = Scalar::spec_zero();
    let one = Scalar::spec_one();
    let nzero = negative_zero();
    &&& one.spec_over(one) == one
    &&& one.spec_times(one) == one
    &&& zero.spec_times(one) == zero
    &&& one.spec_times(nzero) == nzero
    &&& zero.spec_times(nzero) == nzero
    &&& nzero.spec_plus(one) == one
    &&& nzero.spec_plus(zero) == zero
}

/// Where the unit arithmetic holds, one elimination step on column `i`
/// leaves an identity matrix exactly as it is: the pivot is on the diagonal,
/// normalizing its row changes nothing, and neither does clearing the column.
pub proof fn lemma_identity_step(n: int, i: int, from: int)
    requires
        unit_arithmetic(),
        0 <= i < n,
    ensures
        first_nonzero_row(identity_grid(n), i, i) == Some(i),
        swapped_rows(identity_grid(n), i, i) == identity_grid(n),
        identity_grid(n)[i][i] == Scalar::spec_one(),
        scaled_row(identity_grid(n), i, Scalar::spec_one().spec_over(Scalar::spec_one()))
            == identity_grid(n),
        eliminated(identity_grid(n), column(identity_grid(n), i), i, from) == identity_grid(n),
{
    let id = identity_grid(n);
    let one = Scalar::spec_one();
    assert(!one.spec_is_zero());
    assert(swapped_rows(id, i, i) =~= id);
    let unit = scaled_row(id, i, one.spec_over(one));
    assert forall|k: int| 0 <= k < n implies (#[trigger] unit[k]) =~= id[k] by {}
    assert(unit =~= id);
    let factors = column(id, i);
    let cleared = eliminated(id, factors, i, from);
    assert forall|k: int| 0 <= k < n implies (#[trigger] cleared[k]) =~= id[k] by {
        if k != i && k >= from {
            assert(factors[k] == Scalar::spec_zero());
            assert(factors[k].spec_negate() == negative_zero());
            assert forall|j: int| 0 <= j < n implies cleared[k][j] == id[k][j] by {}
        }
    }
    assert(cleared =~= id);
}

/// Where the unit arithmetic holds, inverting an identity matrix from any
/// column on yields the identity.
pub proof fn lemma_identity_inverts_from(n: int, i: int)
    requires
        unit_arithmetic(),
        0 <= i <= n,
    ensures
        inverted_from(identity_grid(n), identity_grid(n), n, i) == Some(identity_grid(n)),
    decreases n - i,
{
    if i < n {
        lemma_identity_step(n, i, 0);
        lemma_identity_inverts_from(n, i + 1);
    }
}

/// Where the unit arithmetic holds, elimination on an identity matrix from
/// any column on, with the product of pivots at `1.0`, ends at `1.0`.
pub proof fn lemma_identity_det_from(n: int, i: int)
    requires
        unit_arithmetic(),
        0 <= i <= n,
    ensures
        det_from(identity_grid(n), n, i, Scalar::spec_one()) == Scalar::spec_one(),
    decreases n - i,
{
    if i < n {
        lemma_identity_step(n, i, i + 1);
        lemma_identity_det_from(n, i + 1);
    }
}

/// Where the unit arithmetic holds, every identity matrix is its own
/// inverse and has determinant `1.0`.
pub proof fn lemma_identity_is_its_own_inverse(n: int)
    requires
        unit_arithmetic(),
        0 <= n,
    ensures
        inverse_of(identity_grid(n), n) == Some(identity_grid(n)),
        determinant_of(identity_grid(n), n) == Scalar::spec_one(),
{
    lemma_identity_inverts_from(n, 0);
    lemma_identity_det_from(n, 0);
}

/// Evaluates the unit arithmetic with the engine's own operations. When the
/// answer is `true`, every identity matrix is its own inverse and has
/// determinant `1.0`.
pub fn unit_arithmetic_holds() -> (ok: bool)
    ensures
        ok == unit_arithmetic(),
        ok ==> forall|n: int|
            0 <= n ==> {
                &&& #[trigger] inverse_of(identity_grid(n), n) == Some(identity_grid(n))
                &&& determinant_of(identity_grid(n), n) == Scalar::spec_one()
            },
{
    let zero = Scalar::zero();
    let one = Scalar::one();
    let nzero = Scalar::from_bits(SIGN_BIT);
    let ok = one.over(one).to_bits() == one.to_bits() && one.times(one).to_bits() == one.to_bits()
        && zero.times(one).to_bits() == zero.to_bits() && one.times(nzero).to_bits()
        == nzero.to_bits() && zero.times(nzero).to_bits() == nzero.to_bits() && nzero.plus(
        one,
    ).to_bits() == one.to_bits() && nzero.plus(zero).to_bits() == zero.to_bits();
    proof {
        if ok {
            assert forall|n: int| 0 <= n implies {
                &&& #[trigger] inverse_of(identity_grid(n), n) == Some(identity_grid(n))
                &&& determinant_of(identity_grid(n), n) == Scalar::spec_one()
            } by {
                lemma_identity_is_its_own_inverse(n);
            }
        }
    }
    ok
}

} // verus!
