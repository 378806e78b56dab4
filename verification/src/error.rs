//! The errors the engine reports.

use vstd::prelude::*;

verus! {

/// Why an operation refused its input.
#[derive(Clone, Copy, Debug, PartialEq, Eq, Structural)]
pub enum MatrixError {
    /// The textual encoding is malformed: a count or a value token is
    /// missing, superfluous or not numeric, or the declared shape is empty
    /// or too large to address.
    FormatError,
    /// The inner dimensions of a matrix product differ.
    DimensionMismatch,
}

} // verus!
