//! Error values returned by matrix construction and the square-only
//! operations.

use vstd::prelude::*;

verus! {

/// Why a matrix operation could not produce a result.
#[derive(Clone, Copy, Debug, PartialEq, Eq, Structural)]
pub enum MatrixError {
    /// Construction was given rows of differing lengths.
    UnequalRows,
    /// A square-only operation (determinant, trace, inverse) was given a
    /// non-square matrix.
    NotSquare,
    /// Inversion was attempted on a matrix with no multiplicative inverse.
    Singular,
}

} // verus!
