//! The errors that building a matrix or operating on one can give.

use vstd::prelude::*;

verus! {

/// Why a matrix could not be built.
#[derive(Debug, Clone, Copy, PartialEq, Eq, Structural)]
pub enum NewMatrixError {
    /// The given arguments are not consistent with each other (`rows * cols != data.len()`).
    IllegalArguments,
    /// The shape parameters are not consistent with each other (`M * N != LEN`).
    IllegalGenerics,
    /// The shape parameters do not agree with the given arguments.
    GenericArgumentMismatch,
}

/// Why a matrix operation could not be carried out.
#[derive(Debug, Clone, Copy, PartialEq, Eq, Structural)]
pub enum MatrixOperationError {
    /// The determinant does not allow the operation (a singular matrix has no inverse).
    InvalidDeterminant,
}

} // verus!
