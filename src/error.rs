use vstd::prelude::*;

verus! {

/// Why a Cholesky factorization was refused.
#[derive(Debug, Clone, Copy, PartialEq, Eq, Structural)]
pub enum CholDecompositionError {
    /// The matrix is not equal to its transpose.
    NotSymmetricError,
    /// A diagonal pivot came out negative: the matrix is not positive definite.
    NotPositiveDefiniteError,
}

/// Why an LU factorization was refused.
#[derive(Debug, Clone, Copy, PartialEq, Eq, Structural)]
pub enum LUDecompositionError {
    /// Only square matrices are factored.
    NotSquareError,
}

} // verus!
