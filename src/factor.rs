use vstd::prelude::*;
use vstd::std_specs::cmp::PartialEqSpec;
use crate::error::{CholDecompositionError, LUDecompositionError};
use crate::matrix::{symmetric_eq, Matrix};

verus! {

/// The check that opens a Cholesky factorization: only a symmetric matrix
/// may be factored.
pub fn cholesky_precheck<T: Copy + PartialEq>(a: &Matrix<T>) -> (r: Result<(), CholDecompositionError>)
    requires
        a.wf(),
    ensures
        r is Ok ==> a.n_rows == a.n_cols,
        r is Err ==> r == Err::<(), _>(CholDecompositionError::NotSymmetricError),
        T::obeys_eq_spec() ==> (r is Ok <==> symmetric_eq(a@, a.n_rows as int, a.n_cols as int)),
{
    if a.is_symmetric() {
        Ok(())
    } else {
        Err(CholDecompositionError::NotSymmetricError)
    }
}

/// The check that opens an LU factorization: only a square matrix may be
/// factored.
pub fn lu_precheck<T>(a: &Matrix<T>) -> (r: Result<(), LUDecompositionError>)
    ensures
        r is Ok <==> a.n_rows == a.n_cols,
        r is Err ==> r == Err::<(), _>(LUDecompositionError::NotSquareError),
{
    if a.n_rows == a.n_cols {
        Ok(())
    } else {
        Err(LUDecompositionError::NotSquareError)
    }
}

} // verus!
