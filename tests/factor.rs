use numerics::factor::{cholesky_precheck, lu_precheck};
use numerics::{CholDecompositionError, LUDecompositionError, Matrix};

#[test]
fn test_cholesky_non_symmetric() {
    let mut m: Matrix<f32> = Matrix::new(2, 2);
    m.set(0, 0, 1.0);
    m.set(0, 1, 1.0);
    m.set(1, 0, 0.0);
    m.set(1, 1, 1.0);

    let chol = cholesky_precheck(&m);
    assert!(chol.is_err());
    assert_eq!(chol.unwrap_err(), CholDecompositionError::NotSymmetricError);
}

#[test]
fn symmetric_matrix_passes_cholesky_precheck() {
    let m = Matrix::from_gen(3, 3, |i, j| (i + j) as f64);
    assert_eq!(cholesky_precheck(&m), Ok(()));
}

#[test]
fn test_lu_not_square() {
    let mut m: Matrix<f32> = Matrix::new(2, 3);
    m.set(0, 0, 1.0);
    m.set(0, 1, 1.0);
    m.set(0, 2, 0.0);
    m.set(1, 0, 0.0);
    m.set(1, 1, 1.0);
    m.set(1, 2, 1.0);

    let lu = lu_precheck(&m);
    assert!(lu.is_err());
    assert_eq!(lu.unwrap_err(), LUDecompositionError::NotSquareError);
}

#[test]
fn square_matrix_passes_lu_precheck() {
    let m: Matrix<f32> = Matrix::new(3, 3);
    assert_eq!(lu_precheck(&m), Ok(()));
}
