//! Dense matrices and vectors with verified linear-algebra kernels.
//!
//! - `matrix`, `vector`: row-major containers with bounds-checked access,
//!   transpose and the symmetry and triangularity checks.
//! - `scalar`: the integer element types whose arithmetic the kernels reason about.
//! - `gemm`: dot product, matrix-vector and matrix-matrix products, the latter
//!   both tiled and as a plain triple loop, proved to agree.
//! - `elementwise`: entrywise sums and differences.
//! - `factor`: the checks that open a Cholesky or LU factorization.
//! - `error`: the ways a factorization can be refused.
pub mod elementwise;
pub mod error;
pub mod factor;
pub mod gemm;
pub mod matrix;
pub mod scalar;
pub mod vector;

pub use error::{CholDecompositionError, LUDecompositionError};
pub use matrix::Matrix;
pub use vector::Vector;
