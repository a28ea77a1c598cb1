use numerics::gemm::{dot, gemm, gemm_tiled, gemv, matmul};
use numerics::{Matrix, Vector};

#[test]
fn matmul_small() {
    let a = Matrix::from_gen(2, 2, |i, j| i + j);
    let b = Matrix::from_gen(2, 2, |i, j| i + j);

    let c = matmul(&a, &b);
    assert_eq!(c[(0, 0)], 1);
    assert_eq!(c[(0, 1)], 2);
    assert_eq!(c[(1, 0)], 2);
    assert_eq!(c[(1, 1)], 5);
}

#[test]
fn matmul_dims() {
    let a = Matrix::from_gen(2, 3, |i, j| i + j);
    let b = Matrix::from_gen(3, 2, |i, j| i + j);

    let c = matmul(&a, &b);
    assert_eq!(c.n_rows, 2);
    assert_eq!(c.n_cols, 2);

    assert_eq!(c[(0, 0)], 5);
    assert_eq!(c[(0, 1)], 8);
    assert_eq!(c[(1, 0)], 8);
    assert_eq!(c[(1, 1)], 14);
}

#[test]
fn gemm_matmul_small() {
    let a = Matrix::from_gen(2, 2, |i, j| i + j);
    let b = Matrix::from_gen(2, 2, |i, j| i + j);

    let c = gemm(&a, &b);
    assert_eq!(c[(0, 0)], 1);
    assert_eq!(c[(0, 1)], 2);
    assert_eq!(c[(1, 0)], 2);
    assert_eq!(c[(1, 1)], 5);
}

#[test]
fn gemm_matmul_dims() {
    let a = Matrix::from_gen(2, 3, |i, j| i + j);
    let b = Matrix::from_gen(3, 2, |i, j| i + j);

    let c = gemm(&a, &b);
    assert_eq!(c.n_rows, 2);
    assert_eq!(c.n_cols, 2);

    assert_eq!(c[(0, 0)], 5);
    assert_eq!(c[(0, 1)], 8);
    assert_eq!(c[(1, 0)], 8);
    assert_eq!(c[(1, 1)], 14);
}

fn naive(a: &Matrix<i64>, b: &Matrix<i64>) -> Vec<i64> {
    let mut out = Vec::new();
    for i in 0..a.n_rows {
        for j in 0..b.n_cols {
            let mut s = 0i64;
            for k in 0..a.n_cols {
                s += a[(i, k)] * b[(k, j)];
            }
            out.push(s);
        }
    }
    out
}

#[test]
fn tiled_product_matches_triple_loop_for_every_tile() {
    let a = Matrix::from_gen(5, 7, |i, j| (i as i64) * 3 - (j as i64) * 2 + 1);
    let b = Matrix::from_gen(7, 4, |i, j| (i as i64 + 2 * j as i64) % 5 - 2);
    let expected = naive(&a, &b);
    let plain = matmul(&a, &b);
    for tile in 1..10 {
        let c = gemm_tiled(&a, &b, tile);
        assert_eq!(c.n_rows, 5);
        assert_eq!(c.n_cols, 4);
        for i in 0..5 {
            for j in 0..4 {
                assert_eq!(c[(i, j)], expected[i * 4 + j]);
                assert_eq!(c[(i, j)], plain[(i, j)]);
            }
        }
    }
}

#[test]
fn gemm_on_rectangular_exact_values() {
    // [[1, 2, 3], [4, 5, 6]] * [[7, 8], [9, 10], [11, 12]] = [[58, 64], [139, 154]]
    let a = Matrix::from_gen(2, 3, |i, j| (i * 3 + j + 1) as i32);
    let b = Matrix::from_gen(3, 2, |i, j| (i * 2 + j + 7) as i32);
    let c = gemm(&a, &b);
    assert_eq!(c[(0, 0)], 58);
    assert_eq!(c[(0, 1)], 64);
    assert_eq!(c[(1, 0)], 139);
    assert_eq!(c[(1, 1)], 154);
}

#[test]
fn gemm_with_empty_inner_dimension_is_zero() {
    let a: Matrix<i64> = Matrix::new(2, 0);
    let b: Matrix<i64> = Matrix::new(0, 3);
    let c = gemm(&a, &b);
    assert_eq!(c.n_rows, 2);
    assert_eq!(c.n_cols, 3);
    for i in 0..2 {
        for j in 0..3 {
            assert_eq!(c[(i, j)], 0);
        }
    }
}

#[test]
fn gemm_of_empty_matrices() {
    let a: Matrix<u64> = Matrix::new(0, 0);
    let c = gemm(&a, &a);
    assert_eq!(c.n_rows, 0);
    assert_eq!(c.n_cols, 0);
}

#[test]
fn gemm_larger_than_one_tile() {
    let n = 70;
    let a = Matrix::from_gen(n, n, |i, j| ((i * 7 + j * 3) % 11) as i64 - 5);
    let b = Matrix::from_gen(n, n, |i, j| ((i + j * 5) % 13) as i64 - 6);
    let c = gemm(&a, &b);
    let d = matmul(&a, &b);
    let expected = naive(&a, &b);
    for i in 0..n {
        for j in 0..n {
            assert_eq!(c[(i, j)], expected[i * n + j]);
            assert_eq!(d[(i, j)], expected[i * n + j]);
        }
    }
}

#[test]
fn dot_exact_value() {
    let u = Vector::from_vec(&vec![1i64, 2, 3]);
    let v = Vector::from_vec(&vec![4i64, -5, 6]);
    assert_eq!(dot(&u, &v), 12);
}

#[test]
fn dot_of_empty_vectors_is_zero() {
    let u: Vector<i32> = Vector::new(0);
    assert_eq!(dot(&u, &u), 0);
}

#[test]
fn gemv_exact_values() {
    // [[0, 1, 2], [1, 2, 3]] * [1, 2, 3] = [8, 14]
    let a = Matrix::from_gen(2, 3, |i, j| (i + j) as i64);
    let x = Vector::from_gen(3, |i| (i + 1) as i64);
    let y = gemv(&a, &x);
    assert_eq!(y.n, 2);
    assert_eq!(y[0], 8);
    assert_eq!(y[1], 14);
}
