use numerics::{Matrix, Vector};

#[test]
fn test_gen() {
    let a = Matrix::from_gen(2, 2, |i, j| i + j);
    assert_eq!(a[(0, 0)], 0);
    assert_eq!(a[(0, 1)], 1);
    assert_eq!(a[(1, 0)], 1);
    assert_eq!(a[(1, 1)], 2);
}

#[test]
fn test_add() {
    let a = Matrix::from_gen(2, 2, |i, j| (i + j) as i32);
    let b = Matrix::from_gen(2, 2, |i, j| (i as i32 - j as i32));
    let c = &a + &b;
    assert_eq!(c[(0, 0)], 0);
    assert_eq!(c[(0, 1)], 0);
    assert_eq!(c[(1, 0)], 2);
    assert_eq!(c[(1, 1)], 2);
}

#[test]
fn test_sub() {
    let a = Matrix::from_gen(2, 2, |i, j| (i + j) as i32);
    let b = Matrix::from_gen(2, 2, |i, j| (i as i32 - j as i32));
    let c = &a - &b;
    assert_eq!(c[(0, 0)], 0);
    assert_eq!(c[(0, 1)], 2);
    assert_eq!(c[(1, 0)], 0);
    assert_eq!(c[(1, 1)], 2);
}

#[test]
fn test_transpose() {
    let mut a = Matrix::new(2, 2);
    a.set(0, 0, 1);
    a.set(0, 1, 2);
    a.set(1, 0, 3);
    a.set(1, 1, 4);

    let at = a.transpose();
    assert_eq!(at[(0, 0)], 1);
    assert_eq!(at[(0, 1)], 3);
    assert_eq!(at[(1, 0)], 2);
    assert_eq!(at[(1, 1)], 4);
}

#[test]
fn test_is_symmetric() {
    let mut a = Matrix::new(2, 2);
    a.set(0, 0, 1);
    a.set(0, 1, 2);
    a.set(1, 0, 3);
    a.set(1, 1, 4);
    assert!(!a.is_symmetric());

    a.set(0, 0, 1);
    a.set(0, 1, 2);
    a.set(1, 0, 2);
    a.set(1, 1, 4);
    assert!(a.is_symmetric());
}

#[test]
fn test_zeros() {
    let z_i32 = Matrix::<i32>::zeros(3, 3);
    let _i_i64 = Matrix::<i64>::eye(3);

    for i in 0..3 {
        for j in 0..3 {
            assert_eq!(z_i32[(i, j)], 0);
        }
    }
}

#[test]
fn test_ones() {
    let o_i64 = Matrix::<i64>::ones(3, 3);
    for i in 0..3 {
        for j in 0..3 {
            assert_eq!(o_i64[(i, j)], 1);
        }
    }
}

#[test]
fn test_eye() {
    let i_f64 = Matrix::<f64>::eye(3);
    for i in 0..3 {
        for j in 0..3 {
            if i == j {
                assert_eq!(i_f64[(i, j)], 1.0);
            } else {
                assert_eq!(i_f64[(i, j)], 0.0);
            }
        }
    }
}

#[test]
fn transpose_twice_gives_back_the_matrix() {
    let a = Matrix::from_gen(3, 5, |i, j| (i * 10 + j) as i64);
    let t = a.transpose();
    assert_eq!(t.n_rows, 5);
    assert_eq!(t.n_cols, 3);
    assert_eq!(t[(4, 2)], 24);
    let back = t.transpose();
    assert_eq!(back.n_rows, 3);
    assert_eq!(back.n_cols, 5);
    for i in 0..3 {
        for j in 0..5 {
            assert_eq!(back[(i, j)], a[(i, j)]);
        }
    }
}

#[test]
fn transpose_of_empty_shape_swaps_dimensions() {
    let a: Matrix<i32> = Matrix::new(0, 4);
    let t = a.transpose();
    assert_eq!(t.n_rows, 4);
    assert_eq!(t.n_cols, 0);
}

#[test]
fn non_square_is_never_symmetric() {
    let a: Matrix<i32> = Matrix::new(2, 3);
    assert!(!a.is_symmetric());
    let e: Matrix<i32> = Matrix::new(0, 0);
    assert!(e.is_symmetric());
}

#[test]
fn new_is_default_filled() {
    let a: Matrix<u32> = Matrix::new(2, 3);
    assert_eq!(a.n_rows, 2);
    assert_eq!(a.n_cols, 3);
    assert_eq!(a.data.len(), 6);
    for i in 0..2 {
        for j in 0..3 {
            assert_eq!(a.at(i, j), 0);
        }
    }
}

#[test]
fn storage_is_row_major() {
    let a = Matrix::from_gen(2, 3, |i, j| (i * 3 + j) as u32);
    assert_eq!(a.data, vec![0, 1, 2, 3, 4, 5]);
}

#[test]
fn triangular_checks() {
    let mut u: Matrix<i32> = Matrix::new(3, 3);
    u.set(0, 1, 5);
    u.set(1, 1, 2);
    assert!(u.is_upper_triangular());
    assert!(!u.is_lower_triangular());
    let l = u.transpose();
    assert!(l.is_lower_triangular());
    assert!(!l.is_upper_triangular());
    let d: Matrix<i32> = Matrix::eye(3);
    assert!(d.is_upper_triangular());
    assert!(d.is_lower_triangular());
}

#[test]
fn add_and_sub_in_place() {
    let mut a = Matrix::from_gen(2, 2, |i, j| (i + j) as i64);
    let b = Matrix::from_gen(2, 2, |i, j| (i * j) as i64 + 1);
    a.plus_assign(&b);
    assert_eq!(a[(0, 0)], 1);
    assert_eq!(a[(1, 1)], 4);
    a.minus_assign(&b);
    assert_eq!(a[(0, 0)], 0);
    assert_eq!(a[(1, 1)], 2);
}

#[test]
fn vector_arithmetic() {
    let u = Vector::from_vec(&vec![1i32, 2, 3]);
    let v = Vector::from_gen(3, |i| (i as i32) * 10);
    let s = &u + &v;
    assert_eq!(s.data, vec![1, 12, 23]);
    let d = &u - &v;
    assert_eq!(d.data, vec![1, -8, -17]);
    let mut w = Vector::from_vec(&vec![5i32, 5, 5]);
    w.plus_assign(&u);
    assert_eq!(w.data, vec![6, 7, 8]);
    w.minus_assign(&v);
    assert_eq!(w.data, vec![6, -3, -12]);
}

#[test]
fn vector_constructors() {
    let z: Vector<i64> = Vector::new(4);
    assert_eq!(z.n, 4);
    assert_eq!(z.data, vec![0, 0, 0, 0]);
    let g = Vector::from_gen(3, |i| i * i);
    assert_eq!(g[2], 4);
    let mut c = Vector::from_vec(&vec![7u8, 8]);
    c.set(1, 9);
    assert_eq!(c.at(1), 9);
    assert_eq!(c.n, 2);
}

#[test]
fn operators_read_entries() {
    let a = Matrix::from_gen(2, 3, |i, j| (i * 3 + j) as i64);
    let b = Matrix::from_gen(2, 3, |i, j| (i + j) as i64);
    let s = &a + &b;
    let d = &a - &b;
    assert_eq!(s[(1, 2)], 8);
    assert_eq!(d[(1, 2)], 2);
    assert_eq!(s.n_rows, 2);
    assert_eq!(s.n_cols, 3);
    let v = Vector::from_vec(&vec![3u64, 1, 4]);
    assert_eq!(v[2], 4);
}
