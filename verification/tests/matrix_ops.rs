//! Exercises construction, access, transpose, elementwise arithmetic,
//! multiplication, and the scalar broadcast mutators.

use dense_matrix::matrix::{Matrix, MatrixError};

fn matrix(rows: usize, cols: usize, data: Vec<i64>) -> Matrix {
    Matrix::new(rows, cols, data).unwrap()
}

fn cells(m: &Matrix, rows: usize, cols: usize) -> Vec<i64> {
    let mut out = Vec::new();
    for r in 0..rows {
        for c in 0..cols {
            out.push(m.at(r, c).unwrap());
        }
    }
    out
}

#[test]
fn new_accepts_matching_buffer() {
    let m = matrix(2, 3, vec![1, 2, 3, 4, 5, 6]);
    assert_eq!(m.at(0, 0).unwrap(), 1);
    assert_eq!(m.at(1, 2).unwrap(), 6);
}

#[test]
fn new_rejects_short_buffer() {
    let r = Matrix::new(2, 2, vec![1, 2, 3]);
    assert_eq!(r.unwrap_err(), MatrixError::DimensionMismatch);
}

#[test]
fn new_rejects_long_buffer() {
    let r = Matrix::new(1, 2, vec![1, 2, 3]);
    assert_eq!(r.unwrap_err(), MatrixError::DimensionMismatch);
}

#[test]
fn same_dims_compares_shapes() {
    let a = matrix(2, 3, vec![0; 6]);
    let b = matrix(2, 3, vec![9; 6]);
    let c = matrix(3, 2, vec![0; 6]);
    assert!(a.same_dims(&b));
    assert!(!a.same_dims(&c));
}

#[test]
fn at_rejects_out_of_bounds() {
    let m = matrix(2, 2, vec![1, 2, 3, 4]);
    assert_eq!(m.at(2, 0).unwrap_err(), MatrixError::IndexOutOfBounds);
    assert_eq!(m.at(0, 2).unwrap_err(), MatrixError::IndexOutOfBounds);
}

#[test]
fn get_reads_flat_indices() {
    let m = matrix(2, 2, vec![10, 20, 30, 40]);
    assert_eq!(m.get(0).unwrap(), 10);
    assert_eq!(m.get(3).unwrap(), 40);
    assert_eq!(m.get(4).unwrap_err(), MatrixError::IndexOutOfBounds);
}

#[test]
fn zeros_fills_with_zero() {
    let seed = matrix(0, 0, vec![]);
    let z = seed.zeros(2, 3);
    for r in 0..2 {
        for c in 0..3 {
            assert_eq!(z.at(r, c).unwrap(), 0);
        }
    }
    assert_eq!(z.get(6).unwrap_err(), MatrixError::IndexOutOfBounds);
}

#[test]
fn ones_fills_with_one() {
    let seed = matrix(0, 0, vec![]);
    let o = seed.ones(3, 2);
    assert_eq!(cells(&o, 3, 2), vec![1; 6]);
}

#[test]
fn ns_fills_with_given_value() {
    let seed = matrix(0, 0, vec![]);
    let m = seed.ns(2, 2, -7);
    assert_eq!(cells(&m, 2, 2), vec![-7; 4]);
}

#[test]
fn fill_replaces_every_entry() {
    let mut m = matrix(2, 3, vec![1, 2, 3, 4, 5, 6]);
    m.fill(9);
    assert_eq!(cells(&m, 2, 3), vec![9; 6]);
}

#[test]
fn idx_computes_row_major_index() {
    let m = matrix(2, 3, vec![0; 6]);
    assert_eq!(m.idx(0, 0), 0);
    assert_eq!(m.idx(1, 2), 5);
}

#[test]
fn transpose_mirrors_entries() {
    let m = matrix(2, 3, vec![1, 2, 3, 4, 5, 6]);
    let t = m.transpose();
    assert_eq!(cells(&t, 3, 2), vec![1, 4, 2, 5, 3, 6]);
}

#[test]
fn t_matches_transpose() {
    let m = matrix(2, 2, vec![1, 2, 3, 4]);
    assert_eq!(cells(&m.t(), 2, 2), cells(&m.transpose(), 2, 2));
}

#[test]
fn transpose_twice_restores_matrix() {
    let m = matrix(2, 3, vec![1, -2, 3, -4, 5, -6]);
    let back = m.transpose().transpose();
    assert_eq!(cells(&back, 2, 3), vec![1, -2, 3, -4, 5, -6]);
}

#[test]
fn add_sums_elementwise() {
    let a = matrix(2, 2, vec![1, 2, 3, 4]);
    let b = matrix(2, 2, vec![10, 20, 30, 40]);
    let s = a.add(&b).unwrap();
    assert_eq!(cells(&s, 2, 2), vec![11, 22, 33, 44]);
}

#[test]
fn add_rejects_shape_mismatch() {
    let a = matrix(2, 3, vec![0; 6]);
    let b = matrix(3, 2, vec![0; 6]);
    assert_eq!(a.add(&b).unwrap_err(), MatrixError::DimensionMismatch);
}

#[test]
fn sub_rejects_shape_mismatch() {
    let a = matrix(2, 3, vec![0; 6]);
    let b = matrix(3, 2, vec![0; 6]);
    assert_eq!(a.sub(&b).unwrap_err(), MatrixError::DimensionMismatch);
}

#[test]
fn add_then_sub_restores_matrix() {
    let a = matrix(2, 3, vec![5, -1, 0, 7, 2, -9]);
    let b = matrix(2, 3, vec![3, 3, -4, 10, 0, 1]);
    let d = a.add(&b).unwrap().sub(&b).unwrap();
    assert_eq!(cells(&d, 2, 3), vec![5, -1, 0, 7, 2, -9]);
}

#[test]
fn mult_computes_product() {
    let a = matrix(2, 2, vec![1, 2, 3, 4]);
    let b = matrix(2, 2, vec![5, 6, 7, 8]);
    let p = a.mult(&b).unwrap();
    assert_eq!(cells(&p, 2, 2), vec![19, 22, 43, 50]);
}

#[test]
fn mult_rejects_incompatible_shapes() {
    let a = matrix(2, 3, vec![0; 6]);
    let b = matrix(2, 2, vec![0; 4]);
    assert_eq!(a.mult(&b).unwrap_err(), MatrixError::IncompatibleDimensions);
}

#[test]
fn mult_by_identity_keeps_matrix() {
    let a = matrix(2, 2, vec![9, -3, 4, 7]);
    let id = matrix(2, 2, vec![1, 0, 0, 1]);
    let p = a.mult(&id).unwrap();
    assert_eq!(cells(&p, 2, 2), vec![9, -3, 4, 7]);
}

#[test]
fn mult_non_square_shapes() {
    let a = matrix(1, 3, vec![1, 2, 3]);
    let b = matrix(3, 1, vec![4, 5, 6]);
    let p = a.mult(&b).unwrap();
    assert_eq!(cells(&p, 1, 1), vec![32]);
}

#[test]
fn div_divides_elementwise_toward_zero() {
    let a = matrix(2, 2, vec![7, -7, 6, -6]);
    let b = matrix(2, 2, vec![2, 2, -2, -2]);
    let q = a.div(&b).unwrap();
    assert_eq!(cells(&q, 2, 2), vec![3, -3, -3, 3]);
}

#[test]
fn div_rejects_zero_divisor_entry() {
    let a = matrix(2, 2, vec![1, 2, 3, 4]);
    let b = matrix(2, 2, vec![1, 0, 1, 1]);
    assert_eq!(a.div(&b).unwrap_err(), MatrixError::DivisionByZero);
}

#[test]
fn div_rejects_shape_mismatch() {
    let a = matrix(2, 3, vec![1; 6]);
    let b = matrix(3, 2, vec![1; 6]);
    assert_eq!(a.div(&b).unwrap_err(), MatrixError::DimensionMismatch);
}

#[test]
fn add_by_shifts_every_entry() {
    let mut m = matrix(2, 2, vec![1, 2, 3, 4]);
    m.add_by(5);
    assert_eq!(cells(&m, 2, 2), vec![6, 7, 8, 9]);
}

#[test]
fn sub_by_shifts_every_entry() {
    let mut m = matrix(2, 2, vec![6, 7, 8, 9]);
    m.sub_by(5);
    assert_eq!(cells(&m, 2, 2), vec![1, 2, 3, 4]);
}

#[test]
fn mult_by_scales_every_entry() {
    let mut m = matrix(2, 2, vec![1, -2, 3, -4]);
    m.mult_by(3);
    assert_eq!(cells(&m, 2, 2), vec![3, -6, 9, -12]);
}

#[test]
fn div_by_scales_every_entry() {
    let mut m = matrix(2, 2, vec![7, -7, 9, -9]);
    assert!(m.div_by(2).is_ok());
    assert_eq!(cells(&m, 2, 2), vec![3, -3, 4, -4]);
}

#[test]
fn div_by_zero_leaves_matrix_unchanged() {
    let mut m = matrix(2, 2, vec![1, 2, 3, 4]);
    assert_eq!(m.div_by(0).unwrap_err(), MatrixError::DivisionByZero);
    assert_eq!(cells(&m, 2, 2), vec![1, 2, 3, 4]);
}

#[test]
fn rand_respects_given_bounds() {
    let m = Matrix::rand(3, 3, Some(-4), Some(4));
    for v in cells(&m, 3, 3) {
        assert!((-4..=4).contains(&v));
    }
}

#[test]
fn rand_with_equal_bounds_is_constant() {
    let m = Matrix::rand(2, 2, Some(5), Some(5));
    assert_eq!(cells(&m, 2, 2), vec![5; 4]);
}

#[test]
fn rand_defaults_to_zero_through_one_thousand() {
    let m = Matrix::rand(4, 4, None, None);
    for v in cells(&m, 4, 4) {
        assert!((0..=1000).contains(&v));
    }
}
