use qmat::mat::Matrix;

#[test]
fn det_2x2_nonzero_a() {
    let mat = Matrix::<i32, 2, 2, 4>::new([3, 7, 1, -4]).unwrap();
    assert_eq!(mat.det(), -19);
}

#[test]
fn det_2x2_singular_a() {
    let mat = Matrix::<i32, 2, 2, 4>::new([3, 6, 2, 4]).unwrap();
    assert_eq!(mat.det(), 0);
}

#[test]
fn det_3x3_nonzero_a() {
    let mat = Matrix::<i32, 3, 3, 9>::new([2, -3, 1, 2, 0, -1, 1, 4, 5]).unwrap();
    assert_eq!(mat.det(), 49)
}

#[test]
fn det_3x3_nonzero_b() {
    let mat = Matrix::<i32, 3, 3, 9>::new([1, 3, 2, -3, -1, -3, 2, 3, 1]).unwrap();
    assert_eq!(mat.det(), -15)
}

#[test]
fn det_3x3_nonzero_c() {
    let mat = Matrix::<i32, 3, 3, 9>::new([1, 2, 3, 3, 2, 1, 2, 1, 3]).unwrap();
    assert_eq!(mat.det(), -12)
}

#[test]
fn det_needs_row_exchange() {
    // the first column's pivot sits in the second row: one exchange flips the sign
    let mat = Matrix::<i64, 2, 2, 4>::new([0, 2, 3, 5]).unwrap();
    assert_eq!(mat.det(), -6);
    let mat = Matrix::<i64, 3, 3, 9>::new([0, 1, 2, 1, 0, 3, 4, -3, 8]).unwrap();
    assert_eq!(mat.det(), -2);
}

#[test]
fn det_column_without_pivot_is_zero() {
    let mat = Matrix::<i32, 3, 3, 9>::new([0, 1, 2, 0, 3, 4, 0, 5, 6]).unwrap();
    assert_eq!(mat.det(), 0);
}

#[test]
fn det_leaves_source_unchanged() {
    let mat = Matrix::<i32, 2, 2, 4>::new([0, 2, 3, 5]).unwrap();
    let _ = mat.det();
    assert_eq!(*mat.as_flat_array(), [0, 2, 3, 5]);
}

#[test]
fn det_of_identity_and_unsigned() {
    let mat = Matrix::<u32, 3, 3, 9>::diag(1);
    assert_eq!(mat.det(), 1);
    let mat = Matrix::<u8, 1, 1, 1>::new([7]).unwrap();
    assert_eq!(mat.det(), 7);
}

#[test]
fn checked_det_reports_overflow() {
    let mat = Matrix::<i8, 2, 2, 4>::new([3, 7, 1, -4]).unwrap();
    assert_eq!(mat.checked_det(), Some(-19));
    // the elimination computes 100 * 100, which i8 cannot hold
    let mat = Matrix::<i8, 2, 2, 4>::new([100, 100, 1, 100]).unwrap();
    assert_eq!(mat.checked_det(), None);
    // a row exchange needs -1, which u8 cannot hold
    let mat = Matrix::<u8, 2, 2, 4>::new([0, 2, 3, 5]).unwrap();
    assert_eq!(mat.checked_det(), None);
    let mat = Matrix::<i32, 3, 3, 9>::new([2, -3, 1, 2, 0, -1, 1, 4, 5]).unwrap();
    assert_eq!(mat.checked_det(), Some(49));
}
