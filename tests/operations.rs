use qmat::mat::Matrix;

#[test]
fn mul_scalar() {
    let mut mat = Matrix::<i32, 2, 2, 4>::new([3, 5, 2, 7]).unwrap();
    mat = mat.mul_scalar(2);
    assert_eq!(*mat.as_flat_array(), [6, 10, 4, 14]);
}

#[test]
fn mul_scalar_by_zero_and_negative() {
    let mat = Matrix::<i64, 1, 3, 3>::new([0, 1, 2]).unwrap();
    assert_eq!(*mat.mul_scalar(3).as_flat_array(), [0, 3, 6]);
    assert_eq!(*mat.mul_scalar(0).as_flat_array(), [0, 0, 0]);
    assert_eq!(*mat.mul_scalar(-5).as_flat_array(), [0, -5, -10]);
}
