use qmat::errors::MatrixOperationError;
use qmat::mat::Matrix;

#[test]
fn basic_scalar_2x3() {
    let a = Matrix::<i32, 2, 3, 6>::new([1, 5, 3, 2, 6, 7]).unwrap();
    let b = 4;
    let output = a.mul_scalar(b);
    assert_eq!(*output.as_flat_array(), [4, 20, 12, 8, 24, 28]);
}

#[test]
fn mat_ops_basic_mat_2x2() {
    let a = Matrix::<i32, 2, 2, 4>::new([3, 7, 4, 9]).unwrap();
    let b = Matrix::<i32, 2, 2, 4>::new([6, 2, 5, 8]).unwrap();
    let output = a.multiply::<2, 4, 4>(&b);
    assert_eq!(*output.as_flat_array(), [53, 62, 69, 80]);
}

#[test]
fn basic_mat_3x3() {
    let a = Matrix::<i32, 3, 3, 9>::new([12, 8, 4, 3, 17, 14, 9, 8, 10]).unwrap();
    let b = Matrix::<i32, 3, 3, 9>::new([5, 19, 3, 6, 15, 9, 7, 8, 16]).unwrap();
    let output = a.multiply::<3, 9, 9>(&b);
    assert_eq!(
        *output.as_flat_array(),
        [136, 380, 172, 215, 424, 386, 163, 371, 259]
    );
}

#[test]
fn mat_ops_add_basic_mat_2x2() {
    let a = Matrix::<i32, 3, 3, 9>::new([12, 8, 4, 3, 17, 14, 9, 8, 10]).unwrap();
    let b = Matrix::<i32, 3, 3, 9>::new([5, 19, 3, 6, 15, 9, 7, 8, 16]).unwrap();
    let output = a.add(b);
    assert_eq!(*output.as_flat_array(), [17, 27, 7, 9, 32, 23, 16, 16, 26]);
}

#[test]
fn mat_ops_sub_basic_mat_2x2() {
    let a = Matrix::<i32, 3, 3, 9>::new([12, 8, 4, 3, 17, 14, 9, 8, 10]).unwrap();
    let b = Matrix::<i32, 3, 3, 9>::new([5, 19, 3, 6, 15, 9, 7, 8, 16]).unwrap();
    let output = a.sub(b);
    assert_eq!(*output.as_flat_array(), [7, -11, 1, -3, 2, 5, 2, 0, -6]);
}

#[test]
fn singular_2x2() {
    let mat = Matrix::<i32, 2, 2, 4>::new([3, 6, 2, 4]).unwrap();
    let res = mat.inverse();
    assert!(res.is_err());
    if let Err(e) = res {
        assert_eq!(e, MatrixOperationError::InvalidDeterminant);
    }
}

#[test]
fn multiply_scenario() {
    let a = Matrix::<i32, 2, 2, 4>::new([3, 4, 2, 1]).unwrap();
    let b = Matrix::<i32, 2, 2, 4>::new([1, 5, 3, 7]).unwrap();
    let output = a.multiply::<2, 4, 4>(&b);
    assert_eq!(*output.index([0, 0]), 15);
    assert_eq!(*output.index([0, 1]), 43);
    assert_eq!(*output.index([1, 0]), 5);
    assert_eq!(*output.index([1, 1]), 17);
}

#[test]
fn multiply_non_square() {
    // 2 x 3 times 3 x 1 gives 2 x 1
    let a = Matrix::<i32, 2, 3, 6>::new([1, 2, 3, 4, 5, 6]).unwrap();
    let b = Matrix::<i32, 3, 1, 3>::new([7, 8, 9]).unwrap();
    let output = a.multiply::<1, 3, 2>(&b);
    assert_eq!(*output.as_flat_array(), [50, 122]);
    // 1 x 2 times 2 x 3 gives 1 x 3
    let c = Matrix::<i32, 1, 2, 2>::new([2, -1]).unwrap();
    let d = Matrix::<i32, 2, 3, 6>::new([1, 2, 3, 4, 5, 6]).unwrap();
    assert_eq!(*c.multiply::<3, 6, 3>(&d).as_flat_array(), [-2, -1, 0]);
}

#[test]
fn dot_of_vectors() {
    let vec1 = Matrix::<i32, 3, 1, 3>::new([2, 4, 3]).unwrap();
    let vec2 = Matrix::<i32, 3, 1, 3>::new([1, 3, 3]).unwrap();
    assert_eq!(vec1.dot(&vec2), 23);
    assert_eq!(qmat::math::arr_dot([1i64, -2, 3], [4, 5, 6]), 12);
}

#[test]
fn add_then_sub_gives_back_the_first() {
    let a = Matrix::<i32, 2, 3, 6>::new([3, 17, 128, 5, -9, 0]).unwrap();
    let b = Matrix::<i32, 2, 3, 6>::new([63, 12, 4, 3, 7, -100]).unwrap();
    let back = a.add(b).sub(b);
    assert_eq!(back, a);
    assert_eq!(back.as_flat_array(), a.as_flat_array());
}

#[test]
fn inverse_2x2_with_unit_determinant() {
    // det = 1: the closed form gives the exact inverse
    let mat = Matrix::<i32, 2, 2, 4>::new([2, 1, 1, 1]).unwrap();
    assert_eq!(*mat.inverse().unwrap().as_flat_array(), [1, -1, -1, 2]);
    // det = -1
    let mat = Matrix::<i32, 2, 2, 4>::new([0, 1, 1, 0]).unwrap();
    assert_eq!(*mat.inverse().unwrap().as_flat_array(), [0, 1, 1, 0]);
}

#[test]
fn inverse_2x2_rounds_toward_zero() {
    // det = -19: every element of [[-4, -7], [-1, 3]] / -19 rounds to zero
    let mat = Matrix::<i32, 2, 2, 4>::new([3, 7, 1, -4]).unwrap();
    assert_eq!(*mat.inverse().unwrap().as_flat_array(), [0, 0, 0, 0]);
    // det = 2: [[2, 0], [0, 1]] / 2
    let mat = Matrix::<i32, 2, 2, 4>::new([1, 0, 0, 2]).unwrap();
    assert_eq!(*mat.inverse().unwrap().as_flat_array(), [1, 0, 0, 0]);
    // det = 4: [[6, -4], [-2, 2]] / 4
    let mat = Matrix::<i32, 2, 2, 4>::new([2, 4, 2, 6]).unwrap();
    assert_eq!(*mat.inverse().unwrap().as_flat_array(), [1, -1, 0, 0]);
}

#[test]
fn inverse_gauss_jordan_3x3() {
    let mat = Matrix::<i64, 3, 3, 9>::new([1, 2, 3, 0, 1, 4, 5, 6, 0]).unwrap();
    let inv = mat.inverse().unwrap();
    assert_eq!(*inv.as_flat_array(), [-24, 18, 5, 20, -15, -4, -5, 4, 1]);
    let back = mat.multiply::<3, 9, 9>(&inv);
    assert_eq!(*back.as_flat_array(), [1, 0, 0, 0, 1, 0, 0, 0, 1]);
}

#[test]
fn inverse_gauss_jordan_singular() {
    let mat = Matrix::<i64, 3, 3, 9>::new([1, 2, 3, 2, 4, 6, 0, 0, 1]).unwrap();
    assert_eq!(mat.inverse().err(), Some(MatrixOperationError::InvalidDeterminant));
    // two equal rows, a pivot that does not divide its row
    let mat = Matrix::<i64, 3, 3, 9>::new([2, 1, 0, 2, 1, 0, 0, 0, 1]).unwrap();
    assert_eq!(mat.inverse().err(), Some(MatrixOperationError::InvalidDeterminant));
    let one = Matrix::<i32, 1, 1, 1>::new([0]).unwrap();
    assert_eq!(one.inverse().err(), Some(MatrixOperationError::InvalidDeterminant));
    let one = Matrix::<i32, 1, 1, 1>::new([-1]).unwrap();
    assert_eq!(*one.inverse().unwrap().as_flat_array(), [-1]);
}

#[test]
fn inverse_gauss_jordan_with_row_exchange() {
    let mat = Matrix::<i32, 3, 3, 9>::new([0, 1, 0, 1, 0, 0, 0, 0, 1]).unwrap();
    assert_eq!(*mat.inverse().unwrap().as_flat_array(), [0, 1, 0, 1, 0, 0, 0, 0, 1]);
    // the inverse of diag(2, 4, 8) rounds to zero
    let mat = Matrix::<i32, 3, 3, 9>::new([2, 0, 0, 0, 4, 0, 0, 0, 8]).unwrap();
    assert_eq!(*mat.inverse().unwrap().as_flat_array(), [0; 9]);
}

#[test]
fn empty_matrix_and_unequal() {
    let a = Matrix::<i32, 2, 2, 4>::empty().unwrap();
    let b = Matrix::<i32, 2, 2, 4>::new([0, 0, 0, 1]).unwrap();
    assert_ne!(a, b);
}

#[test]
fn checked_multiply_reports_overflow() {
    let a = Matrix::<i8, 2, 2, 4>::new([3, 4, 2, 1]).unwrap();
    let b = Matrix::<i8, 2, 2, 4>::new([1, 5, 3, 7]).unwrap();
    let output = a.checked_multiply::<2, 4, 4>(&b).unwrap();
    assert_eq!(*output.as_flat_array(), [15, 43, 5, 17]);
    let c = Matrix::<i8, 2, 2, 4>::new([100, 100, 0, 1]).unwrap();
    assert!(c.checked_multiply::<2, 4, 4>(&c).is_none());
    assert_eq!(qmat::math::checked_arr_dot([100i8, 100], [1, 1]), None);
    assert_eq!(qmat::math::checked_arr_dot([10i8, 20], [3, -1]), Some(10));
}

#[test]
fn checked_inverse_reports_overflow() {
    let mat = Matrix::<i32, 2, 2, 4>::new([1, 0, 0, 2]).unwrap();
    assert_eq!(*mat.checked_inverse().unwrap().unwrap().as_flat_array(), [1, 0, 0, 0]);
    let mat = Matrix::<i32, 2, 2, 4>::new([3, 6, 2, 4]).unwrap();
    assert_eq!(
        mat.checked_inverse().unwrap().err(),
        Some(MatrixOperationError::InvalidDeterminant)
    );
    // the determinant's elimination computes 100 * 100, which i8 cannot hold
    let mat = Matrix::<i8, 2, 2, 4>::new([100, 100, 1, 100]).unwrap();
    assert!(mat.checked_inverse().is_none());
    // det = 1, but the adjugate needs -b, which u8 cannot hold
    let mat = Matrix::<u8, 2, 2, 4>::new([1, 1, 0, 1]).unwrap();
    assert!(mat.checked_inverse().is_none());
    let mat = Matrix::<i64, 3, 3, 9>::new([1, 2, 3, 0, 1, 4, 5, 6, 0]).unwrap();
    assert_eq!(
        *mat.checked_inverse().unwrap().unwrap().as_flat_array(),
        [-24, 18, 5, 20, -15, -4, -5, 4, 1]
    );
    // the determinant fits in i8, but Gauss-Jordan without division grows past it
    let mat = Matrix::<i8, 3, 3, 9>::new([-2, -3, 2, -3, -3, -2, -2, -2, 1]).unwrap();
    assert_eq!(mat.checked_det(), Some(-7));
    assert!(mat.checked_inverse().is_none());
}
