use qmat::mat::Matrix;
use qmat::position::Position;

#[test]
fn new_matrix_1() {
    let mat: Matrix<i32, 2, 3, 6> = Matrix::new([0, 1, 2, 3, 4, 5]).unwrap();
    assert_eq!(mat.vol(), 6);
    let mat = Matrix::<_, 2, 3, 6>::new([0, 1, 2, 3, 4, 5]).unwrap();
    assert_eq!(mat.rows(), 2);
}

#[test]
fn new_matrix_2() {
    let mat = Matrix::<i32, 2, 3, 6>::new([0, 1, 2, 3, 4, 5]).unwrap();
    assert_eq!(mat.cols(), 3);
}

#[test]
fn new_matrix_3() {
    let mat = Matrix::<i32, 2, 3, 6>::from_rows([[0, 1, 2], [3, 4, 5]]).unwrap();
    assert_eq!(*mat.as_flat_array(), [0, 1, 2, 3, 4, 5]);
}

#[test]
fn indexing_usize_2() {
    let mat = Matrix::<i32, 2, 3, 6>::from_rows([[0, 1, 2], [3, 4, 5]]).unwrap();
    assert_eq!(*mat.index([1, 1]), 4);
}

#[test]
fn indexing_pos() {
    let mat = Matrix::<i32, 2, 3, 6>::from_rows([[0, 1, 2], [3, 4, 5]]).unwrap();
    let pos = Position(0, 2);
    assert_eq!(*mat.index_pos(pos), 2);
}
