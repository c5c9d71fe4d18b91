use qmat::errors::NewMatrixError;
use qmat::mat::Matrix;
use rand::Rng;

#[test]
fn new_with_illegal_generics() {
    let res = Matrix::<i32, 2, 2, 5>::new([0; 5]);
    assert!(res.is_err());
    if let Err(e) = res {
        assert_eq!(e, NewMatrixError::IllegalGenerics);
    }
}

#[test]
fn as_flat_array() {
    let data = [0, 1, 2, 3, 4, 5];
    let mat = Matrix::<i32, 2, 3, 6>::new(data).unwrap();

    for i in 0..6 {
        assert_eq!(data[i], mat.as_flat_array()[i]);
    }
}

#[test]
fn rows_cols_vol() {
    const M: usize = 5;
    const N: usize = 3;
    let mat = Matrix::<i32, M, N, 15>::new([0; 15]).unwrap();
    assert_eq!(mat.rows(), M);
    assert_eq!(mat.cols(), N);
    assert_eq!(mat.vol(), M * N);
}

#[test]
fn get_row() {
    let mat = Matrix::<i32, 2, 3, 6>::new([0, 1, 2, 3, 4, 5]).unwrap();
    assert_eq!(*mat.get_row(0).as_flat_array(), [0, 1, 2]);
    assert_eq!(*mat.get_row(1).as_flat_array(), [3, 4, 5]);
}

#[test]
fn get_col() {
    let mat = Matrix::<i32, 2, 3, 6>::new([0, 1, 2, 3, 4, 5]).unwrap();
    assert_eq!(*mat.get_col(0).as_flat_array(), [0, 3]);
    assert_eq!(*mat.get_col(1).as_flat_array(), [1, 4]);
    assert_eq!(*mat.get_col(2).as_flat_array(), [2, 5]);
}

#[test]
fn index_mut() {
    const TIMES: usize = 20;
    let mut rng = rand::thread_rng();
    for i in 0..TIMES {
        let mut mat = Matrix::<i32, 2, 3, 6>::new([0, 1, 2, 3, 4, 5]).unwrap();
        let row = i % mat.rows();
        let col = i % mat.cols();
        let val = rng.gen();
        *mat.index_mut([row, col]) = val;
        assert_eq!(*mat.index([row, col]), val);
    }
}

#[test]
fn diag() {
    let mat: Matrix<_, 10, 10, 100> = Matrix::diag(4);
    for i in 0..10 {
        for j in 0..10 {
            if i == j {
                assert_eq!(*mat.index([i, j]), 4);
            } else {
                assert_eq!(*mat.index([i, j]), 0);
            }
        }
    }
}

#[test]
fn construction_keeps_data_for_every_consistent_shape() {
    let data = [9, 8, 7, 6, 5, 4];
    assert_eq!(*Matrix::<i32, 1, 6, 6>::new(data).unwrap().as_flat_array(), data);
    assert_eq!(*Matrix::<i32, 6, 1, 6>::new(data).unwrap().as_flat_array(), data);
    assert_eq!(*Matrix::<i32, 3, 2, 6>::new(data).unwrap().as_flat_array(), data);
    assert_eq!(
        Matrix::<i32, 3, 3, 6>::new(data).err(),
        Some(NewMatrixError::IllegalGenerics)
    );
    assert_eq!(
        Matrix::<i32, 2, 2, 6>::empty().err(),
        Some(NewMatrixError::IllegalGenerics)
    );
    assert_eq!(
        Matrix::<i32, 2, 2, 6>::from_rows([[1, 2], [3, 4]]).err(),
        Some(NewMatrixError::IllegalGenerics)
    );
}

#[test]
fn row_and_col_round_trip() {
    let mat = Matrix::<i32, 3, 4, 12>::new([0, 1, 2, 3, 4, 5, 6, 7, 8, 9, 10, 11]).unwrap();
    for r in 0..3 {
        let row = mat.get_row(r);
        for c in 0..4 {
            assert_eq!(*row.index([c, 0]), *mat.index([r, c]));
        }
    }
    for c in 0..4 {
        let col = mat.get_col(c);
        for r in 0..3 {
            assert_eq!(*col.index([r, 0]), *mat.index([r, c]));
        }
    }
    // the last row of a non-square matrix uses the column count as its stride
    assert_eq!(*mat.get_row(2).as_flat_array(), [8, 9, 10, 11]);
    assert_eq!(*mat.get_col(3).as_flat_array(), [3, 7, 11]);
}

#[test]
fn set_overwrites_one_element() {
    let mut mat = Matrix::<i32, 2, 3, 6>::new([0, 1, 2, 3, 4, 5]).unwrap();
    mat.set([1, 2], 12);
    assert_eq!(*mat.as_flat_array(), [0, 1, 2, 3, 4, 12]);
    mat.set([0, 2], -3);
    assert_eq!(*mat.as_flat_array(), [0, 1, -3, 3, 4, 12]);
}

#[test]
fn clone_keeps_elements() {
    let mat = Matrix::<i32, 2, 2, 4>::new([1, 2, 3, 4]).unwrap();
    let copy = mat.clone();
    assert_eq!(copy.as_flat_array(), mat.as_flat_array());
}

#[test]
fn from_parts_checks_counts_and_length() {
    let data = vec![1, 2, 3, 4, 5, 6];
    let mat = Matrix::<i32, 2, 3, 6>::from_parts(2, 3, &data).unwrap();
    assert_eq!(*mat.as_flat_array(), [1, 2, 3, 4, 5, 6]);
    assert_eq!(
        Matrix::<i32, 2, 3, 6>::from_parts(3, 2, &data).err(),
        Some(NewMatrixError::GenericArgumentMismatch)
    );
    assert_eq!(
        Matrix::<i32, 2, 3, 6>::from_parts(2, 3, &vec![1, 2, 3]).err(),
        Some(NewMatrixError::IllegalArguments)
    );
    assert_eq!(
        Matrix::<i32, 2, 3, 5>::from_parts(2, 3, &data).err(),
        Some(NewMatrixError::IllegalGenerics)
    );
}
