use qmat::mat::Matrix;

#[test]
fn basic_2x2() {
    let mat = Matrix::<i32, 2, 2, 4>::new([0, 1, 2, 3]).unwrap();
    assert_eq!(*mat.index([0, 0]), 0);
    assert_eq!(*mat.index([0, 1]), 1);
    assert_eq!(*mat.index([1, 0]), 2);
    assert_eq!(*mat.index([1, 1]), 3);
}

#[test]
fn basic_4x7() {
    let mut data = [0; 28];
    for i in 0..28 {
        data[i] = i;
    }

    let mat = Matrix::<usize, 4, 7, 28>::new(data).unwrap();
    for (i, val) in mat.as_flat_array().iter().enumerate() {
        assert_eq!(i, *val);
    }
}

#[test]
fn tokentree_2x3() {
    let mat = Matrix::<i32, 2, 3, 6>::from_rows([[0, 1, 2], [3, 4, 5]]).unwrap();
    assert_eq!(mat.rows(), 2);
    assert_eq!(mat.cols(), 3);
    assert_eq!(mat.vol(), 6);
    assert_eq!(*mat.index([0, 0]), 0);
    assert_eq!(*mat.index([0, 1]), 1);
    assert_eq!(*mat.index([0, 2]), 2);
    assert_eq!(*mat.index([1, 0]), 3);
    assert_eq!(*mat.index([1, 1]), 4);
    assert_eq!(*mat.index([1, 2]), 5);
}

#[test]
fn empty() {
    let mat = Matrix::<i8, 4, 3, 12>::empty().unwrap();
    assert_eq!(mat.rows(), 4);
    assert_eq!(mat.cols(), 3);
    assert_eq!(*mat.as_flat_array(), [0i8; 12]);
}
