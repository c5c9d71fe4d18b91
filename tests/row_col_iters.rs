use qmat::mat::Matrix;

fn three_by_three() -> Matrix<i32, 3, 3, 9> {
    Matrix::from_rows([[0, 1, 2], [3, 4, 5], [6, 7, 8]]).unwrap()
}

#[test]
fn into_iter_row() {
    let mat = three_by_three();
    let mut iter = mat.into_iter_row();

    assert_eq!(
        iter.next(),
        Some(Matrix::<i32, 3, 1, 3>::new([0, 1, 2]).unwrap())
    );
    assert_eq!(
        iter.next(),
        Some(Matrix::<i32, 3, 1, 3>::new([3, 4, 5]).unwrap())
    );
    assert_eq!(
        iter.next(),
        Some(Matrix::<i32, 3, 1, 3>::new([6, 7, 8]).unwrap())
    );

    assert_eq!(iter.next(), None);
}

#[test]
fn iter_row() {
    const ROW_1: [i32; 3] = [0, 1, 2];
    const ROW_2: [i32; 3] = [3, 4, 5];
    const ROW_3: [i32; 3] = [6, 7, 8];

    let mat: Matrix<i32, 3, 3, 9> = Matrix::from_rows([ROW_1, ROW_2, ROW_3]).unwrap();
    let mut iter = mat.iter_row();

    assert_eq!(*iter.next().unwrap().as_flat_array(), [&0, &1, &2]);
    assert_eq!(*iter.next().unwrap().as_flat_array(), [&3, &4, &5]);
    assert_eq!(*iter.next().unwrap().as_flat_array(), [&6, &7, &8]);

    assert!(iter.next().is_none());
}

#[test]
fn into_iter_col() {
    let mat = three_by_three();
    let mut iter = mat.into_iter_col();

    assert_eq!(
        iter.next(),
        Some(Matrix::<i32, 1, 3, 3>::new([0, 3, 6]).unwrap())
    );
    assert_eq!(
        iter.next(),
        Some(Matrix::<i32, 1, 3, 3>::new([1, 4, 7]).unwrap())
    );
    assert_eq!(
        iter.next(),
        Some(Matrix::<i32, 1, 3, 3>::new([2, 5, 8]).unwrap())
    );

    assert_eq!(iter.next(), None);
}

#[test]
fn iter_col() {
    const ROW_1: [i32; 3] = [0, 1, 2];
    const ROW_2: [i32; 3] = [3, 4, 5];
    const ROW_3: [i32; 3] = [6, 7, 8];

    let mat: Matrix<i32, 3, 3, 9> = Matrix::from_rows([ROW_1, ROW_2, ROW_3]).unwrap();
    let mut iter = mat.iter_col();

    assert_eq!(*iter.next().unwrap().as_flat_array(), [&0, &3, &6]);
    assert_eq!(*iter.next().unwrap().as_flat_array(), [&1, &4, &7]);
    assert_eq!(*iter.next().unwrap().as_flat_array(), [&2, &5, &8]);

    assert!(iter.next().is_none());
}

#[test]
fn row_and_col_iterators_count_on_non_square() {
    // a 2 x 3 matrix: row iteration hands out 3 runs of 2, column iteration 2 columns of 3
    let mat = Matrix::<i32, 2, 3, 6>::new([0, 1, 2, 3, 4, 5]).unwrap();
    let mut rows = mat.iter_row();
    assert_eq!(*rows.next().unwrap().as_flat_array(), [&0, &1]);
    assert_eq!(*rows.next().unwrap().as_flat_array(), [&2, &3]);
    assert_eq!(*rows.next().unwrap().as_flat_array(), [&4, &5]);
    for _ in 0..3 {
        assert!(rows.next().is_none());
    }
    let mut cols = mat.into_iter_col();
    assert_eq!(*cols.next().unwrap().as_flat_array(), [0, 2, 4]);
    assert_eq!(*cols.next().unwrap().as_flat_array(), [1, 3, 5]);
    for _ in 0..3 {
        assert!(cols.next().is_none());
    }
    let mut ref_cols = mat.iter_col();
    assert_eq!(*ref_cols.next().unwrap().as_flat_array(), [&0, &2, &4]);
    assert_eq!(*ref_cols.next().unwrap().as_flat_array(), [&1, &3, &5]);
    assert!(ref_cols.next().is_none());
    let mut owned_rows = mat.into_iter_row();
    let mut count = 0;
    while owned_rows.next().is_some() {
        count += 1;
    }
    assert_eq!(count, 3);
    assert_eq!(owned_rows.next(), None);
}
