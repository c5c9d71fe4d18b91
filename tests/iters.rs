use qmat::mat::Matrix;
use rand::Rng;

fn two_by_three() -> Matrix<i32, 2, 3, 6> {
    Matrix::from_rows([[0, 1, 2], [3, 4, 5]]).unwrap()
}

#[test]
fn iters_basic_test() {
    let mat = two_by_three();
    let mut iter = mat.into_iter();
    assert_eq!(iter.next().unwrap(), 0);
    assert_eq!(iter.next().unwrap(), 1);
    assert_eq!(iter.next().unwrap(), 2);
    assert_eq!(iter.next().unwrap(), 3);
    assert_eq!(iter.next().unwrap(), 4);
    assert_eq!(iter.next().unwrap(), 5);
    assert_eq!(iter.next(), None);
}

#[test]
fn iters_double() {
    let mut rng = rand::thread_rng();
    const M: usize = 4;
    const N: usize = 8;
    let mut data: [i32; M * N] = [0; M * N];
    for x in data.iter_mut().take(1) {
        *x = rng.gen_range(-5000..5000);
    }
    let mat = Matrix::<_, M, N, { M * N }>::new(data).unwrap();

    let mut iter = mat.into_iter();
    while let Some(x) = iter.next() {
        assert_eq!((x * 2) % 2, 0);
    }
}

#[test]
fn iters_basic_test_by_ref() {
    let mat = two_by_three();
    let mut iter = mat.iter();
    assert_eq!(*iter.next().unwrap(), 0);
    assert_eq!(*iter.next().unwrap(), 1);
    assert_eq!(*iter.next().unwrap(), 2);
    assert_eq!(*iter.next().unwrap(), 3);
    assert_eq!(*iter.next().unwrap(), 4);
    assert_eq!(*iter.next().unwrap(), 5);
    assert_eq!(iter.next(), None);
}

#[test]
fn iters_double_by_ref() {
    let mut rng = rand::thread_rng();
    const M: usize = 4;
    const N: usize = 8;
    let mut data: [i32; M * N] = [0; M * N];
    for x in data.iter_mut().take(1) {
        *x = rng.gen_range(-5000..5000);
    }
    let mat = Matrix::<_, M, N, { M * N }>::new(data).unwrap();

    let mut iter = mat.iter();
    while let Some(x) = iter.next() {
        assert_eq!((x * 2) % 2, 0);
    }
}

#[test]
fn element_iterators_stay_exhausted() {
    let mat = two_by_three();
    let mut iter = mat.iter();
    let mut count = 0;
    while iter.next().is_some() {
        count += 1;
    }
    assert_eq!(count, 6);
    for _ in 0..3 {
        assert_eq!(iter.next(), None);
    }
    let mut owned = mat.into_iter();
    for _ in 0..6 {
        assert!(owned.next().is_some());
    }
    for _ in 0..3 {
        assert_eq!(owned.next(), None);
    }
}
