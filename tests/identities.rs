use qmat::identities::Identity;
use qmat::mat::Matrix;
use rand::Rng;

const TIMES: usize = 10;

#[test]
fn test_2x2() {
    let mut rng = rand::thread_rng();
    for _ in 0..TIMES {
        let data: [i32; 4] = rng.gen();
        let matrix = Matrix::<_, 2, 2, 4>::new(data).unwrap();
        let id: Matrix<i32, 2, 2, 4> = Matrix::identity();
        assert_eq!(matrix.as_flat_array(), matrix.multiply::<2, 4, 4>(&id).as_flat_array());
    }
}

#[test]
fn identity_on_the_left() {
    let mut rng = rand::thread_rng();
    for _ in 0..TIMES {
        let data: [i64; 9] = [0; 9].map(|_: i64| rng.gen_range(-1000..1000));
        let matrix = Matrix::<_, 3, 3, 9>::new(data).unwrap();
        let id: Matrix<i64, 3, 3, 9> = Matrix::identity();
        assert_eq!(id.multiply::<3, 9, 9>(&matrix).as_flat_array(), &data);
        assert_eq!(matrix.multiply::<3, 9, 9>(&id).as_flat_array(), &data);
    }
}

#[test]
fn scalar_identities() {
    assert_eq!(i8::identity(), 1);
    assert_eq!(i16::identity(), 1);
    assert_eq!(i32::identity(), 1);
    assert_eq!(i64::identity(), 1);
    assert_eq!(i128::identity(), 1);
    assert_eq!(isize::identity(), 1);
    assert_eq!(u8::identity(), 1);
    assert_eq!(u16::identity(), 1);
    assert_eq!(u32::identity(), 1);
    assert_eq!(u64::identity(), 1);
    assert_eq!(u128::identity(), 1);
    assert_eq!(usize::identity(), 1);
    let x: i64 = -77;
    assert_eq!(x, x * i64::identity());
}

#[test]
fn identity_matrices_up_to_5() {
    let m1: Matrix<u8, 1, 1, 1> = Matrix::identity();
    assert_eq!(*m1.as_flat_array(), [1]);
    let m2: Matrix<i16, 2, 2, 4> = Matrix::identity();
    assert_eq!(*m2.as_flat_array(), [1, 0, 0, 1]);
    let m3: Matrix<usize, 3, 3, 9> = Matrix::identity();
    assert_eq!(*m3.as_flat_array(), [1, 0, 0, 0, 1, 0, 0, 0, 1]);
    let m5: Matrix<i128, 5, 5, 25> = Matrix::identity();
    for i in 0..5 {
        for j in 0..5 {
            assert_eq!(*m5.index([i, j]), if i == j { 1 } else { 0 });
        }
    }
}
