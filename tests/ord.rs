use qmat::mat::Matrix;

#[test]
fn test_partial_eq() {
    let a = Matrix::<i32, 2, 2, 4>::new([1, 2, 3, 4]).unwrap();
    let b = Matrix::<i32, 2, 2, 4>::new([1, 2, 3, 4]).unwrap();
    assert_eq!(a, b);
}

#[test]
fn test_partial_ne() {
    let a = Matrix::<i32, 2, 2, 4>::new([1, 2, 3, 4]).unwrap();
    let b = Matrix::<i32, 2, 2, 4>::new([1, 2, 2, 4]).unwrap();
    assert_ne!(a, b);
}
