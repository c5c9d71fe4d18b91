use qmat::mat::Matrix;

#[test]
fn serialize() {
    let mat = Matrix::<_, 2, 2, 4>::new([1, 2, 3, 4]).unwrap();
    let mut fields = serde_json::Map::new();
    fields.insert("rows".to_string(), serde_json::Value::from(mat.rows()));
    fields.insert("cols".to_string(), serde_json::Value::from(mat.cols()));
    fields.insert(
        "data".to_string(),
        serde_json::Value::from(mat.as_flat_array().to_vec()),
    );
    let serialized = serde_json::to_string(&serde_json::Value::Object(fields)).unwrap();
    assert_eq!(serialized, "{\"rows\":2,\"cols\":2,\"data\":[1,2,3,4]}")
}
