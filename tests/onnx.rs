use tract_core::datum::DatumType;
use tract_core::errors::TractError;
use tract_core::onnx::{shape_from_onnx, tensor_from_raw, tensor_from_values};

#[test]
fn raw_little_endian_integers() {
    let t = tensor_from_raw(6, &vec![2], &vec![1, 0, 0, 0, 0xfe, 0xff, 0xff, 0xff]).unwrap();
    assert_eq!(t.datum_type, DatumType::I32);
    assert_eq!(t.shape, vec![2]);
    assert_eq!(t.scalars(), Some(vec![1, -2]));
    let u = tensor_from_raw(4, &vec![1], &vec![0x34, 0x12]).unwrap();
    assert_eq!(u.scalars(), Some(vec![0x1234]));
    let b = tensor_from_raw(9, &vec![2], &vec![0, 5]).unwrap();
    assert_eq!(b.scalars(), Some(vec![0, 1]));
    let f = tensor_from_raw(1, &vec![], &1.0f32.to_le_bytes().to_vec()).unwrap();
    assert_eq!(f.scalars(), Some(vec![1.0f32.to_bits() as i64]));
    let d = tensor_from_raw(11, &vec![1], &(-0.0f64).to_le_bytes().to_vec()).unwrap();
    assert_eq!(d.scalars(), Some(vec![i64::MIN]));
}

#[test]
fn raw_errors() {
    assert_eq!(tensor_from_raw(6, &vec![2], &vec![1, 0, 0]).err(), Some(TractError::ParseError));
    assert_eq!(tensor_from_raw(99, &vec![1], &vec![0]).err(), Some(TractError::ParseError));
    assert_eq!(tensor_from_raw(8, &vec![1], &vec![0]).err(), Some(TractError::ParseError));
    assert_eq!(tensor_from_raw(2, &vec![-1], &vec![]).err(), Some(TractError::ParseError));
    assert_eq!(shape_from_onnx(&vec![2, 3]), Ok(vec![2, 3]));
}

#[test]
fn typed_values() {
    let t = tensor_from_values(7, &vec![2], &vec![], &vec![5, -6], &vec![], &vec![]).unwrap();
    assert_eq!(t.scalars(), Some(vec![5, -6]));
    let b = tensor_from_values(9, &vec![3], &vec![0, 2, -1], &vec![], &vec![], &vec![]).unwrap();
    assert_eq!(b.scalars(), Some(vec![0, 1, 1]));
    let f = tensor_from_values(1, &vec![1], &vec![], &vec![], &vec![0.5f32.to_bits()], &vec![]).unwrap();
    assert_eq!(f.scalars(), Some(vec![0.5f32.to_bits() as i64]));
    assert_eq!(tensor_from_values(2, &vec![1], &vec![300], &vec![], &vec![], &vec![]).err(), Some(TractError::NumericError));
    assert!(matches!(tensor_from_values(6, &vec![2], &vec![1], &vec![], &vec![], &vec![]).err(), Some(TractError::ShapeError { .. })));
}
