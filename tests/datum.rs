use tract_core::datum::DatumType;
use tract_core::dim::TDim;
use tract_core::tensor::{Tensor, TensorData};

#[test]
fn common_super_type_of_signed_and_unsigned() {
    assert_eq!(DatumType::U8.common_super_type(DatumType::I8), Some(DatumType::I16));
    assert_eq!(DatumType::I8.common_super_type(DatumType::U8), Some(DatumType::I16));
    assert_eq!(DatumType::U16.common_super_type(DatumType::I8), Some(DatumType::I32));
    assert_eq!(DatumType::F16.common_super_type(DatumType::F64), Some(DatumType::F64));
    assert_eq!(DatumType::Bool.common_super_type(DatumType::I32), None);
    assert_eq!(DatumType::String.common_super_type(DatumType::String), Some(DatumType::String));
    assert_eq!(DatumType::I64.common_super_type(DatumType::I64), Some(DatumType::I64));
}

#[test]
fn super_type_for_lists() {
    assert_eq!(DatumType::super_type_for(&[]), None);
    assert_eq!(DatumType::super_type_for(&[DatumType::U8, DatumType::I8, DatumType::I32]), Some(DatumType::I32));
    assert_eq!(DatumType::super_type_for(&[DatumType::U8, DatumType::F32]), None);
    assert_eq!(DatumType::super_type_for(&[DatumType::F16]), Some(DatumType::F16));
}

#[test]
fn sizes_and_alignments() {
    assert_eq!(DatumType::I32.size_of(), 4);
    assert_eq!(DatumType::F16.size_of(), 2);
    assert_eq!(DatumType::Bool.alignment(), 1);
    assert_eq!(DatumType::F64.alignment(), 8);
    assert_eq!(DatumType::String.alignment(), std::mem::size_of::<usize>());
    assert_eq!(DatumType::TDim.size_of(), std::mem::size_of::<TDim>());
}

#[test]
fn test_array_to_tensor_to_array() {
    let t = Tensor::from_scalars(DatumType::I32, vec![2], vec![12, 42]).unwrap();
    assert_eq!(t.scalars(), Some(vec![12, 42]));
}

#[test]
fn test_cast_dim_to_dim() {
    let t_dim = Tensor::from_dims(vec![2], vec![TDim::from_int(12), TDim::from_int(42)]).unwrap();
    let t_i32 = t_dim.cast_to(DatumType::I32).unwrap();
    let t_dim_2 = t_i32.cast_to(DatumType::TDim).unwrap();
    assert!(t_dim.same_as(&t_dim_2));
}

#[test]
fn test_cast_i32_to_dim() {
    let t_i32 = Tensor::from_scalars(DatumType::I32, vec![2], vec![0, 0]).unwrap();
    let d = t_i32.cast_to(DatumType::TDim).unwrap();
    match d.data {
        TensorData::Dims(v) => assert_eq!(v, vec![TDim::from_int(0), TDim::from_int(0)]),
        TensorData::Scalars(_) => panic!("expected dimensions"),
    }
}
