use tract_core::datum::DatumType;
use tract_core::dim::TDim;
use tract_core::errors::{Attribute, TractError};
use tract_core::fact::{unify, unify_datatype, unify_shape, unify_value, DimFact, ShapeFact, TensorFact, TypeFact, ValueFact};
use tract_core::tensor::Tensor;

fn dim(v: i64) -> DimFact {
    DimFact::Only(TDim::from_int(v))
}

fn fact(dt: TypeFact, open: bool, dims: Vec<DimFact>) -> TensorFact {
    TensorFact { datum_type: dt, shape: ShapeFact { open, dims }, value: ValueFact::Any }
}

#[test]
fn unify_is_symmetric_and_merges() {
    let x = fact(TypeFact::Only(DatumType::I32), true, vec![dim(2), DimFact::Any]);
    let y = fact(TypeFact::Any, false, vec![DimFact::Any, dim(3), dim(4)]);
    let xy = unify(&x, &y).unwrap();
    let yx = unify(&y, &x).unwrap();
    assert!(xy.same_as(&yx));
    assert_eq!(xy.datum_type, TypeFact::Only(DatumType::I32));
    assert!(!xy.shape.open);
    assert_eq!(xy.shape.dims, vec![dim(2), dim(3), dim(4)]);
}

#[test]
fn unify_with_itself_and_with_nothing() {
    let x = fact(TypeFact::Only(DatumType::F32), false, vec![dim(1), DimFact::Any]);
    assert!(unify(&x, &x).unwrap().same_as(&x));
    assert!(unify(&x, &TensorFact::new()).unwrap().same_as(&x));
    assert!(unify(&TensorFact::new(), &x).unwrap().same_as(&x));
}

#[test]
fn unify_contradictions() {
    let x = fact(TypeFact::Only(DatumType::F32), true, vec![]);
    let y = fact(TypeFact::Only(DatumType::I32), true, vec![]);
    assert_eq!(unify(&x, &y).err(), Some(Attribute::DatumType));
    assert_eq!(unify_datatype(&TypeFact::Only(DatumType::U8), &TypeFact::Only(DatumType::U16)), Err(Attribute::DatumType));
    let a = ShapeFact { open: false, dims: vec![dim(2)] };
    let b = ShapeFact { open: false, dims: vec![dim(2), dim(3)] };
    assert_eq!(unify_shape(&a, &b).err(), Some(Attribute::Rank));
    let c = ShapeFact { open: true, dims: vec![dim(5)] };
    assert_eq!(unify_shape(&a, &c).err(), Some(Attribute::Dim));
    let t1 = ValueFact::Only(Tensor::from_scalars(DatumType::I32, vec![1], vec![1]).unwrap());
    let t2 = ValueFact::Only(Tensor::from_scalars(DatumType::I32, vec![1], vec![2]).unwrap());
    assert_eq!(unify_value(&t1, &t2).err(), Some(Attribute::Value));
    assert!(unify_value(&t1, &ValueFact::Any).is_ok());
}

#[test]
fn fact_from_onnx_type() {
    let f = TensorFact::from_onnx(Some(1), Some(vec![1, 3])).unwrap();
    assert_eq!(f.datum_type, TypeFact::Only(DatumType::F32));
    assert!(!f.shape.open);
    assert_eq!(f.shape.dims, vec![dim(1), dim(3)]);
    let g = TensorFact::from_onnx(None, None).unwrap();
    assert_eq!(g.datum_type, TypeFact::Any);
    assert!(g.shape.open);
    assert_eq!(TensorFact::from_onnx(Some(99), None).err(), Some(TractError::ParseError));
    assert_eq!(DatumType::from_onnx(9), Ok(DatumType::Bool));
    assert_eq!(DatumType::from_onnx(0), Err(TractError::ParseError));
}

#[test]
fn dimension_algebra() {
    let s = TDim::stream();
    let three = TDim::from_int(3);
    let e = s.checked_mul(&three).unwrap().checked_add(&TDim::from_int(6)).unwrap();
    assert_eq!(e, TDim { sym: 3, konst: 6 });
    assert_eq!(e.to_integer(), None);
    assert_eq!(e.div(3), Some(TDim { sym: 1, konst: 2 }));
    assert_eq!(e.div(4), None);
    assert_eq!(e.rem(3), Some(TDim::from_int(0)));
    assert_eq!(TDim::from_int(-7).div(2), Some(TDim::from_int(-4)));
    assert_eq!(TDim::from_int(7).rem(4), Some(TDim::from_int(3)));
    assert_eq!(s.checked_mul(&s), None);
    assert_eq!(e.substitute(10), Some(TDim::from_int(36)));
    assert_eq!(e.checked_sub(&e), Some(TDim::from_int(0)));
    assert_eq!(TDim::from_int(i64::MAX).checked_add(&TDim::from_int(1)), None);
    assert_eq!(TDim::from_int(5).to_integer(), Some(5));
}

#[test]
fn tensor_construction_errors() {
    assert_eq!(
        Tensor::from_scalars(DatumType::TDim, vec![1], vec![1]).err(),
        Some(TractError::DtypeError { expected: DatumType::I64, got: DatumType::TDim })
    );
    assert!(matches!(Tensor::from_scalars(DatumType::I32, vec![3], vec![1]).err(), Some(TractError::ShapeError { .. })));
    assert_eq!(Tensor::from_scalars(DatumType::U8, vec![1], vec![256]).err(), Some(TractError::NumericError));
    let t = Tensor::from_scalars(DatumType::I32, vec![1], vec![300]).unwrap();
    assert_eq!(t.cast_to(DatumType::I8).err(), Some(TractError::NumericError));
    assert_eq!(t.cast_to(DatumType::I64).unwrap().scalars(), Some(vec![300]));
    let d = Tensor::from_dims(vec![1], vec![TDim::stream()]).unwrap();
    assert_eq!(d.cast_to(DatumType::I32).err(), Some(TractError::NumericError));
}
