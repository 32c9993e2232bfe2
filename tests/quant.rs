use std::collections::HashMap;
use tract_core::datum::DatumType;
use tract_core::errors::TractError;
use tract_core::fact::TensorFact;
use tract_core::model::{OutletId, RawModel};
use tract_core::node_def::{AttrValue, NodeDef};
use tract_core::ops::Op;
use tract_core::pulse::{pulsify_facts, PulsedFact};
use tract_core::quant::{cleanup_zeropoint, declutter_dequantize, dequantize_fusion, QParams};
use tract_core::reduce::{Reduce, Reducer};
use tract_core::tensor::Tensor;

fn s(x: &str) -> String {
    x.to_string()
}

#[test]
fn zero_point_cleanup() {
    let same = Tensor::from_scalars(DatumType::U8, vec![3], vec![7, 7, 7]).unwrap();
    let c = cleanup_zeropoint(&same).unwrap().unwrap();
    assert_eq!(c.shape, Vec::<usize>::new());
    assert_eq!(c.scalars(), Some(vec![7]));
    let zeros = Tensor::from_scalars(DatumType::I8, vec![2], vec![0, 0]).unwrap();
    assert!(cleanup_zeropoint(&zeros).unwrap().is_none());
    let scalar_zero = Tensor::from_scalars(DatumType::U8, vec![], vec![0]).unwrap();
    assert!(cleanup_zeropoint(&scalar_zero).unwrap().is_none());
    let mixed = Tensor::from_scalars(DatumType::U8, vec![2], vec![1, 2]).unwrap();
    assert_eq!(cleanup_zeropoint(&mixed).unwrap().unwrap().scalars(), Some(vec![1, 2]));
    let empty = Tensor::from_scalars(DatumType::U8, vec![0], vec![]).unwrap();
    assert!(matches!(cleanup_zeropoint(&empty), Err(TractError::ShapeError { .. })));
    let wide = Tensor::from_scalars(DatumType::I32, vec![], vec![0]).unwrap();
    assert!(cleanup_zeropoint(&wide).unwrap().is_some());
}

#[test]
fn qparams_builders() {
    let zp = Tensor::from_scalars(DatumType::U8, vec![2], vec![3, 3]).unwrap();
    let q = QParams::new(DatumType::I32).with_zero_point_a(&zp).unwrap().with_scale_factor(0.5f32.to_bits());
    assert_eq!(q.zero_point_a.as_ref().unwrap().scalars(), Some(vec![3]));
    assert!(q.zero_point_b.is_none());
    assert_eq!(q.scale_factor, Some(0.5f32.to_bits()));
    let mut q = q;
    let zero = Tensor::from_scalars(DatumType::I8, vec![], vec![0]).unwrap();
    q.set_zero_point_b(&zero).unwrap();
    assert!(q.zero_point_b.is_none());
    q.set_zero_point_c(&zp).unwrap();
    assert!(q.zero_point_c.is_some());
    q.set_scale_factor(2.0f32.to_bits());
    assert_eq!(q.scale_factor, Some(2.0f32.to_bits()));
    assert_eq!(q.c_datum_type, DatumType::I32);
    let q2 = QParams::new(DatumType::U8).with_zero_point_b(&zp).unwrap().with_zero_point_c(&zero).unwrap();
    assert!(q2.zero_point_b.is_some() && q2.zero_point_c.is_none());
    q.set_zero_point_a(&zero).unwrap();
    assert!(q.zero_point_a.is_none());
}

#[test]
fn dequantize_fuses_with_matching_quantize() {
    let half = 0.5f32.to_bits();
    let mut g = RawModel::new();
    let x = g.wire_node(s("x"), s("Source"), Op::Source { datum_type: DatumType::F32 }, vec![]).unwrap();
    let q = g
        .wire_node(s("q"), s("QuantizeLinear"), Op::QuantizeLinearU8 { scale_bits: half, zero_point: 10 }, vec![OutletId::new(x, 0)])
        .unwrap();
    let d = g
        .wire_node(s("d"), s("DequantizeLinear"), Op::DequantizeLinearF32 { scale_bits: half, zero_point: 10 }, vec![OutletId::new(q, 0)])
        .unwrap();
    g.set_io(vec![OutletId::new(x, 0)], vec![OutletId::new(d, 0)]).unwrap();
    assert_eq!(dequantize_fusion(&g, d), Some(OutletId::new(x, 0)));
    assert_eq!(dequantize_fusion(&g, q), None);
    assert_eq!(declutter_dequantize(&mut g), 1);
    assert_eq!(g.outputs, vec![OutletId::new(x, 0)]);
}

#[test]
fn dequantize_keeps_mismatched_quantize() {
    let mut g = RawModel::new();
    let x = g.wire_node(s("x"), s("Source"), Op::Source { datum_type: DatumType::F32 }, vec![]).unwrap();
    let q = g
        .wire_node(s("q"), s("QuantizeLinear"), Op::QuantizeLinearU8 { scale_bits: 0.5f32.to_bits(), zero_point: 10 }, vec![OutletId::new(x, 0)])
        .unwrap();
    let d = g
        .wire_node(s("d"), s("DequantizeLinear"), Op::DequantizeLinearF32 { scale_bits: 0.5f32.to_bits(), zero_point: 11 }, vec![OutletId::new(q, 0)])
        .unwrap();
    g.set_io(vec![OutletId::new(x, 0)], vec![OutletId::new(d, 0)]).unwrap();
    assert_eq!(declutter_dequantize(&mut g), 0);
    assert_eq!(g.outputs, vec![OutletId::new(d, 0)]);
}

#[test]
fn pulsify_reduce_rules() {
    let mut g = RawModel::new();
    let x = g.wire_node(s("x"), s("Source"), Op::Source { datum_type: DatumType::I32 }, vec![]).unwrap();
    let r = g
        .wire_node(s("r"), s("Reduce"), Op::Reduce(Reduce::new(vec![0], Reducer::Sum)), vec![OutletId::new(x, 0)])
        .unwrap();
    let input = PulsedFact { datum_type: DatumType::I32, shape: vec![3, 4], axis: 1, delay: 0 };
    let facts = pulsify_facts(&g, &input).unwrap();
    assert_eq!(facts[r].shape, vec![1, 4]);
    assert_eq!(facts[r].axis, 1);
    let streaming = PulsedFact { datum_type: DatumType::I32, shape: vec![3, 4], axis: 0, delay: 0 };
    assert_eq!(pulsify_facts(&g, &streaming).err(), Some(TractError::NotPulsifiable { node: r }));
    let wrong = PulsedFact { datum_type: DatumType::F32, shape: vec![3, 4], axis: 1, delay: 0 };
    assert_eq!(pulsify_facts(&g, &wrong).err(), Some(TractError::DtypeError { expected: DatumType::I32, got: DatumType::F32 }));
}

#[test]
fn node_def_accessors() {
    let mut n = NodeDef::new();
    assert_eq!(n.get_name(), "");
    n.set_name(s("conv1"));
    n.set_op(s("Conv2D"));
    n.set_device(s("/cpu:0"));
    n.set_input(vec![s("x"), s("w")]);
    let mut attrs = HashMap::new();
    attrs.insert(s("T"), AttrValue::Type(DatumType::F32));
    n.set_attr(attrs);
    assert_eq!(n.get_name(), "conv1");
    assert_eq!(n.get_op(), "Conv2D");
    assert_eq!(n.get_device(), "/cpu:0");
    assert_eq!(n.get_input(), &[s("x"), s("w")][..]);
    assert_eq!(n.get_attr().len(), 1);
    n.mut_name().push_str("_a");
    assert_eq!(n.take_name(), "conv1_a");
    assert_eq!(n.get_name(), "");
    n.mut_input().push(s("b"));
    assert_eq!(n.take_input().len(), 3);
    assert!(n.get_input().is_empty());
    n.mut_op().push('X');
    assert_eq!(n.take_op(), "Conv2DX");
    n.clear_device();
    assert_eq!(n.get_device(), "");
    n.mut_device().push_str("gpu");
    assert_eq!(n.take_device(), "gpu");
    n.mut_attr().insert(s("N"), AttrValue::I(2));
    assert_eq!(n.take_attr().len(), 2);
    n.set_attr(HashMap::new());
    n.clear_attr();
    n.clear_input();
    n.clear_op();
    n.clear_name();
    assert!(n.get_attr().is_empty());
    n.set_name(s("again"));
    n.set_input(vec![s("z")]);
    n.clear();
    assert_eq!(n.get_name(), "");
    assert!(n.get_input().is_empty());
}

#[test]
fn fact_new_knows_nothing() {
    let f = TensorFact::new();
    assert!(f.shape.open);
    assert!(f.shape.dims.is_empty());
}

#[test]
fn declutter_reaches_fixed_point() {
    let bits = 0.25f32.to_bits();
    let mut g = RawModel::new();
    let x = g.wire_node(s("x"), s("Source"), Op::Source { datum_type: DatumType::F32 }, vec![]).unwrap();
    let q = g
        .wire_node(s("q"), s("QuantizeLinear"), Op::QuantizeLinearU8 { scale_bits: bits, zero_point: 0 }, vec![OutletId::new(x, 0)])
        .unwrap();
    let d = g
        .wire_node(s("d"), s("DequantizeLinear"), Op::DequantizeLinearF32 { scale_bits: bits, zero_point: 0 }, vec![OutletId::new(q, 0)])
        .unwrap();
    let y = g.wire_node(s("y"), s("Identity"), Op::Identity, vec![OutletId::new(d, 0)]).unwrap();
    g.set_io(vec![OutletId::new(x, 0)], vec![OutletId::new(y, 0)]).unwrap();
    assert_eq!(tract_core::quant::declutter(&mut g), Ok(1));
    assert_eq!(g.nodes[y].inputs, vec![OutletId::new(x, 0)]);
    assert!(!tract_core::quant::is_read(&g, OutletId::new(d, 0)));
    assert_eq!(declutter_dequantize(&mut g), 0);
}

#[test]
fn pulsed_flatten_overflow_and_reduce_success() {
    let mut g = RawModel::new();
    let x = g.wire_node(s("x"), s("Source"), Op::Source { datum_type: DatumType::I32 }, vec![]).unwrap();
    let r = g
        .wire_node(s("r"), s("Reduce"), Op::Reduce(Reduce::new(vec![1], Reducer::Max)), vec![OutletId::new(x, 0)])
        .unwrap();
    let input = PulsedFact { datum_type: DatumType::I32, shape: vec![4, 3], axis: 0, delay: 2 };
    let facts = pulsify_facts(&g, &input).unwrap();
    assert_eq!(facts[r].shape, vec![4, 1]);
    assert_eq!(facts[r].delay, 2);
}

#[test]
fn dequantize_fuses_through_identity() {
    let bits = 0.5f32.to_bits();
    let mut g = RawModel::new();
    let x = g.wire_node(s("x"), s("Source"), Op::Source { datum_type: DatumType::F32 }, vec![]).unwrap();
    let q = g
        .wire_node(s("q"), s("QuantizeLinear"), Op::QuantizeLinearU8 { scale_bits: bits, zero_point: 10 }, vec![OutletId::new(x, 0)])
        .unwrap();
    let id = g.wire_node(s("id"), s("Identity"), Op::Identity, vec![OutletId::new(q, 0)]).unwrap();
    let d = g
        .wire_node(s("d"), s("DequantizeLinear"), Op::DequantizeLinearF32 { scale_bits: bits, zero_point: 10 }, vec![OutletId::new(id, 0)])
        .unwrap();
    g.set_io(vec![OutletId::new(x, 0)], vec![OutletId::new(d, 0)]).unwrap();
    assert_eq!(dequantize_fusion(&g, d), Some(OutletId::new(x, 0)));
    assert_eq!(tract_core::quant::declutter(&mut g), Ok(1));
    assert_eq!(g.outputs, vec![OutletId::new(x, 0)]);
}

#[test]
fn dequantize_fuses_with_signed_quantize() {
    let bits = 0.5f32.to_bits();
    let mut g = RawModel::new();
    let x = g.wire_node(s("x"), s("Source"), Op::Source { datum_type: DatumType::F32 }, vec![]).unwrap();
    let q = g
        .wire_node(s("q"), s("QuantizeLinear"), Op::QuantizeLinearI8 { scale_bits: bits, zero_point: -3 }, vec![OutletId::new(x, 0)])
        .unwrap();
    let d = g
        .wire_node(s("d"), s("DequantizeLinear"), Op::DequantizeLinearF32 { scale_bits: bits, zero_point: -3 }, vec![OutletId::new(q, 0)])
        .unwrap();
    g.set_io(vec![OutletId::new(x, 0)], vec![OutletId::new(d, 0)]).unwrap();
    assert_eq!(dequantize_fusion(&g, d), Some(OutletId::new(x, 0)));
}
