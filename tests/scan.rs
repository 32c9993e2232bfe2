use tract_core::datum::DatumType;
use tract_core::dim::TDim;
use tract_core::errors::Attribute;
use tract_core::fact::{DimFact, ShapeFact, TensorFact, TypeFact, ValueFact};
use tract_core::model::{OutletId, RawModel};
use tract_core::ops::Op;
use tract_core::scan::Scan;

fn dim(v: i64) -> DimFact {
    DimFact::Only(TDim::from_int(v))
}

fn fact(dt: TypeFact, open: bool, dims: Vec<DimFact>) -> TensorFact {
    TensorFact { datum_type: dt, shape: ShapeFact { open, dims }, value: ValueFact::Any }
}

fn scan(body_inputs: Vec<TensorFact>, body_outputs: Vec<TensorFact>) -> Scan {
    Scan {
        body: RawModel::new(),
        body_inputs,
        body_outputs,
        num_scan_inputs: 1,
        closure_inputs: 1,
        scan_input_axes: vec![0],
        scan_output_axes: vec![0],
    }
}

#[test]
fn scan_unifies_outer_and_body_facts() {
    // one hidden state, one scanned input, one closure input; one scanned output
    let mut sc = scan(
        vec![
            fact(TypeFact::Only(DatumType::I32), true, vec![]),
            fact(TypeFact::Any, false, vec![dim(4)]),
            fact(TypeFact::Any, true, vec![]),
        ],
        vec![fact(TypeFact::Any, false, vec![dim(2)]), fact(TypeFact::Only(DatumType::I64), false, vec![dim(4)])],
    );
    let mut inputs = vec![
        fact(TypeFact::Any, true, vec![]),
        fact(TypeFact::Only(DatumType::I32), false, vec![dim(10), dim(4)]),
        fact(TypeFact::Only(DatumType::U8), false, vec![dim(3)]),
    ];
    let mut outputs = vec![fact(TypeFact::Any, true, vec![]), fact(TypeFact::Any, true, vec![])];
    sc.unify_facts(&mut inputs, &mut outputs).unwrap();
    for f in [&inputs[0], &outputs[0], &sc.body_inputs[0], &sc.body_outputs[0]] {
        assert_eq!(f.datum_type, TypeFact::Only(DatumType::I32));
        assert_eq!(f.shape.dims, vec![dim(2)]);
    }
    assert_eq!(sc.body_inputs[1].datum_type, TypeFact::Only(DatumType::I32));
    assert!(inputs[2].same_as(&sc.body_inputs[2]));
    assert_eq!(outputs[1].datum_type, TypeFact::Only(DatumType::I64));
    assert!(!outputs[1].shape.open);
    assert_eq!(outputs[1].shape.dims, vec![dim(10), dim(4)]);
}

#[test]
fn scan_reports_hidden_state_contradiction() {
    let mut sc = scan(
        vec![fact(TypeFact::Only(DatumType::I32), true, vec![]), fact(TypeFact::Any, true, vec![]), fact(TypeFact::Any, true, vec![])],
        vec![fact(TypeFact::Only(DatumType::F32), true, vec![]), fact(TypeFact::Any, true, vec![])],
    );
    let mut inputs = vec![TensorFact::new(), TensorFact::new(), TensorFact::new()];
    let mut outputs = vec![TensorFact::new(), TensorFact::new()];
    assert_eq!(sc.unify_facts(&mut inputs, &mut outputs), Err(Attribute::DatumType));
}

#[test]
fn scan_infers_through_its_body() {
    let mut body = RawModel::new();
    let src = body.wire_node("state".to_string(), "Source".to_string(), Op::Source { datum_type: DatumType::I32 }, vec![]).unwrap();
    let id = body.wire_node("next".to_string(), "Identity".to_string(), Op::Identity, vec![OutletId::new(src, 0)]).unwrap();
    body.set_io(vec![OutletId::new(src, 0)], vec![OutletId::new(id, 0)]).unwrap();
    let mut sc = Scan {
        body,
        body_inputs: vec![TensorFact::new()],
        body_outputs: vec![TensorFact::new()],
        num_scan_inputs: 0,
        closure_inputs: 0,
        scan_input_axes: vec![],
        scan_output_axes: vec![],
    };
    let inputs = vec![fact(TypeFact::Any, false, vec![dim(2)])];
    let outputs = vec![TensorFact::new()];
    let (ins, outs) = sc.infer_facts(7, inputs, outputs).unwrap();
    assert_eq!(ins[0].datum_type, TypeFact::Only(DatumType::I32));
    assert_eq!(outs[0].datum_type, TypeFact::Only(DatumType::I32));
    assert_eq!(outs[0].shape.dims, vec![dim(2)]);
    assert!(!outs[0].shape.open);
    let err = sc.infer_facts(7, vec![], vec![TensorFact::new()]).err();
    assert_eq!(err, Some(tract_core::errors::TractError::ArityError { expected: 1, got: 0 }));
}

#[test]
fn scan_eval_accumulates() {
    let mut body = RawModel::new();
    let acc = body.wire_node("acc".to_string(), "Source".to_string(), Op::Source { datum_type: DatumType::I32 }, vec![]).unwrap();
    let x = body.wire_node("x".to_string(), "Source".to_string(), Op::Source { datum_type: DatumType::I32 }, vec![]).unwrap();
    let sum = body
        .wire_node("sum".to_string(), "Add".to_string(), Op::Add, vec![OutletId::new(acc, 0), OutletId::new(x, 0)])
        .unwrap();
    body.set_io(vec![OutletId::new(acc, 0), OutletId::new(x, 0)], vec![OutletId::new(sum, 0), OutletId::new(sum, 0)]).unwrap();
    let one = || fact(TypeFact::Only(DatumType::I32), false, vec![dim(1)]);
    let sc = Scan {
        body,
        body_inputs: vec![one(), one()],
        body_outputs: vec![one(), one()],
        num_scan_inputs: 1,
        closure_inputs: 0,
        scan_input_axes: vec![0],
        scan_output_axes: vec![0],
    };
    let init = tract_core::tensor::Tensor::from_scalars(DatumType::I32, vec![1], vec![0]).unwrap();
    let xs = tract_core::tensor::Tensor::from_scalars(DatumType::I32, vec![4], vec![1, 2, 3, 4]).unwrap();
    let outs = sc.eval(vec![init, xs]).unwrap();
    assert_eq!(outs.len(), 2);
    assert_eq!(outs[0].scalars(), Some(vec![10]));
    assert_eq!(outs[1].shape, vec![4]);
    assert_eq!(outs[1].scalars(), Some(vec![1, 3, 6, 10]));
}

#[test]
fn slice_and_assign_along_axis() {
    let t = tract_core::tensor::Tensor::from_scalars(DatumType::I32, vec![2, 3], vec![1, 2, 3, 4, 5, 6]).unwrap();
    let col = t.slice_axis(1, 2).unwrap();
    assert_eq!(col.shape, vec![2, 1]);
    assert_eq!(col.scalars(), Some(vec![3, 6]));
    let row = t.slice_axis(0, 1).unwrap();
    assert_eq!(row.scalars(), Some(vec![4, 5, 6]));
    assert!(t.slice_axis(2, 0).is_err());
    let mut z = tract_core::tensor::Tensor::from_scalars(DatumType::I32, vec![2, 3], vec![0; 6]).unwrap();
    z.assign_at(1, 0, &col).unwrap();
    assert_eq!(z.scalars(), Some(vec![3, 0, 0, 6, 0, 0]));
}

#[test]
fn scan_unify_succeeds_on_blank_facts() {
    let mut sc = scan(
        vec![TensorFact::new(), TensorFact::new(), TensorFact::new()],
        vec![TensorFact::new(), TensorFact::new()],
    );
    let mut inputs = vec![TensorFact::new(), TensorFact::new(), TensorFact::new()];
    let mut outputs = vec![TensorFact::new(), TensorFact::new()];
    assert_eq!(sc.unify_facts(&mut inputs, &mut outputs), Ok(()));
}

#[test]
fn assign_at_errors() {
    let mut z = tract_core::tensor::Tensor::from_scalars(DatumType::I32, vec![2, 3], vec![0; 6]).unwrap();
    let short = tract_core::tensor::Tensor::from_scalars(DatumType::I32, vec![1], vec![7]).unwrap();
    assert!(z.assign_at(1, 0, &short).is_err());
    let other = tract_core::tensor::Tensor::from_scalars(DatumType::I8, vec![2], vec![1, 2]).unwrap();
    assert!(z.assign_at(1, 0, &other).is_err());
    assert!(z.assign_at(2, 0, &other).is_err());
    assert_eq!(z.scalars(), Some(vec![0; 6]));
}
