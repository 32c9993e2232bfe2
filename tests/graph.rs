use tract_core::analyser::analyse;
use tract_core::datum::DatumType;
use tract_core::dim::TDim;
use tract_core::errors::{Attribute, TractError};
use tract_core::fact::{DimFact, TensorFact, TypeFact};
use tract_core::flatten::Flatten;
use tract_core::model::{InletId, Model, Node, OutletId, RawModel};
use tract_core::ops::Op;
use tract_core::plan::eval_order;
use tract_core::reduce::{Reduce, Reducer};
use tract_core::state::{SimplePlan, SimpleState};
use tract_core::tensor::Tensor;

fn s(x: &str) -> String {
    x.to_string()
}

fn source_reduce_graph() -> RawModel {
    let mut g = RawModel::new();
    let src = g.wire_node(s("input"), s("Source"), Op::Source { datum_type: DatumType::I32 }, vec![]).unwrap();
    let red = g
        .wire_node(s("sum"), s("Reduce"), Op::Reduce(Reduce::new(vec![1], Reducer::Sum)), vec![OutletId::new(src, 0)])
        .unwrap();
    g.set_io(vec![OutletId::new(src, 0)], vec![OutletId::new(red, 0)]).unwrap();
    g
}

fn empty_facts(n: usize) -> Vec<TensorFact> {
    (0..n).map(|_| TensorFact::new()).collect()
}

#[test]
fn outlet_and_inlet_ids() {
    let o = OutletId::new(3, 0);
    assert_eq!((o.node, o.slot), (3, 0));
    let i = InletId::new(2, 1);
    assert_eq!((i.node, i.inlet), (2, 1));
}

#[test]
fn wire_node_checks_inputs_and_names() {
    let mut g = RawModel::new();
    let a = g.wire_node(s("a"), s("Source"), Op::Source { datum_type: DatumType::I32 }, vec![]).unwrap();
    assert_eq!(a, 0);
    assert_eq!(
        g.wire_node(s("b"), s("Add"), Op::Add, vec![OutletId::new(a, 0)]),
        Err(TractError::ArityError { expected: 2, got: 1 })
    );
    assert_eq!(g.wire_node(s("c"), s("Identity"), Op::Identity, vec![OutletId::new(5, 0)]), Err(TractError::InvalidGraph));
    assert_eq!(g.wire_node(s("a"), s("Identity"), Op::Identity, vec![OutletId::new(a, 0)]), Err(TractError::InvalidGraph));
    assert_eq!(g.nodes().len(), 1);
    assert_eq!(g.node_names(), vec!["a"]);
    assert!(g.node_by_name(&s("a")).is_some());
    assert!(g.node_by_name(&s("z")).is_none());
    let m = Model::new(g);
    assert!(matches!(m.raw().nodes()[0].op(), Op::Source { .. }));
}

#[test]
fn plan_order_breaks_ties_by_smallest_id() {
    let mut g = RawModel::new();
    let a = g.wire_node(s("a"), s("Source"), Op::Source { datum_type: DatumType::I32 }, vec![]).unwrap();
    let b = g.wire_node(s("b"), s("Source"), Op::Source { datum_type: DatumType::I32 }, vec![]).unwrap();
    let c = g.wire_node(s("c"), s("Add"), Op::Add, vec![OutletId::new(b, 0), OutletId::new(a, 0)]).unwrap();
    let d = g.wire_node(s("d"), s("Identity"), Op::Identity, vec![OutletId::new(a, 0)]).unwrap();
    let first = eval_order(&g).unwrap();
    assert_eq!(first, vec![a, b, c, d]);
    assert_eq!(eval_order(&g).unwrap(), first);
}

#[test]
fn plan_order_rejects_cycles() {
    let mut g = RawModel::new();
    g.nodes.push(Node { id: 0, name: s("x"), op_name: s("Identity"), inputs: vec![OutletId::new(1, 0)], op: Op::Identity });
    g.nodes.push(Node { id: 1, name: s("y"), op_name: s("Identity"), inputs: vec![OutletId::new(0, 0)], op: Op::Identity });
    assert_eq!(eval_order(&g).err(), Some(TractError::InvalidGraph));
}

#[test]
fn analyse_infers_reduced_shape_and_is_idempotent() {
    let g = source_reduce_graph();
    let mut facts = empty_facts(2);
    facts[0].shape.open = false;
    facts[0].shape.dims = vec![DimFact::Only(TDim::from_int(2)), DimFact::Only(TDim::from_int(5))];
    let once = analyse(&g, facts).unwrap();
    assert_eq!(once[0].datum_type, TypeFact::Only(DatumType::I32));
    assert_eq!(once[1].datum_type, TypeFact::Only(DatumType::I32));
    assert!(!once[1].shape.open);
    assert_eq!(once[1].shape.dims, vec![DimFact::Only(TDim::from_int(2)), DimFact::Only(TDim::from_int(1))]);
    let copy: Vec<TensorFact> = once.iter().cloned().collect();
    let twice = analyse(&g, copy).unwrap();
    assert_eq!(twice.len(), once.len());
    for (a, b) in once.iter().zip(twice.iter()) {
        assert!(a.same_as(b));
    }
}

#[test]
fn analyse_reports_contradiction() {
    let mut g = RawModel::new();
    let x = g.wire_node(s("x"), s("Source"), Op::Source { datum_type: DatumType::F32 }, vec![]).unwrap();
    let k = Tensor::from_scalars(DatumType::I32, vec![1], vec![3]).unwrap();
    let c = g.wire_node(s("k"), s("Const"), Op::Const(k), vec![]).unwrap();
    let add = g.wire_node(s("add"), s("Add"), Op::Add, vec![OutletId::new(x, 0), OutletId::new(c, 0)]).unwrap();
    g.set_io(vec![OutletId::new(x, 0)], vec![OutletId::new(add, 0)]).unwrap();
    match analyse(&g, empty_facts(3)) {
        Err(TractError::InferenceContradiction { attribute, .. }) => assert_eq!(attribute, Attribute::DatumType),
        other => panic!("expected a contradiction, got {:?}", other.map(|v| v.len())),
    }
}

#[test]
fn reduce_sum_scenario() {
    let t = Tensor::from_scalars(DatumType::I32, vec![2, 2], vec![1, 2, 3, 4]).unwrap();
    let r = Reducer::Sum.reduce(&vec![1], &t).unwrap();
    assert_eq!(r.shape, vec![2, 1]);
    assert_eq!(r.scalars(), Some(vec![3, 7]));
}

#[test]
fn reducers_on_integers() {
    let t = Tensor::from_scalars(DatumType::I32, vec![2, 3], vec![1, -2, 3, 4, 5, -6]).unwrap();
    assert_eq!(Reducer::Sum.reduce(&vec![0], &t).unwrap().scalars(), Some(vec![5, 3, -3]));
    assert_eq!(Reducer::Prod.reduce(&vec![1], &t).unwrap().scalars(), Some(vec![-6, -120]));
    assert_eq!(Reducer::Max.reduce(&vec![1], &t).unwrap().scalars(), Some(vec![3, 5]));
    assert_eq!(Reducer::Min.reduce(&vec![1], &t).unwrap().scalars(), Some(vec![-2, -6]));
    assert_eq!(Reducer::L1.reduce(&vec![1], &t).unwrap().scalars(), Some(vec![6, 15]));
    assert_eq!(Reducer::SumSquare.reduce(&vec![1], &t).unwrap().scalars(), Some(vec![14, 77]));
    assert_eq!(Reducer::Mean.reduce(&vec![1], &t).unwrap().scalars(), Some(vec![0, 1]));
    assert_eq!(Reducer::Sum.reduce(&vec![0, 1], &t).unwrap().shape, vec![1, 1]);
    assert_eq!(
        Reducer::L2.reduce(&vec![1], &t).err(),
        Some(TractError::DtypeError { expected: DatumType::I64, got: DatumType::I32 })
    );
}

#[test]
fn reduce_overflow_is_a_numeric_error() {
    let t = Tensor::from_scalars(DatumType::I8, vec![2], vec![100, 100]).unwrap();
    assert_eq!(Reducer::Sum.reduce(&vec![0], &t).err(), Some(TractError::NumericError));
}

#[test]
fn flatten_scenario() {
    let values: Vec<i64> = (0..24).collect();
    let t = Tensor::from_scalars(DatumType::I32, vec![2, 3, 4], values.clone()).unwrap();
    let f = Flatten::new(1).eval(t).unwrap();
    assert_eq!(f.shape, vec![2, 12]);
    assert_eq!(f.scalars(), Some(values));
    let t = Tensor::from_scalars(DatumType::I32, vec![2], vec![1, 2]).unwrap();
    assert!(Flatten::new(3).eval(t).is_err());
}

#[test]
fn state_runs_and_keeps_only_outputs() {
    let mut g = RawModel::new();
    let x = g.wire_node(s("x"), s("Source"), Op::Source { datum_type: DatumType::I32 }, vec![]).unwrap();
    let k = Tensor::from_scalars(DatumType::I32, vec![2], vec![3, 3]).unwrap();
    let c = g.wire_node(s("k"), s("Const"), Op::Const(k), vec![]).unwrap();
    let add = g.wire_node(s("add"), s("Add"), Op::Add, vec![OutletId::new(x, 0), OutletId::new(c, 0)]).unwrap();
    let id = g.wire_node(s("id"), s("Identity"), Op::Identity, vec![OutletId::new(add, 0)]).unwrap();
    g.set_io(vec![OutletId::new(x, 0)], vec![OutletId::new(id, 0)]).unwrap();
    let plan = SimplePlan::new(Model::new(g)).unwrap();
    let mut state = SimpleState::new(plan);
    let input = Tensor::from_scalars(DatumType::I32, vec![2], vec![1, 2]).unwrap();
    let out = state.run(vec![input]).unwrap();
    assert_eq!(out.len(), 1);
    assert_eq!(out[0].scalars(), Some(vec![4, 5]));
    let held: Vec<usize> = (0..state.values.len()).filter(|&i| state.values[i].is_some()).collect();
    assert_eq!(held, vec![id]);
}

#[test]
fn state_checks_inputs() {
    let g = source_reduce_graph();
    let plan = SimplePlan::new(Model::new(g)).unwrap();
    let mut state = SimpleState::new(plan);
    assert_eq!(state.run(vec![]).err(), Some(TractError::ArityError { expected: 1, got: 0 }));
    let wrong = Tensor::from_scalars(DatumType::I8, vec![1, 1], vec![1]).unwrap();
    assert_eq!(state.run(vec![wrong]).err(), Some(TractError::DtypeError { expected: DatumType::I32, got: DatumType::I8 }));
}

#[test]
fn add_errors() {
    let a = Tensor::from_scalars(DatumType::I8, vec![1], vec![100]).unwrap();
    let b = Tensor::from_scalars(DatumType::I8, vec![1], vec![100]).unwrap();
    assert_eq!(tract_core::ops::add_tensors(&a, &b).err(), Some(TractError::NumericError));
    let c = Tensor::from_scalars(DatumType::I8, vec![1, 1], vec![1]).unwrap();
    assert!(matches!(tract_core::ops::add_tensors(&a, &c), Err(TractError::ShapeError { .. })));
    let d = Tensor::from_scalars(DatumType::I16, vec![1], vec![1]).unwrap();
    assert_eq!(
        tract_core::ops::add_tensors(&a, &d).err(),
        Some(TractError::DtypeError { expected: DatumType::I8, got: DatumType::I16 })
    );
}

#[test]
fn reduce_axis_tracking() {
    use_axis_ops();
}

fn use_axis_ops() {
    let r = Reduce::new(vec![1, 3], Reducer::Sum);
    assert_eq!(r.invariants(4), vec![0, 2]);
    let moved = r.change_axes(&tract_core::reduce::AxisOp::Add(2)).unwrap();
    assert_eq!(moved.axes, vec![1, 4]);
    let moved = r.change_axes(&tract_core::reduce::AxisOp::Rm(0)).unwrap();
    assert_eq!(moved.axes, vec![0, 2]);
    assert!(r.change_axes(&tract_core::reduce::AxisOp::Rm(3)).is_none());
}

#[test]
fn analyse_folds_constants() {
    let mut g = RawModel::new();
    let a = Tensor::from_scalars(DatumType::I32, vec![2], vec![1, 2]).unwrap();
    let b = Tensor::from_scalars(DatumType::I32, vec![2], vec![3, 3]).unwrap();
    let ka = g.wire_node(s("a"), s("Const"), Op::Const(a), vec![]).unwrap();
    let kb = g.wire_node(s("b"), s("Const"), Op::Const(b), vec![]).unwrap();
    let add = g.wire_node(s("add"), s("Add"), Op::Add, vec![OutletId::new(ka, 0), OutletId::new(kb, 0)]).unwrap();
    g.set_io(vec![], vec![OutletId::new(add, 0)]).unwrap();
    let facts = analyse(&g, empty_facts(3)).unwrap();
    match &facts[add].value {
        tract_core::fact::ValueFact::Only(t) => assert_eq!(t.scalars(), Some(vec![4, 5])),
        tract_core::fact::ValueFact::Any => panic!("the sum of two constants should be folded"),
    }
    let again = analyse(&g, empty_facts(3)).unwrap();
    for (x, y) in facts.iter().zip(again.iter()) {
        assert!(x.same_as(y));
    }
}

#[test]
fn folding_failure_skips_the_node() {
    let mut g = RawModel::new();
    let a = Tensor::from_scalars(DatumType::I8, vec![1], vec![100]).unwrap();
    let ka = g.wire_node(s("a"), s("Const"), Op::Const(a), vec![]).unwrap();
    let add = g.wire_node(s("add"), s("Add"), Op::Add, vec![OutletId::new(ka, 0), OutletId::new(ka, 0)]).unwrap();
    let facts = analyse(&g, empty_facts(2)).unwrap();
    assert!(matches!(facts[add].value, tract_core::fact::ValueFact::Any));
}

#[test]
fn compute_one_evaluates_a_single_node() {
    let mut g = RawModel::new();
    let a = Tensor::from_scalars(DatumType::I32, vec![2], vec![1, 2]).unwrap();
    let ka = g.wire_node(s("a"), s("Const"), Op::Const(a), vec![]).unwrap();
    let id = g.wire_node(s("id"), s("Identity"), Op::Identity, vec![OutletId::new(ka, 0)]).unwrap();
    g.set_io(vec![], vec![OutletId::new(id, 0)]).unwrap();
    let plan = SimplePlan::new(Model::new(g)).unwrap();
    let mut state = SimpleState::new(plan);
    state.values = vec![None, None];
    assert_eq!(state.compute_one(id), Err(TractError::InvalidGraph));
    state.compute_one(ka).unwrap();
    state.compute_one(id).unwrap();
    assert_eq!(state.values[id].as_ref().unwrap().scalars(), Some(vec![1, 2]));
}
