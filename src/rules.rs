//! Inference rules of the operators: from the facts known at a node's inputs
//! and output, the facts they imply at each of them.
use vstd::prelude::*;
use crate::datum::DatumType;
use crate::dim::TDim;
use crate::fact::{DimFact, FactModel, ShapeFact, ShapeModel, TensorFact, TypeFact, ValueFact, ValueModel};
use crate::ops::{arity, eval_model, Op, OpModel};
use crate::tensor::{DataModel, Tensor, TensorModel};

verus! {

/// The shape that knows nothing.
pub open spec fn any_shape() -> ShapeModel {
    ShapeModel { open: true, dims: Seq::empty() }
}

/// A fact with the given element type and shape and an unknown value.
pub open spec fn typed_fact(datum_type: TypeFact, shape: ShapeModel) -> FactModel {
    FactModel { datum_type, shape, value: ValueModel::Any }
}

/// The element type and shape of `f`, with an unknown value.
pub open spec fn like(f: FactModel) -> FactModel {
    typed_fact(f.datum_type, f.shape)
}

/// The product of the dimensions, when all are known and it is affine.
pub open spec fn dims_product(s: Seq<DimFact>) -> DimFact
    decreases s.len(),
{
    if s.len() == 0 {
        DimFact::Only(TDim { sym: 0, konst: 1 })
    } else {
        match (dims_product(s.drop_last()), s.last()) {
            (DimFact::Only(p), DimFact::Only(d)) => match p.product(d) {
                Some(q) => DimFact::Only(q),
                None => DimFact::Any,
            },
            _ => DimFact::Any,
        }
    }
}

/// The shape of the output of `Flatten` around `axis`.
pub open spec fn flatten_shape(axis: int, s: ShapeModel) -> ShapeModel {
    if !s.open && axis <= s.dims.len() {
        ShapeModel {
            open: false,
            dims: seq![dims_product(s.dims.subrange(0, axis)), dims_product(s.dims.subrange(axis, s.dims.len() as int))],
        }
    } else {
        ShapeModel { open: false, dims: seq![DimFact::Any, DimFact::Any] }
    }
}

/// The shape of the output of `Reduce` over `axes`: reduced axes have length 1.
pub open spec fn reduced_shape(axes: Seq<usize>, s: ShapeModel) -> ShapeModel {
    ShapeModel {
        open: s.open,
        dims: Seq::new(s.dims.len(), |i: int| if axes.contains(i as usize) {
            DimFact::Only(TDim { sym: 0, konst: 1 })
        } else {
            s.dims[i]
        }),
    }
}

/// The shape fact of a tensor of the given shape.
pub open spec fn shape_of(shape: Seq<usize>) -> ShapeModel {
    ShapeModel {
        open: false,
        dims: shape.map_values(|d: usize| DimFact::Only(TDim { sym: 0, konst: d as i64 })),
    }
}

/// Whether every dimension of the shape fits in an `i64`.
pub open spec fn shape_fits(shape: Seq<usize>) -> bool {
    forall|i: int| 0 <= i < shape.len() ==> shape[i] <= i64::MAX
}

/// The facts implied at the inputs and at the output of a node running `op`,
/// given the facts `ins` at its inputs and `out` at its output.
pub open spec fn base_rules(op: OpModel, ins: Seq<FactModel>, out: FactModel) -> (Seq<FactModel>, FactModel) {
    match op {
        OpModel::Source { datum_type } => (Seq::empty(), typed_fact(TypeFact::Only(datum_type), any_shape())),
        OpModel::Const(t) => (Seq::empty(), FactModel {
            datum_type: TypeFact::Only(t.datum_type),
            shape: if shape_fits(t.shape) { shape_of(t.shape) } else { any_shape() },
            value: ValueModel::Only(t),
        }),
        OpModel::Identity => (seq![out], ins[0]),
        OpModel::Add => (seq![like(ins[1]), like(out)], like(ins[0])),
        OpModel::Flatten { axis } => (
            seq![typed_fact(out.datum_type, any_shape())],
            typed_fact(ins[0].datum_type, flatten_shape(axis as int, ins[0].shape)),
        ),
        OpModel::Reduce { axes, .. } => (
            seq![typed_fact(out.datum_type, any_shape())],
            typed_fact(ins[0].datum_type, reduced_shape(axes, ins[0].shape)),
        ),
        OpModel::QuantizeLinearU8 { .. } => (
            seq![typed_fact(TypeFact::Any, out.shape)],
            typed_fact(TypeFact::Only(DatumType::U8), ins[0].shape),
        ),
        OpModel::QuantizeLinearI8 { .. } => (
            seq![typed_fact(TypeFact::Any, out.shape)],
            typed_fact(TypeFact::Only(DatumType::I8), ins[0].shape),
        ),
        OpModel::DequantizeLinearF32 { .. } => (
            seq![typed_fact(TypeFact::Any, out.shape)],
            typed_fact(TypeFact::Only(DatumType::F32), ins[0].shape),
        ),
    }
}

fn typed(datum_type: TypeFact, shape: ShapeFact) -> (r: TensorFact)
    ensures
        r@ == typed_fact(datum_type, shape@),
{
    TensorFact { datum_type, shape, value: ValueFact::Any }
}

fn unknown_shape() -> (r: ShapeFact)
    ensures
        r@ == any_shape(),
{
    let r = ShapeFact { open: true, dims: Vec::new() };
    assert(r@.dims =~= Seq::<DimFact>::empty());
    r
}

fn like_fact(f: &TensorFact) -> (r: TensorFact)
    ensures
        r@ == like(f@),
{
    typed(f.datum_type, f.shape.clone())
}

/// The product of `s[lo..hi]` (see `dims_product`).
fn product_of(s: &Vec<DimFact>, lo: usize, hi: usize) -> (r: DimFact)
    requires
        lo <= hi <= s@.len(),
    ensures
        r == dims_product(s@.subrange(lo as int, hi as int)),
{
    let mut acc = DimFact::Only(TDim::from_int(1));
    let mut i: usize = lo;
    assert(s@.subrange(lo as int, lo as int) =~= Seq::<DimFact>::empty());
    while i < hi
        invariant
            lo <= i <= hi,
            hi <= s@.len(),
            acc == dims_product(s@.subrange(lo as int, i as int)),
        decreases hi - i,
    {
        assert(s@.subrange(lo as int, i + 1).drop_last() =~= s@.subrange(lo as int, i as int));
        acc = match (acc, s[i]) {
            (DimFact::Only(p), DimFact::Only(d)) => match p.checked_mul(&d) {
                Some(q) => DimFact::Only(q),
                None => DimFact::Any,
            },
            _ => DimFact::Any,
        };
        i += 1;
    }
    acc
}

fn flatten_shape_of(axis: usize, s: &ShapeFact) -> (r: ShapeFact)
    ensures
        r@ == flatten_shape(axis as int, s@),
{
    let r = if !s.open && axis <= s.dims.len() {
        ShapeFact { open: false, dims: vec![product_of(&s.dims, 0, axis), product_of(&s.dims, axis, s.dims.len())] }
    } else {
        ShapeFact { open: false, dims: vec![DimFact::Any, DimFact::Any] }
    };
    assert(r@.dims =~= flatten_shape(axis as int, s@).dims);
    r
}

fn contains_axis(axes: &Vec<usize>, a: usize) -> (r: bool)
    ensures
        r == axes@.contains(a),
{
    let mut i: usize = 0;
    while i < axes.len()
        invariant
            0 <= i <= axes@.len(),
            forall|j: int| 0 <= j < i ==> axes@[j] != a,
        decreases axes.len() - i,
    {
        if axes[i] == a {
            return true;
        }
        i += 1;
    }
    false
}

fn reduced_shape_of(axes: &Vec<usize>, s: &ShapeFact) -> (r: ShapeFact)
    ensures
        r@ == reduced_shape(axes@, s@),
{
    let mut dims: Vec<DimFact> = Vec::new();
    let mut i: usize = 0;
    while i < s.dims.len()
        invariant
            0 <= i <= s.dims@.len(),
            dims@.len() == i,
            forall|j: int| 0 <= j < i ==> dims@[j] == (if axes@.contains(j as usize) {
                DimFact::Only(TDim { sym: 0, konst: 1 })
            } else {
                s.dims@[j]
            }),
        decreases s.dims.len() - i,
    {
        if contains_axis(axes, i) {
            dims.push(DimFact::Only(TDim::from_int(1)));
        } else {
            dims.push(s.dims[i]);
        }
        i += 1;
    }
    let r = ShapeFact { open: s.open, dims };
    assert(r@.dims =~= reduced_shape(axes@, s@).dims);
    r
}

/// The shape fact of a tensor of the given shape; none when a dimension does
/// not fit in an `i64`.
fn shape_fact_of(t: &Tensor) -> (r: Option<ShapeFact>)
    ensures
        r matches Some(s) ==> s@ == shape_of(t@.shape),
        r is Some <==> shape_fits(t@.shape),
{
    let mut dims: Vec<DimFact> = Vec::new();
    let mut i: usize = 0;
    while i < t.shape.len()
        invariant
            0 <= i <= t.shape@.len(),
            dims@ =~= t.shape@.subrange(0, i as int).map_values(|d: usize| DimFact::Only(TDim { sym: 0, konst: d as i64 })),
            forall|j: int| 0 <= j < i ==> t@.shape[j] <= i64::MAX,
        decreases t.shape.len() - i,
    {
        let d = t.shape[i];
        if d as u64 > 0x7fff_ffff_ffff_ffff {
            assert(t@.shape[i as int] == d);
            return None;
        }
        dims.push(DimFact::Only(TDim::from_int(d as i64)));
        i += 1;
    }
    assert(t.shape@.subrange(0, t.shape@.len() as int) =~= t.shape@);
    Some(ShapeFact { open: false, dims })
}


/// The facts a node running `op` implies at its inputs and its output.
fn base_rules_of(op: &Op, ins: &Vec<TensorFact>, out: &TensorFact) -> (r: (Vec<TensorFact>, TensorFact))
    requires
        ins@.len() == arity(op@),
    ensures
        r.0@.len() == arity(op@),
        r.0@.map_values(|f: TensorFact| f@) == base_rules(op@, ins@.map_values(|f: TensorFact| f@), out@).0,
        r.1@ == base_rules(op@, ins@.map_values(|f: TensorFact| f@), out@).1,
{
    let ghost insm = ins@.map_values(|f: TensorFact| f@);
    let ghost want = base_rules(op@, insm, out@);
    let (v, o): (Vec<TensorFact>, TensorFact) = match op {
        Op::Source { datum_type } => (Vec::new(), typed(TypeFact::Only(*datum_type), unknown_shape())),
        Op::Const(t) => {
            let shape = match shape_fact_of(t) {
                Some(s) => s,
                None => unknown_shape(),
            };
            (Vec::new(), TensorFact {
                datum_type: TypeFact::Only(t.datum_type),
                shape,
                value: ValueFact::Only(t.clone()),
            })
        },
        Op::Identity => (vec![out.clone()], ins[0].clone()),
        Op::Add => (vec![like_fact(&ins[1]), like_fact(out)], like_fact(&ins[0])),
        Op::Flatten(f) => (
            vec![typed(out.datum_type, unknown_shape())],
            typed(ins[0].datum_type, flatten_shape_of(f.axis, &ins[0].shape)),
        ),
        Op::Reduce(red) => (
            vec![typed(out.datum_type, unknown_shape())],
            typed(ins[0].datum_type, reduced_shape_of(&red.axes, &ins[0].shape)),
        ),
        Op::QuantizeLinearU8 { .. } => (
            vec![typed(TypeFact::Any, out.shape.clone())],
            typed(TypeFact::Only(DatumType::U8), ins[0].shape.clone()),
        ),
        Op::QuantizeLinearI8 { .. } => (
            vec![typed(TypeFact::Any, out.shape.clone())],
            typed(TypeFact::Only(DatumType::I8), ins[0].shape.clone()),
        ),
        Op::DequantizeLinearF32 { .. } => (
            vec![typed(TypeFact::Any, out.shape.clone())],
            typed(TypeFact::Only(DatumType::F32), ins[0].shape.clone()),
        ),
    };
    proof {
        if arity(op@) > 0 {
            assert(insm[0] == ins@[0]@);
        }
        if arity(op@) > 1 {
            assert(insm[1] == ins@[1]@);
        }
    }
    assert(v@.map_values(|f: TensorFact| f@) =~= want.0);
    (v, o)
}

/// Whether the solver computes the output value of `op` once all its input
/// values are known: the stateless operators with inputs.
pub open spec fn foldable(op: OpModel) -> bool {
    op is Identity || op is Add || op is Flatten || op is Reduce
}

/// Every fact gives a well-formed value.
pub open spec fn known_values(ins: Seq<FactModel>) -> bool {
    forall|k: int| 0 <= k < ins.len() ==> (#[trigger] ins[k]).value is Only && ins[k].value->Only_0.wf()
}

/// The values the facts give.
pub open spec fn values_of(ins: Seq<FactModel>) -> Seq<TensorModel> {
    ins.map_values(|f: FactModel| f.value->Only_0)
}

/// The facts a node running `op` implies at its inputs and its output: those
/// of `base_rules`, and, for an operator the solver folds whose input values
/// are all known, the computed output value. None when that computation
/// fails: the node then infers nothing in this pass.
pub open spec fn rules_model(op: OpModel, ins: Seq<FactModel>, out: FactModel) -> Option<(Seq<FactModel>, FactModel)> {
    let b = base_rules(op, ins, out);
    if foldable(op) && known_values(ins) {
        match eval_model(op, values_of(ins)) {
            Ok(t) => Some((b.0, FactModel { value: ValueModel::Only(t), ..b.1 })),
            Err(_) => None,
        }
    } else {
        Some(b)
    }
}

fn is_foldable(op: &Op) -> (r: bool)
    ensures
        r == foldable(op@),
{
    match op {
        Op::Identity | Op::Add | Op::Flatten(_) | Op::Reduce(_) => true,
        _ => false,
    }
}

/// The facts a node running `op` implies (see `rules_model`).
#[verifier::loop_isolation(false)]
pub fn rules(op: &Op, ins: &Vec<TensorFact>, out: &TensorFact) -> (r: Option<(Vec<TensorFact>, TensorFact)>)
    requires
        ins@.len() == arity(op@),
    ensures
        r matches Some(p) ==> rules_model(op@, ins@.map_values(|f: TensorFact| f@), out@) matches Some(q)
            && p.0@.len() == arity(op@) && p.0@.map_values(|f: TensorFact| f@) == q.0 && p.1@ == q.1,
        r is None <==> rules_model(op@, ins@.map_values(|f: TensorFact| f@), out@) is None,
{
    let ghost insm = ins@.map_values(|f: TensorFact| f@);
    let (v, mut o) = base_rules_of(op, ins, out);
    if !is_foldable(op) {
        return Some((v, o));
    }
    let mut vals: Vec<Tensor> = Vec::new();
    let mut k: usize = 0;
    while k < ins.len()
        invariant
            0 <= k <= ins@.len(),
            vals@.len() == k,
            forall|j: int| 0 <= j < k ==> insm[j].value is Only && insm[j].value->Only_0.wf()
                && (#[trigger] vals@[j])@ == insm[j].value->Only_0,
        decreases ins.len() - k,
    {
        assert(insm[k as int] == ins@[k as int]@);
        match &ins[k].value {
            ValueFact::Only(t) => {
                if !t.is_wf() {
                    assert(!known_values(insm));
                    return Some((v, o));
                }
                vals.push(t.clone());
            },
            ValueFact::Any => {
                assert(!known_values(insm));
                return Some((v, o));
            },
        }
        k += 1;
    }
    assert forall|j: int| 0 <= j < insm.len() implies (#[trigger] insm[j]).value is Only && insm[j].value->Only_0.wf() by {
        assert(vals@[j]@ == insm[j].value->Only_0);
    }
    assert(crate::ops::tensor_models(vals@) =~= values_of(insm));
    match op.eval(vals) {
        Ok(t) => {
            o.value = ValueFact::Only(t);
            Some((v, o))
        },
        Err(_) => None,
    }
}

} // verus!
