//! The closed family of operators a graph node may carry.
use vstd::prelude::*;
use crate::datum::DatumType;
use crate::flatten::Flatten;
use crate::errors::TractError;
use crate::flatten::flattened;
use crate::reduce::{lemma_reduce_exact, reduce_model, Reduce, Reducer};
use crate::tensor::{in_range, is_integer, is_integer_type, DataModel, Tensor, TensorData, TensorModel};

verus! {

/// An operator. Quantization scales are kept as the bit patterns of their
/// `f32` values.
#[allow(inconsistent_fields)]
#[derive(Debug)]
pub enum Op {
    /// A graph input of the given element type.
    Source { datum_type: DatumType },
    /// A constant tensor.
    Const(Tensor),
    /// Passes its input through.
    Identity,
    /// Element-wise sum of two tensors of the same type and shape.
    Add,
    Flatten(Flatten),
    Reduce(Reduce),
    /// `f32` or `i32` to `u8`: `round(x * scale) + zero_point`.
    QuantizeLinearU8 { scale_bits: u32, zero_point: u8 },
    /// `f32` or `i32` to `i8`: `round(x * scale) + zero_point`.
    QuantizeLinearI8 { scale_bits: u32, zero_point: i8 },
    /// `i8`, `u8` or `i32` to `f32`: `(x - zero_point) * scale`.
    DequantizeLinearF32 { scale_bits: u32, zero_point: i32 },
}

impl Clone for Op {
    fn clone(&self) -> (r: Self)
        ensures
            r@ == self@,
    {
        match self {
            Op::Source { datum_type } => Op::Source { datum_type: *datum_type },
            Op::Const(t) => Op::Const(t.clone()),
            Op::Identity => Op::Identity,
            Op::Add => Op::Add,
            Op::Flatten(f) => Op::Flatten(*f),
            Op::Reduce(r) => Op::Reduce(r.clone()),
            Op::QuantizeLinearU8 { scale_bits, zero_point } => Op::QuantizeLinearU8 { scale_bits: *scale_bits, zero_point: *zero_point },
            Op::QuantizeLinearI8 { scale_bits, zero_point } => Op::QuantizeLinearI8 { scale_bits: *scale_bits, zero_point: *zero_point },
            Op::DequantizeLinearF32 { scale_bits, zero_point } => Op::DequantizeLinearF32 { scale_bits: *scale_bits, zero_point: *zero_point },
        }
    }
}

/// The parameters of an operator, mathematically.
#[allow(inconsistent_fields)]
pub enum OpModel {
    Source { datum_type: DatumType },
    Const(TensorModel),
    Identity,
    Add,
    Flatten { axis: usize },
    Reduce { axes: Seq<usize>, reducer: Reducer },
    QuantizeLinearU8 { scale_bits: u32, zero_point: u8 },
    QuantizeLinearI8 { scale_bits: u32, zero_point: i8 },
    DequantizeLinearF32 { scale_bits: u32, zero_point: i32 },
}

impl View for Op {
    type V = OpModel;

    open spec fn view(&self) -> OpModel {
        match self {
            Op::Source { datum_type } => OpModel::Source { datum_type: *datum_type },
            Op::Const(t) => OpModel::Const(t@),
            Op::Identity => OpModel::Identity,
            Op::Add => OpModel::Add,
            Op::Flatten(f) => OpModel::Flatten { axis: f.axis },
            Op::Reduce(r) => OpModel::Reduce { axes: r.axes@, reducer: r.reducer },
            Op::QuantizeLinearU8 { scale_bits, zero_point } => OpModel::QuantizeLinearU8 {
                scale_bits: *scale_bits,
                zero_point: *zero_point,
            },
            Op::QuantizeLinearI8 { scale_bits, zero_point } => OpModel::QuantizeLinearI8 {
                scale_bits: *scale_bits,
                zero_point: *zero_point,
            },
            Op::DequantizeLinearF32 { scale_bits, zero_point } => OpModel::DequantizeLinearF32 {
                scale_bits: *scale_bits,
                zero_point: *zero_point,
            },
        }
    }
}

/// The number of inputs an operator takes.
pub open spec fn arity(op: OpModel) -> nat {
    match op {
        OpModel::Source { .. } | OpModel::Const(_) => 0,
        OpModel::Add => 2,
        _ => 1,
    }
}

/// The mathematical tensors of a vector of tensors.
pub open spec fn tensor_models(v: Seq<Tensor>) -> Seq<TensorModel> {
    v.map_values(|t: Tensor| t@)
}

/// The element-wise sum of `a` and `b`: they must have the same integer
/// type and the same shape, and every sum must stay in the range of the type.
pub open spec fn add_model(a: TensorModel, b: TensorModel) -> Result<TensorModel, TractError> {
    if a.datum_type != b.datum_type {
        Err(TractError::DtypeError { expected: a.datum_type, got: b.datum_type })
    } else if !is_integer(a.datum_type) {
        Err(TractError::DtypeError { expected: DatumType::I64, got: a.datum_type })
    } else if a.shape != b.shape {
        Err(TractError::ShapeError { expected: a.shape.len() as usize, got: b.shape.len() as usize })
    } else {
        match (a.data, b.data) {
            (DataModel::Scalars(x), DataModel::Scalars(y)) =>
                if exists|i: int| 0 <= i < x.len() && !in_range(a.datum_type, #[trigger] x[i] + y[i]) {
                    Err(TractError::NumericError)
                } else {
                    Ok(TensorModel {
                        datum_type: a.datum_type,
                        shape: a.shape,
                        data: DataModel::Scalars(Seq::new(x.len(), |i: int| (x[i] + y[i]) as i64)),
                    })
                },
            _ => Err(TractError::DtypeError { expected: DatumType::I64, got: a.datum_type }),
        }
    }
}

/// Adds two tensors of the same integer type and shape, element by element.
#[verifier::loop_isolation(false)]
pub fn add_tensors(a: &Tensor, b: &Tensor) -> (r: Result<Tensor, TractError>)
    requires
        a@.wf(),
        b@.wf(),
    ensures
        r matches Ok(t) ==> add_model(a@, b@) == Ok::<TensorModel, TractError>(t@) && t@.wf(),
        r matches Err(e) ==> add_model(a@, b@) == Err::<TensorModel, TractError>(e),
{
    if a.datum_type != b.datum_type {
        return Err(TractError::DtypeError { expected: a.datum_type, got: b.datum_type });
    }
    if !is_integer_type(a.datum_type) {
        return Err(TractError::DtypeError { expected: DatumType::I64, got: a.datum_type });
    }
    let mut same = a.shape.len() == b.shape.len();
    let mut k: usize = 0;
    while same && k < a.shape.len()
        invariant
            0 <= k <= a.shape@.len(),
            same ==> a.shape@.len() == b.shape@.len() && forall|j: int| 0 <= j < k ==> a.shape@[j] == b.shape@[j],
            !same ==> a@.shape != b@.shape,
            a.datum_type == b.datum_type,
            is_integer(a.datum_type),
        decreases a.shape.len() - k + (if same { 1int } else { 0 }),
    {
        if a.shape[k] != b.shape[k] {
            assert(a@.shape[k as int] != b@.shape[k as int]);
            same = false;
        } else {
            k += 1;
        }
    }
    if !same {
        return Err(TractError::ShapeError { expected: a.shape.len(), got: b.shape.len() });
    }
    assert(a.shape@ =~= b.shape@);
    let (x, y) = match (&a.data, &b.data) {
        (TensorData::Scalars(x), TensorData::Scalars(y)) => (x, y),
        _ => return Err(TractError::DtypeError { expected: DatumType::I64, got: a.datum_type }),
    };
    assert(a@.data == DataModel::Scalars(x@) && b@.data == DataModel::Scalars(y@));
    let mut z: Vec<i64> = Vec::new();
    let mut i: usize = 0;
    while i < x.len()
        invariant
            0 <= i <= x@.len(),
            x@.len() == y@.len(),
            z@.len() == i,
            forall|j: int| 0 <= j < i ==> #[trigger] z@[j] as int == x@[j] + y@[j],
            forall|j: int| 0 <= j < i ==> in_range(a.datum_type, #[trigger] z@[j] as int),
        decreases x.len() - i,
    {
        let v = x[i] as i128 + y[i] as i128;
        if !crate::tensor::fits_type(a.datum_type, v) {
            assert(!in_range(a@.datum_type, x@[i as int] + y@[i as int]));
            return Err(TractError::NumericError);
        }
        z.push(v as i64);
        i += 1;
    }
    let shape = a.shape.clone();
    assert(shape@ =~= a.shape@);
    assert(z@ =~= Seq::new(x@.len(), |i: int| (x@[i] + y@[i]) as i64));
    assert forall|i: int| 0 <= i < x@.len() implies in_range(a@.datum_type, #[trigger] x@[i] + y@[i]) by {
        assert(z@[i] as int == x@[i] + y@[i]);
    }
    Ok(Tensor { datum_type: a.datum_type, shape, data: TensorData::Scalars(z) })
}

/// The flattening of `x` around `axis` (see `Flatten::eval`).
pub open spec fn flatten_model(x: TensorModel, axis: usize) -> Result<TensorModel, TractError> {
    let p = flattened(x.shape, axis as int);
    if axis > x.shape.len() {
        Err(TractError::ShapeError { expected: x.shape.len() as usize, got: axis })
    } else if p[0] > usize::MAX || p[1] > usize::MAX {
        Err(TractError::ShapeError { expected: usize::MAX, got: axis })
    } else {
        Ok(TensorModel { shape: seq![p[0] as usize, p[1] as usize], ..x })
    }
}

/// What `op` computes from the tensors `ins`. A source has no computation
/// and the quantization operators compute in floating point: these fail.
pub open spec fn eval_model(op: OpModel, ins: Seq<TensorModel>) -> Result<TensorModel, TractError> {
    match op {
        OpModel::Source { .. } => Err(TractError::InvalidGraph),
        OpModel::Const(c) => Ok(c),
        OpModel::Identity => Ok(ins[0]),
        OpModel::Add => add_model(ins[0], ins[1]),
        OpModel::Flatten { axis } => flatten_model(ins[0], axis),
        OpModel::Reduce { axes, reducer } => reduce_model(reducer, ins[0], axes),
        OpModel::QuantizeLinearU8 { .. } => Err(TractError::DtypeError { expected: DatumType::U8, got: DatumType::F32 }),
        OpModel::QuantizeLinearI8 { .. } => Err(TractError::DtypeError { expected: DatumType::I8, got: DatumType::F32 }),
        OpModel::DequantizeLinearF32 { .. } => Err(TractError::DtypeError { expected: DatumType::F32, got: DatumType::I32 }),
    }
}

/// `out` is what `op` computes from `ins`.
pub open spec fn evaluates(op: OpModel, ins: Seq<TensorModel>, out: TensorModel) -> bool {
    eval_model(op, ins) == Ok::<TensorModel, TractError>(out)
}

impl Op {
    /// Computes the output of the operator from its inputs. A source has no
    /// computation, its value is bound by the caller: it fails with
    /// `InvalidGraph`. The quantization operators compute in floating point,
    /// which the library leaves to its host: they fail with `DtypeError`.
    pub fn eval(&self, inputs: Vec<Tensor>) -> (r: Result<Tensor, TractError>)
        requires
            inputs@.len() == arity(self@),
            forall|k: int| 0 <= k < inputs@.len() ==> (#[trigger] inputs@[k])@.wf(),
            self@ matches OpModel::Const(c) ==> c.wf(),
        ensures
            r matches Ok(t) ==> t@.wf() && eval_model(self@, tensor_models(inputs@)) == Ok::<TensorModel, TractError>(t@),
            r matches Err(e) ==> eval_model(self@, tensor_models(inputs@)) == Err::<TensorModel, TractError>(e),
    {
        let ghost ins = tensor_models(inputs@);
        proof {
            if inputs@.len() > 0 { assert(ins[0] == inputs@[0]@); }
            if inputs@.len() > 1 { assert(ins[1] == inputs@[1]@); }
        }
        let mut inputs = inputs;
        match self {
            Op::Source { .. } => Err(TractError::InvalidGraph),
            Op::Const(t) => Ok(t.clone()),
            Op::Identity => Ok(inputs.remove(0)),
            Op::Add => add_tensors(&inputs[0], &inputs[1]),
            Op::Flatten(f) => f.eval(inputs.remove(0)),
            Op::Reduce(red) => {
                let r = red.reducer.reduce(&red.axes, &inputs[0]);
                proof {
                    if r is Ok {
                        lemma_reduce_exact(red.reducer, ins[0], red.axes@, Some(r->Ok_0@), None);
                    } else {
                        lemma_reduce_exact(red.reducer, ins[0], red.axes@, None, Some(r->Err_0));
                    }
                }
                r
            },
            Op::QuantizeLinearU8 { .. } => Err(TractError::DtypeError { expected: DatumType::U8, got: DatumType::F32 }),
            Op::QuantizeLinearI8 { .. } => Err(TractError::DtypeError { expected: DatumType::I8, got: DatumType::F32 }),
            Op::DequantizeLinearF32 { .. } => Err(TractError::DtypeError { expected: DatumType::F32, got: DatumType::I32 }),
        }
    }

    /// The number of inputs the operator takes.
    pub fn arity(&self) -> (r: usize)
        ensures
            r == arity(self@),
    {
        match self {
            Op::Source { .. } | Op::Const(_) => 0,
            Op::Add => 2,
            _ => 1,
        }
    }

    /// Whether the operator computes each output element from the input
    /// elements at the same position.
    pub fn is_element_wise(&self) -> (r: bool)
        ensures
            r == (self@ is Identity || self@ is Add || self@ is QuantizeLinearU8 || self@ is QuantizeLinearI8
                || self@ is DequantizeLinearF32),
    {
        match self {
            Op::Identity | Op::Add | Op::QuantizeLinearU8 { .. } | Op::QuantizeLinearI8 { .. }
            | Op::DequantizeLinearF32 { .. } => true,
            _ => false,
        }
    }
}

} // verus!
