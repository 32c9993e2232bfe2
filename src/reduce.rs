//! The `Reduce` operator: folds a tensor along some of its axes.
use vstd::prelude::*;
use crate::datum::DatumType;
use crate::errors::TractError;
use crate::tensor::{
    TensorModel,
    checked_shape_product, in_range, is_integer, scalar_range, shape_product, DataModel, Tensor,
    TensorData,
};

verus! {

/// How the elements along the reduced axes are combined.
#[derive(Debug, Clone, Copy, PartialEq, Eq, Structural)]
pub enum Reducer {
    L1,
    L2,
    LogSum,
    LogSumExp,
    Max,
    Mean,
    Min,
    Prod,
    Sum,
    SumSquare,
}

/// Reduces the input along `axes`, keeping each reduced axis with length 1.
#[derive(Debug)]
pub struct Reduce {
    pub axes: Vec<usize>,
    pub reducer: Reducer,
}

impl Clone for Reduce {
    fn clone(&self) -> (r: Self)
        ensures
            r.axes@ == self.axes@,
            r.reducer == self.reducer,
    {
        let axes = self.axes.clone();
        assert(axes@ =~= self.axes@);
        Reduce { axes, reducer: self.reducer }
    }
}

impl Reduce {
    /// The axes of an input of rank `rank` that pass through unchanged: those
    /// that are not reduced, in increasing order.
    pub fn invariants(&self, rank: usize) -> (r: Vec<usize>)
        ensures
            forall|a: usize| #![trigger r@.contains(a)] #![trigger self.axes@.contains(a)] a < rank ==> (r@.contains(a) <==> !self.axes@.contains(a)),
            forall|i: int, j: int| 0 <= i < j < r@.len() ==> r@[i] < r@[j],
            forall|i: int| 0 <= i < r@.len() ==> r@[i] < rank,
    {
        let mut r: Vec<usize> = Vec::new();
        let mut a: usize = 0;
        while a < rank
            invariant
                0 <= a <= rank,
                forall|b: usize| #![trigger r@.contains(b)] #![trigger self.axes@.contains(b)] b < a ==> (r@.contains(b) <==> !self.axes@.contains(b)),
                forall|i: int, j: int| 0 <= i < j < r@.len() ==> r@[i] < r@[j],
                forall|i: int| 0 <= i < r@.len() ==> r@[i] < a,
            decreases rank - a,
        {
            let ghost before = r@;
            if !contains(&self.axes, a) {
                r.push(a);
                proof {
                    assert(r@[before.len() as int] == a);
                    assert forall|b: usize| b < a implies (#[trigger] r@.contains(b) <==> before.contains(b)) by {
                        if r@.contains(b) {
                            let k = choose|k: int| 0 <= k < r@.len() && r@[k] == b;
                            if k < before.len() {
                                assert(before[k] == b);
                            }
                        }
                        if before.contains(b) {
                            let k = choose|k: int| 0 <= k < before.len() && before[k] == b;
                            assert(r@[k] == b);
                        }
                    }
                    assert(r@.contains(a));
                }
            } else {
                proof {
                    assert(!r@.contains(a)) by {
                        if r@.contains(a) {
                            let k = choose|k: int| 0 <= k < r@.len() && r@[k] == a;
                        }
                    }
                }
            }
            a += 1;
        }
        r
    }

    /// The operator once the axes of its input change: each reduced axis
    /// follows the change; none when a reduced axis is removed.
    pub fn change_axes(&self, change: &AxisOp) -> (r: Option<Reduce>)
        ensures
            r matches Some(op) ==> op.reducer == self.reducer && op.axes@.len() == self.axes@.len()
                && forall|i: int| 0 <= i < self.axes@.len() ==> moved_axis(*change, self.axes@[i]) == Some(#[trigger] op.axes@[i]),
            r is None <==> exists|i: int| 0 <= i < self.axes@.len() && #[trigger] moved_axis(*change, self.axes@[i]) is None,
    {
        let mut axes: Vec<usize> = Vec::new();
        let mut i: usize = 0;
        while i < self.axes.len()
            invariant
                0 <= i <= self.axes@.len(),
                axes@.len() == i,
                forall|j: int| 0 <= j < i ==> moved_axis(*change, self.axes@[j]) == Some(#[trigger] axes@[j]),
            decreases self.axes.len() - i,
        {
            match change.transform_axis(self.axes[i]) {
                Some(a) => axes.push(a),
                None => return None,
            }
            i += 1;
        }
        assert forall|j: int| 0 <= j < self.axes@.len() implies (#[trigger] moved_axis(*change, self.axes@[j])) is Some by {
            assert(moved_axis(*change, self.axes@[j]) == Some(axes@[j]));
        }
        Some(Reduce { axes, reducer: self.reducer })
    }

    /// The operator reducing `axes` with `reducer`.
    pub fn new(axes: Vec<usize>, reducer: Reducer) -> (r: Reduce)
        ensures
            r.axes@ == axes@,
            r.reducer == reducer,
    {
        Reduce { axes, reducer }
    }
}

/// A change of the axes of a tensor: an axis inserted at a position, or the
/// axis at a position removed.
#[derive(Debug, Clone, Copy, PartialEq, Eq, Structural)]
pub enum AxisOp {
    Add(usize),
    Rm(usize),
}

/// Where axis `a` goes under the change, none when it is the removed one.
pub open spec fn moved_axis(op: AxisOp, a: usize) -> Option<usize> {
    match op {
        AxisOp::Add(at) => if a >= at { if a < usize::MAX { Some((a + 1) as usize) } else { None } } else { Some(a) },
        AxisOp::Rm(at) => if a == at { None } else if a > at { Some((a - 1) as usize) } else { Some(a) },
    }
}

impl AxisOp {
    /// Where axis `a` goes under the change (see `moved_axis`).
    pub fn transform_axis(&self, a: usize) -> (r: Option<usize>)
        ensures
            r == moved_axis(*self, a),
    {
        match self {
            AxisOp::Add(at) => if a >= *at { if a < usize::MAX { Some(a + 1) } else { None } } else { Some(a) },
            AxisOp::Rm(at) => if a == *at { None } else if a > *at { Some(a - 1) } else { Some(a) },
        }
    }
}

/// The shape of the result of reducing `shape` over `axes`.
pub open spec fn reduced_dims(shape: Seq<usize>, axes: Seq<usize>) -> Seq<usize> {
    Seq::new(shape.len(), |k: int| if axes.contains(k as usize) { 1usize } else { shape[k] })
}

/// The position in the result of the input element at row-major position
/// `i` of a tensor of shape `shape`: its coordinates on the reduced axes
/// become 0.
pub open spec fn out_index(shape: Seq<usize>, axes: Seq<usize>, i: int) -> int
    decreases shape.len(),
{
    if shape.len() == 0 || shape.last() == 0 {
        0
    } else {
        let d = shape.last() as int;
        let ax = (shape.len() - 1) as usize;
        let up = out_index(shape.drop_last(), axes, i / d);
        if axes.contains(ax) {
            up
        } else {
            up * d + i % d
        }
    }
}

/// The smallest and largest values of an integer type.
pub open spec fn type_min(dt: DatumType) -> int {
    scalar_range(dt)->Some_0.0
}

pub open spec fn type_max(dt: DatumType) -> int {
    scalar_range(dt)->Some_0.1
}

/// The value a reduction starts from.
pub open spec fn initial(r: Reducer, dt: DatumType) -> int {
    match r {
        Reducer::Prod => 1,
        Reducer::Max => type_min(dt),
        Reducer::Min => type_max(dt),
        _ => 0,
    }
}

/// One step of a reduction; none when the result leaves the range of `dt`.
pub open spec fn combine(r: Reducer, dt: DatumType, a: int, x: int) -> Option<int> {
    let v = match r {
        Reducer::Prod => a * x,
        Reducer::Max => if a > x { a } else { x },
        Reducer::Min => if a < x { a } else { x },
        Reducer::L1 => a + (if x < 0 { -x } else { x }),
        Reducer::SumSquare => a + x * x,
        _ => a + x,
    };
    if in_range(dt, v) {
        Some(v)
    } else {
        None
    }
}

/// The reduction of the elements among the first `n` of `data` that land at
/// position `o` of the result.
pub open spec fn fold_at(
    r: Reducer,
    dt: DatumType,
    data: Seq<i64>,
    shape: Seq<usize>,
    axes: Seq<usize>,
    o: int,
    n: int,
) -> Option<int>
    decreases n,
{
    if n <= 0 {
        Some(initial(r, dt))
    } else {
        match fold_at(r, dt, data, shape, axes, o, n - 1) {
            None => None,
            Some(a) => if out_index(shape, axes, n - 1) == o {
                combine(r, dt, a, data[n - 1] as int)
            } else {
                Some(a)
            },
        }
    }
}

/// Division rounding toward zero.
pub open spec fn trunc_div(a: int, b: int) -> int {
    if a >= 0 {
        a / b
    } else {
        -((-a) / b)
    }
}

/// Whether the reducer is computed exactly on integers.
pub open spec fn integer_reducer(r: Reducer) -> bool {
    !(r is L2 || r is LogSum || r is LogSumExp)
}

/// The number of input elements that land at each position of the result.
pub open spec fn group_size(shape: Seq<usize>, axes: Seq<usize>) -> int {
    let out = shape_product(reduced_dims(shape, axes));
    if out == 0 { 0 } else { shape_product(shape) / out }
}

/// The value at position `o` of the reduction, when every step stays in range.
pub open spec fn reduced_value(r: Reducer, dt: DatumType, data: Seq<i64>, shape: Seq<usize>, axes: Seq<usize>, o: int) -> Option<int> {
    match fold_at(r, dt, data, shape, axes, o, data.len() as int) {
        None => None,
        Some(v) => if r is Mean {
            if group_size(shape, axes) == 0 { None } else { Some(trunc_div(v, group_size(shape, axes))) }
        } else {
            Some(v)
        },
    }
}

/// `t` is the reduction of `x` over `axes` by `r`.
pub open spec fn reduced_as(r: Reducer, x: TensorModel, axes: Seq<usize>, t: TensorModel) -> bool {
    &&& is_integer(x.datum_type) && integer_reducer(r)
    &&& t.datum_type == x.datum_type
    &&& t.shape == reduced_dims(x.shape, axes)
    &&& t.wf()
    &&& match (x.data, t.data) {
        (DataModel::Scalars(d), DataModel::Scalars(out)) => forall|o: int| 0 <= o < out.len()
            ==> reduced_value(r, x.datum_type, d, x.shape, axes, o) == Some(#[trigger] out[o] as int),
        _ => false,
    }
}

/// `e` is the error of reducing `x` over `axes` by `r`: a type error on a
/// non-integer tensor or a reducer that needs floating point, else a numeric
/// error because the result is too large or one of its values is undefined.
pub open spec fn reduce_error(r: Reducer, x: TensorModel, axes: Seq<usize>, e: TractError) -> bool {
    if !is_integer(x.datum_type) || !integer_reducer(r) {
        e == TractError::DtypeError { expected: DatumType::I64, got: x.datum_type }
    } else {
        &&& e == TractError::NumericError
        &&& match x.data {
            DataModel::Scalars(d) => shape_product(reduced_dims(x.shape, axes)) > usize::MAX
                || exists|o: int| 0 <= o < shape_product(reduced_dims(x.shape, axes))
                    && #[trigger] reduced_value(r, x.datum_type, d, x.shape, axes, o) is None,
            DataModel::Dims(_) => false,
        }
    }
}

/// The reduction of `x` over `axes` by `r` (see `reduced_as` and
/// `reduce_error`).
pub open spec fn reduce_model(r: Reducer, x: TensorModel, axes: Seq<usize>) -> Result<TensorModel, TractError> {
    let out = shape_product(reduced_dims(x.shape, axes));
    if !is_integer(x.datum_type) || !integer_reducer(r) {
        Err(TractError::DtypeError { expected: DatumType::I64, got: x.datum_type })
    } else {
        match x.data {
            DataModel::Scalars(d) => if out > usize::MAX
                || exists|o: int| 0 <= o < out && #[trigger] reduced_value(r, x.datum_type, d, x.shape, axes, o) is None {
                Err(TractError::NumericError)
            } else {
                Ok(TensorModel {
                    datum_type: x.datum_type,
                    shape: reduced_dims(x.shape, axes),
                    data: DataModel::Scalars(Seq::new(out as nat, |o: int| reduced_value(r, x.datum_type, d, x.shape, axes, o)->Some_0 as i64)),
                })
            },
            DataModel::Dims(_) => Err(TractError::DtypeError { expected: DatumType::I64, got: x.datum_type }),
        }
    }
}

/// A result and an error of `reduce` are those of `reduce_model`.
pub proof fn lemma_reduce_exact(r: Reducer, x: TensorModel, axes: Seq<usize>, t: Option<TensorModel>, e: Option<TractError>)
    requires
        x.wf(),
        t matches Some(t) ==> reduced_as(r, x, axes, t) && shape_product(reduced_dims(x.shape, axes)) <= usize::MAX,
        e matches Some(e) ==> reduce_error(r, x, axes, e),
    ensures
        t matches Some(t) ==> reduce_model(r, x, axes) == Ok::<TensorModel, TractError>(t),
        e matches Some(e) ==> reduce_model(r, x, axes) == Err::<TensorModel, TractError>(e),
{
    if let Some(t) = t {
        let out = shape_product(reduced_dims(x.shape, axes));
        if let (DataModel::Scalars(d), DataModel::Scalars(v)) = (x.data, t.data) {
            assert(v.len() == out);
            assert forall|o: int| 0 <= o < out implies !(#[trigger] reduced_value(r, x.datum_type, d, x.shape, axes, o) is None) by {
                assert(reduced_value(r, x.datum_type, d, x.shape, axes, o) == Some(v[o] as int));
            }
            let m = reduce_model(r, x, axes)->Ok_0;
            assert(m.data->Scalars_0 =~= v) by {
                assert forall|o: int| 0 <= o < v.len() implies m.data->Scalars_0[o] == v[o] by {
                    assert(reduced_value(r, x.datum_type, d, x.shape, axes, o) == Some(v[o] as int));
                }
            }
        }
    }
}

/// The position of input element `i` in the result (see `out_index`).
fn out_index_of(shape: &Vec<usize>, axes: &Vec<usize>, len: usize, i: usize) -> (r: usize)
    requires
        len <= shape@.len(),
    ensures
        r == out_index(shape@.subrange(0, len as int), axes@, i as int),
        r <= i,
    decreases len,
{
    let ghost s = shape@.subrange(0, len as int);
    if len == 0 || shape[len - 1] == 0 {
        return 0;
    }
    let d = shape[len - 1];
    assert(s.drop_last() =~= shape@.subrange(0, len - 1));
    let up = out_index_of(shape, axes, len - 1, i / d);
    let ax = len - 1;
    let c = i % d;
    if contains(axes, ax) {
        proof { vstd::arithmetic::div_mod::lemma_div_is_ordered_by_denominator(i as int, 1, d as int); }
        up
    } else {
        proof {
            vstd::arithmetic::div_mod::lemma_fundamental_div_mod(i as int, d as int);
            assert(up * d + c <= i) by (nonlinear_arith)
                requires up <= i / d, d > 0, i == d * (i / d) + c, c == i % d;
        }
        up * d + c
    }
}

fn contains(axes: &Vec<usize>, a: usize) -> (r: bool)
    ensures
        r == axes@.contains(a),
{
    let mut i: usize = 0;
    while i < axes.len()
        invariant
            0 <= i <= axes@.len(),
            forall|j: int| 0 <= j < i ==> axes@[j] != a,
        decreases axes.len() - i,
    {
        if axes[i] == a {
            return true;
        }
        i += 1;
    }
    false
}

/// A position in the input lands inside the result.
proof fn lemma_out_index_bound(shape: Seq<usize>, axes: Seq<usize>, i: int)
    requires
        0 <= i < shape_product(shape),
    ensures
        0 <= out_index(shape, axes, i) < shape_product(reduced_dims(shape, axes)),
    decreases shape.len(),
{
    let rd = reduced_dims(shape, axes);
    if shape.len() == 0 {
    } else {
        let d = shape.last() as int;
        let p = shape_product(shape.drop_last());
        assert(rd.drop_last() =~= reduced_dims(shape.drop_last(), axes));
        let op = shape_product(rd.drop_last());
        if d == 0 {
            assert(p * d == 0) by (nonlinear_arith) requires d == 0;
        } else {
            vstd::arithmetic::div_mod::lemma_fundamental_div_mod(i, d);
            let q = i / d;
            let c = i % d;
            assert(0 <= q < p) by (nonlinear_arith)
                requires i == d * q + c, 0 <= c < d, 0 <= i < p * d, d > 0;
            lemma_out_index_bound(shape.drop_last(), axes, q);
            let up = out_index(shape.drop_last(), axes, q);
            let ax = (shape.len() - 1) as usize;
            if axes.contains(ax) {
                assert(rd.last() == 1);
                assert(up < op * 1);
            } else {
                assert(rd.last() == d);
                assert(up * d + c < op * d) by (nonlinear_arith)
                    requires 0 <= up < op, 0 <= c < d;
                assert(up * d + c >= 0) by (nonlinear_arith)
                    requires 0 <= up, 0 <= c, d > 0;
            }
        }
    }
}

fn combine_exec(r: Reducer, dt: DatumType, a: i64, x: i64) -> (res: Option<i64>)
    requires
        scalar_range(dt) is Some,
    ensures
        res matches Some(v) ==> combine(r, dt, a as int, x as int) == Some(v as int),
        res is None ==> combine(r, dt, a as int, x as int) is None,
{
    let a = a as i128;
    let x = x as i128;
    proof {
        assert(-0x8000_0000_0000_0000 * 0x8000_0000_0000_0000 <= a * x <= 0x8000_0000_0000_0000 * 0x8000_0000_0000_0000) by (nonlinear_arith)
            requires
                -0x8000_0000_0000_0000 <= a <= 0x7fff_ffff_ffff_ffff,
                -0x8000_0000_0000_0000 <= x <= 0x7fff_ffff_ffff_ffff;
        assert(0 <= x * x <= 0x8000_0000_0000_0000 * 0x8000_0000_0000_0000) by (nonlinear_arith)
            requires
                -0x8000_0000_0000_0000 <= x <= 0x7fff_ffff_ffff_ffff;
    }
    let v: i128 = match r {
        Reducer::Prod => a * x,
        Reducer::Max => if a > x { a } else { x },
        Reducer::Min => if a < x { a } else { x },
        Reducer::L1 => a + (if x < 0 { -x } else { x }),
        Reducer::SumSquare => a + x * x,
        _ => a + x,
    };
    let (lo, hi): (i128, i128) = match dt {
        DatumType::Bool => (0, 1),
        DatumType::U8 => (0, 0xff),
        DatumType::U16 => (0, 0xffff),
        DatumType::I8 => (-0x80, 0x7f),
        DatumType::I16 => (-0x8000, 0x7fff),
        DatumType::I32 => (-0x8000_0000, 0x7fff_ffff),
        DatumType::F16 => (0, 0xffff),
        DatumType::F32 => (0, 0xffff_ffff),
        _ => (-0x8000_0000_0000_0000, 0x7fff_ffff_ffff_ffff),
    };
    if lo <= v && v <= hi {
        Some(v as i64)
    } else {
        None
    }
}

fn initial_exec(r: Reducer, dt: DatumType) -> (res: i64)
    requires
        is_integer(dt),
    ensures
        res == initial(r, dt),
{
    match r {
        Reducer::Prod => 1,
        Reducer::Max => match dt {
            DatumType::U8 | DatumType::U16 => 0,
            DatumType::I8 => -0x80,
            DatumType::I16 => -0x8000,
            DatumType::I32 => -0x8000_0000,
            _ => i64::MIN,
        },
        Reducer::Min => match dt {
            DatumType::U8 => 0xff,
            DatumType::U16 => 0xffff,
            DatumType::I8 => 0x7f,
            DatumType::I16 => 0x7fff,
            DatumType::I32 => 0x7fff_ffff,
            _ => i64::MAX,
        },
        _ => 0,
    }
}

impl Reducer {
    /// Reduces an integer tensor over `axes` (axes out of its rank are
    /// ignored). The result has the input's shape with each reduced axis of
    /// length 1; each of its elements combines, in row-major order, the input
    /// elements that agree with it on the other axes. Fails with
    /// `DtypeError` on a non-integer tensor or a reducer that needs floating
    /// point, and with `NumericError` when a step leaves the range of the
    /// element type or a mean is taken over no element.
    #[verifier::loop_isolation(false)]
    pub fn reduce(&self, axes: &Vec<usize>, input: &Tensor) -> (r: Result<Tensor, TractError>)
        requires
            input@.wf(),
        ensures
            r matches Ok(t) ==> reduced_as(*self, input@, axes@, t@)
                && shape_product(reduced_dims(input@.shape, axes@)) <= usize::MAX,
            r matches Err(e) ==> reduce_error(*self, input@, axes@, e),
    {
        let dt = input.datum_type;
        let is_float_like = match self {
            Reducer::L2 | Reducer::LogSum | Reducer::LogSumExp => true,
            _ => false,
        };
        if !crate::tensor::is_integer_type(dt) || is_float_like {
            return Err(TractError::DtypeError { expected: DatumType::I64, got: dt });
        }
        let data = match &input.data {
            TensorData::Scalars(v) => v,
            TensorData::Dims(_) => return Err(TractError::DtypeError { expected: DatumType::I64, got: dt }),
        };
        assert(input@.data == DataModel::Scalars(data@));
        let mut oshape: Vec<usize> = Vec::new();
        let mut k: usize = 0;
        while k < input.shape.len()
            invariant
                0 <= k <= input.shape@.len(),
                oshape@ =~= reduced_dims(input.shape@, axes@).subrange(0, k as int),
            decreases input.shape.len() - k,
        {
            if contains(axes, k) {
                oshape.push(1);
            } else {
                oshape.push(input.shape[k]);
            }
            k += 1;
        }
        assert(oshape@ =~= reduced_dims(input@.shape, axes@));
        let on = match checked_shape_product(&oshape) {
            Some(n) => n,
            None => return Err(TractError::NumericError),
        };
        let init = initial_exec(*self, dt);
        let mut out: Vec<i64> = Vec::new();
        let mut j: usize = 0;
        while j < on
            invariant
                0 <= j <= on,
                out@.len() == j,
                forall|o: int| 0 <= o < j ==> out@[o] == initial(*self, dt),
            decreases on - j,
        {
            out.push(init);
            j += 1;
        }
        let n = data.len();
        let mut i: usize = 0;
        while i < n
            invariant
                0 <= i <= n,
                out@.len() == on,
                forall|o: int| 0 <= o < on ==> fold_at(*self, dt, data@, input@.shape, axes@, o, i as int)
                    == Some(#[trigger] out@[o] as int),
            decreases n - i,
        {
            let o = out_index_of(&input.shape, axes, input.shape.len(), i);
            assert(input.shape@.subrange(0, input.shape@.len() as int) =~= input.shape@);
            proof { lemma_out_index_bound(input@.shape, axes@, i as int); }
            let ghost before = out@;
            match combine_exec(*self, dt, out[o], data[i]) {
                Some(v) => out.set(o, v),
                None => {
                    proof {
                        lemma_none_stays(*self, dt, data@, input@.shape, axes@, o as int, i as int + 1);
                        assert(reduced_value(*self, dt, data@, input@.shape, axes@, o as int) is None);
                    }
                    return Err(TractError::NumericError);
                },
            }
            assert forall|q: int| 0 <= q < on implies fold_at(*self, dt, data@, input@.shape, axes@, q, i + 1)
                == Some(#[trigger] out@[q] as int) by {
                assert(before[q] as int == fold_at(*self, dt, data@, input@.shape, axes@, q, i as int)->Some_0);
            }
            i += 1;
        }
        if on > 0 && matches!(self, Reducer::Mean) {
            let count: usize = n / on;
            if count == 0 {
                assert(group_size(input@.shape, axes@) == 0);
                assert(reduced_value(*self, dt, data@, input@.shape, axes@, 0) is None);
                return Err(TractError::NumericError);
            }
            let mut q: usize = 0;
            while q < on
                invariant
                    0 <= q <= on,
                    out@.len() == on,
                    count as int == group_size(input@.shape, axes@),
                    count > 0,
                    forall|o: int| 0 <= o < q ==> reduced_value(*self, dt, data@, input@.shape, axes@, o)
                        == Some(#[trigger] out@[o] as int),
                    forall|o: int| q <= o < on ==> fold_at(*self, dt, data@, input@.shape, axes@, o, n as int)
                        == Some(#[trigger] out@[o] as int),
                decreases on - q,
            {
                let v = out[q] as i128;
                let c = count as i128;
                let m: i128 = if v >= 0 { v / c } else { -((-v) / c) };
                proof { lemma_trunc_div_bound(v as int, c as int); }
                out.set(q, m as i64);
                q += 1;
            }
        } else {
            assert forall|o: int| 0 <= o < on implies reduced_value(*self, dt, data@, input@.shape, axes@, o)
                == Some(#[trigger] out@[o] as int) by {
                assert(fold_at(*self, dt, data@, input@.shape, axes@, o, n as int) == Some(out@[o] as int));
            }
        }
        proof {
            assert forall|o: int| 0 <= o < out@.len() implies in_range(dt, #[trigger] out@[o] as int) by {
                lemma_value_in_range(*self, dt, data@, input@.shape, axes@, o);
            }
        }
        let t = Tensor { datum_type: dt, shape: oshape, data: TensorData::Scalars(out) };
        Ok(t)
    }
}

/// A truncated quotient by a positive integer lies between 0 and the dividend.
proof fn lemma_trunc_div_bound(v: int, c: int)
    requires
        c >= 1,
    ensures
        v >= 0 ==> 0 <= trunc_div(v, c) <= v,
        v < 0 ==> v <= trunc_div(v, c) <= 0,
{
    if v >= 0 {
        vstd::arithmetic::div_mod::lemma_div_is_ordered_by_denominator(v, 1, c);
        vstd::arithmetic::div_mod::lemma_div_pos_is_pos(v, c);
    } else {
        vstd::arithmetic::div_mod::lemma_div_is_ordered_by_denominator(-v, 1, c);
        vstd::arithmetic::div_mod::lemma_div_pos_is_pos(-v, c);
    }
}

/// Every defined reduction stays in the range of the element type.
proof fn lemma_fold_in_range(r: Reducer, dt: DatumType, data: Seq<i64>, shape: Seq<usize>, axes: Seq<usize>, o: int, n: int)
    requires
        is_integer(dt),
    ensures
        fold_at(r, dt, data, shape, axes, o, n) matches Some(v) ==> in_range(dt, v),
    decreases n,
{
    if n > 0 {
        lemma_fold_in_range(r, dt, data, shape, axes, o, n - 1);
    }
}

proof fn lemma_value_in_range(r: Reducer, dt: DatumType, data: Seq<i64>, shape: Seq<usize>, axes: Seq<usize>, o: int)
    requires
        is_integer(dt),
    ensures
        reduced_value(r, dt, data, shape, axes, o) matches Some(v) ==> in_range(dt, v),
{
    lemma_fold_in_range(r, dt, data, shape, axes, o, data.len() as int);
    if let Some(v) = fold_at(r, dt, data, shape, axes, o, data.len() as int) {
        if r is Mean && group_size(shape, axes) != 0 {
            crate::tensor::lemma_product_nonneg(shape);
            crate::tensor::lemma_product_nonneg(reduced_dims(shape, axes));
            let out = shape_product(reduced_dims(shape, axes));
            if out > 0 {
                vstd::arithmetic::div_mod::lemma_div_pos_is_pos(shape_product(shape), out);
            }
            lemma_trunc_div_bound(v, group_size(shape, axes));
        }
    }
}

/// Once a reduction leaves the range, it stays out of it.
proof fn lemma_none_stays(r: Reducer, dt: DatumType, data: Seq<i64>, shape: Seq<usize>, axes: Seq<usize>, o: int, n: int)
    requires
        0 <= n <= data.len(),
        fold_at(r, dt, data, shape, axes, o, n) is None,
    ensures
        fold_at(r, dt, data, shape, axes, o, data.len() as int) is None,
    decreases data.len() - n,
{
    if n < data.len() {
        lemma_none_stays(r, dt, data, shape, axes, o, n + 1);
    }
}

} // verus!
