//! Tensors: typed n-dimensional arrays stored in row-major order.
use vstd::prelude::*;
use crate::datum::DatumType;
use crate::dim::TDim;
use crate::errors::TractError;

verus! {

/// The elements of a tensor. Elements of the numeric types and `Bool` are
/// held as integers: the value itself for the integer types, `0` or `1` for
/// `Bool`, the IEEE bit pattern for the floating-point types.
#[derive(Debug)]
pub enum TensorData {
    Scalars(Vec<i64>),
    Dims(Vec<TDim>),
}

/// A tensor: element type, shape, and elements in row-major order.
#[derive(Debug)]
pub struct Tensor {
    pub datum_type: DatumType,
    pub shape: Vec<usize>,
    pub data: TensorData,
}

impl Clone for TensorData {
    fn clone(&self) -> (r: Self)
        ensures
            r@ == self@,
    {
        match self {
            TensorData::Scalars(v) => {
                let c = v.clone();
                assert(c@ =~= v@);
                TensorData::Scalars(c)
            },
            TensorData::Dims(v) => {
                let c = v.clone();
                assert(c@ =~= v@);
                TensorData::Dims(c)
            },
        }
    }
}

impl Clone for Tensor {
    fn clone(&self) -> (r: Self)
        ensures
            r@ == self@,
    {
        let shape = self.shape.clone();
        assert(shape@ =~= self.shape@);
        Tensor { datum_type: self.datum_type, shape, data: self.data.clone() }
    }
}

/// The elements of a tensor, mathematically.
pub enum DataModel {
    Scalars(Seq<i64>),
    Dims(Seq<TDim>),
}

/// A tensor, mathematically.
pub struct TensorModel {
    pub datum_type: DatumType,
    pub shape: Seq<usize>,
    pub data: DataModel,
}

impl View for Tensor {
    type V = TensorModel;

    open spec fn view(&self) -> TensorModel {
        TensorModel {
            datum_type: self.datum_type,
            shape: self.shape@,
            data: self.data@,
        }
    }
}

impl View for TensorData {
    type V = DataModel;

    open spec fn view(&self) -> DataModel {
        match self {
            TensorData::Scalars(v) => DataModel::Scalars(v@),
            TensorData::Dims(v) => DataModel::Dims(v@),
        }
    }
}

/// The number of elements of a tensor of the given shape.
pub open spec fn shape_product(s: Seq<usize>) -> int
    decreases s.len(),
{
    if s.len() == 0 {
        1
    } else {
        shape_product(s.drop_last()) * s.last()
    }
}

/// The range of the integers that stand for an element of type `dt`, if
/// elements of that type are held as integers.
pub open spec fn scalar_range(dt: DatumType) -> Option<(int, int)> {
    match dt {
        DatumType::Bool => Some((0, 1)),
        DatumType::U8 => Some((0, 0xff)),
        DatumType::U16 => Some((0, 0xffff)),
        DatumType::I8 => Some((-0x80, 0x7f)),
        DatumType::I16 => Some((-0x8000, 0x7fff)),
        DatumType::I32 => Some((-0x8000_0000, 0x7fff_ffff)),
        DatumType::I64 => Some((i64::MIN as int, i64::MAX as int)),
        DatumType::F16 => Some((0, 0xffff)),
        DatumType::F32 => Some((0, 0xffff_ffff)),
        DatumType::F64 => Some((i64::MIN as int, i64::MAX as int)),
        DatumType::TDim | DatumType::String => None,
    }
}

/// Whether `v` stands for an element of type `dt`.
pub open spec fn in_range(dt: DatumType, v: int) -> bool {
    scalar_range(dt) matches Some((lo, hi)) && lo <= v <= hi
}

/// Whether every element of `s` stands for an element of type `dt`.
pub open spec fn all_in_range(dt: DatumType, s: Seq<i64>) -> bool {
    forall|i: int| 0 <= i < s.len() ==> in_range(dt, #[trigger] s[i] as int)
}

impl TensorModel {
    /// The number of elements held.
    pub open spec fn data_len(self) -> int {
        match self.data {
            DataModel::Scalars(v) => v.len() as int,
            DataModel::Dims(v) => v.len() as int,
        }
    }

    /// Element type, element count and elements agree.
    pub open spec fn wf(self) -> bool {
        &&& self.data_len() == shape_product(self.shape)
        &&& match self.data {
            DataModel::Scalars(v) => self.datum_type != DatumType::TDim
                && self.datum_type != DatumType::String && all_in_range(self.datum_type, v),
            DataModel::Dims(_) => self.datum_type == DatumType::TDim,
        }
    }
}

/// Whether elements of type `dt` are held as integers.
pub open spec fn held_as_scalars(dt: DatumType) -> bool {
    scalar_range(dt) is Some
}

/// Whether `dt` is one of the integer types.
pub open spec fn is_integer(dt: DatumType) -> bool {
    match dt {
        DatumType::U8 | DatumType::U16 | DatumType::I8 | DatumType::I16 | DatumType::I32
        | DatumType::I64 => true,
        _ => false,
    }
}

/// The tensor of scalars with the given type, shape and elements.
pub open spec fn scalar_model(dt: DatumType, shape: Seq<usize>, values: Seq<i64>) -> TensorModel {
    TensorModel { datum_type: dt, shape, data: DataModel::Scalars(values) }
}

/// The constant dimension `v`.
pub open spec fn dim_of(v: i64) -> TDim {
    TDim { sym: 0, konst: v }
}

/// What converting the well-formed tensor `t` to type `dt` gives: integers
/// convert between integer types when every element fits, integers become
/// constant dimensions, and constant dimensions become integers when they fit.
pub open spec fn cast_model(t: TensorModel, dt: DatumType) -> Result<TensorModel, TractError> {
    if t.datum_type == dt {
        Ok(t)
    } else {
        match t.data {
            DataModel::Scalars(v) => if is_integer(t.datum_type) && is_integer(dt) {
                if all_in_range(dt, v) {
                    Ok(scalar_model(dt, t.shape, v))
                } else {
                    Err(TractError::NumericError)
                }
            } else if is_integer(t.datum_type) && dt == DatumType::TDim {
                Ok(TensorModel {
                    datum_type: dt,
                    shape: t.shape,
                    data: DataModel::Dims(v.map_values(|x: i64| dim_of(x))),
                })
            } else {
                Err(TractError::DtypeError { expected: dt, got: t.datum_type })
            },
            DataModel::Dims(v) => if is_integer(dt) {
                if forall|i: int| 0 <= i < v.len() ==> (#[trigger] v[i]).is_constant()
                    && in_range(dt, v[i].konst as int) {
                    Ok(scalar_model(dt, t.shape, v.map_values(|d: TDim| d.konst)))
                } else {
                    Err(TractError::NumericError)
                }
            } else {
                Err(TractError::DtypeError { expected: dt, got: t.datum_type })
            },
        }
    }
}

/// Whether `v` lies in the range of `dt`, tested on an `i64`.
pub fn fits_type(dt: DatumType, v: i128) -> (r: bool)
    ensures
        r == in_range(dt, v as int),
{
    match dt {
        DatumType::Bool => 0 <= v && v <= 1,
        DatumType::U8 => 0 <= v && v <= 0xff,
        DatumType::U16 => 0 <= v && v <= 0xffff,
        DatumType::I8 => -0x80 <= v && v <= 0x7f,
        DatumType::I16 => -0x8000 <= v && v <= 0x7fff,
        DatumType::I32 => -0x8000_0000 <= v && v <= 0x7fff_ffff,
        DatumType::I64 | DatumType::F64 => -0x8000_0000_0000_0000 <= v && v <= 0x7fff_ffff_ffff_ffff,
        DatumType::F16 => 0 <= v && v <= 0xffff,
        DatumType::F32 => 0 <= v && v <= 0xffff_ffff,
        DatumType::TDim | DatumType::String => false,
    }
}

pub fn is_integer_type(dt: DatumType) -> (r: bool)
    ensures
        r == is_integer(dt),
{
    match dt {
        DatumType::U8 | DatumType::U16 | DatumType::I8 | DatumType::I16 | DatumType::I32
        | DatumType::I64 => true,
        _ => false,
    }
}

/// The elements among the first `n` of `data` whose position lies at index
/// `i` of an axis of length `d` followed by `inner` elements per index.
pub open spec fn picked(data: Seq<i64>, inner: int, d: int, i: int, n: int) -> Seq<i64>
    decreases n,
{
    if n <= 0 {
        Seq::empty()
    } else if ((n - 1) / inner) % d == i {
        picked(data, inner, d, i, n - 1).push(data[n - 1])
    } else {
        picked(data, inner, d, i, n - 1)
    }
}

/// The elements of a tensor held as integers, none for dimensions.
pub open spec fn scalars_of(t: TensorModel) -> Seq<i64> {
    match t.data {
        DataModel::Scalars(v) => v,
        DataModel::Dims(_) => Seq::empty(),
    }
}

/// Whether `e` can be stacked into `t` at index `i` of axis `axis`: the
/// axis and index exist, the types agree, both hold integers, some element
/// follows each index, and `e` has an element for every position at `i`.
pub open spec fn assignable(t: TensorModel, e: TensorModel, axis: usize, i: usize) -> bool {
    &&& axis < t.shape.len()
    &&& i < t.shape[axis as int]
    &&& e.datum_type == t.datum_type
    &&& t.data is Scalars
    &&& e.data is Scalars
    &&& 0 < inner_size(t.shape, axis as int) <= usize::MAX
    &&& picked(scalars_of(t), inner_size(t.shape, axis as int), t.shape[axis as int] as int, i as int,
        scalars_of(t).len() as int).len() <= scalars_of(e).len()
}

/// Picking from a longer prefix picks at least as many elements.
pub proof fn lemma_picked_mono(data: Seq<i64>, inner: int, d: int, i: int, m: int, n: int)
    requires
        m <= n,
    ensures
        picked(data, inner, d, i, m).len() <= picked(data, inner, d, i, n).len(),
    decreases n - m,
{
    if m < n {
        lemma_picked_mono(data, inner, d, i, m, n - 1);
    }
}

/// The number of elements after each index of axis `axis`.
pub open spec fn inner_size(shape: Seq<usize>, axis: int) -> int {
    shape_product(shape.subrange(axis + 1, shape.len() as int))
}

/// The elements of `data` once the positions at index `i` of the axis are
/// overwritten, in order, by the elements of `elem`.
pub open spec fn placed(data: Seq<i64>, elem: Seq<i64>, inner: int, d: int, i: int) -> Seq<i64> {
    Seq::new(data.len(), |p: int| if (p / inner) % d == i {
        elem[picked(data, inner, d, i, p).len() as int]
    } else {
        data[p]
    })
}

impl Tensor {
    /// A tensor of type `dt` and the given shape, whose elements are given as
    /// integers (see `TensorData`).
    #[verifier::loop_isolation(false)]
    pub fn from_scalars(dt: DatumType, shape: Vec<usize>, values: Vec<i64>) -> (r: Result<Tensor, TractError>)
        ensures
            r matches Ok(t) ==> t@ == scalar_model(dt, shape@, values@) && t@.wf(),
            r is Ok <==> held_as_scalars(dt) && values@.len() == shape_product(shape@)
                && all_in_range(dt, values@),
            r == Err::<Tensor, TractError>(TractError::DtypeError { expected: DatumType::I64, got: dt })
                <==> !held_as_scalars(dt),
            r matches Err(TractError::ShapeError { .. }) <==> held_as_scalars(dt)
                && values@.len() != shape_product(shape@),
            r == Err::<Tensor, TractError>(TractError::NumericError) <==> held_as_scalars(dt)
                && values@.len() == shape_product(shape@) && !all_in_range(dt, values@),
    {
        if dt == DatumType::TDim || dt == DatumType::String {
            return Err(TractError::DtypeError { expected: DatumType::I64, got: dt });
        }
        let n = match checked_shape_product(&shape) {
            Some(n) => n,
            None => return Err(TractError::ShapeError { expected: usize::MAX, got: values.len() }),
        };
        if n != values.len() {
            return Err(TractError::ShapeError { expected: n, got: values.len() });
        }
        let mut i: usize = 0;
        while i < values.len()
            invariant
                0 <= i <= values@.len(),
                forall|j: int| 0 <= j < i ==> in_range(dt, #[trigger] values@[j] as int),
            decreases values.len() - i,
        {
            if !fits_type(dt, values[i] as i128) {
                assert(!in_range(dt, values@[i as int] as int));
                return Err(TractError::NumericError);
            }
            i += 1;
        }
        Ok(Tensor { datum_type: dt, shape, data: TensorData::Scalars(values) })
    }

    /// A tensor of dimensions with the given shape.
    pub fn from_dims(shape: Vec<usize>, values: Vec<TDim>) -> (r: Result<Tensor, TractError>)
        ensures
            r matches Ok(t) ==> t@ == (TensorModel {
                datum_type: DatumType::TDim,
                shape: shape@,
                data: DataModel::Dims(values@),
            }) && t@.wf(),
            r is Ok <==> values@.len() == shape_product(shape@),
    {
        let n = match checked_shape_product(&shape) {
            Some(n) => n,
            None => return Err(TractError::ShapeError { expected: usize::MAX, got: values.len() }),
        };
        if n != values.len() {
            return Err(TractError::ShapeError { expected: n, got: values.len() });
        }
        Ok(Tensor { datum_type: DatumType::TDim, shape, data: TensorData::Dims(values) })
    }

    /// Whether the tensor is well formed (see `TensorModel::wf`).
    #[verifier::loop_isolation(false)]
    pub fn is_wf(&self) -> (r: bool)
        ensures
            r == self@.wf(),
    {
        let len = match &self.data {
            TensorData::Scalars(v) => v.len(),
            TensorData::Dims(v) => v.len(),
        };
        assert(len == self@.data_len());
        let n = match checked_shape_product(&self.shape) {
            Some(n) => n,
            None => return false,
        };
        if n != len {
            return false;
        }
        match &self.data {
            TensorData::Dims(_) => self.datum_type == DatumType::TDim,
            TensorData::Scalars(v) => {
                assert(self@.data == DataModel::Scalars(v@));
                if self.datum_type == DatumType::TDim || self.datum_type == DatumType::String {
                    return false;
                }
                let mut i: usize = 0;
                while i < v.len()
                    invariant
                        0 <= i <= v@.len(),
                        forall|j: int| 0 <= j < i ==> in_range(self.datum_type, #[trigger] v@[j] as int),
                    decreases v.len() - i,
                {
                    if !fits_type(self.datum_type, v[i] as i128) {
                        assert(!in_range(self.datum_type, v@[i as int] as int));
                        return false;
                    }
                    i += 1;
                }
                true
            },
        }
    }

    /// The element type.
    pub fn datum_type(&self) -> (r: DatumType)
        ensures
            r == self.datum_type,
    {
        self.datum_type
    }

    /// The number of axes.
    pub fn rank(&self) -> (r: usize)
        ensures
            r == self.shape@.len(),
    {
        self.shape.len()
    }

    /// The elements, when they are held as integers.
    pub fn scalars(&self) -> (r: Option<Vec<i64>>)
        ensures
            r matches Some(v) ==> self@.data == DataModel::Scalars(v@),
            r is Some <==> self@.data is Scalars,
    {
        match &self.data {
            TensorData::Scalars(v) => {
                let c = v.clone();
                assert(c@ =~= v@);
                Some(c)
            },
            TensorData::Dims(_) => None,
        }
    }

    /// The same elements under another shape with as many elements.
    pub fn into_shape(self, shape: Vec<usize>) -> (r: Result<Tensor, TractError>)
        requires
            self@.wf(),
        ensures
            r is Ok <==> shape_product(shape@) == shape_product(self@.shape),
            r matches Ok(t) ==> t@ == (TensorModel { shape: shape@, ..self@ }) && t@.wf(),
    {
        let len = match &self.data {
            TensorData::Scalars(v) => v.len(),
            TensorData::Dims(v) => v.len(),
        };
        assert(len == self@.data_len());
        let n = match checked_shape_product(&shape) {
            Some(n) => n,
            None => return Err(TractError::ShapeError { expected: usize::MAX, got: len }),
        };
        if n != len {
            return Err(TractError::ShapeError { expected: n, got: len });
        }
        Ok(Tensor { datum_type: self.datum_type, shape, data: self.data })
    }

    /// The slice at index `i` of axis `axis`, which keeps that axis with
    /// length 1. Fails with `ShapeError` when the axis or the index is out
    /// of range, with `DtypeError` on a tensor of dimensions, and with
    /// `NumericError` when a size overflows.
    #[verifier::loop_isolation(false)]
    pub fn slice_axis(&self, axis: usize, i: usize) -> (r: Result<Tensor, TractError>)
        requires
            self@.wf(),
        ensures
            r matches Ok(t) ==> t@.wf() && t@.datum_type == self@.datum_type
                && t@.shape == self@.shape.update(axis as int, 1)
                && self@.data is Scalars
                && t@.data == DataModel::Scalars(picked(scalars_of(self@), inner_size(self@.shape, axis as int),
                    self@.shape[axis as int] as int, i as int, scalars_of(self@).len() as int)),
            r matches Err(e) ==> e is ShapeError || e is DtypeError || e is NumericError,
            r is Ok <==> axis < self@.shape.len() && i < self@.shape[axis as int] && self@.data is Scalars
                && inner_size(self@.shape, axis as int) <= usize::MAX
                && picked(scalars_of(self@), inner_size(self@.shape, axis as int), self@.shape[axis as int] as int,
                    i as int, scalars_of(self@).len() as int).len() == shape_product(self@.shape.update(axis as int, 1)),
    {
        if axis >= self.shape.len() || i >= self.shape[axis] {
            return Err(TractError::ShapeError { expected: self.shape.len(), got: axis });
        }
        let data = match &self.data {
            TensorData::Scalars(v) => v,
            TensorData::Dims(_) => return Err(TractError::DtypeError { expected: DatumType::I64, got: self.datum_type }),
        };
        assert(self@.data == DataModel::Scalars(data@));
        let tail = crate::flatten::part(&self.shape, axis + 1, self.shape.len());
        let inner = match checked_shape_product(tail.as_slice()) {
            Some(n) => n,
            None => return Err(TractError::NumericError),
        };
        let d = self.shape[axis];
        let mut out: Vec<i64> = Vec::new();
        let mut p: usize = 0;
        if inner > 0 {
            while p < data.len()
                invariant
                    0 <= p <= data@.len(),
                    inner > 0,
                    d > 0,
                    out@ == picked(data@, inner as int, d as int, i as int, p as int),
                    forall|k: int| 0 <= k < out@.len() ==> in_range(self.datum_type, #[trigger] out@[k] as int),
                decreases data.len() - p,
            {
                if (p / inner) % d == i {
                    assert(in_range(self.datum_type, data@[p as int] as int));
                    out.push(data[p]);
                }
                p += 1;
            }
        }
        proof {
            if inner == 0 {
                assert(picked(data@, 0, d as int, i as int, 0) =~= Seq::<i64>::empty());
            }
        }
        let mut shape = self.shape.clone();
        assert(shape@ =~= self.shape@);
        shape.set(axis, 1);
        let ghost want = picked(data@, inner as int, d as int, i as int, data@.len() as int);
        proof {
            if inner == 0 {
                crate::flatten::lemma_split_product(self@.shape, axis + 1);
                let a = shape_product(self@.shape.subrange(0, axis + 1));
                assert(a * 0 == 0) by (nonlinear_arith);
                assert(tail@ == self@.shape.subrange(axis + 1, self@.shape.len() as int));
                assert(data@.len() == 0);
            }
            assert(out@ == want);
            assert(shape@ == self@.shape.update(axis as int, 1));
        }
        match Tensor::from_scalars(self.datum_type, shape, out) {
            Ok(t) => {
                proof {
                    if inner > 0 {
                        assert(out@ == want);
                    } else {
                        crate::flatten::lemma_split_product(self@.shape, axis + 1);
                        let a = shape_product(self@.shape.subrange(0, axis + 1));
                        assert(a * 0 == 0) by (nonlinear_arith);
                        assert(tail@ == self@.shape.subrange(axis + 1, self@.shape.len() as int));
                        assert(data@.len() == 0);
                    }
                }
                Ok(t)
            },
            Err(e) => Err(e),
        }
    }

    /// Overwrites, in order, the elements at index `i` of axis `axis` by the
    /// elements of `elem`, which has the same type. Fails, leaving the tensor
    /// as it is, when the axis or index is out of range, the types differ,
    /// the tensor holds dimensions, or `elem` is too short.
    #[verifier::loop_isolation(false)]
    pub fn assign_at(&mut self, axis: usize, i: usize, elem: &Tensor) -> (r: Result<(), TractError>)
        requires
            old(self)@.wf(),
            elem@.wf(),
        ensures
            final(self)@.wf(),
            r is Err ==> final(self)@ == old(self)@,
            r is Ok ==> final(self)@.datum_type == old(self)@.datum_type && final(self)@.shape == old(self)@.shape
                && old(self)@.data is Scalars && elem@.data is Scalars
                && final(self)@.data == DataModel::Scalars(placed(scalars_of(old(self)@), scalars_of(elem@),
                    inner_size(old(self)@.shape, axis as int), old(self)@.shape[axis as int] as int, i as int)),
            r is Ok <==> assignable(old(self)@, elem@, axis, i),
            r matches Err(e) ==> e is ShapeError || e is DtypeError || e is NumericError,
    {
        if axis >= self.shape.len() || i >= self.shape[axis] || elem.datum_type != self.datum_type {
            return Err(TractError::ShapeError { expected: self.shape.len(), got: axis });
        }
        let e = match &elem.data {
            TensorData::Scalars(v) => v,
            TensorData::Dims(_) => return Err(TractError::DtypeError { expected: DatumType::I64, got: elem.datum_type }),
        };
        assert(elem@.data == DataModel::Scalars(e@));
        let tail = crate::flatten::part(&self.shape, axis + 1, self.shape.len());
        let inner = match checked_shape_product(tail.as_slice()) {
            Some(n) => n,
            None => return Err(TractError::NumericError),
        };
        if inner == 0 {
            return Err(TractError::ShapeError { expected: 1, got: 0 });
        }
        let d = self.shape[axis];
        let mut data = match &self.data {
            TensorData::Scalars(v) => v.clone(),
            TensorData::Dims(_) => return Err(TractError::DtypeError { expected: DatumType::I64, got: self.datum_type }),
        };
        let ghost orig = data@;
        assert(self@.data == DataModel::Scalars(orig)) by {
            assert(data@ =~= orig);
        }
        let mut c: usize = 0;
        let mut p: usize = 0;
        while p < data.len()
            invariant
                0 <= p <= data@.len(),
                data@.len() == orig.len(),
                c as int == picked(orig, inner as int, d as int, i as int, p as int).len(),
                c <= e@.len(),
                inner as int == inner_size(self@.shape, axis as int),
                d == self@.shape[axis as int],
                orig == scalars_of(self@),
                forall|q: int| p <= q < orig.len() ==> data@[q] == orig[q],
                forall|q: int| 0 <= q < p ==> data@[q] == placed(orig, e@, inner as int, d as int, i as int)[q],
                forall|q: int| 0 <= q < data@.len() ==> in_range(self.datum_type, #[trigger] data@[q] as int),
            decreases data.len() - p,
        {
            if (p / inner) % d == i {
                if c >= e.len() {
                    proof {
                        lemma_picked_mono(orig, inner as int, d as int, i as int, p as int + 1, orig.len() as int);
                    }
                    return Err(TractError::ShapeError { expected: c, got: e.len() });
                }
                assert(in_range(elem.datum_type, e@[c as int] as int));
                data.set(p, e[c]);
                c += 1;
            }
            p += 1;
        }
        self.data = TensorData::Scalars(data);
        assert(data@ =~= placed(orig, e@, inner as int, d as int, i as int));
        Ok(())
    }

    /// Whether two tensors have the same type, shape and elements.
    #[verifier::loop_isolation(false)]
    pub fn same_as(&self, o: &Tensor) -> (r: bool)
        ensures
            r == (self@ == o@),
    {
        if self.datum_type != o.datum_type || self.shape.len() != o.shape.len() {
            return false;
        }
        let mut i: usize = 0;
        while i < self.shape.len()
            invariant
                self.shape@.len() == o.shape@.len(),
                0 <= i <= self.shape@.len(),
                forall|j: int| 0 <= j < i ==> self.shape@[j] == o.shape@[j],
            decreases self.shape.len() - i,
        {
            if self.shape[i] != o.shape[i] {
                return false;
            }
            i += 1;
        }
        assert(self.shape@ =~= o.shape@);
        match (&self.data, &o.data) {
            (TensorData::Scalars(a), TensorData::Scalars(b)) => {
                assert(self@.data == DataModel::Scalars(a@) && o@.data == DataModel::Scalars(b@));
                if a.len() != b.len() {
                    return false;
                }
                let mut k: usize = 0;
                while k < a.len()
                    invariant
                        a@.len() == b@.len(),
                        0 <= k <= a@.len(),
                        forall|j: int| 0 <= j < k ==> a@[j] == b@[j],
                    decreases a.len() - k,
                {
                    if a[k] != b[k] {
                        assert(a@[k as int] != b@[k as int]);
                        assert(a@ != b@);
                        return false;
                    }
                    k += 1;
                }
                assert(a@ =~= b@);
                true
            },
            (TensorData::Dims(a), TensorData::Dims(b)) => {
                assert(self@.data == DataModel::Dims(a@) && o@.data == DataModel::Dims(b@));
                if a.len() != b.len() {
                    return false;
                }
                let mut k: usize = 0;
                while k < a.len()
                    invariant
                        a@.len() == b@.len(),
                        0 <= k <= a@.len(),
                        forall|j: int| 0 <= j < k ==> a@[j] == b@[j],
                    decreases a.len() - k,
                {
                    if a[k] != b[k] {
                        assert(a@[k as int] != b@[k as int]);
                        assert(a@ != b@);
                        return false;
                    }
                    k += 1;
                }
                assert(a@ =~= b@);
                true
            },
            _ => false,
        }
    }

    /// The tensor converted to type `dt` (see `cast_model`).
    #[verifier::loop_isolation(false)]
    pub fn cast_to(&self, dt: DatumType) -> (r: Result<Tensor, TractError>)
        requires
            self@.wf(),
        ensures
            r matches Ok(t) ==> cast_model(self@, dt) == Ok::<TensorModel, TractError>(t@),
            r matches Err(e) ==> cast_model(self@, dt) == Err::<TensorModel, TractError>(e),
    {
        if self.datum_type == dt {
            return Ok(self.clone());
        }
        let shape = self.shape.clone();
        assert(shape@ =~= self.shape@);
        match &self.data {
            TensorData::Scalars(v) => {
                assert(self@.data == DataModel::Scalars(v@));
                if is_integer_type(self.datum_type) && is_integer_type(dt) {
                    let mut i: usize = 0;
                    while i < v.len()
                        invariant
                            0 <= i <= v@.len(),
                            forall|j: int| 0 <= j < i ==> in_range(dt, #[trigger] v@[j] as int),
                        decreases v.len() - i,
                    {
                        if !fits_type(dt, v[i] as i128) {
                            assert(!in_range(dt, v@[i as int] as int));
                            return Err(TractError::NumericError);
                        }
                        i += 1;
                    }
                    let c = v.clone();
                    assert(c@ =~= v@);
                    Ok(Tensor { datum_type: dt, shape, data: TensorData::Scalars(c) })
                } else if is_integer_type(self.datum_type) && dt == DatumType::TDim {
                    let mut out: Vec<TDim> = Vec::new();
                    let mut i: usize = 0;
                    while i < v.len()
                        invariant
                            0 <= i <= v@.len(),
                            out@ =~= v@.subrange(0, i as int).map_values(|x: i64| dim_of(x)),
                        decreases v.len() - i,
                    {
                        out.push(TDim::from_int(v[i]));
                        i += 1;
                    }
                    assert(v@.subrange(0, v@.len() as int) =~= v@);
                    Ok(Tensor { datum_type: dt, shape, data: TensorData::Dims(out) })
                } else {
                    Err(TractError::DtypeError { expected: dt, got: self.datum_type })
                }
            },
            TensorData::Dims(v) => {
                assert(self@.data == DataModel::Dims(v@));
                if is_integer_type(dt) {
                    let mut out: Vec<i64> = Vec::new();
                    let mut i: usize = 0;
                    while i < v.len()
                        invariant
                            0 <= i <= v@.len(),
                            forall|j: int| 0 <= j < i ==> (#[trigger] v@[j]).is_constant()
                                && in_range(dt, v@[j].konst as int),
                            out@ =~= v@.subrange(0, i as int).map_values(|d: TDim| d.konst),
                        decreases v.len() - i,
                    {
                        match v[i].to_integer() {
                            Some(x) => {
                                if !fits_type(dt, x as i128) {
                                    assert(!in_range(dt, v@[i as int].konst as int));
                                    return Err(TractError::NumericError);
                                }
                                out.push(x);
                            },
                            None => {
                                assert(!v@[i as int].is_constant());
                                return Err(TractError::NumericError);
                            },
                        }
                        i += 1;
                    }
                    assert(v@.subrange(0, v@.len() as int) =~= v@);
                    Ok(Tensor { datum_type: dt, shape, data: TensorData::Scalars(out) })
                } else {
                    Err(TractError::DtypeError { expected: dt, got: self.datum_type })
                }
            },
        }
    }
}

/// Building a tensor of scalars and reading its elements back gives the
/// elements given.
pub proof fn lemma_scalars_round_trip(dt: DatumType, shape: Seq<usize>, values: Seq<i64>)
    ensures
        scalar_model(dt, shape, values).data == DataModel::Scalars(values),
        scalar_model(dt, shape, values).shape == shape,
{
}

/// Converting a well-formed `I32` tensor to dimensions and back gives the
/// tensor itself.
pub proof fn lemma_cast_i32_dim_round_trip(t: TensorModel)
    requires
        t.wf(),
        t.datum_type == DatumType::I32,
    ensures
        cast_model(t, DatumType::TDim) matches Ok(d) && d.wf()
            && cast_model(d, DatumType::I32) == Ok::<TensorModel, TractError>(t),
{
    if let DataModel::Scalars(v) = t.data {
        let dims = v.map_values(|x: i64| dim_of(x));
        let d = TensorModel { datum_type: DatumType::TDim, shape: t.shape, data: DataModel::Dims(dims) };
        assert(cast_model(t, DatumType::TDim) == Ok::<TensorModel, TractError>(d));
        assert forall|i: int| 0 <= i < dims.len() implies (#[trigger] dims[i]).is_constant()
            && in_range(DatumType::I32, dims[i].konst as int) by {
            assert(in_range(DatumType::I32, v[i] as int));
        }
        assert(dims.map_values(|e: TDim| e.konst) =~= v);
    }
}

/// The product of the dimensions of `s`, none when it overflows `usize`.
pub fn checked_shape_product(s: &[usize]) -> (r: Option<usize>)
    ensures
        r matches Some(n) ==> n == shape_product(s@),
        r is None ==> shape_product(s@) > usize::MAX,
{
    let mut k: usize = 0;
    while k < s.len()
        invariant
            0 <= k <= s@.len(),
            forall|j: int| 0 <= j < k ==> s@[j] >= 1,
        decreases s.len() - k,
    {
        if s[k] == 0 {
            proof { lemma_product_zero(s@, k as int); }
            return Some(0);
        }
        k += 1;
    }
    let mut acc: usize = 1;
    let mut i: usize = 0;
    while i < s.len()
        invariant
            0 <= i <= s@.len(),
            forall|j: int| 0 <= j < s@.len() ==> s@[j] >= 1,
            acc == shape_product(s@.subrange(0, i as int)),
        decreases s.len() - i,
    {
        assert(s@.subrange(0, i + 1).drop_last() =~= s@.subrange(0, i as int));
        match acc.checked_mul(s[i]) {
            Some(p) => acc = p,
            None => {
                proof { lemma_product_grows(s@, i as int + 1); }
                return None;
            },
        }
        i += 1;
    }
    assert(s@.subrange(0, s@.len() as int) =~= s@);
    Some(acc)
}

/// A shape holding a zero dimension has no element.
proof fn lemma_product_zero(s: Seq<usize>, k: int)
    requires
        0 <= k < s.len(),
        s[k] == 0,
    ensures
        shape_product(s) == 0,
    decreases s.len(),
{
    if k < s.len() - 1 {
        assert(s.drop_last()[k] == 0);
        lemma_product_zero(s.drop_last(), k);
    }
    let p = shape_product(s.drop_last());
    assert(p * s.last() == 0) by (nonlinear_arith)
        requires p == 0 || s.last() == 0;
}

/// With no zero dimension, the product of a prefix is at most the product of
/// the whole shape.
proof fn lemma_product_grows(s: Seq<usize>, n: int)
    requires
        0 <= n <= s.len(),
        forall|j: int| 0 <= j < s.len() ==> s[j] >= 1,
    ensures
        1 <= shape_product(s.subrange(0, n)) <= shape_product(s),
    decreases s.len() - n,
{
    if n < s.len() {
        lemma_product_grows(s, n + 1);
        assert(s.subrange(0, n + 1).drop_last() =~= s.subrange(0, n));
        let p = shape_product(s.subrange(0, n));
        let d = s[n] as int;
        lemma_product_positive(s.subrange(0, n));
        assert(p <= p * d && p * d >= 1) by (nonlinear_arith)
            requires p >= 1, d >= 1;
    } else {
        assert(s.subrange(0, n) =~= s);
        lemma_product_positive(s);
    }
}

/// A shape has a non-negative number of elements.
pub proof fn lemma_product_nonneg(s: Seq<usize>)
    ensures
        shape_product(s) >= 0,
    decreases s.len(),
{
    if s.len() > 0 {
        lemma_product_nonneg(s.drop_last());
        let p = shape_product(s.drop_last());
        let d = s.last() as int;
        assert(p * d >= 0) by (nonlinear_arith)
            requires p >= 0, d >= 0;
    }
}

/// With no zero dimension, a shape has at least one element.
proof fn lemma_product_positive(s: Seq<usize>)
    requires
        forall|j: int| 0 <= j < s.len() ==> s[j] >= 1,
    ensures
        shape_product(s) >= 1,
    decreases s.len(),
{
    if s.len() > 0 {
        lemma_product_positive(s.drop_last());
        let p = shape_product(s.drop_last());
        let d = s.last() as int;
        assert(p * d >= 1) by (nonlinear_arith)
            requires p >= 1, d >= 1;
    }
}

} // verus!
