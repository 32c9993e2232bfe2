//! Facts: partial knowledge about the tensor at an outlet, and their
//! unification.
use vstd::prelude::*;
use crate::datum::DatumType;
use crate::dim::TDim;
use crate::errors::Attribute;
use crate::tensor::{Tensor, TensorModel};

verus! {

/// What is known of an element type.
#[derive(Debug, Clone, Copy, PartialEq, Eq, Structural)]
pub enum TypeFact {
    Any,
    Only(DatumType),
}

/// What is known of one dimension.
#[derive(Debug, Clone, Copy, PartialEq, Eq, Structural)]
pub enum DimFact {
    Any,
    Only(TDim),
}

/// What is known of a shape: the known leading dimensions, and whether more
/// may follow (`open`) or the rank is exactly their number.
#[derive(Debug)]
pub struct ShapeFact {
    pub open: bool,
    pub dims: Vec<DimFact>,
}

/// What is known of the value.
#[derive(Debug)]
pub enum ValueFact {
    Any,
    Only(Tensor),
}

/// Partial knowledge of a tensor.
#[derive(Debug)]
pub struct TensorFact {
    pub datum_type: TypeFact,
    pub shape: ShapeFact,
    pub value: ValueFact,
}

/// A shape fact, mathematically.
pub struct ShapeModel {
    pub open: bool,
    pub dims: Seq<DimFact>,
}

/// A value fact, mathematically.
pub enum ValueModel {
    Any,
    Only(TensorModel),
}

/// A tensor fact, mathematically.
pub struct FactModel {
    pub datum_type: TypeFact,
    pub shape: ShapeModel,
    pub value: ValueModel,
}

impl View for ShapeFact {
    type V = ShapeModel;

    open spec fn view(&self) -> ShapeModel {
        ShapeModel { open: self.open, dims: self.dims@ }
    }
}

impl View for ValueFact {
    type V = ValueModel;

    open spec fn view(&self) -> ValueModel {
        match self {
            ValueFact::Any => ValueModel::Any,
            ValueFact::Only(t) => ValueModel::Only(t@),
        }
    }
}

impl View for TensorFact {
    type V = FactModel;

    open spec fn view(&self) -> FactModel {
        FactModel { datum_type: self.datum_type, shape: self.shape@, value: self.value@ }
    }
}

impl Clone for ShapeFact {
    fn clone(&self) -> (r: Self)
        ensures
            r@ == self@,
    {
        let dims = self.dims.clone();
        assert(dims@ =~= self.dims@);
        ShapeFact { open: self.open, dims }
    }
}

impl Clone for ValueFact {
    fn clone(&self) -> (r: Self)
        ensures
            r@ == self@,
    {
        match self {
            ValueFact::Any => ValueFact::Any,
            ValueFact::Only(t) => ValueFact::Only(t.clone()),
        }
    }
}

impl Clone for TensorFact {
    fn clone(&self) -> (r: Self)
        ensures
            r@ == self@,
    {
        TensorFact { datum_type: self.datum_type, shape: self.shape.clone(), value: self.value.clone() }
    }
}

/// The fact that knows nothing.
pub open spec fn top_model() -> FactModel {
    FactModel {
        datum_type: TypeFact::Any,
        shape: ShapeModel { open: true, dims: Seq::empty() },
        value: ValueModel::Any,
    }
}

/// Unification of two element-type facts.
pub open spec fn unify_type_model(x: TypeFact, y: TypeFact) -> Result<TypeFact, Attribute> {
    match (x, y) {
        (_, TypeFact::Any) => Ok(x),
        (TypeFact::Any, _) => Ok(y),
        (TypeFact::Only(a), TypeFact::Only(b)) => if a == b {
            Ok(x)
        } else {
            Err(Attribute::DatumType)
        },
    }
}

/// Unification of two dimension facts; none when both are known and differ.
pub open spec fn unify_dim_model(x: DimFact, y: DimFact) -> Option<DimFact> {
    match (x, y) {
        (_, DimFact::Any) => Some(x),
        (DimFact::Any, _) => Some(y),
        (DimFact::Only(a), DimFact::Only(b)) => if a == b {
            Some(x)
        } else {
            None
        },
    }
}

/// Dimension `i` of the unification of two shapes.
pub open spec fn merged_dim(x: Seq<DimFact>, y: Seq<DimFact>, i: int) -> DimFact {
    if i < x.len() && i < y.len() {
        match unify_dim_model(x[i], y[i]) {
            Some(d) => d,
            None => DimFact::Any,
        }
    } else if i < x.len() {
        x[i]
    } else {
        y[i]
    }
}

/// Whether two known dimensions at the same position differ.
pub open spec fn dims_conflict(x: Seq<DimFact>, y: Seq<DimFact>) -> bool {
    exists|i: int| 0 <= i < x.len() && i < y.len() && unify_dim_model(x[i], y[i]) is None
}

/// Unification of two shape facts: dimensions merge position by position; a
/// shape may only have more dimensions than a shape that is open.
pub open spec fn unify_shape_model(x: ShapeModel, y: ShapeModel) -> Result<ShapeModel, Attribute> {
    if dims_conflict(x.dims, y.dims) {
        Err(Attribute::Dim)
    } else if (x.dims.len() > y.dims.len() && !y.open) || (y.dims.len() > x.dims.len() && !x.open) {
        Err(Attribute::Rank)
    } else {
        let n = if x.dims.len() >= y.dims.len() { x.dims.len() } else { y.dims.len() };
        Ok(ShapeModel {
            open: x.open && y.open,
            dims: Seq::new(n, |i: int| merged_dim(x.dims, y.dims, i)),
        })
    }
}

/// Unification of two value facts.
pub open spec fn unify_value_model(x: ValueModel, y: ValueModel) -> Result<ValueModel, Attribute> {
    match (x, y) {
        (_, ValueModel::Any) => Ok(x),
        (ValueModel::Any, _) => Ok(y),
        (ValueModel::Only(a), ValueModel::Only(b)) => if a == b {
            Ok(x)
        } else {
            Err(Attribute::Value)
        },
    }
}

/// Unification of two tensor facts: their meet, or the first attribute on
/// which they contradict (element type, then shape, then value).
pub open spec fn unify_model(x: FactModel, y: FactModel) -> Result<FactModel, Attribute> {
    match unify_type_model(x.datum_type, y.datum_type) {
        Err(e) => Err(e),
        Ok(datum_type) => match unify_shape_model(x.shape, y.shape) {
            Err(e) => Err(e),
            Ok(shape) => match unify_value_model(x.value, y.value) {
                Err(e) => Err(e),
                Ok(value) => Ok(FactModel { datum_type, shape, value }),
            },
        },
    }
}

/// `z` keeps everything the element-type fact `x` knows.
pub open spec fn type_refines(z: TypeFact, x: TypeFact) -> bool {
    x is Any || z == x
}

/// `z` keeps everything the shape fact `x` knows.
pub open spec fn shape_refines(z: ShapeModel, x: ShapeModel) -> bool {
    &&& z.dims.len() >= x.dims.len()
    &&& (!x.open ==> !z.open && z.dims.len() == x.dims.len())
    &&& forall|i: int| 0 <= i < x.dims.len() && (#[trigger] x.dims[i]) is Only ==> z.dims[i] == x.dims[i]
}

/// `z ⊑ x`: `z` keeps everything `x` knows.
pub open spec fn refines(z: FactModel, x: FactModel) -> bool {
    &&& type_refines(z.datum_type, x.datum_type)
    &&& shape_refines(z.shape, x.shape)
    &&& (x.value is Any || z.value == x.value)
}

/// Unification of element types and of shapes keeps what either side knows,
/// and refinement of each is reflexive and transitive.
pub proof fn lemma_part_refines(
    x: TypeFact, y: TypeFact, a: ShapeModel, b: ShapeModel, c: ShapeModel,
)
    ensures
        unify_type_model(x, y) matches Ok(z) ==> type_refines(z, x) && type_refines(z, y),
        unify_shape_model(a, b) matches Ok(z) ==> shape_refines(z, a) && shape_refines(z, b),
        type_refines(x, x),
        shape_refines(a, a),
        shape_refines(a, b) && shape_refines(b, c) ==> shape_refines(a, c),
{
    lemma_shape_refines(a, b);
    lemma_shape_refines(b, a);
    lemma_shape_symmetric(a, b);
    if shape_refines(a, b) && shape_refines(b, c) {
        assert forall|i: int| 0 <= i < c.dims.len() && (#[trigger] c.dims[i]) is Only implies a.dims[i] == c.dims[i] by {
            assert(b.dims[i] == c.dims[i]);
        }
    }
}

/// Unifies two element-type facts.
pub fn unify_datatype(x: &TypeFact, y: &TypeFact) -> (r: Result<TypeFact, Attribute>)
    ensures
        r == unify_type_model(*x, *y),
{
    match (x, y) {
        (_, TypeFact::Any) => Ok(*x),
        (TypeFact::Any, _) => Ok(*y),
        (TypeFact::Only(a), TypeFact::Only(b)) => if a == b {
            Ok(*x)
        } else {
            Err(Attribute::DatumType)
        },
    }
}

fn unify_dim(x: DimFact, y: DimFact) -> (r: Option<DimFact>)
    ensures
        r == unify_dim_model(x, y),
{
    match (x, y) {
        (_, DimFact::Any) => Some(x),
        (DimFact::Any, _) => Some(y),
        (DimFact::Only(a), DimFact::Only(b)) => if a == b {
            Some(x)
        } else {
            None
        },
    }
}

/// Unifies two shape facts.
#[verifier::loop_isolation(false)]
pub fn unify_shape(x: &ShapeFact, y: &ShapeFact) -> (r: Result<ShapeFact, Attribute>)
    ensures
        r matches Ok(s) ==> unify_shape_model(x@, y@) == Ok::<ShapeModel, Attribute>(s@),
        r matches Err(e) ==> unify_shape_model(x@, y@) == Err::<ShapeModel, Attribute>(e),
{
    let xl = x.dims.len();
    let yl = y.dims.len();
    let n = if xl >= yl { xl } else { yl };
    let mut dims: Vec<DimFact> = Vec::new();
    let mut i: usize = 0;
    while i < n
        invariant
            0 <= i <= n,
            dims@.len() == i,
            forall|j: int| 0 <= j < i ==> dims@[j] == merged_dim(x.dims@, y.dims@, j),
            forall|j: int| 0 <= j < i && j < xl && j < yl ==> (#[trigger] unify_dim_model(x.dims@[j], y.dims@[j])) is Some,
            i > yl ==> y.open,
            i > xl ==> x.open,
        decreases n - i,
    {
        if i < xl && i < yl {
            match unify_dim(x.dims[i], y.dims[i]) {
                Some(d) => dims.push(d),
                None => {
                    assert(dims_conflict(x.dims@, y.dims@)) by {
                        assert(unify_dim_model(x.dims@[i as int], y.dims@[i as int]) is None);
                    }
                    return Err(Attribute::Dim);
                },
            }
        } else if i < xl {
            if !y.open {
                proof { lemma_no_conflict(x.dims@, y.dims@); }
                return Err(Attribute::Rank);
            }
            dims.push(x.dims[i]);
        } else {
            if !x.open {
                proof { lemma_no_conflict(x.dims@, y.dims@); }
                return Err(Attribute::Rank);
            }
            dims.push(y.dims[i]);
        }
        i += 1;
    }
    proof { lemma_no_conflict(x.dims@, y.dims@); }
    let r = ShapeFact { open: x.open && y.open, dims };
    assert(r@.dims =~= Seq::new(n as nat, |j: int| merged_dim(x.dims@, y.dims@, j)));
    Ok(r)
}

/// No conflict exists when every common position unifies.
proof fn lemma_no_conflict(x: Seq<DimFact>, y: Seq<DimFact>)
    requires
        forall|j: int| 0 <= j < x.len() && j < y.len() ==> (#[trigger] unify_dim_model(x[j], y[j])) is Some,
    ensures
        !dims_conflict(x, y),
{
}

/// Unifies two value facts.
pub fn unify_value(x: &ValueFact, y: &ValueFact) -> (r: Result<ValueFact, Attribute>)
    ensures
        r matches Ok(v) ==> unify_value_model(x@, y@) == Ok::<ValueModel, Attribute>(v@),
        r matches Err(e) ==> unify_value_model(x@, y@) == Err::<ValueModel, Attribute>(e),
{
    match (x, y) {
        (_, ValueFact::Any) => Ok(x.clone()),
        (ValueFact::Any, _) => Ok(y.clone()),
        (ValueFact::Only(a), ValueFact::Only(b)) => if a.same_as(b) {
            Ok(x.clone())
        } else {
            Err(Attribute::Value)
        },
    }
}

/// Unifies two tensor facts into a more specialized one.
pub fn unify(x: &TensorFact, y: &TensorFact) -> (r: Result<TensorFact, Attribute>)
    ensures
        r matches Ok(f) ==> unify_model(x@, y@) == Ok::<FactModel, Attribute>(f@),
        r matches Err(e) ==> unify_model(x@, y@) == Err::<FactModel, Attribute>(e),
{
    let datum_type = match unify_datatype(&x.datum_type, &y.datum_type) {
        Ok(d) => d,
        Err(e) => return Err(e),
    };
    let shape = match unify_shape(&x.shape, &y.shape) {
        Ok(s) => s,
        Err(e) => return Err(e),
    };
    let value = match unify_value(&x.value, &y.value) {
        Ok(v) => v,
        Err(e) => return Err(e),
    };
    Ok(TensorFact { datum_type, shape, value })
}

impl ShapeFact {
    /// Whether two shape facts say the same.
    pub fn same_as(&self, o: &ShapeFact) -> (r: bool)
        ensures
            r == (self@ == o@),
    {
        if self.open != o.open || self.dims.len() != o.dims.len() {
            return false;
        }
        let mut i: usize = 0;
        while i < self.dims.len()
            invariant
                self.dims@.len() == o.dims@.len(),
                0 <= i <= self.dims@.len(),
                forall|j: int| 0 <= j < i ==> self.dims@[j] == o.dims@[j],
            decreases self.dims.len() - i,
        {
            if self.dims[i] != o.dims[i] {
                assert(self@.dims[i as int] != o@.dims[i as int]);
                return false;
            }
            i += 1;
        }
        assert(self.dims@ =~= o.dims@);
        true
    }
}

impl TensorFact {
    /// Whether two facts say the same.
    pub fn same_as(&self, o: &TensorFact) -> (r: bool)
        ensures
            r == (self@ == o@),
    {
        if self.datum_type != o.datum_type || !self.shape.same_as(&o.shape) {
            return false;
        }
        match (&self.value, &o.value) {
            (ValueFact::Any, ValueFact::Any) => true,
            (ValueFact::Only(a), ValueFact::Only(b)) => a.same_as(b),
            _ => false,
        }
    }

    /// The fact an ONNX `TypeProto.Tensor` describes: its element type when
    /// given, and its shape when given (every dimension known).
    pub fn from_onnx(elem_type: Option<i32>, dims: Option<Vec<i64>>) -> (r: Result<TensorFact, crate::errors::TractError>)
        ensures
            r is Err <==> (elem_type matches Some(c) && crate::datum::onnx_datum_type(c) is None),
            r matches Ok(f) ==> f@.value is Any
                && (elem_type is None ==> f@.datum_type is Any)
                && (elem_type matches Some(c) ==> f@.datum_type == TypeFact::Only(crate::datum::onnx_datum_type(c)->Some_0))
                && (dims is None ==> f@.shape == top_model().shape)
                && (dims matches Some(d) ==> !f@.shape.open && f@.shape.dims.len() == d@.len()
                    && forall|i: int| 0 <= i < d@.len() ==> #[trigger] f@.shape.dims[i] == DimFact::Only(TDim { sym: 0, konst: d@[i] })),
    {
        let datum_type = match elem_type {
            Some(c) => TypeFact::Only(DatumType::from_onnx(c)?),
            None => TypeFact::Any,
        };
        let shape = match dims {
            Some(d) => {
                let mut v: Vec<DimFact> = Vec::new();
                let mut i: usize = 0;
                while i < d.len()
                    invariant
                        0 <= i <= d@.len(),
                        v@.len() == i,
                        forall|j: int| 0 <= j < i ==> #[trigger] v@[j] == DimFact::Only(TDim { sym: 0, konst: d@[j] }),
                    decreases d.len() - i,
                {
                    v.push(DimFact::Only(TDim::from_int(d[i])));
                    i += 1;
                }
                ShapeFact { open: false, dims: v }
            },
            None => {
                let s = ShapeFact { open: true, dims: Vec::new() };
                assert(s@.dims =~= Seq::<DimFact>::empty());
                s
            },
        };
        Ok(TensorFact { datum_type, shape, value: ValueFact::Any })
    }

    /// The fact that knows nothing.
    pub fn new() -> (r: TensorFact)
        ensures
            r@ == top_model(),
    {
        let r = TensorFact {
            datum_type: TypeFact::Any,
            shape: ShapeFact { open: true, dims: Vec::new() },
            value: ValueFact::Any,
        };
        assert(r@.shape.dims =~= Seq::<DimFact>::empty());
        r
    }
}

/// Laws of unification: it is symmetric, idempotent, has the empty fact as
/// neutral element, and its result keeps everything either side knows.
pub proof fn lemma_unify_laws(x: FactModel, y: FactModel)
    ensures
        unify_model(x, y) == unify_model(y, x),
        unify_model(x, x) == Ok::<FactModel, Attribute>(x),
        unify_model(x, top_model()) == Ok::<FactModel, Attribute>(x),
        unify_model(x, y) matches Ok(z) ==> refines(z, x) && refines(z, y),
{
    lemma_shape_symmetric(x.shape, y.shape);
    lemma_shape_self(x.shape);
    lemma_shape_top(x.shape);
    lemma_shape_refines(x.shape, y.shape);
    lemma_shape_refines(y.shape, x.shape);
}

proof fn lemma_shape_symmetric(x: ShapeModel, y: ShapeModel)
    ensures
        unify_shape_model(x, y) == unify_shape_model(y, x),
{
    if dims_conflict(x.dims, y.dims) {
        let i = choose|i: int| 0 <= i < x.dims.len() && i < y.dims.len() && unify_dim_model(x.dims[i], y.dims[i]) is None;
        assert(unify_dim_model(y.dims[i], x.dims[i]) is None);
        assert(dims_conflict(y.dims, x.dims));
    } else if dims_conflict(y.dims, x.dims) {
        let i = choose|i: int| 0 <= i < y.dims.len() && i < x.dims.len() && unify_dim_model(y.dims[i], x.dims[i]) is None;
        assert(unify_dim_model(x.dims[i], y.dims[i]) is None);
    } else if let Ok(a) = unify_shape_model(x, y) {
        let b = unify_shape_model(y, x)->Ok_0;
        assert forall|i: int| 0 <= i < a.dims.len() implies a.dims[i] == b.dims[i] by {
            if i < x.dims.len() && i < y.dims.len() {
                assert(unify_dim_model(x.dims[i], y.dims[i]) is Some);
            }
        }
        assert(a.dims =~= b.dims);
    }
}

proof fn lemma_shape_self(x: ShapeModel)
    ensures
        unify_shape_model(x, x) == Ok::<ShapeModel, Attribute>(x),
{
    assert(!dims_conflict(x.dims, x.dims));
    let a = unify_shape_model(x, x)->Ok_0;
    assert(a.dims =~= x.dims);
}

proof fn lemma_shape_top(x: ShapeModel)
    ensures
        unify_shape_model(x, top_model().shape) == Ok::<ShapeModel, Attribute>(x),
{
    let t = top_model().shape;
    assert(!dims_conflict(x.dims, t.dims));
    let a = unify_shape_model(x, t)->Ok_0;
    assert(a.dims =~= x.dims);
}

proof fn lemma_shape_refines(x: ShapeModel, y: ShapeModel)
    ensures
        unify_shape_model(x, y) matches Ok(z) ==> shape_refines(z, x),
{
    if let Ok(z) = unify_shape_model(x, y) {
        assert forall|i: int| 0 <= i < x.dims.len() && (#[trigger] x.dims[i]) is Only
            implies z.dims[i] == x.dims[i] by {
            if i < y.dims.len() {
                assert(unify_dim_model(x.dims[i], y.dims[i]) is Some);
            }
        }
    }
}

} // verus!
