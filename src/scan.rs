//! The `Scan` operator's inference: unifying the facts of its outer inputs
//! and outputs with those of its body.
use vstd::prelude::*;
use crate::analyser::{all_refine, lemma_all_refine_trans, lemma_refines_order, models};
use crate::dim::TDim;
use crate::errors::{Attribute, TractError};
use crate::analyser::analyse;
use crate::model::valid_outlet;
use crate::fact::{
    lemma_part_refines, refines, shape_refines, type_refines, unify, unify_datatype, unify_shape, DimFact,
    FactModel, ShapeFact, ShapeModel, TensorFact, TypeFact,
};
use crate::model::{Model, RawModel};
use crate::fact::{unify_shape_model, unify_model};
use crate::ops::OpModel;
use crate::state::{SimplePlan, SimpleState};
use crate::tensor::{inner_size, picked, placed, scalar_model, scalars_of, shape_product, DataModel, Tensor, TensorModel};
use crate::state::run_model;
use crate::ops::tensor_models;

verus! {

/// A loop over a body graph. Its outer inputs are, in order, the initial
/// values of the hidden state, the scanned inputs (sliced along their scan
/// axis, one slice per iteration) and the closure inputs (passed whole to
/// every iteration); its outer outputs are the final hidden state and the
/// scanned outputs (stacked along their scan axis). `body_inputs` and
/// `body_outputs` are the facts at the body's input and output outlets.
#[derive(Debug)]
pub struct Scan {
    pub body: RawModel,
    pub body_inputs: Vec<TensorFact>,
    pub body_outputs: Vec<TensorFact>,
    pub num_scan_inputs: usize,
    pub closure_inputs: usize,
    pub scan_input_axes: Vec<usize>,
    pub scan_output_axes: Vec<usize>,
}

/// The scan axis at position `i`, 0 when none is given.
pub open spec fn axis_of(axes: Seq<usize>, i: int) -> usize {
    if 0 <= i < axes.len() { axes[i] } else { 0 }
}

/// `f` with another element-type fact.
pub open spec fn with_type(f: FactModel, t: TypeFact) -> FactModel {
    FactModel { datum_type: t, ..f }
}

/// `f` with another shape fact.
pub open spec fn with_shape(f: FactModel, s: ShapeModel) -> FactModel {
    FactModel { shape: s, ..f }
}

/// Whether `ni` outer inputs and `no` outer outputs fit the body: as many
/// as its inputs and outputs, with room for the scanned and closure inputs
/// and for the hidden states among the outputs.
pub open spec fn counts_fit(s: Scan, ni: int, no: int) -> bool {
    &&& ni == s.body_inputs@.len()
    &&& no == s.body_outputs@.len()
    &&& s.num_scan_inputs + s.closure_inputs <= ni
    &&& ni - s.num_scan_inputs - s.closure_inputs <= no
}

/// The number of hidden states.
pub open spec fn hidden_len(s: Scan) -> int {
    s.body_inputs@.len() - s.num_scan_inputs - s.closure_inputs
}

/// Hidden state `j` has one element type and one shape on all four sides.
pub open spec fn hidden_agrees(ins: Seq<FactModel>, outs: Seq<FactModel>, bi: Seq<FactModel>, bo: Seq<FactModel>, j: int) -> bool {
    &&& ins[j].datum_type == outs[j].datum_type
    &&& ins[j].datum_type == bi[j].datum_type
    &&& ins[j].datum_type == bo[j].datum_type
    &&& ins[j].shape == outs[j].shape
    &&& ins[j].shape == bi[j].shape
    &&& ins[j].shape == bo[j].shape
}

fn axis_at(axes: &Vec<usize>, i: usize) -> (r: usize)
    ensures
        r == axis_of(axes@, i as int),
{
    if i < axes.len() { axes[i] } else { 0 }
}

fn put_fact(v: &mut Vec<TensorFact>, i: usize, t: TypeFact, sh: ShapeFact)
    requires
        i < old(v)@.len(),
    ensures
        final(v)@.len() == old(v)@.len(),
        models(final(v)@) == models(old(v)@).update(i as int, with_shape(with_type(models(old(v)@)[i as int], t), sh@)),
{
    let mut f = v[i].clone();
    f.datum_type = t;
    f.shape = sh;
    let ghost before = v@;
    v.set(i, f);
    assert(models(v@) =~= models(before).update(i as int, with_shape(with_type(models(before)[i as int], t), f.shape@)));
}

fn put_type(v: &mut Vec<TensorFact>, i: usize, t: TypeFact)
    requires
        i < old(v)@.len(),
    ensures
        final(v)@.len() == old(v)@.len(),
        models(final(v)@) == models(old(v)@).update(i as int, with_type(models(old(v)@)[i as int], t)),
{
    let mut f = v[i].clone();
    f.datum_type = t;
    let ghost before = v@;
    v.set(i, f);
    assert(models(v@) =~= models(before).update(i as int, with_type(models(before)[i as int], t)));
}

fn put_shape(v: &mut Vec<TensorFact>, i: usize, s: ShapeFact)
    requires
        i < old(v)@.len(),
    ensures
        final(v)@.len() == old(v)@.len(),
        models(final(v)@) == models(old(v)@).update(i as int, with_shape(models(old(v)@)[i as int], s@)),
{
    let mut f = v[i].clone();
    f.shape = s;
    let ghost before = v@;
    v.set(i, f);
    assert(models(v@) =~= models(before).update(i as int, with_shape(models(before)[i as int], f.shape@)));
}

/// Replacing one fact by a refinement of it keeps a vector refining another.
proof fn lemma_update_keeps(cur: Seq<FactModel>, orig: Seq<FactModel>, i: int, f: FactModel)
    requires
        all_refine(cur, orig),
        0 <= i < cur.len(),
        refines(f, cur[i]),
    ensures
        all_refine(cur.update(i, f), orig),
{
    lemma_refines_order(f, cur[i], orig[i]);
}

/// A new element type that refines the old one refines the whole fact.
proof fn lemma_type_step(f: FactModel, t: TypeFact)
    requires
        type_refines(t, f.datum_type),
    ensures
        refines(with_type(f, t), f),
{
    lemma_part_refines(t, t, f.shape, f.shape, f.shape);
}

/// A new shape that refines the old one refines the whole fact.
proof fn lemma_shape_step(f: FactModel, s: ShapeModel)
    requires
        shape_refines(s, f.shape),
    ensures
        refines(with_shape(f, s), f),
{
}

/// Whether the shape is closed and every dimension is known.
pub open spec fn concrete_shape(s: ShapeModel) -> bool {
    !s.open && forall|i: int| 0 <= i < s.dims.len() ==> (#[trigger] s.dims[i]) is Only
}

/// The shape of the tensor that collects a scanned output: the body
/// output's known dimensions, with `iters` at the scan axis.
pub open spec fn collector_shape(s: ShapeModel, axis: int, iters: usize) -> Seq<usize> {
    Seq::new(s.dims.len(), |k: int| if k == axis { iters } else { s.dims[k]->Only_0.konst as usize })
}

/// The closed shape `s` with the known dimension `d` inserted at `axis`.
pub open spec fn inserted(s: ShapeModel, axis: int, d: TDim) -> ShapeModel {
    ShapeModel {
        open: false,
        dims: s.dims.subrange(0, axis) + seq![DimFact::Only(d)] + s.dims.subrange(axis, s.dims.len() as int),
    }
}

/// The iteration count that the first scanned input shows, if its scan
/// axis has a known length.
pub open spec fn shown_iterations(s: Scan, ins: Seq<FactModel>, h: int) -> Option<TDim> {
    let axis = axis_of(s.scan_input_axes@, 0) as int;
    if s.num_scan_inputs > 0 && axis < ins[h].shape.dims.len() && ins[h].shape.dims[axis] is Only {
        Some(ins[h].shape.dims[axis]->Only_0)
    } else {
        None
    }
}

/// Scanned output `j` has the body output's shape with the iteration count
/// inserted at its scan axis, once the count and that shape are known.
pub open spec fn output_shaped(outs: Seq<FactModel>, bo: Seq<FactModel>, axes: Seq<usize>, h: int, iters: Option<TDim>, j: int) -> bool {
    let axis = axis_of(axes, j - h) as int;
    (iters is Some && concrete_shape(bo[j].shape) && axis <= bo[j].shape.dims.len())
        ==> shape_refines(outs[j].shape, inserted(bo[j].shape, axis, iters->Some_0))
}

/// The closed shape `s` with `it` inserted at `axis`, when `s` is concrete
/// and `axis` at most its rank.
fn insert_dim(s: &ShapeFact, axis: usize, it: TDim) -> (r: Option<ShapeFact>)
    ensures
        r matches Some(t) ==> t@ == inserted(s@, axis as int, it),
        r is None <==> !(concrete_shape(s@) && axis <= s@.dims.len()),
{
    let dims = match concrete_dims(s) {
        Some(d) => d,
        None => return None,
    };
    if axis > dims.len() {
        return None;
    }
    let ghost sd = s@.dims;
    let mut outer: Vec<DimFact> = Vec::new();
    let mut k: usize = 0;
    while k < dims.len()
        invariant
            0 <= k <= dims@.len(),
            axis <= dims@.len(),
            sd.len() == dims@.len(),
            forall|q: int| 0 <= q < dims@.len() ==> sd[q] == DimFact::Only(#[trigger] dims@[q]),
            outer@ == (if k <= axis { sd.subrange(0, k as int) } else {
                sd.subrange(0, axis as int) + seq![DimFact::Only(it)] + sd.subrange(axis as int, k as int)
            }),
        decreases dims.len() - k,
    {
        if k == axis {
            outer.push(DimFact::Only(it));
        }
        outer.push(DimFact::Only(dims[k]));
        proof {
            if k < axis {
                assert(outer@ =~= sd.subrange(0, k + 1));
            } else {
                assert(outer@ =~= sd.subrange(0, axis as int) + seq![DimFact::Only(it)] + sd.subrange(axis as int, k + 1));
            }
        }
        k += 1;
    }
    if axis == dims.len() {
        outer.push(DimFact::Only(it));
        assert(outer@ =~= sd.subrange(0, axis as int) + seq![DimFact::Only(it)] + sd.subrange(axis as int, sd.len() as int));
    } else {
        assert(outer@ =~= sd.subrange(0, axis as int) + seq![DimFact::Only(it)] + sd.subrange(axis as int, sd.len() as int));
    }
    Some(ShapeFact { open: false, dims: outer })
}

/// Whether the shape is closed and every dimension known.
fn concrete_dims(s: &ShapeFact) -> (r: Option<Vec<TDim>>)
    ensures
        r matches Some(d) ==> !s@.open && d@.len() == s@.dims.len()
            && forall|i: int| 0 <= i < d@.len() ==> s@.dims[i] == DimFact::Only(#[trigger] d@[i]),
        r is Some <==> concrete_shape(s@),
{
    if s.open {
        return None;
    }
    let mut d: Vec<TDim> = Vec::new();
    let mut i: usize = 0;
    while i < s.dims.len()
        invariant
            0 <= i <= s.dims@.len(),
            d@.len() == i,
            forall|j: int| 0 <= j < i ==> s.dims@[j] == DimFact::Only(#[trigger] d@[j]),
        decreases s.dims.len() - i,
    {
        match s.dims[i] {
            DimFact::Only(x) => d.push(x),
            DimFact::Any => {
                assert(!(s@.dims[i as int] is Only));
                return None;
            },
        }
        i += 1;
    }
    assert forall|i: int| 0 <= i < s@.dims.len() implies (#[trigger] s@.dims[i]) is Only by {
        assert(s@.dims[i] == DimFact::Only(d@[i]));
    }
    Some(d)
}

/// A shape fact that knows nothing: open, every dimension unknown.
pub open spec fn blank_shape(s: ShapeModel) -> bool {
    s.open && forall|k: int| 0 <= k < s.dims.len() ==> (#[trigger] s.dims[k]) is Any
}

/// A fact that knows nothing.
pub open spec fn blank(f: FactModel) -> bool {
    f.datum_type is Any && blank_shape(f.shape) && f.value is Any
}

/// Every fact of the four vectors knows nothing.
pub open spec fn scan_blank(ins: Seq<FactModel>, outs: Seq<FactModel>, bi: Seq<FactModel>, bo: Seq<FactModel>) -> bool {
    &&& forall|i: int| 0 <= i < ins.len() ==> blank(#[trigger] ins[i])
    &&& forall|i: int| 0 <= i < outs.len() ==> blank(#[trigger] outs[i])
    &&& forall|i: int| 0 <= i < bi.len() ==> blank(#[trigger] bi[i])
    &&& forall|i: int| 0 <= i < bo.len() ==> blank(#[trigger] bo[i])
}

/// Unifying two shapes that know nothing succeeds and knows nothing.
proof fn lemma_blank_shapes(x: ShapeModel, y: ShapeModel)
    requires
        blank_shape(x),
        blank_shape(y),
    ensures
        unify_shape_model(x, y) is Ok,
        blank_shape(unify_shape_model(x, y)->Ok_0),
{
    assert(!crate::fact::dims_conflict(x.dims, y.dims)) by {
        assert forall|i: int| 0 <= i < x.dims.len() && i < y.dims.len()
            implies !(crate::fact::unify_dim_model(x.dims[i], y.dims[i]) is None) by {
            assert(x.dims[i] is Any && y.dims[i] is Any);
        }
    }
    let z = unify_shape_model(x, y)->Ok_0;
    assert forall|k: int| 0 <= k < z.dims.len() implies (#[trigger] z.dims[k]) is Any by {
        if k < x.dims.len() { assert(x.dims[k] is Any); }
        if k < y.dims.len() { assert(y.dims[k] is Any); }
    }
}

/// The shape with at least `axis + 1` dimensions: an open shape is padded
/// with unknown dimensions, a closed one too short is a rank contradiction.
fn with_rank_at_least(s: &ShapeFact, axis: usize) -> (r: Result<ShapeFact, Attribute>)
    ensures
        r matches Ok(t) ==> shape_refines(t@, s@) && t@.dims.len() > axis && t@.open == s@.open,
        r matches Ok(t) ==> (blank_shape(s@) ==> blank_shape(t@)),
        r is Err ==> !s@.open && s@.dims.len() <= axis,
{
    let mut t = s.clone();
    if t.dims.len() > axis {
        proof { lemma_part_refines(TypeFact::Any, TypeFact::Any, s@, s@, s@); }
        return Ok(t);
    }
    if !t.open {
        return Err(Attribute::Rank);
    }
    while t.dims.len() <= axis
        invariant
            t@.open,
            t@.dims.len() >= s@.dims.len(),
            forall|i: int| 0 <= i < s@.dims.len() ==> t@.dims[i] == s@.dims[i],
            forall|i: int| s@.dims.len() <= i < t@.dims.len() ==> t@.dims[i] is Any,
        decreases axis + 1 - t.dims.len(),
    {
        t.dims.push(DimFact::Any);
    }
    Ok(t)
}

/// The slice at index `i` of axis `axis` of `x` (see `Tensor::slice_axis`).
pub open spec fn slice_value(x: TensorModel, axis: usize, i: int) -> TensorModel {
    scalar_model(x.datum_type, x.shape.update(axis as int, 1), picked(scalars_of(x), inner_size(x.shape, axis as int),
        x.shape[axis as int] as int, i, scalars_of(x).len() as int))
}

/// Whether `n` outer inputs fit the loop: at least one scanned input, and
/// room for the hidden states among the body outputs.
pub open spec fn eval_fits(s: Scan, n: int) -> bool {
    &&& s.num_scan_inputs > 0
    &&& s.num_scan_inputs + s.closure_inputs <= n
    &&& n - s.num_scan_inputs - s.closure_inputs <= s.body_outputs@.len()
}

/// Once a run of the body fails, the later states are none.
proof fn lemma_scan_state_none(s: Scan, ins: Seq<TensorModel>, a: nat, b: nat)
    requires
        a <= b,
        scan_state(s, ins, a) is None,
    ensures
        scan_state(s, ins, b) is None,
    decreases b - a,
{
    if a < b {
        lemma_scan_state_none(s, ins, a, (b - 1) as nat);
    }
}

/// The number of hidden states of a scan given `n` outer inputs.
pub open spec fn hidden_count(s: Scan, n: int) -> int {
    n - s.num_scan_inputs - s.closure_inputs
}

/// The inputs of the body at iteration `it`: the hidden state, the slice
/// of each scanned input at `it`, and the closure inputs.
pub open spec fn body_step_inputs(s: Scan, ins: Seq<TensorModel>, hidden: Seq<TensorModel>, it: int) -> Seq<TensorModel> {
    let h = hidden_count(s, ins.len() as int);
    hidden + Seq::new(s.num_scan_inputs as nat, |k: int| slice_value(ins[h + k], axis_of(s.scan_input_axes@, k), it))
        + ins.subrange(h + s.num_scan_inputs, ins.len() as int)
}

/// The hidden state after `it` iterations of the body, and for each
/// iteration the body outputs that follow the hidden ones; none when a run
/// of the body fails.
pub open spec fn scan_state(s: Scan, ins: Seq<TensorModel>, it: nat) -> Option<(Seq<TensorModel>, Seq<Seq<TensorModel>>)>
    decreases it,
{
    let h = hidden_count(s, ins.len() as int);
    if it == 0 {
        Some((ins.subrange(0, h), Seq::empty()))
    } else {
        match scan_state(s, ins, (it - 1) as nat) {
            None => None,
            Some((hidden, steps)) => match run_model(s.body@, body_step_inputs(s, ins, hidden, it - 1)) {
                Ok(o) => Some((o.subrange(0, h), steps.push(o.subrange(h, o.len() as int)))),
                Err(_) => None,
            },
        }
    }
}

/// The elements of scanned output `j` once the first `it` iterations are
/// stacked, each at its index of an axis of length `d`, onto `base`.
pub open spec fn stacked(base: Seq<i64>, steps: Seq<Seq<TensorModel>>, j: int, inner: int, d: int, it: nat) -> Seq<i64>
    decreases it,
{
    if it == 0 {
        base
    } else {
        placed(stacked(base, steps, j, inner, d, (it - 1) as nat), scalars_of(steps[it - 1][j]), inner, d, it - 1)
    }
}

impl Scan {
    /// Gives each hidden state one element type and one shape on its four
    /// sides.
    #[verifier::loop_isolation(false)]
    fn unify_hidden(&mut self, inputs: &mut Vec<TensorFact>, outputs: &mut Vec<TensorFact>, h: usize) -> (r: Result<(), Attribute>)
        requires
            old(inputs)@.len() == old(self).body_inputs@.len(),
            old(outputs)@.len() == old(self).body_outputs@.len(),
            h + old(self).num_scan_inputs + old(self).closure_inputs == old(self).body_inputs@.len(),
            h <= old(self).body_outputs@.len(),
        ensures
            final(inputs)@.len() == old(inputs)@.len(),
            final(outputs)@.len() == old(outputs)@.len(),
            final(self).body_inputs@.len() == old(self).body_inputs@.len(),
            final(self).body_outputs@.len() == old(self).body_outputs@.len(),
            final(self).num_scan_inputs == old(self).num_scan_inputs,
            final(self).closure_inputs == old(self).closure_inputs,
            final(self).body == old(self).body,
            final(self).scan_input_axes == old(self).scan_input_axes,
            final(self).scan_output_axes == old(self).scan_output_axes,
            r is Ok ==> all_refine(models(final(inputs)@), models(old(inputs)@)),
            r is Ok ==> all_refine(models(final(outputs)@), models(old(outputs)@)),
            r is Ok ==> all_refine(models(final(self).body_inputs@), models(old(self).body_inputs@)),
            r is Ok ==> all_refine(models(final(self).body_outputs@), models(old(self).body_outputs@)),
            scan_blank(models(old(inputs)@), models(old(outputs)@), models(old(self).body_inputs@), models(old(self).body_outputs@))
                ==> r is Ok && scan_blank(models(final(inputs)@), models(final(outputs)@), models(final(self).body_inputs@),
                models(final(self).body_outputs@)),
            r is Ok ==> forall|j: int| 0 <= j < h ==> #[trigger] hidden_agrees(models(final(inputs)@), models(final(outputs)@),
                models(final(self).body_inputs@), models(final(self).body_outputs@), j),
            r is Ok ==> forall|j: int| h <= j < old(inputs)@.len() ==> #[trigger] models(final(inputs)@)[j] == models(old(inputs)@)[j],
            r is Ok ==> forall|j: int| h <= j < old(outputs)@.len() ==> #[trigger] models(final(outputs)@)[j] == models(old(outputs)@)[j],
            r is Ok ==> forall|j: int| h <= j < old(self).body_inputs@.len() ==> #[trigger] models(final(self).body_inputs@)[j] == models(old(self).body_inputs@)[j],
            r is Ok ==> forall|j: int| h <= j < old(self).body_outputs@.len() ==> #[trigger] models(final(self).body_outputs@)[j] == models(old(self).body_outputs@)[j],
    {
        let ghost ins0 = models(inputs@);
        let ghost outs0 = models(outputs@);
        let ghost bi0 = models(self.body_inputs@);
        let ghost bo0 = models(self.body_outputs@);
        // reading the lengths tells the verifier that they fit in a usize
        let _ = self.body_inputs.len();
        let _ = self.body_outputs.len();
        proof {
            lemma_all_refine_self(ins0);
            lemma_all_refine_self(outs0);
            lemma_all_refine_self(bi0);
            lemma_all_refine_self(bo0);
        }
        let mut i: usize = 0;
        while i < h
            invariant
                0 <= i <= h,
                inputs@.len() == ins0.len(),
                outputs@.len() == outs0.len(),
                self.body_inputs@.len() == bi0.len(),
                self.body_outputs@.len() == bo0.len(),
                self.num_scan_inputs == old(self).num_scan_inputs,
                self.closure_inputs == old(self).closure_inputs,
                self.body == old(self).body,
                self.scan_input_axes == old(self).scan_input_axes,
                self.scan_output_axes == old(self).scan_output_axes,
                bi0.len() <= usize::MAX,
                bo0.len() <= usize::MAX,
                h + self.num_scan_inputs + self.closure_inputs == bi0.len(),
                h <= bo0.len(),
                all_refine(models(inputs@), ins0),
                all_refine(models(outputs@), outs0),
                all_refine(models(self.body_inputs@), bi0),
                all_refine(models(self.body_outputs@), bo0),
                scan_blank(ins0, outs0, bi0, bo0) ==> scan_blank(models(inputs@), models(outputs@), models(self.body_inputs@),
                    models(self.body_outputs@)),
                forall|j: int| 0 <= j < i ==> #[trigger] hidden_agrees(models(inputs@), models(outputs@),
                    models(self.body_inputs@), models(self.body_outputs@), j),
                forall|j: int| i <= j < ins0.len() ==> #[trigger] models(inputs@)[j] == ins0[j],
                forall|j: int| i <= j < outs0.len() ==> #[trigger] models(outputs@)[j] == outs0[j],
                forall|j: int| i <= j < bi0.len() ==> #[trigger] models(self.body_inputs@)[j] == bi0[j],
                forall|j: int| i <= j < bo0.len() ==> #[trigger] models(self.body_outputs@)[j] == bo0[j],
            decreases h - i,
        {
            proof {
                if scan_blank(ins0, outs0, bi0, bo0) {
                    let (fi, fo, fb, fc) = (models(inputs@)[i as int], models(outputs@)[i as int],
                        models(self.body_inputs@)[i as int], models(self.body_outputs@)[i as int]);
                    assert(blank(fi) && blank(fo) && blank(fb) && blank(fc));
                    lemma_blank_shapes(fb.shape, fc.shape);
                    let z1 = unify_shape_model(fb.shape, fc.shape)->Ok_0;
                    lemma_blank_shapes(z1, fi.shape);
                    let z2 = unify_shape_model(z1, fi.shape)->Ok_0;
                    lemma_blank_shapes(z2, fo.shape);
                }
            }
            let a = self.body_inputs[i].datum_type;
            let b = self.body_outputs[i].datum_type;
            let c = inputs[i].datum_type;
            let d = outputs[i].datum_type;
            let m1 = unify_datatype(&a, &b)?;
            let m2 = unify_datatype(&m1, &c)?;
            let m = unify_datatype(&m2, &d)?;
            let sa = self.body_inputs[i].shape.clone();
            let sb = self.body_outputs[i].shape.clone();
            let sc = inputs[i].shape.clone();
            let sd = outputs[i].shape.clone();
            let s1 = unify_shape(&sa, &sb)?;
            let s2 = unify_shape(&s1, &sc)?;
            let sm = unify_shape(&s2, &sd)?;
            let ghost (si, so, sbi, sbo) = (models(inputs@), models(outputs@), models(self.body_inputs@), models(self.body_outputs@));
            proof {
                lemma_part_refines(a, b, sa@, sb@, sb@);
                lemma_part_refines(m1, c, s1@, sc@, sc@);
                lemma_part_refines(m2, d, s2@, sd@, sd@);
                lemma_part_refines(m, m, sm@, s2@, s1@);
                lemma_part_refines(m, m, sm@, s1@, sa@);
                lemma_part_refines(m, m, sm@, s1@, sb@);
                lemma_part_refines(m, m, sm@, s2@, sc@);
                assert(si[i as int].shape == sc@ && so[i as int].shape == sd@);
                assert(sbi[i as int].shape == sa@ && sbo[i as int].shape == sb@);
                lemma_update_keeps(si, ins0, i as int, with_shape(with_type(si[i as int], m), sm@));
                lemma_update_keeps(so, outs0, i as int, with_shape(with_type(so[i as int], m), sm@));
                lemma_update_keeps(sbi, bi0, i as int, with_shape(with_type(sbi[i as int], m), sm@));
                lemma_update_keeps(sbo, bo0, i as int, with_shape(with_type(sbo[i as int], m), sm@));
            }
            put_fact(inputs, i, m, sm.clone());
            put_fact(outputs, i, m, sm.clone());
            put_fact(&mut self.body_inputs, i, m, sm.clone());
            put_fact(&mut self.body_outputs, i, m, sm);
            proof {
                assert forall|j: int| 0 <= j < i + 1 implies #[trigger] hidden_agrees(models(inputs@), models(outputs@),
                    models(self.body_inputs@), models(self.body_outputs@), j) by {
                    if j < i {
                        assert(hidden_agrees(si, so, sbi, sbo, j));
                    }
                }
            }
            i += 1;
        }
        Ok(())
    }

    /// Pads the shapes of the scanned inputs and outputs to reach their
    /// scan axis, and returns the first length known along a scan axis.
    #[verifier::loop_isolation(false)]
    fn iterations(&mut self, inputs: &mut Vec<TensorFact>, outputs: &mut Vec<TensorFact>, h: usize) -> (r: Result<Option<TDim>, Attribute>)
        requires
            old(inputs)@.len() == old(self).body_inputs@.len(),
            old(outputs)@.len() == old(self).body_outputs@.len(),
            h + old(self).num_scan_inputs + old(self).closure_inputs == old(self).body_inputs@.len(),
            h <= old(self).body_outputs@.len(),
        ensures
            final(inputs)@.len() == old(inputs)@.len(),
            final(outputs)@.len() == old(outputs)@.len(),
            final(self).body_inputs@.len() == old(self).body_inputs@.len(),
            final(self).body_outputs@.len() == old(self).body_outputs@.len(),
            final(self).num_scan_inputs == old(self).num_scan_inputs,
            final(self).closure_inputs == old(self).closure_inputs,
            final(self).body == old(self).body,
            final(self).scan_input_axes == old(self).scan_input_axes,
            final(self).scan_output_axes == old(self).scan_output_axes,
            r is Ok ==> all_refine(models(final(inputs)@), models(old(inputs)@)),
            r is Ok ==> all_refine(models(final(outputs)@), models(old(outputs)@)),
            r is Ok ==> all_refine(models(final(self).body_inputs@), models(old(self).body_inputs@)),
            r is Ok ==> all_refine(models(final(self).body_outputs@), models(old(self).body_outputs@)),
            scan_blank(models(old(inputs)@), models(old(outputs)@), models(old(self).body_inputs@), models(old(self).body_outputs@))
                ==> r is Ok && scan_blank(models(final(inputs)@), models(final(outputs)@), models(final(self).body_inputs@),
                models(final(self).body_outputs@)),
            r is Ok ==> forall|j: int| 0 <= j < old(inputs)@.len() ==> (#[trigger] models(final(inputs)@)[j]).datum_type == models(old(inputs)@)[j].datum_type,
            r is Ok ==> forall|j: int| 0 <= j < old(outputs)@.len() ==> (#[trigger] models(final(outputs)@)[j]).datum_type == models(old(outputs)@)[j].datum_type,
            r is Ok ==> forall|j: int| 0 <= j < h ==> #[trigger] models(final(inputs)@)[j] == models(old(inputs)@)[j],
            r is Ok ==> forall|j: int| 0 <= j < h ==> #[trigger] models(final(outputs)@)[j] == models(old(outputs)@)[j],
            r is Ok ==> forall|j: int| h + old(self).num_scan_inputs <= j < old(inputs)@.len() ==> #[trigger] models(final(inputs)@)[j] == models(old(inputs)@)[j],
            r is Ok ==> models(final(self).body_inputs@) == models(old(self).body_inputs@),
            r is Ok ==> models(final(self).body_outputs@) == models(old(self).body_outputs@),
            r matches Ok(it) ==> shown_iterations(*old(self), models(final(inputs)@), h as int) is Some
                ==> it == shown_iterations(*old(self), models(final(inputs)@), h as int),
    {
        let ghost ins0 = models(inputs@);
        let ghost outs0 = models(outputs@);
        let ghost bi0 = models(self.body_inputs@);
        let ghost bo0 = models(self.body_outputs@);
        // reading the lengths tells the verifier that they fit in a usize
        let _ = self.body_inputs.len();
        let _ = self.body_outputs.len();
        proof {
            lemma_all_refine_self(ins0);
            lemma_all_refine_self(outs0);
            lemma_all_refine_self(bi0);
            lemma_all_refine_self(bo0);
        }
        let num_scan_outputs = self.body_outputs.len() - h;
        let mut iters: Option<TDim> = None;
        let mut i: usize = 0;
        while i < self.num_scan_inputs
            invariant
                0 <= i <= self.num_scan_inputs,
                inputs@.len() == ins0.len(),
                outputs@.len() == outs0.len(),
                self.body_inputs@.len() == bi0.len(),
                self.body_outputs@.len() == bo0.len(),
                self.num_scan_inputs == old(self).num_scan_inputs,
                self.closure_inputs == old(self).closure_inputs,
                self.body == old(self).body,
                self.scan_input_axes == old(self).scan_input_axes,
                self.scan_output_axes == old(self).scan_output_axes,
                bi0.len() <= usize::MAX,
                bo0.len() <= usize::MAX,
                h + self.num_scan_inputs + self.closure_inputs == bi0.len(),
                h <= bo0.len(),
                all_refine(models(inputs@), ins0),
                all_refine(models(outputs@), outs0),
                all_refine(models(self.body_inputs@), bi0),
                all_refine(models(self.body_outputs@), bo0),
                scan_blank(ins0, outs0, bi0, bo0) ==> scan_blank(models(inputs@), models(outputs@), models(self.body_inputs@),
                    models(self.body_outputs@)),
                forall|j: int| 0 <= j < h ==> #[trigger] models(inputs@)[j] == ins0[j],
                forall|j: int| 0 <= j < h ==> #[trigger] models(outputs@)[j] == outs0[j],
                forall|j: int| 0 <= j < h ==> #[trigger] models(self.body_inputs@)[j] == bi0[j],
                forall|j: int| 0 <= j < h ==> #[trigger] models(self.body_outputs@)[j] == bo0[j],
                models(outputs@) == outs0,
                models(self.body_inputs@) == bi0,
                models(self.body_outputs@) == bo0,
                forall|j: int| 0 <= j < ins0.len() ==> (#[trigger] models(inputs@)[j]).datum_type == ins0[j].datum_type,
                forall|j: int| h + self.num_scan_inputs <= j < ins0.len() ==> #[trigger] models(inputs@)[j] == ins0[j],
                i > 0 ==> (shown_iterations(*old(self), models(inputs@), h as int) is Some
                    ==> iters == shown_iterations(*old(self), models(inputs@), h as int)),
                i == 0 ==> iters is None,
            decreases self.num_scan_inputs - i,
        {
            let idx = h + i;
            let axis = axis_at(&self.scan_input_axes, i);
            proof { if scan_blank(ins0, outs0, bi0, bo0) { assert(blank(models(inputs@)[idx as int])); } }
            let sh = with_rank_at_least(&inputs[idx].shape, axis)?;
            if iters.is_none() {
                if let DimFact::Only(d) = sh.dims[axis] {
                    iters = Some(d);
                }
            }
            proof {
                let ins = models(inputs@);
                lemma_update_keeps(ins, ins0, idx as int, with_shape(ins[idx as int], sh@));
            }
            let ghost shv = sh@;
            let ghost before_i = models(inputs@);
            put_shape(inputs, idx, sh);
            proof {
                if i > 0 {
                    assert(models(inputs@)[h as int] == before_i[h as int]);
                } else {
                    assert(models(inputs@)[h as int].shape == shv);
                }
            }
            i += 1;
        }
        let mut i: usize = 0;
        while i < num_scan_outputs
            invariant
                0 <= i <= num_scan_outputs,
                inputs@.len() == ins0.len(),
                outputs@.len() == outs0.len(),
                self.body_inputs@.len() == bi0.len(),
                self.body_outputs@.len() == bo0.len(),
                self.num_scan_inputs == old(self).num_scan_inputs,
                self.closure_inputs == old(self).closure_inputs,
                self.body == old(self).body,
                self.scan_input_axes == old(self).scan_input_axes,
                self.scan_output_axes == old(self).scan_output_axes,
                bi0.len() <= usize::MAX,
                bo0.len() <= usize::MAX,
                h + self.num_scan_inputs + self.closure_inputs == bi0.len(),
                h <= bo0.len(),
                all_refine(models(inputs@), ins0),
                all_refine(models(outputs@), outs0),
                all_refine(models(self.body_inputs@), bi0),
                all_refine(models(self.body_outputs@), bo0),
                scan_blank(ins0, outs0, bi0, bo0) ==> scan_blank(models(inputs@), models(outputs@), models(self.body_inputs@),
                    models(self.body_outputs@)),
                forall|j: int| 0 <= j < h ==> #[trigger] models(inputs@)[j] == ins0[j],
                forall|j: int| 0 <= j < h ==> #[trigger] models(outputs@)[j] == outs0[j],
                forall|j: int| 0 <= j < h ==> #[trigger] models(self.body_inputs@)[j] == bi0[j],
                forall|j: int| 0 <= j < h ==> #[trigger] models(self.body_outputs@)[j] == bo0[j],
                num_scan_outputs == bo0.len() - h,
                models(self.body_inputs@) == bi0,
                models(self.body_outputs@) == bo0,
                forall|j: int| 0 <= j < ins0.len() ==> (#[trigger] models(inputs@)[j]).datum_type == ins0[j].datum_type,
                forall|j: int| 0 <= j < outs0.len() ==> (#[trigger] models(outputs@)[j]).datum_type == outs0[j].datum_type,
                forall|j: int| h + self.num_scan_inputs <= j < ins0.len() ==> #[trigger] models(inputs@)[j] == ins0[j],
                self.num_scan_inputs > 0 ==> (shown_iterations(*old(self), models(inputs@), h as int) is Some
                    ==> iters == shown_iterations(*old(self), models(inputs@), h as int)),
            decreases num_scan_outputs - i,
        {
            let idx = h + i;
            let axis = axis_at(&self.scan_output_axes, i);
            proof { if scan_blank(ins0, outs0, bi0, bo0) { assert(blank(models(outputs@)[idx as int])); } }
            let sh = with_rank_at_least(&outputs[idx].shape, axis)?;
            if iters.is_none() {
                if let DimFact::Only(d) = sh.dims[axis] {
                    iters = Some(d);
                }
            }
            proof {
                let outs = models(outputs@);
                lemma_update_keeps(outs, outs0, idx as int, with_shape(outs[idx as int], sh@));
            }
            put_shape(outputs, idx, sh);
            i += 1;
        }
        Ok(iters)
    }

    /// Gives each scanned input the element type of its body input, and
    /// the body input the outer shape without the scan axis.
    #[verifier::loop_isolation(false)]
    fn unify_scanned_inputs(&mut self, inputs: &mut Vec<TensorFact>, outputs: &mut Vec<TensorFact>, h: usize) -> (r: Result<(), Attribute>)
        requires
            old(inputs)@.len() == old(self).body_inputs@.len(),
            old(outputs)@.len() == old(self).body_outputs@.len(),
            h + old(self).num_scan_inputs + old(self).closure_inputs == old(self).body_inputs@.len(),
            h <= old(self).body_outputs@.len(),
        ensures
            final(inputs)@.len() == old(inputs)@.len(),
            final(outputs)@.len() == old(outputs)@.len(),
            final(self).body_inputs@.len() == old(self).body_inputs@.len(),
            final(self).body_outputs@.len() == old(self).body_outputs@.len(),
            final(self).num_scan_inputs == old(self).num_scan_inputs,
            final(self).closure_inputs == old(self).closure_inputs,
            final(self).body == old(self).body,
            final(self).scan_input_axes == old(self).scan_input_axes,
            final(self).scan_output_axes == old(self).scan_output_axes,
            r is Ok ==> all_refine(models(final(inputs)@), models(old(inputs)@)),
            r is Ok ==> all_refine(models(final(outputs)@), models(old(outputs)@)),
            r is Ok ==> all_refine(models(final(self).body_inputs@), models(old(self).body_inputs@)),
            r is Ok ==> all_refine(models(final(self).body_outputs@), models(old(self).body_outputs@)),
            scan_blank(models(old(inputs)@), models(old(outputs)@), models(old(self).body_inputs@), models(old(self).body_outputs@))
                ==> r is Ok && scan_blank(models(final(inputs)@), models(final(outputs)@), models(final(self).body_inputs@),
                models(final(self).body_outputs@)),
            r is Ok ==> models(final(outputs)@) == models(old(outputs)@),
            r is Ok ==> models(final(self).body_outputs@) == models(old(self).body_outputs@),
            r is Ok ==> forall|j: int| 0 <= j < h ==> #[trigger] models(final(inputs)@)[j] == models(old(inputs)@)[j],
            r is Ok ==> forall|j: int| 0 <= j < h ==> #[trigger] models(final(self).body_inputs@)[j] == models(old(self).body_inputs@)[j],
            r is Ok ==> forall|j: int| h + old(self).num_scan_inputs <= j < old(inputs)@.len() ==> #[trigger] models(final(inputs)@)[j] == models(old(inputs)@)[j],
            r is Ok ==> forall|j: int| h + old(self).num_scan_inputs <= j < old(inputs)@.len() ==> #[trigger] models(final(self).body_inputs@)[j] == models(old(self).body_inputs@)[j],
            r is Ok ==> forall|j: int| h <= j < h + old(self).num_scan_inputs ==> (#[trigger] models(final(inputs)@)[j]).datum_type == models(final(self).body_inputs@)[j].datum_type,
            r is Ok ==> forall|j: int| 0 <= j < old(inputs)@.len() ==> (#[trigger] models(final(inputs)@)[j]).shape == models(old(inputs)@)[j].shape,
    {
        let ghost ins0 = models(inputs@);
        let ghost outs0 = models(outputs@);
        let ghost bi0 = models(self.body_inputs@);
        let ghost bo0 = models(self.body_outputs@);
        // reading the lengths tells the verifier that they fit in a usize
        let _ = self.body_inputs.len();
        let _ = self.body_outputs.len();
        proof {
            lemma_all_refine_self(ins0);
            lemma_all_refine_self(outs0);
            lemma_all_refine_self(bi0);
            lemma_all_refine_self(bo0);
        }
        let mut i: usize = 0;
        while i < self.num_scan_inputs
            invariant
                0 <= i <= self.num_scan_inputs,
                inputs@.len() == ins0.len(),
                outputs@.len() == outs0.len(),
                self.body_inputs@.len() == bi0.len(),
                self.body_outputs@.len() == bo0.len(),
                self.num_scan_inputs == old(self).num_scan_inputs,
                self.closure_inputs == old(self).closure_inputs,
                self.body == old(self).body,
                self.scan_input_axes == old(self).scan_input_axes,
                self.scan_output_axes == old(self).scan_output_axes,
                bi0.len() <= usize::MAX,
                bo0.len() <= usize::MAX,
                h + self.num_scan_inputs + self.closure_inputs == bi0.len(),
                h <= bo0.len(),
                all_refine(models(inputs@), ins0),
                all_refine(models(outputs@), outs0),
                all_refine(models(self.body_inputs@), bi0),
                all_refine(models(self.body_outputs@), bo0),
                scan_blank(ins0, outs0, bi0, bo0) ==> scan_blank(models(inputs@), models(outputs@), models(self.body_inputs@),
                    models(self.body_outputs@)),
                forall|j: int| 0 <= j < h ==> #[trigger] models(inputs@)[j] == ins0[j],
                forall|j: int| 0 <= j < h ==> #[trigger] models(outputs@)[j] == outs0[j],
                forall|j: int| 0 <= j < h ==> #[trigger] models(self.body_inputs@)[j] == bi0[j],
                forall|j: int| 0 <= j < h ==> #[trigger] models(self.body_outputs@)[j] == bo0[j],
                models(outputs@) == outs0,
                models(self.body_outputs@) == bo0,
                forall|j: int| h + self.num_scan_inputs <= j < ins0.len() ==> #[trigger] models(inputs@)[j] == ins0[j],
                forall|j: int| h + self.num_scan_inputs <= j < ins0.len() ==> #[trigger] models(self.body_inputs@)[j] == bi0[j],
                forall|j: int| h <= j < h + i ==> (#[trigger] models(inputs@)[j]).datum_type == models(self.body_inputs@)[j].datum_type,
                forall|j: int| 0 <= j < ins0.len() ==> (#[trigger] models(inputs@)[j]).shape == ins0[j].shape,
            decreases self.num_scan_inputs - i,
        {
            let idx = h + i;
            proof { if scan_blank(ins0, outs0, bi0, bo0) { assert(blank(models(inputs@)[idx as int]) && blank(models(self.body_inputs@)[idx as int])); } }
            let a = inputs[idx].datum_type;
            let b = self.body_inputs[idx].datum_type;
            let m = unify_datatype(&a, &b)?;
            proof {
                let e = ShapeModel { open: true, dims: Seq::empty() };
                lemma_part_refines(a, b, e, e, e);
                let ins = models(inputs@);
                let bi = models(self.body_inputs@);
                lemma_type_step(ins[idx as int], m);
                lemma_type_step(bi[idx as int], m);
                lemma_update_keeps(ins, ins0, idx as int, with_type(ins[idx as int], m));
                lemma_update_keeps(bi, bi0, idx as int, with_type(bi[idx as int], m));
            }
            put_type(inputs, idx, m);
            put_type(&mut self.body_inputs, idx, m);
            proof {
                if scan_blank(ins0, outs0, bi0, bo0) {
                    assert(m is Any);
                    assert(blank(models(inputs@)[idx as int]));
                    assert(!concrete_shape(inputs@[idx as int]@.shape));
                }
            }
            if let Some(dims) = concrete_dims(&inputs[idx].shape) {
                let axis = axis_at(&self.scan_input_axes, i);
                if axis < dims.len() {
                    let mut inner: Vec<DimFact> = Vec::new();
                    let mut k: usize = 0;
                    while k < dims.len()
                        invariant
                            0 <= k <= dims@.len(),
                        decreases dims.len() - k,
                    {
                        if k != axis {
                            inner.push(DimFact::Only(dims[k]));
                        }
                        k += 1;
                    }
                    let target = ShapeFact { open: false, dims: inner };
                    let cur = self.body_inputs[idx].shape.clone();
                    let sh = unify_shape(&cur, &target)?;
                    proof {
                        lemma_part_refines(m, m, cur@, target@, target@);
                        let bi = models(self.body_inputs@);
                        assert(bi[idx as int].shape == cur@);
                        lemma_update_keeps(bi, bi0, idx as int, with_shape(bi[idx as int], sh@));
                    }
                    put_shape(&mut self.body_inputs, idx, sh);
                }
            }
            i += 1;
        }
        Ok(())
    }

    /// Unifies each closure input with its body input.
    #[verifier::loop_isolation(false)]
    fn unify_closures(&mut self, inputs: &mut Vec<TensorFact>, outputs: &mut Vec<TensorFact>, h: usize) -> (r: Result<(), Attribute>)
        requires
            old(inputs)@.len() == old(self).body_inputs@.len(),
            old(outputs)@.len() == old(self).body_outputs@.len(),
            h + old(self).num_scan_inputs + old(self).closure_inputs == old(self).body_inputs@.len(),
            h <= old(self).body_outputs@.len(),
        ensures
            final(inputs)@.len() == old(inputs)@.len(),
            final(outputs)@.len() == old(outputs)@.len(),
            final(self).body_inputs@.len() == old(self).body_inputs@.len(),
            final(self).body_outputs@.len() == old(self).body_outputs@.len(),
            final(self).num_scan_inputs == old(self).num_scan_inputs,
            final(self).closure_inputs == old(self).closure_inputs,
            final(self).body == old(self).body,
            final(self).scan_input_axes == old(self).scan_input_axes,
            final(self).scan_output_axes == old(self).scan_output_axes,
            r is Ok ==> all_refine(models(final(inputs)@), models(old(inputs)@)),
            r is Ok ==> all_refine(models(final(outputs)@), models(old(outputs)@)),
            r is Ok ==> all_refine(models(final(self).body_inputs@), models(old(self).body_inputs@)),
            r is Ok ==> all_refine(models(final(self).body_outputs@), models(old(self).body_outputs@)),
            scan_blank(models(old(inputs)@), models(old(outputs)@), models(old(self).body_inputs@), models(old(self).body_outputs@))
                ==> r is Ok && scan_blank(models(final(inputs)@), models(final(outputs)@), models(final(self).body_inputs@),
                models(final(self).body_outputs@)),
            r is Ok ==> models(final(outputs)@) == models(old(outputs)@),
            r is Ok ==> models(final(self).body_outputs@) == models(old(self).body_outputs@),
            r is Ok ==> forall|j: int| 0 <= j < h + old(self).num_scan_inputs ==> #[trigger] models(final(inputs)@)[j] == models(old(inputs)@)[j],
            r is Ok ==> forall|j: int| 0 <= j < h + old(self).num_scan_inputs ==> #[trigger] models(final(self).body_inputs@)[j] == models(old(self).body_inputs@)[j],
            r is Ok ==> forall|j: int| h + old(self).num_scan_inputs <= j < old(inputs)@.len() ==> #[trigger] models(final(inputs)@)[j] == models(final(self).body_inputs@)[j],
    {
        let ghost ins0 = models(inputs@);
        let ghost outs0 = models(outputs@);
        let ghost bi0 = models(self.body_inputs@);
        let ghost bo0 = models(self.body_outputs@);
        // reading the lengths tells the verifier that they fit in a usize
        let _ = self.body_inputs.len();
        let _ = self.body_outputs.len();
        proof {
            lemma_all_refine_self(ins0);
            lemma_all_refine_self(outs0);
            lemma_all_refine_self(bi0);
            lemma_all_refine_self(bo0);
        }
        let base = h + self.num_scan_inputs;
        let mut i: usize = 0;
        while i < self.closure_inputs
            invariant
                0 <= i <= self.closure_inputs,
                inputs@.len() == ins0.len(),
                outputs@.len() == outs0.len(),
                self.body_inputs@.len() == bi0.len(),
                self.body_outputs@.len() == bo0.len(),
                self.num_scan_inputs == old(self).num_scan_inputs,
                self.closure_inputs == old(self).closure_inputs,
                self.body == old(self).body,
                self.scan_input_axes == old(self).scan_input_axes,
                self.scan_output_axes == old(self).scan_output_axes,
                bi0.len() <= usize::MAX,
                bo0.len() <= usize::MAX,
                h + self.num_scan_inputs + self.closure_inputs == bi0.len(),
                h <= bo0.len(),
                all_refine(models(inputs@), ins0),
                all_refine(models(outputs@), outs0),
                all_refine(models(self.body_inputs@), bi0),
                all_refine(models(self.body_outputs@), bo0),
                scan_blank(ins0, outs0, bi0, bo0) ==> scan_blank(models(inputs@), models(outputs@), models(self.body_inputs@),
                    models(self.body_outputs@)),
                forall|j: int| 0 <= j < h ==> #[trigger] models(inputs@)[j] == ins0[j],
                forall|j: int| 0 <= j < h ==> #[trigger] models(outputs@)[j] == outs0[j],
                forall|j: int| 0 <= j < h ==> #[trigger] models(self.body_inputs@)[j] == bi0[j],
                forall|j: int| 0 <= j < h ==> #[trigger] models(self.body_outputs@)[j] == bo0[j],
                base == h + self.num_scan_inputs,
                models(outputs@) == outs0,
                models(self.body_outputs@) == bo0,
                forall|j: int| 0 <= j < base ==> #[trigger] models(inputs@)[j] == ins0[j],
                forall|j: int| 0 <= j < base ==> #[trigger] models(self.body_inputs@)[j] == bi0[j],
                forall|j: int| base <= j < base + i ==> #[trigger] models(inputs@)[j] == models(self.body_inputs@)[j],
            decreases self.closure_inputs - i,
        {
            let id = base + i;
            proof {
                if scan_blank(ins0, outs0, bi0, bo0) {
                    let (x, y) = (models(inputs@)[id as int], models(self.body_inputs@)[id as int]);
                    assert(blank(x) && blank(y));
                    lemma_blank_shapes(x.shape, y.shape);
                }
            }
            let f = unify(&inputs[id], &self.body_inputs[id])?;
            proof {
                crate::fact::lemma_unify_laws(inputs@[id as int]@, self.body_inputs@[id as int]@);
                let ins = models(inputs@);
                let bi = models(self.body_inputs@);
                lemma_update_keeps(ins, ins0, id as int, f@);
                lemma_update_keeps(bi, bi0, id as int, f@);
            }
            let g = f.clone();
            let ghost before_i = inputs@;
            let ghost before_b = self.body_inputs@;
            inputs.set(id, f);
            self.body_inputs.set(id, g);
            proof {
                assert(models(inputs@) =~= models(before_i).update(id as int, g@));
                assert(models(self.body_inputs@) =~= models(before_b).update(id as int, g@));
            }
            i += 1;
        }
        Ok(())
    }

    /// Gives each scanned output the element type of its body output, and
    /// the body output's shape with the iteration count inserted at the
    /// scan axis.
    #[verifier::loop_isolation(false)]
    fn unify_scanned_outputs(&mut self, inputs: &mut Vec<TensorFact>, outputs: &mut Vec<TensorFact>, h: usize, iters: Option<TDim>) -> (r: Result<(), Attribute>)
        requires
            old(inputs)@.len() == old(self).body_inputs@.len(),
            old(outputs)@.len() == old(self).body_outputs@.len(),
            h + old(self).num_scan_inputs + old(self).closure_inputs == old(self).body_inputs@.len(),
            h <= old(self).body_outputs@.len(),
        ensures
            final(inputs)@.len() == old(inputs)@.len(),
            final(outputs)@.len() == old(outputs)@.len(),
            final(self).body_inputs@.len() == old(self).body_inputs@.len(),
            final(self).body_outputs@.len() == old(self).body_outputs@.len(),
            final(self).num_scan_inputs == old(self).num_scan_inputs,
            final(self).closure_inputs == old(self).closure_inputs,
            final(self).body == old(self).body,
            final(self).scan_input_axes == old(self).scan_input_axes,
            final(self).scan_output_axes == old(self).scan_output_axes,
            r is Ok ==> all_refine(models(final(inputs)@), models(old(inputs)@)),
            r is Ok ==> all_refine(models(final(outputs)@), models(old(outputs)@)),
            r is Ok ==> all_refine(models(final(self).body_inputs@), models(old(self).body_inputs@)),
            r is Ok ==> all_refine(models(final(self).body_outputs@), models(old(self).body_outputs@)),
            scan_blank(models(old(inputs)@), models(old(outputs)@), models(old(self).body_inputs@), models(old(self).body_outputs@))
                ==> r is Ok && scan_blank(models(final(inputs)@), models(final(outputs)@), models(final(self).body_inputs@),
                models(final(self).body_outputs@)),
            r is Ok ==> models(final(inputs)@) == models(old(inputs)@),
            r is Ok ==> models(final(self).body_inputs@) == models(old(self).body_inputs@),
            r is Ok ==> forall|j: int| 0 <= j < h ==> #[trigger] models(final(outputs)@)[j] == models(old(outputs)@)[j],
            r is Ok ==> forall|j: int| 0 <= j < h ==> #[trigger] models(final(self).body_outputs@)[j] == models(old(self).body_outputs@)[j],
            r is Ok ==> forall|j: int| h <= j < old(outputs)@.len() ==> (#[trigger] models(final(outputs)@)[j]).datum_type == models(final(self).body_outputs@)[j].datum_type,
            r is Ok ==> forall|j: int| h <= j < old(outputs)@.len() ==> #[trigger] output_shaped(models(final(outputs)@),
                models(final(self).body_outputs@), old(self).scan_output_axes@, h as int, iters, j),
    {
        let ghost ins0 = models(inputs@);
        let ghost outs0 = models(outputs@);
        let ghost bi0 = models(self.body_inputs@);
        let ghost bo0 = models(self.body_outputs@);
        // reading the lengths tells the verifier that they fit in a usize
        let _ = self.body_inputs.len();
        let _ = self.body_outputs.len();
        proof {
            lemma_all_refine_self(ins0);
            lemma_all_refine_self(outs0);
            lemma_all_refine_self(bi0);
            lemma_all_refine_self(bo0);
        }
        let num_scan_outputs = self.body_outputs.len() - h;
        let mut i: usize = 0;
        while i < num_scan_outputs
            invariant
                0 <= i <= num_scan_outputs,
                inputs@.len() == ins0.len(),
                outputs@.len() == outs0.len(),
                self.body_inputs@.len() == bi0.len(),
                self.body_outputs@.len() == bo0.len(),
                self.num_scan_inputs == old(self).num_scan_inputs,
                self.closure_inputs == old(self).closure_inputs,
                self.body == old(self).body,
                self.scan_input_axes == old(self).scan_input_axes,
                self.scan_output_axes == old(self).scan_output_axes,
                bi0.len() <= usize::MAX,
                bo0.len() <= usize::MAX,
                h + self.num_scan_inputs + self.closure_inputs == bi0.len(),
                h <= bo0.len(),
                all_refine(models(inputs@), ins0),
                all_refine(models(outputs@), outs0),
                all_refine(models(self.body_inputs@), bi0),
                all_refine(models(self.body_outputs@), bo0),
                scan_blank(ins0, outs0, bi0, bo0) ==> scan_blank(models(inputs@), models(outputs@), models(self.body_inputs@),
                    models(self.body_outputs@)),
                forall|j: int| 0 <= j < h ==> #[trigger] models(inputs@)[j] == ins0[j],
                forall|j: int| 0 <= j < h ==> #[trigger] models(outputs@)[j] == outs0[j],
                forall|j: int| 0 <= j < h ==> #[trigger] models(self.body_inputs@)[j] == bi0[j],
                forall|j: int| 0 <= j < h ==> #[trigger] models(self.body_outputs@)[j] == bo0[j],
                num_scan_outputs == bo0.len() - h,
                models(inputs@) == ins0,
                models(self.body_inputs@) == bi0,
                forall|j: int| h <= j < h + i ==> (#[trigger] models(outputs@)[j]).datum_type == models(self.body_outputs@)[j].datum_type,
                forall|j: int| h <= j < h + i ==> #[trigger] output_shaped(models(outputs@), models(self.body_outputs@),
                    self.scan_output_axes@, h as int, iters, j),
                forall|j: int| 0 <= j < bo0.len() ==> (#[trigger] models(self.body_outputs@)[j]).shape == bo0[j].shape,
            decreases num_scan_outputs - i,
        {
            let ghost (so, sbo) = (models(outputs@), models(self.body_outputs@));
            let idx = h + i;
            proof { if scan_blank(ins0, outs0, bi0, bo0) { assert(blank(models(outputs@)[idx as int]) && blank(models(self.body_outputs@)[idx as int])); } }
            let a = outputs[idx].datum_type;
            let b = self.body_outputs[idx].datum_type;
            let m = unify_datatype(&a, &b)?;
            proof {
                let e = ShapeModel { open: true, dims: Seq::empty() };
                lemma_part_refines(a, b, e, e, e);
                let outs = models(outputs@);
                let bo = models(self.body_outputs@);
                lemma_type_step(outs[idx as int], m);
                lemma_type_step(bo[idx as int], m);
                lemma_update_keeps(outs, outs0, idx as int, with_type(outs[idx as int], m));
                lemma_update_keeps(bo, bo0, idx as int, with_type(bo[idx as int], m));
            }
            put_type(outputs, idx, m);
            put_type(&mut self.body_outputs, idx, m);
            proof {
                if scan_blank(ins0, outs0, bi0, bo0) {
                    assert(m is Any);
                    assert(blank(models(self.body_outputs@)[idx as int]));
                    assert(!concrete_shape(self.body_outputs@[idx as int]@.shape));
                }
            }
            let axis = axis_at(&self.scan_output_axes, i);
            if let (Some(it), Some(target)) = (iters, match iters { Some(it) => insert_dim(&self.body_outputs[idx].shape, axis, it), None => None }) {
                {
                    let cur = outputs[idx].shape.clone();
                    let sh = unify_shape(&cur, &target)?;
                    proof {
                        lemma_part_refines(m, m, cur@, target@, target@);
                        let outs = models(outputs@);
                        assert(outs[idx as int].shape == cur@);
                        lemma_update_keeps(outs, outs0, idx as int, with_shape(outs[idx as int], sh@));
                    }
                    let ghost shv = sh@;
                    let ghost tv = target@;
                    put_shape(outputs, idx, sh);
                    proof {
                        assert(models(self.body_outputs@)[idx as int].shape == self.body_outputs@[idx as int]@.shape);
                        assert(models(outputs@)[idx as int].shape == shv);
                        assert(output_shaped(models(outputs@), models(self.body_outputs@), self.scan_output_axes@, h as int, iters, idx as int));
                    }
                }
            }
            proof {
                let o = models(outputs@);
                let b = models(self.body_outputs@);
                assert forall|j: int| h <= j < h + i + 1 implies #[trigger] output_shaped(o, b, self.scan_output_axes@, h as int, iters, j) by {
                    if j < idx {
                        assert(o[j] == so[j]);
                        assert(b[j] == sbo[j]);
                        assert(output_shaped(so, sbo, self.scan_output_axes@, h as int, iters, j));
                    } else {
                        if iters is Some && concrete_shape(b[j].shape) && (axis_of(self.scan_output_axes@, j - h) as int) <= b[j].shape.dims.len() {
                            assert(output_shaped(o, b, self.scan_output_axes@, h as int, iters, j));
                        }
                    }
                }
            }
            i += 1;
        }
        Ok(())
    }
    /// The inputs of the body at iteration `it` (see `body_step_inputs`).
    #[verifier::loop_isolation(false)]
    fn step_inputs_of(&self, inputs: &Vec<Tensor>, hidden: Vec<Tensor>, h: usize, it: usize) -> (r: Result<Vec<Tensor>, TractError>)
        requires
            h + self.num_scan_inputs + self.closure_inputs == inputs@.len(),
            hidden@.len() == h,
            forall|j: int| 0 <= j < inputs@.len() ==> (#[trigger] inputs@[j])@.wf(),
            forall|j: int| 0 <= j < h ==> (#[trigger] hidden@[j])@.wf(),
        ensures
            r matches Ok(v) ==> tensor_models(v@) == body_step_inputs(*self, tensor_models(inputs@), tensor_models(hidden@), it as int)
                && forall|j: int| 0 <= j < v@.len() ==> (#[trigger] v@[j])@.wf(),
            r matches Err(e) ==> e is ShapeError || e is DtypeError || e is NumericError,
    {
        let ghost insm = tensor_models(inputs@);
        let ghost hm = tensor_models(hidden@);
        let total = inputs.len();
        let mut v: Vec<Tensor> = hidden;
        let mut k: usize = 0;
        while k < self.num_scan_inputs
            invariant
                0 <= k <= self.num_scan_inputs,
                forall|j: int| 0 <= j < v@.len() ==> (#[trigger] v@[j])@.wf(),
                v@.len() == h + k,
                forall|j: int| 0 <= j < h ==> (#[trigger] v@[j])@ == hm[j],
                forall|j: int| h <= j < h + k ==> (#[trigger] v@[j])@
                    == slice_value(insm[j], axis_of(self.scan_input_axes@, j - h), it as int),
            decreases self.num_scan_inputs - k,
        {
            let axis = axis_at(&self.scan_input_axes, k);
            let t = inputs[h + k].slice_axis(axis, it)?;
            proof { assert(insm[h + k] == inputs@[h + k]@); }
            v.push(t);
            k += 1;
        }
        let mut k: usize = 0;
        while k < self.closure_inputs
            invariant
                0 <= k <= self.closure_inputs,
                total == inputs@.len(),
                forall|j: int| 0 <= j < v@.len() ==> (#[trigger] v@[j])@.wf(),
                v@.len() == h + self.num_scan_inputs + k,
                forall|j: int| 0 <= j < h ==> (#[trigger] v@[j])@ == hm[j],
                forall|j: int| h <= j < h + self.num_scan_inputs ==> (#[trigger] v@[j])@
                    == slice_value(insm[j], axis_of(self.scan_input_axes@, j - h), it as int),
                forall|j: int| h + self.num_scan_inputs <= j < h + self.num_scan_inputs + k ==> (#[trigger] v@[j])@ == insm[j],
            decreases self.closure_inputs - k,
        {
            v.push(inputs[h + self.num_scan_inputs + k].clone());
            k += 1;
        }
        proof {
            let want = body_step_inputs(*self, insm, hm, it as int);
            assert forall|j: int| 0 <= j < v@.len() implies tensor_models(v@)[j] == want[j] by {
                if j < h {
                } else if j < h + self.num_scan_inputs {
                } else {
                }
            }
            assert(tensor_models(v@) =~= want);
        }
        Ok(v)
    }

    /// Stacks the scanned outputs of one iteration: each body output after
    /// the hidden ones goes to index `it` of its collector's scan axis.
    #[verifier::loop_isolation(false)]
    fn stack_outputs(&self, scanned: &mut Vec<Tensor>, outs: &Vec<Tensor>, h: usize, it: usize) -> (r: Result<(), TractError>)
        requires
            outs@.len() == h + old(scanned)@.len(),
            forall|j: int| 0 <= j < outs@.len() ==> (#[trigger] outs@[j])@.wf(),
            forall|j: int| 0 <= j < old(scanned)@.len() ==> (#[trigger] old(scanned)@[j])@.wf(),
        ensures
            r matches Err(e) ==> e is ShapeError || e is DtypeError || e is NumericError,
            final(scanned)@.len() == old(scanned)@.len(),
            forall|j: int| 0 <= j < final(scanned)@.len() ==> (#[trigger] final(scanned)@[j])@.wf(),
            r is Ok ==> forall|j: int| 0 <= j < old(scanned)@.len() ==> {
                let o = old(scanned)@[j]@;
                let axis = axis_of(self.scan_output_axes@, j) as int;
                &&& (#[trigger] final(scanned)@[j])@.shape == o.shape
                &&& final(scanned)@[j]@.datum_type == o.datum_type
                &&& final(scanned)@[j]@.data is Scalars
                &&& scalars_of(final(scanned)@[j]@) == placed(scalars_of(o), scalars_of(outs@[h + j]@),
                    inner_size(o.shape, axis), o.shape[axis] as int, it as int)
            },
    {
        let ghost orig = scanned@;
        let n = scanned.len();
        let m = outs.len();
        let mut k: usize = 0;
        while k < n
            invariant
                0 <= k <= n,
                m == outs@.len(),
                scanned@.len() == n,
                n == orig.len(),
                forall|j: int| 0 <= j < n ==> (#[trigger] scanned@[j])@.wf(),
                forall|j: int| k <= j < n ==> #[trigger] scanned@[j] == orig[j],
                forall|j: int| 0 <= j < k ==> {
                    let o = orig[j]@;
                    let axis = axis_of(self.scan_output_axes@, j) as int;
                    &&& (#[trigger] scanned@[j])@.shape == o.shape
                    &&& scanned@[j]@.datum_type == o.datum_type
                    &&& scanned@[j]@.data is Scalars
                    &&& scalars_of(scanned@[j]@) == placed(scalars_of(o), scalars_of(outs@[h + j]@),
                        inner_size(o.shape, axis), o.shape[axis] as int, it as int)
                },
            decreases n - k,
        {
            let axis = axis_at(&self.scan_output_axes, k);
            let ghost before = scanned@;
            let mut t = scanned.remove(k);
            assert(t == orig[k as int]);
            let res = t.assign_at(axis, it, &outs[h + k]);
            scanned.insert(k, t);
            proof {
                assert forall|j: int| 0 <= j < n && j != k implies #[trigger] scanned@[j] == before[j] by {}
            }
            res?;
            k += 1;
        }
        Ok(())
    }

    /// The tensor of zeros that collects a scanned output: the type and
    /// shape of the body output, with `iters` at the scan axis.
    fn alloc_output(fact: &TensorFact, axis: usize, iters: usize) -> (r: Result<Tensor, TractError>)
        ensures
            r matches Ok(t) ==> t@.wf() && axis < t@.shape.len() && t@.shape[axis as int] == iters
                && t@.data == DataModel::Scalars(Seq::new(shape_product(t@.shape) as nat, |i: int| 0i64))
                && fact@.datum_type == TypeFact::Only(t@.datum_type)
                && t@.shape == collector_shape(fact@.shape, axis as int, iters),
            r matches Err(e) ==> e is ShapeError || e is DtypeError || e is NumericError || e is UnderdeterminedFact,
    {
        let dt = match fact.datum_type {
            TypeFact::Only(dt) => dt,
            TypeFact::Any => return Err(TractError::UnderdeterminedFact { attribute: Attribute::DatumType }),
        };
        let dims = match concrete_dims(&fact.shape) {
            Some(d) => d,
            None => return Err(TractError::UnderdeterminedFact { attribute: Attribute::Dim }),
        };
        if axis >= dims.len() {
            return Err(TractError::ShapeError { expected: dims.len(), got: axis });
        }
        let mut shape: Vec<usize> = Vec::new();
        let mut k: usize = 0;
        while k < dims.len()
            invariant
                0 <= k <= dims@.len(),
                shape@.len() == k,
                axis < dims@.len(),
                k > axis ==> shape@[axis as int] == iters,
                dims@.len() == fact@.shape.dims.len(),
                forall|q: int| 0 <= q < dims@.len() ==> fact@.shape.dims[q] == DimFact::Only(#[trigger] dims@[q]),
                forall|q: int| 0 <= q < k ==> #[trigger] shape@[q] == collector_shape(fact@.shape, axis as int, iters)[q],
            decreases dims.len() - k,
        {
            if k == axis {
                shape.push(iters);
            } else {
                match dims[k].to_integer() {
                    Some(v) => {
                        if v < 0 || v as u64 > usize::MAX as u64 {
                            return Err(TractError::ShapeError { expected: 0, got: k });
                        }
                        shape.push(v as usize);
                    },
                    None => return Err(TractError::UnderdeterminedFact { attribute: Attribute::Dim }),
                }
            }
            k += 1;
        }
        let n = match crate::tensor::checked_shape_product(shape.as_slice()) {
            Some(n) => n,
            None => return Err(TractError::NumericError),
        };
        let mut zeros: Vec<i64> = Vec::new();
        let mut j: usize = 0;
        while j < n
            invariant
                0 <= j <= n,
                zeros@.len() == j,
                forall|q: int| 0 <= q < j ==> zeros@[q] == 0,
            decreases n - j,
        {
            zeros.push(0);
            j += 1;
        }
        assert(zeros@ =~= Seq::new(n as nat, |i: int| 0i64));
        assert(shape@ =~= collector_shape(fact@.shape, axis as int, iters));
        Tensor::from_scalars(dt, shape, zeros)
    }

    /// Runs the loop: the body runs once per index along the scan axis of the
    /// first scanned input, on the current hidden state, the slice of each
    /// scanned input at that index and the closure inputs; its first outputs
    /// become the next hidden state and the others are stacked along their
    /// scan axis. Returns the final hidden state, then the stacked outputs:
    /// on success the hidden state is that of `scan_state` after the
    /// iterations, and each stacked output holds, at each index of its scan
    /// axis, the matching body output of that iteration (`stacked`). The
    /// facts of the body's scanned outputs must give their type and shape.
    #[verifier::loop_isolation(false)]
    #[verifier::rlimit(100)]
    #[verifier::spinoff_prover]
    pub fn eval(&self, inputs: Vec<Tensor>) -> (r: Result<Vec<Tensor>, TractError>)
        requires
            self.body@.wf(),
            self.body@.outputs.len() == self.body_outputs@.len(),
            forall|m: int| 0 <= m < self.body@.nodes.len()
                ==> (#[trigger] self.body@.nodes[m].op matches OpModel::Const(c) ==> c.wf()),
            forall|k: int| 0 <= k < inputs@.len() ==> (#[trigger] inputs@[k])@.wf(),
        ensures
            r matches Ok(outs) ==> outs@.len() == self.body_outputs@.len()
                && forall|k: int| 0 <= k < outs@.len() ==> (#[trigger] outs@[k])@.wf(),
            r matches Err(e) ==> !eval_fits(*self, inputs@.len() as int)
                || e is ShapeError || e is DtypeError || e is NumericError || e is UnderdeterminedFact
                || (e is InvalidGraph && !crate::analyser::schedulable(self.body@))
                || scan_state(*self, tensor_models(inputs@),
                    inputs@[hidden_count(*self, inputs@.len() as int)]@.shape[axis_of(self.scan_input_axes@, 0) as int] as nat) is None,
            r matches Ok(outs) ==> {
                let h = hidden_count(*self, inputs@.len() as int);
                let iters = inputs@[h]@.shape[axis_of(self.scan_input_axes@, 0) as int];
                &&& scan_state(*self, tensor_models(inputs@), iters as nat) is Some
                &&& tensor_models(outs@).subrange(0, h) == scan_state(*self, tensor_models(inputs@), iters as nat)->Some_0.0
                &&& forall|j: int| 0 <= j < outs@.len() - h ==> {
                    let o = (#[trigger] outs@[h + j])@;
                    let axis = axis_of(self.scan_output_axes@, j) as int;
                    &&& o.shape[axis] == iters
                    &&& o.shape == collector_shape(self.body_outputs@[h + j]@.shape, axis, iters)
                    &&& self.body_outputs@[h + j]@.datum_type == TypeFact::Only(o.datum_type)
                    &&& scalars_of(o) == stacked(Seq::new(scalars_of(o).len(), |i: int| 0i64),
                        scan_state(*self, tensor_models(inputs@), iters as nat)->Some_0.1, j,
                        inner_size(o.shape, axis), iters as int, iters as nat)
                }
            },
    {
        let ghost insm = tensor_models(inputs@);
        let n_in = inputs.len();
        if self.num_scan_inputs == 0 || self.num_scan_inputs > n_in || self.closure_inputs > n_in - self.num_scan_inputs
            || n_in - self.num_scan_inputs - self.closure_inputs > self.body_outputs.len() {
            return Err(TractError::ArityError { expected: self.body_inputs.len(), got: n_in });
        }
        let h = n_in - self.num_scan_inputs - self.closure_inputs;
        let nso = self.body_outputs.len() - h;
        let axis0 = axis_at(&self.scan_input_axes, 0);
        if axis0 >= inputs[h].shape.len() {
            return Err(TractError::ShapeError { expected: inputs[h].shape.len(), got: axis0 });
        }
        let iters = inputs[h].shape[axis0];
        let mut scanned: Vec<Tensor> = Vec::new();
        let mut k: usize = 0;
        while k < nso
            invariant
                0 <= k <= nso,
                h + nso == self.body_outputs@.len(),
                scanned@.len() == k,
                forall|j: int| 0 <= j < k ==> (#[trigger] scanned@[j])@.wf(),
                forall|j: int| 0 <= j < k ==> axis_of(self.scan_output_axes@, j) < (#[trigger] scanned@[j])@.shape.len()
                    && scanned@[j]@.shape[axis_of(self.scan_output_axes@, j) as int] == iters
                    && scanned@[j]@.data == DataModel::Scalars(Seq::new(shape_product(scanned@[j]@.shape) as nat, |i: int| 0i64))
                    && scanned@[j]@.shape == collector_shape(self.body_outputs@[h + j]@.shape, axis_of(self.scan_output_axes@, j) as int, iters)
                    && self.body_outputs@[h + j]@.datum_type == TypeFact::Only(scanned@[j]@.datum_type),
            decreases nso - k,
        {
            let axis = axis_at(&self.scan_output_axes, k);
            scanned.push(Self::alloc_output(&self.body_outputs[h + k], axis, iters)?);
            k += 1;
        }
        let ghost init = tensor_models(scanned@);
        let plan = SimplePlan::new(Model::new(self.body.clone()))?;
        let mut state = SimpleState::new(plan);
        let mut hidden: Vec<Tensor> = Vec::new();
        let mut k: usize = 0;
        while k < h
            invariant
                0 <= k <= h,
                h <= inputs@.len(),
                hidden@.len() == k,
                forall|j: int| 0 <= j < k ==> (#[trigger] hidden@[j])@.wf(),
                forall|j: int| 0 <= j < k ==> (#[trigger] hidden@[j])@ == insm[j],
            decreases h - k,
        {
            hidden.push(inputs[k].clone());
            k += 1;
        }
        assert(tensor_models(hidden@) =~= insm.subrange(0, h as int));
        let ghost mut steps: Seq<Seq<TensorModel>> = Seq::empty();
        let mut it: usize = 0;
        while it < iters
            invariant
                0 <= it <= iters,
                state.plan.wf(),
                state.plan.graph() == self.body@,
                hidden@.len() == h,
                forall|j: int| 0 <= j < h ==> (#[trigger] hidden@[j])@.wf(),
                scanned@.len() == nso,
                forall|j: int| 0 <= j < nso ==> (#[trigger] scanned@[j])@.wf(),
                h + nso == self.body_outputs@.len(),
                h + self.num_scan_inputs + self.closure_inputs == inputs@.len(),
                insm == tensor_models(inputs@),
                h == hidden_count(*self, insm.len() as int),
                steps.len() == it,
                scan_state(*self, insm, it as nat) == Some((tensor_models(hidden@), steps)),
                init.len() == nso,
                forall|j: int| 0 <= j < nso ==> {
                    &&& (#[trigger] scanned@[j])@.shape == init[j].shape
                    &&& scanned@[j]@.datum_type == init[j].datum_type
                    &&& axis_of(self.scan_output_axes@, j) < init[j].shape.len()
                    &&& init[j].shape[axis_of(self.scan_output_axes@, j) as int] == iters
                    &&& scanned@[j]@.data is Scalars
                    &&& scalars_of(scanned@[j]@) == stacked(scalars_of(init[j]), steps, j,
                        inner_size(init[j].shape, axis_of(self.scan_output_axes@, j) as int), iters as int, it as nat)
                },
            decreases iters - it,
        {
            let ghost hm = tensor_models(hidden@);
            let step_inputs = self.step_inputs_of(&inputs, hidden, h, it)?;
            let outs = match state.run(step_inputs) {
                Ok(o) => o,
                Err(e) => {
                    proof {
                        assert(scan_state(*self, insm, (it + 1) as nat) is None);
                        lemma_scan_state_none(*self, insm, (it + 1) as nat, iters as nat);
                    }
                    return Err(e);
                },
            };
            let ghost om = tensor_models(outs@);
            let mut next: Vec<Tensor> = Vec::new();
            let mut k: usize = 0;
            while k < h
                invariant
                    0 <= k <= h,
                    outs@.len() == h + nso,
                    next@.len() == k,
                    forall|j: int| 0 <= j < k ==> (#[trigger] next@[j])@.wf(),
                    forall|j: int| 0 <= j < k ==> (#[trigger] next@[j])@ == om[j],
                decreases h - k,
            {
                next.push(outs[k].clone());
                k += 1;
            }
            assert(tensor_models(next@) =~= om.subrange(0, h as int));
            hidden = next;
            let ghost old_steps = steps;
            proof {
                steps = steps.push(om.subrange(h as int, om.len() as int));
                assert forall|j: int| 0 <= j < nso implies stacked(scalars_of(init[j]), steps, j,
                    inner_size(init[j].shape, axis_of(self.scan_output_axes@, j) as int), iters as int, it as nat)
                    == stacked(scalars_of(init[j]), old_steps, j,
                    inner_size(init[j].shape, axis_of(self.scan_output_axes@, j) as int), iters as int, it as nat) by {
                    lemma_stacked_prefix(scalars_of(init[j]), steps, old_steps, j,
                        inner_size(init[j].shape, axis_of(self.scan_output_axes@, j) as int), iters as int, it as nat);
                }
            }
            let ghost before = scanned@;
            self.stack_outputs(&mut scanned, &outs, h, it)?;
            proof {
                assert forall|j: int| 0 <= j < nso implies scalars_of((#[trigger] scanned@[j])@) == stacked(scalars_of(init[j]), steps, j,
                    inner_size(init[j].shape, axis_of(self.scan_output_axes@, j) as int), iters as int, (it + 1) as nat) by {
                    assert(om[h + j] == outs@[h + j]@);
                    assert(steps[it as int][j] == om[h + j]);
                }
            }
            it += 1;
        }
        let ghost hid_final = tensor_models(hidden@);
        let mut result = hidden;
        let mut k: usize = 0;
        while k < nso
            invariant
                0 <= k <= nso,
                result@.len() == h + k,
                scanned@.len() == nso,
                forall|j: int| 0 <= j < result@.len() ==> (#[trigger] result@[j])@.wf(),
                forall|j: int| 0 <= j < nso ==> (#[trigger] scanned@[j])@.wf(),
                forall|j: int| 0 <= j < h ==> (#[trigger] result@[j])@ == hid_final[j],
                forall|j: int| 0 <= j < k ==> (#[trigger] result@[h + j])@ == scanned@[j]@,
            decreases nso - k,
        {
            result.push(scanned[k].clone());
            k += 1;
        }
        proof {
            assert(tensor_models(result@).subrange(0, h as int) =~= hid_final);
            assert forall|j: int| 0 <= j < result@.len() - h implies {
                let o = (#[trigger] result@[h + j])@;
                let axis = axis_of(self.scan_output_axes@, j) as int;
                &&& o.shape[axis] == iters
                &&& scalars_of(o) == stacked(Seq::new(scalars_of(o).len(), |i: int| 0i64), steps, j,
                    inner_size(o.shape, axis), iters as int, iters as nat)
            } by {
                let o = result@[h + j]@;
                assert(o == scanned@[j]@);
                assert(scalars_of(init[j]) =~= Seq::new(scalars_of(o).len(), |i: int| 0i64));
            }
        }
        Ok(result)
    }

    /// Infers the facts of the node `node` running this scan: unifies the
    /// outer facts with the body's (see `unify_facts`), runs the solver on
    /// the body, reads the body's input and output facts back, and unifies
    /// again. Fails with `ArityError` when the numbers of inputs or outputs
    /// do not fit the body, with the contradiction it meets, or with the
    /// body solver's error.
    pub fn infer_facts(&mut self, node: usize, inputs: Vec<TensorFact>, outputs: Vec<TensorFact>)
        -> (r: Result<(Vec<TensorFact>, Vec<TensorFact>), TractError>)
        requires
            old(self).body@.wf(),
            old(self).body@.inputs.len() == old(self).body_inputs@.len(),
            old(self).body@.outputs.len() == old(self).body_outputs@.len(),
        ensures
            r matches Ok((i, o)) ==> all_refine(models(i@), models(inputs@)) && all_refine(models(o@), models(outputs@)),
            r matches Ok((i, o)) ==> forall|k: int| 0 <= k < hidden_len(*final(self)) ==> #[trigger] hidden_agrees(models(i@),
                models(o@), models(final(self).body_inputs@), models(final(self).body_outputs@), k),
            inputs@.len() != old(self).body_inputs@.len() ==> r == Err::<(Vec<TensorFact>, Vec<TensorFact>), TractError>(
                TractError::ArityError { expected: old(self).body_inputs@.len() as usize, got: inputs@.len() as usize }),
            r matches Err(TractError::ArityError { .. }) <==> !counts_fit(*old(self), inputs@.len() as int, outputs@.len() as int),
            r matches Err(e) ==> e is ArityError || e is InferenceContradiction || e is InvalidGraph || e is NotConverged,
            r matches Err(TractError::InvalidGraph) ==> !crate::analyser::schedulable(old(self).body@),
    {
        let body_inputs = self.body_inputs.len();
        let body_outputs = self.body_outputs.len();
        if inputs.len() != body_inputs {
            return Err(TractError::ArityError { expected: body_inputs, got: inputs.len() });
        }
        if outputs.len() != body_outputs {
            return Err(TractError::ArityError { expected: body_outputs, got: outputs.len() });
        }
        if self.num_scan_inputs > body_inputs || self.closure_inputs > body_inputs - self.num_scan_inputs
            || body_inputs - self.num_scan_inputs - self.closure_inputs > body_outputs {
            return Err(TractError::ArityError { expected: body_inputs, got: self.num_scan_inputs });
        }
        let mut inputs = inputs;
        let mut outputs = outputs;
        let ghost (i0, o0) = (models(inputs@), models(outputs@));
        match self.unify_facts(&mut inputs, &mut outputs) {
            Ok(()) => {},
            Err(a) => return Err(TractError::InferenceContradiction { node, attribute: a }),
        }
        let ghost (i1, o1) = (models(inputs@), models(outputs@));
        self.analyse_body()?;
        match self.unify_facts(&mut inputs, &mut outputs) {
            Ok(()) => {},
            Err(a) => return Err(TractError::InferenceContradiction { node, attribute: a }),
        }
        proof {
            lemma_all_refine_trans(models(inputs@), i1, i0);
            lemma_all_refine_trans(models(outputs@), o1, o0);
        }
        Ok((inputs, outputs))
    }

    /// Runs the solver on the body, starting from the facts known at its
    /// input and output outlets, and stores the facts it reaches there.
    #[verifier::loop_isolation(false)]
    fn analyse_body(&mut self) -> (r: Result<(), TractError>)
        requires
            old(self).body@.wf(),
            old(self).body@.inputs.len() == old(self).body_inputs@.len(),
            old(self).body@.outputs.len() == old(self).body_outputs@.len(),
        ensures
            r matches Err(e) ==> e is InvalidGraph || e is InferenceContradiction || e is NotConverged,
            r matches Err(TractError::InvalidGraph) ==> !crate::analyser::schedulable(old(self).body@),
            final(self).body_inputs@.len() == old(self).body_inputs@.len(),
            final(self).body_outputs@.len() == old(self).body_outputs@.len(),
            final(self).num_scan_inputs == old(self).num_scan_inputs,
            final(self).closure_inputs == old(self).closure_inputs,
            final(self).body == old(self).body,
            final(self).scan_input_axes == old(self).scan_input_axes,
            final(self).scan_output_axes == old(self).scan_output_axes,
            final(self).body == old(self).body,
    {
        let n = self.body.nodes.len();
        let mut facts: Vec<TensorFact> = Vec::new();
        let mut i: usize = 0;
        while i < n
            invariant
                0 <= i <= n,
                facts@.len() == i,
            decreases n - i,
        {
            facts.push(TensorFact::new());
            i += 1;
        }
        let mut k: usize = 0;
        while k < self.body.inputs.len()
            invariant
                0 <= k <= self.body@.inputs.len(),
                facts@.len() == n,
                n == self.body@.nodes.len(),
            decreases self.body.inputs.len() - k,
        {
            assert(valid_outlet(self.body@, self.body@.inputs[k as int]));
            let o = self.body.inputs[k].node;
            match unify(&facts[o], &self.body_inputs[k]) {
                Ok(f) => facts.set(o, f),
                Err(a) => return Err(TractError::InferenceContradiction { node: o, attribute: a }),
            }
            k += 1;
        }
        let mut k: usize = 0;
        while k < self.body.outputs.len()
            invariant
                0 <= k <= self.body@.outputs.len(),
                facts@.len() == n,
                n == self.body@.nodes.len(),
            decreases self.body.outputs.len() - k,
        {
            assert(valid_outlet(self.body@, self.body@.outputs[k as int]));
            let o = self.body.outputs[k].node;
            match unify(&facts[o], &self.body_outputs[k]) {
                Ok(f) => facts.set(o, f),
                Err(a) => return Err(TractError::InferenceContradiction { node: o, attribute: a }),
            }
            k += 1;
        }
        let facts = analyse(&self.body, facts)?;
        let mut k: usize = 0;
        while k < self.body.inputs.len()
            invariant
                0 <= k <= self.body@.inputs.len(),
                facts@.len() == n,
                n == self.body@.nodes.len(),
                self.body_inputs@.len() == self.body@.inputs.len(),
                self.body == old(self).body,
                self.body_outputs@.len() == old(self).body_outputs@.len(),
                self.num_scan_inputs == old(self).num_scan_inputs,
                self.closure_inputs == old(self).closure_inputs,
                self.scan_input_axes == old(self).scan_input_axes,
                self.scan_output_axes == old(self).scan_output_axes,
            decreases self.body.inputs.len() - k,
        {
            assert(valid_outlet(self.body@, self.body@.inputs[k as int]));
            let o = self.body.inputs[k].node;
            self.body_inputs.set(k, facts[o].clone());
            k += 1;
        }
        let mut k: usize = 0;
        while k < self.body.outputs.len()
            invariant
                0 <= k <= self.body@.outputs.len(),
                facts@.len() == n,
                n == self.body@.nodes.len(),
                self.body_outputs@.len() == self.body@.outputs.len(),
                self.body == old(self).body,
                self.body_inputs@.len() == old(self).body_inputs@.len(),
                self.num_scan_inputs == old(self).num_scan_inputs,
                self.closure_inputs == old(self).closure_inputs,
                self.scan_input_axes == old(self).scan_input_axes,
                self.scan_output_axes == old(self).scan_output_axes,
            decreases self.body.outputs.len() - k,
        {
            assert(valid_outlet(self.body@, self.body@.outputs[k as int]));
            let o = self.body.outputs[k].node;
            self.body_outputs.set(k, facts[o].clone());
            k += 1;
        }
        Ok(())
    }

    /// Unifies the facts of the outer inputs and outputs with those of the
    /// body: each hidden state has one element type and one shape at its
    /// outer input, outer output, body input and body output; each scanned
    /// input or output has the element type of its body counterpart, the
    /// body input of a scanned input gets the outer shape without the scan
    /// axis, and a scanned output gets its body output's shape with the
    /// iteration count at the scan axis; each closure input has the fact of
    /// its body input. Facts only gain information. Fails with the attribute
    /// of the first contradiction.
    pub fn unify_facts(&mut self, inputs: &mut Vec<TensorFact>, outputs: &mut Vec<TensorFact>) -> (r: Result<(), Attribute>)
        requires
            old(inputs)@.len() == old(self).body_inputs@.len(),
            old(outputs)@.len() == old(self).body_outputs@.len(),
            old(self).num_scan_inputs + old(self).closure_inputs <= old(self).body_inputs@.len(),
            old(self).body_inputs@.len() - old(self).num_scan_inputs - old(self).closure_inputs
                <= old(self).body_outputs@.len(),
        ensures
            final(inputs)@.len() == old(inputs)@.len(),
            final(outputs)@.len() == old(outputs)@.len(),
            final(self).body_inputs@.len() == old(self).body_inputs@.len(),
            final(self).body_outputs@.len() == old(self).body_outputs@.len(),
            final(self).num_scan_inputs == old(self).num_scan_inputs,
            final(self).closure_inputs == old(self).closure_inputs,
            final(self).body == old(self).body,
            r is Ok ==> all_refine(models(final(inputs)@), models(old(inputs)@)),
            r is Ok ==> all_refine(models(final(outputs)@), models(old(outputs)@)),
            r is Ok ==> all_refine(models(final(self).body_inputs@), models(old(self).body_inputs@)),
            r is Ok ==> all_refine(models(final(self).body_outputs@), models(old(self).body_outputs@)),
            scan_blank(models(old(inputs)@), models(old(outputs)@), models(old(self).body_inputs@), models(old(self).body_outputs@))
                ==> r is Ok && scan_blank(models(final(inputs)@), models(final(outputs)@), models(final(self).body_inputs@),
                models(final(self).body_outputs@)),
            r is Ok ==> forall|i: int| 0 <= i < hidden_len(*old(self)) ==> #[trigger] hidden_agrees(models(final(inputs)@),
                models(final(outputs)@), models(final(self).body_inputs@), models(final(self).body_outputs@), i),
            r is Ok ==> forall|i: int| hidden_len(*old(self)) <= i < hidden_len(*old(self)) + old(self).num_scan_inputs
                ==> (#[trigger] models(final(inputs)@)[i]).datum_type == models(final(self).body_inputs@)[i].datum_type,
            r is Ok ==> forall|i: int| hidden_len(*old(self)) + old(self).num_scan_inputs <= i < old(inputs)@.len()
                ==> #[trigger] models(final(inputs)@)[i] == models(final(self).body_inputs@)[i],
            r is Ok ==> forall|i: int| hidden_len(*old(self)) <= i < old(outputs)@.len()
                ==> (#[trigger] models(final(outputs)@)[i]).datum_type == models(final(self).body_outputs@)[i].datum_type,
            r is Ok ==> forall|i: int| hidden_len(*old(self)) <= i < old(outputs)@.len() ==> #[trigger] output_shaped(
                models(final(outputs)@), models(final(self).body_outputs@), old(self).scan_output_axes@, hidden_len(*old(self)),
                shown_iterations(*old(self), models(final(inputs)@), hidden_len(*old(self))), i),
    {
        let ghost (i0, o0, b0, c0) = (models(inputs@), models(outputs@), models(self.body_inputs@), models(self.body_outputs@));
        let h = self.body_inputs.len() - self.num_scan_inputs - self.closure_inputs;
        self.unify_hidden(inputs, outputs, h)?;
        let ghost (i1, o1, b1, c1) = (models(inputs@), models(outputs@), models(self.body_inputs@), models(self.body_outputs@));
        let iters = self.iterations(inputs, outputs, h)?;
        let ghost (i2, o2, b2, c2) = (models(inputs@), models(outputs@), models(self.body_inputs@), models(self.body_outputs@));
        self.unify_scanned_inputs(inputs, outputs, h)?;
        let ghost (i3, o3, b3, c3) = (models(inputs@), models(outputs@), models(self.body_inputs@), models(self.body_outputs@));
        self.unify_closures(inputs, outputs, h)?;
        let ghost (i4, o4, b4, c4) = (models(inputs@), models(outputs@), models(self.body_inputs@), models(self.body_outputs@));
        self.unify_scanned_outputs(inputs, outputs, h, iters)?;
        proof {
            lemma_all_refine_trans(i2, i1, i0);
            lemma_all_refine_trans(i3, i2, i0);
            lemma_all_refine_trans(i4, i3, i0);
            lemma_all_refine_trans(models(inputs@), i4, i0);
            lemma_all_refine_trans(o2, o1, o0);
            lemma_all_refine_trans(o3, o2, o0);
            lemma_all_refine_trans(o4, o3, o0);
            lemma_all_refine_trans(models(outputs@), o4, o0);
            lemma_all_refine_trans(b2, b1, b0);
            lemma_all_refine_trans(b3, b2, b0);
            lemma_all_refine_trans(b4, b3, b0);
            lemma_all_refine_trans(models(self.body_inputs@), b4, b0);
            lemma_all_refine_trans(c2, c1, c0);
            lemma_all_refine_trans(c3, c2, c0);
            lemma_all_refine_trans(c4, c3, c0);
            lemma_all_refine_trans(models(self.body_outputs@), c4, c0);
            if self.num_scan_inputs > 0 {
                assert(i3[h as int].shape == i2[h as int].shape);
                assert(i4[h as int] == i3[h as int]);
                assert(models(inputs@)[h as int] == i4[h as int]);
            }
            assert(shown_iterations(*old(self), models(inputs@), h as int) == shown_iterations(*old(self), i2, h as int));
            assert forall|i: int| 0 <= i < h implies #[trigger] hidden_agrees(models(inputs@),
                models(outputs@), models(self.body_inputs@), models(self.body_outputs@), i) by {
                assert(hidden_agrees(i1, o1, b1, c1, i));
                assert(i2[i] == i1[i] && o2[i] == o1[i]);
                assert(i3[i] == i2[i] && b3[i] == b2[i]);
                assert(i4[i] == i3[i] && b4[i] == b3[i]);
                assert(models(outputs@)[i] == o4[i] && models(self.body_outputs@)[i] == c4[i]);
            }
        }
        Ok(())
    }
}

/// Stacking looks only at the iterations it has stacked.
proof fn lemma_stacked_prefix(base: Seq<i64>, a: Seq<Seq<TensorModel>>, b: Seq<Seq<TensorModel>>, j: int, inner: int, d: int, it: nat)
    requires
        it <= a.len(),
        it <= b.len(),
        forall|i: int| 0 <= i < it ==> a[i] == b[i],
    ensures
        stacked(base, a, j, inner, d, it) == stacked(base, b, j, inner, d, it),
    decreases it,
{
    if it > 0 {
        lemma_stacked_prefix(base, a, b, j, inner, d, (it - 1) as nat);
    }
}

/// Hidden states keep agreeing while only later positions change.
proof fn lemma_hidden_kept(
    a: Seq<FactModel>, b: Seq<FactModel>, c: Seq<FactModel>, d: Seq<FactModel>,
    a2: Seq<FactModel>, b2: Seq<FactModel>, c2: Seq<FactModel>, d2: Seq<FactModel>,
    h: int,
)
    requires
        forall|j: int| 0 <= j < h ==> #[trigger] hidden_agrees(a, b, c, d, j),
        forall|j: int| 0 <= j < h ==> a2[j] == a[j] && b2[j] == b[j] && c2[j] == c[j] && d2[j] == d[j],
    ensures
        forall|j: int| 0 <= j < h ==> #[trigger] hidden_agrees(a2, b2, c2, d2, j),
{
    assert forall|j: int| 0 <= j < h implies #[trigger] hidden_agrees(a2, b2, c2, d2, j) by {
        assert(hidden_agrees(a, b, c, d, j));
    }
}

proof fn lemma_all_refine_self(a: Seq<FactModel>)
    ensures
        all_refine(a, a),
{
    assert forall|i: int| 0 <= i < a.len() implies refines(#[trigger] a[i], a[i]) by {
        lemma_refines_order(a[i], a[i], a[i]);
    }
}

} // verus!
