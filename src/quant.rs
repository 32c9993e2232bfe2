//! Quantization parameters, zero-point cleanup, and the fusion of a
//! quantization followed by the matching dequantization.
use vstd::prelude::*;
use crate::datum::DatumType;
use crate::errors::TractError;
use crate::analyser::round_cap;
use crate::model::{valid_outlet, GraphModel, NodeModel, OutletId, RawModel};
use crate::ops::{Op, OpModel};
use crate::tensor::{DataModel, Tensor, TensorData, TensorModel};

verus! {

/// Whether all elements of `v` equal its first one.
pub open spec fn all_equal(v: Seq<i64>) -> bool {
    forall|i: int| 0 <= i < v.len() ==> #[trigger] v[i] == v[0]
}

/// The zero point once simplified: for `U8` and `I8`, a rank-1 zero point
/// whose elements are all equal becomes the scalar of that value, and a
/// scalar zero becomes no zero point at all. An empty rank-1 zero point is
/// an error. Zero points of other types are kept as they are.
pub open spec fn cleaned_zero_point(zp: TensorModel) -> Result<Option<TensorModel>, TractError> {
    if (zp.datum_type == DatumType::U8 || zp.datum_type == DatumType::I8) && zp.data is Scalars {
        let v = zp.data->Scalars_0;
        if zp.shape.len() == 1 && v.len() == 0 {
            Err(TractError::ShapeError { expected: 1, got: 0 })
        } else {
            let z = if zp.shape.len() == 1 && all_equal(v) {
                TensorModel { datum_type: zp.datum_type, shape: Seq::empty(), data: DataModel::Scalars(seq![v[0]]) }
            } else {
                zp
            };
            if z.shape.len() == 0 && z.data->Scalars_0[0] == 0 {
                Ok(None)
            } else {
                Ok(Some(z))
            }
        }
    } else {
        Ok(Some(zp))
    }
}

/// Simplifies a zero point (see `cleaned_zero_point`).
pub fn cleanup_zeropoint(zp: &Tensor) -> (r: Result<Option<Tensor>, TractError>)
    requires
        zp@.wf(),
    ensures
        r matches Ok(Some(t)) ==> cleaned_zero_point(zp@) == Ok::<Option<TensorModel>, TractError>(Some(t@)) && t@.wf(),
        r matches Ok(None) ==> cleaned_zero_point(zp@) == Ok::<Option<TensorModel>, TractError>(None),
        r matches Err(e) ==> cleaned_zero_point(zp@) == Err::<Option<TensorModel>, TractError>(e),
{
    if zp.datum_type != DatumType::U8 && zp.datum_type != DatumType::I8 {
        return Ok(Some(zp.clone()));
    }
    let v = match &zp.data {
        TensorData::Scalars(v) => v,
        TensorData::Dims(_) => return Ok(Some(zp.clone())),
    };
    assert(zp@.data == DataModel::Scalars(v@));
    if zp.shape.len() == 1 && v.len() == 0 {
        return Err(TractError::ShapeError { expected: 1, got: 0 });
    }
    proof {
        if zp.shape@.len() == 0 {
            assert(crate::tensor::shape_product(zp.shape@) == 1);
        }
        if zp.shape@.len() == 1 {
            assert(zp.shape@.drop_last() =~= Seq::<usize>::empty());
        }
    }
    let mut same = true;
    if zp.shape.len() == 1 {
        let mut i: usize = 0;
        while i < v.len()
            invariant
                0 <= i <= v@.len(),
                v@.len() > 0,
                same <==> forall|j: int| 0 <= j < i ==> #[trigger] v@[j] == v@[0],
            decreases v.len() - i,
        {
            if v[i] != v[0] {
                same = false;
            }
            i += 1;
        }
        if same {
            let s = Tensor { datum_type: zp.datum_type, shape: Vec::new(), data: TensorData::Scalars(vec![v[0]]) };
            proof {
                assert(s@.shape =~= Seq::<usize>::empty());
                assert(s@.data->Scalars_0 =~= seq![v@[0]]);
                assert(crate::tensor::in_range(zp@.datum_type, v@[0] as int));
            }
            if v[0] == 0 {
                return Ok(None);
            }
            return Ok(Some(s));
        }
        return Ok(Some(zp.clone()));
    }
    if zp.shape.len() == 0 && v[0] == 0 {
        return Ok(None);
    }
    Ok(Some(zp.clone()))
}

/// Quantization parameters of a quantized matrix product `c = a × b`: the
/// type of `c`, the zero points of the three operands, and a scale factor,
/// given as the bit pattern of its `f32` value.
#[derive(Debug)]
pub struct QParams {
    pub c_datum_type: DatumType,
    pub zero_point_a: Option<Tensor>,
    pub zero_point_b: Option<Tensor>,
    pub zero_point_c: Option<Tensor>,
    pub scale_factor: Option<u32>,
}

/// The view of an optional tensor.
pub open spec fn opt_model(t: Option<Tensor>) -> Option<TensorModel> {
    match t {
        Some(t) => Some(t@),
        None => None,
    }
}

/// The zero point a parameter set keeps for `zp`.
pub open spec fn kept_zero_point(zp: TensorModel) -> Option<TensorModel> {
    cleaned_zero_point(zp)->Ok_0
}

impl QParams {
    /// Parameters for a result of type `dt`, with no zero point and no scale.
    pub fn new(dt: DatumType) -> (r: QParams)
        ensures
            r.c_datum_type == dt,
            r.zero_point_a is None,
            r.zero_point_b is None,
            r.zero_point_c is None,
            r.scale_factor is None,
    {
        QParams { c_datum_type: dt, zero_point_a: None, zero_point_b: None, zero_point_c: None, scale_factor: None }
    }

    /// The parameters with the zero point of `a` set to the simplified `zp`.
    pub fn with_zero_point_a(self, zp: &Tensor) -> (r: Result<QParams, TractError>)
        requires
            zp@.wf(),
        ensures
            r is Ok <==> cleaned_zero_point(zp@) is Ok,
            r matches Ok(q) ==> opt_model(q.zero_point_a) == kept_zero_point(zp@)
                && q.c_datum_type == self.c_datum_type && q.scale_factor == self.scale_factor,
    {
        let z = cleanup_zeropoint(zp)?;
        Ok(QParams { zero_point_a: z, ..self })
    }

    /// The parameters with the zero point of `b` set to the simplified `zp`.
    pub fn with_zero_point_b(self, zp: &Tensor) -> (r: Result<QParams, TractError>)
        requires
            zp@.wf(),
        ensures
            r is Ok <==> cleaned_zero_point(zp@) is Ok,
            r matches Ok(q) ==> opt_model(q.zero_point_b) == kept_zero_point(zp@)
                && q.c_datum_type == self.c_datum_type && q.scale_factor == self.scale_factor,
    {
        let z = cleanup_zeropoint(zp)?;
        Ok(QParams { zero_point_b: z, ..self })
    }

    /// The parameters with the zero point of `c` set to the simplified `zp`.
    pub fn with_zero_point_c(self, zp: &Tensor) -> (r: Result<QParams, TractError>)
        requires
            zp@.wf(),
        ensures
            r is Ok <==> cleaned_zero_point(zp@) is Ok,
            r matches Ok(q) ==> opt_model(q.zero_point_c) == kept_zero_point(zp@)
                && q.c_datum_type == self.c_datum_type && q.scale_factor == self.scale_factor,
    {
        let z = cleanup_zeropoint(zp)?;
        Ok(QParams { zero_point_c: z, ..self })
    }

    /// The parameters with the given scale factor.
    pub fn with_scale_factor(self, scale_factor: u32) -> (r: QParams)
        ensures
            r.scale_factor == Some(scale_factor),
            r.c_datum_type == self.c_datum_type,
    {
        QParams { scale_factor: Some(scale_factor), ..self }
    }

    /// Sets the zero point of `a` to the simplified `zp`; on error nothing changes.
    pub fn set_zero_point_a(&mut self, zp: &Tensor) -> (r: Result<(), TractError>)
        requires
            zp@.wf(),
        ensures
            r is Ok <==> cleaned_zero_point(zp@) is Ok,
            r is Ok ==> opt_model(final(self).zero_point_a) == kept_zero_point(zp@),
            r is Err ==> final(self).zero_point_a == old(self).zero_point_a,
            final(self).c_datum_type == old(self).c_datum_type,
            final(self).scale_factor == old(self).scale_factor,
    {
        self.zero_point_a = cleanup_zeropoint(zp)?;
        Ok(())
    }

    /// Sets the zero point of `b` to the simplified `zp`; on error nothing changes.
    pub fn set_zero_point_b(&mut self, zp: &Tensor) -> (r: Result<(), TractError>)
        requires
            zp@.wf(),
        ensures
            r is Ok <==> cleaned_zero_point(zp@) is Ok,
            r is Ok ==> opt_model(final(self).zero_point_b) == kept_zero_point(zp@),
            r is Err ==> final(self).zero_point_b == old(self).zero_point_b,
            final(self).c_datum_type == old(self).c_datum_type,
            final(self).scale_factor == old(self).scale_factor,
    {
        self.zero_point_b = cleanup_zeropoint(zp)?;
        Ok(())
    }

    /// Sets the zero point of `c` to the simplified `zp`; on error nothing changes.
    pub fn set_zero_point_c(&mut self, zp: &Tensor) -> (r: Result<(), TractError>)
        requires
            zp@.wf(),
        ensures
            r is Ok <==> cleaned_zero_point(zp@) is Ok,
            r is Ok ==> opt_model(final(self).zero_point_c) == kept_zero_point(zp@),
            r is Err ==> final(self).zero_point_c == old(self).zero_point_c,
            final(self).c_datum_type == old(self).c_datum_type,
            final(self).scale_factor == old(self).scale_factor,
    {
        self.zero_point_c = cleanup_zeropoint(zp)?;
        Ok(())
    }

    /// Sets the scale factor.
    pub fn set_scale_factor(&mut self, scale_factor: u32)
        ensures
            final(self).scale_factor == Some(scale_factor),
            final(self).c_datum_type == old(self).c_datum_type,
    {
        self.scale_factor = Some(scale_factor);
    }
}

/// The outlet that can stand for the output of node `n`, when `n` is a
/// dequantization reading, possibly through element-wise pass-through
/// nodes, a quantization with the same scale and zero point: the input of
/// that quantization.
pub open spec fn fusion_target(g: GraphModel, n: int) -> Option<OutletId> {
    match g.nodes[n].op {
        OpModel::DequantizeLinearF32 { scale_bits, zero_point } =>
            quantized_source(g, g.nodes[n].inputs[0].node as int, scale_bits, zero_point, g.nodes.len()),
        _ => None,
    }
}

/// Walking back from node `p` through element-wise pass-through nodes
/// (`Identity`), at most `fuel` of them: the input of the quantization
/// reached, when it has the given scale and zero point.
pub open spec fn quantized_source(g: GraphModel, p: int, scale_bits: u32, zero_point: i32, fuel: nat) -> Option<OutletId>
    decreases fuel,
{
    if fuel == 0 || !(0 <= p < g.nodes.len()) {
        None
    } else {
        match g.nodes[p].op {
            OpModel::QuantizeLinearU8 { scale_bits: s, zero_point: z } =>
                if s == scale_bits && z as i32 == zero_point { Some(g.nodes[p].inputs[0]) } else { None },
            OpModel::QuantizeLinearI8 { scale_bits: s, zero_point: z } =>
                if s == scale_bits && z as i32 == zero_point { Some(g.nodes[p].inputs[0]) } else { None },
            OpModel::Identity => quantized_source(g, g.nodes[p].inputs[0].node as int, scale_bits, zero_point, (fuel - 1) as nat),
            _ => None,
        }
    }
}

/// The outlet a walk back reaches exists.
proof fn lemma_source_valid(g: GraphModel, p: int, scale_bits: u32, zero_point: i32, fuel: nat)
    requires
        g.wf(),
    ensures
        quantized_source(g, p, scale_bits, zero_point, fuel) matches Some(o) ==> valid_outlet(g, o),
    decreases fuel,
{
    if fuel > 0 && 0 <= p < g.nodes.len() {
        assert(crate::ops::arity(g.nodes[p].op) == g.nodes[p].inputs.len());
        match g.nodes[p].op {
            OpModel::QuantizeLinearU8 { .. } | OpModel::QuantizeLinearI8 { .. } => {
                assert(valid_outlet(g, g.nodes[p].inputs[0]));
            },
            OpModel::Identity => {
                lemma_source_valid(g, g.nodes[p].inputs[0].node as int, scale_bits, zero_point, (fuel - 1) as nat);
            },
            _ => {},
        }
    }
}

/// Finds the outlet that can replace the output of node `n` (see
/// `fusion_target`).
pub fn dequantize_fusion(model: &RawModel, n: usize) -> (r: Option<OutletId>)
    requires
        model@.wf(),
        n < model@.nodes.len(),
    ensures
        r == fusion_target(model@, n as int),
        r matches Some(o) ==> valid_outlet(model@, o),
{
    let ghost g = model@;
    assert(g.nodes[n as int] == model.nodes@[n as int]@);
    let (scale_bits, zero_point) = match &model.nodes[n].op {
        Op::DequantizeLinearF32 { scale_bits, zero_point } => (*scale_bits, *zero_point),
        _ => return None,
    };
    assert(crate::model::valid_outlet(g, g.nodes[n as int].inputs[0]));
    let mut p = model.nodes[n].inputs[0].node;
    let mut fuel = model.nodes.len();
    while fuel > 0
        invariant
            g == model@,
            g.wf(),
            p < g.nodes.len(),
            fuel <= g.nodes.len(),
            quantized_source(g, p as int, scale_bits, zero_point, fuel as nat) == fusion_target(g, n as int),
        decreases fuel,
    {
        assert(g.nodes[p as int] == model.nodes@[p as int]@);
        assert(crate::ops::arity(g.nodes[p as int].op) == g.nodes[p as int].inputs.len());
        match &model.nodes[p].op {
            Op::QuantizeLinearU8 { scale_bits: s, zero_point: z } => {
                if *s == scale_bits && *z as i32 == zero_point {
                    assert(crate::model::valid_outlet(g, g.nodes[p as int].inputs[0]));
                    return Some(model.nodes[p].inputs[0]);
                } else {
                    return None;
                }
            },
            Op::QuantizeLinearI8 { scale_bits: s, zero_point: z } => {
                if *s == scale_bits && *z as i32 == zero_point {
                    assert(crate::model::valid_outlet(g, g.nodes[p as int].inputs[0]));
                    return Some(model.nodes[p].inputs[0]);
                } else {
                    return None;
                }
            },
            Op::Identity => {
                assert(crate::model::valid_outlet(g, g.nodes[p as int].inputs[0]));
                p = model.nodes[p].inputs[0].node;
                fuel -= 1;
            },
            _ => return None,
        }
    }
    None
}

/// `o` with `from` replaced by `to`.
pub open spec fn redirect(o: OutletId, from: OutletId, to: OutletId) -> OutletId {
    if o == from { to } else { o }
}

/// `g` with every reader of `from` reading `to` instead.
pub open spec fn shunt_model(g: GraphModel, from: OutletId, to: OutletId) -> GraphModel {
    GraphModel {
        nodes: g.nodes.map_values(|n: NodeModel| NodeModel {
            inputs: n.inputs.map_values(|o: OutletId| redirect(o, from, to)),
            ..n
        }),
        inputs: g.inputs,
        outputs: g.outputs.map_values(|o: OutletId| redirect(o, from, to)),
    }
}

/// Makes every reader of `from`, nodes and graph outputs alike, read `to`
/// instead.
#[verifier::loop_isolation(false)]
pub fn shunt_outside(model: &mut RawModel, from: OutletId, to: OutletId)
    requires
        old(model)@.wf(),
        valid_outlet(old(model)@, to),
    ensures
        final(model)@.wf(),
        final(model)@.nodes.len() == old(model)@.nodes.len(),
        final(model)@.inputs == old(model)@.inputs,
        forall|i: int| 0 <= i < final(model)@.nodes.len() ==> {
            &&& (#[trigger] final(model)@.nodes[i]).op == old(model)@.nodes[i].op
            &&& final(model)@.nodes[i].name == old(model)@.nodes[i].name
            &&& final(model)@.nodes[i].id == old(model)@.nodes[i].id
            &&& final(model)@.nodes[i].inputs.len() == old(model)@.nodes[i].inputs.len()
            &&& forall|k: int| 0 <= k < final(model)@.nodes[i].inputs.len() ==> #[trigger] final(model)@.nodes[i].inputs[k]
                == redirect(old(model)@.nodes[i].inputs[k], from, to)
        },
        final(model)@.outputs.len() == old(model)@.outputs.len(),
        forall|k: int| 0 <= k < final(model)@.outputs.len() ==> #[trigger] final(model)@.outputs[k]
            == redirect(old(model)@.outputs[k], from, to),
        final(model)@ == shunt_model(old(model)@, from, to),
{
    let ghost g0 = model@;
    let n = model.nodes.len();
    let mut i: usize = 0;
    while i < n
        invariant
            0 <= i <= n,
            model.nodes@.len() == n,
            model@.inputs == g0.inputs,
            model@.outputs == g0.outputs,
            forall|j: int| 0 <= j < n ==> {
                &&& (#[trigger] model@.nodes[j]).op == g0.nodes[j].op
                &&& model@.nodes[j].name == g0.nodes[j].name
                &&& model@.nodes[j].id == g0.nodes[j].id
                &&& model@.nodes[j].inputs.len() == g0.nodes[j].inputs.len()
                &&& forall|k: int| 0 <= k < model@.nodes[j].inputs.len() ==> #[trigger] model@.nodes[j].inputs[k]
                    == if j < i { redirect(g0.nodes[j].inputs[k], from, to) } else { g0.nodes[j].inputs[k] }
            },
        decreases n - i,
    {
        let ghost old_nodes = model@.nodes;
        let ghost old_exec = model.nodes@;
        let mut node = model.nodes.remove(i);
        let ghost before = node@;
        assert(before == old_nodes[i as int]);
        assert(before.inputs =~= g0.nodes[i as int].inputs);
        let mut k: usize = 0;
        while k < node.inputs.len()
            invariant
                0 <= k <= node.inputs@.len(),
                node@.op == before.op,
                node@.name == before.name,
                node@.id == before.id,
                node.inputs@.len() == before.inputs.len(),
                forall|q: int| 0 <= q < node.inputs@.len() ==> #[trigger] node.inputs@[q]
                    == if q < k { redirect(before.inputs[q], from, to) } else { before.inputs[q] },
            decreases node.inputs.len() - k,
        {
            if node.inputs[k] == from {
                node.inputs.set(k, to);
            }
            k += 1;
        }
        let ghost done = node@;
        model.nodes.insert(i, node);
        proof {
            assert forall|j: int| 0 <= j < n && j != i implies model@.nodes[j] == old_nodes[j] by {
                assert(model.nodes@[j] == old_exec[j]);
            }
            assert(model@.nodes[i as int] == done);
            assert forall|j: int| 0 <= j < n implies {
                &&& (#[trigger] model@.nodes[j]).op == g0.nodes[j].op
                &&& model@.nodes[j].name == g0.nodes[j].name
                &&& model@.nodes[j].id == g0.nodes[j].id
                &&& model@.nodes[j].inputs.len() == g0.nodes[j].inputs.len()
                &&& forall|k: int| 0 <= k < model@.nodes[j].inputs.len() ==> #[trigger] model@.nodes[j].inputs[k]
                    == if j < i + 1 { redirect(g0.nodes[j].inputs[k], from, to) } else { g0.nodes[j].inputs[k] }
            } by {
                if j != i {
                    assert(model@.nodes[j] == old_nodes[j]);
                } else {
                    assert forall|k: int| 0 <= k < done.inputs.len() implies #[trigger] done.inputs[k]
                        == redirect(g0.nodes[j].inputs[k], from, to) by {
                        assert(done.inputs[k] == redirect(before.inputs[k], from, to));
                    }
                }
            }
        }
        i += 1;
    }
    let ghost nodes_now = model@.nodes;
    let mut k: usize = 0;
    while k < model.outputs.len()
        invariant
            0 <= k <= model.outputs@.len(),
            model.outputs@.len() == g0.outputs.len(),
            model@.nodes == nodes_now,
            model@.inputs == g0.inputs,
            forall|q: int| 0 <= q < model.outputs@.len() ==> #[trigger] model.outputs@[q]
                == if q < k { redirect(g0.outputs[q], from, to) } else { g0.outputs[q] },
        decreases model.outputs.len() - k,
    {
        if model.outputs[k] == from {
            model.outputs.set(k, to);
        }
        k += 1;
    }
    proof {
        let g = model@;
        assert forall|j: int, k: int| 0 <= j < g.nodes.len() && 0 <= k < g.nodes[j].inputs.len()
            implies valid_outlet(g, #[trigger] g.nodes[j].inputs[k]) by {
            assert(valid_outlet(g0, g0.nodes[j].inputs[k]));
        }
        assert forall|k: int| 0 <= k < g.outputs.len() implies valid_outlet(g, #[trigger] g.outputs[k]) by {
            assert(valid_outlet(g0, g0.outputs[k]));
        }
        assert forall|k: int| 0 <= k < g.inputs.len() implies valid_outlet(g, #[trigger] g.inputs[k]) by {
            assert(valid_outlet(g0, g0.inputs[k]));
        }
        let want = shunt_model(g0, from, to);
        assert forall|j: int| 0 <= j < n implies #[trigger] g.nodes[j] == want.nodes[j] by {
            assert(g.nodes[j].inputs =~= want.nodes[j].inputs);
        }
        assert(g.nodes =~= want.nodes);
        assert(g.outputs =~= want.outputs);
    }
}

/// Whether some node or graph output reads outlet `o`.
pub open spec fn read(g: GraphModel, o: OutletId) -> bool {
    (exists|i: int, k: int| 0 <= i < g.nodes.len() && 0 <= k < g.nodes[i].inputs.len() && #[trigger] g.nodes[i].inputs[k] == o)
        || (exists|k: int| 0 <= k < g.outputs.len() && #[trigger] g.outputs[k] == o)
}

/// Whether some node or graph output reads outlet `o`.
#[verifier::loop_isolation(false)]
pub fn is_read(model: &RawModel, o: OutletId) -> (r: bool)
    ensures
        r == read(model@, o),
{
    let mut i: usize = 0;
    while i < model.nodes.len()
        invariant
            0 <= i <= model@.nodes.len(),
            forall|j: int, k: int| 0 <= j < i && 0 <= k < model@.nodes[j].inputs.len() ==> #[trigger] model@.nodes[j].inputs[k] != o,
        decreases model.nodes.len() - i,
    {
        let node = &model.nodes[i];
        assert(model@.nodes[i as int] == node@);
        let mut k: usize = 0;
        while k < node.inputs.len()
            invariant
                0 <= k <= node.inputs@.len(),
                forall|q: int| 0 <= q < k ==> node.inputs@[q] != o,
            decreases node.inputs.len() - k,
        {
            if node.inputs[k] == o {
                assert(model@.nodes[i as int].inputs[k as int] == o);
                return true;
            }
            k += 1;
        }
        i += 1;
    }
    let mut k: usize = 0;
    while k < model.outputs.len()
        invariant
            0 <= k <= model@.outputs.len(),
            forall|q: int| 0 <= q < k ==> model@.outputs[q] != o,
        decreases model.outputs.len() - k,
    {
        if model.outputs[k] == o {
            assert(model@.outputs[k as int] == o);
            return true;
        }
        k += 1;
    }
    false
}

/// Every dequantization that could be fused with its quantization is read
/// by no one: no fusion is left to do.
pub open spec fn fused(g: GraphModel) -> bool {
    forall|i: int| 0 <= i < g.nodes.len() && (#[trigger] fusion_target(g, i)) is Some
        ==> !read(g, OutletId { node: i as usize, slot: 0 })
}

/// One fusion pass over the first `i` nodes, in id order: a dequantization
/// that can be fused and is read has its readers moved to the fusion
/// target. Gives the graph and the number of nodes bypassed.
pub open spec fn fusion_pass(g: GraphModel, i: nat) -> (GraphModel, nat)
    decreases i,
{
    if i == 0 {
        (g, 0)
    } else {
        let (h, c) = fusion_pass(g, (i - 1) as nat);
        let from = OutletId { node: (i - 1) as usize, slot: 0 };
        match fusion_target(h, i - 1) {
            Some(to) => if read(h, from) { (shunt_model(h, from, to), c + 1) } else { (h, c) },
            None => (h, c),
        }
    }
}

/// The declutter loop from `g` after `passes` passes that bypassed `total`
/// nodes: passes run until one bypasses nothing; reaching `cap` passes, or
/// a count beyond `usize`, is `NonTerminatingDeclutter`.
pub open spec fn declutter_model(g: GraphModel, passes: nat, total: nat, cap: nat) -> Result<(GraphModel, nat), TractError>
    decreases cap - passes,
{
    if passes >= cap {
        Err(TractError::NonTerminatingDeclutter { iterations: cap as usize })
    } else {
        let (h, c) = fusion_pass(g, g.nodes.len());
        if c == 0 {
            Ok((g, total))
        } else if total + c > usize::MAX {
            Err(TractError::NonTerminatingDeclutter { iterations: passes as usize })
        } else {
            declutter_model(h, passes + 1, total + c, cap)
        }
    }
}

/// A pass keeps the graph well formed and its node count, and bypasses at
/// most one node per node; a pass that bypasses nothing leaves no fusion.
proof fn lemma_fusion_pass(g: GraphModel, i: nat)
    requires
        g.wf(),
        i <= g.nodes.len(),
    ensures
        fusion_pass(g, i).0.wf(),
        fusion_pass(g, i).0.nodes.len() == g.nodes.len(),
        fusion_pass(g, i).1 <= i,
        fusion_pass(g, i).1 == 0 ==> fusion_pass(g, i).0 == g,
    decreases i,
{
    if i > 0 {
        lemma_fusion_pass(g, (i - 1) as nat);
        let h = fusion_pass(g, (i - 1) as nat).0;
        let n = i - 1;
        if let OpModel::DequantizeLinearF32 { scale_bits, zero_point } = h.nodes[n as int].op {
            assert(valid_outlet(h, h.nodes[n as int].inputs[0]));
            lemma_source_valid(h, h.nodes[n as int].inputs[0].node as int, scale_bits, zero_point, h.nodes.len());
        }
    }
}

/// One declutter pass of dequantization fusion (see `fusion_pass`). Returns
/// the number of nodes bypassed; bypassed nodes stay in the graph, read by
/// no one. A pass that bypasses nothing leaves the graph as it is, and then
/// no fusion is left.
#[verifier::loop_isolation(false)]
pub fn declutter_dequantize(model: &mut RawModel) -> (r: usize)
    requires
        old(model)@.wf(),
    ensures
        (final(model)@, r as nat) == fusion_pass(old(model)@, old(model)@.nodes.len()),
        final(model)@.wf(),
        final(model)@.nodes.len() == old(model)@.nodes.len(),
        r <= old(model)@.nodes.len(),
        r == 0 ==> final(model)@ == old(model)@ && fused(final(model)@),
{
    let ghost g0 = model@;
    let n = model.nodes.len();
    let mut count: usize = 0;
    let mut i: usize = 0;
    while i < n
        invariant
            0 <= i <= n,
            n == g0.nodes.len(),
            count <= i,
            model@.wf(),
            model@.nodes.len() == n,
            (model@, count as nat) == fusion_pass(g0, i as nat),
            count == 0 ==> model@ == g0,
            count == 0 ==> forall|j: int| 0 <= j < i && (#[trigger] fusion_target(model@, j)) is Some
                ==> !read(model@, OutletId { node: j as usize, slot: 0 }),
        decreases n - i,
    {
        let from = OutletId::new(i, 0);
        match dequantize_fusion(model, i) {
            Some(to) => {
                if is_read(model, from) {
                    shunt_outside(model, from, to);
                    count += 1;
                }
            },
            None => {},
        }
        i += 1;
    }
    count
}

/// Repeats dequantization-fusion passes until one bypasses nothing, and
/// returns the number of nodes bypassed (see `declutter_model`). Fails with
/// `NonTerminatingDeclutter` after `100 × node count` passes.
pub fn declutter(model: &mut RawModel) -> (r: Result<usize, TractError>)
    requires
        old(model)@.wf(),
    ensures
        final(model)@.wf(),
        final(model)@.nodes.len() == old(model)@.nodes.len(),
        r matches Ok(t) ==> declutter_model(old(model)@, 0, 0, round_cap(old(model)@.nodes.len()))
            == Ok::<(GraphModel, nat), TractError>((final(model)@, t as nat)),
        r matches Err(e) ==> declutter_model(old(model)@, 0, 0, round_cap(old(model)@.nodes.len()))
            == Err::<(GraphModel, nat), TractError>(e),
        r is Ok ==> fused(final(model)@),
{
    let ghost g0 = model@;
    let n = model.nodes.len();
    let cap: usize = if n == 0 { 100 } else { match n.checked_mul(100) { Some(c) => c, None => usize::MAX } };
    assert(cap == round_cap(g0.nodes.len()));
    let mut total: usize = 0;
    let mut passes: usize = 0;
    while passes < cap
        invariant
            model@.wf(),
            model@.nodes.len() == n,
            n == g0.nodes.len(),
            g0 == old(model)@,
            passes <= cap,
            cap == round_cap(g0.nodes.len()),
            declutter_model(g0, 0, 0, cap as nat) == declutter_model(model@, passes as nat, total as nat, cap as nat),
        decreases cap - passes,
    {
        let ghost before = model@;
        let c = declutter_dequantize(model);
        if c == 0 {
            proof { lemma_fusion_pass(before, before.nodes.len()); }
            return Ok(total);
        }
        if total > usize::MAX - c {
            return Err(TractError::NonTerminatingDeclutter { iterations: passes });
        }
        total = total + c;
        passes += 1;
    }
    Err(TractError::NonTerminatingDeclutter { iterations: cap })
}

} // verus!
