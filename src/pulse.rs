//! Pulsification: the facts of a graph that consumes its input one pulse at a
//! time along a streaming axis.
use vstd::prelude::*;
use crate::datum::DatumType;
use crate::errors::TractError;
use crate::flatten::part;
use crate::model::{valid_outlet, GraphModel, RawModel};
use crate::ops::{Op, OpModel};
use crate::plan::{eval_order, greedy_order, lemma_order_covers, lemma_order_deterministic, ready};
use crate::tensor::{checked_shape_product, shape_product};

verus! {

/// The fact of a pulsed outlet: element type, shape of one pulse, streaming
/// axis (whose length is the pulse), and delay in steps before the output
/// lines up with the input.
#[derive(Debug)]
pub struct PulsedFact {
    pub datum_type: DatumType,
    pub shape: Vec<usize>,
    pub axis: usize,
    pub delay: usize,
}

/// A pulsed fact, mathematically.
pub struct PulsedModel {
    pub datum_type: DatumType,
    pub shape: Seq<usize>,
    pub axis: usize,
    pub delay: usize,
}

impl View for PulsedFact {
    type V = PulsedModel;

    open spec fn view(&self) -> PulsedModel {
        PulsedModel { datum_type: self.datum_type, shape: self.shape@, axis: self.axis, delay: self.delay }
    }
}

impl PulsedFact {
    pub fn clone_fact(&self) -> (r: PulsedFact)
        ensures
            r@ == self@,
    {
        let shape = self.shape.clone();
        assert(shape@ =~= self.shape@);
        PulsedFact { datum_type: self.datum_type, shape, axis: self.axis, delay: self.delay }
    }
}

/// The pulsed fact `f` with another element type.
pub open spec fn with_type(f: PulsedModel, dt: DatumType) -> PulsedModel {
    PulsedModel { datum_type: dt, ..f }
}

/// The pulsed output of `Flatten` around `axis`: rejected when it merges
/// the streaming axis with another axis, a numeric error when a merged
/// dimension overflows.
pub open spec fn flatten_pulsed(f: PulsedModel, axis: int, node: usize) -> Result<PulsedModel, TractError> {
    let rank = f.shape.len() as int;
    let p0 = shape_product(f.shape.subrange(0, axis));
    let p1 = shape_product(f.shape.subrange(axis, rank));
    if axis > rank || (f.axis < axis && axis > 1) || (f.axis >= axis && rank - axis > 1) {
        Err(TractError::NotPulsifiable { node })
    } else if p0 > usize::MAX || p1 > usize::MAX {
        Err(TractError::NumericError)
    } else {
        Ok(PulsedModel {
            shape: seq![p0 as usize, p1 as usize],
            axis: if f.axis < axis { 0 } else { 1 },
            ..f
        })
    }
}

/// The pulsed fact at the output of a node running `op` on inputs with the
/// pulsed facts `ins`. Element-wise operators keep the fact (a sum needs
/// inputs that agree); a reduction is rejected when it reduces the
/// streaming axis and otherwise shortens the reduced axes to 1; sources and
/// constants have no pulsed input to follow.
pub open spec fn pulsed_output(op: OpModel, ins: Seq<PulsedModel>, node: usize) -> Result<PulsedModel, TractError> {
    let not = TractError::NotPulsifiable { node };
    match op {
        OpModel::Identity => Ok(ins[0]),
        OpModel::Add => if ins[0] == ins[1] { Ok(ins[0]) } else { Err(not) },
        OpModel::QuantizeLinearU8 { .. } => Ok(with_type(ins[0], DatumType::U8)),
        OpModel::QuantizeLinearI8 { .. } => Ok(with_type(ins[0], DatumType::I8)),
        OpModel::DequantizeLinearF32 { .. } => Ok(with_type(ins[0], DatumType::F32)),
        OpModel::Reduce { axes, .. } => if axes.contains(ins[0].axis) {
            Err(not)
        } else {
            Ok(PulsedModel {
                shape: Seq::new(ins[0].shape.len(), |i: int| if axes.contains(i as usize) { 1usize } else { ins[0].shape[i] }),
                ..ins[0]
            })
        },
        OpModel::Flatten { axis } => flatten_pulsed(ins[0], axis as int, node),
        _ => Err(not),
    }
}

fn same_pulsed(a: &PulsedFact, b: &PulsedFact) -> (r: bool)
    ensures
        r == (a@ == b@),
{
    if a.datum_type != b.datum_type || a.axis != b.axis || a.delay != b.delay || a.shape.len() != b.shape.len() {
        return false;
    }
    let mut i: usize = 0;
    while i < a.shape.len()
        invariant
            a.shape@.len() == b.shape@.len(),
            0 <= i <= a.shape@.len(),
            forall|j: int| 0 <= j < i ==> a.shape@[j] == b.shape@[j],
        decreases a.shape.len() - i,
    {
        if a.shape[i] != b.shape[i] {
            assert(a@.shape[i as int] != b@.shape[i as int]);
            return false;
        }
        i += 1;
    }
    assert(a.shape@ =~= b.shape@);
    true
}

fn contains_axis(axes: &Vec<usize>, a: usize) -> (r: bool)
    ensures
        r == axes@.contains(a),
{
    let mut i: usize = 0;
    while i < axes.len()
        invariant
            0 <= i <= axes@.len(),
            forall|j: int| 0 <= j < i ==> axes@[j] != a,
        decreases axes.len() - i,
    {
        if axes[i] == a {
            return true;
        }
        i += 1;
    }
    false
}

impl Op {
    /// The pulsed fact at the output of a node `node` running this operator
    /// (see `pulsed_output`). Fails with `NotPulsifiable` naming the node, or
    /// with `NumericError` when a flattened dimension overflows.
    pub fn pulsed_output_fact(&self, ins: &Vec<PulsedFact>, node: usize) -> (r: Result<PulsedFact, TractError>)
        requires
            ins@.len() == crate::ops::arity(self@),
        ensures
            r matches Ok(f) ==> pulsed_output(self@, ins@.map_values(|p: PulsedFact| p@), node)
                == Ok::<PulsedModel, TractError>(f@),
            r matches Err(e) ==> pulsed_output(self@, ins@.map_values(|p: PulsedFact| p@), node) == Err::<PulsedModel, TractError>(e),
    {
        let ghost insm = ins@.map_values(|p: PulsedFact| p@);
        proof {
            if ins@.len() > 0 { assert(insm[0] == ins@[0]@); }
            if ins@.len() > 1 { assert(insm[1] == ins@[1]@); }
        }
        let not = TractError::NotPulsifiable { node };
        match self {
            Op::Identity => Ok(ins[0].clone_fact()),
            Op::Add => if same_pulsed(&ins[0], &ins[1]) { Ok(ins[0].clone_fact()) } else { Err(not) },
            Op::QuantizeLinearU8 { .. } => {
                let mut f = ins[0].clone_fact();
                f.datum_type = DatumType::U8;
                Ok(f)
            },
            Op::QuantizeLinearI8 { .. } => {
                let mut f = ins[0].clone_fact();
                f.datum_type = DatumType::I8;
                Ok(f)
            },
            Op::DequantizeLinearF32 { .. } => {
                let mut f = ins[0].clone_fact();
                f.datum_type = DatumType::F32;
                Ok(f)
            },
            Op::Reduce(red) => {
                let input = &ins[0];
                if contains_axis(&red.axes, input.axis) {
                    return Err(not);
                }
                let mut shape: Vec<usize> = Vec::new();
                let mut i: usize = 0;
                while i < input.shape.len()
                    invariant
                        0 <= i <= input.shape@.len(),
                        shape@.len() == i,
                        forall|j: int| 0 <= j < i ==> shape@[j] == (if red.axes@.contains(j as usize) { 1usize } else { input.shape@[j] }),
                    decreases input.shape.len() - i,
                {
                    if contains_axis(&red.axes, i) {
                        shape.push(1);
                    } else {
                        shape.push(input.shape[i]);
                    }
                    i += 1;
                }
                let f = PulsedFact { datum_type: input.datum_type, shape, axis: input.axis, delay: input.delay };
                assert(f@.shape =~= Seq::new(input.shape@.len(), |i: int| if red.axes@.contains(i as usize) { 1usize } else { input.shape@[i] }));
                Ok(f)
            },
            Op::Flatten(fl) => {
                let input = &ins[0];
                let rank = input.shape.len();
                let axis = fl.axis;
                if axis > rank || (input.axis < axis && axis > 1) || (input.axis >= axis && rank - axis > 1) {
                    return Err(not);
                }
                let p0 = checked_shape_product(part(&input.shape, 0, axis).as_slice());
                let p1 = checked_shape_product(part(&input.shape, axis, rank).as_slice());
                match (p0, p1) {
                    (Some(a), Some(b)) => {
                        let f = PulsedFact {
                            datum_type: input.datum_type,
                            shape: vec![a, b],
                            axis: if input.axis < axis { 0 } else { 1 },
                            delay: input.delay,
                        };
                        assert(f@.shape =~= flatten_pulsed(input@, axis as int, node)->Ok_0.shape);
                        Ok(f)
                    },
                    _ => Err(TractError::NumericError),
                }
            },
            _ => Err(not),
        }
    }
}

/// The pulsed facts of the inputs of node `c`, taken from `facts`.
pub open spec fn pulsed_inputs(g: GraphModel, c: int, facts: Seq<PulsedModel>) -> Seq<PulsedModel> {
    g.nodes[c].inputs.map_values(|o: crate::model::OutletId| facts[o.node as int])
}

/// `facts` gives every node of `g` its pulsed fact: sources have the pulsed
/// input's fact, every other node the fact its operator derives from its
/// inputs' facts.
pub open spec fn consistent(g: GraphModel, input: PulsedModel, facts: Seq<PulsedModel>) -> bool {
    &&& facts.len() == g.nodes.len()
    &&& forall|c: int| 0 <= c < g.nodes.len() ==> (#[trigger] g.nodes[c]).op is Source ==> facts[c] == input
    &&& forall|c: int| 0 <= c < g.nodes.len() ==> !((#[trigger] g.nodes[c]).op is Source)
        ==> pulsed_output(g.nodes[c].op, pulsed_inputs(g, c, facts), c as usize) == Ok::<PulsedModel, TractError>(facts[c])
}

/// The pulsed facts after the nodes of `order` are given theirs in turn,
/// starting from every node holding the pulsed input's fact: a source
/// takes the input's fact when its type is the input's; any other node the
/// fact its operator derives from its inputs' facts.
pub open spec fn pulsify_model(g: GraphModel, input: PulsedModel, order: Seq<usize>) -> Result<Seq<PulsedModel>, TractError>
    decreases order.len(),
{
    if order.len() == 0 {
        Ok(Seq::new(g.nodes.len(), |i: int| input))
    } else {
        match pulsify_model(g, input, order.drop_last()) {
            Err(e) => Err(e),
            Ok(facts) => {
                let c = order.last();
                match g.nodes[c as int].op {
                    OpModel::Source { datum_type } => if datum_type != input.datum_type {
                        Err(TractError::DtypeError { expected: datum_type, got: input.datum_type })
                    } else {
                        Ok(facts.update(c as int, input))
                    },
                    op => match pulsed_output(op, pulsed_inputs(g, c as int, facts), c) {
                        Err(e) => Err(e),
                        Ok(f) => Ok(facts.update(c as int, f)),
                    },
                }
            },
        }
    }
}

/// Once a prefix of the order fails, the whole order fails the same way.
proof fn lemma_pulsify_error_kept(g: GraphModel, input: PulsedModel, order: Seq<usize>, j: int)
    requires
        0 <= j <= order.len(),
        pulsify_model(g, input, order.subrange(0, j)) is Err,
    ensures
        pulsify_model(g, input, order) == pulsify_model(g, input, order.subrange(0, j)),
    decreases order.len() - j,
{
    if j < order.len() {
        assert(order.subrange(0, j + 1).drop_last() =~= order.subrange(0, j));
        lemma_pulsify_error_kept(g, input, order, j + 1);
    } else {
        assert(order.subrange(0, j) =~= order);
    }
}

/// Assigns pulsed facts to every node of `model` in plan order, feeding its
/// sources with `input`. Fails with `DtypeError` when a source's type is not
/// the input's, with `InvalidGraph` on a cycle, and otherwise with the error
/// of the first node that cannot be pulsed.
#[verifier::loop_isolation(false)]
pub fn pulsify_facts(model: &RawModel, input: &PulsedFact) -> (r: Result<Vec<PulsedFact>, TractError>)
    requires
        model@.wf(),
    ensures
        r matches Ok(fs) ==> consistent(model@, input@, fs@.map_values(|p: PulsedFact| p@)),
        r matches Ok(fs) ==> pulsify_model(model@, input@, crate::analyser::plan_order(model@))
            == Ok::<Seq<PulsedModel>, TractError>(fs@.map_values(|p: PulsedFact| p@)),
        r matches Err(e) ==> e == TractError::InvalidGraph && !crate::analyser::schedulable(model@)
            || pulsify_model(model@, input@, crate::analyser::plan_order(model@)) == Err::<Seq<PulsedModel>, TractError>(e),
{
    let ghost g = model@;
    let n = model.nodes.len();
    let order = match eval_order(model) {
        Ok(o) => o,
        Err(e) => {
            proof {
                if crate::analyser::schedulable(g) {
                    let o = choose|o: Seq<usize>| greedy_order(g, o) && o.len() == g.nodes.len();
                    let done = choose|done: Seq<usize>| greedy_order(g, done) && #[trigger] crate::plan::stuck(g, done);
                    crate::analyser::lemma_stuck_not_complete(g, o, done);
                }
            }
            return Err(e);
        },
    };
    proof {
        lemma_order_covers(g, order@);
        let p = crate::analyser::plan_order(g);
        assert(greedy_order(g, order@) && order@.len() == g.nodes.len());
        lemma_order_deterministic(g, order@, p);
    }
    let mut facts: Vec<PulsedFact> = Vec::new();
    let mut i: usize = 0;
    while i < n
        invariant
            0 <= i <= n,
            facts@.len() == i,
            forall|j: int| 0 <= j < i ==> (#[trigger] facts@[j])@ == input@,
        decreases n - i,
    {
        facts.push(input.clone_fact());
        i += 1;
    }
    assert(facts@.map_values(|p: PulsedFact| p@) =~= Seq::new(g.nodes.len(), |i: int| input@));
    assert(order@.subrange(0, 0) =~= Seq::<usize>::empty());
    let mut done: Vec<bool> = Vec::new();
    let mut i: usize = 0;
    while i < n
        invariant
            0 <= i <= n,
            done@.len() == i,
            forall|j: int| 0 <= j < i ==> !done@[j],
        decreases n - i,
    {
        done.push(false);
        i += 1;
    }
    let mut step: usize = 0;
    while step < n
        invariant
            0 <= step <= n,
            g == model@,
            g.wf(),
            n == g.nodes.len(),
            order@.len() == n,
            crate::plan::greedy_order(g, order@),
            order@.no_duplicates(),
            forall|m: int| 0 <= m < n ==> #[trigger] order@.contains(m as usize),
            forall|k: int| 0 <= k < n ==> #[trigger] order@[k] < n,
            facts@.len() == n,
            done@.len() == n,
            forall|m: int| 0 <= m < n ==> (#[trigger] done@[m] <==> order@.subrange(0, step as int).contains(m as usize)),
            pulsify_model(g, input@, order@.subrange(0, step as int)) == Ok::<Seq<PulsedModel>, TractError>(facts@.map_values(|p: PulsedFact| p@)),
            order@ == crate::analyser::plan_order(g),
            forall|c: int| 0 <= c < n && #[trigger] done@[c] ==> {
                let fm = facts@.map_values(|p: PulsedFact| p@);
                &&& g.nodes[c].op is Source ==> fm[c] == input@
                &&& !(g.nodes[c].op is Source) ==> pulsed_output(g.nodes[c].op, pulsed_inputs(g, c, fm), c as usize)
                    == Ok::<PulsedModel, TractError>(fm[c])
                &&& forall|q: int| 0 <= q < g.nodes[c].inputs.len() ==> done@[g.nodes[c].inputs[q].node as int]
            },
        decreases n - step,
    {
        let c = order[step];
        let node = &model.nodes[c];
        assert(g.nodes[c as int] == node@);
        proof {
            assert(ready(g, order@.subrange(0, step as int), c as int));
        }
        let fact = if let Op::Source { datum_type } = &node.op {
            if *datum_type != input.datum_type {
                proof {
                    assert(order@.subrange(0, step + 1).drop_last() =~= order@.subrange(0, step as int));
                    lemma_pulsify_error_kept(g, input@, order@, step + 1);
                }
                return Err(TractError::DtypeError { expected: *datum_type, got: input.datum_type });
            }
            input.clone_fact()
        } else {
            let mut ins: Vec<PulsedFact> = Vec::new();
            let mut q: usize = 0;
            while q < node.inputs.len()
                invariant
                    0 <= q <= node.inputs@.len(),
                    ins@.len() == q,
                    facts@.len() == n,
                    forall|j: int| 0 <= j < q ==> (#[trigger] ins@[j])@ == facts@[node.inputs@[j].node as int]@,
                decreases node.inputs.len() - q,
            {
                assert(valid_outlet(g, g.nodes[c as int].inputs[q as int]));
                ins.push(facts[node.inputs[q].node].clone_fact());
                q += 1;
            }
            proof {
                let fm = facts@.map_values(|p: PulsedFact| p@);
                assert(ins@.map_values(|p: PulsedFact| p@) =~= pulsed_inputs(g, c as int, fm));
            }
            match node.op.pulsed_output_fact(&ins, c) {
                Ok(f) => f,
                Err(e) => {
                    proof {
                        assert(order@.subrange(0, step + 1).drop_last() =~= order@.subrange(0, step as int));
                        lemma_pulsify_error_kept(g, input@, order@, step + 1);
                    }
                    return Err(e);
                },
            }
        };
        let ghost old_facts = facts@;
        let ghost fv = fact@;
        facts.set(c, fact);
        proof {
            let fo = old_facts.map_values(|p: PulsedFact| p@);
            assert(order@.subrange(0, step + 1).drop_last() =~= order@.subrange(0, step as int));
            assert(order@.subrange(0, step + 1).last() == c);
            assert(facts@.map_values(|p: PulsedFact| p@) =~= fo.update(c as int, fv));
        }
        done.set(c, true);
        proof {
            let fm = facts@.map_values(|p: PulsedFact| p@);
            let fo = old_facts.map_values(|p: PulsedFact| p@);
            assert(order@.subrange(0, step + 1) =~= order@.subrange(0, step as int).push(c));
            assert(!order@.subrange(0, step as int).contains(c));
            assert forall|c2: int| 0 <= c2 < n && done@[c2] && c2 != c implies
                pulsed_inputs(g, c2, fm) == pulsed_inputs(g, c2, fo) by {
                assert forall|q: int| 0 <= q < g.nodes[c2].inputs.len() implies
                    g.nodes[c2].inputs[q].node != c by {
                    assert(done@[g.nodes[c2].inputs[q].node as int]);
                    if g.nodes[c2].inputs[q].node == c {
                        assert(order@.subrange(0, step as int).contains(c));
                    }
                }
                assert(pulsed_inputs(g, c2, fm) =~= pulsed_inputs(g, c2, fo));
            }
            assert forall|q: int| 0 <= q < g.nodes[c as int].inputs.len() implies
                g.nodes[c as int].inputs[q].node != c by {
                let src = g.nodes[c as int].inputs[q].node;
                assert(order@.subrange(0, step as int).contains(src));
            }
            assert(pulsed_inputs(g, c as int, fm) =~= pulsed_inputs(g, c as int, fo));
            assert forall|m: int| 0 <= m < n implies (#[trigger] done@[m] <==> order@.subrange(0, step + 1).contains(m as usize)) by {
                if m == c {
                    assert(order@.subrange(0, step + 1)[step as int] == c);
                } else if order@.subrange(0, step + 1).contains(m as usize) {
                    let pre = order@.subrange(0, step + 1);
                    let w = choose|w: int| 0 <= w < pre.len() && #[trigger] pre[w] == m as usize;
                    assert(w < step);
                    assert(order@.subrange(0, step as int)[w] == m as usize);
                }
            }
        }
        step += 1;
    }
    proof {
        assert(order@.subrange(0, n as int) =~= order@);
        let fm = facts@.map_values(|p: PulsedFact| p@);
        assert forall|c: int| 0 <= c < n implies #[trigger] done@[c] by {
            assert(order@.contains(c as usize));
        }
        assert forall|c: int| 0 <= c < g.nodes.len() && (#[trigger] g.nodes[c]).op is Source implies fm[c] == input@ by {
            assert(done@[c]);
        }
        assert forall|c: int| 0 <= c < g.nodes.len() && !((#[trigger] g.nodes[c]).op is Source)
            implies pulsed_output(g.nodes[c].op, pulsed_inputs(g, c, fm), c as usize) == Ok::<PulsedModel, TractError>(fm[c]) by {
            assert(done@[c]);
        }
        assert(fm.len() == g.nodes.len());
    }
    Ok(facts)
}

} // verus!
