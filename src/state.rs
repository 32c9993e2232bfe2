//! Execution of a graph: a plan orders its nodes and records how long each
//! value lives; a state runs the plan and releases every value after its
//! last use.
use vstd::prelude::*;
use crate::errors::TractError;
use crate::model::{valid_outlet, GraphModel, Model, OutletId};
use crate::ops::{arity, eval_model, Op, OpModel};
use crate::analyser::plan_order;
use crate::plan::lemma_order_deterministic;
use crate::tensor::TensorModel;
use crate::plan::{eval_order, greedy_order, lemma_order_covers, ready};
use crate::tensor::Tensor;

verus! {

/// Whether node `m` is read by an output outlet of `g`.
pub open spec fn is_output_node(g: GraphModel, m: int) -> bool {
    exists|k: int| 0 <= k < g.outputs.len() && g.outputs[k].node == m
}

/// `l` is the step of node `m` or the step of a node that reads `m`; with
/// the lower bounds of `SimplePlan::wf`, the last step that reads `m`, or
/// its own step when nothing reads it.
pub open spec fn last_use_witnessed(g: GraphModel, step_of: Seq<usize>, l: usize, m: int) -> bool {
    l == step_of[m] || exists|c: int, q: int| 0 <= c < g.nodes.len() && 0 <= q < g.nodes[c].inputs.len()
        && #[trigger] g.nodes[c].inputs[q].node == m && l == step_of[c]
}

/// A plan for a graph: its evaluation order, the step of each node, and for
/// each node the last step that reads its value.
#[derive(Debug)]
pub struct SimplePlan {
    pub model: Model,
    pub order: Vec<usize>,
    pub step_of: Vec<usize>,
    pub last_use: Vec<usize>,
    pub is_output: Vec<bool>,
}

impl SimplePlan {
    /// The graph of the plan, mathematically.
    pub open spec fn graph(&self) -> GraphModel {
        (*self.model.0)@
    }

    /// The order is the graph's complete plan order, `step_of` is its
    /// inverse, each value lives from its own step to the last step that
    /// reads it, and `is_output` marks the nodes read by the graph's outputs.
    pub open spec fn wf(&self) -> bool {
        let g = self.graph();
        let n = g.nodes.len();
        &&& g.wf()
        &&& greedy_order(g, self.order@)
        &&& self.order@.len() == n
        &&& self.step_of@.len() == n
        &&& self.last_use@.len() == n
        &&& self.is_output@.len() == n
        &&& forall|k: int| 0 <= k < n ==> #[trigger] self.order@[k] < n
        &&& forall|k: int| 0 <= k < n ==> self.step_of@[#[trigger] self.order@[k] as int] == k
        &&& forall|m: int| 0 <= m < n ==> #[trigger] self.step_of@[m] < n
            && self.order@[self.step_of@[m] as int] == m
        &&& forall|m: int| 0 <= m < n ==> self.step_of@[m] <= #[trigger] self.last_use@[m] < n
        &&& forall|c: int, q: int| 0 <= c < n && 0 <= q < g.nodes[c].inputs.len()
            ==> self.step_of@[c] <= #[trigger] self.last_use@[g.nodes[c].inputs[q].node as int]
        &&& forall|m: int| 0 <= m < n ==> last_use_witnessed(g, self.step_of@, #[trigger] self.last_use@[m], m)
        &&& forall|m: int| 0 <= m < n ==> (#[trigger] self.is_output@[m] <==> is_output_node(g, m))
    }

    /// Plans the execution of `model`. Fails with `InvalidGraph` when the
    /// graph has a cycle.
    #[verifier::loop_isolation(false)]
    #[verifier::spinoff_prover]
    pub fn new(model: Model) -> (r: Result<SimplePlan, TractError>)
        requires
            (*model.0)@.wf(),
        ensures
            r matches Ok(p) ==> p.wf() && p.model == model,
            r matches Err(e) ==> e == TractError::InvalidGraph,
            r is Err <==> !crate::analyser::schedulable((*model.0)@),
    {
        let ghost g = (*model.0)@;
        let raw = model.raw();
        let n = raw.nodes.len();
        let order = match eval_order(raw) {
            Ok(o) => o,
            Err(e) => {
                proof {
                    if crate::analyser::schedulable(g) {
                        let o = choose|o: Seq<usize>| greedy_order(g, o) && o.len() == g.nodes.len();
                        let done = choose|done: Seq<usize>| greedy_order(g, done) && #[trigger] crate::plan::stuck(g, done);
                        crate::analyser::lemma_stuck_not_complete(g, o, done);
                    }
                }
                return Err(e);
            },
        };
        assert(crate::analyser::schedulable(g));
        proof { lemma_order_covers(g, order@); }
        let mut step_of: Vec<usize> = Vec::new();
        let mut i: usize = 0;
        while i < n
            invariant
                0 <= i <= n,
                step_of@.len() == i,
            decreases n - i,
        {
            step_of.push(0);
            i += 1;
        }
        let mut k: usize = 0;
        while k < n
            invariant
                0 <= k <= n,
                step_of@.len() == n,
                forall|j: int| 0 <= j < k ==> step_of@[#[trigger] order@[j] as int] == j,
            decreases n - k,
        {
            let ghost before = step_of@;
            step_of.set(order[k], k);
            proof {
                assert forall|j: int| 0 <= j < k + 1 implies step_of@[#[trigger] order@[j] as int] == j by {
                    if j < k {
                        assert(order@[j] != order@[k as int]);
                        assert(step_of@[order@[j] as int] == before[order@[j] as int]);
                    }
                }
            }
            k += 1;
        }
        proof {
            assert forall|m: int| 0 <= m < n implies #[trigger] step_of@[m] < n && order@[step_of@[m] as int] == m by {
                assert(order@.contains(m as usize));
                let j = choose|j: int| 0 <= j < order@.len() && order@[j] == m as usize;
                assert(step_of@[order@[j] as int] == j);
            }
        }
        let mut last_use = step_of.clone();
        assert(last_use@ =~= step_of@);
        assert forall|m: int| 0 <= m < n implies last_use_witnessed(g, step_of@, #[trigger] last_use@[m], m) by {}
        let mut c: usize = 0;
        while c < n
            invariant
                0 <= c <= n,
                last_use@.len() == n,
                forall|m: int| 0 <= m < n ==> step_of@[m] <= #[trigger] last_use@[m] < n,
                forall|c2: int, q: int| 0 <= c2 < c && 0 <= q < g.nodes[c2].inputs.len()
                    ==> step_of@[c2] <= #[trigger] last_use@[g.nodes[c2].inputs[q].node as int],
                forall|m: int| 0 <= m < n ==> last_use_witnessed(g, step_of@, #[trigger] last_use@[m], m),
            decreases n - c,
        {
            let node = &raw.nodes[c];
            assert(g.nodes[c as int] == node@);
            let mut q: usize = 0;
            while q < node.inputs.len()
                invariant
                    0 <= q <= node.inputs@.len(),
                    last_use@.len() == n,
                    forall|m: int| 0 <= m < n ==> step_of@[m] <= #[trigger] last_use@[m] < n,
                    forall|c2: int, q2: int| 0 <= c2 < c && 0 <= q2 < g.nodes[c2].inputs.len()
                        ==> step_of@[c2] <= #[trigger] last_use@[g.nodes[c2].inputs[q2].node as int],
                    forall|q2: int| 0 <= q2 < q ==> step_of@[c as int] <= #[trigger] last_use@[node.inputs@[q2].node as int],
                    forall|m: int| 0 <= m < n ==> last_use_witnessed(g, step_of@, #[trigger] last_use@[m], m),
                decreases node.inputs.len() - q,
            {
                assert(valid_outlet(g, g.nodes[c as int].inputs[q as int]));
                let src = node.inputs[q].node;
                if last_use[src] < step_of[c] {
                    let ghost before = last_use@;
                    last_use.set(src, step_of[c]);
                    proof {
                        assert(g.nodes[c as int].inputs[q as int].node == src);
                        assert forall|m: int| 0 <= m < n implies last_use_witnessed(g, step_of@, #[trigger] last_use@[m], m) by {
                            if m != src as int {
                                assert(last_use@[m] == before[m]);
                            }
                        }
                    }
                }
                q += 1;
            }
            c += 1;
        }
        let mut is_output: Vec<bool> = Vec::new();
        let mut m: usize = 0;
        while m < n
            invariant
                0 <= m <= n,
                is_output@.len() == m,
                forall|j: int| 0 <= j < m ==> (#[trigger] is_output@[j] <==> is_output_node(g, j)),
            decreases n - m,
        {
            let mut found = false;
            let mut k: usize = 0;
            while k < raw.outputs.len()
                invariant
                    0 <= k <= raw.outputs@.len(),
                    found <==> exists|j: int| 0 <= j < k && raw.outputs@[j].node == m,
                decreases raw.outputs.len() - k,
            {
                if raw.outputs[k].node == m {
                    found = true;
                }
                k += 1;
            }
            proof {
                assert(raw@.outputs == g.outputs);
                if found {
                    let j = choose|j: int| 0 <= j < raw.outputs@.len() && raw.outputs@[j].node == m;
                    assert(g.outputs[j].node == m);
                    assert(is_output_node(g, m as int));
                } else {
                    assert forall|j: int| 0 <= j < g.outputs.len() implies g.outputs[j].node != m by {
                        assert(raw.outputs@[j].node != m);
                    }
                    assert(!is_output_node(g, m as int));
                }
            }
            let ghost before = is_output@;
            is_output.push(found);
            proof {
                assert forall|j: int| 0 <= j < m + 1 implies (#[trigger] is_output@[j] <==> is_output_node(g, j)) by {
                    if j < m {
                        assert(is_output@[j] == before[j]);
                    }
                }
            }
            m += 1;
        }
        Ok(SimplePlan { model, order, step_of, last_use, is_output })
    }
}

/// The mathematical values of optional tensors.
pub open spec fn opt_models(v: Seq<Option<Tensor>>) -> Seq<Option<TensorModel>> {
    v.map_values(|o: Option<Tensor>| match o { Some(t) => Some(t@), None => None })
}

/// The values of the nodes once the inputs from position `k` on are bound,
/// the last first, to the nodes of the graph's input outlets; an input
/// feeding a source must have the source's type.
pub open spec fn bind(g: GraphModel, ins: Seq<TensorModel>, k: int) -> Result<Seq<Option<TensorModel>>, TractError>
    decreases ins.len() - k,
{
    if k >= ins.len() {
        Ok(Seq::new(g.nodes.len(), |i: int| None))
    } else {
        match bind(g, ins, k + 1) {
            Err(e) => Err(e),
            Ok(v) => {
                let target = g.inputs[k].node as int;
                match g.nodes[target].op {
                    OpModel::Source { datum_type } => if datum_type != ins[k].datum_type {
                        Err(TractError::DtypeError { expected: datum_type, got: ins[k].datum_type })
                    } else {
                        Ok(v.update(target, Some(ins[k])))
                    },
                    _ => Ok(v.update(target, Some(ins[k]))),
                }
            },
        }
    }
}

/// The values of the nodes after the first `k` steps of `order`: a source
/// keeps its bound value (none is an error), any other node gets what its
/// operator computes from its inputs' values.
pub open spec fn run_steps(g: GraphModel, order: Seq<usize>, b: Seq<Option<TensorModel>>, k: int) -> Result<Seq<Option<TensorModel>>, TractError>
    decreases k,
{
    if k <= 0 {
        Ok(b)
    } else {
        match run_steps(g, order, b, k - 1) {
            Err(e) => Err(e),
            Ok(f) => {
                let c = order[k - 1] as int;
                let node = g.nodes[c];
                if node.op is Source {
                    if f[c] is Some { Ok(f) } else { Err(TractError::InvalidGraph) }
                } else if exists|q: int| 0 <= q < node.inputs.len() && (#[trigger] f[node.inputs[q].node as int]) is None {
                    Err(TractError::InvalidGraph)
                } else {
                    match eval_model(node.op, node.inputs.map_values(|o: OutletId| f[o.node as int]->Some_0)) {
                        Err(e) => Err(e),
                        Ok(t) => Ok(f.update(c, Some(t))),
                    }
                }
            },
        }
    }
}

/// What running `g` on the inputs `ins` gives: the values at its output
/// outlets, or the first error.
pub open spec fn run_model(g: GraphModel, ins: Seq<TensorModel>) -> Result<Seq<TensorModel>, TractError> {
    if ins.len() != g.inputs.len() {
        Err(TractError::ArityError { expected: g.inputs.len() as usize, got: ins.len() as usize })
    } else {
        match bind(g, ins, 0) {
            Err(e) => Err(e),
            Ok(b) => match run_steps(g, plan_order(g), b, g.nodes.len() as int) {
                Err(e) => Err(e),
                Ok(f) => Ok(g.outputs.map_values(|o: OutletId| f[o.node as int]->Some_0)),
            },
        }
    }
}

/// The values after node `c` alone is computed from `f`: a source keeps
/// its bound value (none is an error); any other node gets what its
/// operator computes from its inputs' values, which must all be present.
pub open spec fn node_step(g: GraphModel, f: Seq<Option<TensorModel>>, c: int) -> Result<Seq<Option<TensorModel>>, TractError> {
    let node = g.nodes[c];
    if node.op is Source {
        if f[c] is Some { Ok(f) } else { Err(TractError::InvalidGraph) }
    } else if exists|q: int| 0 <= q < node.inputs.len() && (#[trigger] f[node.inputs[q].node as int]) is None {
        Err(TractError::InvalidGraph)
    } else {
        match eval_model(node.op, node.inputs.map_values(|o: OutletId| f[o.node as int]->Some_0)) {
            Err(e) => Err(e),
            Ok(t) => Ok(f.update(c, Some(t))),
        }
    }
}

/// Once a prefix of the steps fails, all the steps fail the same way.
proof fn lemma_run_error_kept(g: GraphModel, order: Seq<usize>, b: Seq<Option<TensorModel>>, j: int, k: int)
    requires
        0 <= j <= k,
        run_steps(g, order, b, j) is Err,
    ensures
        run_steps(g, order, b, k) == run_steps(g, order, b, j),
    decreases k - j,
{
    if j < k {
        lemma_run_error_kept(g, order, b, j, k - 1);
    }
}

/// Once binding from a position fails, binding from an earlier one fails
/// the same way.
proof fn lemma_bind_error_kept(g: GraphModel, ins: Seq<TensorModel>, j: int, k: int)
    requires
        0 <= j <= k <= ins.len(),
        bind(g, ins, k) is Err,
    ensures
        bind(g, ins, j) == bind(g, ins, k),
    decreases k - j,
{
    if j < k {
        lemma_bind_error_kept(g, ins, j + 1, k);
    }
}

/// A plan and the values of the outlets that are currently alive.
#[derive(Debug)]
pub struct SimpleState {
    pub plan: SimplePlan,
    pub values: Vec<Option<Tensor>>,
}

impl SimpleState {
    /// A state holding no value.
    pub fn new(plan: SimplePlan) -> (r: SimpleState)
        ensures
            r.plan == plan,
            r.values@.len() == 0,
    {
        SimpleState { plan, values: Vec::new() }
    }

    /// Computes the single node `node` from the values the state holds and
    /// keeps its output there (see `node_step`); on error nothing changes.
    #[verifier::loop_isolation(false)]
    pub fn compute_one(&mut self, node: usize) -> (r: Result<(), TractError>)
        requires
            old(self).plan.wf(),
            node < old(self).plan.graph().nodes.len(),
            old(self).values@.len() == old(self).plan.graph().nodes.len(),
            forall|m: int| 0 <= m < old(self).values@.len() ==> (#[trigger] old(self).values@[m] matches Some(t) ==> t@.wf()),
            forall|m: int| 0 <= m < old(self).plan.graph().nodes.len()
                ==> (#[trigger] old(self).plan.graph().nodes[m].op matches OpModel::Const(c) ==> c.wf()),
        ensures
            final(self).plan == old(self).plan,
            final(self).values@.len() == old(self).values@.len(),
            forall|m: int| 0 <= m < final(self).values@.len() ==> (#[trigger] final(self).values@[m] matches Some(t) ==> t@.wf()),
            r is Ok ==> node_step(old(self).plan.graph(), opt_models(old(self).values@), node as int)
                == Ok::<Seq<Option<TensorModel>>, TractError>(opt_models(final(self).values@)),
            r matches Err(e) ==> node_step(old(self).plan.graph(), opt_models(old(self).values@), node as int)
                == Err::<Seq<Option<TensorModel>>, TractError>(e) && final(self).values@ == old(self).values@,
    {
        let ghost g = self.plan.graph();
        let ghost f = opt_models(self.values@);
        let raw = self.plan.model.raw();
        let n = node;
        let nd = &raw.nodes[n];
        assert(g.nodes[n as int] == nd@);
        if let Op::Source { .. } = &nd.op {
            return match &self.values[n] {
                Some(_) => Ok(()),
                None => Err(TractError::InvalidGraph),
            };
        }
        let mut ins: Vec<Tensor> = Vec::new();
        let mut q: usize = 0;
        while q < nd.inputs.len()
            invariant
                0 <= q <= nd.inputs@.len(),
                ins@.len() == q,
                self.values@.len() == g.nodes.len(),
                forall|j: int| 0 <= j < q ==> (#[trigger] ins@[j])@.wf(),
                forall|j: int| 0 <= j < q ==> f[nd.inputs@[j].node as int] == Some((#[trigger] ins@[j])@),
            decreases nd.inputs.len() - q,
        {
            assert(valid_outlet(g, g.nodes[n as int].inputs[q as int]));
            let src = nd.inputs[q].node;
            match &self.values[src] {
                Some(t) => ins.push(t.clone()),
                None => {
                    assert(f[nd@.inputs[q as int].node as int] is None);
                    return Err(TractError::InvalidGraph);
                },
            }
            q += 1;
        }
        proof {
            assert forall|k: int| 0 <= k < nd@.inputs.len() implies !((#[trigger] f[nd@.inputs[k].node as int]) is None) by {
                assert(f[nd.inputs@[k].node as int] == Some(ins@[k]@));
            }
            assert(crate::ops::tensor_models(ins@) =~= nd@.inputs.map_values(|o: OutletId| f[o.node as int]->Some_0));
        }
        let t = nd.op.eval(ins)?;
        let ghost tv = t@;
        self.values.set(n, Some(t));
        assert(opt_models(self.values@) =~= f.update(n as int, Some(tv)));
        Ok(())
    }

    /// Runs the plan on `inputs`, one per input outlet of the graph, and
    /// returns the values of the output outlets: the result is `run_model`,
    /// so it fails exactly when the input count is wrong, an input feeding a
    /// source has another type, or a node's evaluation fails. Every value is
    /// released after the last step that reads it: once the run succeeds,
    /// only the values of output nodes are held.
    #[verifier::loop_isolation(false)]
    pub fn run(&mut self, inputs: Vec<Tensor>) -> (r: Result<Vec<Tensor>, TractError>)
        requires
            old(self).plan.wf(),
            forall|k: int| 0 <= k < inputs@.len() ==> (#[trigger] inputs@[k])@.wf(),
            forall|m: int| 0 <= m < old(self).plan.graph().nodes.len()
                ==> (#[trigger] old(self).plan.graph().nodes[m].op matches OpModel::Const(c) ==> c.wf()),
        ensures
            final(self).plan == old(self).plan,
            r matches Ok(outs) ==> run_model(old(self).plan.graph(), crate::ops::tensor_models(inputs@))
                == Ok::<Seq<TensorModel>, TractError>(crate::ops::tensor_models(outs@)),
            r matches Err(e) ==> run_model(old(self).plan.graph(), crate::ops::tensor_models(inputs@))
                == Err::<Seq<TensorModel>, TractError>(e),
            r matches Ok(outs) ==> outs@.len() == old(self).plan.graph().outputs.len(),
            r matches Ok(outs) ==> forall|k: int| 0 <= k < outs@.len() ==> (#[trigger] outs@[k])@.wf(),
            r is Ok ==> final(self).values@.len() == old(self).plan.graph().nodes.len()
                && forall|m: int| 0 <= m < final(self).values@.len() && (#[trigger] final(self).values@[m]) is Some
                    ==> is_output_node(old(self).plan.graph(), m),
    {
        let ghost g = self.plan.graph();
        let ghost insm = crate::ops::tensor_models(inputs@);
        proof {
            assert(greedy_order(g, self.plan.order@) && self.plan.order@.len() == g.nodes.len());
            let p = plan_order(g);
            assert(greedy_order(g, p) && p.len() == g.nodes.len());
            lemma_order_deterministic(g, self.plan.order@, p);
        }
        let raw = self.plan.model.raw();
        let n = raw.nodes.len();
        if inputs.len() != raw.inputs.len() {
            return Err(TractError::ArityError { expected: raw.inputs.len(), got: inputs.len() });
        }
        let mut values: Vec<Option<Tensor>> = Vec::new();
        let mut i: usize = 0;
        while i < n
            invariant
                0 <= i <= n,
                values@.len() == i,
                forall|m: int| 0 <= m < i ==> values@[m] is None,
            decreases n - i,
        {
            values.push(None);
            i += 1;
        }
        assert(opt_models(values@) =~= Seq::new(g.nodes.len(), |i: int| None::<TensorModel>));
        let mut inputs = inputs;
        let mut k: usize = inputs.len();
        while k > 0
            invariant
                inputs@.len() == k,
                k <= g.inputs.len(),
                values@.len() == n,
                forall|m: int| 0 <= m < n ==> (#[trigger] values@[m] matches Some(t) ==> t@.wf()),
                forall|j: int| 0 <= j < k ==> (#[trigger] inputs@[j])@.wf(),
                forall|j: int| 0 <= j < k ==> (#[trigger] inputs@[j])@ == insm[j],
                insm.len() == g.inputs.len(),
                bind(g, insm, k as int) == Ok::<Seq<Option<TensorModel>>, TractError>(opt_models(values@)),
            decreases k,
        {
            k -= 1;
            let t = inputs.pop().unwrap();
            let target = raw.inputs[k];
            assert(valid_outlet(g, g.inputs[k as int]));
            assert(g.nodes[target.node as int] == raw.nodes@[target.node as int]@);
            assert(t@ == insm[k as int]);
            if let Op::Source { datum_type } = &raw.nodes[target.node].op {
                if *datum_type != t.datum_type {
                    proof { lemma_bind_error_kept(g, insm, 0, k as int); }
                    return Err(TractError::DtypeError { expected: *datum_type, got: t.datum_type });
                }
            }
            let ghost before = values@;
            let ghost tv = t@;
            values.set(target.node, Some(t));
            assert(opt_models(values@) =~= opt_models(before).update(target.node as int, Some(tv)));
        }
        let ghost b = opt_models(values@);
        let ghost mut full = b;
        let mut step: usize = 0;
        while step < n
            invariant
                0 <= step <= n,
                values@.len() == n,
                forall|m: int| 0 <= m < n ==> (#[trigger] values@[m] matches Some(t) ==> t@.wf()),
                forall|m: int| 0 <= m < n && self.plan.step_of@[m] < step && #[trigger] values@[m] is Some
                    ==> self.plan.is_output@[m] || self.plan.last_use@[m] >= step,
                forall|m: int| 0 <= m < n && self.plan.step_of@[m] < step
                    && (self.plan.is_output@[m] || self.plan.last_use@[m] >= step) ==> #[trigger] values@[m] is Some,
                full.len() == n,
                run_steps(g, self.plan.order@, b, step as int) == Ok::<Seq<Option<TensorModel>>, TractError>(full),
                forall|m: int| 0 <= m < n && (#[trigger] values@[m]) is Some ==> full[m] == Some(values@[m]->Some_0@),
                forall|m: int| 0 <= m < n && self.plan.step_of@[m] < step ==> (#[trigger] full[m]) is Some,
                forall|m: int| 0 <= m < n && self.plan.step_of@[m] >= step ==> ((#[trigger] values@[m]) is Some <==> full[m] is Some),
            decreases n - step,
        {
            let c = self.plan.order[step];
            let node = &raw.nodes[c];
            assert(g.nodes[c as int] == node@);
            assert(self.plan.step_of@[c as int] == step);
            let ghost fc = full;
            let value = if let Op::Source { .. } = &node.op {
                match values[c].clone() {
                    Some(v) => v,
                    None => {
                        proof { lemma_run_error_kept(g, self.plan.order@, b, step + 1, n as int); }
                        return Err(TractError::InvalidGraph);
                    },
                }
            } else {
                let mut ins: Vec<Tensor> = Vec::new();
                let mut q: usize = 0;
                while q < node.inputs.len()
                    invariant
                        0 <= q <= node.inputs@.len(),
                        ins@.len() == q,
                        forall|j: int| 0 <= j < q ==> (#[trigger] ins@[j])@.wf(),
                        forall|j: int| 0 <= j < q ==> full[node.inputs@[j].node as int] == Some((#[trigger] ins@[j])@),
                    decreases node.inputs.len() - q,
                {
                    let src = node.inputs[q].node;
                    proof {
                        assert(valid_outlet(g, g.nodes[c as int].inputs[q as int]));
                        assert(ready(g, self.plan.order@.subrange(0, step as int), c as int));
                        assert(self.plan.order@.subrange(0, step as int).contains(src));
                        let j = choose|j: int| 0 <= j < step && self.plan.order@.subrange(0, step as int)[j] == src;
                        assert(self.plan.order@[j] == src);
                        assert(self.plan.step_of@[src as int] == j);
                        assert(self.plan.step_of@[c as int] == step);
                        assert(self.plan.last_use@[g.nodes[c as int].inputs[q as int].node as int] >= step);
                    }
                    match &values[src] {
                        Some(t) => ins.push(t.clone()),
                        None => return Err(TractError::InvalidGraph),
                    }
                    q += 1;
                }
                proof {
                    assert forall|q: int| 0 <= q < node.inputs@.len() implies !((#[trigger] full[node@.inputs[q].node as int]) is None) by {
                        assert(full[node.inputs@[q].node as int] == Some(ins@[q]@));
                    }
                    assert(crate::ops::tensor_models(ins@) =~= node@.inputs.map_values(|o: OutletId| full[o.node as int]->Some_0));
                }
                match node.op.eval(ins) {
                    Ok(v) => v,
                    Err(e) => {
                        proof { lemma_run_error_kept(g, self.plan.order@, b, step + 1, n as int); }
                        return Err(e);
                    },
                }
            };
            let ghost vv = value@;
            let ghost pre = values@;
            values.set(c, Some(value));
            proof {
                if !(node@.op is Source) {
                    full = full.update(c as int, Some(vv));
                }
                assert(run_steps(g, self.plan.order@, b, step + 1) == Ok::<Seq<Option<TensorModel>>, TractError>(full));
            }
            let ghost kept = values@;
            proof {
                assert(self.plan.step_of@[c as int] == step);
                assert forall|j: int| 0 <= j < n && self.plan.step_of@[j] == step implies j == c by {
                    assert(self.plan.order@[self.plan.step_of@[j] as int] == j);
                }
            }
            let mut m: usize = 0;
            while m < n
                invariant
                    0 <= m <= n,
                    values@.len() == n,
                    forall|j: int| 0 <= j < n ==> (#[trigger] values@[j] matches Some(t) ==> t@.wf()),
                    values@[c as int] is Some || (m > c && !self.plan.is_output@[c as int] && self.plan.last_use@[c as int] == step),
                    forall|j: int| 0 <= j < m && #[trigger] values@[j] is Some ==> self.plan.is_output@[j] || self.plan.last_use@[j] != step,
                    forall|j: int| 0 <= j < n && #[trigger] values@[j] is Some ==> kept[j] is Some && values@[j] == kept[j],
                    forall|j: int| m <= j < n ==> #[trigger] values@[j] == kept[j],
                    forall|j: int| 0 <= j < m && kept[j] is Some && (self.plan.is_output@[j] || self.plan.last_use@[j] != step)
                        ==> #[trigger] values@[j] is Some,
                decreases n - m,
            {
                if !self.plan.is_output[m] && self.plan.last_use[m] == step {
                    values.set(m, None);
                }
                m += 1;
            }
            step += 1;
        }
        let mut outs: Vec<Tensor> = Vec::new();
        let mut k: usize = 0;
        while k < raw.outputs.len()
            invariant
                0 <= k <= raw.outputs@.len(),
                outs@.len() == k,
                forall|j: int| 0 <= j < k ==> (#[trigger] outs@[j])@.wf(),
                forall|j: int| 0 <= j < k ==> (#[trigger] outs@[j])@ == full[g.outputs[j].node as int]->Some_0,
            decreases raw.outputs.len() - k,
        {
            let o = raw.outputs[k].node;
            proof {
                assert(valid_outlet(g, g.outputs[k as int]));
                assert(is_output_node(g, o as int));
            }
            match &values[o] {
                Some(t) => outs.push(t.clone()),
                None => return Err(TractError::InvalidGraph),
            }
            k += 1;
        }
        assert(crate::ops::tensor_models(outs@) =~= g.outputs.map_values(|o: OutletId| full[o.node as int]->Some_0));
        self.values = values;
        Ok(outs)
    }
}

} // verus!
