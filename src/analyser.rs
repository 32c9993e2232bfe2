//! The inference solver: refines the fact of every outlet by the rules of
//! the operators until nothing changes.
use vstd::prelude::*;
use crate::errors::{Attribute, TractError};
use crate::fact::{lemma_unify_laws, refines, unify, unify_model, FactModel, TensorFact};
use crate::model::{GraphModel, OutletId, RawModel};
use crate::plan::{eval_order, greedy_order, lemma_order_deterministic};
use crate::rules::{rules, rules_model};

verus! {

/// The mathematical facts of a vector of facts.
pub open spec fn models(v: Seq<TensorFact>) -> Seq<FactModel> {
    v.map_values(|f: TensorFact| f@)
}

/// `facts` after unifying, one input after the other, the facts `implied` at
/// the first `k` inputs of node `n`.
pub open spec fn absorb_inputs(
    facts: Seq<FactModel>,
    inputs: Seq<OutletId>,
    implied: Seq<FactModel>,
    k: int,
    n: usize,
) -> Result<Seq<FactModel>, TractError>
    decreases k,
{
    if k <= 0 {
        Ok(facts)
    } else {
        match absorb_inputs(facts, inputs, implied, k - 1, n) {
            Err(e) => Err(e),
            Ok(f) => {
                let o = inputs[k - 1].node as int;
                match unify_model(f[o], implied[k - 1]) {
                    Err(a) => Err(TractError::InferenceContradiction { node: n, attribute: a }),
                    Ok(z) => Ok(f.update(o, z)),
                }
            },
        }
    }
}

/// The facts of the inputs of node `n`.
pub open spec fn input_facts(g: GraphModel, n: int, facts: Seq<FactModel>) -> Seq<FactModel> {
    g.nodes[n].inputs.map_values(|o: OutletId| facts[o.node as int])
}

/// `facts` once the rules of node `n` are applied.
pub open spec fn step_model(g: GraphModel, n: usize, facts: Seq<FactModel>) -> Result<Seq<FactModel>, TractError> {
    let node = g.nodes[n as int];
    match rules_model(node.op, input_facts(g, n as int, facts), facts[n as int]) {
        None => Ok(facts),
        Some(implied) => match absorb_inputs(facts, node.inputs, implied.0, node.inputs.len() as int, n) {
            Err(e) => Err(e),
            Ok(f) => match unify_model(f[n as int], implied.1) {
                Err(a) => Err(TractError::InferenceContradiction { node: n, attribute: a }),
                Ok(z) => Ok(f.update(n as int, z)),
            },
        },
    }
}

/// `facts` once the rules of the nodes of `order` are applied in turn.
pub open spec fn pass_model(g: GraphModel, order: Seq<usize>, facts: Seq<FactModel>) -> Result<Seq<FactModel>, TractError>
    decreases order.len(),
{
    if order.len() == 0 {
        Ok(facts)
    } else {
        match pass_model(g, order.drop_last(), facts) {
            Err(e) => Err(e),
            Ok(f) => step_model(g, order.last(), f),
        }
    }
}

/// `s` backwards.
pub open spec fn reversed(s: Seq<usize>) -> Seq<usize> {
    Seq::new(s.len(), |i: int| s[s.len() - 1 - i])
}

/// One round of the solver: a forward pass in plan order, then a backward
/// pass in the reverse order.
pub open spec fn round_model(g: GraphModel, order: Seq<usize>, facts: Seq<FactModel>) -> Result<Seq<FactModel>, TractError> {
    match pass_model(g, order, facts) {
        Err(e) => Err(e),
        Ok(f) => pass_model(g, reversed(order), f),
    }
}

/// The plan order of `g` (see `eval_order`).
pub open spec fn plan_order(g: GraphModel) -> Seq<usize> {
    choose|o: Seq<usize>| greedy_order(g, o) && o.len() == g.nodes.len()
}

/// Whether a round leaves `facts` as they are.
pub open spec fn is_fixed_point(g: GraphModel, facts: Seq<FactModel>) -> bool {
    round_model(g, plan_order(g), facts) == Ok::<Seq<FactModel>, TractError>(facts)
}

/// Every fact of `a` refines the fact at the same outlet in `b`.
pub open spec fn all_refine(a: Seq<FactModel>, b: Seq<FactModel>) -> bool {
    a.len() == b.len() && forall|i: int| 0 <= i < a.len() ==> refines(#[trigger] a[i], b[i])
}

/// Refinement is reflexive and transitive.
pub proof fn lemma_refines_order(a: FactModel, b: FactModel, c: FactModel)
    ensures
        refines(a, a),
        refines(a, b) && refines(b, c) ==> refines(a, c),
{
    if refines(a, b) && refines(b, c) {
        assert forall|i: int| 0 <= i < c.shape.dims.len() && (#[trigger] c.shape.dims[i]) is Only
            implies a.shape.dims[i] == c.shape.dims[i] by {
            assert(b.shape.dims[i] == c.shape.dims[i]);
        }
    }
}

pub proof fn lemma_all_refine_trans(a: Seq<FactModel>, b: Seq<FactModel>, c: Seq<FactModel>)
    requires
        all_refine(a, b),
        all_refine(b, c),
    ensures
        all_refine(a, c),
{
    assert forall|i: int| 0 <= i < a.len() implies refines(#[trigger] a[i], c[i]) by {
        lemma_refines_order(a[i], b[i], c[i]);
    }
}

proof fn lemma_all_refine_self(a: Seq<FactModel>)
    ensures
        all_refine(a, a),
{
    assert forall|i: int| 0 <= i < a.len() implies refines(#[trigger] a[i], a[i]) by {
        lemma_refines_order(a[i], a[i], a[i]);
    }
}

/// Unifying one fact into a vector refines it.
proof fn lemma_update_refines(f: Seq<FactModel>, o: int, x: FactModel)
    requires
        0 <= o < f.len(),
        unify_model(f[o], x) is Ok,
    ensures
        all_refine(f.update(o, unify_model(f[o], x)->Ok_0), f),
{
    lemma_unify_laws(f[o], x);
    let g = f.update(o, unify_model(f[o], x)->Ok_0);
    assert forall|i: int| 0 <= i < g.len() implies refines(#[trigger] g[i], f[i]) by {
        lemma_refines_order(f[i], f[i], f[i]);
    }
}

proof fn lemma_absorb_refines(
    facts: Seq<FactModel>,
    inputs: Seq<OutletId>,
    implied: Seq<FactModel>,
    k: int,
    n: usize,
)
    requires
        0 <= k <= inputs.len(),
        forall|j: int| 0 <= j < inputs.len() ==> (#[trigger] inputs[j]).node < facts.len(),
    ensures
        absorb_inputs(facts, inputs, implied, k, n) matches Ok(r) ==> all_refine(r, facts),
    decreases k,
{
    if k <= 0 {
        lemma_all_refine_self(facts);
    } else {
        lemma_absorb_refines(facts, inputs, implied, k - 1, n);
        if let Ok(f) = absorb_inputs(facts, inputs, implied, k - 1, n) {
            let o = inputs[k - 1].node as int;
            if unify_model(f[o], implied[k - 1]) is Ok {
                lemma_update_refines(f, o, implied[k - 1]);
                lemma_all_refine_trans(f.update(o, unify_model(f[o], implied[k - 1])->Ok_0), f, facts);
            }
        }
    }
}

/// A pass never widens a fact: each fact after it refines the same fact
/// before it.
pub proof fn lemma_pass_monotone(g: GraphModel, order: Seq<usize>, facts: Seq<FactModel>)
    requires
        g.wf(),
        facts.len() == g.nodes.len(),
        forall|k: int| 0 <= k < order.len() ==> #[trigger] order[k] < g.nodes.len(),
    ensures
        pass_model(g, order, facts) matches Ok(r) ==> all_refine(r, facts),
    decreases order.len(),
{
    if order.len() == 0 {
        lemma_all_refine_self(facts);
    } else {
        let init = order.drop_last();
        assert forall|k: int| 0 <= k < init.len() implies #[trigger] init[k] < g.nodes.len() by {
            assert(init[k] == order[k]);
        }
        lemma_pass_monotone(g, init, facts);
        if let Ok(f) = pass_model(g, init, facts) {
            let n = order.last();
            let node = g.nodes[n as int];
            assert forall|j: int| 0 <= j < node.inputs.len() implies (#[trigger] node.inputs[j]).node < f.len() by {
                assert(crate::model::valid_outlet(g, g.nodes[n as int].inputs[j]));
            }
            if let Some(implied) = rules_model(node.op, input_facts(g, n as int, f), f[n as int]) {
                lemma_absorb_refines(f, node.inputs, implied.0, node.inputs.len() as int, n);
                if let Ok(h) = absorb_inputs(f, node.inputs, implied.0, node.inputs.len() as int, n) {
                    if unify_model(h[n as int], implied.1) is Ok {
                        lemma_update_refines(h, n as int, implied.1);
                        lemma_all_refine_trans(h.update(n as int, unify_model(h[n as int], implied.1)->Ok_0), h, f);
                        lemma_all_refine_trans(h.update(n as int, unify_model(h[n as int], implied.1)->Ok_0), f, facts);
                    }
                }
            }
        }
    }
}

/// Applies the rules of node `n` to `facts`.
#[verifier::loop_isolation(false)]
fn step(model: &RawModel, n: usize, facts: &mut Vec<TensorFact>) -> (r: Result<(), TractError>)
    requires
        model@.wf(),
        n < model@.nodes.len(),
        old(facts)@.len() == model@.nodes.len(),
    ensures
        final(facts)@.len() == old(facts)@.len(),
        r is Ok ==> step_model(model@, n, models(old(facts)@)) == Ok::<Seq<FactModel>, TractError>(models(final(facts)@)),
        r matches Err(e) ==> step_model(model@, n, models(old(facts)@)) == Err::<Seq<FactModel>, TractError>(e),
{
    let ghost g = model@;
    let ghost f0 = models(facts@);
    let node = &model.nodes[n];
    assert(g.nodes[n as int] == node@);
    let mut ins: Vec<TensorFact> = Vec::new();
    let mut k: usize = 0;
    while k < node.inputs.len()
        invariant
            0 <= k <= node.inputs@.len(),
            facts@.len() == g.nodes.len(),
            models(facts@) == f0,
            ins@.len() == k,
            forall|j: int| 0 <= j < k ==> (#[trigger] ins@[j])@ == f0[node.inputs@[j].node as int],
        decreases node.inputs.len() - k,
    {
        assert(crate::model::valid_outlet(g, g.nodes[n as int].inputs[k as int]));
        let o = node.inputs[k].node;
        ins.push(facts[o].clone());
        k += 1;
    }
    assert(models(ins@) =~= input_facts(g, n as int, f0));
    assert(f0[n as int] == facts@[n as int]@);
    let (implied_ins, implied_out) = match rules(&node.op, &ins, &facts[n]) {
        Some(p) => p,
        None => return Ok(()),
    };
    let ghost implied = rules_model(node@.op, input_facts(g, n as int, f0), f0[n as int])->Some_0;
    assert(f0[n as int] == facts@[n as int]@);
    assert(models(implied_ins@) == implied.0);
    let mut k: usize = 0;
    while k < node.inputs.len()
        invariant
            0 <= k <= node.inputs@.len(),
            facts@.len() == g.nodes.len(),
            absorb_inputs(f0, node@.inputs, implied.0, k as int, n) == Ok::<Seq<FactModel>, TractError>(models(facts@)),
            implied_ins@.len() == node.inputs@.len(),
            models(implied_ins@) == implied.0,
        decreases node.inputs.len() - k,
    {
        assert(crate::model::valid_outlet(g, g.nodes[n as int].inputs[k as int]));
        let o = node.inputs[k].node;
        assert(implied_ins@[k as int]@ == implied.0[k as int]);
        match unify(&facts[o], &implied_ins[k]) {
            Ok(z) => {
                let ghost before = facts@;
                facts.set(o, z);
                assert(models(facts@) =~= models(before).update(o as int, z@));
            },
            Err(a) => {
                proof { lemma_absorb_error_kept(f0, node@.inputs, implied.0, k as int + 1, node@.inputs.len() as int, n); }
                return Err(TractError::InferenceContradiction { node: n, attribute: a });
            },
        }
        k += 1;
    }
    match unify(&facts[n], &implied_out) {
        Ok(z) => {
            let ghost before = facts@;
            facts.set(n, z);
            assert(models(facts@) =~= models(before).update(n as int, z@));
            Ok(())
        },
        Err(a) => Err(TractError::InferenceContradiction { node: n, attribute: a }),
    }
}

/// Applies the rules of the nodes of `order` in turn.
#[verifier::loop_isolation(false)]
fn pass(model: &RawModel, order: &Vec<usize>, facts: &mut Vec<TensorFact>) -> (r: Result<(), TractError>)
    requires
        model@.wf(),
        forall|k: int| 0 <= k < order@.len() ==> #[trigger] order@[k] < model@.nodes.len(),
        old(facts)@.len() == model@.nodes.len(),
    ensures
        final(facts)@.len() == old(facts)@.len(),
        r is Ok ==> pass_model(model@, order@, models(old(facts)@)) == Ok::<Seq<FactModel>, TractError>(models(final(facts)@)),
        r matches Err(e) ==> pass_model(model@, order@, models(old(facts)@)) == Err::<Seq<FactModel>, TractError>(e),
{
    let ghost f0 = models(facts@);
    let mut i: usize = 0;
    assert(order@.subrange(0, 0) =~= Seq::<usize>::empty());
    while i < order.len()
        invariant
            0 <= i <= order@.len(),
            facts@.len() == model@.nodes.len(),
            pass_model(model@, order@.subrange(0, i as int), f0) == Ok::<Seq<FactModel>, TractError>(models(facts@)),
        decreases order.len() - i,
    {
        assert(order@.subrange(0, i + 1).drop_last() =~= order@.subrange(0, i as int));
        assert(order@.subrange(0, i + 1).last() == order@[i as int]);
        match step(model, order[i], facts) {
            Ok(()) => {},
            Err(e) => {
                proof { lemma_pass_error_kept(model@, order@, f0, i as int + 1); }
                return Err(e);
            },
        }
        i += 1;
    }
    assert(order@.subrange(0, order@.len() as int) =~= order@);
    Ok(())
}

/// Once a prefix of the order fails, the whole pass fails the same way, and
/// a pass only fails on a contradiction.
proof fn lemma_pass_error_kept(g: GraphModel, order: Seq<usize>, facts: Seq<FactModel>, j: int)
    requires
        0 <= j <= order.len(),
    ensures
        pass_model(g, order.subrange(0, j), facts) is Err
            ==> pass_model(g, order, facts) == pass_model(g, order.subrange(0, j), facts),
        pass_model(g, order, facts) matches Err(e) ==> e is InferenceContradiction,
    decreases order.len(), order.len() - j,
{
    if j < order.len() {
        lemma_pass_error_kept(g, order, facts, j + 1);
        assert(order.subrange(0, j + 1).drop_last() =~= order.subrange(0, j));
    } else {
        assert(order.subrange(0, j) =~= order);
        if order.len() > 0 {
            lemma_pass_error_kept(g, order.drop_last(), facts, 0);
            if let Ok(f) = pass_model(g, order.drop_last(), facts) {
                lemma_step_error(g, order.last(), f);
            }
        }
    }
}

proof fn lemma_step_error(g: GraphModel, n: usize, facts: Seq<FactModel>)
    ensures
        step_model(g, n, facts) matches Err(e) ==> e is InferenceContradiction,
{
    let node = g.nodes[n as int];
    if let Some(implied) = rules_model(node.op, input_facts(g, n as int, facts), facts[n as int]) {
        lemma_absorb_error(facts, node.inputs, implied.0, node.inputs.len() as int, n);
    }
}

/// Once unifying the first `j` inputs fails, unifying more fails the same way.
proof fn lemma_absorb_error_kept(facts: Seq<FactModel>, inputs: Seq<OutletId>, implied: Seq<FactModel>, j: int, k: int, n: usize)
    requires
        0 < j <= k,
        absorb_inputs(facts, inputs, implied, j, n) is Err,
    ensures
        absorb_inputs(facts, inputs, implied, k, n) == absorb_inputs(facts, inputs, implied, j, n),
    decreases k - j,
{
    if j < k {
        lemma_absorb_error_kept(facts, inputs, implied, j, k - 1, n);
    }
}

proof fn lemma_absorb_error(facts: Seq<FactModel>, inputs: Seq<OutletId>, implied: Seq<FactModel>, k: int, n: usize)
    ensures
        absorb_inputs(facts, inputs, implied, k, n) matches Err(e) ==> e is InferenceContradiction,
    decreases k,
{
    if k > 0 {
        lemma_absorb_error(facts, inputs, implied, k - 1, n);
    }
}

/// Whether two vectors of facts say the same.
fn same_facts(a: &Vec<TensorFact>, b: &Vec<TensorFact>) -> (r: bool)
    ensures
        r == (models(a@) == models(b@)),
{
    if a.len() != b.len() {
        assert(models(a@).len() != models(b@).len());
        return false;
    }
    let mut i: usize = 0;
    while i < a.len()
        invariant
            a@.len() == b@.len(),
            0 <= i <= a@.len(),
            forall|j: int| 0 <= j < i ==> a@[j]@ == b@[j]@,
        decreases a.len() - i,
    {
        if !a[i].same_as(&b[i]) {
            assert(models(a@)[i as int] != models(b@)[i as int]);
            return false;
        }
        i += 1;
    }
    assert(models(a@) =~= models(b@));
    true
}

/// Whether the graph has a complete plan order, that is, no cycle.
pub open spec fn schedulable(g: GraphModel) -> bool {
    exists|o: Seq<usize>| greedy_order(g, o) && o.len() == g.nodes.len()
}

/// The number of rounds the solver may run: 100 × node count, and 100 for a
/// graph without nodes.
pub open spec fn round_cap(n: nat) -> nat {
    if n == 0 { 100 } else if 100 * n > usize::MAX { usize::MAX as nat } else { 100 * n }
}

/// The solver from `facts` with at most `fuel` rounds left: a round that
/// changes nothing ends it with those facts, a failing round ends it with
/// its error, and running out of rounds is `NotConverged` with the cap.
pub open spec fn iterate(g: GraphModel, facts: Seq<FactModel>, fuel: nat, cap: nat) -> Result<Seq<FactModel>, TractError>
    decreases fuel,
{
    if fuel == 0 {
        Err(TractError::NotConverged { rounds: cap as usize })
    } else {
        match round_model(g, plan_order(g), facts) {
            Err(e) => Err(e),
            Ok(f) => if f == facts { Ok(facts) } else { iterate(g, f, (fuel - 1) as nat, cap) },
        }
    }
}

/// What the solver computes on `g` from `facts` (see `analyse`).
pub open spec fn analyse_model(g: GraphModel, facts: Seq<FactModel>) -> Result<Seq<FactModel>, TractError> {
    if !schedulable(g) {
        Err(TractError::InvalidGraph)
    } else {
        iterate(g, facts, round_cap(g.nodes.len()), round_cap(g.nodes.len()))
    }
}

/// The solver stops only at a fixed point.
proof fn lemma_iterate_fixed(g: GraphModel, facts: Seq<FactModel>, fuel: nat, cap: nat)
    ensures
        iterate(g, facts, fuel, cap) matches Ok(r) ==> round_model(g, plan_order(g), r) == Ok::<Seq<FactModel>, TractError>(r),
    decreases fuel,
{
    if fuel > 0 {
        if let Ok(f) = round_model(g, plan_order(g), facts) {
            if f != facts {
                lemma_iterate_fixed(g, f, (fuel - 1) as nat, cap);
            }
        }
    }
}

/// A dtype clash is fatal: when a node's rules imply, for an outlet it
/// reads or for its own output, an element type other than the known one,
/// the step fails with a contradiction on the element type naming the node.
pub proof fn lemma_dtype_clash(g: GraphModel, n: usize, facts: Seq<FactModel>, k: int)
    requires
        rules_model(g.nodes[n as int].op, input_facts(g, n as int, facts), facts[n as int]) matches Some(implied) && {
            let inputs = g.nodes[n as int].inputs;
            &&& -1 <= k < inputs.len()
            &&& absorb_inputs(facts, inputs, implied.0, if k < 0 { inputs.len() as int } else { k }, n) matches Ok(f) && {
                let (known, wanted) = if k < 0 { (f[n as int], implied.1) } else { (f[inputs[k].node as int], implied.0[k]) };
                known.datum_type is Only && wanted.datum_type is Only && known.datum_type != wanted.datum_type
            }
        },
    ensures
        step_model(g, n, facts) == Err::<Seq<FactModel>, TractError>(
            TractError::InferenceContradiction { node: n, attribute: Attribute::DatumType }),
{
    let implied = rules_model(g.nodes[n as int].op, input_facts(g, n as int, facts), facts[n as int])->Some_0;
    let inputs = g.nodes[n as int].inputs;
    if k >= 0 {
        lemma_absorb_error_kept(facts, inputs, implied.0, k + 1, inputs.len() as int, n);
    }
}

/// A round that fails ends the solver with its error.
pub proof fn lemma_failed_round(g: GraphModel, facts: Seq<FactModel>)
    requires
        schedulable(g),
        round_model(g, plan_order(g), facts) is Err,
    ensures
        analyse_model(g, facts) == Err::<Seq<FactModel>, TractError>(round_model(g, plan_order(g), facts)->Err_0),
{
}

/// Solver idempotence: analysing the result of the solver again gives it
/// back unchanged.
pub proof fn lemma_analyse_idempotent(g: GraphModel, facts: Seq<FactModel>)
    ensures
        analyse_model(g, facts) matches Ok(r) ==> analyse_model(g, r) == Ok::<Seq<FactModel>, TractError>(r),
{
    let cap = round_cap(g.nodes.len());
    lemma_iterate_fixed(g, facts, cap, cap);
}

/// Runs the solver on `model` from the facts `facts`, one per node: rounds
/// of a forward and a backward pass in plan order until a round changes
/// nothing. The result is `analyse_model`: a fixed point of the rules that
/// refines the facts given, the first contradiction, `InvalidGraph` on a
/// cycle, or `NotConverged` after `100 × node count` rounds. Facts that
/// already are a fixed point come back unchanged.
pub fn analyse(model: &RawModel, facts: Vec<TensorFact>) -> (r: Result<Vec<TensorFact>, TractError>)
    requires
        model@.wf(),
        facts@.len() == model@.nodes.len(),
    ensures
        r matches Ok(f) ==> analyse_model(model@, models(facts@)) == Ok::<Seq<FactModel>, TractError>(models(f@)),
        r matches Err(e) ==> analyse_model(model@, models(facts@)) == Err::<Seq<FactModel>, TractError>(e),
        r matches Err(e) ==> e is InvalidGraph || e is InferenceContradiction || e is NotConverged,
        r matches Ok(f) ==> is_fixed_point(model@, models(f@)) && all_refine(models(f@), models(facts@)),
        r matches Err(TractError::InvalidGraph) <==> !schedulable(model@),
        schedulable(model@) && is_fixed_point(model@, models(facts@)) ==> (r matches Ok(f) && models(f@) == models(facts@)),
{
    let ghost g = model@;
    let order = match eval_order(model) {
        Ok(o) => o,
        Err(e) => {
            proof {
                if schedulable(g) {
                    let o = choose|o: Seq<usize>| greedy_order(g, o) && o.len() == g.nodes.len();
                    let done = choose|done: Seq<usize>| greedy_order(g, done) && #[trigger] crate::plan::stuck(g, done);
                    lemma_stuck_not_complete(g, o, done);
                }
            }
            return Err(e);
        },
    };
    proof {
        let p = plan_order(g);
        assert(greedy_order(g, order@) && order@.len() == g.nodes.len());
        assert(greedy_order(g, p) && p.len() == g.nodes.len());
        lemma_order_deterministic(g, order@, p);
        assert(schedulable(g));
        assert forall|k: int| 0 <= k < order@.len() implies #[trigger] order@[k] < g.nodes.len() by {
            assert(crate::plan::ready(g, order@.subrange(0, k), order@[k] as int));
        }
    }
    let mut back: Vec<usize> = Vec::new();
    let mut i: usize = 0;
    while i < order.len()
        invariant
            0 <= i <= order@.len(),
            back@.len() == i,
            forall|j: int| 0 <= j < i ==> back@[j] == order@[order@.len() - 1 - j],
        decreases order.len() - i,
    {
        back.push(order[order.len() - 1 - i]);
        i += 1;
    }
    assert(back@ =~= reversed(order@));
    let n = model.nodes.len();
    let cap: usize = if n == 0 { 100 } else { match n.checked_mul(100) { Some(c) => c, None => usize::MAX } };
    assert(cap == round_cap(g.nodes.len()));
    let mut current = facts;
    let ghost f0 = models(current@);
    let mut rounds: usize = 0;
    proof { lemma_all_refine_self(f0); }
    while rounds < cap
        invariant
            rounds <= cap,
            cap == round_cap(g.nodes.len()),
            iterate(g, f0, cap as nat, cap as nat) == iterate(g, models(current@), (cap - rounds) as nat, cap as nat),
            model@ == g,
            g.wf(),
            order@ == plan_order(g),
            back@ == reversed(order@),
            forall|k: int| 0 <= k < order@.len() ==> #[trigger] order@[k] < g.nodes.len(),
            current@.len() == g.nodes.len(),
            all_refine(models(current@), f0),
            rounds == 0 ==> models(current@) == f0,
            is_fixed_point(g, f0) ==> rounds == 0,
            cap >= 1,
            schedulable(g),
            f0 == models(facts@),
        decreases cap - rounds,
    {
        let mut next = clone_facts(&current);
        let ghost start = models(next@);
        match pass(model, &order, &mut next) {
            Ok(()) => {},
            Err(e) => {
                proof {
                    lemma_pass_error_kept(g, order@, start, order@.len() as int);
                }
                return Err(e);
            },
        }
        let ghost mid = models(next@);
        assert forall|k: int| 0 <= k < back@.len() implies #[trigger] back@[k] < g.nodes.len() by {
            assert(back@[k] == order@[order@.len() - 1 - k]);
        }
        match pass(model, &back, &mut next) {
            Ok(()) => {},
            Err(e) => {
                proof { lemma_pass_error_kept(g, back@, mid, back@.len() as int); }
                return Err(e);
            },
        }
        proof {
            lemma_pass_monotone(g, order@, start);
            lemma_pass_monotone(g, back@, mid);
            lemma_all_refine_trans(models(next@), mid, start);
            lemma_all_refine_trans(models(next@), start, f0);
        }
        if same_facts(&next, &current) {
            return Ok(current);
        }
        current = next;
        rounds += 1;
    }
    assert(iterate(g, models(current@), 0, cap as nat) == Err::<Seq<FactModel>, TractError>(TractError::NotConverged { rounds: cap }));
    Err(TractError::NotConverged { rounds: cap })
}

/// A copy of a vector of facts.
fn clone_facts(v: &Vec<TensorFact>) -> (r: Vec<TensorFact>)
    ensures
        models(r@) == models(v@),
{
    let mut r: Vec<TensorFact> = Vec::new();
    let mut i: usize = 0;
    while i < v.len()
        invariant
            0 <= i <= v@.len(),
            r@.len() == i,
            forall|j: int| 0 <= j < i ==> (#[trigger] r@[j])@ == v@[j]@,
        decreases v.len() - i,
    {
        r.push(v[i].clone());
        i += 1;
    }
    assert(models(r@) =~= models(v@));
    r
}

/// A graph with a complete greedy order never gets stuck.
pub proof fn lemma_stuck_not_complete(g: GraphModel, o: Seq<usize>, done: Seq<usize>)
    requires
        greedy_order(g, o),
        o.len() == g.nodes.len(),
        greedy_order(g, done),
    ensures
        !crate::plan::stuck(g, done),
{
    if done.len() < o.len() {
        let k = done.len() as int;
        lemma_prefix_of(g, o, done, k);
        assert(done.subrange(0, k) =~= done);
        assert(crate::plan::ready(g, o.subrange(0, k), o[k] as int));
    }
}

/// A greedy order that is not longer agrees with a complete one on its length.
proof fn lemma_prefix_of(g: GraphModel, o: Seq<usize>, done: Seq<usize>, k: int)
    requires
        greedy_order(g, o),
        greedy_order(g, done),
        0 <= k <= done.len(),
        done.len() < o.len(),
    ensures
        o.subrange(0, k) == done.subrange(0, k),
    decreases k,
{
    if k > 0 {
        let p = k - 1;
        lemma_prefix_of(g, o, done, p);
        assert(crate::plan::ready(g, o.subrange(0, p), o[p] as int));
        assert(crate::plan::ready(g, done.subrange(0, p), done[p] as int));
        if o[p] < done[p] {
            assert(!crate::plan::ready(g, done.subrange(0, p), o[p] as int));
        } else if done[p] < o[p] {
            assert(!crate::plan::ready(g, o.subrange(0, p), done[p] as int));
        }
        assert(o.subrange(0, k) =~= o.subrange(0, p).push(o[p]));
        assert(done.subrange(0, k) =~= done.subrange(0, p).push(done[p]));
    } else {
        assert(o.subrange(0, k) =~= done.subrange(0, k));
    }
}

} // verus!
