//! Execution order of a graph: Kahn's algorithm, taking among the nodes whose
//! inputs are all computed the one with the smallest id.
use vstd::prelude::*;
use crate::errors::TractError;
use crate::model::{GraphModel, RawModel};

verus! {

/// Node `m` is not in `done` and all the nodes it reads are.
pub open spec fn ready(g: GraphModel, done: Seq<usize>, m: int) -> bool {
    &&& 0 <= m < g.nodes.len()
    &&& !done.contains(m as usize)
    &&& forall|k: int| 0 <= k < g.nodes[m].inputs.len()
        ==> done.contains((#[trigger] g.nodes[m].inputs[k]).node)
}

/// Every node of `order` is, when its turn comes, the ready node with the
/// smallest id.
pub open spec fn greedy_order(g: GraphModel, order: Seq<usize>) -> bool {
    forall|k: int| 0 <= k < order.len() ==> {
        &&& ready(g, order.subrange(0, k), #[trigger] order[k] as int)
        &&& forall|m: int| 0 <= m < order[k] ==> !ready(g, order.subrange(0, k), m)
    }
}

/// No node outside `done` is ready although some remain: every remaining
/// node reads a remaining node, so the remaining nodes hold a cycle.
pub open spec fn stuck(g: GraphModel, done: Seq<usize>) -> bool {
    &&& done.len() < g.nodes.len()
    &&& forall|m: int| 0 <= m < g.nodes.len() ==> !ready(g, done, m)
}

/// Every position of an order holds a node read before it by none of its
/// successors: each node comes after the nodes it reads.
pub open spec fn topological(g: GraphModel, order: Seq<usize>) -> bool {
    forall|k: int, q: int| 0 <= k < order.len() && 0 <= q < g.nodes[order[k] as int].inputs.len()
        ==> #[trigger] order.subrange(0, k).contains(g.nodes[order[k] as int].inputs[q].node)
}

/// Plan order is a function of the graph: two complete greedy orders of the
/// same graph are equal, and each is topological.
pub proof fn lemma_order_deterministic(g: GraphModel, a: Seq<usize>, b: Seq<usize>)
    requires
        greedy_order(g, a),
        greedy_order(g, b),
        a.len() == g.nodes.len(),
        b.len() == g.nodes.len(),
    ensures
        a == b,
        topological(g, a),
{
    assert forall|k: int, q: int| 0 <= k < a.len() && 0 <= q < g.nodes[a[k] as int].inputs.len()
        implies #[trigger] a.subrange(0, k).contains(g.nodes[a[k] as int].inputs[q].node) by {
        assert(ready(g, a.subrange(0, k), a[k] as int));
    }
    lemma_prefixes_equal(g, a, b, a.len() as int);
    assert(a =~= a.subrange(0, a.len() as int));
    assert(b =~= b.subrange(0, b.len() as int));
}

/// Two greedy orders agree on their first `k` positions.
proof fn lemma_prefixes_equal(g: GraphModel, a: Seq<usize>, b: Seq<usize>, k: int)
    requires
        greedy_order(g, a),
        greedy_order(g, b),
        0 <= k <= a.len(),
        k <= b.len(),
    ensures
        a.subrange(0, k) == b.subrange(0, k),
    decreases k,
{
    if k > 0 {
        let p = k - 1;
        lemma_prefixes_equal(g, a, b, p);
        assert(ready(g, a.subrange(0, p), a[p] as int));
        assert(ready(g, b.subrange(0, p), b[p] as int));
        if a[p] < b[p] {
            assert(!ready(g, b.subrange(0, p), a[p] as int));
        } else if b[p] < a[p] {
            assert(!ready(g, a.subrange(0, p), b[p] as int));
        }
        assert(a.subrange(0, k) =~= a.subrange(0, p).push(a[p]));
        assert(b.subrange(0, k) =~= b.subrange(0, p).push(b[p]));
    } else {
        assert(a.subrange(0, k) =~= b.subrange(0, k));
    }
}

/// A complete greedy order holds every node exactly once.
pub proof fn lemma_order_covers(g: GraphModel, order: Seq<usize>)
    requires
        greedy_order(g, order),
        order.len() == g.nodes.len(),
    ensures
        order.no_duplicates(),
        forall|m: int| 0 <= m < g.nodes.len() ==> #[trigger] order.contains(m as usize),
        forall|k: int| 0 <= k < order.len() ==> #[trigger] order[k] < g.nodes.len(),
{
    assert forall|k: int| 0 <= k < order.len() implies #[trigger] order[k] < g.nodes.len() by {
        assert(ready(g, order.subrange(0, k), order[k] as int));
    }
    assert forall|i: int, j: int| 0 <= i < order.len() && 0 <= j < order.len() && i != j
        implies order[i] != order[j] by {
        let (a, b) = if i < j { (i, j) } else { (j, i) };
        assert(ready(g, order.subrange(0, b), order[b] as int));
        assert(order.subrange(0, b)[a] == order[a]);
    }
    let n = g.nodes.len() as int;
    let o2 = order.map_values(|x: usize| x as int);
    assert(o2.no_duplicates());
    o2.unique_seq_to_set();
    vstd::set_lib::lemma_int_range(0, n);
    assert(o2.to_set().subset_of(vstd::set_lib::set_int_range(0, n))) by {
        assert forall|x: int| #[trigger] o2.to_set().contains(x) implies vstd::set_lib::set_int_range(0, n).contains(x) by {
            assert(o2.contains(x));
        }
    }
    vstd::seq_lib::seq_to_set_is_finite(o2);
    vstd::set_lib::lemma_subset_equality(o2.to_set(), vstd::set_lib::set_int_range(0, n));
    assert forall|m: int| 0 <= m < g.nodes.len() implies #[trigger] order.contains(m as usize) by {
        assert(vstd::set_lib::set_int_range(0, n).contains(m));
        assert(o2.to_set().contains(m));
        assert(o2.contains(m));
        let k = choose|k: int| 0 <= k < o2.len() && o2[k] == m;
        assert(order[k] == m as usize);
    }
}

/// The order in which the nodes of `g` are evaluated: Kahn's algorithm with
/// ties broken by smallest id. Fails with `InvalidGraph` when the graph has a
/// cycle.
#[verifier::loop_isolation(false)]
pub fn eval_order(model: &RawModel) -> (r: Result<Vec<usize>, TractError>)
    requires
        model@.wf(),
    ensures
        r matches Ok(order) ==> order@.len() == model@.nodes.len() && greedy_order(model@, order@)
            && topological(model@, order@),
        r matches Err(e) ==> e == TractError::InvalidGraph && exists|done: Seq<usize>|
            greedy_order(model@, done) && #[trigger] stuck(model@, done),
{
    let ghost g = model@;
    let n = model.nodes.len();
    let mut placed: Vec<bool> = Vec::new();
    let mut i: usize = 0;
    while i < n
        invariant
            0 <= i <= n,
            placed@.len() == i,
            forall|j: int| 0 <= j < i ==> !placed@[j],
        decreases n - i,
    {
        placed.push(false);
        i += 1;
    }
    let mut order: Vec<usize> = Vec::new();
    while order.len() < n
        invariant
            n == g.nodes.len(),
            placed@.len() == n,
            order@.len() <= n,
            forall|j: int| 0 <= j < n ==> (placed@[j] <==> order@.contains(j as usize)),
            greedy_order(g, order@),
        decreases n - order@.len(),
    {
        let mut m: usize = 0;
        let mut found = false;
        while m < n && !found
            invariant
                0 <= m <= n,
                found ==> m < n && ready(g, order@, m as int),
                forall|j: int| 0 <= j < m ==> !ready(g, order@, j),
            decreases n - m + (if found { 0int } else { 1 }),
        {
            if !placed[m] {
                let node = &model.nodes[m];
                assert(g.nodes[m as int] == node@);
                let mut k: usize = 0;
                let mut all = true;
                while k < node.inputs.len() && all
                    invariant
                        0 <= k <= node.inputs@.len(),
                        all ==> forall|q: int| 0 <= q < k ==> order@.contains((#[trigger] node.inputs@[q]).node),
                        !all ==> k > 0 && !order@.contains(node.inputs@[k - 1].node),
                    decreases node.inputs.len() - k + (if all { 1int } else { 0 }),
                {
                    let src = node.inputs[k].node;
                    assert(src < n);
                    if !placed[src] {
                        all = false;
                    }
                    k += 1;
                }
                if all {
                    found = true;
                } else {
                    m += 1;
                }
            } else {
                m += 1;
            }
        }
        if !found {
            assert(stuck(g, order@));
            return Err(TractError::InvalidGraph);
        }
        let ghost before = order@;
        order.push(m);
        placed.set(m, true);
        proof {
            assert(order@.subrange(0, before.len() as int) =~= before);
            assert forall|j: int| 0 <= j < n implies (placed@[j] <==> order@.contains(j as usize)) by {
                if j == m {
                    assert(order@[before.len() as int] == m);
                } else if before.contains(j as usize) {
                    let w = choose|w: int| 0 <= w < before.len() && before[w] == j as usize;
                    assert(order@[w] == j as usize);
                } else if order@.contains(j as usize) {
                    let w = choose|w: int| 0 <= w < order@.len() && order@[w] == j as usize;
                    assert(w < before.len());
                    assert(before[w] == j as usize);
                }
            }
            assert forall|k: int| 0 <= k < order@.len() implies {
                &&& ready(g, order@.subrange(0, k), #[trigger] order@[k] as int)
                &&& forall|x: int| 0 <= x < order@[k] ==> !ready(g, order@.subrange(0, k), x)
            } by {
                if k < before.len() {
                    assert(order@.subrange(0, k) =~= before.subrange(0, k));
                }
            }
        }
    }
    proof {
        assert forall|k: int, q: int| 0 <= k < order@.len() && 0 <= q < g.nodes[order@[k] as int].inputs.len()
            implies #[trigger] order@.subrange(0, k).contains(g.nodes[order@[k] as int].inputs[q].node) by {
            assert(ready(g, order@.subrange(0, k), order@[k] as int));
        }
    }
    Ok(order)
}

} // verus!
