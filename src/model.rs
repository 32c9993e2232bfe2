//! The dataflow graph: nodes, outlets and inlets.
use vstd::prelude::*;
use crate::errors::TractError;
use crate::ops::{arity, Op, OpModel};

verus! {

/// Output slot `slot` of node `node`.
#[derive(Debug, Clone, Copy, PartialEq, Eq, Structural, Hash)]
pub struct OutletId {
    pub node: usize,
    pub slot: usize,
}

impl OutletId {
    pub fn new(node: usize, slot: usize) -> (r: OutletId)
        ensures
            r.node == node,
            r.slot == slot,
    {
        OutletId { node, slot }
    }
}

/// Input slot `inlet` of node `node`.
#[derive(Debug, Clone, Copy, PartialEq, Eq, Structural, Hash)]
pub struct InletId {
    pub node: usize,
    pub inlet: usize,
}

impl InletId {
    pub fn new(node: usize, inlet: usize) -> (r: InletId)
        ensures
            r.node == node,
            r.inlet == inlet,
    {
        InletId { node, inlet }
    }
}

/// A node: its id, its name, the name of its operator, the outlets it reads
/// and its operator. Every node has one output slot.
#[derive(Debug)]
pub struct Node {
    pub id: usize,
    pub name: String,
    pub op_name: String,
    pub inputs: Vec<OutletId>,
    pub op: Op,
}

/// A node, mathematically.
pub struct NodeModel {
    pub id: usize,
    pub name: Seq<char>,
    pub inputs: Seq<OutletId>,
    pub op: OpModel,
}

impl View for Node {
    type V = NodeModel;

    open spec fn view(&self) -> NodeModel {
        NodeModel { id: self.id, name: self.name@, inputs: self.inputs@, op: self.op@ }
    }
}

impl Clone for Node {
    fn clone(&self) -> (r: Self)
        ensures
            r@ == self@,
    {
        let inputs = self.inputs.clone();
        assert(inputs@ =~= self.inputs@);
        Node { id: self.id, name: self.name.clone(), op_name: self.op_name.clone(), inputs, op: self.op.clone() }
    }
}

impl Clone for RawModel {
    fn clone(&self) -> (r: Self)
        ensures
            r@ == self@,
    {
        let mut nodes: Vec<Node> = Vec::new();
        let mut i: usize = 0;
        while i < self.nodes.len()
            invariant
                0 <= i <= self.nodes@.len(),
                nodes@.len() == i,
                forall|j: int| 0 <= j < i ==> (#[trigger] nodes@[j])@ == self.nodes@[j]@,
            decreases self.nodes.len() - i,
        {
            nodes.push(self.nodes[i].clone());
            i += 1;
        }
        let inputs = self.inputs.clone();
        let outputs = self.outputs.clone();
        assert(inputs@ =~= self.inputs@);
        assert(outputs@ =~= self.outputs@);
        let r = RawModel { nodes, inputs, outputs };
        assert(r@.nodes =~= self@.nodes);
        r
    }
}

impl Node {
    /// The operator of the node.
    pub fn op(&self) -> (r: &Op)
        ensures
            r == &self.op,
    {
        &self.op
    }
}

/// A graph: its nodes, indexed by id, and the outlets that are its inputs and
/// its outputs.
#[derive(Debug)]
pub struct RawModel {
    pub nodes: Vec<Node>,
    pub inputs: Vec<OutletId>,
    pub outputs: Vec<OutletId>,
}

/// A graph, mathematically.
pub struct GraphModel {
    pub nodes: Seq<NodeModel>,
    pub inputs: Seq<OutletId>,
    pub outputs: Seq<OutletId>,
}

impl View for RawModel {
    type V = GraphModel;

    open spec fn view(&self) -> GraphModel {
        GraphModel {
            nodes: self.nodes@.map_values(|n: Node| n@),
            inputs: self.inputs@,
            outputs: self.outputs@,
        }
    }
}

/// Whether `o` designates an existing output slot of `g`.
pub open spec fn valid_outlet(g: GraphModel, o: OutletId) -> bool {
    o.node < g.nodes.len() && o.slot == 0
}

impl GraphModel {
    /// Node ids are dense, names unique, every node has as many inputs as its
    /// operator takes, and every outlet referred to exists.
    pub open spec fn wf(self) -> bool {
        &&& forall|i: int| 0 <= i < self.nodes.len() ==> (#[trigger] self.nodes[i]).id == i
        &&& forall|i: int, j: int| 0 <= i < self.nodes.len() && 0 <= j < self.nodes.len() && i != j
            ==> (#[trigger] self.nodes[i]).name != (#[trigger] self.nodes[j]).name
        &&& forall|i: int| 0 <= i < self.nodes.len()
            ==> (#[trigger] self.nodes[i]).inputs.len() == arity(self.nodes[i].op)
        &&& forall|i: int, k: int| 0 <= i < self.nodes.len() && 0 <= k < self.nodes[i].inputs.len()
            ==> valid_outlet(self, #[trigger] self.nodes[i].inputs[k])
        &&& forall|k: int| 0 <= k < self.inputs.len() ==> valid_outlet(self, #[trigger] self.inputs[k])
        &&& forall|k: int| 0 <= k < self.outputs.len() ==> valid_outlet(self, #[trigger] self.outputs[k])
    }
}

impl RawModel {
    /// The graph with no node.
    pub fn new() -> (r: RawModel)
        ensures
            r@.nodes.len() == 0,
            r@.inputs.len() == 0,
            r@.outputs.len() == 0,
            r@.wf(),
    {
        RawModel { nodes: Vec::new(), inputs: Vec::new(), outputs: Vec::new() }
    }

    /// Appends a node reading `inputs` and returns its id. Fails when the
    /// number of inputs is not the operator's, when an input is not an
    /// outlet of an existing node, or when the name is taken.
    pub fn wire_node(&mut self, name: String, op_name: String, op: Op, inputs: Vec<OutletId>) -> (r: Result<usize, TractError>)
        requires
            old(self)@.wf(),
        ensures
            final(self)@.wf(),
            r matches Ok(id) ==> id == old(self)@.nodes.len() && final(self)@.nodes
                == old(self)@.nodes.push(NodeModel { id, name: name@, inputs: inputs@, op: op@ })
                && final(self)@.inputs == old(self)@.inputs && final(self)@.outputs == old(self)@.outputs,
            r is Err ==> final(self)@ == old(self)@,
            r is Ok <==> inputs@.len() == arity(op@)
                && (forall|k: int| 0 <= k < inputs@.len() ==> valid_outlet(old(self)@, #[trigger] inputs@[k]))
                && (forall|i: int| 0 <= i < old(self)@.nodes.len() ==> (#[trigger] old(self)@.nodes[i]).name != name@),
    {
        if inputs.len() != op.arity() {
            return Err(TractError::ArityError { expected: op.arity(), got: inputs.len() });
        }
        let mut k: usize = 0;
        while k < inputs.len()
            invariant
                0 <= k <= inputs@.len(),
                self@ == old(self)@,
                self@.wf(),
                forall|j: int| 0 <= j < k ==> valid_outlet(self@, #[trigger] inputs@[j]),
            decreases inputs.len() - k,
        {
            if inputs[k].node >= self.nodes.len() || inputs[k].slot != 0 {
                assert(!valid_outlet(self@, inputs@[k as int]));
                return Err(TractError::InvalidGraph);
            }
            k += 1;
        }
        match self.node_by_name(&name) {
            Some(_) => return Err(TractError::InvalidGraph),
            None => {},
        }
        let id = self.nodes.len();
        let ghost before = self@;
        self.nodes.push(Node { id, name, op_name, inputs, op });
        proof {
            assert(self@.nodes =~= before.nodes.push(self.nodes@[id as int]@));
            assert forall|i: int, k: int| 0 <= i < self@.nodes.len() && 0 <= k < self@.nodes[i].inputs.len()
                implies valid_outlet(self@, #[trigger] self@.nodes[i].inputs[k]) by {
                if i < id {
                    assert(valid_outlet(before, before.nodes[i].inputs[k]));
                }
            }
            assert forall|k: int| 0 <= k < self@.inputs.len() implies valid_outlet(self@, #[trigger] self@.inputs[k]) by {
                assert(valid_outlet(before, before.inputs[k]));
            }
            assert forall|k: int| 0 <= k < self@.outputs.len() implies valid_outlet(self@, #[trigger] self@.outputs[k]) by {
                assert(valid_outlet(before, before.outputs[k]));
            }
        }
        Ok(id)
    }

    /// Declares the graph's input and output outlets. Fails, leaving the
    /// graph as it is, when one of them is not an existing outlet.
    pub fn set_io(&mut self, inputs: Vec<OutletId>, outputs: Vec<OutletId>) -> (r: Result<(), TractError>)
        requires
            old(self)@.wf(),
        ensures
            final(self)@.wf(),
            final(self)@.nodes == old(self)@.nodes,
            r is Ok ==> final(self)@.inputs == inputs@ && final(self)@.outputs == outputs@,
            r is Err ==> final(self)@ == old(self)@,
            r is Ok <==> (forall|k: int| 0 <= k < inputs@.len() ==> valid_outlet(old(self)@, #[trigger] inputs@[k]))
                && (forall|k: int| 0 <= k < outputs@.len() ==> valid_outlet(old(self)@, #[trigger] outputs@[k])),
    {
        let mut k: usize = 0;
        while k < inputs.len()
            invariant
                0 <= k <= inputs@.len(),
                self@ == old(self)@,
                self@.wf(),
                forall|j: int| 0 <= j < k ==> valid_outlet(self@, #[trigger] inputs@[j]),
            decreases inputs.len() - k,
        {
            if inputs[k].node >= self.nodes.len() || inputs[k].slot != 0 {
                assert(!valid_outlet(self@, inputs@[k as int]));
                return Err(TractError::InvalidGraph);
            }
            k += 1;
        }
        let mut k: usize = 0;
        while k < outputs.len()
            invariant
                0 <= k <= outputs@.len(),
                self@ == old(self)@,
                self@.wf(),
                forall|j: int| 0 <= j < k ==> valid_outlet(self@, #[trigger] outputs@[j]),
            decreases outputs.len() - k,
        {
            if outputs[k].node >= self.nodes.len() || outputs[k].slot != 0 {
                assert(!valid_outlet(self@, outputs@[k as int]));
                return Err(TractError::InvalidGraph);
            }
            k += 1;
        }
        self.inputs = inputs;
        self.outputs = outputs;
        Ok(())
    }

    /// The node with the given name, if any.
    pub fn node_by_name(&self, name: &String) -> (r: Option<&Node>)
        ensures
            r matches Some(n) ==> n@.name == name@ && exists|i: int| 0 <= i < self@.nodes.len()
                && self@.nodes[i] == n@,
            r is None ==> forall|i: int| 0 <= i < self@.nodes.len() ==> (#[trigger] self@.nodes[i]).name != name@,
    {
        let mut i: usize = 0;
        while i < self.nodes.len()
            invariant
                0 <= i <= self@.nodes.len(),
                forall|j: int| 0 <= j < i ==> (#[trigger] self@.nodes[j]).name != name@,
            decreases self.nodes.len() - i,
        {
            if self.nodes[i].name == *name {
                assert(self@.nodes[i as int] == self.nodes@[i as int]@);
                return Some(&self.nodes[i]);
            }
            i += 1;
        }
        None
    }

    /// The names of the nodes, in id order.
    pub fn node_names(&self) -> (r: Vec<&str>)
        ensures
            r@.len() == self@.nodes.len(),
            forall|i: int| 0 <= i < r@.len() ==> (#[trigger] r@[i])@ == self@.nodes[i].name,
    {
        let mut r: Vec<&str> = Vec::new();
        let mut i: usize = 0;
        while i < self.nodes.len()
            invariant
                0 <= i <= self@.nodes.len(),
                r@.len() == i,
                forall|j: int| 0 <= j < i ==> (#[trigger] r@[j])@ == self@.nodes[j].name,
            decreases self.nodes.len() - i,
        {
            r.push(self.nodes[i].name.as_str());
            i += 1;
        }
        r
    }

    /// The nodes, in id order.
    pub fn nodes(&self) -> (r: &[Node])
        ensures
            r@ == self.nodes@,
    {
        self.nodes.as_slice()
    }
}

/// A shared, immutable graph.
#[derive(Debug, Clone)]
pub struct Model(pub std::sync::Arc<RawModel>);

impl Model {
    /// Shares `raw`.
    pub fn new(raw: RawModel) -> (r: Model)
        ensures
            *r.0 == raw,
    {
        Model(std::sync::Arc::new(raw))
    }

    /// The shared graph.
    pub fn raw(&self) -> (r: &RawModel)
        ensures
            *r == *self.0,
    {
        &*self.0
    }
}

} // verus!
