use crate::address::NodeAddress;
use crate::data::Record;
use vstd::prelude::*;

verus! {

/// One node of the dataflow graph as the operators see it: its ordered
/// field names.
#[derive(Clone, Debug)]
pub struct Node {
    pub fields: Vec<String>,
}

/// The graph of nodes, addressed by global index. Operators consult it
/// only inside `on_connected`, once every ancestor schema is final.
pub struct Graph {
    pub nodes: Vec<Node>,
}

impl Graph {
    pub open spec fn contains_address(self, a: NodeAddress) -> bool {
        a.is_global() && a.node_index() < self.nodes@.len()
    }

    pub fn new() -> (g: Graph)
        ensures
            g.nodes@.len() == 0,
    {
        Graph { nodes: Vec::new() }
    }

    /// Appends a node and hands back its global address.
    pub fn add_node(&mut self, fields: Vec<String>) -> (a: NodeAddress)
        ensures
            final(self).nodes@ == old(self).nodes@.push(Node { fields }),
            a == NodeAddress::Global(old(self).nodes@.len() as usize),
    {
        let a = NodeAddress::Global(self.nodes.len());
        self.nodes.push(Node { fields });
        a
    }

    /// The ordered field names of the node at `a`.
    pub fn fields(&self, a: NodeAddress) -> (r: &Vec<String>)
        requires
            self.contains_address(a),
        ensures
            r == &self.nodes@[a.node_index() as int].fields,
    {
        &self.nodes[a.as_global()].fields
    }
}

/// The read-only set of sibling nodes of one execution domain, passed to
/// an operator while it processes one input. Neither reference operator
/// consults it.
pub struct DomainNodes {
    pub members: Vec<NodeAddress>,
}

impl DomainNodes {
    pub fn new() -> (r: DomainNodes)
        ensures
            r.members@.len() == 0,
    {
        DomainNodes { members: Vec::new() }
    }

    pub fn contains(&self, a: NodeAddress) -> (r: bool)
        ensures
            r == self.members@.contains(a),
    {
        let n = self.members.len();
        for i in 0..n
            invariant
                n == self.members@.len(),
                forall|j: int| 0 <= j < i ==> self.members@[j] != a,
        {
            if self.members[i] == a {
                return true;
            }
        }
        false
    }
}

/// Read-only view over the materialized state of sibling nodes: a
/// synchronous lookup of cached rows by node address, with no failure
/// mode beyond "not found".
pub struct StateMap {
    pub states: Vec<(NodeAddress, Vec<Record>)>,
}

impl StateMap {
    pub fn new() -> (r: StateMap)
        ensures
            r.states@.len() == 0,
    {
        StateMap { states: Vec::new() }
    }

    /// The materialized rows recorded for `a`, if any entry carries them.
    pub fn rows_for(&self, a: NodeAddress) -> (r: Option<&Vec<Record>>)
        ensures
            r matches Some(rows) ==> exists|i: int|
                0 <= i < self.states@.len() && #[trigger] self.states@[i] == (a, *rows),
            r is None ==> forall|i: int|
                0 <= i < self.states@.len() ==> (#[trigger] self.states@[i]).0 != a,
    {
        let n = self.states.len();
        for i in 0..n
            invariant
                n == self.states@.len(),
                forall|j: int| 0 <= j < i ==> (#[trigger] self.states@[j]).0 != a,
        {
            if self.states[i].0 == a {
                return Some(&self.states[i].1);
            }
        }
        None
    }
}

} // verus!
