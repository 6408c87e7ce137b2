use crate::address::{NodeAddress, RemapTable};
use crate::data::{Message, Update};
use crate::graph::{DomainNodes, Graph, StateMap};
use crate::ingredient::Ingredient;
use vstd::prelude::*;
use vstd::string::StringExecFns;

verus! {

/// Applies the identity operation to the view: every batch is forwarded
/// unchanged. The simplest possible operator, intended as a correctness
/// reference for the propagation machinery.
pub struct Identity {
    /// The single upstream source.
    pub src: NodeAddress,
}

impl Identity {
    /// Construct a new identity operator.
    pub fn new(src: NodeAddress) -> (r: Identity)
        ensures
            r.src == src,
            r.wf(),
    {
        Identity { src }
    }
}

impl Ingredient for Identity {
    open spec fn wf(self) -> bool {
        true
    }

    open spec fn spec_ancestors(self) -> Seq<NodeAddress> {
        seq![self.src]
    }

    open spec fn spec_should_materialize(self) -> bool {
        false
    }

    /// The identity never queries through to materialized state.
    open spec fn spec_will_query(self, materialized: bool) -> bool {
        false
    }

    open spec fn connect_ok(pre: Self, g: Graph) -> bool {
        true
    }

    /// The identity caches nothing from the schemas.
    open spec fn spec_connected(pre: Self, g: Graph) -> Self {
        pre
    }

    open spec fn commit_ok(pre: Self, us: NodeAddress, m: Map<NodeAddress, NodeAddress>) -> bool {
        m.contains_key(pre.src)
    }

    open spec fn spec_committed(pre: Self, us: NodeAddress, m: Map<NodeAddress, NodeAddress>) -> Self {
        Identity { src: m[pre.src] }
    }

    open spec fn input_ok(self, input: Message) -> bool {
        input.from == self.src
    }

    /// A true no-op: the forwarded batch is the received one.
    open spec fn output_ok(self, input: Message, out: Option<Update>) -> bool {
        out == Some(input.data)
    }

    open spec fn resolve_ok(self, col: usize) -> bool {
        true
    }

    /// Pointwise identity: every output column aliases the same source
    /// column.
    open spec fn spec_resolve(self, col: usize) -> Option<Seq<(NodeAddress, usize)>> {
        Some(seq![(self.src, col)])
    }

    open spec fn spec_suggested(self, us: NodeAddress) -> Seq<(NodeAddress, usize)> {
        Seq::empty()
    }

    open spec fn spec_description(self) -> Seq<char> {
        "≡"@
    }

    fn ancestors(&self) -> (r: Vec<NodeAddress>) {
        let mut v: Vec<NodeAddress> = Vec::new();
        v.push(self.src);
        proof {
            assert(v@ =~= seq![self.src]);
        }
        v
    }

    fn should_materialize(&self) -> (r: bool) {
        false
    }

    fn will_query(&self, materialized: bool) -> (r: bool) {
        false
    }

    fn on_connected(&mut self, g: &Graph) {
    }

    fn on_commit(&mut self, us: NodeAddress, remap: &RemapTable) {
        self.src = remap.translate(self.src);
    }

    fn on_input(&mut self, input: Message, nodes: &DomainNodes, states: &StateMap) -> (r: Option<
        Update,
    >) {
        Some(input.data)
    }

    fn suggest_indexes(&self, us: NodeAddress) -> (r: Vec<(NodeAddress, usize)>) {
        let v: Vec<(NodeAddress, usize)> = Vec::new();
        proof {
            assert(v@ =~= Seq::<(NodeAddress, usize)>::empty());
        }
        v
    }

    fn resolve(&self, col: usize) -> (r: Option<Vec<(NodeAddress, usize)>>) {
        let mut v: Vec<(NodeAddress, usize)> = Vec::new();
        v.push((self.src, col));
        proof {
            assert(v@ =~= seq![(self.src, col)]);
        }
        Some(v)
    }

    fn description(&self) -> (r: String) {
        String::from_str("≡")
    }
}

/// Law: a commit rewrites the stored ancestor: afterwards the operator
/// declares exactly the remapped address, not the old one.
pub proof fn lemma_commit_rewrites_ancestors(
    id: Identity,
    us: NodeAddress,
    m: Map<NodeAddress, NodeAddress>,
)
    requires
        m.contains_key(id.src),
    ensures
        <Identity as Ingredient>::spec_committed(id, us, m).spec_ancestors() == seq![m[id.src]],
{
    assert(<Identity as Ingredient>::spec_committed(id, us, m).spec_ancestors() =~= seq![
        m[id.src],
    ]);
}

} // verus!
