use crate::address::{NodeAddress, RemapTable};
use crate::data::{Message, Update};
use crate::graph::{DomainNodes, Graph, StateMap};
use vstd::prelude::*;

verus! {

/// The uniform contract every transformation node of the dataflow graph
/// implements, so the engine can treat heterogeneous operators alike.
///
/// The lifecycle is monotonic: an operator is constructed, learns the
/// final ancestor schemas in `on_connected`, has every stored address
/// rewritten by `on_commit` after each structural graph edit, and then
/// serves `on_input` on the hot path. The planning-time queries
/// (`should_materialize`, `will_query`, `suggest_indexes`, `resolve`,
/// `description`) are read-only.
pub trait Ingredient: Sized {
    /// Configuration invariant that construction establishes and every
    /// lifecycle step preserves.
    spec fn wf(self) -> bool;

    /// The upstream addresses this operator declares.
    spec fn spec_ancestors(self) -> Seq<NodeAddress>;

    /// Whether this node's output should be durably cached.
    spec fn spec_should_materialize(self) -> bool;

    /// Whether the operator will read queryable state during `on_input`,
    /// given the materialization decision the planner is about to make.
    spec fn spec_will_query(self, materialized: bool) -> bool;

    /// When `on_connected` may run: every ancestor must be in the graph.
    spec fn connect_ok(pre: Self, g: Graph) -> bool;

    /// The operator once it has seen the final schemas.
    spec fn spec_connected(pre: Self, g: Graph) -> Self;

    /// When `on_commit` may run: the mapping must cover every address the
    /// operator stored.
    spec fn commit_ok(pre: Self, us: NodeAddress, m: Map<NodeAddress, NodeAddress>) -> bool;

    /// The operator after a commit that assigned it the address `us` and
    /// rewrote every stored address through `m`.
    spec fn spec_committed(pre: Self, us: NodeAddress, m: Map<NodeAddress, NodeAddress>) -> Self;

    /// When `on_input` may run: the batch must come from an ancestor and
    /// its rows must fit the operator's configuration.
    spec fn input_ok(self, input: Message) -> bool;

    /// How the forwarded batch relates to the received one; `None` means
    /// propagation is suppressed.
    spec fn output_ok(self, input: Message, out: Option<Update>) -> bool;

    /// When `resolve` may be asked about an output column.
    spec fn resolve_ok(self, col: usize) -> bool;

    /// The column provenance `resolve` reports: every upstream
    /// (node, column) pair that contributes to the output column, or
    /// `None` when no single upstream source exists.
    spec fn spec_resolve(self, col: usize) -> Option<Seq<(NodeAddress, usize)>>;

    /// The indexing hints `suggest_indexes` reports.
    spec fn spec_suggested(self, us: NodeAddress) -> Seq<(NodeAddress, usize)>;

    /// The diagnostic label `description` reports.
    spec fn spec_description(self) -> Seq<char>;

    /// Declares the upstream dependencies; stable except across
    /// `on_commit`.
    fn ancestors(&self) -> (r: Vec<NodeAddress>)
        ensures
            r@ == self.spec_ancestors(),
    ;

    fn should_materialize(&self) -> (r: bool)
        ensures
            r == self.spec_should_materialize(),
    ;

    fn will_query(&self, materialized: bool) -> (r: bool)
        ensures
            r == self.spec_will_query(materialized),
    ;

    /// One-time hook fired once all ancestor schemas are final.
    fn on_connected(&mut self, g: &Graph)
        requires
            old(self).wf(),
            Self::connect_ok(*old(self), *g),
        ensures
            *final(self) == Self::spec_connected(*old(self), *g),
            final(self).wf(),
    ;

    /// Fired once per structural graph edit: every stored address is
    /// rewritten through `remap`, and `us` becomes the operator's own
    /// final address.
    fn on_commit(&mut self, us: NodeAddress, remap: &RemapTable)
        requires
            old(self).wf(),
            remap.wf(),
            Self::commit_ok(*old(self), us, remap@),
        ensures
            *final(self) == Self::spec_committed(*old(self), us, remap@),
            final(self).wf(),
    ;

    /// The per-row hot path: transforms one incoming batch. It must not
    /// retain state across calls; the operator's configuration is left
    /// untouched.
    fn on_input(&mut self, input: Message, nodes: &DomainNodes, states: &StateMap) -> (r: Option<
        Update,
    >)
        requires
            old(self).wf(),
            old(self).input_ok(input),
        ensures
            *final(self) == *old(self),
            old(self).output_ok(input, r),
    ;

    /// Planning-time hint: which upstream (or own) columns should be
    /// indexed to serve expected downstream lookups.
    fn suggest_indexes(&self, us: NodeAddress) -> (r: Vec<(NodeAddress, usize)>)
        ensures
            r@ == self.spec_suggested(us),
    ;

    /// Column provenance for one output column.
    fn resolve(&self, col: usize) -> (r: Option<Vec<(NodeAddress, usize)>>)
        requires
            self.wf(),
            self.resolve_ok(col),
        ensures
            (r matches Some(v) && self.spec_resolve(col) matches Some(s) && v@ == s) || (r is None
                && self.spec_resolve(col) is None),
    ;

    /// Short human-readable operator label for diagnostics.
    fn description(&self) -> (r: String)
        requires
            self.wf(),
        ensures
            r@ == self.spec_description(),
    ;
}

} // verus!
