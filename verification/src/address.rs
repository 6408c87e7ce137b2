use vstd::pervasive::unreached;
use vstd::prelude::*;

verus! {

/// A stable, comparable identifier for a graph node.
///
/// Addresses handed out before the graph is finalized are local and
/// provisional; a structural commit supplies the authoritative mapping
/// under which every holder rewrites the addresses it stored.
#[derive(Clone, Copy, PartialEq, Eq, Structural, Debug)]
pub enum NodeAddress {
    Local(usize),
    Global(usize),
}

impl NodeAddress {
    pub open spec fn is_global(self) -> bool {
        self matches NodeAddress::Global(_)
    }

    pub open spec fn node_index(self) -> usize {
        match self {
            NodeAddress::Local(i) => i,
            NodeAddress::Global(i) => i,
        }
    }

    /// The index of a finalized node; meaningful only on global addresses.
    pub fn as_global(&self) -> (i: usize)
        requires
            self.is_global(),
        ensures
            i == self.node_index(),
    {
        match self {
            NodeAddress::Global(i) => *i,
            NodeAddress::Local(_) => unreached(),
        }
    }
}

/// The map that `entries`, read left to right, builds up.
pub open spec fn entries_map(s: Seq<(NodeAddress, NodeAddress)>) -> Map<NodeAddress, NodeAddress>
    decreases s.len(),
{
    if s.len() == 0 {
        Map::empty()
    } else {
        entries_map(s.drop_last()).insert(s.last().0, s.last().1)
    }
}

proof fn lemma_entries_map_key(s: Seq<(NodeAddress, NodeAddress)>, k: NodeAddress)
    ensures
        entries_map(s).contains_key(k) <==> exists|i: int|
            0 <= i < s.len() && (#[trigger] s[i]).0 == k,
    decreases s.len(),
{
    if s.len() > 0 {
        lemma_entries_map_key(s.drop_last(), k);
        if s.last().0 == k {
            assert(s[s.len() - 1].0 == k);
        } else if entries_map(s).contains_key(k) {
            let i = choose|i: int| 0 <= i < s.drop_last().len() && (#[trigger] s.drop_last()[i]).0 == k;
            assert(s[i].0 == k);
        } else {
            assert forall|i: int| 0 <= i < s.len() implies (#[trigger] s[i]).0 != k by {
                if i < s.len() - 1 {
                    assert(s.drop_last()[i].0 != k);
                }
            }
        }
    }
}

proof fn lemma_entries_map_at(s: Seq<(NodeAddress, NodeAddress)>, i: int)
    requires
        forall|a: int, b: int|
            0 <= a < b < s.len() ==> (#[trigger] s[a]).0 != (#[trigger] s[b]).0,
        0 <= i < s.len(),
    ensures
        entries_map(s).contains_key(s[i].0),
        entries_map(s)[s[i].0] == s[i].1,
    decreases s.len(),
{
    if i == s.len() - 1 {
    } else {
        lemma_entries_map_at(s.drop_last(), i);
        assert(s.drop_last()[i] == s[i]);
        assert(s[i].0 != s.last().0);
    }
}

/// The address translation a structural commit supplies: every address a
/// node stored before the edit is rewritten through this table.
pub struct RemapTable {
    pub entries: Vec<(NodeAddress, NodeAddress)>,
}

impl View for RemapTable {
    type V = Map<NodeAddress, NodeAddress>;

    open spec fn view(&self) -> Map<NodeAddress, NodeAddress> {
        entries_map(self.entries@)
    }
}

impl RemapTable {
    /// Each old address is stored at most once, so the table reads as a map.
    pub open spec fn wf(self) -> bool {
        forall|a: int, b: int|
            0 <= a < b < self.entries@.len() ==> (#[trigger] self.entries@[a]).0
                != (#[trigger] self.entries@[b]).0
    }

    pub fn new() -> (r: RemapTable)
        ensures
            r.wf(),
            r@ == Map::<NodeAddress, NodeAddress>::empty(),
    {
        RemapTable { entries: Vec::new() }
    }

    pub fn insert(&mut self, from: NodeAddress, to: NodeAddress)
        requires
            old(self).wf(),
            !old(self)@.contains_key(from),
        ensures
            final(self).wf(),
            final(self)@ == old(self)@.insert(from, to),
    {
        proof {
            lemma_entries_map_key(self.entries@, from);
        }
        self.entries.push((from, to));
        proof {
            assert(self.entries@.drop_last() =~= old(self).entries@);
        }
    }

    /// The new address recorded for `a`; the table must cover `a`.
    pub fn translate(&self, a: NodeAddress) -> (r: NodeAddress)
        requires
            self.wf(),
            self@.contains_key(a),
        ensures
            r == self@[a],
    {
        let n = self.entries.len();
        for i in 0..n
            invariant
                n == self.entries@.len(),
                self.wf(),
                self@.contains_key(a),
                forall|j: int| 0 <= j < i ==> (#[trigger] self.entries@[j]).0 != a,
        {
            if self.entries[i].0 == a {
                proof {
                    lemma_entries_map_at(self.entries@, i as int);
                }
                return self.entries[i].1;
            }
        }
        proof {
            lemma_entries_map_key(self.entries@, a);
            assert(false);
        }
        unreached()
    }
}

} // verus!
