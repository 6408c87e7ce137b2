use crate::address::{NodeAddress, RemapTable};
use crate::data::{DataType, Message, Record, Update};
use crate::decimal::{decimal_rep, push_decimal};
use crate::graph::{DomainNodes, Graph, StateMap};
use crate::ingredient::Ingredient;
use vstd::prelude::*;
use vstd::slice::slice_to_vec;
use vstd::string::StringExecFns;

verus! {

/// No source index appears twice in the emit specification.
pub open spec fn distinct_emit(e: Seq<usize>) -> bool {
    forall|a: int, b: int| 0 <= a < b < e.len() ==> #[trigger] e[a] != #[trigger] e[b]
}

/// Every emitted source index names an existing column.
pub open spec fn emit_bounded(e: Seq<usize>, cols: int) -> bool {
    forall|k: int| 0 <= k < e.len() ==> (#[trigger] e[k]) < cols
}

/// Output position and source position agree everywhere.
pub open spec fn sequential(e: Seq<usize>) -> bool {
    forall|k: int| 0 <= k < e.len() ==> (#[trigger] e[k]) as int == k
}

/// The naive gather: output `k` holds source column `e[k]`.
pub open spec fn apply_emit(row: Seq<DataType>, e: Seq<usize>) -> Seq<DataType> {
    Seq::new(e.len(), |k: int| row[e[k] as int])
}

/// A row after projection under an optional emit specification.
pub open spec fn projected(row: Seq<DataType>, emit: Option<Vec<usize>>) -> Seq<DataType> {
    match emit {
        Option::None => row,
        Option::Some(e) => apply_emit(row, e@),
    }
}

/// The emit specification a commit leaves behind: a complete, strictly
/// sequential specification demands no work and is dropped.
pub open spec fn collapse_emit(emit: Option<Vec<usize>>, cols: usize) -> Option<Vec<usize>> {
    match emit {
        Option::None => Option::None,
        Option::Some(e) => if e@.len() == cols && sequential(e@) {
            Option::None
        } else {
            Option::Some(e)
        },
    }
}

/// The comma-separated decimal rendering of an emit specification.
pub open spec fn emit_list_rep(e: Seq<usize>) -> Seq<char>
    decreases e.len(),
{
    if e.len() == 0 {
        Seq::empty()
    } else if e.len() == 1 {
        decimal_rep(e[0] as nat)
    } else {
        emit_list_rep(e.drop_last()) + ", "@ + decimal_rep(e.last() as nat)
    }
}

spec fn count_false(s: Seq<bool>) -> nat
    decreases s.len(),
{
    if s.len() == 0 {
        0
    } else {
        count_false(s.drop_last()) + if s.last() {
            0nat
        } else {
            1nat
        }
    }
}

proof fn lemma_count_false_update(s: Seq<bool>, idx: int)
    requires
        0 <= idx < s.len(),
    ensures
        s[idx] ==> count_false(s.update(idx, true)) == count_false(s),
        !s[idx] ==> count_false(s.update(idx, true)) + 1 == count_false(s),
    decreases s.len(),
{
    let su = s.update(idx, true);
    if idx == s.len() - 1 {
        assert(su.drop_last() =~= s.drop_last());
    } else {
        lemma_count_false_update(s.drop_last(), idx);
        assert(su.drop_last() =~= s.drop_last().update(idx, true));
        assert(su.last() == s.last());
    }
}

proof fn lemma_distinct_pair(e: Seq<usize>, a: int, b: int)
    requires
        distinct_emit(e),
        0 <= a < e.len(),
        0 <= b < e.len(),
        a != b,
    ensures
        e[a] != e[b],
{
}

/// Exchanges the elements at the two indices, which both must be in
/// bounds, moving them through one scratch slot.
fn swap_in_place(data: &mut Vec<DataType>, a: usize, b: usize)
    requires
        a < old(data).len(),
        b < old(data).len(),
        a != b,
    ensures
        final(data)@ == old(data)@.update(a as int, old(data)@[b as int]).update(
            b as int,
            old(data)@[a as int],
        ),
{
    let mut scratch: DataType = DataType::Null;
    core::mem::swap(&mut scratch, &mut data[a]);
    core::mem::swap(&mut scratch, &mut data[b]);
    core::mem::swap(&mut scratch, &mut data[a]);
    proof {
        assert(data@ =~= old(data)@.update(a as int, old(data)@[b as int]).update(
            b as int,
            old(data)@[a as int],
        ));
    }
}

/// Permutes or omits columns from its source node.
pub struct Permute {
    /// Own address, recorded at commit time.
    pub us: Option<NodeAddress>,
    /// Output position to source column; `None` passes every column
    /// through unchanged.
    pub emit: Option<Vec<usize>>,
    /// The single upstream source.
    pub src: NodeAddress,
    /// Upstream column count, cached once the schemas are final.
    pub cols: usize,
}

impl Permute {
    /// Each source index is emitted at most once.
    pub open spec fn emit_wf(self) -> bool {
        match self.emit {
            Option::None => true,
            Option::Some(e) => distinct_emit(e@),
        }
    }

    /// The emit specification fits the cached upstream column count.
    pub open spec fn emit_compatible(self) -> bool {
        match self.emit {
            Option::None => true,
            Option::Some(e) => emit_bounded(e@, self.cols as int) && e@.len() <= self.cols,
        }
    }

    /// The source column an output column aliases.
    pub open spec fn spec_resolve_col(self, col: usize) -> usize {
        match self.emit {
            Option::None => col,
            Option::Some(e) => e@[col as int],
        }
    }

    /// Construct a new permuter operator emitting the given source
    /// columns, in order. A source index must not be emitted twice.
    pub fn new(src: NodeAddress, emit: &[usize]) -> (r: Permute)
        requires
            distinct_emit(emit@),
        ensures
            r.us is None,
            r.src == src,
            r.cols == 0,
            r.emit matches Some(e) && e@ == emit@,
            r.wf(),
    {
        Permute { emit: Some(slice_to_vec(emit)), src, cols: 0, us: None }
    }

    /// The source column an output column aliases.
    pub fn resolve_col(&self, col: usize) -> (r: usize)
        requires
            self.emit matches Some(e) ==> col < e@.len(),
        ensures
            r == self.spec_resolve_col(col),
    {
        match &self.emit {
            Option::None => col,
            Option::Some(e) => e[col],
        }
    }

    /// Rewrites `data` to hold exactly the emitted columns in emit order,
    /// equal to the naive gather, using only pairwise swaps and a final
    /// truncation: each not-yet-settled cycle of the emit specification is
    /// followed by repeated swaps, and a value that lands beyond the
    /// emitted range is either handed to the output that still wants it or
    /// parked there for good.
    pub fn permute(&self, data: &mut Vec<DataType>)
        requires
            self.emit_wf(),
            self.emit_compatible(),
            self.emit is Some ==> old(data)@.len() == self.cols,
        ensures
            final(data)@ == projected(old(data)@, self.emit),
    {
        let ghost orig: Seq<DataType> = data@;
        match &self.emit {
            Option::None => {},
            Option::Some(emit) => {
                let m: usize = emit.len();
                let cols: usize = self.cols;
                let ghost mut perm: Seq<int> = Seq::new(cols as nat, |p: int| p);

                let mut done: Vec<bool> = Vec::new();
                let mut t: usize = 0;
                while t < cols
                    invariant
                        t <= cols,
                        done@.len() == t as int,
                        forall|p: int| 0 <= p < t ==> !(#[trigger] done@[p]),
                    decreases cols - t,
                {
                    done.push(false);
                    t = t + 1;
                }

                for i0 in 0..m
                    invariant
                        m == emit@.len(),
                        m <= cols,
                        cols == self.cols,
                        distinct_emit(emit@),
                        emit_bounded(emit@, cols as int),
                        done@.len() == cols as int,
                        orig.len() == cols as int,
                        data@.len() == cols as int,
                        perm.len() == cols as int,
                        forall|p: int| 0 <= p < cols ==> 0 <= #[trigger] perm[p] < cols,
                        forall|p: int| 0 <= p < cols ==> #[trigger] data@[p] == orig[perm[p]],
                        // settled outputs already hold their gathered value
                        forall|k: int|
                            0 <= k < m && #[trigger] done@[k] ==> perm[k] == emit@[k] as int,
                        // untouched positions still hold their own value
                        forall|p: int| 0 <= p < cols && !(#[trigger] done@[p]) ==> perm[p] == p,
                        // the source of every unsettled output is untouched
                        forall|k: int|
                            0 <= k < m && !(#[trigger] done@[k]) ==> !done@[emit@[k] as int],
                        // everything before i0 is settled one way or the other
                        forall|k: int| 0 <= k < i0 ==> (done@[k] || #[trigger] emit@[k] as int == k),
                {
                    if !done[i0] && emit[i0] != i0 {
                        let mut i: usize = i0;
                        let mut j: usize = i0;
                        loop
                            invariant_except_break
                                i0 <= i < m,
                                (j as int) < cols as int,
                                perm[j as int] == i as int,
                                // the walk never stands on a settled output
                                j < m ==> !done@[j as int],
                                // the cycle start is marked as soon as the walk leaves it
                                done@[i0 as int] || j == i0,
                                forall|k: int|
                                    0 <= k < m && #[trigger] done@[k] && k != j ==> perm[k]
                                        == emit@[k] as int,
                                forall|p: int|
                                    0 <= p < cols && !(#[trigger] done@[p]) && p != j ==> perm[p]
                                        == p,
                                // the source of every unsettled output is either the
                                // carried value or still untouched
                                forall|k: int|
                                    0 <= k < m && !(#[trigger] done@[k]) ==> (emit@[k] as int
                                        == i as int || (!done@[emit@[k] as int] && emit@[k] as int
                                        != j)),
                            invariant
                                m == emit@.len(),
                                m <= cols,
                                cols == self.cols,
                                distinct_emit(emit@),
                                emit_bounded(emit@, cols as int),
                                done@.len() == cols as int,
                                orig.len() == cols as int,
                                data@.len() == cols as int,
                                perm.len() == cols as int,
                                forall|p: int| 0 <= p < cols ==> 0 <= #[trigger] perm[p] < cols,
                                forall|p: int|
                                    0 <= p < cols ==> #[trigger] data@[p] == orig[perm[p]],
                                forall|k: int|
                                    0 <= k < i0 ==> (done@[k] || #[trigger] emit@[k] as int == k),
                            ensures
                                done@[i0 as int],
                                forall|k: int|
                                    0 <= k < m && #[trigger] done@[k] ==> perm[k] == emit@[k] as int,
                                forall|p: int|
                                    0 <= p < cols && !(#[trigger] done@[p]) ==> perm[p] == p,
                                forall|k: int|
                                    0 <= k < m && !(#[trigger] done@[k]) ==> !done@[emit@[k] as int],
                            decreases count_false(done@),
                        {
                            let ghost pre_done = done@;
                            done[j] = true;
                            proof {
                                lemma_count_false_update(pre_done, j as int);
                            }
                            if j >= m {
                                // orig[i] is parked beyond the emitted range; find
                                // the unsettled output that still wants it, if any
                                let mut k: usize = 0;
                                let mut hit: usize = m;
                                while k < m && hit == m
                                    invariant
                                        m == emit@.len(),
                                        done@.len() == cols as int,
                                        m <= cols,
                                        k <= m,
                                        hit <= m,
                                        hit == m ==> forall|q: int|
                                            0 <= q < k ==> (done@[q] || #[trigger] emit@[q] as int
                                                != i as int),
                                        hit < m ==> (!done@[hit as int] && emit@[hit as int]
                                            == i),
                                    decreases m - k + (if hit == m { 1int } else { 0int }),
                                {
                                    if !done[k] && emit[k] == i {
                                        hit = k;
                                    } else {
                                        k = k + 1;
                                    }
                                }
                                if hit < m {
                                    // hand orig[i] to output `hit`, which takes over
                                    // the walk as though it had started there
                                    proof {
                                        assert(!pre_done[hit as int]);
                                        assert(perm[hit as int] == hit as int);
                                        if hit < i0 {
                                            assert(emit@[hit as int] as int == hit as int);
                                            assert(false);
                                        }
                                    }
                                    swap_in_place(data, hit, j);
                                    proof {
                                        let ph = perm[hit as int];
                                        let pj = perm[j as int];
                                        perm = perm.update(hit as int, pj).update(j as int, ph);
                                    }
                                    let ghost mid_done = done@;
                                    done[hit] = true;
                                    proof {
                                        lemma_count_false_update(mid_done, hit as int);
                                        assert forall|k2: int|
                                            0 <= k2 < m && !(#[trigger] done@[k2]) implies (
                                        emit@[k2] as int == hit as int || (!done@[emit@[k2] as int]
                                            && emit@[k2] as int != j)) by {
                                            if emit@[k2] as int == i as int {
                                                lemma_distinct_pair(emit@, k2, hit as int);
                                            } else {
                                                if emit@[k2] as int == hit as int {
                                                } else {
                                                    assert(!mid_done[emit@[k2] as int]);
                                                }
                                            }
                                        }
                                    }
                                    i = hit;
                                } else {
                                    // no output needs orig[i]: leave it parked where
                                    // nothing will read it again
                                    proof {
                                        assert forall|k2: int|
                                            0 <= k2 < m && !(#[trigger] done@[k2])
                                            implies !done@[emit@[k2] as int] by {
                                            assert(done@[k2] == pre_done[k2]);
                                            assert(emit@[k2] as int != i as int);
                                            assert(!pre_done[emit@[k2] as int]);
                                        }
                                    }
                                    break ;
                                }
                            } else {
                                let tgt = emit[j];
                                if tgt != i {
                                    // output j's value sits at its source position:
                                    // fetch it, and continue the walk from there
                                    proof {
                                        assert(!pre_done[j as int]);
                                        // from the head invariant applied to j itself
                                        assert(!pre_done[tgt as int] && tgt as int != j as int);
                                        assert(perm[tgt as int] == tgt as int);
                                    }
                                    swap_in_place(data, j, tgt);
                                    proof {
                                        let pj = perm[j as int];
                                        let pt = perm[tgt as int];
                                        perm = perm.update(j as int, pt).update(tgt as int, pj);
                                        assert(perm[j as int] == emit@[j as int] as int);
                                        assert forall|k2: int|
                                            0 <= k2 < m && !(#[trigger] done@[k2]) implies (
                                        emit@[k2] as int == i as int || (!done@[emit@[k2] as int]
                                            && emit@[k2] as int != tgt as int)) by {
                                            if emit@[k2] as int != i as int {
                                                assert(!pre_done[emit@[k2] as int]
                                                    && emit@[k2] as int != j as int);
                                                if emit@[k2] as int == tgt as int {
                                                    lemma_distinct_pair(emit@, k2, j as int);
                                                    assert(false);
                                                }
                                            }
                                        }
                                        if (tgt as int) < m {
                                            if done@[tgt as int] {
                                                assert(!pre_done[tgt as int]);
                                                assert(false);
                                            }
                                        }
                                    }
                                    j = tgt;
                                } else {
                                    // the carried value is the one this output wants:
                                    // the cycle is complete
                                    proof {
                                        assert(perm[j as int] == emit@[j as int] as int);
                                        assert forall|k2: int|
                                            0 <= k2 < m && !(#[trigger] done@[k2])
                                            implies !done@[emit@[k2] as int] by {
                                            if emit@[k2] as int == i as int {
                                                lemma_distinct_pair(emit@, k2, j as int);
                                                assert(false);
                                            } else {
                                                assert(!pre_done[emit@[k2] as int]
                                                    && emit@[k2] as int != j as int);
                                            }
                                        }
                                    }
                                    break ;
                                }
                            }
                        }
                    }
                }
                proof {
                    assert forall|k: int| 0 <= k < m implies #[trigger] data@[k] == orig[emit@[k] as int] by {
                        if !done@[k] {
                            assert(emit@[k] as int == k);
                        }
                        assert(perm[k] == emit@[k] as int);
                    }
                }
                data.truncate(m);
                proof {
                    assert(data@ =~= apply_emit(orig, emit@));
                }
            },
        }
    }
}

impl Ingredient for Permute {
    open spec fn wf(self) -> bool {
        self.emit_wf()
    }

    open spec fn spec_ancestors(self) -> Seq<NodeAddress> {
        seq![self.src]
    }

    open spec fn spec_should_materialize(self) -> bool {
        false
    }

    /// An unmaterialized projection may still be queried through by a
    /// downstream consumer, so it declares a query dependency exactly when
    /// it will not itself be materialized.
    open spec fn spec_will_query(self, materialized: bool) -> bool {
        !materialized
    }

    open spec fn connect_ok(pre: Self, g: Graph) -> bool {
        g.contains_address(pre.src)
    }

    /// Connecting caches the upstream column count.
    open spec fn spec_connected(pre: Self, g: Graph) -> Self {
        Permute {
            us: pre.us,
            emit: pre.emit,
            src: pre.src,
            cols: g.nodes@[pre.src.node_index() as int].fields@.len() as usize,
        }
    }

    open spec fn commit_ok(pre: Self, us: NodeAddress, m: Map<NodeAddress, NodeAddress>) -> bool {
        m.contains_key(pre.src)
    }

    /// A commit records the own address, rewrites the source, and drops an
    /// emit specification that demands no permutation.
    open spec fn spec_committed(pre: Self, us: NodeAddress, m: Map<NodeAddress, NodeAddress>) -> Self {
        Permute {
            us: Some(us),
            emit: collapse_emit(pre.emit, pre.cols),
            src: m[pre.src],
            cols: pre.cols,
        }
    }

    open spec fn input_ok(self, input: Message) -> bool {
        &&& input.from == self.src
        &&& self.emit_compatible()
        &&& (self.emit is Some ==> forall|q: int|
            0 <= q < input.data.records().len() ==> (#[trigger] input.data.records()[q]).row().len()
                == self.cols)
    }

    /// Every record is forwarded with its sign kept and its row projected
    /// under the emit specification.
    open spec fn output_ok(self, input: Message, out: Option<Update>) -> bool {
        &&& out matches Some(u) && u.records().len() == input.data.records().len() && forall|q: int|
            0 <= q < input.data.records().len() ==> ((#[trigger] u.records()[q]).is_positive()
                == input.data.records()[q].is_positive() && u.records()[q].row() == projected(
                input.data.records()[q].row(),
                self.emit,
            ))
    }

    open spec fn resolve_ok(self, col: usize) -> bool {
        self.emit matches Some(e) ==> col < e@.len()
    }

    open spec fn spec_resolve(self, col: usize) -> Option<Seq<(NodeAddress, usize)>> {
        Some(seq![(self.src, self.spec_resolve_col(col))])
    }

    open spec fn spec_suggested(self, us: NodeAddress) -> Seq<(NodeAddress, usize)> {
        Seq::empty()
    }

    open spec fn spec_description(self) -> Seq<char> {
        match self.emit {
            Option::None => "π[*]"@,
            Option::Some(e) => "π["@ + emit_list_rep(e@) + "]"@,
        }
    }

    fn ancestors(&self) -> (r: Vec<NodeAddress>) {
        let mut v: Vec<NodeAddress> = Vec::new();
        v.push(self.src);
        proof {
            assert(v@ =~= seq![self.src]);
        }
        v
    }

    fn should_materialize(&self) -> (r: bool) {
        false
    }

    fn will_query(&self, materialized: bool) -> (r: bool) {
        !materialized
    }

    fn on_connected(&mut self, g: &Graph) {
        let n = g.fields(self.src).len();
        self.cols = n;
    }

    fn on_commit(&mut self, us: NodeAddress, remap: &RemapTable) {
        self.us = Some(us);
        self.src = remap.translate(self.src);

        // Eliminate emit specifications which require no permutation of
        // the inputs, so no needless work is done on each update.
        let collapse = match &self.emit {
            Option::None => false,
            Option::Some(e) => e.len() == self.cols && is_sequential(e),
        };
        if collapse {
            self.emit = None;
        }
    }

    fn on_input(&mut self, input: Message, nodes: &DomainNodes, states: &StateMap) -> (r: Option<
        Update,
    >) {
        let ghost self0 = *self;
        let Message { from, data } = input;
        match data {
            Update::Records(mut rs) => {
                if self.emit.is_some() {
                    let n = rs.len();
                    let ghost rs0 = rs@;
                    proof {
                        assert(rs0 == input.data.records());
                        assert forall|q: int| 0 <= q < n implies (#[trigger] rs0[q]).row().len()
                            == self0.cols by {
                            assert(input.data.records()[q].row().len() == self0.cols);
                        }
                    }
                    for idx in 0..n
                        invariant
                            *self == self0,
                            self0.emit_wf(),
                            self0.emit_compatible(),
                            self0.emit is Some,
                            n == rs@.len(),
                            rs0.len() == n as int,
                            forall|q: int|
                                0 <= q < n ==> (#[trigger] rs0[q]).row().len() == self0.cols,
                            forall|q: int|
                                0 <= q < idx ==> ((#[trigger] rs@[q]).is_positive()
                                    == rs0[q].is_positive() && rs@[q].row() == projected(
                                    rs0[q].row(),
                                    self0.emit,
                                )),
                            forall|q: int| idx <= q < n ==> #[trigger] rs@[q] == rs0[q],
                    {
                        match &mut rs[idx] {
                            Record::Positive(row) => self.permute(row),
                            Record::Negative(row) => self.permute(row),
                        }
                    }
                }
                Some(Update::Records(rs))
            },
        }
    }

    fn suggest_indexes(&self, us: NodeAddress) -> (r: Vec<(NodeAddress, usize)>) {
        let v: Vec<(NodeAddress, usize)> = Vec::new();
        proof {
            assert(v@ =~= Seq::<(NodeAddress, usize)>::empty());
        }
        v
    }

    fn resolve(&self, col: usize) -> (r: Option<Vec<(NodeAddress, usize)>>) {
        let c = self.resolve_col(col);
        let mut v: Vec<(NodeAddress, usize)> = Vec::new();
        v.push((self.src, c));
        proof {
            assert(v@ =~= seq![(self.src, c)]);
        }
        Some(v)
    }

    fn description(&self) -> (r: String) {
        match &self.emit {
            Option::None => String::from_str("π[*]"),
            Option::Some(e) => {
                let mut s = String::from_str("π[");
                let n = e.len();
                if n > 0 {
                    push_decimal(e[0], &mut s);
                    proof {
                        assert(e@.take(1).drop_last() =~= Seq::<usize>::empty());
                        assert(emit_list_rep(e@.take(1)) =~= decimal_rep(e@[0] as nat));
                    }
                    for k in 1..n
                        invariant
                            n == e@.len(),
                            s@ == "π["@ + emit_list_rep(e@.take(k as int)),
                    {
                        s.append(", ");
                        push_decimal(e[k], &mut s);
                        proof {
                            let tk = e@.take(k as int + 1);
                            assert(tk.drop_last() =~= e@.take(k as int));
                            assert(tk.last() == e@[k as int]);
                            assert(emit_list_rep(tk) == emit_list_rep(e@.take(k as int)) + ", "@
                                + decimal_rep(e@[k as int] as nat));
                            assert(s@ =~= "π["@ + emit_list_rep(e@.take(k as int + 1)));
                        }
                    }
                }
                s.append("]");
                proof {
                    assert(e@.take(n as int) =~= e@);
                    assert(s@ =~= "π["@ + emit_list_rep(e@) + "]"@);
                }
                s
            },
        }
    }
}

fn is_sequential(e: &Vec<usize>) -> (r: bool)
    ensures
        r == sequential(e@),
{
    let n = e.len();
    for k in 0..n
        invariant
            n == e@.len(),
            forall|q: int| 0 <= q < k ==> (#[trigger] e@[q]) as int == q,
    {
        if e[k] != k {
            return false;
        }
    }
    true
}

/// Law: a complete, strictly sequential emit specification projects every
/// row to itself, so an operator whose specification has collapsed to
/// `None` behaves exactly like one with the explicit full projection.
pub proof fn lemma_sequential_emit_is_identity(row: Seq<DataType>, e: Seq<usize>)
    requires
        e.len() == row.len(),
        sequential(e),
    ensures
        apply_emit(row, e) == row,
{
    assert(apply_emit(row, e) =~= row);
}

/// Law: collapsing the emit specification is idempotent: once a commit
/// has dropped a no-op specification, a further commit with the same
/// column count leaves it dropped and reintroduces no work.
pub proof fn lemma_collapse_idempotent(emit: Option<Vec<usize>>, cols: usize)
    ensures
        collapse_emit(collapse_emit(emit, cols), cols) == collapse_emit(emit, cols),
{
}

/// Law: a commit rewrites the stored ancestor: afterwards the operator
/// declares exactly the remapped address, not the old one.
pub proof fn lemma_commit_rewrites_ancestors(
    p: Permute,
    us: NodeAddress,
    m: Map<NodeAddress, NodeAddress>,
)
    requires
        m.contains_key(p.src),
    ensures
        <Permute as Ingredient>::spec_committed(p, us, m).spec_ancestors() == seq![m[p.src]],
{
    assert(<Permute as Ingredient>::spec_committed(p, us, m).spec_ancestors() =~= seq![m[p.src]]);
}

} // verus!

