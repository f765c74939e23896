//! One evaluation tick. Nodes are ordered by connection dependency; if no
//! order exists the tick fails with `Cycle` and commits nothing. Each node's
//! inputs come from its upstream node's fresh output where connected, else
//! from the port constant; pure outputs are cached for this tick only, sink
//! outputs are buffered and committed to the base layer only after the whole
//! tick succeeded — a failed tick leaves the state exactly as it was.

use vstd::prelude::*;
use vstd::set_lib::lemma_len_subset;
use crate::channel::Channel;
use crate::dmx::DmxState;
use crate::error::EvaluationError;
use crate::graph::{EvaluationGraph, adj, conn_ok, edge, feeds, has_feed, live, node_at};
use crate::node::{Driver, Node, spec_eval_pure, spec_eval_sink, template_output_kinds};
use crate::port::{GVal, gval_eqv, gvals_eqv, int_to_byte, spec_as_ivec};
use crate::universe::Universe;

verus! {

/// `order` is a topological order of the live nodes: each exactly once, and
/// every connection points forward.
pub open spec fn valid_topo(nodes: Seq<Option<Node>>, order: Seq<usize>) -> bool {
    &&& forall|k: int| 0 <= k < order.len() ==> live(nodes, (#[trigger] order[k]) as int)
    &&& forall|p: int, q: int| 0 <= p < q < order.len() ==> order[p] != order[q]
    &&& forall|i: int| #[trigger] live(nodes, i) ==> exists|k: int|
        0 <= k < order.len() && order[k] as int == i
    &&& forall|q: int, u: int|
        0 <= q < order.len() && #[trigger] edge(nodes, u, order[q] as int) ==> exists|p: int|
            0 <= p < q && order[p] as int == u
}

/// A witness that the connections contain a cycle: a nonempty set of live
/// nodes each of which is fed by another member. A finite graph has such a
/// set exactly when it has a directed cycle.
#[verifier::opaque]
pub open spec fn cyclic_set(nodes: Seq<Option<Node>>, s: Set<int>) -> bool {
    &&& s.finite()
    &&& s.len() > 0
    &&& forall|v: int| #[trigger] s.contains(v) ==> live(nodes, v)
    &&& forall|v: int| #[trigger] s.contains(v) ==> exists|u: int| s.contains(u) && edge(nodes, u, v)
}

/// The connections admit no topological order.
pub open spec fn has_cycle(nodes: Seq<Option<Node>>) -> bool {
    exists|s: Set<int>| cyclic_set(nodes, s)
}

/// The smallest index at or after `start` whose node belongs to `s`.
proof fn lemma_first_index_in_set(order: Seq<usize>, s: Set<int>, start: int) -> (k0: int)
    requires
        0 <= start <= order.len(),
        exists|k: int| start <= k < order.len() && s.contains(order[k] as int),
    ensures
        start <= k0 < order.len(),
        s.contains(order[k0] as int),
        forall|p: int| start <= p < k0 ==> !s.contains((#[trigger] order[p]) as int),
    decreases order.len() - start,
{
    if s.contains(order[start] as int) {
        start
    } else {
        lemma_first_index_in_set(order, s, start + 1)
    }
}

/// A cyclic set has a member.
proof fn lemma_cyclic_nonempty(nodes: Seq<Option<Node>>, s: Set<int>)
    requires
        cyclic_set(nodes, s),
    ensures
        exists|v: int| s.contains(v),
{
    broadcast use vstd::set::group_set_axioms;

    reveal(cyclic_set);
    if !(exists|v: int| s.contains(v)) {
        assert(s =~= Set::<int>::empty());
        assert(s.len() == 0);
    }
}

/// Every member of a cyclic set is live and fed by another member.
proof fn lemma_cyclic_member_feeder(nodes: Seq<Option<Node>>, s: Set<int>, v: int)
    requires
        cyclic_set(nodes, s),
        s.contains(v),
    ensures
        live(nodes, v),
        exists|u: int| s.contains(u) && edge(nodes, u, v),
{
    reveal(cyclic_set);
}

/// A topological order refutes any would-be cyclic set: its earliest member
/// in the order has an in-set feeder that would have to stand still earlier.
proof fn lemma_cyclic_set_contra(nodes: Seq<Option<Node>>, order: Seq<usize>, s: Set<int>)
    requires
        valid_topo(nodes, order),
    ensures
        !cyclic_set(nodes, s),
{
    if cyclic_set(nodes, s) {
        lemma_cyclic_nonempty(nodes, s);
        let v = choose|v: int| s.contains(v);
        lemma_cyclic_member_feeder(nodes, s, v);
        assert(live(nodes, v));
        let kv = choose|k: int| 0 <= k < order.len() && order[k] as int == v;
        assert(s.contains(order[kv] as int));
        let k0 = lemma_first_index_in_set(order, s, 0);
        let w = order[k0] as int;
        assert(s.contains(w));
        lemma_cyclic_member_feeder(nodes, s, w);
        let u = choose|u: int| s.contains(u) && edge(nodes, u, w);
        assert(edge(nodes, u, (order[k0]) as int));
        let p = choose|p: int| 0 <= p < k0 && order[p] as int == u;
        assert(s.contains(order[p] as int));
        assert(false);
    }
}

/// A graph with a topological order has no cycle.
pub proof fn lemma_topo_acyclic(nodes: Seq<Option<Node>>, order: Seq<usize>)
    requires
        valid_topo(nodes, order),
    ensures
        !has_cycle(nodes),
{
    if has_cycle(nodes) {
        let s = choose|s: Set<int>| cyclic_set(nodes, s);
        lemma_cyclic_set_contra(nodes, order, s);
    }
}

/// Every in-connection of `v` comes from a node already emitted.
pub open spec fn all_preds_emitted(nodes: Seq<Option<Node>>, emitted: Seq<bool>, v: int) -> bool {
    forall|u: int| #[trigger] edge(nodes, u, v) ==> emitted[u]
}

/// The live slots below `m`.
pub open spec fn live_below(nodes: Seq<Option<Node>>, m: int) -> Set<int> {
    Set::new(|v: int| 0 <= v < m && live(nodes, v))
}

/// When no unemitted live node is ready, the unemitted live nodes form a
/// cyclic set: each still waits on another of them.
proof fn lemma_stuck_has_cycle(
    nodes: Seq<Option<Node>>,
    emitted: Seq<bool>,
    order: Seq<usize>,
    live_set: Set<int>,
)
    requires
        emitted.len() == nodes.len(),
        live_set == live_below(nodes, nodes.len() as int),
        live_set.finite(),
        order.len() < live_set.len(),
        forall|k2: int| 0 <= k2 < order.len() ==> live(nodes, (#[trigger] order[k2]) as int),
        forall|p: int, q: int| 0 <= p < q < order.len() ==> order[p] != order[q],
        forall|x: int|
            0 <= x < nodes.len() ==> ((#[trigger] emitted[x]) <==> exists|k2: int|
                0 <= k2 < order.len() && order[k2] as int == x),
        forall|w: int|
            0 <= w < nodes.len() && live(nodes, w) && !emitted[w] ==> !#[trigger] all_preds_emitted(
                nodes,
                emitted,
                w,
            ),
    ensures
        has_cycle(nodes),
{
    broadcast use vstd::set::group_set_axioms;

    let s = Set::new(|x: int| live(nodes, x) && !emitted[x]);
    let eseq = order.map_values(|u0: usize| u0 as int);
    assert(eseq.no_duplicates()) by {
        assert forall|p: int, q: int|
            0 <= p < eseq.len() && 0 <= q < eseq.len() && p != q implies eseq[p] != eseq[q] by {
            assert(eseq[p] == order[p] as int && eseq[q] == order[q] as int);
        }
    }
    eseq.unique_seq_to_set();
    let eset = eseq.to_set();
    assert(eset.len() == order.len());
    assert forall|x: int| eset.contains(x) implies live_set.contains(x) by {
        let k2 = choose|k2: int| 0 <= k2 < eseq.len() && eseq[k2] == x;
        assert(live(nodes, order[k2] as int));
    }
    lemma_len_subset(eset, live_set);
    if !(exists|x: int| live_set.contains(x) && !eset.contains(x)) {
        assert forall|x: int| live_set.contains(x) implies eset.contains(x) by {}
        lemma_len_subset(live_set, eset);
        assert(false);
    }
    let x0 = choose|x: int| live_set.contains(x) && !eset.contains(x);
    assert(!emitted[x0]) by {
        if emitted[x0] {
            let k2 = choose|k2: int| 0 <= k2 < order.len() && order[k2] as int == x0;
            assert(eseq[k2] == x0);
            assert(eset.contains(x0));
        }
    }
    assert(s.contains(x0));
    assert(s.subset_of(live_set)) by {
        assert forall|x: int| s.contains(x) implies live_set.contains(x) by {}
    }
    lemma_len_subset(s, live_set);
    assert(s.len() > 0) by {
        if s.len() == 0 {
            assert(s =~= Set::<int>::empty());
        }
    }
    assert forall|w: int| #[trigger] s.contains(w) implies exists|u: int|
        s.contains(u) && edge(nodes, u, w) by {
        assert(live(nodes, w));
        assert(0 <= w < nodes.len());
        assert(!emitted[w]);
        assert(!all_preds_emitted(nodes, emitted, w));
        let u = choose|u: int| #[trigger] edge(nodes, u, w) && !emitted[u];
        assert(live(nodes, u));
        assert(s.contains(u));
    }
    assert(cyclic_set(nodes, s)) by {
        reveal(cyclic_set);
    }
}

impl EvaluationGraph {
    /// Whether every connection into `v` starts at an emitted node.
    fn ready(&self, emitted: &Vec<bool>, v: usize) -> (r: bool)
        requires
            self.wf(),
            emitted@.len() == self.nodes().len(),
            v < self.nodes().len(),
        ensures
            r == all_preds_emitted(self.nodes(), emitted@, v as int),
    {
        let n = self.slot_count();
        let mut u: usize = 0;
        while u < n
            invariant
                self.wf(),
                n == self.nodes().len(),
                emitted@.len() == n,
                v < n,
                u <= n,
                forall|w: int| 0 <= w < u && #[trigger] edge(self.nodes(), w, v as int)
                    ==> emitted@[w],
            decreases n - u,
        {
            match self.get_node_by_id(u) {
                Some(nd) => {
                    if !emitted[u] {
                        let m = nd.adjacents.len();
                        let mut a: usize = 0;
                        while a < m
                            invariant
                                self.wf(),
                                n == self.nodes().len(),
                                emitted@.len() == n,
                                u < n,
                                !emitted@[u as int],
                                live(self.nodes(), u as int),
                                *nd == node_at(self.nodes(), u as int),
                                m == nd.adjacents@.len(),
                                a <= m,
                                forall|b: int|
                                    0 <= b < a ==> (#[trigger] adj(self.nodes(), u as int)[b]).end_node
                                        != v,
                            decreases m - a,
                        {
                            if nd.adjacents[a].end_node == v {
                                proof {
                                    assert(adj(self.nodes(), u as int)[a as int].end_node == v);
                                    assert(edge(self.nodes(), u as int, v as int));
                                    assert(!emitted@[u as int]);
                                    assert(!all_preds_emitted(self.nodes(), emitted@, v as int));
                                }
                                return false;
                            }
                            a += 1;
                        }
                        proof {
                            assert(!edge(self.nodes(), u as int, v as int));
                        }
                    }
                },
                None => {
                    proof {
                        assert(!edge(self.nodes(), u as int, v as int));
                    }
                },
            }
            u += 1;
        }
        true
    }

    /// Orders the live nodes by connection dependency, nodes with no inputs
    /// first among equals by lowest id; fails with `Cycle` exactly when the
    /// connections contain one.
    pub fn topo_order(&self) -> (r: Result<Vec<usize>, EvaluationError>)
        requires
            self.wf(),
        ensures
            r is Ok ==> valid_topo(self.nodes(), r->Ok_0@) && !has_cycle(self.nodes()),
            r is Err ==> r->Err_0 == EvaluationError::Cycle && has_cycle(self.nodes()),
    {
        broadcast use vstd::set::group_set_axioms;

        let ghost nodes = self.nodes();
        let n = self.slot_count();
        let mut live_count: usize = 0;
        let mut i: usize = 0;
        proof {
            assert(live_below(nodes, 0) =~= Set::<int>::empty());
        }
        while i < n
            invariant
                nodes == self.nodes(),
                n == nodes.len(),
                i <= n,
                live_below(nodes, i as int).finite(),
                live_count == live_below(nodes, i as int).len(),
                live_count <= i,
            decreases n - i,
        {
            proof {
                if live(nodes, i as int) {
                    assert(live_below(nodes, i as int + 1) =~= live_below(nodes, i as int).insert(
                        i as int,
                    ));
                    assert(!live_below(nodes, i as int).contains(i as int));
                } else {
                    assert(live_below(nodes, i as int + 1) =~= live_below(nodes, i as int));
                }
            }
            if self.get_node_by_id(i).is_some() {
                live_count += 1;
            }
            i += 1;
        }
        proof {
            assert(live_below(nodes, n as int) =~= Set::new(|v: int| live(nodes, v)));
        }
        let ghost live_set = live_below(nodes, n as int);
        let mut emitted: Vec<bool> = Vec::new();
        let mut k: usize = 0;
        while k < n
            invariant
                k <= n,
                emitted@.len() == k,
                forall|x: int| 0 <= x < k ==> !(#[trigger] emitted@[x]),
            decreases n - k,
        {
            emitted.push(false);
            k += 1;
        }
        let mut order: Vec<usize> = Vec::new();
        while order.len() < live_count
            invariant
                self.wf(),
                nodes == self.nodes(),
                n == nodes.len(),
                emitted@.len() == n,
                live_set == live_below(nodes, n as int),
                live_set.finite(),
                live_count == live_set.len(),
                order@.len() <= live_count,
                forall|k2: int|
                    0 <= k2 < order@.len() ==> live(nodes, (#[trigger] order@[k2]) as int),
                forall|p: int, q: int| 0 <= p < q < order@.len() ==> order@[p] != order@[q],
                forall|q: int, u: int|
                    0 <= q < order@.len() && #[trigger] edge(nodes, u, (#[trigger] order@[q]) as int)
                        ==> exists|p: int| 0 <= p < q && order@[p] as int == u,
                forall|x: int|
                    0 <= x < n ==> ((#[trigger] emitted@[x]) <==> exists|k2: int|
                        0 <= k2 < order@.len() && order@[k2] as int == x),
            decreases live_count - order@.len(),
        {
            let mut found: usize = n;
            let mut v: usize = 0;
            while v < n
                invariant
                    self.wf(),
                    nodes == self.nodes(),
                    n == nodes.len(),
                    emitted@.len() == n,
                    v <= n,
                    found == n || (found < n && live(nodes, found as int) && !emitted@[found as int]
                        && all_preds_emitted(nodes, emitted@, found as int)),
                    found == n ==> forall|w: int|
                        0 <= w < v && live(nodes, w) && !emitted@[w] ==> !all_preds_emitted(
                            nodes,
                            emitted@,
                            w,
                        ),
                decreases n - v,
            {
                if self.get_node_by_id(v).is_some() && !emitted[v] && self.ready(&emitted, v) {
                    found = v;
                    v = n;
                } else {
                    v += 1;
                }
            }
            if found == n {
                proof {
                    lemma_stuck_has_cycle(nodes, emitted@, order@, live_set);
                }
                return Err(EvaluationError::Cycle);
            }
            let ghost pre_emitted = emitted@;
            let ghost pre_order = order@;
            emitted[found] = true;
            order.push(found);
            proof {
                assert forall|q: int, u: int|
                    0 <= q < order@.len() && #[trigger] edge(
                        nodes,
                        u,
                        (#[trigger] order@[q]) as int,
                    ) implies exists|p: int| 0 <= p < q && order@[p] as int == u by {
                    if q < pre_order.len() {
                        assert(order@[q] == pre_order[q]);
                        let p = choose|p: int| 0 <= p < q && pre_order[p] as int == u;
                        assert(order@[p] as int == u);
                    } else {
                        assert(order@[q] == found);
                        assert(all_preds_emitted(nodes, pre_emitted, found as int));
                        assert(pre_emitted[u]);
                        assert(live(nodes, u) && 0 <= u < n);
                        let p = choose|p: int| 0 <= p < pre_order.len() && pre_order[p] as int == u;
                        assert(order@[p] as int == u);
                    }
                }
                assert forall|x: int|
                    0 <= x < n implies ((#[trigger] emitted@[x]) <==> exists|k2: int|
                        0 <= k2 < order@.len() && order@[k2] as int == x) by {
                    if x == found {
                        assert(order@[order@.len() - 1] as int == x);
                    } else {
                        assert(emitted@[x] == pre_emitted[x]);
                        if emitted@[x] {
                            let k2 = choose|k2: int|
                                0 <= k2 < pre_order.len() && pre_order[k2] as int == x;
                            assert(order@[k2] as int == x);
                        }
                        if exists|k2: int| 0 <= k2 < order@.len() && order@[k2] as int == x {
                            let k2 = choose|k2: int|
                                0 <= k2 < order@.len() && order@[k2] as int == x;
                            assert(k2 < pre_order.len());
                            assert(pre_order[k2] as int == x);
                        }
                    }
                }
            }
        }
        proof {
            let eseq = order@.map_values(|u0: usize| u0 as int);
            assert(eseq.no_duplicates()) by {
                assert forall|p: int, q: int|
                    0 <= p < eseq.len() && 0 <= q < eseq.len() && p != q implies eseq[p]
                    != eseq[q] by {
                    assert(eseq[p] == order@[p] as int && eseq[q] == order@[q] as int);
                }
            }
            eseq.unique_seq_to_set();
            let eset = eseq.to_set();
            assert forall|x: int| eset.contains(x) implies live_set.contains(x) by {
                let k2 = choose|k2: int| 0 <= k2 < eseq.len() && eseq[k2] == x;
                assert(live(nodes, order@[k2] as int));
            }
            lemma_len_subset(eset, live_set);
            assert forall|i2: int| #[trigger] live(nodes, i2) implies exists|k2: int|
                0 <= k2 < order@.len() && order@[k2] as int == i2 by {
                assert(live_set.contains(i2));
                if !eset.contains(i2) {
                    assert(eset.subset_of(live_set.remove(i2))) by {
                        assert forall|x: int| eset.contains(x) implies live_set.remove(
                            i2,
                        ).contains(x) by {}
                    }
                    assert(live_set.remove(i2).len() == live_set.len() - 1);
                    lemma_len_subset(eset, live_set.remove(i2));
                    assert(false);
                }
                let k2 = choose|k2: int| 0 <= k2 < eseq.len() && eseq[k2] == i2;
                assert(order@[k2] as int == i2);
            }
            assert(valid_topo(nodes, order@));
            lemma_topo_acyclic(nodes, order@);
        }
        Ok(order)
    }

    /// The connection feeding input `j` of node `v`, as (source node, index
    /// in its connection list), if one exists.
    fn find_feed(&self, v: usize, j: usize) -> (r: Option<(usize, usize)>)
        ensures
            r is Some <==> has_feed(self.nodes(), v as int, j as int),
            r is Some ==> feeds(
                self.nodes(),
                r->Some_0.0 as int,
                r->Some_0.1 as int,
                v as int,
                j as int,
            ),
    {
        let n = self.slot_count();
        let mut u: usize = 0;
        while u < n
            invariant
                n == self.nodes().len(),
                u <= n,
                forall|i: int, a: int|
                    0 <= i < u ==> !feeds(self.nodes(), i, a, v as int, j as int),
            decreases n - u,
        {
            match self.get_node_by_id(u) {
                Some(nd) => {
                    let m = nd.adjacents.len();
                    let mut a: usize = 0;
                    while a < m
                        invariant
                            n == self.nodes().len(),
                            u < n,
                            live(self.nodes(), u as int),
                            *nd == node_at(self.nodes(), u as int),
                            m == nd.adjacents@.len(),
                            a <= m,
                            forall|b: int|
                                0 <= b < a ==> !feeds(
                                    self.nodes(),
                                    u as int,
                                    b,
                                    v as int,
                                    j as int,
                                ),
                        decreases m - a,
                    {
                        let c = &nd.adjacents[a];
                        if c.end_node == v && c.end_port == j {
                            proof {
                                assert(feeds(self.nodes(), u as int, a as int, v as int, j as int));
                            }
                            return Some((u, a));
                        }
                        a += 1;
                    }
                },
                None => {
                    proof {
                        assert forall|a: int| !feeds(self.nodes(), u as int, a, v as int, j as int)
                        by {}
                    }
                },
            }
            u += 1;
        }
        None
    }

    /// Runs one evaluation tick against the DMX state. The tick fails with
    /// `Cycle` exactly when the connections contain one; any driver failure
    /// or invalid sink write aborts the whole tick; a failed tick leaves the
    /// state untouched. A successful tick commits exactly the buffered sink
    /// writes of one topological run, to the base layer only — override
    /// values, flags and purposes always survive, as do the fixtures. A sink
    /// write targets absolute channel indices: its list lands at channel 0 of
    /// the named universe.
    #[verifier::loop_isolation(false)]
    pub fn evaluate(&self, dmx: &mut DmxState) -> (r: Result<(), EvaluationError>)
        requires
            self.wf(),
        ensures
            final(dmx).unis().len() == old(dmx).unis().len(),
            final(dmx).fixtures() == old(dmx).fixtures(),
            final(dmx).next_fixture_id() == old(dmx).next_fixture_id(),
            final(dmx).groups() == old(dmx).groups(),
            forall|u: int|
                0 <= u < old(dmx).unis().len() ==> (#[trigger] final(dmx).unis()[u])@.len() == old(
                    dmx,
                ).unis()[u]@.len(),
            forall|u: int, i: int|
                0 <= u < old(dmx).unis().len() && 0 <= i < old(dmx).unis()[u]@.len() ==> ((
                #[trigger] final(dmx).unis()[u]@[i]).val_ovr == old(dmx).unis()[u]@[i].val_ovr
                    && final(dmx).unis()[u]@[i].ovr == old(dmx).unis()[u]@[i].ovr
                    && final(dmx).unis()[u]@[i].purpose == old(dmx).unis()[u]@[i].purpose),
            r is Err ==> *final(dmx) == *old(dmx),
            (r is Err && r->Err_0 == EvaluationError::Cycle) <==> has_cycle(self.nodes()),
            !has_cycle(self.nodes()) ==> exists|order: Seq<usize>|
                #[trigger] valid_topo(self.nodes(), order) && (match spec_run(
                    self.nodes(),
                    self.props_entries(),
                    old(dmx).unis().len() as int,
                    order,
                    order.len() as int,
                ) {
                    Err(e) => r == Err::<(), EvaluationError>(e),
                    Ok(st) => r is Ok && unis_views(final(dmx).unis()) == apply_writes(
                        unis_views(old(dmx).unis()),
                        st.1,
                    ),
                }),
    {
        let ghost nodes = self.nodes();
        let ghost props = self.props_entries();
        let ucount = dmx.universe_count();
        let ghost base = unis_views(old(dmx).unis());
        let order = match self.topo_order() {
            Ok(o) => o,
            Err(e) => {
                return Err(e);
            },
        };
        let n = self.slot_count();
        let olen = order.len();
        let mut cache: Vec<Option<Vec<GVal>>> = Vec::new();
        let mut k0: usize = 0;
        while k0 < n
            invariant
                k0 <= n,
                cache@.len() == k0,
                forall|x: int| 0 <= x < k0 ==> (#[trigger] cache@[x]) is None,
            decreases n - k0,
        {
            cache.push(None);
            k0 += 1;
        }
        let mut writes: Vec<(usize, Vec<u8>)> = Vec::new();
        let mut pos: usize = 0;
        proof {
            broadcast use vstd::map::group_map_axioms;

        }
        while pos < olen
            invariant
                self.wf(),
                nodes == self.nodes(),
                props == self.props_entries(),
                valid_topo(nodes, order@),
                olen == order@.len(),
                n == nodes.len(),
                cache@.len() == n,
                ucount == old(dmx).unis().len(),
                pos <= olen,
                spec_run(nodes, props, ucount as int, order@, pos as int) is Ok,
                ({
                    let st = spec_run(nodes, props, ucount as int, order@, pos as int)->Ok_0;
                    &&& forall|x: int|
                        0 <= x < n ==> ((#[trigger] cache@[x]) is Some <==> st.0.dom().contains(x))
                    &&& forall|x: int|
                        0 <= x < n && (#[trigger] cache@[x]) is Some ==> gvals_eqv(
                            cache@[x]->Some_0@,
                            st.0[x],
                        )
                    &&& forall|x: int| #[trigger]
                        st.0.dom().contains(x) ==> 0 <= x < n && live(nodes, x) && st.0[x].len()
                            == template_output_kinds(node_at(nodes, x).templ).len()
                    &&& forall|x: int| #[trigger]
                        st.0.dom().contains(x) ==> exists|p: int|
                            0 <= p < pos && order@[p] as int == x
                    &&& writes@.len() == st.1.len()
                    &&& forall|p: int|
                        0 <= p < writes@.len() ==> ((#[trigger] writes@[p]).0 as int == st.1[p].0
                            && writes@[p].1@ == st.1[p].1 && writes@[p].0 < ucount
                            && writes@[p].1@.len() <= 512)
                }),
            decreases olen - pos,
        {
            broadcast use vstd::map::group_map_axioms;

            let ghost st = spec_run(nodes, props, ucount as int, order@, pos as int)->Ok_0;
            let v = order[pos];
            proof {
                assert(live(nodes, v as int));
            }
            let nd = match self.get_node_by_id(v) {
                Some(nd) => nd,
                None => {
                    proof {
                        assert(false);
                    }
                    vstd::pervasive::unreached()
                },
            };
            let m = nd.inp.len();
            let mut ins: Vec<GVal> = Vec::new();
            let mut j: usize = 0;
            while j < m
                invariant
                    self.wf(),
                    nodes == self.nodes(),
                    valid_topo(nodes, order@),
                    olen == order@.len(),
                    n == nodes.len(),
                    cache@.len() == n,
                    pos < olen,
                    v == order@[pos as int],
                    live(nodes, v as int),
                    *nd == node_at(nodes, v as int),
                    m == nd.inp@.len(),
                    j <= m,
                    ins@.len() == j,
                    forall|x: int|
                        0 <= x < n ==> ((#[trigger] cache@[x]) is Some <==> st.0.dom().contains(
                            x,
                        )),
                    forall|x: int|
                        0 <= x < n && (#[trigger] cache@[x]) is Some ==> gvals_eqv(
                            cache@[x]->Some_0@,
                            st.0[x],
                        ),
                    forall|x: int| #[trigger]
                        st.0.dom().contains(x) ==> 0 <= x < n && live(nodes, x) && st.0[x].len()
                            == template_output_kinds(node_at(nodes, x).templ).len(),
                    forall|x: int| #[trigger]
                        st.0.dom().contains(x) ==> exists|p: int|
                            0 <= p < pos && order@[p] as int == x,
                    forall|jj: int|
                        0 <= jj < j ==> gval_eqv(
                            #[trigger] ins@[jj],
                            spec_resolve_input(nodes, st.0, v as int, jj),
                        ),
                decreases m - j,
            {
                match self.find_feed(v, j) {
                    Some(feed) => {
                        let (u, a) = feed;
                        proof {
                            assert(feeds(nodes, u as int, a as int, v as int, j as int));
                            assert(adj(nodes, u as int)[a as int].end_node == v);
                            assert(edge(nodes, u as int, v as int));
                            assert(v == order@[pos as int]);
                            assert(edge(nodes, u as int, order@[pos as int] as int));
                            assert(exists|p: int|
                                0 <= p < pos as int && order@[p] as int == u as int);
                            let p = choose|p: int|
                                0 <= p < pos as int && order@[p] as int == u as int;
                            assert(spec_run(nodes, props, ucount as int, order@, pos as int)
                                is Ok);
                            lemma_run_dom(nodes, props, ucount as int, order@, pos as int, p);
                            assert(st.0.dom().contains(u as int));
                        }
                        let src = match self.get_node_by_id(u) {
                            Some(src) => src,
                            None => {
                                proof {
                                    assert(false);
                                }
                                vstd::pervasive::unreached()
                            },
                        };
                        let c = src.adjacents[a];
                        proof {
                            assert(conn_ok(nodes, u as int, c));
                            assert(crate::node::port_kinds(node_at(nodes, u as int).outp@).len()
                                == node_at(nodes, u as int).outp@.len());
                            assert((c.start_port as int) < st.0[u as int].len());
                        }
                        let val = match &cache[u] {
                            Some(outs) => {
                                proof {
                                    assert(gvals_eqv(cache@[u as int]->Some_0@, st.0[u as int]));
                                }
                                outs[c.start_port].duplicate()
                            },
                            None => {
                                proof {
                                    assert(false);
                                }
                                vstd::pervasive::unreached()
                            },
                        };
                        proof {
                            let (u0, a0) = choose|u0: int, a0: int|
                                feeds(nodes, u0, a0, v as int, j as int);
                            assert(has_feed(nodes, v as int, j as int));
                            if u0 != u as int || a0 != a as int {
                                assert(adj(nodes, u0)[a0].end_node == adj(
                                    nodes,
                                    u as int,
                                )[a as int].end_node && adj(nodes, u0)[a0].end_port == adj(
                                    nodes,
                                    u as int,
                                )[a as int].end_port);
                                assert(false);
                            }
                            assert(spec_resolve_input(nodes, st.0, v as int, j as int) == st.0[
                                u as int
                            ][c.start_port as int]);
                            assert(gval_eqv(
                                cache@[u as int]->Some_0@[c.start_port as int],
                                st.0[u as int][c.start_port as int],
                            ));
                            lemma_gval_eqv_trans(
                                val,
                                cache@[u as int]->Some_0@[c.start_port as int],
                                st.0[u as int][c.start_port as int],
                            );
                        }
                        ins.push(val);
                    },
                    None => {
                        let val = nd.inp[j].gval.duplicate();
                        proof {
                            assert(spec_resolve_input(nodes, st.0, v as int, j as int) == node_at(
                                nodes,
                                v as int,
                            ).inp@[j as int].gval);
                        }
                        ins.push(val);
                    },
                }
                j += 1;
            }
            proof {
                assert(gvals_eqv(ins@, spec_resolve(nodes, st.0, v as int))) by {
                    assert(spec_resolve(nodes, st.0, v as int).len() == m);
                    assert forall|jj: int| 0 <= jj < m implies gval_eqv(
                        #[trigger] ins@[jj],
                        spec_resolve(nodes, st.0, v as int)[jj],
                    ) by {
                        assert(spec_resolve(nodes, st.0, v as int)[jj] == spec_resolve_input(
                            nodes,
                            st.0,
                            v as int,
                            jj,
                        ));
                    }
                }
            }
            let ghost spec_ins = spec_resolve(nodes, st.0, v as int);
            let is_sink = match nd.driver {
                Driver::Ctx => true,
                _ => false,
            };
            if is_sink {
                match crate::node::eval_sink(nd.templ, ins) {
                    Err(e) => {
                        proof {
                            lemma_sink_eqv(nd.templ, spec_ins, ins@);
                            lemma_sink_eqv(nd.templ, ins@, spec_ins);
                            assert(spec_run(nodes, props, ucount as int, order@, pos as int + 1)
                                == Err::<(Map<int, Seq<GVal>>, Seq<(int, Seq<u8>)>),
                                EvaluationError,
                            >(e));
                            lemma_spec_run_err_persists(
                                nodes,
                                props,
                                ucount as int,
                                order@,
                                pos as int + 1,
                                olen as int,
                            );
                            lemma_spec_run_err_kind(
                                nodes,
                                props,
                                ucount as int,
                                order@,
                                olen as int,
                            );
                        }
                        return Err(e);
                    },
                    Ok(pairs) => {
                        let ghost spec_pairs = spec_eval_sink(nd.templ, spec_ins)->Ok_0;
                        proof {
                            lemma_sink_eqv(nd.templ, ins@, spec_ins);
                            assert(spec_eval_sink(nd.templ, spec_ins) is Ok);
                            assert(pairs_to_writes(pairs@) == pairs_to_writes(spec_pairs));
                            assert(pairs@.len() == spec_pairs.len());
                        }
                        let pl = pairs.len();
                        let mut pi: usize = 0;
                        while pi < pl
                            invariant
                                pl == pairs@.len(),
                                pi <= pl,
                                pairs_to_writes(pairs@) == pairs_to_writes(spec_pairs),
                                pairs@.len() == spec_pairs.len(),
                                ucount == old(dmx).unis().len(),
                                forall|p: int|
                                    0 <= p < pi ==> 0 <= (#[trigger] pairs@[p]).0 < ucount
                                        && spec_as_ivec(pairs@[p].1).len() <= 512,
                            decreases pl - pi,
                        {
                            let uid = pairs[pi].0;
                            if uid < 0 || (uid as u64) >= (ucount as u64) {
                                proof {
                                    assert(!writes_ok(spec_pairs, ucount as int)) by {
                                        assert(pairs_to_writes(spec_pairs)[pi as int]
                                            == pairs_to_writes(pairs@)[pi as int]);
                                        assert(spec_pairs[pi as int].0 as int == pairs@[
                                            pi as int
                                        ].0 as int);
                                    }
                                    assert(spec_run(
                                        nodes,
                                        props,
                                        ucount as int,
                                        order@,
                                        pos as int + 1,
                                    ) == Err::<(Map<int, Seq<GVal>>, Seq<(int, Seq<u8>)>),
                                        EvaluationError,
                                    >(EvaluationError::TypeMismatch));
                                    lemma_spec_run_err_persists(
                                        nodes,
                                        props,
                                        ucount as int,
                                        order@,
                                        pos as int + 1,
                                        olen as int,
                                    );
                                    lemma_spec_run_err_kind(
                                        nodes,
                                        props,
                                        ucount as int,
                                        order@,
                                        olen as int,
                                    );
                                }
                                return Err(EvaluationError::TypeMismatch);
                            }
                            let gv = pairs[pi].1.duplicate();
                            let vals = match gv.as_ivec() {
                                Ok(vals) => vals,
                                Err(_) => {
                                    proof {
                                        assert(false);
                                    }
                                    vstd::pervasive::unreached()
                                },
                            };
                            proof {
                                lemma_as_ivec_eqv(gv, pairs@[pi as int].1);
                            }
                            if vals.len() > 512 {
                                proof {
                                    assert(!writes_ok(spec_pairs, ucount as int)) by {
                                        assert(pairs_to_writes(spec_pairs)[pi as int]
                                            == pairs_to_writes(pairs@)[pi as int]);
                                        assert(spec_as_ivec(spec_pairs[pi as int].1).map_values(
                                            |x: int| int_to_byte(x),
                                        ) == spec_as_ivec(pairs@[pi as int].1).map_values(
                                            |x: int| int_to_byte(x),
                                        ));
                                        assert(spec_as_ivec(spec_pairs[pi as int].1).len()
                                            == spec_as_ivec(pairs@[pi as int].1).len());
                                    }
                                    assert(spec_run(
                                        nodes,
                                        props,
                                        ucount as int,
                                        order@,
                                        pos as int + 1,
                                    ) == Err::<(Map<int, Seq<GVal>>, Seq<(int, Seq<u8>)>),
                                        EvaluationError,
                                    >(EvaluationError::TypeMismatch));
                                    lemma_spec_run_err_persists(
                                        nodes,
                                        props,
                                        ucount as int,
                                        order@,
                                        pos as int + 1,
                                        olen as int,
                                    );
                                    lemma_spec_run_err_kind(
                                        nodes,
                                        props,
                                        ucount as int,
                                        order@,
                                        olen as int,
                                    );
                                }
                                return Err(EvaluationError::TypeMismatch);
                            }
                            proof {
                                assert(uid >= 0);
                                assert(0 <= pairs@[pi as int].0 < ucount);
                                assert(spec_as_ivec(gv) == spec_as_ivec(pairs@[pi as int].1));
                                assert(spec_as_ivec(pairs@[pi as int].1).len() <= 512);
                            }
                            pi += 1;
                        }
                        let mut pi2: usize = 0;
                        let ghost pre_writes = writes@;
                        while pi2 < pl
                            invariant
                                pl == pairs@.len(),
                                pi2 <= pl,
                                pairs_to_writes(pairs@) == pairs_to_writes(spec_pairs),
                                pairs@.len() == spec_pairs.len(),
                                ucount == old(dmx).unis().len(),
                                forall|p: int|
                                    0 <= p < pl ==> 0 <= (#[trigger] pairs@[p]).0 < ucount
                                        && spec_as_ivec(pairs@[p].1).len() <= 512,
                                writes@.len() == pre_writes.len() + pi2,
                                forall|p: int|
                                    0 <= p < pre_writes.len() ==> #[trigger] writes@[p]
                                        == pre_writes[p],
                                forall|p2: int|
                                    pre_writes.len() <= p2 < writes@.len() ==> ((
                                    #[trigger] writes@[p2]).0 as int == pairs_to_writes(pairs@)[p2
                                        - pre_writes.len()].0 && writes@[p2].1@ == pairs_to_writes(
                                        pairs@,
                                    )[p2 - pre_writes.len()].1 && writes@[p2].0 < ucount
                                        && writes@[p2].1@.len() <= 512),
                            decreases pl - pi2,
                        {
                            let uid = pairs[pi2].0;
                            let gv = pairs[pi2].1.duplicate();
                            let vals = match gv.as_ivec() {
                                Ok(vals) => vals,
                                Err(_) => {
                                    proof {
                                        assert(false);
                                    }
                                    vstd::pervasive::unreached()
                                },
                            };
                            proof {
                                lemma_as_ivec_eqv(gv, pairs@[pi2 as int].1);
                            }
                            let bn = vals.len();
                            let mut bytes: Vec<u8> = Vec::new();
                            let mut bi: usize = 0;
                            while bi < bn
                                invariant
                                    bn == vals@.len(),
                                    bi <= bn,
                                    bytes@.len() == bi,
                                    forall|q: int|
                                        0 <= q < vals@.len() ==> (#[trigger] vals@[q]) as int
                                            == spec_as_ivec(pairs@[pi2 as int].1)[q],
                                    forall|q: int|
                                        0 <= q < bi ==> (#[trigger] bytes@[q]) == int_to_byte(
                                            spec_as_ivec(pairs@[pi2 as int].1)[q],
                                        ),
                                decreases bn - bi,
                            {
                                bytes.push(crate::port::to_byte(vals[bi]));
                                bi += 1;
                            }
                            proof {
                                assert(bytes@ =~= pairs_to_writes(pairs@)[pi2 as int].1);
                                assert(0 <= pairs@[pi2 as int].0 < ucount);
                                assert(bytes@.len() <= 512) by {
                                    assert(spec_as_ivec(pairs@[pi2 as int].1).len() <= 512);
                                }
                            }
                            writes.push((uid as usize, bytes));
                            pi2 += 1;
                        }
                        cache[v] = Some(Vec::new());
                        proof {
                            let st2 = spec_run(
                                nodes,
                                props,
                                ucount as int,
                                order@,
                                pos as int + 1,
                            )->Ok_0;
                            assert(writes_ok(spec_pairs, ucount as int)) by {
                                assert forall|p: int| 0 <= p < spec_pairs.len() implies 0 <= (
                                #[trigger] spec_pairs[p]).0 < ucount && spec_as_ivec(
                                    spec_pairs[p].1,
                                ).len() <= 512 by {
                                    assert(pairs_to_writes(spec_pairs)[p] == pairs_to_writes(
                                        pairs@,
                                    )[p]);
                                    assert(spec_pairs[p].0 as int == pairs@[p].0 as int);
                                    assert(spec_as_ivec(spec_pairs[p].1).map_values(
                                        |x: int| int_to_byte(x),
                                    ) == spec_as_ivec(pairs@[p].1).map_values(
                                        |x: int| int_to_byte(x),
                                    ));
                                    assert(spec_as_ivec(spec_pairs[p].1).len() == spec_as_ivec(
                                        pairs@[p].1,
                                    ).len());
                                }
                            }
                            assert(st2.0 == st.0.insert(v as int, Seq::<GVal>::empty()));
                            assert(st2.1 == st.1 + pairs_to_writes(spec_pairs));
                            assert(st2.1 == st.1 + pairs_to_writes(pairs@));
                            assert(pre_writes.len() == st.1.len());
                            assert(writes@.len() == st2.1.len());
                            assert forall|p: int| 0 <= p < writes@.len() implies ((
                            #[trigger] writes@[p]).0 as int == st2.1[p].0 && writes@[p].1@
                                == st2.1[p].1 && writes@[p].0 < ucount && writes@[p].1@.len()
                                <= 512) by {
                                if p < pre_writes.len() {
                                    assert(writes@[p] == pre_writes[p]);
                                    assert(pre_writes[p].0 as int == st.1[p].0);
                                    assert(pre_writes[p].1@ == st.1[p].1);
                                    assert(pre_writes[p].0 < ucount);
                                    assert(pre_writes[p].1@.len() <= 512);
                                    assert(st2.1[p] == st.1[p]);
                                } else {
                                    assert(writes@[p].0 as int == pairs_to_writes(pairs@)[p
                                        - pre_writes.len()].0);
                                    assert(writes@[p].1@ == pairs_to_writes(pairs@)[p
                                        - pre_writes.len()].1);
                                    assert(st2.1[p] == pairs_to_writes(pairs@)[p - pre_writes.len()]);
                                }
                            }
                            assert(template_output_kinds(node_at(nodes, v as int).templ).len()
                                == 0) by {
                                assert(node_at(nodes, v as int).driver == crate::node::driver_of(
                                    node_at(nodes, v as int).templ,
                                ));
                            }
                        }
                    },
                }
            } else {
                proof {
                    assert(node_at(nodes, v as int).driver == crate::node::driver_of(
                        node_at(nodes, v as int).templ,
                    ));
                    assert(!(node_at(nodes, v as int).driver is Ctx));
                }
                match crate::node::eval_pure(nd.templ, self.props_ref(), &ins) {
                    Err(e) => {
                        proof {
                            assert(spec_eval_pure(nd.templ, props, spec_ins) is Err);
                            assert(spec_eval_pure(nd.templ, props, spec_ins)->Err_0 == e) by {
                                assert(spec_eval_pure(nd.templ, props, ins@)->Err_0 == e);
                            }
                            assert(spec_run(nodes, props, ucount as int, order@, pos as int + 1)
                                == Err::<(Map<int, Seq<GVal>>, Seq<(int, Seq<u8>)>),
                                EvaluationError,
                            >(e));
                            lemma_spec_run_err_persists(
                                nodes,
                                props,
                                ucount as int,
                                order@,
                                pos as int + 1,
                                olen as int,
                            );
                            lemma_spec_run_err_kind(
                                nodes,
                                props,
                                ucount as int,
                                order@,
                                olen as int,
                            );
                        }
                        return Err(e);
                    },
                    Ok(outs) => {
                        cache[v] = Some(outs);
                        proof {
                            let st2 = spec_run(
                                nodes,
                                props,
                                ucount as int,
                                order@,
                                pos as int + 1,
                            )->Ok_0;
                            assert(spec_eval_pure(nd.templ, props, spec_ins) is Ok);
                            assert(st2.0 == st.0.insert(
                                v as int,
                                spec_eval_pure(nd.templ, props, spec_ins)->Ok_0,
                            ));
                            assert(gvals_eqv(
                                cache@[v as int]->Some_0@,
                                spec_eval_pure(nd.templ, props, spec_ins)->Ok_0,
                            )) by {
                                assert(spec_eval_pure(nd.templ, props, ins@)->Ok_0
                                    == spec_eval_pure(nd.templ, props, spec_ins)->Ok_0);
                            }
                            lemma_pure_output_len(nd.templ, props, spec_ins);
                        }
                    },
                }
            }
            pos += 1;
        }
        proof {
            assert(spec_run(nodes, props, ucount as int, order@, olen as int) is Ok);
        }
        let ghost st1 = spec_run(nodes, props, ucount as int, order@, olen as int)->Ok_0.1;
        let wn = writes.len();
        let mut wi: usize = 0;
        proof {
            assert(st1.take(0) =~= Seq::<(int, Seq<u8>)>::empty());
            lemma_apply_writes_fields(base, st1.take(0));
        }
        while wi < wn
            invariant
                wn == writes@.len(),
                wn == st1.len(),
                wi <= wn,
                forall|p: int|
                    0 <= p < writes@.len() ==> ((#[trigger] writes@[p]).0 as int == st1[p].0
                        && writes@[p].1@ == st1[p].1 && writes@[p].0 < ucount
                        && writes@[p].1@.len() <= 512),
                ucount == old(dmx).unis().len(),
                base == unis_views(old(dmx).unis()),
                base.len() == ucount,
                dmx.unis().len() == ucount,
                dmx.fixtures() == old(dmx).fixtures(),
                dmx.next_fixture_id() == old(dmx).next_fixture_id(),
                dmx.groups() == old(dmx).groups(),
                unis_views(dmx.unis()) == apply_writes(base, st1.take(wi as int)),
            decreases wn - wi,
        {
            let uid = writes[wi].0;
            let blen = writes[wi].1.len();
            let ghost cur = apply_writes(base, st1.take(wi as int));
            let chan_count = dmx.universe_channel_count(uid);
            proof {
                lemma_apply_writes_fields(base, st1.take(wi as int));
                assert(cur.len() == ucount);
                assert(cur[uid as int].len() == base[uid as int].len());
                assert(unis_views(dmx.unis())[uid as int] == dmx.unis()[uid as int]@);
                assert(base[uid as int].len() == 512);
            }
            let mut bi: usize = 0;
            while bi < blen
                invariant
                    wi < wn,
                    wn == writes@.len(),
                    uid == writes@[wi as int].0,
                    blen == writes@[wi as int].1@.len(),
                    blen <= 512,
                    uid < ucount,
                    bi <= blen,
                    ucount == old(dmx).unis().len(),
                    cur.len() == ucount,
                    cur[uid as int].len() == 512,
                    dmx.unis().len() == ucount,
                    dmx.fixtures() == old(dmx).fixtures(),
                    dmx.next_fixture_id() == old(dmx).next_fixture_id(),
                    dmx.groups() == old(dmx).groups(),
                    forall|x: int|
                        0 <= x < ucount && x != uid ==> #[trigger] dmx.unis()[x]@ == cur[x],
                    dmx.unis()[uid as int]@.len() == 512,
                    forall|i: int|
                        0 <= i < 512 ==> #[trigger] dmx.unis()[uid as int]@[i] == (if i < bi {
                            Channel {
                                val: writes@[wi as int].1@[i],
                                ..cur[uid as int][i]
                            }
                        } else {
                            cur[uid as int][i]
                        }),
                decreases blen - bi,
            {
                let b = writes[wi].1[bi];
                dmx.set_base(uid, bi, b);
                bi += 1;
            }
            proof {
                assert(st1.take(wi as int + 1).drop_last() =~= st1.take(wi as int));
                assert(st1.take(wi as int + 1).last() == st1[wi as int]);
                assert(apply_writes(base, st1.take(wi as int + 1)) == apply_one(
                    cur,
                    st1[wi as int],
                ));
                assert(st1[wi as int].0 == uid as int);
                assert(st1[wi as int].1 == writes@[wi as int].1@);
                assert(dmx.unis()[uid as int]@ =~= write_channels(
                    cur[uid as int],
                    st1[wi as int].1,
                ));
                assert(unis_views(dmx.unis()) =~= apply_one(cur, st1[wi as int]));
            }
            wi += 1;
        }
        proof {
            assert(st1.take(wn as int) =~= st1);
            lemma_apply_writes_fields(base, st1);
            assert forall|u: int, i: int|
                0 <= u < old(dmx).unis().len() && 0 <= i < old(dmx).unis()[u]@.len() implies ((
            #[trigger] dmx.unis()[u]@[i]).val_ovr == old(dmx).unis()[u]@[i].val_ovr && dmx.unis()[
                u
            ]@[i].ovr == old(dmx).unis()[u]@[i].ovr && dmx.unis()[u]@[i].purpose == old(
                dmx,
            ).unis()[u]@[i].purpose) by {
                assert(unis_views(dmx.unis())[u] == dmx.unis()[u]@);
                assert(base[u] == old(dmx).unis()[u]@);
            }
            assert forall|u: int|
                0 <= u < old(dmx).unis().len() implies (#[trigger] dmx.unis()[u])@.len() == old(
                dmx,
            ).unis()[u]@.len() by {
                assert(unis_views(dmx.unis())[u] == dmx.unis()[u]@);
                assert(base[u] == old(dmx).unis()[u]@);
            }
            assert(valid_topo(nodes, order@));
        }
        Ok(())
    }
}

/// The value input port `j` of node `v` resolves to: the upstream node's
/// cached output where a connection feeds the port, else the port constant.
pub open spec fn spec_resolve_input(
    nodes: Seq<Option<Node>>,
    cache: Map<int, Seq<GVal>>,
    v: int,
    j: int,
) -> GVal {
    if has_feed(nodes, v, j) {
        let (u, a) = choose|u: int, a: int| feeds(nodes, u, a, v, j);
        cache[u][adj(nodes, u)[a].start_port as int]
    } else {
        node_at(nodes, v).inp@[j].gval
    }
}

/// All resolved inputs of node `v`, in port order.
pub open spec fn spec_resolve(nodes: Seq<Option<Node>>, cache: Map<int, Seq<GVal>>, v: int) -> Seq<
    GVal,
> {
    Seq::new(node_at(nodes, v).inp@.len(), |j: int| spec_resolve_input(nodes, cache, v, j))
}

/// Every sink output names an existing universe and at most 512 channels.
pub open spec fn writes_ok(pairs: Seq<(i64, GVal)>, ucount: int) -> bool {
    forall|p: int|
        0 <= p < pairs.len() ==> 0 <= (#[trigger] pairs[p]).0 < ucount && spec_as_ivec(
            pairs[p].1,
        ).len() <= 512
}

/// Sink outputs as buffered writes: universe id, and the channel values
/// clamped into protocol bytes.
pub open spec fn pairs_to_writes(pairs: Seq<(i64, GVal)>) -> Seq<(int, Seq<u8>)> {
    pairs.map_values(
        |p: (i64, GVal)| (p.0 as int, spec_as_ivec(p.1).map_values(|x: int| int_to_byte(x))),
    )
}

/// The tick state after the first `k` nodes of `order` ran: the output cache
/// and the buffered base-layer writes, or the error that aborted the tick.
pub open spec fn spec_run(
    nodes: Seq<Option<Node>>,
    props: Seq<(String, GVal)>,
    ucount: int,
    order: Seq<usize>,
    k: int,
) -> Result<(Map<int, Seq<GVal>>, Seq<(int, Seq<u8>)>), EvaluationError>
    decreases k,
{
    if k <= 0 {
        Ok((Map::empty(), Seq::empty()))
    } else {
        match spec_run(nodes, props, ucount, order, k - 1) {
            Err(e) => Err(e),
            Ok(st) => {
                let v = order[k - 1] as int;
                let nd = node_at(nodes, v);
                let ins = spec_resolve(nodes, st.0, v);
                if nd.driver is Ctx {
                    match spec_eval_sink(nd.templ, ins) {
                        Err(e) => Err(e),
                        Ok(pairs) => {
                            if writes_ok(pairs, ucount) {
                                Ok((st.0.insert(v, Seq::empty()), st.1 + pairs_to_writes(pairs)))
                            } else {
                                Err(EvaluationError::TypeMismatch)
                            }
                        },
                    }
                } else {
                    match spec_eval_pure(nd.templ, props, ins) {
                        Err(e) => Err(e),
                        Ok(outs) => Ok((st.0.insert(v, outs), st.1)),
                    }
                }
            },
        }
    }
}

/// One universe after one buffered write: channels `0..vals.len()` take the
/// written base values, everything else survives.
pub open spec fn write_channels(u: Seq<Channel>, vals: Seq<u8>) -> Seq<Channel> {
    Seq::new(
        u.len(),
        |i: int|
            if 0 <= i < vals.len() {
                Channel { val: vals[i], ..u[i] }
            } else {
                u[i]
            },
    )
}

/// One buffered write applied to the universes.
pub open spec fn apply_one(unis: Seq<Seq<Channel>>, w: (int, Seq<u8>)) -> Seq<Seq<Channel>> {
    if 0 <= w.0 < unis.len() {
        unis.update(w.0, write_channels(unis[w.0], w.1))
    } else {
        unis
    }
}

/// All buffered writes applied in order.
pub open spec fn apply_writes(unis: Seq<Seq<Channel>>, ws: Seq<(int, Seq<u8>)>) -> Seq<
    Seq<Channel>,
>
    decreases ws.len(),
{
    if ws.len() == 0 {
        unis
    } else {
        apply_one(apply_writes(unis, ws.drop_last()), ws.last())
    }
}

/// The channel contents of every universe.
pub open spec fn unis_views(unis: Seq<Universe>) -> Seq<Seq<Channel>> {
    unis.map_values(|u: Universe| u@)
}

/// Applying writes touches only base values: universe count, channel counts,
/// override values, override flags and purposes all survive.
pub proof fn lemma_apply_writes_fields(unis: Seq<Seq<Channel>>, ws: Seq<(int, Seq<u8>)>)
    ensures
        apply_writes(unis, ws).len() == unis.len(),
        forall|u: int|
            0 <= u < unis.len() ==> (#[trigger] apply_writes(unis, ws)[u]).len() == unis[u].len(),
        forall|u: int, i: int|
            0 <= u < unis.len() && 0 <= i < unis[u].len() ==> ((#[trigger] apply_writes(
                unis,
                ws,
            )[u][i]).val_ovr == unis[u][i].val_ovr && apply_writes(unis, ws)[u][i].ovr
                == unis[u][i].ovr && apply_writes(unis, ws)[u][i].purpose == unis[u][i].purpose),
    decreases ws.len(),
{
    if ws.len() > 0 {
        lemma_apply_writes_fields(unis, ws.drop_last());
    }
}

/// An aborted prefix aborts every longer run with the same error.
pub proof fn lemma_spec_run_err_persists(
    nodes: Seq<Option<Node>>,
    props: Seq<(String, GVal)>,
    ucount: int,
    order: Seq<usize>,
    k1: int,
    k2: int,
)
    requires
        0 <= k1 <= k2,
        spec_run(nodes, props, ucount, order, k1) is Err,
    ensures
        spec_run(nodes, props, ucount, order, k2) == spec_run(nodes, props, ucount, order, k1),
    decreases k2 - k1,
{
    if k2 > k1 {
        lemma_spec_run_err_persists(nodes, props, ucount, order, k1, k2 - 1);
    }
}

/// A tick aborted by a driver or a bad write carries `MissingProperty` or
/// `TypeMismatch`, never `Cycle`.
pub proof fn lemma_spec_run_err_kind(
    nodes: Seq<Option<Node>>,
    props: Seq<(String, GVal)>,
    ucount: int,
    order: Seq<usize>,
    k: int,
)
    requires
        spec_run(nodes, props, ucount, order, k) is Err,
    ensures
        spec_run(nodes, props, ucount, order, k)->Err_0 != EvaluationError::Cycle,
    decreases k,
{
    if k > 0 {
        if spec_run(nodes, props, ucount, order, k - 1) is Err {
            lemma_spec_run_err_kind(nodes, props, ucount, order, k - 1);
        }
    }
}

/// Equivalent values coerce to the same integer vector.
pub proof fn lemma_as_ivec_eqv(a: GVal, b: GVal)
    requires
        gval_eqv(a, b),
    ensures
        spec_as_ivec(a) == spec_as_ivec(b),
{
    match (a, b) {
        (GVal::FVec(va, ra), GVal::FVec(vb, rb)) => {
            assert(va@ == vb@);
        },
        (GVal::IVec(wa, ra), GVal::IVec(wb, rb)) => {
            assert(wa@ == wb@);
        },
        _ => {
            assert(a == b);
        },
    }
}

/// Equivalence of values is transitive.
pub proof fn lemma_gval_eqv_trans(a: GVal, b: GVal, c: GVal)
    requires
        gval_eqv(a, b),
        gval_eqv(b, c),
    ensures
        gval_eqv(a, c),
{
}

/// A sink behaves the same on equivalent inputs: same success, same error,
/// and writes that agree byte for byte.
pub proof fn lemma_sink_eqv(t: crate::node::NodeTempl, a: Seq<GVal>, b: Seq<GVal>)
    requires
        gvals_eqv(a, b),
    ensures
        spec_eval_sink(t, a) is Ok <==> spec_eval_sink(t, b) is Ok,
        spec_eval_sink(t, a) is Err ==> spec_eval_sink(t, a)->Err_0 == spec_eval_sink(
            t,
            b,
        )->Err_0,
        spec_eval_sink(t, a) is Ok ==> pairs_to_writes(spec_eval_sink(t, a)->Ok_0)
            == pairs_to_writes(spec_eval_sink(t, b)->Ok_0),
        spec_eval_sink(t, a) is Ok ==> forall|uc: int|
            writes_ok(spec_eval_sink(t, a)->Ok_0, uc) == writes_ok(
                #[trigger] spec_eval_sink(t, b)->Ok_0,
                uc,
            ),
{
    if t is Output && a.len() >= 2 {
        assert(gval_eqv(a[0], b[0]));
        assert(gval_eqv(a[1], b[1]));
        if a[0] is INum && a[0]->INum_1 == crate::node::spec_nonneg_irange() && a[1] is IVec
            && a[1]->IVec_1 == crate::node::spec_byte_irange() {
            assert(a[0] == b[0]);
            let pa = spec_eval_sink(t, a)->Ok_0;
            let pb = spec_eval_sink(t, b)->Ok_0;
            assert(pa.len() == 1 && pb.len() == 1);
            assert(pa[0].0 == pb[0].0);
            assert(gval_eqv(pa[0].1, pb[0].1));
            lemma_as_ivec_eqv(pa[0].1, pb[0].1);
            assert(pairs_to_writes(pa) =~= pairs_to_writes(pb));
            assert forall|uc: int|
                writes_ok(pa, uc) == writes_ok(#[trigger] spec_eval_sink(t, b)->Ok_0, uc) by {
                assert(spec_as_ivec(pa[0].1) == spec_as_ivec(pb[0].1));
            }
        }
    }
}

/// A pure driver's output list is as long as the template's output list.
pub proof fn lemma_pure_output_len(
    t: crate::node::NodeTempl,
    props: Seq<(String, GVal)>,
    ins: Seq<GVal>,
)
    requires
        spec_eval_pure(t, props, ins) is Ok,
    ensures
        spec_eval_pure(t, props, ins)->Ok_0.len() == template_output_kinds(t).len(),
{
}

/// After `k` steps every node of the order's prefix sits in the cache.
pub proof fn lemma_run_dom(
    nodes: Seq<Option<Node>>,
    props: Seq<(String, GVal)>,
    ucount: int,
    order: Seq<usize>,
    k: int,
    p: int,
)
    requires
        spec_run(nodes, props, ucount, order, k) is Ok,
        0 <= p < k,
        k <= order.len(),
    ensures
        spec_run(nodes, props, ucount, order, k)->Ok_0.0.dom().contains(order[p] as int),
    decreases k,
{
    broadcast use vstd::map::group_map_axioms;

    if p == k - 1 {
    } else {
        lemma_run_dom(nodes, props, ucount, order, k - 1, p);
    }
}

} // verus!
