//! The dataflow graph: a slot table of nodes keyed by stable integer ids
//! with a freelist for reuse, the named global properties, and the typed
//! connections. A connection is admitted only between ports of exactly equal
//! kind, checked once at creation; a rejected attempt leaves the topology
//! untouched.

use vstd::prelude::*;
use crate::node::{ConnectionTo, Node, NodeTempl, node_matches_template};
use crate::port::{GVal, Port, gtype_of, spec_gtype_of};
use crate::props::Props;

verus! {

/// Slot `i` holds a node.
pub open spec fn live(nodes: Seq<Option<Node>>, i: int) -> bool {
    0 <= i < nodes.len() && nodes[i] is Some
}

/// The node in slot `i`.
pub open spec fn node_at(nodes: Seq<Option<Node>>, i: int) -> Node
    recommends
        live(nodes, i),
{
    nodes[i]->Some_0
}

/// The outgoing connections of the node in slot `i`.
pub open spec fn adj(nodes: Seq<Option<Node>>, i: int) -> Seq<ConnectionTo>
    recommends
        live(nodes, i),
{
    node_at(nodes, i).adjacents@
}

/// Connection `a` of node `u` feeds input port `j` of node `v`.
pub open spec fn feeds(nodes: Seq<Option<Node>>, u: int, a: int, v: int, j: int) -> bool {
    &&& live(nodes, u)
    &&& 0 <= a < adj(nodes, u).len()
    &&& adj(nodes, u)[a].end_node == v
    &&& adj(nodes, u)[a].end_port == j
}

/// Some connection feeds input port `j` of node `v`.
pub open spec fn has_feed(nodes: Seq<Option<Node>>, v: int, j: int) -> bool {
    exists|u: int, a: int| feeds(nodes, u, a, v, j)
}

/// Some connection runs from node `u` into node `v`: `v` must evaluate after
/// `u`.
pub open spec fn edge(nodes: Seq<Option<Node>>, u: int, v: int) -> bool {
    &&& live(nodes, u)
    &&& exists|a: int| 0 <= a < adj(nodes, u).len() && (#[trigger] adj(nodes, u)[a]).end_node == v
}

/// A connection out of node `i` is structurally sound: its endpoint lives,
/// its ports exist, and the two port kinds are exactly equal.
pub open spec fn conn_ok(nodes: Seq<Option<Node>>, i: int, c: ConnectionTo) -> bool {
    &&& live(nodes, c.end_node as int)
    &&& (c.start_port as int) < node_at(nodes, i).outp@.len()
    &&& (c.end_port as int) < node_at(nodes, c.end_node as int).inp@.len()
    &&& spec_gtype_of(node_at(nodes, i).outp@[c.start_port as int].gval) == spec_gtype_of(
        node_at(nodes, c.end_node as int).inp@[c.end_port as int].gval,
    )
}

/// Every node is template-consistent, every connection is sound, and no two
/// connections feed the same input port.
pub open spec fn conns_wf(nodes: Seq<Option<Node>>) -> bool {
    &&& forall|i: int| live(nodes, i) ==> node_matches_template(#[trigger] node_at(nodes, i))
    &&& forall|i: int, a: int|
        live(nodes, i) && 0 <= a < adj(nodes, i).len() ==> conn_ok(
            nodes,
            i,
            #[trigger] adj(nodes, i)[a],
        )
    &&& forall|i: int, a: int, j: int, b: int|
        live(nodes, i) && live(nodes, j) && 0 <= a < adj(nodes, i).len() && 0 <= b < adj(
            nodes,
            j,
        ).len() && (i != j || a != b) ==> !((#[trigger] adj(nodes, i)[a]).end_node == (
        #[trigger] adj(nodes, j)[b]).end_node && adj(nodes, i)[a].end_port == adj(
            nodes,
            j,
        )[b].end_port)
}

/// Node registry, freelist and global properties.
#[derive(Debug)]
pub struct EvaluationGraph {
    nodes: Vec<Option<Node>>,
    unused: Vec<usize>,
    props: Props,
}

impl EvaluationGraph {
    /// The slot table.
    pub closed spec fn nodes(&self) -> Seq<Option<Node>> {
        self.nodes@
    }

    /// The freelist of empty slots.
    pub closed spec fn freelist(&self) -> Seq<usize> {
        self.unused@
    }

    /// The global property bound to `name`.
    pub closed spec fn prop(&self, name: Seq<char>) -> Option<GVal> {
        self.props.spec_get(name)
    }

    /// The property bindings, in insertion order.
    pub closed spec fn props_entries(&self) -> Seq<(String, GVal)> {
        self.props.entries()
    }

    /// The property table, for the driver dispatch.
    pub fn props_ref(&self) -> (r: &Props)
        ensures
            r.entries() == self.props_entries(),
    {
        &self.props
    }

    /// Structural soundness: the freelist names empty slots, no slot twice,
    /// and the connections are sound (`conns_wf`). Constructors establish it
    /// and every method preserves it.
    pub open spec fn wf(&self) -> bool {
        &&& forall|k: int|
            0 <= k < self.freelist().len() ==> (#[trigger] self.freelist()[k])
                < self.nodes().len() && !(self.nodes()[self.freelist()[k] as int] is Some)
        &&& forall|p: int, q: int|
            0 <= p < q < self.freelist().len() ==> self.freelist()[p] != self.freelist()[q]
        &&& conns_wf(self.nodes())
    }

    /// An empty graph: no nodes, no properties.
    pub fn new() -> (r: Self)
        ensures
            r.wf(),
            r.nodes().len() == 0,
            r.freelist().len() == 0,
            forall|name: Seq<char>| #[trigger] r.prop(name) is None,
    {
        EvaluationGraph { nodes: Vec::new(), unused: Vec::new(), props: Props::new() }
    }

    /// Number of slots (live and free) in the table.
    pub fn slot_count(&self) -> (r: usize)
        ensures
            r == self.nodes().len(),
    {
        self.nodes.len()
    }

    /// The node with `id`, while it lives.
    pub fn get_node_by_id(&self, id: usize) -> (r: Option<&Node>)
        ensures
            r is Some <==> live(self.nodes(), id as int),
            r is Some ==> *r->Some_0 == node_at(self.nodes(), id as int),
    {
        if id < self.nodes.len() {
            self.nodes[id].as_ref()
        } else {
            None
        }
    }

    /// Binds a global property.
    pub fn set_prop(&mut self, name: String, v: GVal)
        requires
            old(self).wf(),
        ensures
            final(self).wf(),
            final(self).nodes() == old(self).nodes(),
            final(self).freelist() == old(self).freelist(),
            final(self).prop(name@) == Some(v),
            forall|other: Seq<char>|
                other != name@ ==> #[trigger] final(self).prop(other) == old(self).prop(other),
    {
        self.props.set(name, v);
    }

    /// Adds a node built from the template, reusing a freed slot when one
    /// exists. Returns the node's stable id: a slot that held no node before.
    pub fn add_node(&mut self, t: NodeTempl) -> (id: usize)
        requires
            old(self).wf(),
        ensures
            final(self).wf(),
            !live(old(self).nodes(), id as int),
            live(final(self).nodes(), id as int),
            node_matches_template(node_at(final(self).nodes(), id as int)),
            node_at(final(self).nodes(), id as int).templ == t,
            adj(final(self).nodes(), id as int).len() == 0,
            id as int == old(self).nodes().len() || id < old(self).nodes().len(),
            final(self).nodes().len() == if id as int == old(self).nodes().len() {
                old(self).nodes().len() + 1
            } else {
                old(self).nodes().len()
            },
            forall|j: int|
                0 <= j < old(self).nodes().len() && j != id ==> final(self).nodes()[j] == old(
                    self,
                ).nodes()[j],
            forall|name: Seq<char>| #[trigger] final(self).prop(name) == old(self).prop(name),
    {
        let node = t.build_node();
        let ghost gnode = node;
        match self.unused.pop() {
            Some(id) => {
                self.nodes[id] = Some(node);
                proof {
                    let newn = self.nodes@;
                    let oldn = old(self).nodes();
                    assert forall|i: int| live(newn, i) implies node_matches_template(
                        #[trigger] node_at(newn, i),
                    ) by {
                        if i != id {
                            assert(newn[i] == oldn[i]);
                            assert(node_at(newn, i) == node_at(oldn, i));
                            assert(node_matches_template(node_at(oldn, i)));
                        } else {
                            assert(node_at(newn, i) == gnode);
                            assert(node_matches_template(gnode));
                        }
                    }
                    assert forall|i: int, a: int|
                        live(newn, i) && 0 <= a < adj(newn, i).len() implies conn_ok(
                        newn,
                        i,
                        #[trigger] adj(newn, i)[a],
                    ) by {
                        assert(adj(newn, id as int).len() == 0);
                        assert(i != id);
                        assert(newn[i] == oldn[i]);
                        assert(adj(newn, i) == adj(oldn, i));
                        assert(conn_ok(oldn, i, adj(oldn, i)[a]));
                        let c = adj(newn, i)[a];
                        assert(c.end_node != id);
                        assert(newn[c.end_node as int] == oldn[c.end_node as int]);
                    }
                    assert forall|i: int, a: int, j: int, b: int|
                        live(newn, i) && live(newn, j) && 0 <= a < adj(newn, i).len() && 0 <= b
                            < adj(newn, j).len() && (i != j || a != b) implies !((
                    #[trigger] adj(newn, i)[a]).end_node == (#[trigger] adj(newn, j)[b]).end_node
                        && adj(newn, i)[a].end_port == adj(newn, j)[b].end_port) by {
                        assert(adj(newn, id as int).len() == 0);
                        assert(i != id && j != id);
                        assert(newn[i] == oldn[i] && newn[j] == oldn[j]);
                        assert(adj(newn, i)[a] == adj(oldn, i)[a]);
                        assert(adj(newn, j)[b] == adj(oldn, j)[b]);
                    }
                }
                id
            },
            None => {
                let id = self.nodes.len();
                self.nodes.push(Some(node));
                proof {
                    let newn = self.nodes@;
                    let oldn = old(self).nodes();
                    assert forall|i: int| live(newn, i) implies node_matches_template(
                        #[trigger] node_at(newn, i),
                    ) by {
                        if i != id {
                            assert(newn[i] == oldn[i]);
                            assert(node_at(newn, i) == node_at(oldn, i));
                            assert(node_matches_template(node_at(oldn, i)));
                        } else {
                            assert(node_at(newn, i) == gnode);
                            assert(node_matches_template(gnode));
                        }
                    }
                    assert forall|i: int, a: int|
                        live(newn, i) && 0 <= a < adj(newn, i).len() implies conn_ok(
                        newn,
                        i,
                        #[trigger] adj(newn, i)[a],
                    ) by {
                        assert(adj(newn, id as int).len() == 0);
                        assert(i != id);
                        assert(newn[i] == oldn[i]);
                        assert(adj(newn, i) == adj(oldn, i));
                        assert(conn_ok(oldn, i, adj(oldn, i)[a]));
                        let c = adj(newn, i)[a];
                        assert(c.end_node != id);
                        assert(newn[c.end_node as int] == oldn[c.end_node as int]);
                    }
                    assert forall|i: int, a: int, j: int, b: int|
                        live(newn, i) && live(newn, j) && 0 <= a < adj(newn, i).len() && 0 <= b
                            < adj(newn, j).len() && (i != j || a != b) implies !((
                    #[trigger] adj(newn, i)[a]).end_node == (#[trigger] adj(newn, j)[b]).end_node
                        && adj(newn, i)[a].end_port == adj(newn, j)[b].end_port) by {
                        assert(adj(newn, id as int).len() == 0);
                        assert(i != id && j != id);
                        assert(newn[i] == oldn[i] && newn[j] == oldn[j]);
                        assert(adj(newn, i)[a] == adj(oldn, i)[a]);
                        assert(adj(newn, j)[b] == adj(oldn, j)[b]);
                    }
                }
                id
            },
        }
    }

    /// Removes the node with `id` and returns it; its slot joins the
    /// freelist for reuse, and every connection into the node is pruned from
    /// the remaining nodes. Removing a dead id changes nothing.
    pub fn delete_node(&mut self, id: usize) -> (r: Option<Node>)
        requires
            old(self).wf(),
        ensures
            final(self).wf(),
            r is Some <==> live(old(self).nodes(), id as int),
            r is None ==> *final(self) == *old(self),
            r is Some ==> ({
                &&& r->Some_0 == node_at(old(self).nodes(), id as int)
                &&& final(self).nodes().len() == old(self).nodes().len()
                &&& !(final(self).nodes()[id as int] is Some)
                &&& forall|k: int|
                    0 <= k < old(self).nodes().len() && k != id && !live(old(self).nodes(), k)
                        ==> !(#[trigger] final(self).nodes()[k] is Some)
                &&& forall|k: int|
                    0 <= k < old(self).nodes().len() && k != id && live(old(self).nodes(), k)
                        ==> live(final(self).nodes(), k) && (#[trigger] node_at(
                        final(self).nodes(),
                        k,
                    )).title == node_at(old(self).nodes(), k).title && node_at(
                        final(self).nodes(),
                        k,
                    ).inp == node_at(old(self).nodes(), k).inp && node_at(
                        final(self).nodes(),
                        k,
                    ).outp == node_at(old(self).nodes(), k).outp && node_at(
                        final(self).nodes(),
                        k,
                    ).templ == node_at(old(self).nodes(), k).templ && node_at(
                        final(self).nodes(),
                        k,
                    ).driver == node_at(old(self).nodes(), k).driver && adj(
                        final(self).nodes(),
                        k,
                    ) == adj(old(self).nodes(), k).filter(
                        |c: ConnectionTo| c.end_node != id,
                    )
                &&& final(self).freelist() == old(self).freelist().push(id)
                &&& forall|name: Seq<char>| #[trigger]
                    final(self).prop(name) == old(self).prop(name)
            }),
    {
        if id >= self.nodes.len() {
            return None;
        }
        if !self.nodes[id].is_some() {
            return None;
        }
        let removed = self.nodes[id].take();
        let node = match removed {
            Some(node) => node,
            None => {
                proof {
                    assert(false);
                }
                vstd::pervasive::unreached()
            },
        };
        let ghost oldn = old(self).nodes();
        let n = self.nodes.len();
        let mut j: usize = 0;
        while j < n
            invariant
                self.unused == old(self).unused,
                self.props == old(self).props,
                n == self.nodes@.len(),
                n == oldn.len(),
                id < n,
                !(self.nodes@[id as int] is Some),
                j <= n,
                forall|k: int| j <= k < n && k != id ==> self.nodes@[k] == oldn[k],
                forall|k: int|
                    0 <= k < j && k != id && !(oldn[k] is Some) ==> !(#[trigger] self.nodes@[k]
                        is Some),
                forall|k: int|
                    0 <= k < j && k != id && oldn[k] is Some ==> (#[trigger] self.nodes@[k])
                        is Some && node_at(self.nodes@, k).title == node_at(oldn, k).title && node_at(
                        self.nodes@,
                        k,
                    ).inp == node_at(oldn, k).inp && node_at(self.nodes@, k).outp == node_at(
                        oldn,
                        k,
                    ).outp && node_at(self.nodes@, k).templ == node_at(oldn, k).templ && node_at(
                        self.nodes@,
                        k,
                    ).driver == node_at(oldn, k).driver && adj(self.nodes@, k) == adj(
                        oldn,
                        k,
                    ).filter(|c: ConnectionTo| c.end_node != id),
            decreases n - j,
        {
            if j != id && self.nodes[j].is_some() {
                let mut slot: Option<Node> = None;
                core::mem::swap(&mut self.nodes[j], &mut slot);
                let mut nd = match slot {
                    Some(nd) => nd,
                    None => {
                        proof {
                            assert(false);
                        }
                        vstd::pervasive::unreached()
                    },
                };
                let ghost node_adj = nd.adjacents@;
                let mut kept: Vec<ConnectionTo> = Vec::new();
                let m = nd.adjacents.len();
                let mut a: usize = 0;
                while a < m
                    invariant
                        m == node_adj.len(),
                        nd.adjacents@ == node_adj,
                        a <= m,
                        kept@ == node_adj.take(a as int).filter(|c: ConnectionTo| c.end_node != id),
                    decreases m - a,
                {
                    let c = nd.adjacents[a];
                    proof {
                        reveal(Seq::filter);
                        assert(node_adj.take(a as int + 1).drop_last() =~= node_adj.take(a as int));
                        assert(node_adj.take(a as int + 1).last() == node_adj[a as int]);
                    }
                    if c.end_node != id {
                        kept.push(c);
                    }
                    a += 1;
                }
                proof {
                    assert(node_adj.take(m as int) =~= node_adj);
                }
                nd.adjacents = kept;
                self.nodes[j] = Some(nd);
                proof {
                    assert(oldn[j as int] is Some);
                    assert(node_adj == adj(oldn, j as int));
                    assert(self.nodes@[j as int] is Some);
                    assert(node_at(self.nodes@, j as int).title == node_at(oldn, j as int).title);
                    assert(node_at(self.nodes@, j as int).inp == node_at(oldn, j as int).inp);
                    assert(node_at(self.nodes@, j as int).outp == node_at(oldn, j as int).outp);
                    assert(node_at(self.nodes@, j as int).templ == node_at(oldn, j as int).templ);
                    assert(node_at(self.nodes@, j as int).driver == node_at(
                        oldn,
                        j as int,
                    ).driver);
                    assert(adj(self.nodes@, j as int) == adj(oldn, j as int).filter(
                        |c: ConnectionTo| c.end_node != id,
                    ));
                }
            }
            j += 1;
        }
        self.unused.push(id);
        proof {
            let newn = self.nodes@;
            assert forall|k: int|
                0 <= k < self.unused@.len() implies (#[trigger] self.unused@[k]) < newn.len() && !(
            newn[self.unused@[k] as int] is Some) by {
                if k < old(self).freelist().len() {
                    assert(old(self).freelist()[k] == self.unused@[k]);
                    assert(!(oldn[self.unused@[k] as int] is Some));
                }
            }
            assert forall|p: int, q: int|
                0 <= p < q < self.unused@.len() implies self.unused@[p] != self.unused@[q] by {
                if q == self.unused@.len() - 1 {
                    assert(self.unused@[p] == old(self).freelist()[p]);
                    assert(!(oldn[self.unused@[p] as int] is Some));
                }
            }
            assert forall|i: int| live(newn, i) implies node_matches_template(
                #[trigger] node_at(newn, i),
            ) by {
                assert(oldn[i] is Some);
                assert(node_matches_template(node_at(oldn, i)));
            }
            lemma_filter_is_subset(Seq::<ConnectionTo>::empty(), |c: ConnectionTo| true);
            assert forall|i: int, a: int|
                live(newn, i) && 0 <= a < adj(newn, i).len() implies conn_ok(
                newn,
                i,
                #[trigger] adj(newn, i)[a],
            ) by {
                assert(i != id && oldn[i] is Some);
                lemma_filter_is_subset(adj(oldn, i), |c: ConnectionTo| c.end_node != id);
                let c = adj(newn, i)[a];
                assert(c == adj(oldn, i).filter(|c0: ConnectionTo| c0.end_node != id)[a]);
                adj(oldn, i).lemma_filter_pred(|c0: ConnectionTo| c0.end_node != id, a);
                let k = choose|k: int| 0 <= k < adj(oldn, i).len() && adj(oldn, i)[k] == c;
                assert(conn_ok(oldn, i, adj(oldn, i)[k]));
                assert(c.end_node != id);
                assert(node_at(newn, c.end_node as int).inp == node_at(
                    oldn,
                    c.end_node as int,
                ).inp);
                assert(node_at(newn, i).outp == node_at(oldn, i).outp);
            }
            assert forall|i: int, a2: int, j2: int, b2: int|
                live(newn, i) && live(newn, j2) && 0 <= a2 < adj(newn, i).len() && 0 <= b2 < adj(
                    newn,
                    j2,
                ).len() && (i != j2 || a2 != b2) implies !((#[trigger] adj(newn, i)[a2]).end_node
                == (#[trigger] adj(newn, j2)[b2]).end_node && adj(newn, i)[a2].end_port == adj(
                newn,
                j2,
            )[b2].end_port) by {
                assert(i != id && j2 != id && oldn[i] is Some && oldn[j2] is Some);
                lemma_filter_is_subset(adj(oldn, i), |c0: ConnectionTo| c0.end_node != id);
                lemma_filter_is_subset(adj(oldn, j2), |c0: ConnectionTo| c0.end_node != id);
                let ca = adj(newn, i)[a2];
                let cb = adj(newn, j2)[b2];
                assert(ca == adj(oldn, i).filter(|c0: ConnectionTo| c0.end_node != id)[a2]);
                assert(cb == adj(oldn, j2).filter(|c0: ConnectionTo| c0.end_node != id)[b2]);
                let ka = choose|k: int| 0 <= k < adj(oldn, i).len() && adj(oldn, i)[k] == ca;
                let kb = choose|k: int| 0 <= k < adj(oldn, j2).len() && adj(oldn, j2)[k] == cb;
                if i == j2 {
                    assert(adj(oldn, i).no_duplicates()) by {
                        assert forall|p: int, q: int|
                            0 <= p < adj(oldn, i).len() && 0 <= q < adj(oldn, i).len() && p != q
                            implies adj(oldn, i)[p] != adj(oldn, i)[q] by {
                            assert(adj(oldn, i)[p] == adj(oldn, i)[p]);
                            assert(adj(oldn, i)[q] == adj(oldn, i)[q]);
                        }
                    }
                    lemma_filter_no_dup(adj(oldn, i), |c0: ConnectionTo| c0.end_node != id);
                    assert(ca != cb);
                    assert(ka != kb);
                }
            }
        }
        Some(node)
    }

    /// Whether some connection already feeds input `j` of node `v`.
    fn feed_exists(&self, v: usize, j: usize) -> (r: bool)
        ensures
            r == has_feed(self.nodes(), v as int, j as int),
    {
        let n = self.nodes.len();
        let mut u: usize = 0;
        while u < n
            invariant
                n == self.nodes@.len(),
                u <= n,
                forall|i: int, a: int| 0 <= i < u ==> !feeds(self.nodes@, i, a, v as int, j as int),
            decreases n - u,
        {
            match &self.nodes[u] {
                Some(nd) => {
                    let m = nd.adjacents.len();
                    let mut a: usize = 0;
                    while a < m
                        invariant
                            n == self.nodes@.len(),
                            u < n,
                            self.nodes@[u as int] is Some,
                            nd == node_at(self.nodes@, u as int),
                            m == nd.adjacents@.len(),
                            a <= m,
                            forall|b: int|
                                0 <= b < a ==> !feeds(self.nodes@, u as int, b, v as int, j as int),
                        decreases m - a,
                    {
                        let c = &nd.adjacents[a];
                        if c.end_node == v && c.end_port == j {
                            proof {
                                assert(feeds(self.nodes@, u as int, a as int, v as int, j as int));
                            }
                            return true;
                        }
                        a += 1;
                    }
                },
                None => {
                    proof {
                        assert forall|a: int| !feeds(self.nodes@, u as int, a, v as int, j as int)
                        by {}
                    }
                },
            }
            u += 1;
        }
        false
    }

    /// Adds a connection out of `node_id`. It is admitted only if both
    /// endpoints live, both ports exist, the two kinds are exactly equal and
    /// the input port is still unconnected; a rejected attempt changes
    /// nothing.
    pub fn add_connection(&mut self, node_id: usize, con: ConnectionTo) -> (r: Option<()>)
        requires
            old(self).wf(),
        ensures
            final(self).wf(),
            r is Some <==> ({
                &&& live(old(self).nodes(), node_id as int)
                &&& live(old(self).nodes(), con.end_node as int)
                &&& conn_ok(old(self).nodes(), node_id as int, con)
                &&& !has_feed(old(self).nodes(), con.end_node as int, con.end_port as int)
            }),
            r is None ==> *final(self) == *old(self),
            r is Some ==> ({
                &&& final(self).nodes().len() == old(self).nodes().len()
                &&& adj(final(self).nodes(), node_id as int) == adj(
                    old(self).nodes(),
                    node_id as int,
                ).push(con)
                &&& node_at(final(self).nodes(), node_id as int).templ == node_at(
                    old(self).nodes(),
                    node_id as int,
                ).templ
                &&& node_at(final(self).nodes(), node_id as int).inp == node_at(
                    old(self).nodes(),
                    node_id as int,
                ).inp
                &&& node_at(final(self).nodes(), node_id as int).outp == node_at(
                    old(self).nodes(),
                    node_id as int,
                ).outp
                &&& forall|j: int|
                    0 <= j < old(self).nodes().len() && j != node_id ==> final(self).nodes()[j]
                        == old(self).nodes()[j]
                &&& final(self).freelist() == old(self).freelist()
                &&& forall|name: Seq<char>| #[trigger]
                    final(self).prop(name) == old(self).prop(name)
            }),
    {
        if node_id >= self.nodes.len() || con.end_node >= self.nodes.len() {
            return None;
        }
        let (src_live, outp_len) = match &self.nodes[node_id] {
            Some(nd) => (true, nd.outp.len()),
            None => (false, 0),
        };
        let (dst_live, inp_len) = match &self.nodes[con.end_node] {
            Some(nd) => (true, nd.inp.len()),
            None => (false, 0),
        };
        if !src_live || !dst_live {
            return None;
        }
        if con.start_port >= outp_len || con.end_port >= inp_len {
            return None;
        }
        let kinds_equal = match (&self.nodes[node_id], &self.nodes[con.end_node]) {
            (Some(src), Some(dst)) => gtype_of(&src.outp[con.start_port].gval).is_equal_to(
                &gtype_of(&dst.inp[con.end_port].gval),
            ),
            _ => false,
        };
        if !kinds_equal {
            return None;
        }
        if self.feed_exists(con.end_node, con.end_port) {
            return None;
        }
        let mut slot: Option<Node> = None;
        core::mem::swap(&mut self.nodes[node_id], &mut slot);
        let mut nd = match slot {
            Some(nd) => nd,
            None => {
                proof {
                    assert(false);
                }
                vstd::pervasive::unreached()
            },
        };
        nd.adjacents.push(con);
        self.nodes[node_id] = Some(nd);
        proof {
            let newn = self.nodes@;
            let oldn = old(self).nodes();
            assert forall|i: int| live(newn, i) implies node_matches_template(
                #[trigger] node_at(newn, i),
            ) by {
                if i != node_id {
                    assert(newn[i] == oldn[i]);
                } else {
                    assert(node_matches_template(node_at(oldn, i)));
                }
            }
            assert forall|i: int, a: int|
                live(newn, i) && 0 <= a < adj(newn, i).len() implies conn_ok(
                newn,
                i,
                #[trigger] adj(newn, i)[a],
            ) by {
                let c = adj(newn, i)[a];
                if i == node_id && a == adj(oldn, i).len() {
                    assert(c == con);
                    assert(conn_ok(oldn, node_id as int, con));
                } else {
                    assert(adj(newn, i)[a] == adj(oldn, i)[a]);
                    assert(conn_ok(oldn, i, adj(oldn, i)[a]));
                }
            }
            assert forall|i: int, a: int, j: int, b: int|
                live(newn, i) && live(newn, j) && 0 <= a < adj(newn, i).len() && 0 <= b < adj(
                    newn,
                    j,
                ).len() && (i != j || a != b) implies !((#[trigger] adj(newn, i)[a]).end_node == (
            #[trigger] adj(newn, j)[b]).end_node && adj(newn, i)[a].end_port == adj(
                newn,
                j,
            )[b].end_port) by {
                let ca = adj(newn, i)[a];
                let cb = adj(newn, j)[b];
                let new_a = i == node_id && a == adj(oldn, i).len();
                let new_b = j == node_id && b == adj(oldn, j).len();
                if new_a && new_b {
                } else if new_a {
                    assert(cb == adj(oldn, j)[b]);
                    if cb.end_node == con.end_node && cb.end_port == con.end_port {
                        assert(feeds(oldn, j, b, con.end_node as int, con.end_port as int));
                        assert(has_feed(oldn, con.end_node as int, con.end_port as int));
                    }
                } else if new_b {
                    assert(ca == adj(oldn, i)[a]);
                    if ca.end_node == con.end_node && ca.end_port == con.end_port {
                        assert(feeds(oldn, i, a, con.end_node as int, con.end_port as int));
                        assert(has_feed(oldn, con.end_node as int, con.end_port as int));
                    }
                } else {
                    assert(ca == adj(oldn, i)[a] && cb == adj(oldn, j)[b]);
                }
            }
        }
        Some(())
    }

    /// Removes the matching connection out of `node_id`, if the endpoints
    /// live and the ports exist; echoes the request back when so. The
    /// connection list keeps its order.
    pub fn delete_connection(&mut self, node_id: usize, con: &ConnectionTo) -> (r: Option<
        ConnectionTo,
    >)
        requires
            old(self).wf(),
        ensures
            final(self).wf(),
            r is Some <==> ({
                &&& live(old(self).nodes(), node_id as int)
                &&& live(old(self).nodes(), con.end_node as int)
                &&& (con.start_port as int) < node_at(old(self).nodes(), node_id as int).outp@.len()
                &&& (con.end_port as int) < node_at(
                    old(self).nodes(),
                    con.end_node as int,
                ).inp@.len()
            }),
            r is Some ==> r->Some_0 == *con,
            r is None ==> *final(self) == *old(self),
            r is Some ==> ({
                &&& final(self).nodes().len() == old(self).nodes().len()
                &&& adj(final(self).nodes(), node_id as int) == adj(
                    old(self).nodes(),
                    node_id as int,
                ).filter(|c: ConnectionTo| c != *con)
                &&& forall|j: int|
                    0 <= j < old(self).nodes().len() && j != node_id ==> final(self).nodes()[j]
                        == old(self).nodes()[j]
                &&& final(self).freelist() == old(self).freelist()
                &&& forall|name: Seq<char>| #[trigger]
                    final(self).prop(name) == old(self).prop(name)
            }),
    {
        if node_id >= self.nodes.len() || con.end_node >= self.nodes.len() {
            return None;
        }
        let (src_live, outp_len) = match &self.nodes[node_id] {
            Some(nd) => (true, nd.outp.len()),
            None => (false, 0),
        };
        let (dst_live, inp_len) = match &self.nodes[con.end_node] {
            Some(nd) => (true, nd.inp.len()),
            None => (false, 0),
        };
        if !src_live || !dst_live {
            return None;
        }
        if con.start_port >= outp_len || con.end_port >= inp_len {
            return None;
        }
        let mut slot: Option<Node> = None;
        core::mem::swap(&mut self.nodes[node_id], &mut slot);
        let mut nd = match slot {
            Some(nd) => nd,
            None => {
                proof {
                    assert(false);
                }
                vstd::pervasive::unreached()
            },
        };
        let ghost old_adj = nd.adjacents@;
        let mut kept: Vec<ConnectionTo> = Vec::new();
        let m = nd.adjacents.len();
        let mut a: usize = 0;
        while a < m
            invariant
                m == old_adj.len(),
                nd.adjacents@ == old_adj,
                a <= m,
                kept@ == old_adj.take(a as int).filter(|c: ConnectionTo| c != *con),
            decreases m - a,
        {
            let c = nd.adjacents[a];
            proof {
                reveal(Seq::filter);
                assert(old_adj.take(a as int + 1).drop_last() =~= old_adj.take(a as int));
                assert(old_adj.take(a as int + 1).last() == old_adj[a as int]);
            }
            if !(c == *con) {
                kept.push(c);
            }
            a += 1;
        }
        proof {
            assert(old_adj.take(m as int) =~= old_adj);
        }
        nd.adjacents = kept;
        self.nodes[node_id] = Some(nd);
        proof {
            let newn = self.nodes@;
            let oldn = old(self).nodes();
            lemma_filter_is_subset(old_adj, |c: ConnectionTo| c != *con);
            assert forall|i: int| live(newn, i) implies node_matches_template(
                #[trigger] node_at(newn, i),
            ) by {
                if i != node_id {
                    assert(newn[i] == oldn[i]);
                } else {
                    assert(node_matches_template(node_at(oldn, i)));
                }
            }
            assert forall|i: int, a2: int|
                live(newn, i) && 0 <= a2 < adj(newn, i).len() implies conn_ok(
                newn,
                i,
                #[trigger] adj(newn, i)[a2],
            ) by {
                if i == node_id {
                    let c = adj(newn, i)[a2];
                    assert(c == old_adj.filter(|c0: ConnectionTo| c0 != *con)[a2]);
                    let k = choose|k: int| 0 <= k < old_adj.len() && old_adj[k] == c;
                    assert(adj(oldn, node_id as int)[k] == old_adj[k]);
                    assert(conn_ok(oldn, node_id as int, old_adj[k]));
                } else {
                    assert(adj(newn, i)[a2] == adj(oldn, i)[a2]);
                    assert(conn_ok(oldn, i, adj(oldn, i)[a2]));
                }
            }
            assert(old_adj.no_duplicates()) by {
                assert forall|p: int, q: int|
                    0 <= p < old_adj.len() && 0 <= q < old_adj.len() && p != q implies old_adj[p]
                    != old_adj[q] by {
                    assert(adj(oldn, node_id as int)[p] == old_adj[p]);
                    assert(adj(oldn, node_id as int)[q] == old_adj[q]);
                }
            }
            lemma_filter_no_dup(old_adj, |c: ConnectionTo| c != *con);
            assert forall|i: int, a2: int, j: int, b2: int|
                live(newn, i) && live(newn, j) && 0 <= a2 < adj(newn, i).len() && 0 <= b2 < adj(
                    newn,
                    j,
                ).len() && (i != j || a2 != b2) implies !((#[trigger] adj(newn, i)[a2]).end_node
                == (#[trigger] adj(newn, j)[b2]).end_node && adj(newn, i)[a2].end_port == adj(
                newn,
                j,
            )[b2].end_port) by {
                let ca = adj(newn, i)[a2];
                let cb = adj(newn, j)[b2];
                if i == node_id && j == node_id {
                    assert(ca != cb);
                    let ma = choose|ma: int| 0 <= ma < old_adj.len() && old_adj[ma] == ca;
                    let mb = choose|mb: int| 0 <= mb < old_adj.len() && old_adj[mb] == cb;
                    assert(ma != mb);
                    assert(adj(oldn, node_id as int)[ma] == ca);
                    assert(adj(oldn, node_id as int)[mb] == cb);
                } else if i == node_id {
                    let k = choose|k: int| 0 <= k < old_adj.len() && old_adj[k] == ca;
                    assert(adj(oldn, node_id as int)[k] == ca);
                    assert(cb == adj(oldn, j)[b2]);
                } else if j == node_id {
                    let k = choose|k: int| 0 <= k < old_adj.len() && old_adj[k] == cb;
                    assert(adj(oldn, node_id as int)[k] == cb);
                    assert(ca == adj(oldn, i)[a2]);
                } else {
                    assert(ca == adj(oldn, i)[a2] && cb == adj(oldn, j)[b2]);
                }
            }
        }
        Some(*con)
    }

    /// Sets the constant of input `port` of node `id`. Admitted only when
    /// the node lives, the port exists and the new value carries exactly the
    /// port's declared kind; a rejected attempt changes nothing.
    pub fn set_node_input(&mut self, id: usize, port: usize, v: GVal) -> (r: Option<()>)
        requires
            old(self).wf(),
        ensures
            final(self).wf(),
            r is Some <==> (live(old(self).nodes(), id as int) && (port as int) < node_at(
                old(self).nodes(),
                id as int,
            ).inp@.len() && spec_gtype_of(v) == spec_gtype_of(
                node_at(old(self).nodes(), id as int).inp@[port as int].gval,
            )),
            r is None ==> *final(self) == *old(self),
            r is Some ==> ({
                &&& final(self).nodes().len() == old(self).nodes().len()
                &&& node_at(final(self).nodes(), id as int).inp@ == node_at(
                    old(self).nodes(),
                    id as int,
                ).inp@.update(
                    port as int,
                    Port {
                        name: node_at(old(self).nodes(), id as int).inp@[port as int].name,
                        gval: v,
                    },
                )
                &&& node_at(final(self).nodes(), id as int).outp == node_at(
                    old(self).nodes(),
                    id as int,
                ).outp
                &&& node_at(final(self).nodes(), id as int).adjacents == node_at(
                    old(self).nodes(),
                    id as int,
                ).adjacents
                &&& node_at(final(self).nodes(), id as int).templ == node_at(
                    old(self).nodes(),
                    id as int,
                ).templ
                &&& node_at(final(self).nodes(), id as int).driver == node_at(
                    old(self).nodes(),
                    id as int,
                ).driver
                &&& forall|j: int|
                    0 <= j < old(self).nodes().len() && j != id ==> final(self).nodes()[j] == old(
                        self,
                    ).nodes()[j]
                &&& final(self).freelist() == old(self).freelist()
                &&& forall|name: Seq<char>| #[trigger]
                    final(self).prop(name) == old(self).prop(name)
            }),
    {
        if id >= self.nodes.len() {
            return None;
        }
        let ok = match &self.nodes[id] {
            Some(nd) => {
                if port < nd.inp.len() {
                    gtype_of(&v).is_equal_to(&gtype_of(&nd.inp[port].gval))
                } else {
                    false
                }
            },
            None => false,
        };
        if !ok {
            return None;
        }
        let mut slot: Option<Node> = None;
        core::mem::swap(&mut self.nodes[id], &mut slot);
        let mut nd = match slot {
            Some(nd) => nd,
            None => {
                proof {
                    assert(false);
                }
                vstd::pervasive::unreached()
            },
        };
        let mut p: Port = nd.inp.remove(port);
        let ghost old_port = p;
        p.gval = v;
        nd.inp.insert(port, p);
        proof {
            assert(nd.inp@ =~= node_at(old(self).nodes(), id as int).inp@.update(
                port as int,
                Port { name: old_port.name, gval: v },
            ));
        }
        self.nodes[id] = Some(nd);
        proof {
            let newn = self.nodes@;
            let oldn = old(self).nodes();
            assert forall|i: int| live(newn, i) implies node_matches_template(
                #[trigger] node_at(newn, i),
            ) by {
                if i != id {
                    assert(newn[i] == oldn[i]);
                } else {
                    assert(node_matches_template(node_at(oldn, i)));
                    assert(crate::node::port_kinds(node_at(newn, i).inp@) =~= crate::node::port_kinds(
                        node_at(oldn, i).inp@,
                    ));
                }
            }
            assert forall|i: int, a: int|
                live(newn, i) && 0 <= a < adj(newn, i).len() implies conn_ok(
                newn,
                i,
                #[trigger] adj(newn, i)[a],
            ) by {
                if i != id {
                    assert(newn[i] == oldn[i]);
                }
                assert(adj(newn, i) == adj(oldn, i));
                let c = adj(newn, i)[a];
                assert(conn_ok(oldn, i, c));
                assert(node_at(newn, i).outp@ == node_at(oldn, i).outp@);
                if c.end_node != id {
                    assert(newn[c.end_node as int] == oldn[c.end_node as int]);
                } else {
                    assert(node_at(newn, c.end_node as int).inp@ == node_at(
                        oldn,
                        c.end_node as int,
                    ).inp@.update(
                        port as int,
                        Port { name: old_port.name, gval: v },
                    ));
                    if c.end_port != port {
                        assert(node_at(newn, c.end_node as int).inp@[c.end_port as int]
                            == node_at(oldn, c.end_node as int).inp@[c.end_port as int]);
                    }
                }
            }
            assert forall|i: int, a: int, j: int, b: int|
                live(newn, i) && live(newn, j) && 0 <= a < adj(newn, i).len() && 0 <= b < adj(
                    newn,
                    j,
                ).len() && (i != j || a != b) implies !((#[trigger] adj(newn, i)[a]).end_node == (
            #[trigger] adj(newn, j)[b]).end_node && adj(newn, i)[a].end_port == adj(
                newn,
                j,
            )[b].end_port) by {
                assert(adj(newn, i) == adj(oldn, i));
                assert(adj(newn, j) == adj(oldn, j));
                assert(adj(newn, i)[a] == adj(oldn, i)[a]);
                assert(adj(newn, j)[b] == adj(oldn, j)[b]);
            }
        }
        Some(())
    }
}

/// Every element of a filtered sequence comes from the original.
pub proof fn lemma_filter_is_subset<A>(s: Seq<A>, pred: spec_fn(A) -> bool)
    ensures
        forall|k: int|
            0 <= k < s.filter(pred).len() ==> exists|m: int|
                0 <= m < s.len() && s[m] == #[trigger] s.filter(pred)[k],
    decreases s.len(),
{
    reveal(Seq::filter);
    if s.len() > 0 {
        lemma_filter_is_subset(s.drop_last(), pred);
        assert forall|k: int| 0 <= k < s.filter(pred).len() implies exists|m: int|
            0 <= m < s.len() && s[m] == #[trigger] s.filter(pred)[k] by {
            if k < s.drop_last().filter(pred).len() {
                let m = choose|m: int|
                    0 <= m < s.drop_last().len() && s.drop_last()[m] == s.drop_last().filter(
                        pred,
                    )[k];
                assert(s[m] == s.filter(pred)[k]);
            } else {
                assert(s[s.len() - 1] == s.filter(pred)[k]);
            }
        }
    }
}

/// Filtering a duplicate-free sequence leaves it duplicate-free.
pub proof fn lemma_filter_no_dup<A>(s: Seq<A>, pred: spec_fn(A) -> bool)
    requires
        s.no_duplicates(),
    ensures
        s.filter(pred).no_duplicates(),
    decreases s.len(),
{
    reveal(Seq::filter);
    if s.len() > 0 {
        assert(s.drop_last().no_duplicates());
        lemma_filter_no_dup(s.drop_last(), pred);
        lemma_filter_is_subset(s.drop_last(), pred);
        if pred(s.last()) {
            assert forall|k: int| 0 <= k < s.drop_last().filter(pred).len() implies s.drop_last().filter(
                pred,
            )[k] != s.last() by {
                let m = choose|m: int|
                    0 <= m < s.drop_last().len() && s.drop_last()[m] == s.drop_last().filter(
                        pred,
                    )[k];
                assert(s[m] == s.drop_last()[m]);
                assert(s[m] != s[s.len() - 1]);
            }
        }
    }
}

impl EvaluationGraph {
    /// Serializes the graph: per slot the template kind, the constant input
    /// values and the outgoing connections — never driver bodies. The
    /// resulting document is loadable and mirrors the graph.
    #[verifier::loop_isolation(false)]
    pub fn to_doc(&self) -> (d: crate::doc::GraphDoc)
        requires
            self.wf(),
        ensures
            d.nodes@.len() == self.nodes().len(),
            forall|i: int|
                0 <= i < self.nodes().len() ==> ((#[trigger] d.nodes@[i]) is Some <==> self.nodes()[i]
                    is Some),
            forall|i: int|
                live(self.nodes(), i) ==> ((#[trigger] crate::doc::doc_at(d.nodes@, i)).templ
                    == node_at(self.nodes(), i).templ && crate::doc::doc_at(d.nodes@, i).connections@
                    == adj(self.nodes(), i) && crate::doc::doc_at(d.nodes@, i).constants@.len()
                    == node_at(self.nodes(), i).inp@.len() && (forall|j: int|
                    0 <= j < node_at(self.nodes(), i).inp@.len() ==> crate::port::gval_eqv(
                        #[trigger] crate::doc::doc_at(d.nodes@, i).constants@[j],
                        node_at(self.nodes(), i).inp@[j].gval,
                    ))),
            crate::doc::doc_wf(d.nodes@),
    {
        let n = self.nodes.len();
        let mut slots: Vec<Option<crate::doc::NodeDoc>> = Vec::new();
        let mut i: usize = 0;
        while i < n
            invariant
                slots@.len() == i,
                i <= n,
                forall|x: int|
                    0 <= x < i ==> ((#[trigger] slots@[x]) is Some <==> self.nodes()[x] is Some),
                forall|x: int|
                    0 <= x < i && live(self.nodes(), x) ==> ((#[trigger] slots@[x]) is Some
                        && crate::doc::doc_at(slots@, x).templ == node_at(self.nodes(), x).templ
                        && crate::doc::doc_at(slots@, x).connections@ == adj(self.nodes(), x)
                        && crate::doc::doc_at(slots@, x).constants@.len() == node_at(
                        self.nodes(),
                        x,
                    ).inp@.len() && (forall|j: int|
                        0 <= j < node_at(self.nodes(), x).inp@.len() ==> crate::port::gval_eqv(
                            #[trigger] crate::doc::doc_at(slots@, x).constants@[j],
                            node_at(self.nodes(), x).inp@[j].gval,
                        ))),
            decreases n - i,
        {
            match &self.nodes[i] {
                Some(node) => {
                    let m = node.inp.len();
                    let mut constants: Vec<GVal> = Vec::new();
                    let mut j: usize = 0;
                    while j < m
                        invariant
                            *node == node_at(self.nodes(), i as int),
                            m == node.inp@.len(),
                            j <= m,
                            constants@.len() == j,
                            forall|jj: int|
                                0 <= jj < j ==> crate::port::gval_eqv(
                                    #[trigger] constants@[jj],
                                    node.inp@[jj].gval,
                                ),
                        decreases m - j,
                    {
                        constants.push(node.inp[j].gval.duplicate());
                        j += 1;
                    }
                    let connections = crate::doc::copy_connections(&node.adjacents);
                    slots.push(
                        Some(crate::doc::NodeDoc { templ: node.templ, constants, connections }),
                    );
                    proof {
                        assert(crate::doc::doc_at(slots@, i as int).connections@ == adj(
                            self.nodes(),
                            i as int,
                        ));
                        assert(crate::doc::doc_at(slots@, i as int).templ == node_at(
                            self.nodes(),
                            i as int,
                        ).templ);
                        assert(crate::doc::doc_at(slots@, i as int).constants@.len() == node_at(
                            self.nodes(),
                            i as int,
                        ).inp@.len());
                    }
                },
                None => {
                    slots.push(None);
                },
            }
            i += 1;
        }
        proof {
            assert forall|x: int|
                crate::doc::doc_live(slots@, x) implies crate::doc::gval_kinds((
            #[trigger] crate::doc::doc_at(slots@, x)).constants@) == crate::node::template_input_kinds(
                crate::doc::doc_at(slots@, x).templ,
            ) by {
                assert(live(self.nodes(), x));
                assert(node_matches_template(node_at(self.nodes(), x)));
                let ks = crate::doc::gval_kinds(crate::doc::doc_at(slots@, x).constants@);
                let ts = crate::node::template_input_kinds(crate::doc::doc_at(slots@, x).templ);
                assert forall|j: int| 0 <= j < ks.len() implies ks[j] == ts[j] by {
                    crate::port::lemma_gval_eqv_kind(
                        crate::doc::doc_at(slots@, x).constants@[j],
                        node_at(self.nodes(), x).inp@[j].gval,
                    );
                    assert(crate::node::port_kinds(node_at(self.nodes(), x).inp@)[j]
                        == spec_gtype_of(node_at(self.nodes(), x).inp@[j].gval));
                }
                assert(ks =~= ts);
            }
            assert forall|x: int, a: int|
                crate::doc::doc_live(slots@, x) && 0 <= a < crate::doc::doc_at(
                    slots@,
                    x,
                ).connections@.len() implies crate::doc::doc_conn_ok(
                slots@,
                x,
                #[trigger] crate::doc::doc_at(slots@, x).connections@[a],
            ) by {
                assert(live(self.nodes(), x));
                let c = crate::doc::doc_at(slots@, x).connections@[a];
                assert(c == adj(self.nodes(), x)[a]);
                assert(conn_ok(self.nodes(), x, c));
                assert(node_matches_template(node_at(self.nodes(), x)));
                assert(node_matches_template(node_at(self.nodes(), c.end_node as int)));
                assert(crate::node::port_kinds(node_at(self.nodes(), x).outp@)[c.start_port as int]
                    == spec_gtype_of(node_at(self.nodes(), x).outp@[c.start_port as int].gval));
                assert(crate::node::port_kinds(node_at(self.nodes(), c.end_node as int).inp@)[
                    c.end_port as int
                ] == spec_gtype_of(
                    node_at(self.nodes(), c.end_node as int).inp@[c.end_port as int].gval,
                ));
            }
            assert forall|x: int, a: int, y: int, b: int|
                crate::doc::doc_live(slots@, x) && crate::doc::doc_live(slots@, y) && 0 <= a
                    < crate::doc::doc_at(slots@, x).connections@.len() && 0 <= b
                    < crate::doc::doc_at(slots@, y).connections@.len() && (x != y || a != b)
                    implies !((#[trigger] crate::doc::doc_at(slots@, x).connections@[a]).end_node
                == (#[trigger] crate::doc::doc_at(slots@, y).connections@[b]).end_node
                && crate::doc::doc_at(slots@, x).connections@[a].end_port == crate::doc::doc_at(
                    slots@,
                    y,
                ).connections@[b].end_port) by {
                assert(crate::doc::doc_at(slots@, x).connections@[a] == adj(self.nodes(), x)[a]);
                assert(crate::doc::doc_at(slots@, y).connections@[b] == adj(self.nodes(), y)[b]);
            }
        }
        crate::doc::GraphDoc { nodes: slots }
    }
}

/// Whether another persisted connection feeds the same input port as
/// connection `a0` of slot `i0`.
fn doc_duplicate_feed(doc: &crate::doc::GraphDoc, i0: usize, a0: usize) -> (r: bool)
    requires
        crate::doc::doc_live(doc.nodes@, i0 as int),
        (a0 as int) < crate::doc::doc_at(doc.nodes@, i0 as int).connections@.len(),
    ensures
        r <==> exists|y: int, b: int|
            crate::doc::doc_live(doc.nodes@, y) && 0 <= b < crate::doc::doc_at(
                doc.nodes@,
                y,
            ).connections@.len() && (y != i0 || b != a0) && (#[trigger] crate::doc::doc_at(
                doc.nodes@,
                y,
            ).connections@[b]).end_node == crate::doc::doc_at(
                doc.nodes@,
                i0 as int,
            ).connections@[a0 as int].end_node && crate::doc::doc_at(
                doc.nodes@,
                y,
            ).connections@[b].end_port == crate::doc::doc_at(
                doc.nodes@,
                i0 as int,
            ).connections@[a0 as int].end_port,
{
    let target = match &doc.nodes[i0] {
        Some(nd) => nd.connections[a0],
        None => {
            proof {
                assert(false);
            }
            vstd::pervasive::unreached()
        },
    };
    let n = doc.nodes.len();
    let mut y: usize = 0;
    while y < n
        invariant
            n == doc.nodes@.len(),
            y <= n,
            target == crate::doc::doc_at(doc.nodes@, i0 as int).connections@[a0 as int],
            forall|y2: int, b: int|
                0 <= y2 < y && crate::doc::doc_live(doc.nodes@, y2) && 0 <= b < crate::doc::doc_at(
                    doc.nodes@,
                    y2,
                ).connections@.len() && (y2 != i0 || b != a0) ==> !((#[trigger] crate::doc::doc_at(
                    doc.nodes@,
                    y2,
                ).connections@[b]).end_node == target.end_node && crate::doc::doc_at(
                    doc.nodes@,
                    y2,
                ).connections@[b].end_port == target.end_port),
        decreases n - y,
    {
        match &doc.nodes[y] {
            Some(nd) => {
                let m = nd.connections.len();
                let mut b: usize = 0;
                while b < m
                    invariant
                        y < n,
                        crate::doc::doc_live(doc.nodes@, y as int),
                        *nd == crate::doc::doc_at(doc.nodes@, y as int),
                        m == nd.connections@.len(),
                        b <= m,
                        target == crate::doc::doc_at(
                            doc.nodes@,
                            i0 as int,
                        ).connections@[a0 as int],
                        forall|b2: int|
                            0 <= b2 < b && (y != i0 || b2 != a0) ==> !((
                            #[trigger] crate::doc::doc_at(
                                doc.nodes@,
                                y as int,
                            ).connections@[b2]).end_node == target.end_node
                                && crate::doc::doc_at(
                                doc.nodes@,
                                y as int,
                            ).connections@[b2].end_port == target.end_port),
                    decreases m - b,
                {
                    if (y != i0 || b != a0) && nd.connections[b].end_node == target.end_node
                        && nd.connections[b].end_port == target.end_port {
                        return true;
                    }
                    b += 1;
                }
            },
            None => {},
        }
        y += 1;
    }
    false
}

impl EvaluationGraph {
    /// Loads a persisted document: every node is rebuilt from its template
    /// (the driver rebinds from the template kind alone), constants are
    /// restored after a kind check, connections after the full creation-time
    /// check. A loadable document (`doc_wf`) always loads; the loaded graph
    /// mirrors the document slot for slot, holes and all, with no properties
    /// bound.
    #[verifier::loop_isolation(false)]
    #[verifier::rlimit(100)]
    pub fn from_doc(doc: &crate::doc::GraphDoc) -> (r: Option<EvaluationGraph>)
        ensures
            r is Some <==> crate::doc::doc_wf(doc.nodes@),
            r is Some ==> ({
                let g = r->Some_0;
                &&& g.wf()
                &&& g.nodes().len() == doc.nodes@.len()
                &&& forall|i: int|
                    0 <= i < doc.nodes@.len() ==> ((#[trigger] g.nodes()[i]) is Some
                        <==> doc.nodes@[i] is Some)
                &&& forall|i: int|
                    crate::doc::doc_live(doc.nodes@, i) ==> ((#[trigger] node_at(
                        g.nodes(),
                        i,
                    )).templ == crate::doc::doc_at(doc.nodes@, i).templ && node_matches_template(
                        node_at(g.nodes(), i),
                    ) && adj(g.nodes(), i) == crate::doc::doc_at(doc.nodes@, i).connections@
                        && node_at(g.nodes(), i).inp@.len() == crate::doc::doc_at(
                        doc.nodes@,
                        i,
                    ).constants@.len() && (forall|j: int|
                        0 <= j < node_at(g.nodes(), i).inp@.len() ==> crate::port::gval_eqv(
                            (#[trigger] node_at(g.nodes(), i).inp@[j]).gval,
                            crate::doc::doc_at(doc.nodes@, i).constants@[j],
                        )))
                &&& forall|name: Seq<char>| #[trigger] g.prop(name) is None
            }),
    {
        let ghost slots = doc.nodes@;
        let n = doc.nodes.len();
        let mut nodes: Vec<Option<Node>> = Vec::new();
        let mut unused: Vec<usize> = Vec::new();
        let mut i: usize = 0;
        while i < n
            invariant
                nodes@.len() == i,
                i <= n,
                forall|k: int|
                    0 <= k < unused@.len() ==> (#[trigger] unused@[k]) < i && !(nodes@[unused@[k] as int]
                        is Some),
                forall|p: int, q: int| 0 <= p < q < unused@.len() ==> unused@[p] < unused@[q],
                forall|x: int|
                    0 <= x < i ==> ((#[trigger] nodes@[x]) is Some <==> slots[x] is Some),
                forall|x: int|
                    0 <= x < i && crate::doc::doc_live(slots, x) ==> ((#[trigger] nodes@[x])
                        is Some && node_at(nodes@, x).templ == crate::doc::doc_at(slots, x).templ
                        && node_matches_template(node_at(nodes@, x)) && adj(nodes@, x)
                        == crate::doc::doc_at(slots, x).connections@ && node_at(
                        nodes@,
                        x,
                    ).inp@.len() == crate::doc::doc_at(slots, x).constants@.len() && (forall|
                        j: int,
                    |
                        0 <= j < node_at(nodes@, x).inp@.len() ==> crate::port::gval_eqv(
                            (#[trigger] node_at(nodes@, x).inp@[j]).gval,
                            crate::doc::doc_at(slots, x).constants@[j],
                        ))),
                forall|x: int|
                    0 <= x < i && crate::doc::doc_live(slots, x) ==> crate::doc::gval_kinds((
                    #[trigger] crate::doc::doc_at(slots, x)).constants@)
                        == crate::node::template_input_kinds(crate::doc::doc_at(slots, x).templ),
                forall|x: int, a: int|
                    0 <= x < i && crate::doc::doc_live(slots, x) && 0 <= a < crate::doc::doc_at(
                        slots,
                        x,
                    ).connections@.len() ==> crate::doc::doc_conn_ok(
                        slots,
                        x,
                        #[trigger] crate::doc::doc_at(slots, x).connections@[a],
                    ),
            decreases n - i,
        {
            match &doc.nodes[i] {
                None => {
                    unused.push(i);
                    nodes.push(None);
                },
                Some(nd) => {
                    let mut node = nd.templ.build_node();
                    let m = node.inp.len();
                    if nd.constants.len() != m {
                        proof {
                            assert(crate::node::port_kinds(node.inp@).len()
                                == crate::node::template_input_kinds(nd.templ).len());
                            assert(crate::doc::gval_kinds(
                                crate::doc::doc_at(slots, i as int).constants@,
                            ).len() != crate::node::template_input_kinds(
                                crate::doc::doc_at(slots, i as int).templ,
                            ).len());
                            assert(!crate::doc::doc_wf(slots));
                        }
                        return None;
                    }
                    let ghost orig_inp = node.inp@;
                    let ghost orig_node = node;
                    let mut newinp: Vec<Port> = Vec::new();
                    let mut j: usize = 0;
                    while j < m
                        invariant
                            node.templ == orig_node.templ,
                            node.outp == orig_node.outp,
                            node.driver == orig_node.driver,
                            node.templ == nd.templ,
                            node_matches_template(orig_node),
                            m == orig_inp.len(),
                            nd.constants@.len() == m,
                            *nd == crate::doc::doc_at(slots, i as int),
                            crate::doc::doc_live(slots, i as int),
                            node.inp@ =~= orig_inp.skip(j as int),
                            crate::node::port_kinds(orig_inp) == crate::node::template_input_kinds(
                                nd.templ,
                            ),
                            j <= m,
                            newinp@.len() == j,
                            forall|jj: int|
                                0 <= jj < j ==> crate::port::gval_eqv(
                                    (#[trigger] newinp@[jj]).gval,
                                    nd.constants@[jj],
                                ),
                            forall|jj: int|
                                0 <= jj < j ==> spec_gtype_of((#[trigger] newinp@[jj]).gval)
                                    == spec_gtype_of(orig_inp[jj].gval),
                            forall|jj: int|
                                0 <= jj < j ==> spec_gtype_of(#[trigger] nd.constants@[jj])
                                    == spec_gtype_of(orig_inp[jj].gval),
                        decreases m - j,
                    {
                        let p = node.inp.remove(0);
                        proof {
                            assert(p == orig_inp[j as int]);
                            assert(node.inp@ =~= orig_inp.skip(j as int + 1));
                        }
                        if !gtype_of(&nd.constants[j]).is_equal_to(&gtype_of(&p.gval)) {
                            proof {
                                assert(crate::node::port_kinds(orig_inp)[j as int]
                                    == spec_gtype_of(orig_inp[j as int].gval));
                                assert(crate::doc::gval_kinds(
                                    crate::doc::doc_at(slots, i as int).constants@,
                                )[j as int] == spec_gtype_of(nd.constants@[j as int]));
                                assert(crate::doc::gval_kinds(
                                    crate::doc::doc_at(slots, i as int).constants@,
                                ) != crate::node::template_input_kinds(
                                    crate::doc::doc_at(slots, i as int).templ,
                                ));
                                assert(!crate::doc::doc_wf(slots));
                            }
                            return None;
                        }
                        let v = nd.constants[j].duplicate();
                        proof {
                            crate::port::lemma_gval_eqv_kind(v, nd.constants@[j as int]);
                        }
                        newinp.push(Port { name: p.name, gval: v });
                        j += 1;
                    }
                    node.inp = newinp;
                    proof {
                        assert(crate::node::port_kinds(node.inp@) =~= crate::node::template_input_kinds(
                            nd.templ,
                        ));
                        assert(node_matches_template(node));
                        assert(crate::doc::gval_kinds(nd.constants@) =~= crate::node::template_input_kinds(
                            nd.templ,
                        ));
                    }
                    let cn = nd.connections.len();
                    let mut a: usize = 0;
                    while a < cn
                        invariant
                            *nd == crate::doc::doc_at(slots, i as int),
                            crate::doc::doc_live(slots, i as int),
                            cn == nd.connections@.len(),
                            a <= cn,
                            node_matches_template(node),
                            node.templ == nd.templ,
                            forall|a2: int|
                                0 <= a2 < a ==> crate::doc::doc_conn_ok(
                                    slots,
                                    i as int,
                                    #[trigger] nd.connections@[a2],
                                ),
                        decreases cn - a,
                    {
                        let c = nd.connections[a];
                        if c.end_node >= n {
                            proof {
                                assert(!crate::doc::doc_conn_ok(slots, i as int, c));
                                assert(!crate::doc::doc_wf(slots));
                            }
                            return None;
                        }
                        let end_templ = match &doc.nodes[c.end_node] {
                            Some(e) => e.templ,
                            None => {
                                proof {
                                    assert(!crate::doc::doc_conn_ok(slots, i as int, c));
                                    assert(!crate::doc::doc_wf(slots));
                                }
                                return None;
                            },
                        };
                        let endproto = end_templ.build_node();
                        if c.start_port >= node.outp.len() || c.end_port >= endproto.inp.len() {
                            proof {
                                assert(crate::node::port_kinds(node.outp@).len()
                                    == crate::node::template_output_kinds(nd.templ).len());
                                assert(crate::node::port_kinds(endproto.inp@).len()
                                    == crate::node::template_input_kinds(end_templ).len());
                                assert(!crate::doc::doc_conn_ok(slots, i as int, c));
                                assert(!crate::doc::doc_wf(slots));
                            }
                            return None;
                        }
                        if !gtype_of(&node.outp[c.start_port].gval).is_equal_to(
                            &gtype_of(&endproto.inp[c.end_port].gval),
                        ) {
                            proof {
                                assert(crate::node::port_kinds(node.outp@)[c.start_port as int]
                                    == spec_gtype_of(node.outp@[c.start_port as int].gval));
                                assert(crate::node::port_kinds(endproto.inp@)[c.end_port as int]
                                    == spec_gtype_of(endproto.inp@[c.end_port as int].gval));
                                assert(!crate::doc::doc_conn_ok(slots, i as int, c));
                                assert(!crate::doc::doc_wf(slots));
                            }
                            return None;
                        }
                        proof {
                            assert(crate::node::port_kinds(node.outp@)[c.start_port as int]
                                == spec_gtype_of(node.outp@[c.start_port as int].gval));
                            assert(crate::node::port_kinds(endproto.inp@)[c.end_port as int]
                                == spec_gtype_of(endproto.inp@[c.end_port as int].gval));
                            assert(crate::doc::doc_conn_ok(slots, i as int, c));
                        }
                        a += 1;
                    }
                    node.adjacents = crate::doc::copy_connections(&nd.connections);
                    nodes.push(Some(node));
                    proof {
                        assert(node_at(nodes@, i as int).templ == crate::doc::doc_at(
                            slots,
                            i as int,
                        ).templ);
                        assert(adj(nodes@, i as int) == crate::doc::doc_at(
                            slots,
                            i as int,
                        ).connections@);
                    }
                },
            }
            i += 1;
        }
        let mut i2: usize = 0;
        while i2 < n
            invariant
                i2 <= n,
                nodes@.len() == n,
                forall|x: int, a2: int, y: int, b2: int|
                    0 <= x < i2 && crate::doc::doc_live(slots, x) && crate::doc::doc_live(slots, y)
                        && 0 <= a2 < crate::doc::doc_at(slots, x).connections@.len() && 0 <= b2
                        < crate::doc::doc_at(slots, y).connections@.len() && (x != y || a2 != b2)
                        ==> !((#[trigger] crate::doc::doc_at(slots, x).connections@[a2]).end_node
                        == (#[trigger] crate::doc::doc_at(slots, y).connections@[b2]).end_node
                        && crate::doc::doc_at(slots, x).connections@[a2].end_port
                        == crate::doc::doc_at(slots, y).connections@[b2].end_port),
            decreases n - i2,
        {
            match &doc.nodes[i2] {
                Some(nd) => {
                    let cn = nd.connections.len();
                    let mut a: usize = 0;
                    while a < cn
                        invariant
                            i2 < n,
                            crate::doc::doc_live(slots, i2 as int),
                            *nd == crate::doc::doc_at(slots, i2 as int),
                            cn == nd.connections@.len(),
                            a <= cn,
                            forall|a2: int, y: int, b2: int|
                                0 <= a2 < a && crate::doc::doc_live(slots, y) && 0 <= b2
                                    < crate::doc::doc_at(slots, y).connections@.len() && (
                                i2 as int != y || a2 != b2) ==> !((#[trigger] crate::doc::doc_at(
                                    slots,
                                    i2 as int,
                                ).connections@[a2]).end_node == (#[trigger] crate::doc::doc_at(
                                    slots,
                                    y,
                                ).connections@[b2]).end_node && crate::doc::doc_at(
                                    slots,
                                    i2 as int,
                                ).connections@[a2].end_port == crate::doc::doc_at(
                                    slots,
                                    y,
                                ).connections@[b2].end_port),
                        decreases cn - a,
                    {
                        if doc_duplicate_feed(doc, i2, a) {
                            proof {
                                let (y, b) = choose|y: int, b: int|
                                    crate::doc::doc_live(slots, y) && 0 <= b < crate::doc::doc_at(
                                        slots,
                                        y,
                                    ).connections@.len() && (y != i2 as int || b != a as int) && (
                                    #[trigger] crate::doc::doc_at(slots, y).connections@[b]).end_node
                                        == crate::doc::doc_at(
                                        slots,
                                        i2 as int,
                                    ).connections@[a as int].end_node && crate::doc::doc_at(
                                        slots,
                                        y,
                                    ).connections@[b].end_port == crate::doc::doc_at(
                                        slots,
                                        i2 as int,
                                    ).connections@[a as int].end_port;
                                assert(!crate::doc::doc_wf(slots));
                            }
                            return None;
                        }
                        a += 1;
                    }
                },
                None => {},
            }
            i2 += 1;
        }
        let g = EvaluationGraph { nodes, unused, props: Props::new() };
        proof {
            assert(crate::doc::doc_wf(slots));
            assert forall|x: int| live(g.nodes(), x) implies node_matches_template(
                #[trigger] node_at(g.nodes(), x),
            ) by {
                assert(crate::doc::doc_live(slots, x));
            }
            assert forall|x: int, a: int|
                live(g.nodes(), x) && 0 <= a < adj(g.nodes(), x).len() implies conn_ok(
                g.nodes(),
                x,
                #[trigger] adj(g.nodes(), x)[a],
            ) by {
                assert(crate::doc::doc_live(slots, x));
                let c = adj(g.nodes(), x)[a];
                assert(c == crate::doc::doc_at(slots, x).connections@[a]);
                assert(crate::doc::doc_conn_ok(slots, x, c));
                assert(crate::doc::doc_live(slots, c.end_node as int));
                assert(live(g.nodes(), c.end_node as int));
                assert(node_matches_template(node_at(g.nodes(), x)));
                assert(node_matches_template(node_at(g.nodes(), c.end_node as int)));
                assert(crate::node::port_kinds(node_at(g.nodes(), x).outp@)[c.start_port as int]
                    == spec_gtype_of(node_at(g.nodes(), x).outp@[c.start_port as int].gval));
                assert(crate::node::port_kinds(node_at(g.nodes(), c.end_node as int).inp@)[
                    c.end_port as int
                ] == spec_gtype_of(
                    node_at(g.nodes(), c.end_node as int).inp@[c.end_port as int].gval,
                ));
                assert(node_at(g.nodes(), c.end_node as int).inp@.len()
                    == crate::node::template_input_kinds(
                    crate::doc::doc_at(slots, c.end_node as int).templ,
                ).len());
            }
            assert forall|x: int, a: int, y: int, b: int|
                live(g.nodes(), x) && live(g.nodes(), y) && 0 <= a < adj(g.nodes(), x).len() && 0
                    <= b < adj(g.nodes(), y).len() && (x != y || a != b) implies !((
            #[trigger] adj(g.nodes(), x)[a]).end_node == (#[trigger] adj(g.nodes(), y)[b]).end_node
                && adj(g.nodes(), x)[a].end_port == adj(g.nodes(), y)[b].end_port) by {
                assert(crate::doc::doc_live(slots, x) && crate::doc::doc_live(slots, y));
                assert(adj(g.nodes(), x)[a] == crate::doc::doc_at(slots, x).connections@[a]);
                assert(adj(g.nodes(), y)[b] == crate::doc::doc_at(slots, y).connections@[b]);
            }
        }
        Some(g)
    }
}

} // verus!
