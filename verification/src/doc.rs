//! The persisted graph document: per stable id a node's template kind, its
//! constant input values and its outgoing connections. Driver bodies are
//! never persisted — on load, behavior rebinds purely from the template.

use vstd::prelude::*;
use crate::node::{ConnectionTo, NodeTempl, template_input_kinds, template_output_kinds};
use crate::port::{GType, GVal, spec_gtype_of};

verus! {

/// One persisted node.
#[derive(Debug, Clone, PartialEq)]
pub struct NodeDoc {
    pub templ: NodeTempl,
    pub constants: Vec<GVal>,
    pub connections: Vec<ConnectionTo>,
}

/// A persisted graph: one entry per slot, holes preserved so that stable
/// ids survive the round trip.
#[derive(Debug, Clone, PartialEq)]
pub struct GraphDoc {
    pub nodes: Vec<Option<NodeDoc>>,
}

/// The kinds a value list carries.
pub open spec fn gval_kinds(vals: Seq<GVal>) -> Seq<GType> {
    vals.map_values(|v: GVal| spec_gtype_of(v))
}

/// Slot `i` of the document holds a node.
pub open spec fn doc_live(slots: Seq<Option<NodeDoc>>, i: int) -> bool {
    0 <= i < slots.len() && slots[i] is Some
}

/// The persisted node in slot `i`.
pub open spec fn doc_at(slots: Seq<Option<NodeDoc>>, i: int) -> NodeDoc
    recommends
        doc_live(slots, i),
{
    slots[i]->Some_0
}

/// A persisted connection out of slot `i` is sound against the templates.
pub open spec fn doc_conn_ok(slots: Seq<Option<NodeDoc>>, i: int, c: ConnectionTo) -> bool {
    &&& doc_live(slots, c.end_node as int)
    &&& (c.start_port as int) < template_output_kinds(doc_at(slots, i).templ).len()
    &&& (c.end_port as int) < template_input_kinds(doc_at(slots, c.end_node as int).templ).len()
    &&& template_output_kinds(doc_at(slots, i).templ)[c.start_port as int]
        == template_input_kinds(doc_at(slots, c.end_node as int).templ)[c.end_port as int]
}

/// A loadable document: constants carry exactly the kinds the template
/// declares, every connection is sound, and no two connections feed the
/// same input port.
pub open spec fn doc_wf(slots: Seq<Option<NodeDoc>>) -> bool {
    &&& forall|i: int|
        doc_live(slots, i) ==> gval_kinds((#[trigger] doc_at(slots, i)).constants@)
            == template_input_kinds(doc_at(slots, i).templ)
    &&& forall|i: int, a: int|
        doc_live(slots, i) && 0 <= a < doc_at(slots, i).connections@.len() ==> doc_conn_ok(
            slots,
            i,
            #[trigger] doc_at(slots, i).connections@[a],
        )
    &&& forall|i: int, a: int, j: int, b: int|
        doc_live(slots, i) && doc_live(slots, j) && 0 <= a < doc_at(slots, i).connections@.len()
            && 0 <= b < doc_at(slots, j).connections@.len() && (i != j || a != b) ==> !((
        #[trigger] doc_at(slots, i).connections@[a]).end_node == (#[trigger] doc_at(
            slots,
            j,
        ).connections@[b]).end_node && doc_at(slots, i).connections@[a].end_port == doc_at(
            slots,
            j,
        ).connections@[b].end_port)
}

/// Copies a connection list.
pub fn copy_connections(v: &Vec<ConnectionTo>) -> (r: Vec<ConnectionTo>)
    ensures
        r@ == v@,
{
    let mut out: Vec<ConnectionTo> = Vec::new();
    let n = v.len();
    let mut i: usize = 0;
    while i < n
        invariant
            n == v@.len(),
            i <= n,
            out@ == v@.take(i as int),
        decreases n - i,
    {
        out.push(v[i]);
        proof {
            assert(out@ =~= v@.take(i as int + 1));
        }
        i += 1;
    }
    proof {
        assert(v@.take(n as int) =~= v@);
    }
    out
}

} // verus!
