use tronomic::doc::{GraphDoc, NodeDoc};
use tronomic::graph::EvaluationGraph;
use tronomic::node::{ConnectionTo, Driver, NodeTempl, byte_irange, nonneg_irange};
use tronomic::port::{GVal, IRange};

#[test]
fn graph_document_round_trip() {
    let mut g = EvaluationGraph::new();
    let frame = g.add_node(NodeTempl::Frame);
    let hole = g.add_node(NodeTempl::Time);
    let out = g.add_node(NodeTempl::Output);
    g.set_node_input(out, 0, GVal::INum(2, nonneg_irange())).unwrap();
    g.set_node_input(out, 1, GVal::IVec(vec![10, 20, 30], byte_irange())).unwrap();
    g.add_connection(frame, ConnectionTo { start_port: 0, end_node: out, end_port: 0 }).unwrap();
    g.delete_node(hole).unwrap();

    let doc = g.to_doc();
    assert_eq!(doc.nodes.len(), 3);
    assert!(doc.nodes[hole].is_none());

    let loaded = EvaluationGraph::from_doc(&doc).unwrap();
    assert_eq!(loaded.slot_count(), 3);
    assert!(loaded.get_node_by_id(hole).is_none());

    let f2 = loaded.get_node_by_id(frame).unwrap();
    assert_eq!(f2.templ, NodeTempl::Frame);
    assert_eq!(f2.driver, Driver::Func);
    assert_eq!(
        f2.adjacents,
        vec![ConnectionTo { start_port: 0, end_node: out, end_port: 0 }]
    );

    let o2 = loaded.get_node_by_id(out).unwrap();
    assert_eq!(o2.templ, NodeTempl::Output);
    // the driver rebinds purely from the template kind
    assert_eq!(o2.driver, Driver::Ctx);
    assert_eq!(o2.inp[0].gval, GVal::INum(2, nonneg_irange()));
    assert_eq!(o2.inp[1].gval, GVal::IVec(vec![10, 20, 30], byte_irange()));
}

#[test]
fn loaded_graph_evaluates_like_the_saved_one() {
    let mut g = EvaluationGraph::new();
    let out = g.add_node(NodeTempl::Output);
    g.set_node_input(out, 0, GVal::INum(0, nonneg_irange())).unwrap();
    g.set_node_input(out, 1, GVal::IVec(vec![42], byte_irange())).unwrap();
    let doc = g.to_doc();
    let loaded = EvaluationGraph::from_doc(&doc).unwrap();
    let mut dmx = tronomic::dmx::DmxState::new(1);
    loaded.evaluate(&mut dmx).unwrap();
    assert_eq!(dmx.get(0, 0), 42);
}

#[test]
fn invalid_documents_are_refused() {
    // constant of the wrong kind for the template
    let bad_kind = GraphDoc {
        nodes: vec![
            Some(NodeDoc {
                templ: NodeTempl::Output,
                constants: vec![
                    GVal::INum(0, IRange { min: 0, max: 9 }),
                    GVal::IVec(vec![], byte_irange()),
                ],
                connections: vec![],
            }),
        ],
    };
    assert!(EvaluationGraph::from_doc(&bad_kind).is_none());

    // connection into a hole
    let bad_conn = GraphDoc {
        nodes: vec![
            Some(NodeDoc {
                templ: NodeTempl::Frame,
                constants: vec![],
                connections: vec![ConnectionTo { start_port: 0, end_node: 1, end_port: 0 }],
            }),
            None,
        ],
    };
    assert!(EvaluationGraph::from_doc(&bad_conn).is_none());

    // two connections feeding the same input port
    let dup_feed = GraphDoc {
        nodes: vec![
            Some(NodeDoc {
                templ: NodeTempl::Frame,
                constants: vec![],
                connections: vec![
                    ConnectionTo { start_port: 0, end_node: 2, end_port: 0 },
                    ConnectionTo { start_port: 0, end_node: 2, end_port: 0 },
                ],
            }),
            None,
            Some(NodeDoc {
                templ: NodeTempl::Output,
                constants: vec![
                    GVal::INum(0, nonneg_irange()),
                    GVal::IVec(vec![], byte_irange()),
                ],
                connections: vec![],
            }),
        ],
    };
    assert!(EvaluationGraph::from_doc(&dup_feed).is_none());
}
