use tronomic::dmx::DmxState;
use tronomic::error::EvaluationError;
use tronomic::graph::EvaluationGraph;
use tronomic::node::{ConnectionTo, Driver, NodeTempl, byte_irange, nonneg_irange};
use tronomic::port::{GVal, IRange};

fn output_node_graph(universe: i64, channels: Vec<i64>) -> (EvaluationGraph, usize) {
    let mut g = EvaluationGraph::new();
    let id = g.add_node(NodeTempl::Output);
    g.set_node_input(id, 0, GVal::INum(universe, nonneg_irange())).unwrap();
    g.set_node_input(id, 1, GVal::IVec(channels, byte_irange())).unwrap();
    (g, id)
}

#[test]
fn output_node_writes_channels_from_zero() {
    // universe=2, channels=[10,20,30]
    let (g, _) = output_node_graph(2, vec![10, 20, 30]);
    let mut dmx = DmxState::new(3);
    g.evaluate(&mut dmx).unwrap();
    assert_eq!(dmx.get(2, 0), 10);
    assert_eq!(dmx.get(2, 1), 20);
    assert_eq!(dmx.get(2, 2), 30);
    assert_eq!(dmx.get(2, 3), 0);
    // override flags of the written channels are unaffected
    for i in 0..3 {
        let c = dmx.snapshot(2);
        assert_eq!(c.len(), 512);
        // flags stay clear, the write went to the base layer
        dmx.reset_ovr(2, i);
        assert_eq!(dmx.get(2, i), [10, 20, 30][i]);
    }
    // other universes untouched
    assert_eq!(dmx.get(0, 0), 0);
}

#[test]
fn evaluation_commit_preserves_overrides() {
    let (g, _) = output_node_graph(0, vec![200]);
    let mut dmx = DmxState::new(1);
    dmx.override_with(0, 0, true, 66);
    g.evaluate(&mut dmx).unwrap();
    // the override still wins; the base layer took the commit
    assert_eq!(dmx.get(0, 0), 66);
    dmx.reset_ovr(0, 0);
    assert_eq!(dmx.get(0, 0), 200);
}

#[test]
fn cycle_fails_evaluation_and_writes_nothing() {
    let mut g = EvaluationGraph::new();
    let a = g.add_node(NodeTempl::Sine);
    let b = g.add_node(NodeTempl::Sine);
    g.add_connection(a, ConnectionTo { start_port: 0, end_node: b, end_port: 0 }).unwrap();
    g.add_connection(b, ConnectionTo { start_port: 0, end_node: a, end_port: 0 }).unwrap();
    // a sink that would write, were the tick to run
    let o = g.add_node(NodeTempl::Output);
    g.set_node_input(o, 0, GVal::INum(0, nonneg_irange())).unwrap();
    g.set_node_input(o, 1, GVal::IVec(vec![9], byte_irange())).unwrap();
    let mut dmx = DmxState::new(1);
    dmx.set(0, 0, 1);
    assert_eq!(g.evaluate(&mut dmx).unwrap_err(), EvaluationError::Cycle);
    // zero writes happened for that tick
    assert_eq!(dmx.get(0, 0), 1);
}

#[test]
fn self_loop_is_a_cycle() {
    let mut g = EvaluationGraph::new();
    let a = g.add_node(NodeTempl::Sine);
    g.add_connection(a, ConnectionTo { start_port: 0, end_node: a, end_port: 0 }).unwrap();
    let mut dmx = DmxState::new(1);
    assert_eq!(g.evaluate(&mut dmx).unwrap_err(), EvaluationError::Cycle);
}

#[test]
fn mismatched_kinds_are_rejected_and_topology_unchanged() {
    let mut g = EvaluationGraph::new();
    let frame = g.add_node(NodeTempl::Frame);
    let out = g.add_node(NodeTempl::Output);
    // Frame's output is an integer scalar; Output port 1 demands a byte list
    let r = g.add_connection(frame, ConnectionTo { start_port: 0, end_node: out, end_port: 1 });
    assert!(r.is_none());
    assert_eq!(g.get_node_by_id(frame).unwrap().adjacents.len(), 0);
    assert_eq!(g.get_node_by_id(out).unwrap().adjacents.len(), 0);
    // bounds must also match exactly: Sine's fractional output does not fit
    let sine = g.add_node(NodeTempl::Sine);
    let r2 = g.add_connection(sine, ConnectionTo { start_port: 0, end_node: out, end_port: 0 });
    assert!(r2.is_none());
    assert_eq!(g.get_node_by_id(sine).unwrap().adjacents.len(), 0);
}

#[test]
fn occupied_input_port_rejects_a_second_feed() {
    let mut g = EvaluationGraph::new();
    let f1 = g.add_node(NodeTempl::Frame);
    let f2 = g.add_node(NodeTempl::Frame);
    let out = g.add_node(NodeTempl::Output);
    let c1 = ConnectionTo { start_port: 0, end_node: out, end_port: 0 };
    assert!(g.add_connection(f1, c1).is_some());
    assert!(g.add_connection(f2, c1).is_none());
    assert_eq!(g.get_node_by_id(f2).unwrap().adjacents.len(), 0);
}

#[test]
fn connection_resolves_upstream_output() {
    let mut g = EvaluationGraph::new();
    let frame = g.add_node(NodeTempl::Frame);
    let out = g.add_node(NodeTempl::Output);
    // the frame counter drives the universe id
    g.add_connection(frame, ConnectionTo { start_port: 0, end_node: out, end_port: 0 }).unwrap();
    g.set_node_input(out, 1, GVal::IVec(vec![5], byte_irange())).unwrap();
    g.set_prop("frame".to_string(), GVal::INum(1, nonneg_irange()));
    let mut dmx = DmxState::new(2);
    g.evaluate(&mut dmx).unwrap();
    assert_eq!(dmx.get(1, 0), 5);
    assert_eq!(dmx.get(0, 0), 0);
}

#[test]
fn missing_property_aborts_the_tick() {
    let mut g = EvaluationGraph::new();
    let frame = g.add_node(NodeTempl::Frame);
    let out = g.add_node(NodeTempl::Output);
    g.add_connection(frame, ConnectionTo { start_port: 0, end_node: out, end_port: 0 }).unwrap();
    g.set_node_input(out, 1, GVal::IVec(vec![5], byte_irange())).unwrap();
    let mut dmx = DmxState::new(1);
    assert_eq!(g.evaluate(&mut dmx).unwrap_err(), EvaluationError::MissingProperty);
    assert_eq!(dmx.get(0, 0), 0);
}

#[test]
fn sink_write_outside_universes_aborts_with_no_commit() {
    let (g, _) = output_node_graph(7, vec![1, 2]);
    let mut dmx = DmxState::new(2);
    assert_eq!(g.evaluate(&mut dmx).unwrap_err(), EvaluationError::TypeMismatch);
    assert_eq!(dmx.get(0, 0), 0);
    assert_eq!(dmx.get(1, 0), 0);
}

#[test]
fn wrong_constant_kind_is_rejected() {
    let mut g = EvaluationGraph::new();
    let out = g.add_node(NodeTempl::Output);
    // wrong bounds on the universe input
    let r = g.set_node_input(out, 0, GVal::INum(0, IRange { min: 0, max: 100 }));
    assert!(r.is_none());
    // wrong port index
    assert!(g.set_node_input(out, 2, GVal::INum(0, nonneg_irange())).is_none());
}

#[test]
fn delete_node_prunes_connections_and_frees_the_slot() {
    let mut g = EvaluationGraph::new();
    let frame = g.add_node(NodeTempl::Frame);
    let out = g.add_node(NodeTempl::Output);
    g.add_connection(frame, ConnectionTo { start_port: 0, end_node: out, end_port: 0 }).unwrap();
    let removed = g.delete_node(out).unwrap();
    assert_eq!(removed.templ, NodeTempl::Output);
    assert!(g.get_node_by_id(out).is_none());
    assert_eq!(g.get_node_by_id(frame).unwrap().adjacents.len(), 0);
    // the freed slot is reused
    let again = g.add_node(NodeTempl::Time);
    assert_eq!(again, out);
    assert!(g.delete_node(99).is_none());
}

#[test]
fn delete_connection_removes_the_matching_edge() {
    let mut g = EvaluationGraph::new();
    let frame = g.add_node(NodeTempl::Frame);
    let out = g.add_node(NodeTempl::Output);
    let c = ConnectionTo { start_port: 0, end_node: out, end_port: 0 };
    g.add_connection(frame, c).unwrap();
    assert_eq!(g.delete_connection(frame, &c).unwrap(), c);
    assert_eq!(g.get_node_by_id(frame).unwrap().adjacents.len(), 0);
}

#[test]
fn drivers_rebind_from_templates() {
    assert_eq!(NodeTempl::Output.build_node().driver, Driver::Ctx);
    assert_eq!(NodeTempl::Frame.build_node().driver, Driver::Func);
    assert_eq!(NodeTempl::Time.build_node().driver, Driver::Func);
    assert_eq!(NodeTempl::Sine.build_node().driver, Driver::Func);
    assert_eq!(Driver::default(), Driver::Unbound);
}

#[test]
fn template_labels() {
    assert_eq!(NodeTempl::Output.node_finder_label(), "Output");
    assert_eq!(NodeTempl::Frame.node_finder_label(), "Frame since start");
    assert_eq!(NodeTempl::Time.node_finder_label(), "Time");
    assert_eq!(NodeTempl::Sine.node_finder_label(), "Sine");
}

#[test]
fn empty_graph_evaluates_to_nothing() {
    let g = EvaluationGraph::new();
    let mut dmx = DmxState::new(1);
    g.evaluate(&mut dmx).unwrap();
    assert_eq!(dmx.get(0, 0), 0);
}

#[test]
fn pure_drivers_forward_their_property() {
    let mut g = EvaluationGraph::new();
    g.add_node(NodeTempl::Time);
    let mut dmx = DmxState::new(1);
    assert_eq!(g.evaluate(&mut dmx).unwrap_err(), EvaluationError::MissingProperty);
    g.set_prop(
        "time".to_string(),
        GVal::FNum(tronomic::fixed::Fx::from_int(2), tronomic::node::nonneg_frange()),
    );
    g.evaluate(&mut dmx).unwrap();

    let mut g2 = EvaluationGraph::new();
    g2.add_node(NodeTempl::Sine);
    assert_eq!(g2.evaluate(&mut dmx).unwrap_err(), EvaluationError::MissingProperty);
    // the sine template reads the host's unnamed sample property
    g2.set_prop(
        "".to_string(),
        GVal::FNum(tronomic::fixed::Fx::zero(), tronomic::node::nonneg_frange()),
    );
    g2.evaluate(&mut dmx).unwrap();
}

#[test]
fn rebinding_a_property_replaces_its_value() {
    let mut g = EvaluationGraph::new();
    let frame = g.add_node(NodeTempl::Frame);
    let out = g.add_node(NodeTempl::Output);
    g.add_connection(frame, ConnectionTo { start_port: 0, end_node: out, end_port: 0 }).unwrap();
    g.set_node_input(out, 1, GVal::IVec(vec![8], byte_irange())).unwrap();
    g.set_prop("frame".to_string(), GVal::INum(0, nonneg_irange()));
    g.set_prop("frame".to_string(), GVal::INum(1, nonneg_irange()));
    let mut dmx = DmxState::new(2);
    g.evaluate(&mut dmx).unwrap();
    assert_eq!(dmx.get(1, 0), 8);
    assert_eq!(dmx.get(0, 0), 0);
}

#[test]
fn oversized_channel_list_aborts_the_tick() {
    let (g, _) = output_node_graph(0, vec![1; 513]);
    let mut dmx = DmxState::new(1);
    assert_eq!(g.evaluate(&mut dmx).unwrap_err(), EvaluationError::TypeMismatch);
    assert_eq!(dmx.get(0, 0), 0);
}

#[test]
fn full_512_channel_write() {
    let channels: Vec<i64> = (0..512).map(|i| i % 256).collect();
    let (g, _) = output_node_graph(0, channels.clone());
    let mut dmx = DmxState::new(1);
    g.evaluate(&mut dmx).unwrap();
    for i in 0..512 {
        assert_eq!(dmx.get(0, i), (channels[i] % 256) as u8);
    }
}

#[test]
fn all_templates_are_offered() {
    let all = tronomic::node::AllNodeTempl.all_kinds();
    assert_eq!(
        all,
        vec![NodeTempl::Frame, NodeTempl::Time, NodeTempl::Sine, NodeTempl::Output]
    );
}
