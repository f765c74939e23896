//! Nodes of the dataflow graph. A node's topology — its ports and their
//! kinds — is fixed at creation from its template and never changes; only
//! constant values and connections change over its life. Behavior is a
//! tagged dispatch on the template, so persisted graphs rebind drivers
//! purely from the stored template kind.

use vstd::prelude::*;
use crate::error::EvaluationError;
use crate::fixed::{Fx, spec_fx, fx_scale};
use crate::port::{FRange, GType, GVal, IRange, Port, default_gval, gval_as_inum, gval_as_ivec,
    gval_eqv, gvals_eqv, spec_gtype_of};
use crate::props::{Props, plookup};

verus! {

/// A directed edge, stored on its source node: output `start_port` of that
/// node feeds input `end_port` of node `end_node`.
#[derive(Debug, Clone, Copy, PartialEq, Eq, Structural)]
pub struct ConnectionTo {
    pub start_port: usize,
    pub end_node: usize,
    pub end_port: usize,
}

/// The closed set of node templates.
#[derive(Debug, Clone, Copy, PartialEq, Eq, Structural)]
pub enum NodeTempl {
    Frame,
    Time,
    Output,
    Sine,
}

/// The two driver behaviors: a pure function feeding downstream ports, or a
/// sink writing universes directly. `Unbound` marks a node whose behavior was
/// never bound; a graph never holds one.
#[derive(Debug, Clone, Copy, PartialEq, Eq, Structural)]
pub enum Driver {
    Unbound,
    Func,
    Ctx,
}

impl Default for Driver {
    fn default() -> (r: Self)
        ensures
            r == Driver::Unbound,
    {
        Driver::Unbound
    }
}

/// A node: display title, input ports with their current constants, output
/// ports, the driver tag, the template it was built from, and the outgoing
/// connections.
#[derive(Debug)]
pub struct Node {
    pub title: String,
    pub inp: Vec<Port>,
    pub outp: Vec<Port>,
    pub driver: Driver,
    pub templ: NodeTempl,
    pub adjacents: Vec<ConnectionTo>,
}

/// Bounds of nonnegative fractional quantities (time, sine samples).
pub open spec fn spec_nonneg_frange() -> FRange {
    FRange { min: spec_fx(0), max: spec_fx(i64::MAX as int) }
}

/// Bounds of nonnegative integer quantities (frame counter, universe id).
pub open spec fn spec_nonneg_irange() -> IRange {
    IRange { min: 0, max: i64::MAX }
}

/// Bounds of protocol byte values.
pub open spec fn spec_byte_irange() -> IRange {
    IRange { min: 0, max: 255 }
}

/// Builds the nonnegative fractional bounds.
pub fn nonneg_frange() -> (r: FRange)
    ensures
        r == spec_nonneg_frange(),
{
    FRange { min: Fx::from_micros(0), max: Fx::from_micros(i64::MAX) }
}

/// Builds the nonnegative integer bounds.
pub fn nonneg_irange() -> (r: IRange)
    ensures
        r == spec_nonneg_irange(),
{
    IRange { min: 0, max: i64::MAX }
}

/// Builds the protocol byte bounds.
pub fn byte_irange() -> (r: IRange)
    ensures
        r == spec_byte_irange(),
{
    IRange { min: 0, max: 255 }
}

/// Which behavior each template binds.
pub open spec fn driver_of(t: NodeTempl) -> Driver {
    match t {
        NodeTempl::Frame => Driver::Func,
        NodeTempl::Time => Driver::Func,
        NodeTempl::Sine => Driver::Func,
        NodeTempl::Output => Driver::Ctx,
    }
}

/// The input port kinds each template declares.
pub open spec fn template_input_kinds(t: NodeTempl) -> Seq<GType> {
    match t {
        NodeTempl::Frame => seq![],
        NodeTempl::Time => seq![],
        NodeTempl::Sine => seq![GType::FNum(spec_nonneg_frange())],
        NodeTempl::Output => seq![
            GType::INum(spec_nonneg_irange()),
            GType::IVec(spec_byte_irange()),
        ],
    }
}

/// The output port kinds each template declares.
pub open spec fn template_output_kinds(t: NodeTempl) -> Seq<GType> {
    match t {
        NodeTempl::Frame => seq![GType::INum(spec_nonneg_irange())],
        NodeTempl::Time => seq![GType::FNum(spec_nonneg_frange())],
        NodeTempl::Sine => seq![GType::FNum(spec_nonneg_frange())],
        NodeTempl::Output => seq![],
    }
}

/// The kinds of a port list.
pub open spec fn port_kinds(ports: Seq<Port>) -> Seq<GType> {
    ports.map_values(|p: Port| spec_gtype_of(p.gval))
}

/// A node is template-consistent: driver and port kinds are exactly what its
/// template declares.
pub open spec fn node_matches_template(n: Node) -> bool {
    &&& n.driver == driver_of(n.templ)
    &&& port_kinds(n.inp@) == template_input_kinds(n.templ)
    &&& port_kinds(n.outp@) == template_output_kinds(n.templ)
}

impl NodeTempl {
    /// The label shown for the template.
    pub fn node_finder_label(&self) -> (r: &'static str)
        ensures
            (r@ == match self {
                NodeTempl::Output => "Output"@,
                NodeTempl::Frame => "Frame since start"@,
                NodeTempl::Sine => "Sine"@,
                NodeTempl::Time => "Time"@,
            }),
    {
        match self {
            NodeTempl::Output => "Output",
            NodeTempl::Frame => "Frame since start",
            NodeTempl::Sine => "Sine",
            NodeTempl::Time => "Time",
        }
    }

    /// Builds a fresh node from the template: ports as declared, constants at
    /// their defaults, the driver bound by the template tag, no connections.
    pub fn build_node(&self) -> (r: Node)
        ensures
            node_matches_template(r),
            r.templ == *self,
            r.adjacents@.len() == 0,
    {
        match self {
            NodeTempl::Frame => {
                let mut outp: Vec<Port> = Vec::new();
                outp.push(Port { name: "".to_owned(), gval: default_gval(&GType::INum(nonneg_irange())) });
                let r = Node {
                    title: "Frame".to_owned(),
                    inp: Vec::new(),
                    outp,
                    driver: Driver::Func,
                    templ: NodeTempl::Frame,
                    adjacents: Vec::new(),
                };
                proof {
                    assert(port_kinds(r.inp@) =~= template_input_kinds(r.templ));
                    assert(port_kinds(r.outp@) =~= template_output_kinds(r.templ));
                }
                r
            },
            NodeTempl::Time => {
                let mut outp: Vec<Port> = Vec::new();
                outp.push(Port { name: "".to_owned(), gval: default_gval(&GType::FNum(nonneg_frange())) });
                let r = Node {
                    title: "Time".to_owned(),
                    inp: Vec::new(),
                    outp,
                    driver: Driver::Func,
                    templ: NodeTempl::Time,
                    adjacents: Vec::new(),
                };
                proof {
                    assert(port_kinds(r.inp@) =~= template_input_kinds(r.templ));
                    assert(port_kinds(r.outp@) =~= template_output_kinds(r.templ));
                }
                r
            },
            NodeTempl::Sine => {
                let mut inp: Vec<Port> = Vec::new();
                inp.push(Port { name: "x".to_owned(), gval: default_gval(&GType::FNum(nonneg_frange())) });
                let mut outp: Vec<Port> = Vec::new();
                outp.push(Port { name: "sin".to_owned(), gval: default_gval(&GType::FNum(nonneg_frange())) });
                let r = Node {
                    title: "Sine".to_owned(),
                    inp,
                    outp,
                    driver: Driver::Func,
                    templ: NodeTempl::Sine,
                    adjacents: Vec::new(),
                };
                proof {
                    assert(port_kinds(r.inp@) =~= template_input_kinds(r.templ));
                    assert(port_kinds(r.outp@) =~= template_output_kinds(r.templ));
                }
                r
            },
            NodeTempl::Output => {
                let mut inp: Vec<Port> = Vec::new();
                inp.push(Port { name: "universe".to_owned(), gval: default_gval(&GType::INum(nonneg_irange())) });
                inp.push(Port { name: "channels".to_owned(), gval: default_gval(&GType::IVec(byte_irange())) });
                let r = Node {
                    title: "Output".to_owned(),
                    inp,
                    outp: Vec::new(),
                    driver: Driver::Ctx,
                    templ: NodeTempl::Output,
                    adjacents: Vec::new(),
                };
                proof {
                    assert(port_kinds(r.inp@) =~= template_input_kinds(r.templ));
                    assert(port_kinds(r.outp@) =~= template_output_kinds(r.templ));
                }
                r
            },
        }
    }
}

/// Enumerates every template the node finder offers.
#[derive(Debug, Clone)]
pub struct AllNodeTempl;

impl AllNodeTempl {
    /// All template kinds, in finder order.
    pub fn all_kinds(&self) -> (r: Vec<NodeTempl>)
        ensures
            r@ == seq![NodeTempl::Frame, NodeTempl::Time, NodeTempl::Sine, NodeTempl::Output],
    {
        let mut out: Vec<NodeTempl> = Vec::new();
        out.push(NodeTempl::Frame);
        out.push(NodeTempl::Time);
        out.push(NodeTempl::Sine);
        out.push(NodeTempl::Output);
        proof {
            assert(out@ =~= seq![
                NodeTempl::Frame,
                NodeTempl::Time,
                NodeTempl::Sine,
                NodeTempl::Output,
            ]);
        }
        out
    }
}

/// What a pure driver yields: `Frame`, `Time` and `Sine` forward the global
/// property they read (`frame`, `time`, and the host's unnamed sample), or
/// fail with `MissingProperty` when it was not supplied. A sink template has
/// no pure behavior.
pub open spec fn spec_eval_pure(t: NodeTempl, props: Seq<(String, GVal)>, inputs: Seq<GVal>) -> Result<
    Seq<GVal>,
    EvaluationError,
> {
    match t {
        NodeTempl::Frame => match plookup(props, "frame"@) {
            Some(v) => Ok(seq![v]),
            None => Err(EvaluationError::MissingProperty),
        },
        NodeTempl::Time => match plookup(props, "time"@) {
            Some(v) => Ok(seq![v]),
            None => Err(EvaluationError::MissingProperty),
        },
        NodeTempl::Sine => match plookup(props, ""@) {
            Some(v) => Ok(seq![v]),
            None => Err(EvaluationError::MissingProperty),
        },
        NodeTempl::Output => Err(EvaluationError::TypeMismatch),
    }
}

/// What a sink driver yields: `Output` demands a universe id scalar and a
/// byte-bounded channel list, exactly as declared, and emits that list for
/// that universe. A pure template has no sink behavior.
pub open spec fn spec_eval_sink(t: NodeTempl, inputs: Seq<GVal>) -> Result<
    Seq<(i64, GVal)>,
    EvaluationError,
> {
    match t {
        NodeTempl::Output => {
            if inputs.len() < 2 {
                Err(EvaluationError::TypeMismatch)
            } else if !(inputs[0] is INum && inputs[0]->INum_1 == spec_nonneg_irange()) {
                Err(EvaluationError::TypeMismatch)
            } else if !(inputs[1] is IVec && inputs[1]->IVec_1 == spec_byte_irange()) {
                Err(EvaluationError::TypeMismatch)
            } else {
                Ok(seq![(inputs[0]->INum_0, GVal::IVec(inputs[1]->IVec_0, spec_byte_irange()))])
            }
        },
        _ => Err(EvaluationError::TypeMismatch),
    }
}

/// Runs a pure driver: the behavior `spec_eval_pure` describes.
pub fn eval_pure(t: NodeTempl, props: &Props, inputs: &Vec<GVal>) -> (r: Result<
    Vec<GVal>,
    EvaluationError,
>)
    ensures
        r is Ok <==> spec_eval_pure(t, props.entries(), inputs@) is Ok,
        r is Ok ==> gvals_eqv(r->Ok_0@, spec_eval_pure(t, props.entries(), inputs@)->Ok_0),
        r is Err ==> r->Err_0 == spec_eval_pure(t, props.entries(), inputs@)->Err_0,
{
    match t {
        NodeTempl::Frame => {
            let key = "frame".to_owned();
            match props.get(&key) {
                Some(v) => {
                    let mut out: Vec<GVal> = Vec::new();
                    out.push(v.duplicate());
                    proof {
                        assert(gvals_eqv(out@, seq![props.spec_get("frame"@)->Some_0]));
                    }
                    Ok(out)
                },
                None => Err(EvaluationError::MissingProperty),
            }
        },
        NodeTempl::Time => {
            let key = "time".to_owned();
            match props.get(&key) {
                Some(v) => {
                    let mut out: Vec<GVal> = Vec::new();
                    out.push(v.duplicate());
                    proof {
                        assert(gvals_eqv(out@, seq![props.spec_get("time"@)->Some_0]));
                    }
                    Ok(out)
                },
                None => Err(EvaluationError::MissingProperty),
            }
        },
        NodeTempl::Sine => {
            let key = "".to_owned();
            match props.get(&key) {
                Some(v) => {
                    let mut out: Vec<GVal> = Vec::new();
                    out.push(v.duplicate());
                    proof {
                        assert(gvals_eqv(out@, seq![props.spec_get(""@)->Some_0]));
                    }
                    Ok(out)
                },
                None => Err(EvaluationError::MissingProperty),
            }
        },
        NodeTempl::Output => Err(EvaluationError::TypeMismatch),
    }
}

/// Runs a sink driver: the behavior `spec_eval_sink` describes.
pub fn eval_sink(t: NodeTempl, inputs: Vec<GVal>) -> (r: Result<
    Vec<(i64, GVal)>,
    EvaluationError,
>)
    ensures
        r is Ok <==> spec_eval_sink(t, inputs@) is Ok,
        r is Ok ==> r->Ok_0@ == spec_eval_sink(t, inputs@)->Ok_0,
        r is Err ==> r->Err_0 == spec_eval_sink(t, inputs@)->Err_0,
{
    match t {
        NodeTempl::Output => {
            if inputs.len() < 2 {
                return Err(EvaluationError::TypeMismatch);
            }
            let mut inputs = inputs;
            let ghost gin = inputs@;
            let second = inputs.remove(1);
            let first = inputs.remove(0);
            proof {
                assert(first == gin[0] && second == gin[1]);
            }
            let universe = match gval_as_inum(first, Some(nonneg_irange())) {
                Ok(u) => u,
                Err(e) => {
                    return Err(e);
                },
            };
            let channels = match gval_as_ivec(second, Some(byte_irange())) {
                Ok(c) => c,
                Err(e) => {
                    return Err(e);
                },
            };
            let mut out: Vec<(i64, GVal)> = Vec::new();
            out.push((universe, GVal::IVec(channels, byte_irange())));
            proof {
                assert(out@ =~= spec_eval_sink(NodeTempl::Output, gin)->Ok_0);
            }
            Ok(out)
        },
        _ => Err(EvaluationError::TypeMismatch),
    }
}

} // verus!
