//! Core of a DMX512 lighting-control engine: per-universe channel state with
//! a manual override layer, a typed dataflow graph evaluated once per tick,
//! ArtNet Output framing for the wire, and the decision logic of the two
//! periodic scheduler tasks.

pub mod artnet;
pub mod channel;
pub mod color;
pub mod dmx;
pub mod doc;
pub mod error;
pub mod eval;
pub mod fixed;
pub mod fixtures;
pub mod graph;
pub mod node;
pub mod port;
pub mod props;
pub mod sched;
pub mod universe;
