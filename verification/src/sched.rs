//! Decision logic of the two periodic tasks. The host owns the timers and
//! sockets; this module fixes the arithmetic: how a frequency becomes a tick
//! period, how an elapsed time becomes the achieved rate the monitors show,
//! and which snapshots one output tick ships.

use vstd::prelude::*;
use crate::dmx::DmxState;
use crate::error::DmGuiError;
use crate::fixed::{Fx, fx_scale};

verus! {

/// Nanoseconds per second times raw counts per unit: the dividend that turns
/// a raw frequency into a period and back.
pub const NANOS_TIMES_SCALE: u64 = 1_000_000_000_000_000;

/// Startup configuration of the engine.
#[derive(Debug)]
pub struct SchedulerConfig {
    /// Evaluation ticks per second; must be positive.
    pub evaluation_frequency: Fx,
    /// Output ticks per second; must be positive.
    pub output_frequency: Fx,
    /// Number of universes to create; must be at least 1.
    pub universe_count: usize,
    /// Peer addresses, one ArtNet connection each.
    pub artnet_addrs: Vec<String>,
}

impl SchedulerConfig {
    /// Accepts exactly the configurations the engine can start from:
    /// positive frequencies and at least one universe. Anything else is an
    /// unrecoverable startup error.
    pub fn validate(&self) -> (r: Result<(), DmGuiError>)
        ensures
            r is Ok <==> (self.evaluation_frequency@ > 0 && self.output_frequency@ > 0
                && self.universe_count >= 1),
            r is Err ==> r->Err_0 is DMX,
    {
        if !self.evaluation_frequency.is_positive() {
            return Err(DmGuiError::dmx("evaluation frequency must be positive".to_owned()));
        }
        if !self.output_frequency.is_positive() {
            return Err(DmGuiError::dmx("output frequency must be positive".to_owned()));
        }
        if self.universe_count == 0 {
            return Err(DmGuiError::dmx("at least one universe is required".to_owned()));
        }
        Ok(())
    }
}

/// The timer period for a tick frequency, in nanoseconds; none for a
/// frequency that is not positive.
pub fn period_nanos(freq: Fx) -> (r: Option<u64>)
    ensures
        r is Some <==> freq@ > 0,
        r is Some ==> r->Some_0 == NANOS_TIMES_SCALE as int / freq@,
{
    let raw = freq.micros();
    if raw <= 0 {
        None
    } else {
        Some(NANOS_TIMES_SCALE / (raw as u64))
    }
}

/// The achieved rate a monitor records: ticks per second for one elapsed
/// interval, in fixed point; none when no time passed.
pub fn tick_rate_hz(elapsed_nanos: u64) -> (r: Option<Fx>)
    ensures
        r is Some <==> elapsed_nanos > 0,
        r is Some ==> r->Some_0@ == NANOS_TIMES_SCALE as int / elapsed_nanos as int,
{
    if elapsed_nanos == 0 {
        None
    } else {
        let raw: u64 = NANOS_TIMES_SCALE / elapsed_nanos;
        Some(Fx::from_micros(raw as i64))
    }
}

/// What one output tick ships: the override-aware snapshot of every
/// universe, in id order, copied under the lock and sent after releasing it.
pub fn output_snapshots(dmx: &DmxState) -> (r: Vec<Vec<u8>>)
    ensures
        r@.len() == dmx.unis().len(),
        forall|u: int|
            0 <= u < r@.len() ==> (#[trigger] r@[u])@.len() == 512,
        forall|u: int, i: int|
            0 <= u < r@.len() && 0 <= i < 512 ==> (#[trigger] r@[u]@[i]) == dmx.unis()[u]@[i].active(),
{
    let count = dmx.universe_count();
    let mut out: Vec<Vec<u8>> = Vec::new();
    let mut u: usize = 0;
    while u < count
        invariant
            count == dmx.unis().len(),
            u <= count,
            out@.len() == u,
            forall|k: int| 0 <= k < u ==> (#[trigger] out@[k])@.len() == 512,
            forall|k: int, i: int|
                0 <= k < u && 0 <= i < 512 ==> (#[trigger] out@[k]@[i]) == dmx.unis()[k]@[i].active(),
        decreases count - u,
    {
        out.push(dmx.snapshot(u));
        u += 1;
    }
    out
}

} // verus!
