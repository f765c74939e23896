//! Fixtures: a physical device occupying a contiguous run of channels within
//! one universe, each channel with a semantic purpose.

use vstd::prelude::*;

verus! {

/// Semantic role of one fixture channel.
#[derive(Debug, Clone, Copy, PartialEq, Eq, Structural)]
pub enum ChannelPurpose {
    NoType,
    ColR,
    ColG,
    ColB,
    ColW,
    ColC,
    ColM,
    ColY,
    ColK,
    Dimmer,
    Pan,
    PanFine,
    Tilt,
    TiltFine,
}

/// A device patched at `start` of universe `universe_id`, covering one channel
/// per entry of `channel_purposes`.
#[derive(Debug, Clone, PartialEq)]
pub struct Fixture {
    pub universe_id: usize,
    pub start: usize,
    pub channel_purposes: Vec<ChannelPurpose>,
}

impl Fixture {
    /// A fixture must fit inside its universe's 512 channels.
    pub open spec fn wf(&self) -> bool {
        self.start + self.channel_purposes@.len() <= 512
    }

    /// Number of channels the fixture occupies.
    pub fn channel_count(&self) -> (r: usize)
        ensures
            r == self.channel_purposes@.len(),
    {
        self.channel_purposes.len()
    }
}

} // verus!
