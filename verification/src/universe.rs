//! One DMX universe: exactly 512 channels, an invariant the type carries for
//! its whole life.

use vstd::prelude::*;
use crate::channel::{Channel, FixturePurpose, default_channel};

verus! {

/// Number of channels of every universe, fixed by the protocol.
pub const UNIVERSE_CHANNELS: usize = 512;

/// An independent set of 512 channels.
#[derive(Debug)]
pub struct Universe {
    chans: Vec<Channel>,
}

impl View for Universe {
    type V = Seq<Channel>;

    closed spec fn view(&self) -> Seq<Channel> {
        self.chans@
    }
}

impl Universe {
    /// Every universe holds exactly 512 channels, from construction on.
    #[verifier::type_invariant]
    spec fn channel_count_fixed(self) -> bool {
        self@.len() == 512
    }

    /// The number of channels: exactly 512, on every universe ever built.
    pub fn channel_count(&self) -> (r: usize)
        ensures
            r == self@.len(),
            r == 512,
    {
        proof {
            use_type_invariant(&*self);
        }
        512
    }

    /// A fresh universe: both layers zero and no override, on every channel.
    pub fn new() -> (r: Self)
        ensures
            r@.len() == 512,
            forall|i: int| 0 <= i < 512 ==> r@[i] == default_channel(),
    {
        let mut chans: Vec<Channel> = Vec::new();
        let mut i: usize = 0;
        while i < UNIVERSE_CHANNELS
            invariant
                i <= 512,
                chans@.len() == i,
                forall|j: int| 0 <= j < i ==> chans@[j] == default_channel(),
            decreases 512 - i,
        {
            chans.push(Channel { val: 0, val_ovr: 0, ovr: false, purpose: None });
            i += 1;
        }
        Universe { chans }
    }

    /// The channel at `i`, or `None` past the end.
    pub fn get_channel(&self, i: usize) -> (r: Option<Channel>)
        ensures
            i < 512 <==> r is Some,
            r is Some ==> r->Some_0 == self@[i as int],
    {
        proof {
            use_type_invariant(&*self);
        }
        if i < UNIVERSE_CHANNELS {
            Some(self.chans[i])
        } else {
            None
        }
    }

    /// Mutable access to channel `i`. The caller's writes through the
    /// reference land in the universe.
    pub fn get_channel_mut(&mut self, i: usize) -> (r: &mut Channel)
        requires
            i < 512,
        ensures
            *r == old(self)@[i as int],
            final(self)@ == old(self)@.update(i as int, *final(r)),
    {
        proof {
            use_type_invariant(&*self);
        }
        &mut self.chans[i]
    }

    /// Reads channel `i`, honoring its override flag.
    pub fn get(&self, i: usize) -> (r: u8)
        requires
            i < 512,
        ensures
            r == self@[i as int].active(),
    {
        proof {
            use_type_invariant(&*self);
        }
        self.chans[i].get()
    }

    /// Writes the active layer of channel `i`: the override value while the
    /// override flag is set, the base value otherwise.
    pub fn set(&mut self, i: usize, n: u8)
        requires
            i < 512,
        ensures
            final(self)@.len() == 512,
            old(self)@[i as int].ovr ==> (final(self)@[i as int] == Channel {
                val_ovr: n,
                ..old(self)@[i as int]
            }),
            !old(self)@[i as int].ovr ==> (final(self)@[i as int] == Channel {
                val: n,
                ..old(self)@[i as int]
            }),
            final(self)@[i as int].active() == n,
            forall|j: int| 0 <= j < 512 && j != i ==> final(self)@[j] == old(self)@[j],
    {
        proof {
            use_type_invariant(&*self);
        }
        let c = &mut self.chans[i];
        c.set(n);
    }

    /// Writes the base layer of channel `i`; override value and flag survive.
    pub fn set_base(&mut self, i: usize, n: u8)
        requires
            i < 512,
        ensures
            final(self)@.len() == 512,
            final(self)@[i as int] == (Channel { val: n, ..old(self)@[i as int] }),
            forall|j: int| 0 <= j < 512 && j != i ==> final(self)@[j] == old(self)@[j],
    {
        proof {
            use_type_invariant(&*self);
        }
        let c = &mut self.chans[i];
        c.set_base(n);
    }

    /// Enables the override of channel `i` and writes its override value.
    pub fn set_ovr(&mut self, i: usize, n: u8)
        requires
            i < 512,
        ensures
            final(self)@.len() == 512,
            final(self)@[i as int] == (Channel { ovr: true, val_ovr: n, ..old(self)@[i as int] }),
            forall|j: int| 0 <= j < 512 && j != i ==> final(self)@[j] == old(self)@[j],
    {
        proof {
            use_type_invariant(&*self);
        }
        let c = &mut self.chans[i];
        c.override_with(true, n);
    }

    /// Sets or clears the override flag of channel `i`, then writes the layer
    /// the new flag selects.
    pub fn override_with(&mut self, i: usize, en: bool, n: u8)
        requires
            i < 512,
        ensures
            final(self)@.len() == 512,
            en ==> (final(self)@[i as int] == Channel {
                ovr: true,
                val_ovr: n,
                ..old(self)@[i as int]
            }),
            !en ==> (final(self)@[i as int] == Channel {
                ovr: false,
                val: n,
                ..old(self)@[i as int]
            }),
            final(self)@[i as int].active() == n,
            forall|j: int| 0 <= j < 512 && j != i ==> final(self)@[j] == old(self)@[j],
    {
        proof {
            use_type_invariant(&*self);
        }
        let c = &mut self.chans[i];
        c.override_with(en, n);
    }

    /// Clears the override flag of channel `i`; both stored values survive.
    pub fn reset_ovr(&mut self, i: usize)
        requires
            i < 512,
        ensures
            final(self)@.len() == 512,
            final(self)@[i as int] == (Channel { ovr: false, ..old(self)@[i as int] }),
            forall|j: int| 0 <= j < 512 && j != i ==> final(self)@[j] == old(self)@[j],
    {
        proof {
            use_type_invariant(&*self);
        }
        let c = &mut self.chans[i];
        c.ovr = false;
    }

    /// Tags channel `i` with a fixture purpose, or clears the tag.
    pub fn set_purpose(&mut self, i: usize, p: Option<FixturePurpose>)
        requires
            i < 512,
        ensures
            final(self)@.len() == 512,
            final(self)@[i as int] == (Channel { purpose: p, ..old(self)@[i as int] }),
            forall|j: int| 0 <= j < 512 && j != i ==> final(self)@[j] == old(self)@[j],
    {
        proof {
            use_type_invariant(&*self);
        }
        let c = &mut self.chans[i];
        c.purpose = p;
    }

    /// Copies the active value of all 512 channels, in channel order: the
    /// snapshot the output task transmits.
    pub fn snapshot(&self) -> (r: Vec<u8>)
        ensures
            r@.len() == 512,
            forall|i: int| 0 <= i < 512 ==> r@[i] == self@[i].active(),
    {
        proof {
            use_type_invariant(&*self);
        }
        let mut out: Vec<u8> = Vec::new();
        let mut i: usize = 0;
        while i < UNIVERSE_CHANNELS
            invariant
                i <= 512,
                self@.len() == 512,
                out@.len() == i,
                forall|j: int| 0 <= j < i ==> out@[j] == self@[j].active(),
            decreases 512 - i,
        {
            out.push(self.chans[i].get());
            i += 1;
        }
        out
    }
}

} // verus!
