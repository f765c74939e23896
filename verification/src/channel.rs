//! One DMX channel: a base value written by evaluation commits, an override
//! value written by manual intervention, and the flag that selects between
//! them. Reads honor the override; automatic commits never touch it.

use vstd::prelude::*;

verus! {

/// Ties a channel to a slot of a registered fixture: which fixture, and which
/// of its declared purposes.
#[derive(Debug, Clone, Copy, PartialEq)]
pub struct FixturePurpose {
    pub fixture_id: usize,
    pub fixture_purpose_id: usize,
}

/// A single channel with its two-layer value model and optional purpose tag.
#[derive(Debug, Clone, Copy, PartialEq)]
pub struct Channel {
    /// Base layer, the target of automatic evaluation commits.
    pub val: u8,
    /// Override layer, written only by manual intervention.
    pub val_ovr: u8,
    /// When set, reads and routed writes use the override layer.
    pub ovr: bool,
    /// Optional semantic role, resolved through the fixture registry.
    pub purpose: Option<FixturePurpose>,
}

/// The channel every universe starts from: both layers zero, no override.
pub open spec fn default_channel() -> Channel {
    Channel { val: 0u8, val_ovr: 0u8, ovr: false, purpose: None }
}

impl Channel {
    /// The value a read yields: the override layer iff the flag is set.
    pub open spec fn active(&self) -> u8 {
        if self.ovr {
            self.val_ovr
        } else {
            self.val
        }
    }

    /// Reads the active layer.
    pub fn get(&self) -> (r: u8)
        ensures
            r == self.active(),
    {
        if self.ovr {
            self.val_ovr
        } else {
            self.val
        }
    }

    /// Writes the active layer: the override value iff the flag is set, the
    /// base value otherwise. The flag and the other layer are untouched.
    pub fn set(&mut self, new: u8)
        ensures
            old(self).ovr ==> (*final(self) == Channel { val_ovr: new, ..*old(self) }),
            !old(self).ovr ==> (*final(self) == Channel { val: new, ..*old(self) }),
            final(self).active() == new,
    {
        if self.ovr {
            self.val_ovr = new;
        } else {
            self.val = new;
        }
    }

    /// Writes the base layer outright; the override layer and flag survive.
    /// This is the write an evaluation commit performs.
    pub fn set_base(&mut self, new: u8)
        ensures
            *final(self) == (Channel { val: new, ..*old(self) }),
    {
        self.val = new;
    }

    /// Sets the override flag, then writes the now-active layer.
    pub fn override_with(&mut self, en: bool, new: u8)
        ensures
            en ==> (*final(self) == Channel { ovr: true, val_ovr: new, ..*old(self) }),
            !en ==> (*final(self) == Channel { ovr: false, val: new, ..*old(self) }),
            final(self).active() == new,
    {
        self.ovr = en;
        self.set(new);
    }
}

} // verus!
