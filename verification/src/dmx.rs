//! The authoritative engine state: one universe per id (ids are dense,
//! `0..universe_count`), a fixture registry with monotonically increasing
//! ids, and named fixture groups.

use vstd::prelude::*;
use crate::channel::Channel;
use crate::fixtures::Fixture;
use crate::universe::Universe;

verus! {

/// True when some entry of the association list carries key `id`.
pub open spec fn assoc_contains<T>(s: Seq<(usize, T)>, id: usize) -> bool {
    exists|i: int| 0 <= i < s.len() && s[i].0 == id
}

/// Per-channel state of every universe, plus the fixture registry.
#[derive(Debug)]
pub struct DmxState {
    universes: Vec<Universe>,
    fixt_next_id: usize,
    fixts: Vec<(usize, Fixture)>,
    fixt_groups: Vec<(usize, Vec<usize>)>,
}

impl DmxState {
    /// At least one universe exists, fixture ids are unique and below the
    /// next id to hand out, and group ids are unique.
    #[verifier::type_invariant]
    spec fn wf(self) -> bool {
        &&& self.universes@.len() >= 1
        &&& forall|i: int, j: int|
            0 <= i < j < self.fixts@.len() ==> (#[trigger] self.fixts@[i]).0 != (
            #[trigger] self.fixts@[j]).0
        &&& forall|i: int|
            0 <= i < self.fixts@.len() ==> (#[trigger] self.fixts@[i]).0 < self.fixt_next_id
        &&& forall|i: int, j: int|
            0 <= i < j < self.fixt_groups@.len() ==> (#[trigger] self.fixt_groups@[i]).0 != (
            #[trigger] self.fixt_groups@[j]).0
    }

    /// The universes, in id order.
    pub closed spec fn unis(&self) -> Seq<Universe> {
        self.universes@
    }

    /// The registered fixtures as (id, fixture) pairs, in registration order.
    pub closed spec fn fixtures(&self) -> Seq<(usize, Fixture)> {
        self.fixts@
    }

    /// The id the next registered fixture will receive.
    pub closed spec fn next_fixture_id(&self) -> usize {
        self.fixt_next_id
    }

    /// The named groups as (id, member fixture ids) pairs.
    pub closed spec fn groups(&self) -> Seq<(usize, Vec<usize>)> {
        self.fixt_groups@
    }

    /// Creates the state once at startup: `universe_count` fresh universes,
    /// an empty registry, no groups.
    pub fn new(universe_count: usize) -> (r: Self)
        requires
            universe_count >= 1,
        ensures
            r.unis().len() == universe_count,
            forall|u: int, i: int|
                0 <= u < universe_count && 0 <= i < 512 ==> (#[trigger] r.unis()[u]@[i])
                    == crate::channel::default_channel(),
            r.fixtures().len() == 0,
            r.next_fixture_id() == 0,
            r.groups().len() == 0,
    {
        let mut universes: Vec<Universe> = Vec::new();
        let mut u: usize = 0;
        while u < universe_count
            invariant
                u <= universe_count,
                universes@.len() == u,
                forall|k: int, i: int|
                    0 <= k < u && 0 <= i < 512 ==> (#[trigger] universes@[k]@[i])
                        == crate::channel::default_channel(),
            decreases universe_count - u,
        {
            universes.push(Universe::new());
            u += 1;
        }
        DmxState { universes, fixt_next_id: 0, fixts: Vec::new(), fixt_groups: Vec::new() }
    }

    /// Number of universes; fixed at startup, at least 1.
    pub fn universe_count(&self) -> (r: usize)
        ensures
            r == self.unis().len(),
            r >= 1,
    {
        proof {
            use_type_invariant(&*self);
        }
        self.universes.len()
    }

    /// Every universe held by the state has exactly 512 channels.
    pub fn universe_channel_count(&self, u: usize) -> (r: usize)
        requires
            u < self.unis().len(),
        ensures
            r == self.unis()[u as int]@.len(),
            r == 512,
    {
        self.universes[u].channel_count()
    }

    /// Reads channel `i` of universe `u`, honoring its override flag.
    pub fn get(&self, u: usize, i: usize) -> (r: u8)
        requires
            u < self.unis().len(),
            i < 512,
        ensures
            r == self.unis()[u as int]@[i as int].active(),
    {
        self.universes[u].get(i)
    }

    /// Writes the active layer of channel `i` of universe `u`.
    pub fn set(&mut self, u: usize, i: usize, n: u8)
        requires
            u < old(self).unis().len(),
            i < 512,
        ensures
            final(self).unis().len() == old(self).unis().len(),
            old(self).unis()[u as int]@[i as int].ovr ==> (final(self).unis()[u as int]@[i as int]
                == Channel { val_ovr: n, ..old(self).unis()[u as int]@[i as int] }),
            !old(self).unis()[u as int]@[i as int].ovr ==> (final(self).unis()[u as int]@[i as int]
                == Channel { val: n, ..old(self).unis()[u as int]@[i as int] }),
            final(self).unis()[u as int]@[i as int].active() == n,
            forall|j: int|
                0 <= j < 512 && j != i ==> final(self).unis()[u as int]@[j] == old(self).unis()[
                    u as int
                ]@[j],
            forall|k: int|
                0 <= k < old(self).unis().len() && k != u ==> final(self).unis()[k] == old(
                    self,
                ).unis()[k],
            final(self).fixtures() == old(self).fixtures(),
            final(self).next_fixture_id() == old(self).next_fixture_id(),
            final(self).groups() == old(self).groups(),
    {
        proof {
            use_type_invariant(&*self);
        }
        let un = &mut self.universes[u];
        un.set(i, n);
    }

    /// Writes the base layer of channel `i` of universe `u`: the write an
    /// evaluation commit performs. Override value, flag and purpose survive
    /// on every channel.
    pub fn set_base(&mut self, u: usize, i: usize, n: u8)
        requires
            u < old(self).unis().len(),
            i < 512,
        ensures
            final(self).unis().len() == old(self).unis().len(),
            final(self).unis()[u as int]@.len() == 512,
            final(self).unis()[u as int]@[i as int] == (Channel {
                val: n,
                ..old(self).unis()[u as int]@[i as int]
            }),
            forall|j: int|
                0 <= j < 512 && j != i ==> final(self).unis()[u as int]@[j] == old(self).unis()[
                    u as int
                ]@[j],
            forall|k: int|
                0 <= k < old(self).unis().len() && k != u ==> final(self).unis()[k] == old(
                    self,
                ).unis()[k],
            final(self).fixtures() == old(self).fixtures(),
            final(self).next_fixture_id() == old(self).next_fixture_id(),
            final(self).groups() == old(self).groups(),
    {
        proof {
            use_type_invariant(&*self);
        }
        let un = &mut self.universes[u];
        un.set_base(i, n);
    }

    /// Sets or clears the override flag of channel `i` of universe `u`, then
    /// writes the layer the new flag selects.
    pub fn override_with(&mut self, u: usize, i: usize, en: bool, n: u8)
        requires
            u < old(self).unis().len(),
            i < 512,
        ensures
            final(self).unis().len() == old(self).unis().len(),
            en ==> (final(self).unis()[u as int]@[i as int] == Channel {
                ovr: true,
                val_ovr: n,
                ..old(self).unis()[u as int]@[i as int]
            }),
            !en ==> (final(self).unis()[u as int]@[i as int] == Channel {
                ovr: false,
                val: n,
                ..old(self).unis()[u as int]@[i as int]
            }),
            final(self).unis()[u as int]@[i as int].active() == n,
            forall|j: int|
                0 <= j < 512 && j != i ==> final(self).unis()[u as int]@[j] == old(self).unis()[
                    u as int
                ]@[j],
            forall|k: int|
                0 <= k < old(self).unis().len() && k != u ==> final(self).unis()[k] == old(
                    self,
                ).unis()[k],
            final(self).fixtures() == old(self).fixtures(),
            final(self).next_fixture_id() == old(self).next_fixture_id(),
            final(self).groups() == old(self).groups(),
    {
        proof {
            use_type_invariant(&*self);
        }
        let un = &mut self.universes[u];
        un.override_with(i, en, n);
    }

    /// Clears the override flag of channel `i` of universe `u`.
    pub fn reset_ovr(&mut self, u: usize, i: usize)
        requires
            u < old(self).unis().len(),
            i < 512,
        ensures
            final(self).unis().len() == old(self).unis().len(),
            final(self).unis()[u as int]@[i as int] == (Channel {
                ovr: false,
                ..old(self).unis()[u as int]@[i as int]
            }),
            forall|j: int|
                0 <= j < 512 && j != i ==> final(self).unis()[u as int]@[j] == old(self).unis()[
                    u as int
                ]@[j],
            forall|k: int|
                0 <= k < old(self).unis().len() && k != u ==> final(self).unis()[k] == old(
                    self,
                ).unis()[k],
            final(self).fixtures() == old(self).fixtures(),
            final(self).next_fixture_id() == old(self).next_fixture_id(),
            final(self).groups() == old(self).groups(),
    {
        proof {
            use_type_invariant(&*self);
        }
        let un = &mut self.universes[u];
        un.reset_ovr(i);
    }

    /// Copies the active values of universe `u`, all 512 channels in order.
    pub fn snapshot(&self, u: usize) -> (r: Vec<u8>)
        requires
            u < self.unis().len(),
        ensures
            r@.len() == 512,
            forall|i: int| 0 <= i < 512 ==> r@[i] == self.unis()[u as int]@[i].active(),
    {
        self.universes[u].snapshot()
    }

    /// Registers a fixture under a fresh id and returns that id. The registry
    /// alone changes: never channel contents.
    pub fn add_fixture(&mut self, new: Fixture) -> (r: usize)
        requires
            new.wf(),
            old(self).next_fixture_id() < usize::MAX,
        ensures
            r == old(self).next_fixture_id(),
            final(self).next_fixture_id() == old(self).next_fixture_id() + 1,
            final(self).fixtures() == old(self).fixtures().push((r, new)),
            !assoc_contains(old(self).fixtures(), r),
            final(self).unis() == old(self).unis(),
            final(self).groups() == old(self).groups(),
    {
        proof {
            use_type_invariant(&*self);
        }
        let new_id = self.fixt_next_id;
        self.fixt_next_id = self.fixt_next_id + 1;
        let mut fixts: Vec<(usize, Fixture)> = Vec::new();
        core::mem::swap(&mut self.fixts, &mut fixts);
        fixts.push((new_id, new));
        core::mem::swap(&mut self.fixts, &mut fixts);
        new_id
    }

    /// Unregisters the fixture with `id`, returning it; `None` when the id is
    /// not registered. The freed id is never handed out again.
    pub fn remove_fixture(&mut self, id: usize) -> (r: Option<Fixture>)
        ensures
            r is Some <==> assoc_contains(old(self).fixtures(), id),
            r is Some ==> exists|i: int|
                0 <= i < old(self).fixtures().len() && old(self).fixtures()[i] == (
                id,
                r->Some_0,
                ) && final(self).fixtures() == old(self).fixtures().remove(i),
            r is None ==> final(self).fixtures() == old(self).fixtures(),
            final(self).next_fixture_id() == old(self).next_fixture_id(),
            final(self).unis() == old(self).unis(),
            final(self).groups() == old(self).groups(),
    {
        proof {
            use_type_invariant(&*self);
        }
        let mut fixts: Vec<(usize, Fixture)> = Vec::new();
        core::mem::swap(&mut self.fixts, &mut fixts);
        let ghost orig = fixts@;
        let n = fixts.len();
        let mut i: usize = 0;
        while i < n
            invariant
                self.universes == old(self).universes,
                self.fixt_groups == old(self).fixt_groups,
                self.fixt_next_id == old(self).fixt_next_id,
                self.fixts@.len() == 0,
                self.universes@.len() >= 1,
                forall|p: int, q: int|
                    0 <= p < q < self.fixt_groups@.len() ==> (#[trigger] self.fixt_groups@[p]).0
                        != (#[trigger] self.fixt_groups@[q]).0,
                fixts@ == orig,
                orig == old(self).fixtures(),
                n == orig.len(),
                i <= n,
                forall|j: int| 0 <= j < i ==> (#[trigger] orig[j]).0 != id,
                forall|p: int, q: int|
                    0 <= p < q < orig.len() ==> (#[trigger] orig[p]).0 != (#[trigger] orig[q]).0,
                forall|j: int|
                    0 <= j < orig.len() ==> (#[trigger] orig[j]).0 < self.fixt_next_id,
            decreases n - i,
        {
            if fixts[i].0 == id {
                let entry = fixts.remove(i);
                proof {
                    assert(fixts@ == orig.remove(i as int));
                    assert forall|p: int, q: int| 0 <= p < q < fixts@.len() implies (
                    #[trigger] fixts@[p]).0 != (#[trigger] fixts@[q]).0 by {
                        let p0: int = if p < i { p } else { p + 1 };
                        let q0: int = if q < i { q } else { q + 1 };
                        assert(fixts@[p] == orig[p0]);
                        assert(fixts@[q] == orig[q0]);
                    }
                    assert forall|j: int| 0 <= j < fixts@.len() implies (#[trigger] fixts@[j]).0
                        < self.fixt_next_id by {
                        let j0: int = if j < i { j } else { j + 1 };
                        assert(fixts@[j] == orig[j0]);
                    }
                    assert(0 <= i < orig.len() && orig[i as int].0 == id);
                    assert(orig[i as int] == (id, entry.1));
                    assert(orig == old(self).fixtures());
                    assert(old(self).fixtures()[i as int] == (id, entry.1));
                    assert(fixts@ == old(self).fixtures().remove(i as int));
                    assert(assoc_contains(old(self).fixtures(), id));
                }
                core::mem::swap(&mut self.fixts, &mut fixts);
                return Some(entry.1);
            }
            i += 1;
        }
        core::mem::swap(&mut self.fixts, &mut fixts);
        None
    }

    /// The registered fixture with `id`, if any.
    pub fn fixture(&self, id: usize) -> (r: Option<&Fixture>)
        ensures
            r is Some <==> assoc_contains(self.fixtures(), id),
            r is Some ==> exists|i: int|
                0 <= i < self.fixtures().len() && self.fixtures()[i] == (id, *r->Some_0),
    {
        let n = self.fixts.len();
        let mut i: usize = 0;
        while i < n
            invariant
                n == self.fixts@.len(),
                i <= n,
                forall|j: int| 0 <= j < i ==> (#[trigger] self.fixts@[j]).0 != id,
            decreases n - i,
        {
            if self.fixts[i].0 == id {
                return Some(&self.fixts[i].1);
            }
            i += 1;
        }
        None
    }

    /// Names a group: the member list stored under `gid`, replacing any
    /// previous list under that id.
    #[verifier::rlimit(30)]
    pub fn set_fixture_group(&mut self, gid: usize, members: Vec<usize>)
        ensures
            assoc_contains(final(self).groups(), gid),
            exists|i: int|
                0 <= i < final(self).groups().len() && (#[trigger] final(self).groups()[i]).0
                    == gid && final(self).groups()[i].1 == members,
            final(self).unis() == old(self).unis(),
            final(self).fixtures() == old(self).fixtures(),
            final(self).next_fixture_id() == old(self).next_fixture_id(),
    {
        proof {
            use_type_invariant(&*self);
        }
        let ghost gmembers = members;
        let mut groups: Vec<(usize, Vec<usize>)> = Vec::new();
        core::mem::swap(&mut self.fixt_groups, &mut groups);
        let ghost orig = groups@;
        let n = groups.len();
        let mut i: usize = 0;
        while i < n && groups[i].0 != gid
            invariant
                groups@ == orig,
                n == orig.len(),
                i <= n,
                forall|j: int| 0 <= j < i ==> (#[trigger] orig[j]).0 != gid,
                forall|p: int, q: int|
                    0 <= p < q < orig.len() ==> (#[trigger] orig[p]).0 != (#[trigger] orig[q]).0,
            decreases n - i,
        {
            i += 1;
        }
        if i < n {
            groups[i] = (gid, members);
            proof {
                assert(groups@ == orig.update(i as int, (gid, members)));
                assert(orig[i as int].0 == gid);
                assert forall|j: int| 0 <= j < groups@.len() implies (#[trigger] groups@[j]).0
                    == orig[j].0 by {}
                assert(groups@[i as int] == (gid, members));
            }
        } else {
            groups.push((gid, members));
            proof {
                assert(groups@ == orig.push((gid, members)));
                assert(groups@[n as int] == (gid, members));
                assert forall|p: int, q: int| 0 <= p < q < groups@.len() implies (
                #[trigger] groups@[p]).0 != (#[trigger] groups@[q]).0 by {
                    if q < n {
                        assert(groups@[p] == orig[p] && groups@[q] == orig[q]);
                    } else {
                        assert(groups@[p] == orig[p] && groups@[q] == (gid, members));
                    }
                }
            }
        }
        core::mem::swap(&mut self.fixt_groups, &mut groups);
        proof {
            if i < n {
                assert(self.fixt_groups@[i as int] == (gid, gmembers));
            } else {
                assert(self.fixt_groups@[n as int] == (gid, gmembers));
            }
            assert(exists|k: int|
                0 <= k < self.fixt_groups@.len() && (#[trigger] self.fixt_groups@[k]).0 == gid
                    && self.fixt_groups@[k].1 == gmembers);
        }
    }

    /// The member fixture ids of group `gid`, if the group exists.
    pub fn fixture_group(&self, gid: usize) -> (r: Option<&Vec<usize>>)
        ensures
            r is Some <==> assoc_contains(self.groups(), gid),
            r is Some ==> exists|i: int|
                0 <= i < self.groups().len() && self.groups()[i] == (gid, *r->Some_0),
    {
        let n = self.fixt_groups.len();
        let mut i: usize = 0;
        while i < n
            invariant
                n == self.fixt_groups@.len(),
                i <= n,
                forall|j: int| 0 <= j < i ==> (#[trigger] self.fixt_groups@[j]).0 != gid,
            decreases n - i,
        {
            if self.fixt_groups[i].0 == gid {
                return Some(&self.fixt_groups[i].1);
            }
            i += 1;
        }
        None
    }
}

} // verus!
