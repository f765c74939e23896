//! Named global properties handed to every driver each tick: `time`, `frame`
//! and whatever else the host supplies.

use vstd::prelude::*;
use crate::port::GVal;

verus! {

/// What a lookup yields: the value of the first entry carrying the name.
pub open spec fn plookup(s: Seq<(String, GVal)>, name: Seq<char>) -> Option<GVal>
    decreases s.len(),
{
    if s.len() == 0 {
        None
    } else if s[0].0@ == name {
        Some(s[0].1)
    } else {
        plookup(s.drop_first(), name)
    }
}

/// The named global properties, each name bound at most once.
#[derive(Debug)]
pub struct Props {
    entries: Vec<(String, GVal)>,
}

impl Props {
    /// Names are unique.
    #[verifier::type_invariant]
    spec fn wf(self) -> bool {
        forall|i: int, j: int|
            0 <= i < j < self.entries@.len() ==> (#[trigger] self.entries@[i]).0@ != (
            #[trigger] self.entries@[j]).0@
    }

    /// The bindings, in insertion order.
    pub closed spec fn entries(&self) -> Seq<(String, GVal)> {
        self.entries@
    }

    /// The value bound to `name`, if any.
    pub open spec fn spec_get(&self, name: Seq<char>) -> Option<GVal> {
        plookup(self.entries(), name)
    }

    /// No bindings.
    pub fn new() -> (r: Props)
        ensures
            r.entries().len() == 0,
            forall|name: Seq<char>| #[trigger] r.spec_get(name) is None,
    {
        Props { entries: Vec::new() }
    }

    /// Binds `name` to `v`, replacing any previous binding.
    pub fn set(&mut self, name: String, v: GVal)
        ensures
            final(self).spec_get(name@) == Some(v),
            forall|other: Seq<char>|
                other != name@ ==> #[trigger] final(self).spec_get(other) == old(self).spec_get(
                    other,
                ),
    {
        proof {
            use_type_invariant(&*self);
        }
        let ghost gname = name;
        let mut entries: Vec<(String, GVal)> = Vec::new();
        core::mem::swap(&mut self.entries, &mut entries);
        let ghost orig = entries@;
        let n = entries.len();
        let mut i: usize = 0;
        while i < n && !(entries[i].0 == name)
            invariant
                entries@ == orig,
                n == orig.len(),
                i <= n,
                gname == name,
                forall|j: int| 0 <= j < i ==> (#[trigger] orig[j]).0@ != name@,
                forall|p: int, q: int|
                    0 <= p < q < orig.len() ==> (#[trigger] orig[p]).0@ != (#[trigger] orig[q]).0@,
            decreases n - i,
        {
            i += 1;
        }
        if i < n {
            entries[i] = (name, v);
            proof {
                assert(entries@ == orig.update(i as int, (gname, v)));
                lemma_plookup_update(orig, i as int, gname, v);
                assert forall|p: int, q: int| 0 <= p < q < entries@.len() implies (
                #[trigger] entries@[p]).0@ != (#[trigger] entries@[q]).0@ by {
                    assert(entries@[p] == if p == i { (gname, v) } else { orig[p] });
                    assert(entries@[q] == if q == i { (gname, v) } else { orig[q] });
                    assert(orig[i as int].0@ == gname@);
                }
            }
        } else {
            entries.push((name, v));
            proof {
                assert(entries@ == orig.push((gname, v)));
                lemma_plookup_push(orig, gname, v);
                assert forall|p: int, q: int| 0 <= p < q < entries@.len() implies (
                #[trigger] entries@[p]).0@ != (#[trigger] entries@[q]).0@ by {
                    assert(entries@[p] == if p == n { (gname, v) } else { orig[p] });
                    assert(entries@[q] == if q == n { (gname, v) } else { orig[q] });
                }
            }
        }
        core::mem::swap(&mut self.entries, &mut entries);
    }

    /// Looks up `name`.
    pub fn get(&self, name: &String) -> (r: Option<&GVal>)
        ensures
            (match r {
                Some(v) => self.spec_get(name@) == Some(*v),
                None => self.spec_get(name@) is None,
            }),
    {
        let n = self.entries.len();
        let mut i: usize = 0;
        proof {
            assert(self.entries@.skip(0) =~= self.entries@);
        }
        while i < n && !(self.entries[i].0 == *name)
            invariant
                n == self.entries@.len(),
                i <= n,
                plookup(self.entries@, name@) == plookup(self.entries@.skip(i as int), name@),
            decreases n - i,
        {
            proof {
                assert(self.entries@.skip(i as int).drop_first() =~= self.entries@.skip(
                    i as int + 1,
                ));
                assert(self.entries@.skip(i as int)[0] == self.entries@[i as int]);
            }
            i += 1;
        }
        if i < n {
            proof {
                assert(self.entries@.skip(i as int)[0] == self.entries@[i as int]);
            }
            Some(&self.entries[i].1)
        } else {
            proof {
                assert(self.entries@.skip(n as int) =~= Seq::<(String, GVal)>::empty());
            }
            None
        }
    }
}

/// Replacing the entry that first carries a name changes lookups of that name
/// to the new value and leaves every other name alone.
proof fn lemma_plookup_update(s: Seq<(String, GVal)>, i: int, nm: String, v: GVal)
    requires
        0 <= i < s.len(),
        s[i].0@ == nm@,
        forall|j: int| 0 <= j < i ==> (#[trigger] s[j]).0@ != nm@,
    ensures
        plookup(s.update(i, (nm, v)), nm@) == Some::<GVal>(v),
        forall|other: Seq<char>|
            other != nm@ ==> #[trigger] plookup(s.update(i, (nm, v)), other) == plookup(s, other),
    decreases s.len(),
{
    let t = s.update(i, (nm, v));
    if i == 0 {
        assert(t[0] == (nm, v));
        assert(t.drop_first() =~= s.drop_first());
        assert forall|other: Seq<char>| other != nm@ implies #[trigger] plookup(t, other)
            == plookup(s, other) by {
            if s[0].0@ == other {
            }
        }
    } else {
        assert(t[0] == s[0]);
        assert(t.drop_first() =~= s.drop_first().update(i - 1, (nm, v)));
        lemma_plookup_update(s.drop_first(), i - 1, nm, v);
        assert forall|other: Seq<char>| other != nm@ implies #[trigger] plookup(t, other)
            == plookup(s, other) by {
            if s[0].0@ == other {
            } else {
                assert(plookup(t.drop_first(), other) == plookup(s.drop_first(), other));
            }
        }
    }
}

/// Appending a name not yet bound changes lookups of that name to the new
/// value and leaves every other name alone.
proof fn lemma_plookup_push(s: Seq<(String, GVal)>, nm: String, v: GVal)
    requires
        forall|j: int| 0 <= j < s.len() ==> (#[trigger] s[j]).0@ != nm@,
    ensures
        plookup(s.push((nm, v)), nm@) == Some::<GVal>(v),
        forall|other: Seq<char>|
            other != nm@ ==> #[trigger] plookup(s.push((nm, v)), other) == plookup(s, other),
    decreases s.len(),
{
    let t = s.push((nm, v));
    if s.len() == 0 {
        assert(t[0] == (nm, v));
        assert(t.drop_first() =~= Seq::<(String, GVal)>::empty());
        assert forall|other: Seq<char>| other != nm@ implies #[trigger] plookup(t, other)
            == plookup(s, other) by {
            assert(plookup(t.drop_first(), other) is None);
            assert(plookup(s, other) is None);
        }
    } else {
        assert(t[0] == s[0]);
        assert(t.drop_first() =~= s.drop_first().push((nm, v)));
        lemma_plookup_push(s.drop_first(), nm, v);
        assert forall|other: Seq<char>| other != nm@ implies #[trigger] plookup(t, other)
            == plookup(s, other) by {
            if s[0].0@ == other {
            } else {
                assert(plookup(t.drop_first(), other) == plookup(s.drop_first(), other));
            }
        }
    }
}

} // verus!
