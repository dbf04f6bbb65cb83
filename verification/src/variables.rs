//! The variable set that placeholders are resolved against.

use vstd::prelude::*;

use crate::text::str_eq;
use crate::value::{SpecValue, Value};

verus! {

/// What a name resolves to in a sequence of bindings: the latest binding of
/// that name wins.
pub open spec fn spec_lookup(s: Seq<(String, Value)>, name: Seq<char>) -> Option<SpecValue>
    decreases s,
{
    if s.len() == 0 {
        None
    } else if s.last().0@ == name {
        Some(s.last().1@)
    } else {
        spec_lookup(s.drop_last(), name)
    }
}

/// A set of named values. Later bindings of a name shadow earlier ones.
pub struct VariableSet {
    pub entries: Vec<(String, Value)>,
}

impl VariableSet {
    /// What each name resolves to.
    pub open spec fn lookup(&self, name: Seq<char>) -> Option<SpecValue> {
        spec_lookup(self.entries@, name)
    }

    pub fn new() -> (r: VariableSet)
        ensures
            r.entries@.len() == 0,
            forall|name: Seq<char>| r.lookup(name) is None,
    {
        VariableSet { entries: Vec::new() }
    }

    /// Binds a name to a value, shadowing any earlier binding.
    pub fn insert(&mut self, name: String, value: Value)
        ensures
            final(self).lookup(name@) == Some(value@),
            forall|other: Seq<char>|
                other != name@ ==> final(self).lookup(other) == old(self).lookup(other),
    {
        self.entries.push((name, value));
        proof {
            assert(self.entries@.last().0@ == name@);
            assert forall|other: Seq<char>| other != name@ implies self.lookup(other) == old(
                self,
            ).lookup(other) by {
                assert(self.entries@.drop_last() =~= old(self).entries@);
            }
            assert(self.entries@.drop_last() =~= old(self).entries@);
        }
    }

    /// Looks a name up, handing back a copy of its value.
    pub fn get(&self, name: &str) -> (r: Option<Value>)
        ensures
            r is Some <==> self.lookup(name@) is Some,
            r is Some ==> Some(r->0@) == self.lookup(name@),
    {
        let mut i: usize = self.entries.len();
        proof {
            assert(self.entries@.take(i as int) =~= self.entries@);
        }
        while i > 0
            invariant
                i <= self.entries@.len(),
                spec_lookup(self.entries@.take(i as int), name@) == self.lookup(name@),
            decreases i,
        {
            i = i - 1;
            let entry_name: &String = &self.entries[i].0;
            if str_eq(entry_name.as_str(), name) {
                proof {
                    assert(self.entries@.take(i as int + 1).last() == self.entries@[i as int]);
                }
                return Some(self.entries[i].1.deep_copy());
            }
            proof {
                assert(self.entries@.take(i as int + 1).drop_last() =~= self.entries@.take(
                    i as int,
                ));
                assert(self.entries@.take(i as int + 1).last() == self.entries@[i as int]);
            }
        }
        None
    }
}

} // verus!
