//! The variable environment: the mutable name-to-value mapping that
//! lives for a whole interactive session.
//!
//! Bindings are appended; a later binding for a name shadows any
//! earlier one, and lookup finds the newest.

use vstd::prelude::*;

use crate::value::{prim_view, value_wf, PrimV, Primitive};

verus! {

/// The session's name-to-value mapping.
#[derive(Debug)]
pub struct Environment {
    entries: Vec<(String, Primitive)>,
}

/// The mapping the entry list denotes: each entry in turn, later
/// entries overriding earlier ones.
pub open spec fn entries_map(s: Seq<(String, Primitive)>) -> Map<Seq<char>, PrimV>
    decreases s,
{
    if s.len() == 0 {
        Map::empty()
    } else {
        entries_map(s.subrange(0, s.len() - 1)).insert(
            s[s.len() - 1].0@,
            prim_view(s[s.len() - 1].1),
        )
    }
}

impl View for Environment {
    type V = Map<Seq<char>, PrimV>;

    closed spec fn view(&self) -> Map<Seq<char>, PrimV> {
        entries_map(self.entries@)
    }
}

impl Environment {
    /// Every stored value is well-formed.
    pub closed spec fn wf(&self) -> bool {
        forall|i: int|
            0 <= i < self.entries@.len() ==> value_wf(prim_view(#[trigger] self.entries@[i].1))
    }

    /// An empty environment.
    pub fn new() -> (r: Environment)
        ensures
            r@ == Map::<Seq<char>, PrimV>::empty(),
            r.wf(),
    {
        Environment { entries: Vec::new() }
    }

    /// Bind `name` to `value`, shadowing any earlier binding.
    pub fn insert(&mut self, name: String, value: Primitive)
        requires
            old(self).wf(),
            value_wf(value@),
        ensures
            final(self)@ == old(self)@.insert(name@, value@),
            final(self).wf(),
    {
        let ghost pre = self.entries@;
        self.entries.push((name, value));
        proof {
            assert(self.entries@.subrange(0, self.entries@.len() - 1) =~= pre);
        }
    }

    /// The value bound to `name`, if any (a structural copy).
    pub fn get(&self, name: &str) -> (r: Option<Primitive>)
        requires
            self.wf(),
        ensures
            match r {
                Some(p) => self@.contains_key(name@) && p@ == self@[name@] && value_wf(p@),
                None => !self@.contains_key(name@),
            },
    {
        proof {
            assert(self.entries@.subrange(0, self.entries@.len() as int) =~= self.entries@);
        }
        self.get_from(name, self.entries.len())
    }

    /// Lookup over the first `i` entries, newest first.
    fn get_from(&self, name: &str, i: usize) -> (r: Option<Primitive>)
        requires
            self.wf(),
            i <= self.entries@.len(),
        ensures
            match r {
                Some(p) => {
                    &&& entries_map(self.entries@.subrange(0, i as int)).contains_key(name@)
                    &&& p@ == entries_map(self.entries@.subrange(0, i as int))[name@]
                    &&& value_wf(p@)
                },
                None => !entries_map(self.entries@.subrange(0, i as int)).contains_key(name@),
            },
        decreases i,
    {
        let ghost pre = self.entries@.subrange(0, i as int);
        if i == 0 {
            None
        } else {
            proof {
                assert(pre.subrange(0, pre.len() - 1) =~= self.entries@.subrange(0, i - 1));
                assert(pre[pre.len() - 1] == self.entries@[i - 1]);
            }
            let entry = &self.entries[i - 1];
            if crate::text::str_eq(entry.0.as_str(), name) {
                Some(entry.1.duplicate())
            } else {
                self.get_from(name, i - 1)
            }
        }
    }
}

} // verus!
