//! A small string-keyed address map, kept as an association list so that its
//! behaviour can be stated over a `Map` view.

use vstd::prelude::*;
use crate::text::str_eq;

verus! {

/// The map an association list denotes; a later entry overrides an earlier
/// one with the same key.
pub open spec fn assoc_map(s: Seq<(String, usize)>) -> Map<Seq<char>, usize>
    decreases s.len(),
{
    if s.len() == 0 {
        Map::empty()
    } else {
        assoc_map(s.drop_last()).insert(s.last().0@, s.last().1)
    }
}

pub struct StrMap {
    entries: Vec<(String, usize)>,
}

impl View for StrMap {
    type V = Map<Seq<char>, usize>;

    closed spec fn view(&self) -> Map<Seq<char>, usize> {
        assoc_map(self.entries@)
    }
}

impl StrMap {
    pub fn new() -> (m: StrMap)
        ensures
            m@ == Map::<Seq<char>, usize>::empty(),
    {
        let m = StrMap { entries: Vec::new() };
        proof {
            assert(m@ =~= Map::<Seq<char>, usize>::empty());
        }
        m
    }

    pub fn insert(&mut self, key: String, value: usize)
        ensures
            final(self)@ == old(self)@.insert(key@, value),
    {
        let ghost k = key@;
        let ghost olde = self.entries@;
        self.entries.push((key, value));
        proof {
            assert(self.entries@.drop_last() =~= olde);
            assert(self@ =~= old(self)@.insert(k, value));
        }
    }

    pub fn contains(&self, key: &str) -> (r: bool)
        ensures
            r == self@.contains_key(key@),
    {
        let mut i: usize = self.entries.len();
        proof {
            assert(self.entries@.take(i as int) =~= self.entries@);
        }
        while i > 0
            invariant
                i <= self.entries@.len(),
                self@.contains_key(key@) == assoc_map(self.entries@.take(i as int)).contains_key(
                    key@,
                ),
            decreases i,
        {
            i = i - 1;
            proof {
                assert(self.entries@.take(i + 1).drop_last() =~= self.entries@.take(i as int));
                assert(self.entries@.take(i + 1).last() == self.entries@[i as int]);
            }
            if str_eq(self.entries[i].0.as_str(), key) {
                return true;
            }
        }
        proof {
            assert(self.entries@.take(0) =~= Seq::<(String, usize)>::empty());
        }
        false
    }

    pub fn get(&self, key: &str) -> (v: usize)
        requires
            self@.contains_key(key@),
        ensures
            v == self@[key@],
    {
        let mut i: usize = self.entries.len();
        proof {
            assert(self.entries@.take(i as int) =~= self.entries@);
        }
        while i > 0
            invariant
                i <= self.entries@.len(),
                self@.contains_key(key@) == assoc_map(self.entries@.take(i as int)).contains_key(
                    key@,
                ),
                assoc_map(self.entries@.take(i as int)).contains_key(key@) ==> self@[key@]
                    == assoc_map(self.entries@.take(i as int))[key@],
                self@.contains_key(key@),
            decreases i,
        {
            i = i - 1;
            proof {
                assert(self.entries@.take(i + 1).drop_last() =~= self.entries@.take(i as int));
                assert(self.entries@.take(i + 1).last() == self.entries@[i as int]);
            }
            if str_eq(self.entries[i].0.as_str(), key) {
                return self.entries[i].1;
            }
        }
        proof {
            assert(self.entries@.take(0) =~= Seq::<(String, usize)>::empty());
            assert(false);
        }
        0
    }
}

} // verus!
