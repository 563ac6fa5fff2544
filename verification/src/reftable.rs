//! Symbol table: literal keys bound to literal values.
//!
//! Keys compare as literals do, by their textual rendering, so the table
//! models a map from key text to bound value. Binding a key again overwrites
//! the earlier binding.

use crate::literal::{spec_lit_text, LitView, Literal};
use vstd::prelude::*;

verus! {

/// Map from a literal key to a bound literal value.
pub struct RefTable {
    entries: Vec<(Literal, Literal)>,
}

/// The map an entry list denotes, keyed by the key literal's text; later
/// entries shadow earlier ones.
spec fn ref_map(s: Seq<(Literal, Literal)>) -> Map<Seq<char>, LitView>
    decreases s.len(),
{
    if s.len() == 0 {
        Map::empty()
    } else {
        ref_map(s.drop_last()).insert(spec_lit_text(s.last().0@), s.last().1@)
    }
}

impl View for RefTable {
    type V = Map<Seq<char>, LitView>;

    closed spec fn view(&self) -> Map<Seq<char>, LitView> {
        ref_map(self.entries@)
    }
}

impl RefTable {
    /// An empty table.
    pub fn new() -> (r: RefTable)
        ensures
            r@ == Map::<Seq<char>, LitView>::empty(),
    {
        RefTable { entries: Vec::new() }
    }

    /// The index of the entry that decides the key's text, if any is bound.
    #[verifier::loop_isolation(false)]
    fn find_entry(&self, k: &Literal) -> (r: Option<usize>)
        ensures
            match r {
                Some(j) => {
                    &&& j < self.entries@.len()
                    &&& spec_lit_text(self.entries@[j as int].0@) == spec_lit_text(k@)
                    &&& self@.contains_key(spec_lit_text(k@))
                    &&& self@[spec_lit_text(k@)] == self.entries@[j as int].1@
                },
                None => !self@.contains_key(spec_lit_text(k@)),
            },
    {
        let mut found: Option<usize> = None;
        let mut i: usize = 0;
        while i < self.entries.len()
            invariant
                i <= self.entries@.len(),
                match found {
                    Some(j) => {
                        &&& j < i
                        &&& spec_lit_text(self.entries@[j as int].0@) == spec_lit_text(k@)
                        &&& ref_map(self.entries@.take(i as int)).contains_key(spec_lit_text(k@))
                        &&& ref_map(self.entries@.take(i as int))[spec_lit_text(k@)]
                            == self.entries@[j as int].1@
                    },
                    None => !ref_map(self.entries@.take(i as int)).contains_key(spec_lit_text(k@)),
                },
            decreases self.entries@.len() - i,
        {
            proof {
                assert(self.entries@.take(i + 1).drop_last() =~= self.entries@.take(i as int));
                assert(self.entries@.take(i + 1).last() == self.entries@[i as int]);
            }
            if self.entries[i].0 == *k {
                found = Some(i);
            }
            i = i + 1;
        }
        proof {
            assert(self.entries@.take(self.entries@.len() as int) =~= self.entries@);
        }
        found
    }

    /// Bind a key to a value, overwriting any earlier binding of a key with
    /// the same text.
    pub fn insert(&mut self, k: Literal, v: Literal)
        ensures
            final(self)@ == old(self)@.insert(spec_lit_text(k@), v@),
    {
        let ghost pre = self.entries@;
        self.entries.push((k, v));
        proof {
            assert(self.entries@.drop_last() =~= pre);
        }
    }

    /// Whether a key with this literal's text is bound.
    pub fn contains(&self, k: &Literal) -> (r: bool)
        ensures
            r == self@.contains_key(spec_lit_text(k@)),
    {
        self.find_entry(k).is_some()
    }

    /// The value bound to this key's text, if any.
    pub fn retrieve(&self, k: &Literal) -> (r: Option<Literal>)
        ensures
            match r {
                Some(v) => self@.contains_key(spec_lit_text(k@)) && v@ == self@[spec_lit_text(k@)],
                None => !self@.contains_key(spec_lit_text(k@)),
            },
    {
        match self.find_entry(k) {
            Some(j) => Some(self.entries[j].1.clone()),
            None => None,
        }
    }
}

} // verus!
