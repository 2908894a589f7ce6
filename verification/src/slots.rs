//! A table of numbered slots, each empty or holding an element's entry: its
//! value and its count of preceding cutoffs. Emptied slots are handed out
//! again before the table grows.

use vstd::prelude::*;

verus! {

/// What the list keeps for one element.
struct Entry<T> {
    /// The caller's value.
    value: T,
    /// The number of cutoffs at or before the element's rank.
    preceding_cutoffs: usize,
}

/// The slot table. Its view maps each occupied slot to its value and count.
pub struct Slots<T> {
    entries: Vec<Option<Entry<T>>>,
    free: Vec<usize>,
}

impl<T> View for Slots<T> {
    type V = Map<usize, (T, usize)>;

    closed spec fn view(&self) -> Map<usize, (T, usize)> {
        Map::new(
            |s: usize| s < self.entries@.len() && self.entries@[s as int] is Some,
            |s: usize|
                (
                    self.entries@[s as int]->Some_0.value,
                    self.entries@[s as int]->Some_0.preceding_cutoffs,
                ),
        )
    }
}

impl<T> Slots<T> {
    /// The free list names each empty slot it holds once.
    pub closed spec fn wf(&self) -> bool {
        &&& forall|i: int|
            0 <= i < self.free@.len() ==> (#[trigger] self.free@[i]) < self.entries@.len()
                && self.entries@[self.free@[i] as int] is None
        &&& forall|i: int, j: int|
            0 <= i < j < self.free@.len() ==> self.free@[i] != self.free@[j]
    }

    /// A table with no slot.
    pub fn new() -> (t: Self)
        ensures
            t.wf(),
            t@ == Map::<usize, (T, usize)>::empty(),
    {
        Slots { entries: Vec::new(), free: Vec::new() }
    }

    /// Puts `value` and `count` into a slot that was empty and returns it.
    pub fn occupy(&mut self, value: T, count: usize) -> (s: usize)
        requires
            old(self).wf(),
        ensures
            final(self).wf(),
            !old(self)@.contains_key(s),
            final(self)@ == old(self)@.insert(s, (value, count)),
    {
        let entry = Entry { value, preceding_cutoffs: count };
        match self.free.pop() {
            Some(s) => {
                self.entries[s] = Some(entry);
                s
            },
            None => {
                let s: usize = self.entries.len();
                self.entries.push(Some(entry));
                s
            },
        }
    }

    /// Empties slot `s` and returns the value it held.
    pub fn release(&mut self, s: usize) -> (value: T)
        requires
            old(self).wf(),
            old(self)@.contains_key(s),
        ensures
            final(self).wf(),
            value == old(self)@[s].0,
            final(self)@ == old(self)@.remove(s),
    {
        let taken = self.entries[s].take();
        self.free.push(s);
        taken.unwrap().value
    }

    /// The value in slot `s`.
    pub fn value(&self, s: usize) -> (v: &T)
        requires
            self@.contains_key(s),
        ensures
            *v == self@[s].0,
    {
        &self.entries[s].as_ref().unwrap().value
    }

    /// The count in slot `s`.
    pub fn count(&self, s: usize) -> (c: usize)
        requires
            self@.contains_key(s),
        ensures
            c == self@[s].1,
    {
        self.entries[s].as_ref().unwrap().preceding_cutoffs
    }

    /// Replaces the count in slot `s`.
    pub fn set_count(&mut self, s: usize, c: usize)
        requires
            old(self).wf(),
            old(self)@.contains_key(s),
        ensures
            final(self).wf(),
            final(self)@ == old(self)@.insert(s, (old(self)@[s].0, c)),
    {
        match &mut self.entries[s] {
            Some(entry) => {
                entry.preceding_cutoffs = c;
            },
            None => {},
        }
    }
}

} // verus!
