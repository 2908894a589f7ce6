//! Insertion at either end.

use super::linking::{
    lemma_none_before_zero, lemma_pending_step, lemma_shown_prepend, lemma_shown_push, linked,
    pending, shown,
};
use super::CutoffList;
use crate::cutoffs::{
    count_at_or_before, lemma_count_grows, lemma_count_splits, lemma_split_is_count, sorted,
};
use crate::handle::{handle_is_some, one_empty_handle};
use crate::model::{at_rank, follower, is_live, valid_handles, with_first, with_last};
use crate::store::{
    list_entries, list_get, list_insert_first, list_insert_last, list_last, list_len, list_prev,
};
use index_list::Index;
use vstd::prelude::*;

verus! {

impl<T> CutoffList<T> {
    /// Adds `value` as the element at rank 0 and returns its handle. Every
    /// other element moves one rank later, and each cutoff's follower one
    /// element earlier.
    pub fn insert_first(&mut self, value: T) -> (h: Index)
        requires
            old(self).wf(),
            old(self)@.len() < u32::MAX,
        ensures
            final(self).wf(),
            final(self).cutoffs() == old(self).cutoffs(),
            final(self)@ == with_first(old(self)@, h, value),
            handle_is_some(h),
            !is_live(old(self)@, h),
    {
        proof {
            self.lemma_settled();
        }
        let ghost c = self.cutoff_positions@;
        let ghost e = list_entries(self.list);
        let new_last_pos: usize = list_len(&self.list);
        let preceding_cutoffs: usize = self.count_leading_zeros();
        let slot: usize = self.slots.occupy(value, preceding_cutoffs);
        let new_index = list_insert_first(&mut self.list, slot);
        let ghost mid = *self;
        let ghost e2 = list_entries(self.list);
        proof {
            lemma_shown_prepend(e, old(self).slots@, new_index, slot, value, preceding_cutoffs);
            lemma_count_splits(c, 0);
        }
        let m: usize = self.cutoff_positions.len();
        let mut q: usize = 0;
        // The cutoffs at rank 0 are now followed by the new element.
        while q < preceding_cutoffs
            invariant
                self.cutoff_positions == mid.cutoff_positions,
                self.list == mid.list,
                self.slots == mid.slots,
                self.following_ind@.len() == m,
                mid.following_ind@.len() == m,
                q <= preceding_cutoffs <= m,
                forall|j: int| 0 <= j < q ==> self.following_ind@[j] == new_index,
                forall|j: int| q <= j < m ==> self.following_ind@[j] == mid.following_ind@[j],
            decreases preceding_cutoffs - q,
        {
            self.following_ind[q] = new_index;
            q += 1;
        }
        proof {
            lemma_none_before_zero(c);
            assert forall|r: int| 0 <= r < e2.len() implies self.slots@[(#[trigger] e2[r]).1].1
                == pending(c, r, q as int) by {
                if r > 0 {
                    lemma_count_grows(c, 0, r - 1);
                }
            }
            assert forall|j: int| q <= j < m implies self.following_ind@[j] == follower(
                e,
                c[j] as int,
            ) by {
                assert(self.following_ind@[j] == old(self).following_ind@[j]);
            }
        }
        // Every later cutoff within reach takes the element one step before
        // its old follower, or the last element where the list has just grown
        // up to it, and that element counts one cutoff more.
        while q < m
            invariant
                self.cutoff_positions == mid.cutoff_positions,
                self.list == mid.list,
                c == mid.cutoff_positions@,
                e2 == list_entries(mid.list),
                e2 == seq![(new_index, slot)] + e,
                new_last_pos == e.len(),
                sorted(c),
                one_empty_handle(),
                valid_handles(e),
                preceding_cutoffs == count_at_or_before(c, 0),
                self.following_ind@.len() == m,
                m == c.len(),
                preceding_cutoffs <= q <= m,
                self.slots.wf(),
                linked(e2, self.slots@),
                shown(e2, self.slots@) == shown(e2, mid.slots@),
                forall|r: int|
                    0 <= r < e2.len() ==> self.slots@[(#[trigger] e2[r]).1].1 == pending(
                        c,
                        r,
                        q as int,
                    ),
                forall|j: int|
                    0 <= j < q ==> self.following_ind@[j] == follower(e2, c[j] as int),
                forall|j: int| q <= j < m ==> self.following_ind@[j] == follower(e, c[j] as int),
            ensures
                q < m ==> c[q as int] > new_last_pos,
            decreases m - q,
        {
            let p: usize = self.cutoff_positions[q];
            let ind = self.following_ind[q];
            let target;
            if ind.is_some() {
                proof {
                    assert(at_rank(e2, ind, p + 1));
                }
                target = list_prev(&self.list, ind);
            } else if p == new_last_pos {
                target = list_last(&self.list);
            } else {
                break;
            }
            assert(at_rank(e2, target, p as int));
            self.following_ind[q] = target;
            let target_slot: usize = list_get(&self.list, target).unwrap();
            let count: usize = self.slots.count(target_slot);
            proof {
                lemma_pending_step(c, q as int, p as int);
            }
            self.slots.set_count(target_slot, count + 1);
            proof {
                assert forall|r: int| 0 <= r < e2.len() implies self.slots@[(#[trigger] e2[r]).1].1
                    == pending(c, r, q + 1) by {
                    lemma_pending_step(c, q as int, r);
                }
            }
            q += 1;
        }
        proof {
            assert forall|r: int| 0 <= r < e2.len() implies self.slots@[(#[trigger] e2[r]).1].1
                == count_at_or_before(c, r) by {
                if q < m {
                    lemma_pending_step(c, q as int, r);
                } else {
                    lemma_count_splits(c, r);
                    lemma_count_splits(c, r - 1);
                }
            }
        }
        new_index
    }

    /// Adds `value` as the last element and returns its handle. The other
    /// elements keep their ranks; the cutoffs at the new rank, which no
    /// element had reached, now have the new element as their follower.
    pub fn insert_last(&mut self, value: T) -> (h: Index)
        requires
            old(self).wf(),
            old(self)@.len() < u32::MAX,
        ensures
            final(self).wf(),
            final(self).cutoffs() == old(self).cutoffs(),
            final(self)@ == with_last(old(self)@, h, value),
            handle_is_some(h),
            !is_live(old(self)@, h),
    {
        proof {
            self.lemma_settled();
        }
        let ghost c = self.cutoff_positions@;
        let ghost e = list_entries(self.list);
        let new_pos: usize = list_len(&self.list);
        let m: usize = self.cutoff_positions.len();
        let mut preceding_cutoffs: usize = 0;
        let mut at_q: Option<usize> = None;
        // Count the cutoffs at or before the new rank, and note the first one
        // that lies exactly at it.
        while preceding_cutoffs < m
            invariant
                self.cutoff_positions@ == c,
                m == c.len(),
                preceding_cutoffs <= m,
                forall|j: int| 0 <= j < preceding_cutoffs ==> c[j] <= new_pos,
                match at_q {
                    Some(q0) => q0 < preceding_cutoffs && c[q0 as int] == new_pos && forall|j: int|
                        0 <= j < q0 ==> c[j] < new_pos,
                    None => forall|j: int| 0 <= j < preceding_cutoffs ==> c[j] < new_pos,
                },
            ensures
                preceding_cutoffs < m ==> c[preceding_cutoffs as int] > new_pos,
            decreases m - preceding_cutoffs,
        {
            let cutoff: usize = self.cutoff_positions[preceding_cutoffs];
            if cutoff > new_pos {
                break;
            }
            if cutoff == new_pos && at_q.is_none() {
                at_q = Some(preceding_cutoffs);
            }
            preceding_cutoffs += 1;
        }
        proof {
            lemma_split_is_count(c, new_pos as int, preceding_cutoffs as int);
        }
        let slot: usize = self.slots.occupy(value, preceding_cutoffs);
        let new_index = list_insert_last(&mut self.list, slot);
        let ghost mid = *self;
        proof {
            lemma_shown_push(e, old(self).slots@, new_index, slot, value, preceding_cutoffs);
        }
        let mut q: usize = match at_q {
            Some(q0) => q0,
            None => m,
        };
        let ghost q0: int = q as int;
        // The cutoffs at the new rank had no follower; now they have one.
        while q < m
            invariant
                self.cutoff_positions == mid.cutoff_positions,
                self.list == mid.list,
                self.slots == mid.slots,
                self.following_ind@.len() == m,
                mid.following_ind@.len() == m,
                m == c.len(),
                c == mid.cutoff_positions@,
                0 <= q0 <= q <= m,
                forall|j: int|
                    q0 <= j < q ==> c[j] == new_pos && self.following_ind@[j] == new_index,
                forall|j: int|
                    0 <= j < m && !(q0 <= j < q) ==> self.following_ind@[j]
                        == mid.following_ind@[j],
            ensures
                q < m ==> c[q as int] != new_pos,
            decreases m - q,
        {
            if self.cutoff_positions[q] != new_pos {
                break;
            }
            self.following_ind[q] = new_index;
            q += 1;
        }
        proof {
            let e2 = list_entries(self.list);
            assert forall|j: int| 0 <= j < c.len() implies #[trigger] self.following_ind@[j]
                == follower(e2, c[j] as int) by {
                assert(mid.following_ind@[j] == follower(e, c[j] as int));
            }
        }
        new_index
    }
}

} // verus!
