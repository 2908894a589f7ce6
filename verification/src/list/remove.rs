//! Removal by handle.

use super::linking::{lemma_pending_step, linked, shown, unwinding};
use super::CutoffList;
use crate::cutoffs::{count_at_or_before, lemma_count_grows, lemma_count_splits, sorted};
use crate::handle::{one_empty_handle, same_handle};
use crate::model::{at_rank, follower, is_live, rank_of, valid_handles, value_under, without};
use crate::store::{list_entries, list_get, list_next, list_remove};
use index_list::Index;
use vstd::prelude::*;

verus! {

impl<T> CutoffList<T> {
    /// Removes the element that `index` names and returns its value; `None`,
    /// and no change, where `index` names no element. Every element after
    /// the removed one moves one rank earlier, and each cutoff's follower
    /// past the removed rank one element later.
    pub fn remove(&mut self, index: Index) -> (r: Option<T>)
        requires
            old(self).wf(),
        ensures
            final(self).wf(),
            final(self).cutoffs() == old(self).cutoffs(),
            r == value_under(old(self)@, index),
            final(self)@ == without(old(self)@, index),
            !is_live(old(self)@, index) ==> *final(self) == *old(self),
    {
        proof {
            self.lemma_settled();
        }
        let ghost c = self.cutoff_positions@;
        let ghost e = list_entries(self.list);
        if self.slot_of(index).is_none() {
            return None;
        }
        let ghost k = rank_of(e, index);
        proof {
            lemma_count_splits(c, k);
        }
        let next_index = list_next(&self.list, index);
        let removed = list_remove(&mut self.list, index);
        let slot: usize = removed.unwrap();
        let preceding_cutoffs: usize = self.slots.count(slot);
        let value = self.slots.release(slot);
        let ghost mid = *self;
        let ghost e2 = list_entries(self.list);
        proof {
            assert(next_index == follower(e2, k));
        }
        let m: usize = self.cutoff_positions.len();
        let mut q: usize = preceding_cutoffs;
        // The cutoffs at the removed rank pass to the element after it.
        while q > 0
            invariant
                self.cutoff_positions == mid.cutoff_positions,
                self.list == mid.list,
                self.slots == mid.slots,
                c == mid.cutoff_positions@,
                self.following_ind@.len() == m,
                mid.following_ind@.len() == m,
                m == c.len(),
                q <= preceding_cutoffs <= m,
                valid_handles(e),
                at_rank(e, index, k),
                forall|j: int| 0 <= j < preceding_cutoffs ==> c[j] <= k,
                forall|j: int| 0 <= j < m ==> mid.following_ind@[j] == follower(e, c[j] as int),
                forall|j: int|
                    q <= j < preceding_cutoffs ==> c[j] == k && self.following_ind@[j]
                        == next_index,
                forall|j: int|
                    0 <= j < m && !(q <= j < preceding_cutoffs) ==> self.following_ind@[j]
                        == mid.following_ind@[j],
            ensures
                q > 0 ==> c[q - 1] < k,
            decreases q,
        {
            proof {
                assert(self.following_ind@[q - 1] == mid.following_ind@[q - 1]);
            }
            if !same_handle(self.following_ind[q - 1], index) {
                break;
            }
            self.following_ind[q - 1] = next_index;
            q -= 1;
        }
        let mut q: usize = preceding_cutoffs;
        proof {
            assert forall|r: int| 0 <= r < e2.len() implies self.slots@[(#[trigger] e2[r]).1].1
                == unwinding(c, r, q as int) by {
                lemma_count_grows(c, r, r + 1);
                if r < k {
                    lemma_count_grows(c, r + 1, k);
                } else {
                    lemma_count_grows(c, k, r);
                }
            }
            assert forall|j: int| 0 <= j < q implies self.following_ind@[j] == follower(
                e2,
                c[j] as int,
            ) by {
                assert(mid.following_ind@[j] == follower(e, c[j] as int));
            }
            assert forall|j: int| q <= j < m implies self.following_ind@[j] == follower(
                e,
                c[j] as int,
            ) by {
                assert(mid.following_ind@[j] == follower(e, c[j] as int));
            }
        }
        // Past the removed rank every follower has moved one rank up: it
        // counts one cutoff less, and the cutoff takes the element after it.
        while q < m
            invariant
                self.cutoff_positions == mid.cutoff_positions,
                self.list == mid.list,
                c == mid.cutoff_positions@,
                e2 == list_entries(mid.list),
                e2 == e.remove(k),
                0 <= k < e.len(),
                sorted(c),
                one_empty_handle(),
                valid_handles(e),
                preceding_cutoffs == count_at_or_before(c, k),
                self.following_ind@.len() == m,
                m == c.len(),
                preceding_cutoffs <= q <= m,
                self.slots.wf(),
                linked(e2, self.slots@),
                shown(e2, self.slots@) == shown(e2, mid.slots@),
                forall|r: int|
                    0 <= r < e2.len() ==> self.slots@[(#[trigger] e2[r]).1].1 == unwinding(
                        c,
                        r,
                        q as int,
                    ),
                forall|j: int|
                    0 <= j < q ==> self.following_ind@[j] == follower(e2, c[j] as int),
                forall|j: int| q <= j < m ==> self.following_ind@[j] == follower(e, c[j] as int),
            ensures
                q < m ==> c[q as int] >= e.len(),
            decreases m - q,
        {
            let ind = self.following_ind[q];
            let ghost p = c[q as int] as int;
            proof {
                lemma_count_splits(c, k);
            }
            if !ind.is_some() {
                break;
            }
            proof {
                assert(at_rank(e2, ind, p - 1));
                lemma_pending_step(c, q as int, p);
            }
            let ind_slot: usize = list_get(&self.list, ind).unwrap();
            let count: usize = self.slots.count(ind_slot);
            self.slots.set_count(ind_slot, count - 1);
            let next = list_next(&self.list, ind);
            self.following_ind[q] = next;
            proof {
                assert forall|r: int| 0 <= r < e2.len() implies self.slots@[(#[trigger] e2[r]).1].1
                    == unwinding(c, r, q + 1) by {
                    lemma_pending_step(c, q as int, r + 1);
                }
            }
            q += 1;
        }
        proof {
            assert forall|r: int| 0 <= r < e2.len() implies self.slots@[(#[trigger] e2[r]).1].1
                == count_at_or_before(c, r) by {
                if q < m {
                    lemma_pending_step(c, q as int, r + 1);
                } else {
                    lemma_count_splits(c, r);
                    lemma_count_splits(c, r + 1);
                }
            }
        }
        Some(value)
    }
}

} // verus!
