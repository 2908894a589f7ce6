//! Moving an element to the front.

use super::linking::{lemma_none_before_zero, lemma_pending_step, linked, pending, shown};
use super::CutoffList;
use crate::cutoffs::{count_at_or_before, lemma_count_grows, lemma_count_splits, sorted};
use crate::handle::{one_empty_handle, same_handle};
use crate::model::{at_rank, follower, is_live, moved_to_front, rank_of, valid_handles};
use crate::store::{list_entries, list_get, list_prev, list_shift_to_front};
use index_list::Index;
use vstd::prelude::*;

verus! {

impl<T> CutoffList<T> {
    /// Moves the element that `ind` names to rank 0, under the same handle
    /// and with the same value; every element that was before it moves one
    /// rank later. Where `ind` names the first element or no element,
    /// nothing changes.
    pub fn shift_to_front(&mut self, ind: Index)
        requires
            old(self).wf(),
        ensures
            final(self).wf(),
            final(self).cutoffs() == old(self).cutoffs(),
            final(self)@ == moved_to_front(old(self)@, ind),
            !is_live(old(self)@, ind) || at_rank(old(self)@, ind, 0) ==> *final(self) == *old(self),
    {
        proof {
            self.lemma_settled();
        }
        let ghost c = self.cutoff_positions@;
        let ghost e = list_entries(self.list);
        let slot: usize = match self.slot_of(ind) {
            Some(slot) => slot,
            None => {
                return;
            },
        };
        let ghost k = rank_of(e, ind);
        let prev_ind = list_prev(&self.list, ind);
        if !prev_ind.is_some() {
            // Already at the front.
            return;
        }
        let leading_zeros: usize = self.count_leading_zeros();
        let preceding_cutoffs: usize = self.slots.count(slot);
        self.slots.set_count(slot, leading_zeros);
        list_shift_to_front(&mut self.list, ind);
        let ghost mid = *self;
        let ghost e2 = list_entries(self.list);
        proof {
            lemma_count_grows(c, 0, k);
            lemma_count_splits(c, 0);
            lemma_count_splits(c, k);
        }
        let m: usize = self.cutoff_positions.len();
        let mut q: usize = 0;
        // The cutoffs at rank 0 are now followed by the moved element.
        while q < leading_zeros
            invariant
                self.cutoff_positions == mid.cutoff_positions,
                self.list == mid.list,
                self.slots == mid.slots,
                self.following_ind@.len() == m,
                mid.following_ind@.len() == m,
                q <= leading_zeros <= m,
                forall|j: int| 0 <= j < q ==> self.following_ind@[j] == ind,
                forall|j: int| q <= j < m ==> self.following_ind@[j] == mid.following_ind@[j],
            decreases leading_zeros - q,
        {
            self.following_ind[q] = ind;
            q += 1;
        }
        proof {
            lemma_none_before_zero(c);
            assert forall|r: int| 0 <= r <= k implies self.slots@[(#[trigger] e2[r]).1].1
                == pending(c, r, q as int) by {
                if r > 0 {
                    lemma_count_grows(c, 0, r - 1);
                }
            }
            assert forall|j: int| q <= j < m implies self.following_ind@[j] == follower(
                e,
                c[j] as int,
            ) by {
                assert(self.following_ind@[j] == old(self).following_ind@[j]);
            }
        }
        // Every other cutoff up to the old rank of the moved element takes
        // the element one step before its old follower, and that element
        // counts one cutoff more.
        while q < preceding_cutoffs
            invariant
                self.cutoff_positions == mid.cutoff_positions,
                self.list == mid.list,
                c == mid.cutoff_positions@,
                e2 == list_entries(mid.list),
                e2 == seq![e[k]] + e.remove(k),
                0 < k < e.len(),
                at_rank(e, ind, k),
                prev_ind == e[k - 1].0,
                sorted(c),
                one_empty_handle(),
                valid_handles(e),
                leading_zeros == count_at_or_before(c, 0),
                preceding_cutoffs == count_at_or_before(c, k),
                self.following_ind@.len() == m,
                m == c.len(),
                leading_zeros <= q <= preceding_cutoffs <= m,
                self.slots.wf(),
                linked(e2, self.slots@),
                shown(e2, self.slots@) == shown(e2, mid.slots@),
                forall|r: int|
                    0 <= r < e.len() ==> #[trigger] e2[r] == e[if r == 0 {
                        k
                    } else if r <= k {
                        r - 1
                    } else {
                        r
                    }],
                forall|r: int|
                    0 <= r <= k ==> self.slots@[(#[trigger] e2[r]).1].1 == pending(c, r, q as int),
                forall|r: int|
                    k < r < e2.len() ==> self.slots@[(#[trigger] e2[r]).1].1 == count_at_or_before(
                        c,
                        r,
                    ),
                forall|j: int|
                    0 <= j < q ==> self.following_ind@[j] == follower(e2, c[j] as int),
                forall|j: int| q <= j < m ==> self.following_ind@[j] == follower(e, c[j] as int),
            decreases preceding_cutoffs - q,
        {
            let cutoff_ind = self.following_ind[q];
            let ghost p = c[q as int] as int;
            proof {
                lemma_count_splits(c, k);
                if p < k {
                    assert(at_rank(e2, cutoff_ind, p + 1));
                }
            }
            let target = if same_handle(cutoff_ind, ind) {
                prev_ind
            } else {
                list_prev(&self.list, cutoff_ind)
            };
            assert(at_rank(e2, target, p));
            self.following_ind[q] = target;
            let target_slot: usize = list_get(&self.list, target).unwrap();
            let count: usize = self.slots.count(target_slot);
            proof {
                lemma_pending_step(c, q as int, p);
            }
            self.slots.set_count(target_slot, count + 1);
            proof {
                assert forall|r: int| 0 <= r <= k implies self.slots@[(#[trigger] e2[r]).1].1
                    == pending(c, r, q + 1) by {
                    lemma_pending_step(c, q as int, r);
                }
            }
            q += 1;
        }
        proof {
            assert forall|r: int| 0 <= r < e2.len() implies self.slots@[(#[trigger] e2[r]).1].1
                == count_at_or_before(c, r) by {
                if r <= k {
                    lemma_count_grows(c, r, k);
                    lemma_count_grows(c, r - 1, r);
                }
            }
        }
    }
}

} // verus!
