//! The cutoff list: a sequence of elements under stable handles that knows,
//! for each element, how many cutoffs lie at or before its rank and, for each
//! cutoff, which element is the first at or past it.

use crate::cutoffs::{count_at_or_before, lemma_split_is_count, sorted};
use crate::handle::{empty_handle, no_handle, one_empty_handle};
use crate::model::{
    at_rank, follower, is_live, lemma_same_handles, rank_of, successor, valid_handles,
    value_under,
};
use crate::slots::Slots;
use crate::store::{
    list_entries, list_first, list_get, list_is_empty, list_len, list_new, list_next,
};
use index_list::{Index, IndexList};
use linking::{linked, shown};
use vstd::prelude::*;

mod insert;
mod linking;
mod remove;
mod shift;

verus! {

/// A sequence of values under stable handles, with a fixed sorted set of
/// cutoff ranks. Its view is the sequence in rank order, each element as its
/// handle and its value.
pub struct CutoffList<T> {
    /// The cutoff ranks, never decreasing. A cutoff `c` lies at or before
    /// every rank from `c` on.
    cutoff_positions: Vec<usize>,
    /// For each cutoff the handle of the element at its rank, empty where the
    /// sequence ends before it.
    following_ind: Vec<Index>,
    /// The order of the elements. Each carries the slot of its value.
    list: IndexList<usize>,
    /// Per slot, the element's value and its count of preceding cutoffs.
    slots: Slots<T>,
}

impl<T> View for CutoffList<T> {
    type V = Seq<(Index, T)>;

    closed spec fn view(&self) -> Seq<(Index, T)> {
        shown(list_entries(self.list), self.slots@)
    }
}

impl<T> CutoffList<T> {
    /// The cutoff ranks given at construction.
    pub closed spec fn cutoffs(&self) -> Seq<usize> {
        self.cutoff_positions@
    }

    /// The count of preceding cutoffs that the element at rank `p` carries.
    pub closed spec fn recorded_count(&self, p: int) -> usize {
        self.slots@[list_entries(self.list)[p].1].1
    }

    /// The cached handle of each cutoff.
    pub closed spec fn recorded_following(&self) -> Seq<Index> {
        self.following_ind@
    }

    /// The values lie where the elements say they do.
    pub closed spec fn storage_wf(&self) -> bool {
        &&& self.slots.wf()
        &&& linked(list_entries(self.list), self.slots@)
    }

    /// The invariant of the list: the cutoffs are sorted, the handles are
    /// distinct and none is empty, every element carries the number of
    /// cutoffs at or before its rank, and every cutoff has cached the handle
    /// of the first element at or past it.
    pub open spec fn wf(&self) -> bool {
        &&& self.storage_wf()
        &&& one_empty_handle()
        &&& sorted(self.cutoffs())
        &&& valid_handles(self@)
        &&& self.recorded_following().len() == self.cutoffs().len()
        &&& forall|p: int|
            0 <= p < self@.len() ==> #[trigger] self.recorded_count(p) == count_at_or_before(
                self.cutoffs(),
                p,
            )
        &&& forall|q: int|
            0 <= q < self.cutoffs().len() ==> #[trigger] self.recorded_following()[q] == follower(
                self@,
                self.cutoffs()[q] as int,
            )
    }

    /// The invariant over the fields as they are stored.
    spec fn settled(&self) -> bool {
        let e = list_entries(self.list);
        let c = self.cutoff_positions@;
        &&& self.slots.wf()
        &&& linked(e, self.slots@)
        &&& one_empty_handle()
        &&& sorted(c)
        &&& self.following_ind@.len() == c.len()
        &&& forall|p: int|
            0 <= p < e.len() ==> self.slots@[(#[trigger] e[p]).1].1 == count_at_or_before(c, p)
        &&& forall|j: int|
            0 <= j < c.len() ==> #[trigger] self.following_ind@[j] == follower(e, c[j] as int)
    }

    /// The view and the stored entries name the same handles at the same
    /// ranks, and the invariant says the same of both.
    proof fn lemma_settled(&self)
        ensures
            self.wf() == self.settled(),
            self@.len() == list_entries(self.list).len(),
            valid_handles(self@) == valid_handles(list_entries(self.list)),
            forall|h: Index, p: int|
                at_rank(self@, h, p) == at_rank(list_entries(self.list), h, p),
            forall|h: Index| is_live(self@, h) == is_live(list_entries(self.list), h),
            forall|h: Index|
                valid_handles(self@) && is_live(self@, h) ==> rank_of(self@, h) == rank_of(
                    list_entries(self.list),
                    h,
                ),
            forall|c: int| follower(self@, c) == follower(list_entries(self.list), c),
    {
        let e = list_entries(self.list);
        let c = self.cutoff_positions@;
        lemma_same_handles(self@, e);
        if self.wf() {
            assert forall|p: int| 0 <= p < e.len() implies self.slots@[(#[trigger] e[p]).1].1
                == count_at_or_before(c, p) by {
                assert(self.recorded_count(p) == count_at_or_before(c, p));
            }
        }
    }

    /// Makes an empty list over the given cutoffs.
    pub fn new(cutoff_positions: Vec<usize>) -> (l: Self)
        requires
            sorted(cutoff_positions@),
        ensures
            l.wf(),
            l.cutoffs() == cutoff_positions@,
            l@.len() == 0,
    {
        let n: usize = cutoff_positions.len();
        let mut following_ind: Vec<Index> = Vec::new();
        let none = empty_handle();
        let mut i: usize = 0;
        while i < n
            invariant
                i <= n,
                following_ind@.len() == i,
                none == no_handle(),
                forall|j: int| 0 <= j < i ==> following_ind@[j] == no_handle(),
            decreases n - i,
        {
            following_ind.push(none);
            i += 1;
        }
        CutoffList { cutoff_positions, following_ind, list: list_new(), slots: Slots::new() }
    }

    /// Whether the list holds no element.
    #[inline]
    pub fn is_empty(&self) -> (b: bool)
        ensures
            b == (self@.len() == 0),
    {
        list_is_empty(&self.list)
    }

    /// The number of elements.
    #[inline]
    pub fn len(&self) -> (n: usize)
        ensures
            n == self@.len(),
    {
        list_len(&self.list)
    }

    /// The number of cutoffs at rank 0: the leading zeros of the cutoffs.
    #[inline]
    fn count_leading_zeros(&self) -> (z: usize)
        requires
            sorted(self.cutoffs()),
        ensures
            z == count_at_or_before(self.cutoffs(), 0),
    {
        let m: usize = self.cutoff_positions.len();
        let mut z: usize = 0;
        while z < m && self.cutoff_positions[z] == 0
            invariant
                z <= m,
                m == self.cutoff_positions@.len(),
                forall|j: int| 0 <= j < z ==> self.cutoff_positions@[j] == 0,
            decreases m - z,
        {
            z += 1;
        }
        proof {
            let c = self.cutoff_positions@;
            lemma_split_is_count(c, 0, z as int);
        }
        z
    }

    /// The slot of the element that `ind` names, if it names one, with the
    /// element's rank known to the proof.
    fn slot_of(&self, ind: Index) -> (r: Option<usize>)
        requires
            self.wf(),
        ensures
            r is Some == is_live(self@, ind),
            r is Some ==> {
                let p = rank_of(self@, ind);
                &&& at_rank(self@, ind, p)
                &&& at_rank(list_entries(self.list), ind, p)
                &&& rank_of(list_entries(self.list), ind) == p
                &&& r == Some(list_entries(self.list)[p].1)
            },
    {
        proof {
            self.lemma_settled();
            if is_live(self@, ind) {
                assert(at_rank(list_entries(self.list), ind, rank_of(self@, ind)));
            }
        }
        list_get(&self.list, ind)
    }

    /// The number of cutoffs at or before the element that `ind` names;
    /// `None` where `ind` names no element.
    #[inline]
    pub fn preceding_cutoffs(&self, ind: Index) -> (r: Option<usize>)
        requires
            self.wf(),
        ensures
            match r {
                Some(n) => {
                    &&& is_live(self@, ind)
                    &&& n == self.recorded_count(rank_of(self@, ind))
                    &&& n == count_at_or_before(self.cutoffs(), rank_of(self@, ind))
                },
                None => !is_live(self@, ind),
            },
    {
        proof {
            self.lemma_settled();
        }
        match self.slot_of(ind) {
            Some(slot) => Some(self.slots.count(slot)),
            None => None,
        }
    }

    /// The cached handle of the first element whose rank is at or past cutoff
    /// `q`; the empty handle where there is no such element or no such
    /// cutoff.
    #[inline]
    pub fn following_ind(&self, q: usize) -> (h: Index)
        requires
            self.wf(),
        ensures
            q < self.cutoffs().len() ==> h == self.recorded_following()[q as int],
            h == if q < self.cutoffs().len() {
                follower(self@, self.cutoffs()[q as int] as int)
            } else {
                no_handle()
            },
    {
        if q < self.following_ind.len() {
            self.following_ind[q]
        } else {
            empty_handle()
        }
    }

    /// The value of the element that `ind` names; `None` where `ind` names no
    /// element.
    #[inline]
    pub fn get(&self, ind: Index) -> (r: Option<&T>)
        requires
            self.wf(),
        ensures
            match r {
                Some(v) => value_under(self@, ind) == Some(*v),
                None => value_under(self@, ind) is None,
            },
    {
        match self.slot_of(ind) {
            Some(slot) => Some(self.slots.value(slot)),
            None => None,
        }
    }

    /// The handle of the element at rank 0; the empty handle for an empty
    /// list.
    #[inline]
    pub fn first_index(&self) -> (h: Index)
        requires
            self.wf(),
        ensures
            h == follower(self@, 0),
    {
        list_first(&self.list)
    }

    /// The handle of the element one rank after the one that `ind` names;
    /// the empty handle where that is the last element or `ind` names none.
    #[inline]
    pub fn next_index(&self, ind: Index) -> (h: Index)
        requires
            self.wf(),
        ensures
            h == successor(self@, ind),
    {
        match self.slot_of(ind) {
            Some(_) => list_next(&self.list, ind),
            None => empty_handle(),
        }
    }
}

} // verus!
