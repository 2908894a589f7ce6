//! How the stored entries show as the sequence, and how the counts move
//! while a pass over the cutoffs repairs them.

use crate::cutoffs::{
    count_at_or_before, lemma_position_against_counts, lemma_split_is_count, sorted,
};
use crate::handle::handle_is_some;
use crate::model::{at_rank, is_live, valid_handles, with_first, with_last};
use index_list::Index;
use vstd::prelude::*;

verus! {

/// Every element's slot is occupied, and no two elements share a handle or a
/// slot.
pub open spec fn linked<T>(e: Seq<(Index, usize)>, m: Map<usize, (T, usize)>) -> bool {
    &&& valid_handles(e)
    &&& forall|p: int| 0 <= p < e.len() ==> m.contains_key((#[trigger] e[p]).1)
    &&& forall|p: int, r: int| 0 <= p < r < e.len() ==> e[p].1 != e[r].1
}

/// The elements with their values in place of their slots.
pub open spec fn shown<T>(e: Seq<(Index, usize)>, m: Map<usize, (T, usize)>) -> Seq<(Index, T)> {
    Seq::new(e.len(), |p: int| (e[p].0, m[e[p].1].0))
}

/// Linking a new element in after all others, its value in a slot that was
/// empty, shows as one more element at the end and moves no other value or
/// count.
pub proof fn lemma_shown_push<T>(
    e: Seq<(Index, usize)>,
    m: Map<usize, (T, usize)>,
    h: Index,
    s: usize,
    v: T,
    c: usize,
)
    requires
        linked(e, m),
        !m.contains_key(s),
        handle_is_some(h),
        !is_live(e, h),
    ensures
        linked(e.push((h, s)), m.insert(s, (v, c))),
        shown(e.push((h, s)), m.insert(s, (v, c))) == with_last(shown(e, m), h, v),
        forall|p: int| 0 <= p < e.len() ==> m.insert(s, (v, c))[(#[trigger] e[p]).1] == m[e[p].1],
{
    assert forall|p: int| 0 <= p < e.len() implies (#[trigger] e[p]).1 != s && e[p].0 != h by {
        assert(!at_rank(e, h, p));
    }
}

/// Linking a new element in before all others, its value in a slot that was
/// empty, shows as one more element at the front and moves no other value or
/// count.
pub proof fn lemma_shown_prepend<T>(
    e: Seq<(Index, usize)>,
    m: Map<usize, (T, usize)>,
    h: Index,
    s: usize,
    v: T,
    c: usize,
)
    requires
        linked(e, m),
        !m.contains_key(s),
        handle_is_some(h),
        !is_live(e, h),
    ensures
        linked(seq![(h, s)] + e, m.insert(s, (v, c))),
        shown(seq![(h, s)] + e, m.insert(s, (v, c))) == with_first(shown(e, m), h, v),
        forall|p: int| 0 <= p < e.len() ==> m.insert(s, (v, c))[(#[trigger] e[p]).1] == m[e[p].1],
{
    assert forall|p: int| 0 <= p < e.len() implies (#[trigger] e[p]).1 != s && e[p].0 != h by {
        assert(!at_rank(e, h, p));
    }
}

/// The count that the element at rank `r` carries while a pass over the
/// sorted cutoffs stands at position `q`, where the element has come to rank
/// `r` from the rank before and the pass adds one for each cutoff at `r` that
/// it leaves behind.
pub open spec fn pending(c: Seq<usize>, r: int, q: int) -> int {
    let lo = count_at_or_before(c, r - 1) as int;
    let hi = count_at_or_before(c, r) as int;
    if q <= lo {
        lo
    } else if q <= hi {
        q
    } else {
        hi
    }
}

/// One step of the pass: moving past position `q` adds one to the count
/// pending at the rank of cutoff `q` and leaves the others.
pub proof fn lemma_pending_step(c: Seq<usize>, q: int, r: int)
    requires
        sorted(c),
        0 <= q < c.len(),
    ensures
        pending(c, r, q + 1) == pending(c, r, q) + if c[q] == r {
            1int
        } else {
            0int
        },
        c[q] == r ==> pending(c, r, q) == q,
        c[q] > r ==> pending(c, r, q) == count_at_or_before(c, r),
        count_at_or_before(c, r - 1) <= pending(c, r, q) <= count_at_or_before(c, r) <= c.len(),
{
    lemma_position_against_counts(c, q, r);
}

/// No cutoff lies before rank 0.
pub proof fn lemma_none_before_zero(c: Seq<usize>)
    requires
        sorted(c),
    ensures
        count_at_or_before(c, -1) == 0,
{
    lemma_split_is_count(c, -1, 0);
}

/// The count that the element at rank `r` carries while a pass over the
/// sorted cutoffs stands at position `q`, where the element has come to rank
/// `r` from the rank after and the pass takes one off for each cutoff at that
/// later rank that it leaves behind.
pub open spec fn unwinding(c: Seq<usize>, r: int, q: int) -> int {
    count_at_or_before(c, r) + count_at_or_before(c, r + 1) - pending(c, r + 1, q)
}

} // verus!
