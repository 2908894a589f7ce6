//! The sequence as a mathematical object: elements in rank order, each a
//! handle paired with what is stored under it, and the operations on it.

use crate::handle::{handle_is_some, no_handle};
use index_list::Index;
use vstd::prelude::*;

verus! {

/// `h` is the handle of the element at rank `p` of `e`.
pub open spec fn at_rank<V>(e: Seq<(Index, V)>, h: Index, p: int) -> bool {
    0 <= p < e.len() && e[p].0 == h
}

/// `h` is the handle of some element of `e`.
pub open spec fn is_live<V>(e: Seq<(Index, V)>, h: Index) -> bool {
    exists|p: int| at_rank(e, h, p)
}

/// The rank of the element of `e` that `h` names.
pub open spec fn rank_of<V>(e: Seq<(Index, V)>, h: Index) -> int {
    choose|p: int| at_rank(e, h, p)
}

/// No element has the empty handle, and no two elements share a handle.
pub open spec fn valid_handles<V>(e: Seq<(Index, V)>) -> bool {
    &&& forall|p: int| 0 <= p < e.len() ==> handle_is_some(#[trigger] e[p].0)
    &&& forall|p: int, r: int| 0 <= p < r < e.len() ==> e[p].0 != e[r].0
}

/// The handle of the first element at rank `c` or later: the element at rank
/// `c`, or the empty handle where the sequence ends before it.
pub open spec fn follower<V>(e: Seq<(Index, V)>, c: int) -> Index {
    if 0 <= c < e.len() {
        e[c].0
    } else {
        no_handle()
    }
}

/// What is stored under `h`, if `h` names an element.
pub open spec fn value_under<V>(e: Seq<(Index, V)>, h: Index) -> Option<V> {
    if is_live(e, h) {
        Some(e[rank_of(e, h)].1)
    } else {
        None
    }
}

/// The handle after `h` in rank order: empty after the last element, and
/// empty where `h` names no element.
pub open spec fn successor<V>(e: Seq<(Index, V)>, h: Index) -> Index {
    if is_live(e, h) {
        follower(e, rank_of(e, h) + 1)
    } else {
        no_handle()
    }
}

/// `e` with a new element before all others.
pub open spec fn with_first<V>(e: Seq<(Index, V)>, h: Index, v: V) -> Seq<(Index, V)> {
    seq![(h, v)] + e
}

/// `e` with a new element after all others.
pub open spec fn with_last<V>(e: Seq<(Index, V)>, h: Index, v: V) -> Seq<(Index, V)> {
    e.push((h, v))
}

/// `e` with the element that `h` names moved to rank 0, the elements that
/// were before it each one rank later. Unchanged where `h` names no element.
pub open spec fn moved_to_front<V>(e: Seq<(Index, V)>, h: Index) -> Seq<(Index, V)> {
    if is_live(e, h) {
        seq![e[rank_of(e, h)]] + e.remove(rank_of(e, h))
    } else {
        e
    }
}

/// `e` without the element that `h` names, the elements after it each one
/// rank earlier. Unchanged where `h` names no element.
pub open spec fn without<V>(e: Seq<(Index, V)>, h: Index) -> Seq<(Index, V)> {
    if is_live(e, h) {
        e.remove(rank_of(e, h))
    } else {
        e
    }
}

/// Among valid handles an element's rank is the only place where its handle
/// stands.
pub proof fn lemma_rank_is<V>(e: Seq<(Index, V)>, h: Index, p: int)
    requires
        valid_handles(e),
        at_rank(e, h, p),
    ensures
        is_live(e, h),
        rank_of(e, h) == p,
{
}

/// Two sequences with the same handles at the same ranks have the same live
/// handles at the same ranks.
pub proof fn lemma_same_handles<V, W>(e: Seq<(Index, V)>, f: Seq<(Index, W)>)
    requires
        e.len() == f.len(),
        forall|p: int| 0 <= p < e.len() ==> (#[trigger] e[p]).0 == f[p].0,
    ensures
        valid_handles(e) == valid_handles(f),
        forall|h: Index, p: int| at_rank(e, h, p) == at_rank(f, h, p),
        forall|h: Index| is_live(e, h) == is_live(f, h),
        forall|h: Index| valid_handles(e) && is_live(e, h) ==> rank_of(e, h) == rank_of(f, h),
        forall|c: int| follower(e, c) == follower(f, c),
{
    assert(forall|h: Index, p: int| at_rank(e, h, p) == at_rank(f, h, p));
    if valid_handles(e) {
        assert forall|p: int| 0 <= p < f.len() implies handle_is_some(#[trigger] f[p].0) by {
            assert(e[p].0 == f[p].0);
        }
        assert forall|p: int, r: int| 0 <= p < r < f.len() implies f[p].0 != f[r].0 by {
            assert(e[p].0 == f[p].0);
            assert(e[r].0 == f[r].0);
        }
    }
}

/// Where `h` names the first element or no element, moving it to the front
/// leaves the sequence as it is.
pub proof fn lemma_move_of_first_or_absent<V>(e: Seq<(Index, V)>, h: Index)
    requires
        valid_handles(e),
        !is_live(e, h) || at_rank(e, h, 0),
    ensures
        moved_to_front(e, h) == e,
{
}

/// A value inserted at the front and removed at once comes back unchanged,
/// and the sequence, and with it its length, is as before the insertion.
pub proof fn lemma_insert_first_then_remove<V>(e: Seq<(Index, V)>, h: Index, v: V)
    requires
        valid_handles(e),
        handle_is_some(h),
        !is_live(e, h),
    ensures
        valid_handles(with_first(e, h, v)),
        value_under(with_first(e, h, v), h) == Some(v),
        without(with_first(e, h, v), h) == e,
        without(with_first(e, h, v), h).len() == e.len(),
{
    assert forall|p: int| 0 <= p < e.len() implies (#[trigger] e[p]).0 != h by {
        assert(!at_rank(e, h, p));
    }
    assert(at_rank(with_first(e, h, v), h, 0));
}

/// A value inserted at the end and removed at once comes back unchanged, and
/// the sequence, and with it its length, is as before the insertion.
pub proof fn lemma_insert_last_then_remove<V>(e: Seq<(Index, V)>, h: Index, v: V)
    requires
        valid_handles(e),
        handle_is_some(h),
        !is_live(e, h),
    ensures
        valid_handles(with_last(e, h, v)),
        value_under(with_last(e, h, v), h) == Some(v),
        without(with_last(e, h, v), h) == e,
        without(with_last(e, h, v), h).len() == e.len(),
{
    assert forall|p: int| 0 <= p < e.len() implies (#[trigger] e[p]).0 != h by {
        assert(!at_rank(e, h, p));
    }
    assert(at_rank(with_last(e, h, v), h, e.len() as int));
}

} // verus!
