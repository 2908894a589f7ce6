//! The sequence store: a linked list whose elements keep their handles while
//! they move. Each element carries one number, the slot of its value.

use crate::handle::handle_is_some;
use crate::model::{at_rank, is_live};
use index_list::{Index, IndexList};
use vstd::prelude::*;

verus! {

/// `index_list::IndexList`, a doubly linked list kept in a vector.
#[verifier::external_type_specification]
#[verifier::external_body]
#[verifier::reject_recursive_types(T)]
pub struct ExIndexList<T>(index_list::IndexList<T>);

/// The elements of a list from first to last, each as its handle and the
/// number stored under it.
pub uninterp spec fn list_entries(l: IndexList<usize>) -> Seq<(Index, usize)>;

/// `IndexList::new` makes an empty list.
#[verifier::external_body]
pub(crate) fn list_new() -> (l: IndexList<usize>)
    ensures
        list_entries(l).len() == 0,
{
    IndexList::new()
}

/// `IndexList::len` counts the elements.
#[verifier::external_body]
pub(crate) fn list_len(l: &IndexList<usize>) -> (n: usize)
    ensures
        n == list_entries(*l).len(),
{
    l.len()
}

/// `IndexList::is_empty` tells whether the list has no element.
#[verifier::external_body]
pub(crate) fn list_is_empty(l: &IndexList<usize>) -> (b: bool)
    ensures
        b == (list_entries(*l).len() == 0),
{
    l.is_empty()
}

/// `IndexList::first_index` gives the handle of the first element, the empty
/// handle for an empty list.
#[verifier::external_body]
pub(crate) fn list_first(l: &IndexList<usize>) -> (h: Index)
    ensures
        list_entries(*l).len() > 0 ==> h == list_entries(*l)[0].0,
        list_entries(*l).len() == 0 ==> !handle_is_some(h),
{
    l.first_index()
}

/// `IndexList::last_index` gives the handle of the last element, the empty
/// handle for an empty list.
#[verifier::external_body]
pub(crate) fn list_last(l: &IndexList<usize>) -> (h: Index)
    ensures
        list_entries(*l).len() > 0 ==> h == list_entries(*l)[list_entries(*l).len() - 1].0,
        list_entries(*l).len() == 0 ==> !handle_is_some(h),
{
    l.last_index()
}

/// `IndexList::next_index` steps from an element to the one after it, and
/// from the last element to the empty handle.
#[verifier::external_body]
pub(crate) fn list_next(l: &IndexList<usize>, h: Index) -> (next: Index)
    ensures
        forall|p: int|
            #[trigger] at_rank(list_entries(*l), h, p) && p + 1 < list_entries(*l).len()
                ==> next == list_entries(*l)[p + 1].0,
        forall|p: int|
            #[trigger] at_rank(list_entries(*l), h, p) && p + 1 == list_entries(*l).len()
                ==> !handle_is_some(next),
{
    l.next_index(h)
}

/// `IndexList::prev_index` steps from an element to the one before it, and
/// from the first element to the empty handle.
#[verifier::external_body]
pub(crate) fn list_prev(l: &IndexList<usize>, h: Index) -> (prev: Index)
    ensures
        forall|p: int|
            #[trigger] at_rank(list_entries(*l), h, p) && p > 0
                ==> prev == list_entries(*l)[p - 1].0,
        forall|p: int|
            #[trigger] at_rank(list_entries(*l), h, p) && p == 0 ==> !handle_is_some(prev),
{
    l.prev_index(h)
}

/// `IndexList::get` reads the number stored under a handle, and finds nothing
/// under a handle that names no element of the list.
#[verifier::external_body]
pub(crate) fn list_get(l: &IndexList<usize>, h: Index) -> (r: Option<usize>)
    ensures
        forall|p: int|
            #[trigger] at_rank(list_entries(*l), h, p) ==> r == Some(list_entries(*l)[p].1),
        !is_live(list_entries(*l), h) ==> r is None,
{
    l.get(h).copied()
}

/// `IndexList::insert_first` links a new element in before all others, under
/// a handle that names a slot and that no element of the list has. Handles
/// are 32 bits wide, one value of them the empty handle: the list must hold
/// fewer elements than that.
#[verifier::external_body]
pub(crate) fn list_insert_first(l: &mut IndexList<usize>, v: usize) -> (h: Index)
    requires
        list_entries(*old(l)).len() < u32::MAX,
    ensures
        list_entries(*final(l)) == seq![(h, v)] + list_entries(*old(l)),
        handle_is_some(h),
        !is_live(list_entries(*old(l)), h),
{
    l.insert_first(v)
}

/// `IndexList::insert_last` links a new element in after all others, under a
/// handle that names a slot and that no element of the list has. The list
/// must hold fewer elements than there are handles.
#[verifier::external_body]
pub(crate) fn list_insert_last(l: &mut IndexList<usize>, v: usize) -> (h: Index)
    requires
        list_entries(*old(l)).len() < u32::MAX,
    ensures
        list_entries(*final(l)) == list_entries(*old(l)).push((h, v)),
        handle_is_some(h),
        !is_live(list_entries(*old(l)), h),
{
    l.insert_last(v)
}

/// `IndexList::remove` unlinks the element that a handle names and returns
/// the number stored under it; the other elements keep their order, handles
/// and numbers. It indexes its vector by the handle, so the handle has to
/// name an element of the list.
#[verifier::external_body]
pub(crate) fn list_remove(l: &mut IndexList<usize>, h: Index) -> (r: Option<usize>)
    requires
        is_live(list_entries(*old(l)), h),
    ensures
        forall|p: int|
            #[trigger] at_rank(list_entries(*old(l)), h, p) ==> {
                &&& r == Some(list_entries(*old(l))[p].1)
                &&& list_entries(*final(l)) == list_entries(*old(l)).remove(p)
            },
{
    l.remove(h)
}

/// `IndexList::shift_index_to_front` relinks the element that a handle names
/// before all others, keeping its handle and number, and says whether the
/// handle named an element; where it named none the list is unchanged.
#[verifier::external_body]
pub(crate) fn list_shift_to_front(l: &mut IndexList<usize>, h: Index) -> (moved: bool)
    ensures
        moved == is_live(list_entries(*old(l)), h),
        forall|p: int|
            #[trigger] at_rank(list_entries(*old(l)), h, p) ==> list_entries(*final(l))
                == seq![list_entries(*old(l))[p]] + list_entries(*old(l)).remove(p),
        !moved ==> list_entries(*final(l)) == list_entries(*old(l)),
{
    l.shift_index_to_front(h)
}

} // verus!
