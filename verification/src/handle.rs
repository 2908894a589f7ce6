//! Handles: the identifiers under which the sequence store files its elements.

use index_list::Index;
use vstd::prelude::*;

verus! {

/// `index_list::ListIndex`, the handle type of the sequence store. Its inside
/// is hidden: a handle is compared, copied and asked whether it is empty.
#[verifier::external_type_specification]
#[verifier::external_body]
pub struct ExListIndex(index_list::ListIndex);

/// What `ListIndex::is_some` answers for `h`: `false` for the empty handle,
/// `true` for every handle that names a slot.
pub uninterp spec fn handle_is_some(h: Index) -> bool;

/// `ListIndex::new` returns the empty handle. There is exactly one: the type
/// wraps an optional slot number and compares by it, so any handle that is not
/// `is_some` equals the one returned here.
pub assume_specification[ index_list::ListIndex::new ]() -> (h: Index)
    ensures
        !handle_is_some(h),
        forall|other: Index| !handle_is_some(other) ==> other == h,
;

/// `ListIndex::is_some` tells whether the handle names a slot.
pub assume_specification[ index_list::ListIndex::is_some ](h: &Index) -> (b: bool)
    ensures
        b == handle_is_some(*h),
;

/// `ListIndex`'s derived `==`: two handles are equal exactly when they hold
/// the same optional slot number, which is all there is to a handle.
#[verifier::external_body]
pub(crate) fn same_handle(a: Index, b: Index) -> (r: bool)
    ensures
        r == (a == b),
{
    a == b
}

/// The empty handle, which names no element.
pub open spec fn no_handle() -> Index {
    choose|h: Index| !handle_is_some(h)
}

/// There is an empty handle, and only one.
pub open spec fn one_empty_handle() -> bool {
    &&& !handle_is_some(no_handle())
    &&& forall|h: Index| !handle_is_some(h) ==> h == no_handle()
}

/// The empty handle.
pub fn empty_handle() -> (h: Index)
    ensures
        h == no_handle(),
        one_empty_handle(),
{
    Index::new()
}

} // verus!
