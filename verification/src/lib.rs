//! A sequence of elements under stable handles that keeps, against a fixed
//! sorted set of cutoff ranks, the number of cutoffs at or before each element
//! and, for each cutoff, the first element at or past it.
//!
//! [`CutoffList`] is the container. Its contracts speak of the sequence in
//! [`model`] and of the counts in [`cutoffs`]. The order of the elements is
//! kept by a linked list of the `index_list` crate, whose behaviour is taken
//! on trust as [`store`] and [`handle`] state it; everything else is proved.

pub mod cutoffs;
pub mod handle;
pub mod list;
pub mod model;
mod slots;
pub mod store;

pub use index_list::Index;
pub use list::CutoffList;
