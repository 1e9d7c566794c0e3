//! Grow-only containers over an explicit slot arena.
//!
//! Containers in this crate explore restricted operations: elements are inserted and published,
//! and removal is only offered where the caller holds the container exclusively. Raw containers
//! do not hold the arena their nodes come from; it is passed to each operation that needs it.

use vstd::prelude::*;

pub mod args;
pub mod arena;
pub mod boxed;
pub mod counter;
pub mod laws;
pub mod owned;
pub mod render;
pub mod sllist;

pub use sllist::{RawSLList, SLList};

verus! {

/// Trait for types which require explicit deallocation
///
/// Raw containers do not store the arena their allocations come from; it is handed to
/// `drop_and_dealloc`, which must be the arena the allocations were made in.
pub trait ExternalAllocator<A>: Sized {
    /// Every allocation held by `self` is live in `alloc`
    spec fn allocated_in(&self, alloc: &A) -> bool;

    /// Perform any necessary drops and release all allocations to `alloc`
    fn drop_and_dealloc(this: &mut Self, alloc: &mut A)
        requires
            old(this).allocated_in(old(alloc)),
    ;
}

} // verus!
