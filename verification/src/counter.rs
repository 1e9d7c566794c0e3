//! A shared counter driven through a standard atomic.

use std::sync::atomic::{AtomicUsize, Ordering};
use vstd::prelude::*;

verus! {

/// Add one to a counter that other threads may update at the same time
///
/// The addition is a single atomic read-modify-write, so concurrent increments are never lost;
/// it wraps around at `usize::MAX`. What the counter holds afterwards depends on the other
/// threads and is not stated.
pub fn increment(value: &AtomicUsize) {
    value.fetch_add(1, Ordering::Relaxed);
}

} // verus!
