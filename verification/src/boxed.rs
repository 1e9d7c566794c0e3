//! A single value stored in an arena slot.

use crate::arena::{can_place, placed, AllocError, Arena};
use crate::owned::Owned;
use crate::ExternalAllocator;
use vstd::prelude::*;

verus! {

/// An instance of `T` stored in a given arena
pub struct RawBox<T> {
    ptr: Owned<T>,
}

impl<T> View for RawBox<T> {
    type V = usize;

    /// The slot the value lives in
    closed spec fn view(&self) -> usize {
        self.ptr@
    }
}

impl<T> RawBox<T> {
    /// Construct a new `RawBox` with the given value, stored in `alloc`
    pub fn try_new(x: T, alloc: &mut Arena<T>) -> (r: Result<Self, AllocError>)
        requires
            old(alloc).wf(),
        ensures
            final(alloc).wf(),
            match r {
                Ok(b) => can_place(old(alloc)@, b@ as int) && final(alloc)@ == placed(old(alloc)@, b@ as int, x),
                Err(_) => final(alloc)@ == old(alloc)@ && !old(alloc).has_vacancy(),
            },
            old(alloc).has_vacancy() ==> r is Ok,
    {
        match alloc.allocate(x) {
            Ok(ptr) => Ok(RawBox { ptr }),
            Err(_) => Err(AllocError),
        }
    }

    /// Borrow the stored value
    pub fn deref<'a>(&self, alloc: &'a Arena<T>) -> (r: &'a T)
        requires
            alloc.is_live(self@ as int),
        ensures
            *r == alloc.value(self@ as int),
    {
        alloc.get(Owned::as_ptr(&self.ptr))
    }

    /// Mutably borrow the stored value
    pub fn deref_mut<'a>(&mut self, alloc: &'a mut Arena<T>) -> (r: &'a mut T)
        requires
            old(alloc).is_live(old(self)@ as int),
        ensures
            final(self)@ == old(self)@,
            *r == old(alloc).value(old(self)@ as int),
            final(alloc)@ == old(alloc)@.update(old(self)@ as int, Some(*final(r))),
            final(alloc).wf() == old(alloc).wf(),
    {
        alloc.get_mut(Owned::as_ptr(&self.ptr))
    }
}

impl<T> ExternalAllocator<Arena<T>> for RawBox<T> {
    open spec fn allocated_in(&self, alloc: &Arena<T>) -> bool {
        alloc.wf() && alloc.is_live(self@ as int)
    }

    /// Drop the value and release its slot to `alloc`
    fn drop_and_dealloc(this: &mut Self, alloc: &mut Arena<T>)
        ensures
            final(alloc).wf(),
            final(alloc)@ == old(alloc)@.update(old(this)@ as int, None),
    {
        let slot = Owned::as_ptr(&this.ptr);
        let _ = alloc.deallocate(Owned::new(slot));
    }
}

} // verus!
