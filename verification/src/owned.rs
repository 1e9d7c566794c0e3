//! Owning handles to arena slots and the link cells that hold them.
//!
//! An [`Owned`] names a slot of an [`Arena`](crate::arena::Arena) and stands for the unique
//! ownership of the value stored there. An [`AtomicOwned`] is a link: it either points at a slot
//! or is null. Links are plain cells: every operation that changes one, compare and exchange
//! included, takes it exclusively.

use core::marker::PhantomData;
use vstd::prelude::*;
use vstd::std_specs::convert::FromSpecImpl;

verus! {

/// Handle indicating ownership of the value stored in one arena slot
pub struct Owned<T> {
    slot: usize,
    _marker: PhantomData<T>,
}

impl<T> View for Owned<T> {
    type V = usize;

    closed spec fn view(&self) -> usize {
        self.slot
    }
}

impl<T> Owned<T> {
    /// Create a handle for `slot`
    ///
    /// Whoever creates the handle must own the value in that slot; every arena operation that
    /// reads or releases through the handle requires the slot to be live.
    pub fn new(slot: usize) -> (r: Self)
        ensures
            r@ == slot,
    {
        Owned { slot, _marker: PhantomData }
    }

    /// Return the slot the handle points at
    pub fn as_ptr(this: &Self) -> (r: usize)
        ensures
            r == this@,
    {
        this.slot
    }

    /// Return the slot the handle points at, for writing through
    pub fn as_mut_ptr(this: &Self) -> (r: usize)
        ensures
            r == this@,
    {
        this.slot
    }

    /// Return the slot the handle points at; it is never null
    pub fn as_non_null(this: &Self) -> (r: usize)
        ensures
            r == this@,
    {
        this.slot
    }
}

impl<T> From<Owned<T>> for usize {
    /// The slot the handle points at
    fn from(value: Owned<T>) -> (r: usize) {
        value.slot
    }
}

impl<T> FromSpecImpl<Owned<T>> for usize {
    open spec fn obeys_from_spec() -> bool {
        true
    }

    open spec fn from_spec(v: Owned<T>) -> usize {
        v@
    }
}

/// A link that is either null or points at an arena slot; `T` names what the pointee carries
pub struct AtomicOwned<T> {
    target: Option<usize>,
    _marker: PhantomData<T>,
}

impl<T> View for AtomicOwned<T> {
    type V = Option<usize>;

    closed spec fn view(&self) -> Option<usize> {
        self.target
    }
}

impl<T> AtomicOwned<T> {
    /// Create a link pointing at the slot of `ptr`
    pub fn new(ptr: Owned<T>) -> (r: Self)
        ensures
            r@ == Some(ptr@),
    {
        AtomicOwned { target: Some(ptr.slot), _marker: PhantomData }
    }

    /// Create a null link
    pub fn new_null() -> (r: Self)
        ensures
            r@ is None,
    {
        AtomicOwned { target: None, _marker: PhantomData }
    }

    /// Create a new link with the same pointee as `self`
    pub fn clone(&self) -> (r: Self)
        ensures
            r@ == self@,
    {
        AtomicOwned { target: self.target, _marker: PhantomData }
    }

    /// Create a new link with the same pointee as `self`, from an exclusive borrow
    pub fn clone_mut(&mut self) -> (r: Self)
        ensures
            r@ == old(self)@,
            final(self)@ == old(self)@,
    {
        AtomicOwned { target: self.target, _marker: PhantomData }
    }

    /// Load the slot the link points at, `None` for null
    pub fn load_ptr(&self) -> (r: Option<usize>)
        ensures
            r == self@,
    {
        self.target
    }

    /// Load the slot the link points at from an exclusive borrow
    pub fn load_ptr_mut(&mut self) -> (r: Option<usize>)
        ensures
            r == old(self)@,
            final(self)@ == old(self)@,
    {
        self.target
    }

    /// Point the link at the slot of `value`, or make it null; the previous pointee is not released
    pub fn store(&mut self, value: Option<&Owned<T>>)
        ensures
            final(self)@ == (match value {
                Some(o) => Some(o@),
                None => None::<usize>,
            }),
    {
        self.target = match value {
            Some(o) => Some(o.slot),
            None => None,
        };
    }

    /// Point the link at the slot of `value`, or make it null, from an exclusive borrow
    pub fn store_mut(&mut self, value: Option<&Owned<T>>)
        ensures
            final(self)@ == (match value {
                Some(o) => Some(o@),
                None => None::<usize>,
            }),
    {
        self.store(value)
    }

    /// Point the link at `value`; the previous pointee is not released
    pub fn store_ptr(&mut self, value: Option<usize>)
        ensures
            final(self)@ == value,
    {
        self.target = value;
    }

    /// Point the link at `value` from an exclusive borrow
    pub fn store_ptr_mut(&mut self, value: Option<usize>)
        ensures
            final(self)@ == value,
    {
        self.target = value;
    }

    /// Store `new` if the link currently holds `current`
    ///
    /// Returns `Ok` with the previous value when the exchange happened, otherwise `Err` with the
    /// value the link holds, which is left unchanged.
    pub fn cmpxchg(&mut self, current: Option<usize>, new: Option<usize>) -> (r: Result<
        Option<usize>,
        Option<usize>,
    >)
        ensures
            old(self)@ == current ==> r == Ok::<Option<usize>, Option<usize>>(current)
                && final(self)@ == new,
            old(self)@ != current ==> r == Err::<Option<usize>, Option<usize>>(old(self)@)
                && final(self)@ == old(self)@,
    {
        if self.target == current {
            self.target = new;
            Ok(current)
        } else {
            Err(self.target)
        }
    }
}

impl<T> Default for AtomicOwned<T> {
    /// Create a null link
    fn default() -> (r: Self)
        ensures
            r@ is None,
    {
        Self::new_null()
    }
}

} // verus!
