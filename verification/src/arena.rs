//! Slot arena: the storage that the containers of this crate allocate from.
//!
//! Each slot is either live (holds a value) or vacant. Released slots are remembered and handed
//! out again before the arena grows.

use crate::owned::Owned;
use vstd::prelude::*;

verus! {

/// Error returned when the arena could not obtain storage for another slot
pub struct AllocError;

/// The slots after `value` has been placed in `slot`, which is either vacant or one past the end
pub open spec fn placed<T>(slots: Seq<Option<T>>, slot: int, value: T) -> Seq<Option<T>> {
    if slot == slots.len() {
        slots.push(Some(value))
    } else {
        slots.update(slot, Some(value))
    }
}

/// `slot` may receive a new value: it is vacant, or one past the end
pub open spec fn can_place<T>(slots: Seq<Option<T>>, slot: int) -> bool {
    slot == slots.len() || (0 <= slot < slots.len() && slots[slot] is None)
}

/// `vacant` lists every vacant slot of `slots` exactly once, and nothing else
spec fn vacancy_recorded<T>(slots: Seq<Option<T>>, vacant: Seq<usize>) -> bool {
    &&& vacant.no_duplicates()
    &&& forall|k: int|
        0 <= k < vacant.len() ==> {
            let s = #[trigger] vacant[k];
            &&& (s as int) < slots.len()
            &&& slots[s as int] is None
        }
    &&& forall|i: int|
        0 <= i < slots.len() && #[trigger] slots[i] is None ==> vacant.contains(i as usize)
}

proof fn lemma_refill_keeps_vacancy<T>(slots: Seq<Option<T>>, vacant: Seq<usize>, slot: int, x: T)
    requires
        0 <= slot < slots.len(),
        slots[slot] is Some,
    ensures
        vacancy_recorded(slots.update(slot, Some(x)), vacant) == vacancy_recorded(slots, vacant),
{
    let s2 = slots.update(slot, Some(x));
    if vacancy_recorded(slots, vacant) {
        assert forall|k: int| 0 <= k < vacant.len() implies {
            let s = #[trigger] vacant[k];
            &&& (s as int) < s2.len()
            &&& s2[s as int] is None
        } by {
            assert(slots[vacant[k] as int] is None);
        }
        assert forall|i: int| 0 <= i < s2.len() && #[trigger] s2[i] is None implies vacant.contains(i as usize) by {
            assert(slots[i] is None);
        }
    }
    if vacancy_recorded(s2, vacant) {
        assert forall|k: int| 0 <= k < vacant.len() implies {
            let s = #[trigger] vacant[k];
            &&& (s as int) < slots.len()
            &&& slots[s as int] is None
        } by {
            assert(s2[vacant[k] as int] is None);
        }
        assert forall|i: int| 0 <= i < slots.len() && #[trigger] slots[i] is None implies vacant.contains(i as usize) by {
            assert(s2[i] is None);
        }
    }
}

/// `new` is `old` with slot `s`, vacant or one past the end, made live; no other slot became
/// live or vacant
pub open spec fn gained<T>(old: Seq<Option<T>>, new: Seq<Option<T>>, s: int) -> bool {
    &&& can_place(old, s)
    &&& new.len() == (if s == old.len() {
        old.len() + 1
    } else {
        old.len()
    })
    &&& new[s] is Some
    &&& forall|i: int| 0 <= i < old.len() && i != s ==> (#[trigger] new[i] is Some) == (old[i] is Some)
}

/// `new` is `old` with the live slot `s` released; no other slot became live or vacant
pub open spec fn released<T>(old: Seq<Option<T>>, new: Seq<Option<T>>, s: int) -> bool {
    &&& new.len() == old.len()
    &&& 0 <= s < old.len()
    &&& old[s] is Some
    &&& new[s] is None
    &&& forall|i: int| 0 <= i < old.len() && i != s ==> (#[trigger] new[i] is Some) == (old[i] is Some)
}

/// Storage of values in numbered slots
pub struct Arena<T> {
    slots: Vec<Option<T>>,
    vacant: Vec<usize>,
}

impl<T> View for Arena<T> {
    type V = Seq<Option<T>>;

    closed spec fn view(&self) -> Seq<Option<T>> {
        self.slots@
    }
}

impl<T> Arena<T> {
    /// The vacant slots are exactly those recorded for reuse, each once
    pub closed spec fn wf(&self) -> bool {
        vacancy_recorded(self.slots@, self.vacant@)
    }

    /// `slot` holds a value
    pub open spec fn is_live(&self, slot: int) -> bool {
        0 <= slot < self@.len() && self@[slot] is Some
    }

    /// The value held in a live `slot`
    pub open spec fn value(&self, slot: int) -> T {
        self@[slot]->Some_0
    }

    /// Some slot is vacant
    pub open spec fn has_vacancy(&self) -> bool {
        exists|i: int| 0 <= i < self@.len() && self@[i] is None
    }

    /// Create an arena with no slots
    pub fn new() -> (r: Self)
        ensures
            r.wf(),
            r@ == Seq::<Option<T>>::empty(),
    {
        Arena { slots: Vec::new(), vacant: Vec::new() }
    }

    /// Number of slots, live or vacant
    pub fn slot_count(&self) -> (r: usize)
        ensures
            r == self@.len(),
    {
        self.slots.len()
    }

    /// Whether `slot` holds a value
    pub fn is_live_slot(&self, slot: usize) -> (r: bool)
        ensures
            r == self.is_live(slot as int),
    {
        slot < self.slots.len() && self.slots[slot].is_some()
    }

    /// Take a vacant slot out of the reuse list and store `value` there
    fn reuse(&mut self, value: T) -> (r: Owned<T>)
        requires
            old(self).wf(),
            old(self).vacant@.len() > 0,
        ensures
            final(self).wf(),
            can_place(old(self)@, r@ as int),
            (r@ as int) < old(self)@.len(),
            final(self)@ == placed(old(self)@, r@ as int, value),
    {
        let slot = self.vacant.pop().unwrap();
        proof {
            let k = (old(self).vacant@.len() - 1) as int;
            assert(old(self).vacant@[k] == slot);
        }
        self.slots.set(slot, Some(value));
        proof {
            assert(old(self).vacant@ == self.vacant@.push(slot));
            assert forall|i: int|
                0 <= i < self.slots@.len() && #[trigger] self.slots@[i] is None
                implies self.vacant@.contains(i as usize) by {
                if i == slot as int {
                    assert(self.slots@[i] is Some);
                }
                assert(old(self).slots@[i] is None);
                assert(old(self).vacant@.contains(i as usize));
                let k = choose|k: int| 0 <= k < old(self).vacant@.len() && old(self).vacant@[k] == i as usize;
                if k == old(self).vacant@.len() - 1 {
                    assert(old(self).slots@.len() == old(self).slots.len());
                    assert(i as usize == slot);
                    assert(i == slot as int);
                    assert(false);
                } else {
                    assert(self.vacant@[k] == i as usize);
                }
            }
            assert forall|k: int| 0 <= k < self.vacant@.len() implies {
                let s = #[trigger] self.vacant@[k];
                &&& (s as int) < self.slots@.len()
                &&& self.slots@[s as int] is None
            } by {
                assert(old(self).vacant@[k] == self.vacant@[k]);
                assert(self.vacant@[k] != slot);
            }
        }
        Owned::new(slot)
    }

    /// Store `value` in a new slot, growing the arena when no slot is vacant
    ///
    /// Growing asks the global allocator for room for one more slot (`Vec::try_reserve`); the
    /// outcome is handed to `place_with_room`, which stores `value` whenever a slot is vacant or
    /// the room was granted, and returns `value` back only when neither holds.
    pub fn allocate(&mut self, value: T) -> (r: Result<Owned<T>, T>)
        requires
            old(self).wf(),
        ensures
            final(self).wf(),
            match r {
                Ok(o) => can_place(old(self)@, o@ as int) && final(self)@ == placed(
                    old(self)@,
                    o@ as int,
                    value,
                ),
                Err(v) => v == value && final(self)@ == old(self)@ && !old(self).has_vacancy(),
            },
            old(self).has_vacancy() ==> r is Ok,
    {
        if self.vacant.len() > 0 {
            return self.place_with_room(value, false);
        }
        let room = match self.slots.try_reserve(1) {
            Ok(()) => true,
            Err(_) => false,
        };
        self.place_with_room(value, room)
    }

    /// Store `value` in a vacant slot when there is one, else in a new slot at the end when
    /// `room` says that storage for one more slot has been obtained; otherwise hand `value` back
    /// and leave the arena unchanged
    pub fn place_with_room(&mut self, value: T, room: bool) -> (r: Result<Owned<T>, T>)
        requires
            old(self).wf(),
        ensures
            final(self).wf(),
            old(self).has_vacancy() || room <==> r is Ok,
            match r {
                Ok(o) => can_place(old(self)@, o@ as int) && final(self)@ == placed(
                    old(self)@,
                    o@ as int,
                    value,
                ),
                Err(v) => v == value && final(self)@ == old(self)@,
            },
            r is Ok && old(self).has_vacancy() ==> (r->Ok_0@ as int) < old(self)@.len(),
            r is Ok && !old(self).has_vacancy() ==> r->Ok_0@ as int == old(self)@.len(),
    {
        if self.vacant.len() > 0 {
            let o = self.reuse(value);
            proof {
                assert(old(self)@[o@ as int] is None);
            }
            return Ok(o);
        }
        proof {
            assert(!old(self).has_vacancy()) by {
                if old(self).has_vacancy() {
                    let i = choose|i: int| 0 <= i < old(self)@.len() && old(self)@[i] is None;
                    assert(old(self).slots@[i] is None);
                    assert(old(self).vacant@.contains(i as usize));
                }
            }
        }
        if !room {
            return Err(value);
        }
        let slot = self.slots.len();
        self.slots.push(Some(value));
        proof {
            assert forall|k: int| 0 <= k < self.vacant@.len() implies {
                let s = #[trigger] self.vacant@[k];
                &&& (s as int) < self.slots@.len()
                &&& self.slots@[s as int] is None
            } by {}
            assert forall|i: int|
                0 <= i < self.slots@.len() && #[trigger] self.slots@[i] is None
                implies self.vacant@.contains(i as usize) by {
                assert(i < slot);
                assert(old(self).slots@[i] is None);
            }
        }
        Ok(Owned::new(slot))
    }

    /// Store `value` in a new slot, growing the arena when no slot is vacant
    ///
    /// Growth goes through `Vec::push`, which aborts the process when the global allocator fails.
    pub fn allocate_or_abort(&mut self, value: T) -> (r: Owned<T>)
        requires
            old(self).wf(),
        ensures
            final(self).wf(),
            can_place(old(self)@, r@ as int),
            final(self)@ == placed(old(self)@, r@ as int, value),
    {
        if self.vacant.len() > 0 {
            return self.reuse(value);
        }
        let slot = self.slots.len();
        self.slots.push(Some(value));
        proof {
            assert forall|k: int| 0 <= k < self.vacant@.len() implies {
                let s = #[trigger] self.vacant@[k];
                &&& (s as int) < self.slots@.len()
                &&& self.slots@[s as int] is None
            } by {}
            assert forall|i: int|
                0 <= i < self.slots@.len() && #[trigger] self.slots@[i] is None
                implies self.vacant@.contains(i as usize) by {
                if i == slot {
                    assert(self.slots@[i] is Some);
                }
                assert(old(self).slots@[i] is None);
            }
        }
        Owned::new(slot)
    }

    /// Release the slot of `this`, returning the value it held
    pub fn deallocate(&mut self, this: Owned<T>) -> (r: T)
        requires
            old(self).wf(),
            old(self).is_live(this@ as int),
        ensures
            final(self).wf(),
            r == old(self).value(this@ as int),
            final(self)@ == old(self)@.update(this@ as int, None),
    {
        let slot = Owned::as_ptr(&this);
        let taken = self.slots[slot].take();
        proof {
            assert(!self.vacant@.contains(slot)) by {
                if self.vacant@.contains(slot) {
                    let k = choose|k: int| 0 <= k < self.vacant@.len() && self.vacant@[k] == slot;
                    assert(old(self).slots@[old(self).vacant@[k] as int] is None);
                }
            }
        }
        self.vacant.push(slot);
        proof {
            assert forall|k: int| 0 <= k < self.vacant@.len() implies {
                let s = #[trigger] self.vacant@[k];
                &&& (s as int) < self.slots@.len()
                &&& self.slots@[s as int] is None
            } by {
                if k < old(self).vacant@.len() {
                    assert(old(self).vacant@[k] == self.vacant@[k]);
                }
            }
            assert forall|i: int|
                0 <= i < self.slots@.len() && #[trigger] self.slots@[i] is None
                implies self.vacant@.contains(i as usize) by {
                if i == slot as int {
                    assert(self.vacant@[self.vacant@.len() - 1] == slot);
                } else {
                    assert(old(self).slots@[i] is None);
                    let k = choose|k: int| 0 <= k < old(self).vacant@.len() && old(self).vacant@[k] == i as usize;
                    assert(self.vacant@[k] == i as usize);
                }
            }
        }
        taken.unwrap()
    }

    /// Borrow the value held in a live slot
    pub fn get(&self, slot: usize) -> (r: &T)
        requires
            self.is_live(slot as int),
        ensures
            *r == self.value(slot as int),
    {
        self.slots[slot].as_ref().unwrap()
    }

    /// Mutably borrow the value held in a live slot
    pub fn get_mut(&mut self, slot: usize) -> (r: &mut T)
        requires
            old(self).is_live(slot as int),
        ensures
            *r == old(self).value(slot as int),
            final(self)@ == old(self)@.update(slot as int, Some(*final(r))),
            final(self).wf() == old(self).wf(),
    {
        proof {
            assert forall|x: T| vacancy_recorded(#[trigger] self.slots@.update(slot as int, Some(x)), self.vacant@)
                == vacancy_recorded(self.slots@, self.vacant@) by {
                lemma_refill_keeps_vacancy(self.slots@, self.vacant@, slot as int, x);
            }
        }
        match &mut self.slots[slot] {
            Some(v) => v,
            None => unreached(),
        }
    }
}

} // verus!
