use gronly::arena::Arena;
use gronly::boxed::RawBox;
use gronly::counter::increment;
use gronly::owned::{AtomicOwned, Owned};
use gronly::ExternalAllocator;
use std::sync::atomic::{AtomicUsize, Ordering};

#[test]
fn allocate_one_works() {
    let mut arena = Arena::new();
    let a = arena.allocate(4u32).ok().unwrap();
    assert_eq!(*arena.get(Owned::as_ptr(&a)), 4);
    *arena.get_mut(Owned::as_ptr(&a)) = 5;
    assert_eq!(arena.deallocate(a), 5);
}

#[test]
fn arena_reuses_released_slots_before_growing() {
    let mut arena = Arena::new();
    let a = arena.allocate('a').ok().unwrap();
    let b = arena.allocate('b').ok().unwrap();
    assert_eq!(arena.slot_count(), 2);
    let slot_a = Owned::as_ptr(&a);
    assert_eq!(arena.deallocate(a), 'a');
    assert!(!arena.is_live_slot(slot_a));
    let c = arena.allocate_or_abort('c');
    assert_eq!(Owned::as_ptr(&c), slot_a);
    assert_eq!(arena.slot_count(), 2);
    assert_eq!(*arena.get(Owned::as_ptr(&b)), 'b');
    assert_eq!(*arena.get(Owned::as_ptr(&c)), 'c');
}

#[test]
fn owned_reports_its_slot() {
    let o: Owned<u8> = Owned::new(7);
    assert_eq!(Owned::as_ptr(&o), 7);
    assert_eq!(Owned::as_mut_ptr(&o), 7);
    assert_eq!(Owned::as_non_null(&o), 7);
}

#[test]
fn atomic_owned_load_returns_what_was_stored() {
    let mut link: AtomicOwned<u8> = AtomicOwned::new_null();
    assert_eq!(link.load_ptr(), None);
    link.store_ptr(Some(3));
    assert_eq!(link.load_ptr(), Some(3));
    link.store_ptr_mut(None);
    assert_eq!(link.load_ptr_mut(), None);
    let o = Owned::new(9);
    link.store(Some(&o));
    assert_eq!(link.load_ptr(), Some(9));
    link.store_mut(None);
    assert_eq!(link.load_ptr(), None);
    let owned = AtomicOwned::<u8>::new(Owned::new(4));
    assert_eq!(owned.clone().load_ptr(), Some(4));
    let mut m = AtomicOwned::<u8>::new(Owned::new(5));
    assert_eq!(m.clone_mut().load_ptr(), Some(5));
}

#[test]
fn atomic_owned_cmpxchg_exchanges_only_on_match() {
    let mut link: AtomicOwned<u8> = AtomicOwned::new_null();
    assert_eq!(link.cmpxchg(Some(1), Some(2)), Err(None));
    assert_eq!(link.load_ptr(), None);
    assert_eq!(link.cmpxchg(None, Some(2)), Ok(None));
    assert_eq!(link.load_ptr(), Some(2));
}

#[test]
fn raw_box_works() {
    let mut alloc = Arena::new();
    let mut boxed = RawBox::try_new(1, &mut alloc).ok().unwrap();
    assert_eq!(*boxed.deref(&alloc), 1);
    *boxed.deref_mut(&mut alloc) = 2;
    assert_eq!(*boxed.deref(&alloc), 2);
    RawBox::drop_and_dealloc(&mut boxed, &mut alloc);
    assert_eq!(alloc.slot_count(), 1);
    assert!(!alloc.is_live_slot(0));
}

#[test]
fn increment_works() {
    let num = AtomicUsize::new(0);
    increment(&num);
    increment(&num);
    assert_eq!(num.load(Ordering::Relaxed), 2);
    let max = AtomicUsize::new(usize::MAX);
    increment(&max);
    assert_eq!(max.load(Ordering::Relaxed), 0);
}

#[test]
fn atomic_owned_default_is_null() {
    let link: AtomicOwned<u8> = AtomicOwned::default();
    assert_eq!(link.load_ptr(), None);
}

#[test]
fn owned_converts_to_its_slot() {
    let o: Owned<u8> = Owned::new(12);
    assert_eq!(usize::from(o), 12);
}
