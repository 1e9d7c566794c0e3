use gronly::arena::Arena;
use gronly::sllist::{Cursor, SLList};
use gronly::ExternalAllocator;
use gronly::RawSLList;
use std::rc::Rc;

fn list_of(values: &[i32]) -> SLList<i32> {
    let mut list = SLList::new();
    let mut cur = list.iter();
    for v in values {
        cur.insert(&mut list, *v);
    }
    list
}

fn items(list: &SLList<i32>) -> Vec<i32> {
    let mut out = Vec::new();
    let mut cur = list.iter();
    while let Some(v) = cur.next(list) {
        out.push(*v);
    }
    out
}

#[test]
fn doctest_cursor_insert() {
    let mut list = SLList::new(); // List representation, cursor position marked with ^
    let mut cursor = list.iter(); // ^ - null
    assert_eq!(items(&list), items(&list_of(&[])));
    assert_eq!(cursor.peek(&list), None);

    cursor.insert(&mut list, 1); // 1 - ^ - null
    assert_eq!(items(&list), items(&list_of(&[1])));
    assert_eq!(cursor.peek(&list), None);

    cursor.insert(&mut list, 2); // 1 - 2 - ^ - null
    assert_eq!(items(&list), items(&list_of(&[1, 2])));
    assert_eq!(cursor.peek(&list), None);
}

#[test]
fn doctest_cursor_peek() {
    // Inserting through `cur_b` affects `cur_a`
    let mut list = list_of(&[1, 2, 3]);
    let mut cur_a = list.iter();
    cur_a.next(&list);
    cur_a.next(&list);

    let mut cur_b = cur_a.clone();

    // 1 - 2 - A, B - 3 - null
    assert_eq!(cur_a.peek(&list), Some(&3));
    assert_eq!(cur_b.peek(&list), Some(&3));
    cur_b.insert(&mut list, 4); // 1 - 2 - A - 4 - B - 3 - null
    assert_eq!(cur_a.peek(&list), Some(&4));
    assert_eq!(cur_b.peek(&list), Some(&3));
}

#[test]
fn doctest_cursor_mut_remove() {
    let mut list = list_of(&[1, 2, 3]);
    let mut cur = list.iter_mut();
    cur.next(&mut list);
    cur.next(&mut list);
    assert_eq!(cur.peek(&mut list), Some(&mut 3));
    assert_eq!(cur.remove(&mut list), Some(3));
}

#[test]
fn sllist_push_inserts_at_the_front() {
    let mut list = list_of(&[1, 2, 3]);
    list.push(4);
    assert_eq!(items(&list), vec![4, 1, 2, 3]);
}

#[test]
fn sllist_push_mut_inserts_at_the_front() {
    let mut list = list_of(&[1, 2, 3]);
    list.push_mut(4);
    assert_eq!(items(&list), vec![4, 1, 2, 3]);
}

#[test]
fn sllist_drops_contents() {
    let tracker = Rc::new(());
    {
        let mut list = SLList::new();
        let mut cur = list.iter();
        for _ in 0..3 {
            cur.insert(&mut list, tracker.clone());
        }
        assert_eq!(Rc::strong_count(&tracker), 4);
    }
    assert_eq!(Rc::strong_count(&tracker), 1);
}

#[test]
fn sllist_concurrently_inserts() {
    // Two inserting cursors on the same link, one after the other, in both orders
    for first_four in [true, false] {
        let mut list = list_of(&[1, 2, 3]);
        let mut c1 = list.iter();
        c1.next(&list);
        let mut c2 = list.iter();
        c2.next(&list);
        if first_four {
            c1.insert(&mut list, 4);
            c2.insert(&mut list, 5);
        } else {
            c2.insert(&mut list, 5);
            c1.insert(&mut list, 4);
        }
        let got = items(&list);
        assert!(got == vec![1, 4, 5, 2, 3] || got == vec![1, 5, 4, 2, 3], "{:?}", got);
    }
}

#[test]
fn sllist_pop_returns_front_in_order() {
    let mut list = list_of(&[1, 2, 3]);
    assert_eq!(list.pop(), Some(1));
    assert_eq!(list.pop(), Some(2));
    assert_eq!(list.pop(), Some(3));
    assert_eq!(list.pop(), None);
    assert!(list.is_empty());
}

#[test]
fn sllist_pop_undoes_push() {
    let mut list = list_of(&[7, 8]);
    list.push(6);
    assert_eq!(list.pop(), Some(6));
    assert_eq!(items(&list), vec![7, 8]);
}

#[test]
fn sllist_try_push_succeeds_and_returns_element() {
    let mut list = list_of(&[2]);
    assert_eq!(list.try_push(1).ok().copied(), Some(1));
    assert_eq!(items(&list), vec![1, 2]);
    match list.try_push_mut(0) {
        Ok(v) => *v = 10,
        Err(_) => panic!("allocation failed"),
    }
    assert_eq!(items(&list), vec![10, 1, 2]);
}

#[test]
fn sllist_push_mut_writes_through() {
    let mut list = list_of(&[1]);
    *list.push_mut(5) += 1;
    assert_eq!(items(&list), vec![6, 1]);
}

#[test]
fn cursor_try_insert_inserts_before_cursor() {
    let mut list = list_of(&[1, 3]);
    let mut cur = list.iter();
    cur.next(&list);
    assert_eq!(cur.try_insert(&mut list, 2).ok().copied(), Some(2));
    assert_eq!(cur.peek(&list), Some(&3));
    assert_eq!(items(&list), vec![1, 2, 3]);
}

#[test]
fn cursor_mut_insert_and_peek_write_through() {
    let mut list = list_of(&[1, 2]);
    let mut cur = list.iter_mut();
    *cur.insert(&mut list, 0) = 9;
    if let Some(v) = cur.peek(&mut list) {
        *v = 20;
    }
    assert_eq!(items(&list), vec![9, 20, 2]);
    match cur.try_insert(&mut list, 5) {
        Ok(v) => assert_eq!(*v, 5),
        Err(_) => panic!("allocation failed"),
    }
    assert_eq!(items(&list), vec![9, 5, 20, 2]);
}

#[test]
fn cursor_mut_remove_at_end_returns_none() {
    let mut list = list_of(&[1]);
    let mut cur = list.iter_mut();
    assert_eq!(cur.next(&mut list), Some(&mut 1));
    assert_eq!(cur.next(&mut list), None);
    assert_eq!(cur.remove(&mut list), None);
    assert_eq!(items(&list), vec![1]);
}

#[test]
fn remove_undoes_insert_through_same_link() {
    let mut list = list_of(&[1, 3]);
    let mut inserter = list.iter_mut();
    inserter.next(&mut list);
    let mut remover = list.iter_mut();
    remover.next(&mut list);
    inserter.insert(&mut list, 2);
    assert_eq!(items(&list), vec![1, 2, 3]);
    assert_eq!(remover.remove(&mut list), Some(2));
    assert_eq!(items(&list), vec![1, 3]);
}

#[test]
fn removed_slot_is_reused_by_next_insert() {
    let mut list = list_of(&[1, 2, 3]);
    let slots = list.allocator().slot_count();
    assert_eq!(list.pop(), Some(1));
    list.push(4);
    assert_eq!(list.allocator().slot_count(), slots);
    assert_eq!(items(&list), vec![4, 2, 3]);
}

#[test]
fn sllist_eq_compares_elements() {
    let a = list_of(&[1, 2, 3]);
    let b = list_of(&[1, 2, 3]);
    let c = list_of(&[1, 2]);
    let d = list_of(&[1, 2, 4]);
    assert!(a.eq(&b));
    assert!(!a.eq(&c));
    assert!(!c.eq(&a));
    assert!(!a.eq(&d));
    assert!(SLList::<i32>::new().eq(&SLList::default()));
}

#[test]
fn sllist_new_in_uses_given_arena() {
    let list: SLList<i32> = SLList::new_in(Arena::new());
    assert!(list.is_empty());
    assert_eq!(list.allocator().slot_count(), 0);
}

#[test]
fn raw_sllist_starts_empty() {
    let raw: RawSLList<i32> = RawSLList::new();
    assert!(raw.is_empty());
    let arena = Arena::new();
    let raw2: RawSLList<i32> = RawSLList::new_in(&arena);
    assert!(raw2.is_empty());
}

#[test]
fn raw_sllist_drop_and_dealloc_on_empty_list_keeps_arena() {
    let mut raw: RawSLList<i32> = RawSLList::new();
    let mut arena = Arena::new();
    RawSLList::drop_and_dealloc(&mut raw, &mut arena);
    assert!(raw.is_empty());
    assert_eq!(arena.slot_count(), 0);
}

#[test]
fn cursor_is_copy() {
    let list = list_of(&[1]);
    let a: Cursor = list.iter();
    let b = a;
    assert_eq!(a.peek(&list), b.peek(&list));
}

#[test]
fn cursor_next_is_fused() {
    let mut list = SLList::new();
    let mut c = list.iter();
    assert_eq!(c.next(&list), None);
    list.push(1);
    assert_eq!(c.next(&list), None);
    let mut m = list.iter_mut();
    assert_eq!(m.next(&mut list), Some(&mut 1));
    assert_eq!(m.next(&mut list), None);
    m.insert(&mut list, 2);
    assert_eq!(m.next(&mut list), None);
    assert_eq!(items(&list), vec![1, 2]);
}

#[test]
fn elements_walks_front_to_back() {
    let list = list_of(&[3, 1, 2]);
    let refs: Vec<i32> = list.elements().into_iter().copied().collect();
    assert_eq!(refs, vec![3, 1, 2]);
    assert!(SLList::<i32>::new().elements().is_empty());
}

#[test]
fn iter_mut_walk_writes_in_order() {
    let mut list = list_of(&[1, 2, 3]);
    let mut cur = list.iter_mut();
    let mut k = 10;
    while let Some(v) = cur.next(&mut list) {
        *v = k;
        k += 1;
    }
    assert_eq!(items(&list), vec![10, 11, 12]);
}

#[test]
fn pop_releases_the_node_slot() {
    let mut list = list_of(&[1, 2]);
    let slots = list.allocator().slot_count();
    list.push_mut(5);
    assert_eq!(list.allocator().slot_count(), slots + 1);
    assert_eq!(list.pop(), Some(5));
    assert_eq!(list.allocator().slot_count(), slots + 1);
    assert!(!list.allocator().is_live_slot(slots));
    assert_eq!(items(&list), vec![1, 2]);
}
