//! Properties of the list operations that span several calls.
//!
//! Each statement is over the views that the operations' own contracts use: `push` leaves
//! `seq![v] + s`, `pop` takes the front, a cursor at position `p` inserts with `s.insert(p, v)`
//! and removes with `s.remove(p)`, and other cursors move as `shifted_by_insert` says.

use crate::arena::{can_place, placed};
use crate::sllist::shifted_by_insert;
use vstd::prelude::*;

verus! {

/// Popping right after pushing `v` onto a list holding `s` gives back `v` and leaves `s`
pub proof fn law_pop_undoes_push<T>(s: Seq<T>, v: T)
    ensures
        (seq![v] + s).len() > 0,
        (seq![v] + s)[0] == v,
        (seq![v] + s).drop_first() == s,
{
    assert((seq![v] + s).drop_first() =~= s);
}

/// An insertion never removes, moves past each other or changes the elements already in the
/// list: those before the insertion point keep their positions, those after move back by one
pub proof fn law_insert_keeps_existing_elements<T>(s: Seq<T>, p: int, v: T)
    requires
        0 <= p <= s.len(),
    ensures
        s.insert(p, v).len() == s.len() + 1,
        forall|i: int| 0 <= i < p ==> #[trigger] s.insert(p, v)[i] == s[i],
        forall|i: int| p <= i < s.len() ==> #[trigger] s.insert(p, v)[i + 1] == s[i],
{
    s.insert_ensures(p, v);
}

/// Values inserted one after the other through one cursor appear in the order they were inserted,
/// at the place the cursor started
pub proof fn law_cursor_inserts_in_order<T>(s: Seq<T>, p: int, a: T, b: T)
    requires
        0 <= p <= s.len(),
    ensures
        s.insert(p, a).insert(p + 1, b) == s.subrange(0, p) + seq![a, b] + s.subrange(p, s.len() as int),
{
    assert(s.insert(p, a).insert(p + 1, b) =~= s.subrange(0, p) + seq![a, b] + s.subrange(p, s.len() as int));
}

/// After an insertion at position `p`, a cursor that stood on the same link still stands there
/// and sees the new element next, while the inserting cursor sees what followed before
pub proof fn law_insert_seen_on_same_link<T>(s: Seq<T>, p: int, v: T)
    requires
        0 <= p <= s.len(),
    ensures
        shifted_by_insert(p, p) == p,
        s.insert(p, v)[p] == v,
        p < s.len() ==> s.insert(p, v)[p + 1] == s[p],
{
    s.insert_ensures(p, v);
}

/// Two insertions through cursors standing on the same link, in either order, leave both values
/// in that place, the later one first
pub proof fn law_inserts_on_same_link<T>(s: Seq<T>, p: int, a: T, b: T)
    requires
        0 <= p <= s.len(),
    ensures
        s.insert(p, a).insert(shifted_by_insert(p, p), b) == s.subrange(0, p) + seq![b, a] + s.subrange(
            p,
            s.len() as int,
        ),
        s.insert(p, b).insert(shifted_by_insert(p, p), a) == s.subrange(0, p) + seq![a, b] + s.subrange(
            p,
            s.len() as int,
        ),
{
    assert(s.insert(p, a).insert(p, b) =~= s.subrange(0, p) + seq![b, a] + s.subrange(p, s.len() as int));
    assert(s.insert(p, b).insert(p, a) =~= s.subrange(0, p) + seq![a, b] + s.subrange(p, s.len() as int));
}

/// Removing through a cursor on the link an insertion went through gives back the inserted value
/// and the list as it was
pub proof fn law_remove_undoes_insert<T>(s: Seq<T>, p: int, v: T)
    requires
        0 <= p <= s.len(),
    ensures
        s.insert(p, v)[p] == v,
        s.insert(p, v).remove(p) == s,
{
    s.insert_ensures(p, v);
    assert(s.insert(p, v).remove(p) =~= s);
}

/// A slot handed out by the arena was not live and holds the stored value afterwards, so
/// releasing it gives that value back (a list node: its element and its link); releasing a
/// reused slot restores the arena
pub proof fn law_released_slot_restores<T>(slots: Seq<Option<T>>, slot: int, v: T)
    requires
        can_place(slots, slot),
    ensures
        placed(slots, slot, v)[slot] == Some(v),
        slot < slots.len() ==> placed(slots, slot, v).update(slot, None) == slots,
        slot == slots.len() ==> placed(slots, slot, v).update(slot, None) == slots.push(None),
{
    assert(slot < slots.len() ==> placed(slots, slot, v).update(slot, None) =~= slots);
    assert(slot == slots.len() ==> placed(slots, slot, v).update(slot, None) =~= slots.push(None));
}

/// The list after the first `k` steps of a walk with `iter_mut`, where step `i` writes `w[i]`
/// through the reference it yielded
pub open spec fn written<T>(s: Seq<T>, w: Seq<T>, k: int) -> Seq<T>
    decreases k,
{
    if k <= 0 {
        s
    } else {
        written(s, w, k - 1).update(k - 1, w[k - 1])
    }
}

/// A walk with `iter_mut` that writes through each reference it is given replaces the elements
/// front first, in the order written, and keeps the ones it did not reach
pub proof fn law_walk_writes_in_order<T>(s: Seq<T>, w: Seq<T>, k: int)
    requires
        0 <= k <= w.len() <= s.len(),
    ensures
        written(s, w, k) == w.subrange(0, k) + s.subrange(k, s.len() as int),
    decreases k,
{
    if k == 0 {
        assert(s =~= w.subrange(0, 0) + s.subrange(0, s.len() as int));
    } else {
        law_walk_writes_in_order(s, w, k - 1);
        assert(written(s, w, k) =~= w.subrange(0, k) + s.subrange(k, s.len() as int));
    }
}

} // verus!
