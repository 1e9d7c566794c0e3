//! Grow-only singly-linked list
//!
//!  * A link is either null or points at a live node of the list's arena
//!  * The nodes reachable from the head form the list; they are distinct and each is live
//!  * A cursor stands on a link: the head, or the `next` link of a node of the list
//!  * Inserting through a cursor never moves or removes a node that is already in the list, so
//!    every other cursor stays on its link
//!  * Removal releases the node back to the arena

use crate::arena::{can_place, gained, placed, released, Arena};
use crate::owned::{AtomicOwned, Owned};
use crate::ExternalAllocator;
use vstd::std_specs::cmp::PartialEqSpec;
use vstd::prelude::*;

verus! {

/// A list node: the link to the next node and the stored element
pub struct Node<T> {
    next: AtomicOwned<T>,
    element: T,
}

/// The arena that list nodes are allocated from
pub type NodeArena<T> = Arena<Node<T>>;

/// The node id at position `p` of `chain`, or null past its end
pub open spec fn entry(chain: Seq<usize>, p: int) -> Option<usize> {
    if 0 <= p < chain.len() {
        Some(chain[p])
    } else {
        None
    }
}

/// Slot `s` holds a node
pub open spec fn live_at<T>(slots: Seq<Option<Node<T>>>, s: usize) -> bool {
    (s as int) < slots.len() && slots[s as int] is Some
}

/// Where the node in slot `s` links to
pub closed spec fn next_of<T>(slots: Seq<Option<Node<T>>>, s: usize) -> Option<usize> {
    slots[s as int]->Some_0.next@
}

/// The element stored in the node in slot `s`
pub closed spec fn elem_of<T>(slots: Seq<Option<Node<T>>>, s: usize) -> T {
    slots[s as int]->Some_0.element
}

/// `chain` lists the nodes reachable from `head`, in order
pub closed spec fn linked<T>(slots: Seq<Option<Node<T>>>, head: Option<usize>, chain: Seq<usize>) -> bool {
    &&& chain.no_duplicates()
    &&& head == entry(chain, 0)
    &&& forall|k: int|
        0 <= k < chain.len() ==> live_at(slots, chain[k]) && #[trigger] next_of(slots, chain[k])
            == entry(chain, k + 1)
}

/// The elements stored along `chain`
pub closed spec fn elements<T>(slots: Seq<Option<Node<T>>>, chain: Seq<usize>) -> Seq<T> {
    Seq::new(chain.len(), |k: int| elem_of(slots, chain[k]))
}

/// A cursor standing on `at` is on a link of `chain`
pub closed spec fn on_chain(chain: Seq<usize>, at: Option<usize>) -> bool {
    match at {
        None => true,
        Some(s) => chain.contains(s),
    }
}

/// Number of elements before a cursor standing on `at`
pub closed spec fn position_in(chain: Seq<usize>, at: Option<usize>) -> int {
    match at {
        None => 0,
        Some(s) => chain.index_of(s) + 1,
    }
}

/// Where a cursor at position `q` stands after an element was inserted at position `p`
pub open spec fn shifted_by_insert(q: int, p: int) -> int {
    if q > p {
        q + 1
    } else {
        q
    }
}

/// Where a cursor at position `q` stands after the element at position `p` was removed
pub open spec fn shifted_by_remove(q: int, p: int) -> int {
    if q > p + 1 {
        q - 1
    } else {
        q
    }
}

/// The value of the link a cursor standing on `at` points through
pub closed spec fn link_value<T>(slots: Seq<Option<Node<T>>>, head: Option<usize>, at: Option<usize>) -> Option<usize> {
    match at {
        None => head,
        Some(s) => next_of(slots, s),
    }
}

proof fn lemma_index_of_unique(chain: Seq<usize>, k: int)
    requires
        chain.no_duplicates(),
        0 <= k < chain.len(),
    ensures
        chain.contains(chain[k]),
        chain.index_of(chain[k]) == k,
{
    assert(chain.contains(chain[k]));
}

proof fn lemma_link_value<T>(slots: Seq<Option<Node<T>>>, head: Option<usize>, chain: Seq<usize>, at: Option<usize>)
    requires
        linked(slots, head, chain),
        on_chain(chain, at),
    ensures
        0 <= position_in(chain, at) <= chain.len(),
        link_value(slots, head, at) == entry(chain, position_in(chain, at)),
        at matches Some(s) ==> chain[position_in(chain, at) - 1] == s && live_at(slots, s),
{
    if let Some(s) = at {
        let k = chain.index_of(s);
        assert(chain[k] == s);
        assert(live_at(slots, chain[k]) && next_of(slots, chain[k]) == entry(chain, k + 1));
    }
}

proof fn lemma_insert_index(chain: Seq<usize>, p: int, slot: usize, k: int)
    requires
        0 <= p <= chain.len(),
        0 <= k <= chain.len(),
    ensures
        chain.insert(p, slot).len() == chain.len() + 1,
        chain.insert(p, slot)[k] == (if k < p {
            chain[k]
        } else if k == p {
            slot
        } else {
            chain[k - 1]
        }),
{
    chain.insert_ensures(p, slot);
    if k > p {
        assert(chain.insert(p, slot)[(k - 1) + 1] == chain[k - 1]);
    }
}

proof fn lemma_remove_index(chain: Seq<usize>, p: int, k: int)
    requires
        0 <= p < chain.len(),
        0 <= k < chain.len() - 1,
    ensures
        chain.remove(p).len() == chain.len() - 1,
        chain.remove(p)[k] == (if k < p { chain[k] } else { chain[k + 1] }),
{
    chain.remove_ensures(p);
}

proof fn lemma_insert_no_dup(chain: Seq<usize>, p: int, slot: usize)
    requires
        chain.no_duplicates(),
        0 <= p <= chain.len(),
        !chain.contains(slot),
    ensures
        chain.insert(p, slot).no_duplicates(),
{
    let c2 = chain.insert(p, slot);
    assert forall|i: int, j: int| 0 <= i < c2.len() && 0 <= j < c2.len() && i != j implies c2[i] != c2[j] by {
        lemma_insert_index(chain, p, slot, i);
        lemma_insert_index(chain, p, slot, j);
        if i == p {
            if j < p {
                assert(chain[j] == c2[j]);
            } else {
                assert(chain[j - 1] == c2[j]);
            }
        } else if j == p {
            if i < p {
                assert(chain[i] == c2[i]);
            } else {
                assert(chain[i - 1] == c2[i]);
            }
        }
    }
}

proof fn lemma_remove_no_dup(chain: Seq<usize>, p: int)
    requires
        chain.no_duplicates(),
        0 <= p < chain.len(),
    ensures
        chain.remove(p).no_duplicates(),
        !chain.remove(p).contains(chain[p]),
{
    let c2 = chain.remove(p);
    assert forall|i: int, j: int| 0 <= i < c2.len() && 0 <= j < c2.len() && i != j implies c2[i] != c2[j] by {
        lemma_remove_index(chain, p, i);
        lemma_remove_index(chain, p, j);
    }
    if c2.contains(chain[p]) {
        let i = choose|i: int| 0 <= i < c2.len() && c2[i] == chain[p];
        lemma_remove_index(chain, p, i);
    }
}

proof fn lemma_insert_linked<T>(
    slots: Seq<Option<Node<T>>>,
    slots2: Seq<Option<Node<T>>>,
    head: Option<usize>,
    head2: Option<usize>,
    chain: Seq<usize>,
    p: int,
    slot: usize,
)
    requires
        linked(slots, head, chain),
        0 <= p <= chain.len(),
        slots.len() <= slots2.len(),
        !chain.contains(slot),
        live_at(slots2, slot),
        next_of(slots2, slot) == entry(chain, p),
        forall|k: int|
            0 <= k < chain.len() && k != p - 1 ==> slots2[#[trigger] chain[k] as int] == slots[chain[k] as int],
        p > 0 ==> live_at(slots2, chain[p - 1]) && next_of(slots2, chain[p - 1]) == Some(slot)
            && elem_of(slots2, chain[p - 1]) == elem_of(slots, chain[p - 1]),
        head2 == (if p == 0 { Some(slot) } else { head }),
    ensures
        linked(slots2, head2, chain.insert(p, slot)),
        elements(slots2, chain.insert(p, slot)) == elements(slots, chain).insert(p, elem_of(slots2, slot)),
{
    let c2 = chain.insert(p, slot);
    lemma_insert_no_dup(chain, p, slot);
    assert forall|k: int| 0 <= k < c2.len() implies live_at(slots2, c2[k]) && #[trigger] next_of(slots2, c2[k])
        == entry(c2, k + 1) by {
        lemma_insert_index(chain, p, slot, k);
        if k + 1 <= chain.len() {
            lemma_insert_index(chain, p, slot, k + 1);
        }
        if k < p - 1 {
            assert(slots2[chain[k] as int] == slots[chain[k] as int]);
            assert(live_at(slots, chain[k]) && next_of(slots, chain[k]) == entry(chain, k + 1));
        } else if k == p - 1 {
        } else if k == p {
        } else {
            assert(slots2[chain[k - 1] as int] == slots[chain[k - 1] as int]);
            assert(live_at(slots, chain[k - 1]) && next_of(slots, chain[k - 1]) == entry(chain, k));
        }
    }
    lemma_insert_index(chain, p, slot, 0);
    let e1 = elements(slots, chain);
    let e2 = elements(slots2, c2);
    e1.insert_ensures(p, elem_of(slots2, slot));
    assert forall|k: int| 0 <= k < e2.len() implies e2[k] == e1.insert(p, elem_of(slots2, slot))[k] by {
        lemma_insert_index(chain, p, slot, k);
        if k < p {
            if k < p - 1 {
                assert(slots2[chain[k] as int] == slots[chain[k] as int]);
            }
            assert(e1[k] == elem_of(slots, chain[k]));
        } else if k > p {
            assert(slots2[chain[k - 1] as int] == slots[chain[k - 1] as int]);
            assert(e1[k - 1] == elem_of(slots, chain[k - 1]));
            assert(e1.insert(p, elem_of(slots2, slot))[(k - 1) + 1] == e1[k - 1]);
        }
    }
    assert(e2 =~= e1.insert(p, elem_of(slots2, slot)));
}

proof fn lemma_remove_linked<T>(
    slots: Seq<Option<Node<T>>>,
    slots2: Seq<Option<Node<T>>>,
    head: Option<usize>,
    head2: Option<usize>,
    chain: Seq<usize>,
    p: int,
)
    requires
        linked(slots, head, chain),
        0 <= p < chain.len(),
        slots.len() <= slots2.len(),
        forall|k: int|
            0 <= k < chain.len() && k != p && k != p - 1 ==> slots2[#[trigger] chain[k] as int]
                == slots[chain[k] as int],
        p > 0 ==> live_at(slots2, chain[p - 1]) && next_of(slots2, chain[p - 1]) == entry(chain, p + 1)
            && elem_of(slots2, chain[p - 1]) == elem_of(slots, chain[p - 1]),
        head2 == (if p == 0 { entry(chain, 1) } else { head }),
    ensures
        linked(slots2, head2, chain.remove(p)),
        elements(slots2, chain.remove(p)) == elements(slots, chain).remove(p),
{
    let c2 = chain.remove(p);
    lemma_remove_no_dup(chain, p);
    assert forall|k: int| 0 <= k < c2.len() implies live_at(slots2, c2[k]) && #[trigger] next_of(slots2, c2[k])
        == entry(c2, k + 1) by {
        lemma_remove_index(chain, p, k);
        if k + 1 < c2.len() {
            lemma_remove_index(chain, p, k + 1);
        }
        if k < p - 1 {
            assert(slots2[chain[k] as int] == slots[chain[k] as int]);
            assert(live_at(slots, chain[k]) && next_of(slots, chain[k]) == entry(chain, k + 1));
        } else if k == p - 1 {
        } else {
            assert(slots2[chain[k + 1] as int] == slots[chain[k + 1] as int]);
            assert(live_at(slots, chain[k + 1]) && next_of(slots, chain[k + 1]) == entry(chain, k + 2));
        }
    }
    if c2.len() > 0 {
        lemma_remove_index(chain, p, 0);
    }
    let e1 = elements(slots, chain);
    let e2 = elements(slots2, c2);
    e1.remove_ensures(p);
    assert forall|k: int| 0 <= k < e2.len() implies e2[k] == e1.remove(p)[k] by {
        lemma_remove_index(chain, p, k);
        if k < p {
            if k < p - 1 {
                assert(slots2[chain[k] as int] == slots[chain[k] as int]);
            }
            assert(e1[k] == elem_of(slots, chain[k]));
        } else {
            assert(slots2[chain[k + 1] as int] == slots[chain[k + 1] as int]);
            assert(e1[k + 1] == elem_of(slots, chain[k + 1]));
        }
    }
    assert(e2 =~= e1.remove(p));
}

proof fn lemma_position_after_insert(chain: Seq<usize>, p: int, slot: usize, at: Option<usize>)
    requires
        chain.no_duplicates(),
        chain.insert(p, slot).no_duplicates(),
        0 <= p <= chain.len(),
        on_chain(chain, at),
    ensures
        on_chain(chain.insert(p, slot), at),
        position_in(chain.insert(p, slot), at) == if position_in(chain, at) > p {
            position_in(chain, at) + 1
        } else {
            position_in(chain, at)
        },
{
    chain.insert_ensures(p, slot);
    if let Some(s) = at {
        let j = chain.index_of(s);
        lemma_index_of_unique(chain, j);
        let c2 = chain.insert(p, slot);
        if j < p {
            assert(c2[j] == s);
            lemma_index_of_unique(c2, j);
        } else {
            assert(c2[j + 1] == s);
            lemma_index_of_unique(c2, j + 1);
        }
    }
}

proof fn lemma_position_after_remove(chain: Seq<usize>, p: int, at: Option<usize>)
    requires
        chain.no_duplicates(),
        chain.remove(p).no_duplicates(),
        0 <= p < chain.len(),
        on_chain(chain, at),
        at != Some(chain[p]),
    ensures
        on_chain(chain.remove(p), at),
        position_in(chain.remove(p), at) == if position_in(chain, at) > p + 1 {
            position_in(chain, at) - 1
        } else {
            position_in(chain, at)
        },
{
    chain.remove_ensures(p);
    if let Some(s) = at {
        let j = chain.index_of(s);
        lemma_index_of_unique(chain, j);
        let c2 = chain.remove(p);
        assert(j != p);
        if j < p {
            assert(c2[j] == s);
            lemma_index_of_unique(c2, j);
        } else {
            assert(c2[j - 1] == s);
            lemma_index_of_unique(c2, j - 1);
        }
    }
}

proof fn lemma_frame_alloc<T>(
    slots: Seq<Option<Node<T>>>,
    slots2: Seq<Option<Node<T>>>,
    head: Option<usize>,
    chain: Seq<usize>,
    slot: usize,
)
    requires
        linked(slots, head, chain),
        can_place(slots, slot as int),
        slots2.len() >= slots.len(),
        forall|i: int| 0 <= i < slots.len() && i != slot as int ==> #[trigger] slots2[i] == slots[i],
    ensures
        linked(slots2, head, chain),
        elements(slots2, chain) == elements(slots, chain),
        !chain.contains(slot),
{
    assert forall|k: int| 0 <= k < chain.len() implies live_at(slots2, chain[k]) && #[trigger] next_of(slots2, chain[k])
        == entry(chain, k + 1) by {
        assert(live_at(slots, chain[k]) && next_of(slots, chain[k]) == entry(chain, k + 1));
        assert(slots2[chain[k] as int] == slots[chain[k] as int]);
    }
    assert(elements(slots2, chain) =~= elements(slots, chain)) by {
        assert forall|k: int| 0 <= k < chain.len() implies elem_of(slots2, chain[k]) == elem_of(slots, chain[k]) by {
            assert(live_at(slots, chain[k]) && next_of(slots, chain[k]) == entry(chain, k + 1));
            assert(slots2[chain[k] as int] == slots[chain[k] as int]);
        }
    }
    if chain.contains(slot) {
        let k = choose|k: int| 0 <= k < chain.len() && chain[k] == slot;
        assert(live_at(slots, chain[k]) && next_of(slots, chain[k]) == entry(chain, k + 1));
    }
}

proof fn lemma_set_element<T>(
    slots: Seq<Option<Node<T>>>,
    slots2: Seq<Option<Node<T>>>,
    head: Option<usize>,
    chain: Seq<usize>,
    k: int,
)
    requires
        linked(slots, head, chain),
        0 <= k < chain.len(),
        slots2.len() == slots.len(),
        live_at(slots2, chain[k]),
        next_of(slots2, chain[k]) == next_of(slots, chain[k]),
        forall|i: int| 0 <= i < slots.len() && i != chain[k] as int ==> #[trigger] slots2[i] == slots[i],
    ensures
        linked(slots2, head, chain),
        elements(slots2, chain) == elements(slots, chain).update(k, elem_of(slots2, chain[k])),
{
    assert forall|j: int| 0 <= j < chain.len() implies live_at(slots2, chain[j]) && #[trigger] next_of(slots2, chain[j])
        == entry(chain, j + 1) by {
        assert(live_at(slots, chain[j]) && next_of(slots, chain[j]) == entry(chain, j + 1));
        if j != k {
            assert(chain[j] != chain[k]);
            assert(slots2[chain[j] as int] == slots[chain[j] as int]);
        }
    }
    assert(elements(slots2, chain) =~= elements(slots, chain).update(k, elem_of(slots2, chain[k]))) by {
        assert forall|j: int| 0 <= j < chain.len() && j != k implies elem_of(slots2, chain[j]) == elem_of(slots, chain[j]) by {
            assert(live_at(slots, chain[j]) && next_of(slots, chain[j]) == entry(chain, j + 1));
            assert(chain[j] != chain[k]);
            assert(slots2[chain[j] as int] == slots[chain[j] as int]);
        }
    }
}

proof fn lemma_insert_overwrite<T>(s: Seq<T>, p: int, v: T)
    requires
        0 <= p <= s.len(),
    ensures
        forall|x: T| #[trigger] s.insert(p, v).update(p, x) == s.insert(p, x),
{
    assert forall|x: T| #[trigger] s.insert(p, v).update(p, x) == s.insert(p, x) by {
        assert(s.insert(p, v).update(p, x) =~= s.insert(p, x));
    }
}

/// `slots` with slot `s` holding `node`
spec fn refilled<T>(slots: Seq<Option<Node<T>>>, s: usize, node: Node<T>) -> Seq<Option<Node<T>>> {
    slots.update(s as int, Some(node))
}

/// What slot `s` of `slots` holds
spec fn slot_content<T>(slots: Seq<Option<Node<T>>>, s: usize) -> Option<Node<T>> {
    slots[s as int]
}

/// `slots2` is `slots` with the link of the node in slot `s` set to `target`
spec fn relinked<T>(slots: Seq<Option<Node<T>>>, slots2: Seq<Option<Node<T>>>, s: usize, target: Option<usize>) -> bool {
    &&& slots2.len() == slots.len()
    &&& live_at(slots2, s)
    &&& next_of(slots2, s) == target
    &&& elem_of(slots2, s) == elem_of(slots, s)
    &&& forall|i: int| 0 <= i < slots.len() && i != s as int ==> #[trigger] slots2[i] == slots[i]
}

impl<T> Node<T> {
    /// Allocate a node holding `element` that links to `next`
    ///
    /// On failure, return the element that was not stored.
    fn allocate(next: AtomicOwned<T>, element: T, alloc: &mut NodeArena<T>) -> (r: Result<Owned<Node<T>>, T>)
        requires
            old(alloc).wf(),
        ensures
            final(alloc).wf(),
            match r {
                Ok(o) => can_place(old(alloc)@, o@ as int) && live_at(final(alloc)@, o@)
                    && next_of(final(alloc)@, o@) == next@ && elem_of(final(alloc)@, o@) == element
                    && final(alloc)@.len() >= old(alloc)@.len() && gained(old(alloc)@, final(alloc)@, o@ as int)
                    && forall|i: int| i != o@ as int && 0 <= i < old(alloc)@.len()
                        ==> #[trigger] final(alloc)@[i] == old(alloc)@[i],
                Err(v) => v == element && final(alloc)@ == old(alloc)@ && !old(alloc).has_vacancy(),
            },
            old(alloc).has_vacancy() ==> r is Ok,
    {
        match alloc.allocate(Node { next, element }) {
            Ok(o) => Ok(o),
            Err(node) => Err(node.element),
        }
    }

    /// Allocate a node holding `element` that links to `next`, aborting when no memory is left
    fn allocate_or_abort(next: AtomicOwned<T>, element: T, alloc: &mut NodeArena<T>) -> (r: Owned<Node<T>>)
        requires
            old(alloc).wf(),
        ensures
            final(alloc).wf(),
            can_place(old(alloc)@, r@ as int),
            live_at(final(alloc)@, r@),
            next_of(final(alloc)@, r@) == next@,
            elem_of(final(alloc)@, r@) == element,
            final(alloc)@.len() >= old(alloc)@.len(),
            gained(old(alloc)@, final(alloc)@, r@ as int),
            forall|i: int| i != r@ as int && 0 <= i < old(alloc)@.len() ==> #[trigger] final(alloc)@[i] == old(alloc)@[i],
    {
        alloc.allocate_or_abort(Node { next, element })
    }

    /// Move the node out of its slot and release the slot
    fn deallocate(this: Owned<Node<T>>, alloc: &mut NodeArena<T>) -> (r: Node<T>)
        requires
            old(alloc).wf(),
            old(alloc).is_live(this@ as int),
        ensures
            final(alloc).wf(),
            r == old(alloc).value(this@ as int),
            final(alloc)@ == old(alloc)@.update(this@ as int, None),
    {
        alloc.deallocate(this)
    }
}

/// Singly-linked list whose nodes live in an arena that it does not hold, see [`SLList`]
pub struct RawSLList<T> {
    head: AtomicOwned<T>,
    chain: Ghost<Seq<usize>>,
}

impl<T> RawSLList<T> {
    /// Number of nodes in the list
    pub closed spec fn len(&self) -> nat {
        self.chain@.len()
    }

    /// The head is null exactly when the list has no node
    pub closed spec fn shaped(&self) -> bool {
        self.head@ == entry(self.chain@, 0)
    }

    /// The nodes of the list are live in `alloc`, distinct and linked in order
    pub closed spec fn linked_in(&self, alloc: &NodeArena<T>) -> bool {
        alloc.wf() && linked(alloc@, self.head@, self.chain@)
    }

    /// The elements of the list, front first, as stored in `alloc`
    pub closed spec fn elements_in(&self, alloc: &NodeArena<T>) -> Seq<T> {
        elements(alloc@, self.chain@)
    }

    /// Slot `slot` holds one of the list's nodes
    pub closed spec fn owns_slot(&self, slot: int) -> bool {
        exists|k: int| 0 <= k < self.chain@.len() && self.chain@[k] as int == slot
    }

    /// The list is intact in `alloc`
    pub open spec fn wf_in(&self, alloc: &NodeArena<T>) -> bool {
        &&& self.shaped()
        &&& self.linked_in(alloc)
        &&& self.elements_in(alloc).len() == self.len()
    }

    /// Construct a new empty list
    pub fn new() -> (r: Self)
        ensures
            r.shaped(),
            r.len() == 0,
            forall|alloc: &NodeArena<T>| alloc.wf() ==> r.wf_in(alloc),
            forall|alloc: &NodeArena<T>| #[trigger] r.elements_in(alloc) == Seq::<T>::empty(),
    {
        let r = RawSLList { head: AtomicOwned::new_null(), chain: Ghost(Seq::empty()) };
        proof {
            assert forall|alloc: &NodeArena<T>| #[trigger] r.elements_in(alloc) == Seq::<T>::empty() by {
                assert(r.elements_in(alloc) =~= Seq::<T>::empty());
            }
        }
        r
    }

    /// Construct a new empty list whose nodes will come from `alloc`
    ///
    /// This does not allocate at all.
    pub fn new_in(alloc: &NodeArena<T>) -> (r: Self)
        ensures
            r.shaped(),
            r.len() == 0,
            alloc.wf() ==> r.wf_in(alloc),
            r.elements_in(alloc) == Seq::<T>::empty(),
    {
        Self::new()
    }

    /// Return `true` if the list is empty, otherwise `false`
    pub fn is_empty(&self) -> (r: bool)
        ensures
            self.shaped() ==> r == (self.len() == 0),
    {
        self.head.load_ptr().is_none()
    }
}

/// Singly-linked list that holds the arena its nodes live in
///
/// Elements are inserted through cursors and at the front; removal goes through [`CursorMut`]
/// and [`SLList::pop`].
pub struct SLList<T> {
    raw: RawSLList<T>,
    alloc: NodeArena<T>,
}

impl<T> View for SLList<T> {
    type V = Seq<T>;

    closed spec fn view(&self) -> Seq<T> {
        self.raw.elements_in(&self.alloc)
    }
}

impl<T> SLList<T> {
    /// The list and its arena are intact
    pub closed spec fn wf(&self) -> bool {
        self.raw.wf_in(&self.alloc)
    }

    /// A cursor standing on link `at` belongs to this list
    pub closed spec fn holds(&self, at: Option<usize>) -> bool {
        on_chain(self.raw.chain@, at)
    }

    /// Number of elements before a cursor standing on link `at`
    pub closed spec fn position(&self, at: Option<usize>) -> int {
        position_in(self.raw.chain@, at)
    }

    /// The arena has a released slot, so a new node needs no fresh memory
    pub closed spec fn has_vacancy(&self) -> bool {
        self.alloc.has_vacancy()
    }

    /// The arena the nodes live in
    pub closed spec fn arena(&self) -> NodeArena<T> {
        self.alloc
    }

    /// The arena slot of the node at position `p`
    pub closed spec fn slot_at(&self, p: int) -> usize {
        self.raw.chain@[p]
    }

    /// Construct a new empty list with an empty arena
    pub fn new() -> (r: Self)
        ensures
            r.wf(),
            r@ == Seq::<T>::empty(),
            r.arena()@ == Seq::<Option<Node<T>>>::empty(),
    {
        let alloc = Arena::new();
        let raw = RawSLList::new_in(&alloc);
        SLList { raw, alloc }
    }

    /// Construct a new empty list whose nodes will be allocated from `alloc`
    pub fn new_in(alloc: NodeArena<T>) -> (r: Self)
        requires
            alloc.wf(),
        ensures
            r.wf(),
            r@ == Seq::<T>::empty(),
            r.arena() == alloc,
    {
        let raw = RawSLList::new_in(&alloc);
        SLList { raw, alloc }
    }

    /// Returns a reference to the arena the nodes are allocated from
    pub fn allocator(&self) -> (r: &NodeArena<T>)
        ensures
            *r == self.arena(),
    {
        &self.alloc
    }

    /// Return `true` if the list is empty, otherwise `false`
    pub fn is_empty(&self) -> (r: bool)
        requires
            self.wf(),
        ensures
            r == (self@.len() == 0),
    {
        self.raw.is_empty()
    }

    /// Return a [`Cursor`] to the front of the list
    pub fn iter(&self) -> (r: Cursor)
        ensures
            !r.exhausted(),
            self.holds(r@),
            self.position(r@) == 0,
    {
        Cursor { at: None, done: false }
    }

    /// Return a [`CursorMut`] to the front of the list
    pub fn iter_mut(&mut self) -> (r: CursorMut)
        ensures
            *final(self) == *old(self),
            !r.exhausted(),
            final(self).holds(r@),
            final(self).position(r@) == 0,
    {
        CursorMut { at: None, done: false }
    }

    /// The value of the link a cursor standing on `at` points through
    fn link_of(&self, at: Option<usize>) -> (r: Option<usize>)
        requires
            self.wf(),
            self.holds(at),
        ensures
            r == entry(self.raw.chain@, self.position(at)),
    {
        proof {
            lemma_link_value(self.alloc@, self.raw.head@, self.raw.chain@, at);
        }
        match at {
            None => self.raw.head.load_ptr(),
            Some(s) => self.alloc.get(s).next.load_ptr(),
        }
    }

    /// Compare and exchange the link a cursor standing on `at` points through
    fn compare_exchange_link(&mut self, at: Option<usize>, current: Option<usize>, new: Option<usize>) -> (r: Result<
        Option<usize>,
        Option<usize>,
    >)
        requires
            old(self).alloc.wf(),
            at matches Some(s) ==> live_at(old(self).alloc@, s),
        ensures
            final(self).alloc.wf(),
            final(self).raw.chain == old(self).raw.chain,
            ({
                let before = link_value(old(self).alloc@, old(self).raw.head@, at);
                let after = if before == current { new } else { before };
                &&& r == (if before == current {
                    Ok::<Option<usize>, Option<usize>>(current)
                } else {
                    Err::<Option<usize>, Option<usize>>(before)
                })
                &&& match at {
                    None => final(self).raw.head@ == after && final(self).alloc@ == old(self).alloc@,
                    Some(s) => final(self).raw.head@ == old(self).raw.head@ && relinked(
                        old(self).alloc@,
                        final(self).alloc@,
                        s,
                        after,
                    ),
                }
            }),
    {
        match at {
            None => self.raw.head.cmpxchg(current, new),
            Some(s) => {
                let ghost slots = self.alloc@;
                let node = self.alloc.get_mut(s);
                let r = node.next.cmpxchg(current, new);
                proof {
                    assert(self.alloc@ == refilled(slots, s, *node));
                    assert(slot_content(self.alloc@, s) == Some(*node));
                }
                r
            },
        }
    }

    /// Point the link a cursor standing on `at` points through at `value`
    fn link_store(&mut self, at: Option<usize>, value: Option<usize>)
        requires
            old(self).alloc.wf(),
            at matches Some(s) ==> live_at(old(self).alloc@, s),
        ensures
            final(self).alloc.wf(),
            final(self).raw.chain == old(self).raw.chain,
            match at {
                None => final(self).raw.head@ == value && final(self).alloc@ == old(self).alloc@,
                Some(s) => final(self).raw.head@ == old(self).raw.head@ && relinked(
                    old(self).alloc@,
                    final(self).alloc@,
                    s,
                    value,
                ),
            },
    {
        match at {
            None => self.raw.head.store_ptr_mut(value),
            Some(s) => {
                let ghost slots = self.alloc@;
                let node = self.alloc.get_mut(s);
                node.next.store_ptr_mut(value);
                proof {
                    assert(self.alloc@ == refilled(slots, s, *node));
                    assert(slot_content(self.alloc@, s) == Some(*node));
                }
            },
        }
    }

    /// Make the link at `at` point at the unpublished node in `slot`, which already links to
    /// what that link pointed at; with `exclusive` unset the link is swung by compare and exchange
    fn publish(&mut self, at: Option<usize>, slot: usize, exclusive: bool)
        requires
            old(self).alloc.wf(),
            linked(old(self).alloc@, old(self).raw.head@, old(self).raw.chain@),
            on_chain(old(self).raw.chain@, at),
            !old(self).raw.chain@.contains(slot),
            live_at(old(self).alloc@, slot),
            next_of(old(self).alloc@, slot) == entry(old(self).raw.chain@, position_in(old(self).raw.chain@, at)),
        ensures
            final(self).wf(),
            final(self).raw.chain@ == old(self).raw.chain@.insert(position_in(old(self).raw.chain@, at), slot),
            final(self)@ == elements(old(self).alloc@, old(self).raw.chain@).insert(
                position_in(old(self).raw.chain@, at),
                elem_of(old(self).alloc@, slot),
            ),
            final(self).alloc@.len() == old(self).alloc@.len(),
            live_at(final(self).alloc@, slot),
            elem_of(final(self).alloc@, slot) == elem_of(old(self).alloc@, slot),
            forall|i: int|
                0 <= i < old(self).alloc@.len() ==> (#[trigger] final(self).alloc@[i] is Some) == (
                old(self).alloc@[i] is Some),
            on_chain(final(self).raw.chain@, Some(slot)),
            position_in(final(self).raw.chain@, Some(slot)) == position_in(old(self).raw.chain@, at) + 1,
            forall|d: Option<usize>|
                #[trigger] on_chain(old(self).raw.chain@, d) ==> on_chain(final(self).raw.chain@, d)
                    && position_in(final(self).raw.chain@, d) == shifted_by_insert(
                    position_in(old(self).raw.chain@, d),
                    position_in(old(self).raw.chain@, at),
                ),
    {
        let ghost slots = self.alloc@;
        let ghost head = self.raw.head@;
        let ghost chain = self.raw.chain@;
        let ghost p = position_in(chain, at);
        proof {
            lemma_link_value(slots, head, chain, at);
        }
        let expected = self.alloc.get(slot).next.load_ptr();
        if exclusive {
            self.link_store(at, Some(slot));
        } else {
            match self.compare_exchange_link(at, expected, Some(slot)) {
                Ok(_) => {},
                Err(_) => {
                    proof {
                        assert(false);
                    }
                },
            }
        }
        proof {
            let slots2 = self.alloc@;
            let new_chain = chain.insert(p, slot);
            if let Some(s) = at {
                assert(chain[p - 1] == s);
                assert(s != slot);
                assert(next_of(slots2, slot) == next_of(slots, slot)) by {
                    assert(slots2[slot as int] == slots[slot as int]);
                }
            }
            assert forall|k: int| 0 <= k < chain.len() && k != p - 1 implies slots2[#[trigger] chain[k] as int]
                == slots[chain[k] as int] by {
                assert(live_at(slots, chain[k]) && next_of(slots, chain[k]) == entry(chain, k + 1));
                if let Some(s) = at {
                    assert(chain[k] != s);
                }
            }
            lemma_insert_linked(slots, slots2, head, self.raw.head@, chain, p, slot);
            lemma_insert_no_dup(chain, p, slot);
            lemma_insert_index(chain, p, slot, p);
            lemma_index_of_unique(new_chain, p);
            assert forall|d: Option<usize>| #[trigger] on_chain(chain, d) implies on_chain(new_chain, d)
                && position_in(new_chain, d) == shifted_by_insert(position_in(chain, d), p) by {
                lemma_position_after_insert(chain, p, slot, d);
            }
            self.raw.chain = Ghost(new_chain);
        }
    }


    /// Remove the node the link at `at` points to, if any, and release its slot
    fn unlink(&mut self, at: Option<usize>) -> (r: Option<T>)
        requires
            old(self).wf(),
            on_chain(old(self).raw.chain@, at),
        ensures
            final(self).wf(),
            ({
                let chain = old(self).raw.chain@;
                let p = position_in(chain, at);
                if p < chain.len() {
                    &&& r == Some(old(self)@[p])
                    &&& final(self)@ == old(self)@.remove(p)
                    &&& final(self).raw.chain@ == chain.remove(p)
                    &&& on_chain(final(self).raw.chain@, at)
                    &&& position_in(final(self).raw.chain@, at) == p
                    &&& forall|d: Option<usize>|
                        #[trigger] on_chain(chain, d) && d != Some(chain[p]) ==> on_chain(
                            final(self).raw.chain@,
                            d,
                        ) && position_in(final(self).raw.chain@, d) == shifted_by_remove(
                            position_in(chain, d),
                            p,
                        )
                    &&& !on_chain(final(self).raw.chain@, Some(chain[p]))
                    &&& released(old(self).alloc@, final(self).alloc@, chain[p] as int)
                    &&& at is None ==> final(self).alloc@ == old(self).alloc@.update(chain[0] as int, None)
                } else {
                    &&& r is None
                    &&& *final(self) == *old(self)
                }
            }),
    {
        let ghost slots = self.alloc@;
        let ghost head = self.raw.head@;
        let ghost chain = self.raw.chain@;
        let ghost p = position_in(chain, at);
        proof {
            lemma_link_value(slots, head, chain, at);
        }
        let target = self.link_of(at);
        match target {
            None => None,
            Some(s) => {
                proof {
                    assert(chain[p] == s);
                    assert(live_at(slots, chain[p]) && next_of(slots, chain[p]) == entry(chain, p + 1));
                    if let Some(c) = at {
                        assert(c == chain[p - 1]);
                        assert(c != s);
                    }
                }
                let after = self.alloc.get(s).next.load_ptr();
                self.link_store(at, after);
                let ghost slots_mid = self.alloc@;
                let node = Node::deallocate(Owned::new(s), &mut self.alloc);
                proof {
                    let slots2 = self.alloc@;
                    assert forall|k: int| 0 <= k < chain.len() && k != p && k != p - 1 implies slots2[#[trigger] chain[k] as int]
                        == slots[chain[k] as int] by {
                        assert(live_at(slots, chain[k]) && next_of(slots, chain[k]) == entry(chain, k + 1));
                        assert(chain[k] != s);
                        if let Some(c) = at {
                            assert(chain[k] != c);
                        }
                    }
                    if p > 0 {
                        assert(chain[p - 1] != s);
                        assert(slots2[chain[p - 1] as int] == slots_mid[chain[p - 1] as int]);
                    }
                    lemma_remove_linked(slots, slots2, head, self.raw.head@, chain, p);
                    let new_chain = chain.remove(p);
                    lemma_remove_no_dup(chain, p);
                    assert forall|d: Option<usize>| #[trigger] on_chain(chain, d) && d != Some(chain[p]) implies on_chain(
                        new_chain,
                        d,
                    ) && position_in(new_chain, d) == shifted_by_remove(position_in(chain, d), p) by {
                        lemma_position_after_remove(chain, p, d);
                    }
                    lemma_position_after_remove(chain, p, at);
                    self.raw.chain = Ghost(new_chain);
                    assert(elem_of(slots, s) == elements(slots, chain)[p]);
                }
                Some(node.element)
            },
        }
    }

}

/// Cursor for walking and inserting into [`SLList`]
///
/// A cursor stands on a link of the list: the head, or the `next` link of a node. It does not
/// borrow the list; each operation takes the list it belongs to.
#[derive(Clone, Copy)]
pub struct Cursor {
    at: Option<usize>,
    done: bool,
}

impl View for Cursor {
    type V = Option<usize>;

    /// The link the cursor stands on
    closed spec fn view(&self) -> Option<usize> {
        self.at
    }
}

impl Cursor {
    /// `next` has returned `None` once, so it always will
    pub closed spec fn exhausted(&self) -> bool {
        self.done
    }
}

/// Cursor for walking, inserting, and removing elements in a [`SLList`]
pub struct CursorMut {
    at: Option<usize>,
    done: bool,
}

impl View for CursorMut {
    type V = Option<usize>;

    /// The link the cursor stands on
    closed spec fn view(&self) -> Option<usize> {
        self.at
    }
}

impl CursorMut {
    /// `next` has returned `None` once, so it always will
    pub closed spec fn exhausted(&self) -> bool {
        self.done
    }
}

} // verus!

verus! {

/// `after` is `before` with `value` inserted at position `p`, held in a newly allocated node;
/// every cursor of `before` still belongs to `after`, moved past the new element when it stood
/// after position `p`
pub open spec fn inserted_at<T>(before: SLList<T>, after: SLList<T>, p: int, value: T) -> bool {
    &&& after@ == before@.insert(p, value)
    &&& gained(before.arena()@, after.arena()@, after.slot_at(p) as int)
    &&& forall|d: Option<usize>|
        #[trigger] before.holds(d) ==> after.holds(d) && after.position(d) == shifted_by_insert(before.position(d), p)
}

/// `after` holds the same elements in the same arena as `before`, with every cursor in place
pub open spec fn unchanged<T>(before: SLList<T>, after: SLList<T>) -> bool {
    &&& after@ == before@
    &&& after.arena()@ == before.arena()@
    &&& forall|d: Option<usize>|
        #[trigger] before.holds(d) ==> after.holds(d) && after.position(d) == before.position(d)
}

/// `after` keeps the cursors of `before`, and its arena the same live slots
pub open spec fn same_places<T>(before: SLList<T>, after: SLList<T>) -> bool {
    &&& after.arena()@.len() == before.arena()@.len()
    &&& forall|i: int|
        0 <= i < before.arena()@.len() ==> (#[trigger] after.arena()@[i] is Some) == (before.arena()@[i] is Some)
    &&& forall|d: Option<usize>|
        #[trigger] before.holds(d) ==> after.holds(d) && after.position(d) == before.position(d)
}

/// `after` is `before` without the element at position `p`, whose node was released; a cursor
/// standing on that node no longer belongs to the list, every other one still does
pub open spec fn removed_at<T>(before: SLList<T>, after: SLList<T>, p: int) -> bool {
    &&& after@ == before@.remove(p)
    &&& released(before.arena()@, after.arena()@, before.slot_at(p) as int)
    &&& forall|d: Option<usize>|
        #[trigger] before.holds(d) && before.position(d) != p + 1 ==> after.holds(d) && after.position(d)
            == shifted_by_remove(before.position(d), p)
    &&& forall|d: Option<usize>| #[trigger] before.holds(d) && before.position(d) == p + 1 ==> !after.holds(d)
}

impl Cursor {
    /// Insert an item before the cursor
    ///
    /// The new node first links to what the cursor's link points at; the cursor's link is then
    /// swung to it by compare and exchange against that value, which cannot fail while the list is
    /// held exclusively. The cursor then stands after the new element. When the arena must grow
    /// and the global allocator refuses, this returns the `value` that was not inserted and
    /// leaves list, arena and cursor as they were.
    pub fn try_insert<'a, T>(&mut self, list: &'a mut SLList<T>, value: T) -> (r: Result<&'a T, T>)
        requires
            old(list).wf(),
            old(list).holds(old(self)@),
        ensures
            final(list).wf(),
            ({
                let p = old(list).position(old(self)@);
                match r {
                    Ok(e) => {
                        &&& *e == value
                        &&& inserted_at(*old(list), *final(list), p, value)
                        &&& final(self)@ == Some(final(list).slot_at(p))
                        &&& final(self).exhausted() == old(self).exhausted()
                        &&& final(list).holds(final(self)@)
                        &&& final(list).position(final(self)@) == p + 1
                    },
                    Err(v) => {
                        &&& v == value
                        &&& !old(list).has_vacancy()
                        &&& unchanged(*old(list), *final(list))
                        &&& *final(self) == *old(self)
                    },
                }
            }),
            old(list).has_vacancy() ==> r is Ok,
    {
        let ghost slots = list.alloc@;
        let link = list.link_of(self.at);
        let mut next = AtomicOwned::new_null();
        next.store_ptr(link);
        match Node::allocate(next, value, &mut list.alloc) {
            Err(v) => Err(v),
            Ok(node) => {
                let slot = Owned::as_mut_ptr(&node);
                proof {
                    lemma_frame_alloc(slots, list.alloc@, list.raw.head@, list.raw.chain@, slot);
                }
                list.publish(self.at, slot, false);
                self.at = Some(slot);
                Ok(&list.alloc.get(slot).element)
            },
        }
    }

    /// Insert an item before the cursor
    ///
    /// # Aborts
    ///
    /// Growing the arena goes through `Vec::push`, so the process aborts when the global
    /// allocator fails; this function itself never fails.
    pub fn insert<'a, T>(&mut self, list: &'a mut SLList<T>, value: T) -> (r: &'a T)
        requires
            old(list).wf(),
            old(list).holds(old(self)@),
        ensures
            final(list).wf(),
            ({
                let p = old(list).position(old(self)@);
                &&& *r == value
                &&& inserted_at(*old(list), *final(list), p, value)
                &&& final(self)@ == Some(final(list).slot_at(p))
                &&& final(self).exhausted() == old(self).exhausted()
                &&& final(list).holds(final(self)@)
                &&& final(list).position(final(self)@) == p + 1
            }),
    {
        let ghost slots = list.alloc@;
        let link = list.link_of(self.at);
        let mut next = AtomicOwned::new_null();
        next.store_ptr(link);
        let node = Node::allocate_or_abort(next, value, &mut list.alloc);
        let slot = Owned::as_mut_ptr(&node);
        proof {
            lemma_frame_alloc(slots, list.alloc@, list.raw.head@, list.raw.chain@, slot);
        }
        list.publish(self.at, slot, false);
        self.at = Some(slot);
        &list.alloc.get(slot).element
    }

    /// Return the next value without advancing the cursor
    pub fn peek<'a, T>(&self, list: &'a SLList<T>) -> (r: Option<&'a T>)
        requires
            list.wf(),
            list.holds(self@),
        ensures
            match r {
                Some(e) => list.position(self@) < list@.len() && *e == list@[list.position(self@)],
                None => list.position(self@) == list@.len(),
            },
    {
        proof {
            lemma_link_value(list.alloc@, list.raw.head@, list.raw.chain@, self.at);
        }
        match list.link_of(self.at) {
            None => None,
            Some(s) => {
                proof {
                    let k = position_in(list.raw.chain@, self.at);
                    assert(live_at(list.alloc@, list.raw.chain@[k]) && next_of(list.alloc@, list.raw.chain@[k])
                        == entry(list.raw.chain@, k + 1));
                }
                Some(&list.alloc.get(s).element)
            },
        }
    }

    /// Return the next value and advance the cursor past it
    ///
    /// The cursor is fused: once this has returned `None`, it returns `None` from then on.
    pub fn next<'a, T>(&mut self, list: &'a SLList<T>) -> (r: Option<&'a T>)
        requires
            list.wf(),
            list.holds(old(self)@),
        ensures
            list.holds(final(self)@),
            old(self).exhausted() ==> r is None && *final(self) == *old(self),
            !old(self).exhausted() ==> match r {
                Some(e) => list.position(old(self)@) < list@.len() && *e == list@[list.position(old(self)@)]
                    && list.position(final(self)@) == list.position(old(self)@) + 1 && !final(self).exhausted(),
                None => list.position(old(self)@) == list@.len() && final(self)@ == old(self)@
                    && final(self).exhausted(),
            },
    {
        if self.done {
            return None;
        }
        proof {
            lemma_link_value(list.alloc@, list.raw.head@, list.raw.chain@, self.at);
        }
        match list.link_of(self.at) {
            None => {
                self.done = true;
                None
            },
            Some(s) => {
                proof {
                    let k = position_in(list.raw.chain@, self.at);
                    assert(live_at(list.alloc@, list.raw.chain@[k]) && next_of(list.alloc@, list.raw.chain@[k])
                        == entry(list.raw.chain@, k + 1));
                    lemma_index_of_unique(list.raw.chain@, k);
                }
                self.at = Some(s);
                Some(&list.alloc.get(s).element)
            },
        }
    }
}
} // verus!

verus! {

impl CursorMut {
    /// Insert an item before the cursor, storing the link directly
    ///
    /// When the arena must grow and the global allocator refuses, this returns the `value` that
    /// was not inserted and leaves list, arena and cursor as they were.
    pub fn try_insert<'a, T>(&mut self, list: &'a mut SLList<T>, value: T) -> (r: Result<&'a mut T, T>)
        requires
            old(list).wf(),
            old(list).holds(old(self)@),
        ensures
            final(list).wf(),
            ({
                let p = old(list).position(old(self)@);
                match r {
                    Ok(e) => {
                        &&& *e == value
                        &&& inserted_at(*old(list), *final(list), p, *final(e))
                        &&& final(self)@ == Some(final(list).slot_at(p))
                        &&& final(self).exhausted() == old(self).exhausted()
                        &&& final(list).holds(final(self)@)
                        &&& final(list).position(final(self)@) == p + 1
                    },
                    Err(v) => {
                        &&& v == value
                        &&& !old(list).has_vacancy()
                        &&& unchanged(*old(list), *final(list))
                        &&& *final(self) == *old(self)
                    },
                }
            }),
            old(list).has_vacancy() ==> r is Ok,
    {
        let ghost slots = list.alloc@;
        let ghost old_view = list@;
        let ghost p = list.position(self.at);
        let link = list.link_of(self.at);
        let mut next = AtomicOwned::new_null();
        next.store_ptr(link);
        match Node::allocate(next, value, &mut list.alloc) {
            Err(v) => Err(v),
            Ok(node) => {
                let slot = Owned::as_mut_ptr(&node);
                proof {
                    lemma_frame_alloc(slots, list.alloc@, list.raw.head@, list.raw.chain@, slot);
                }
                list.publish(self.at, slot, true);
                proof {
                    lemma_insert_overwrite(old_view, p, value);
                }
                self.at = Some(slot);
                Ok(list.element_mut(slot))
            },
        }
    }
}

impl CursorMut {
    /// Insert an item before the cursor, storing the link directly
    ///
    /// # Aborts
    ///
    /// Growing the arena goes through `Vec::push`, so the process aborts when the global
    /// allocator fails; this function itself never fails.
    pub fn insert<'a, T>(&mut self, list: &'a mut SLList<T>, value: T) -> (r: &'a mut T)
        requires
            old(list).wf(),
            old(list).holds(old(self)@),
        ensures
            final(list).wf(),
            ({
                let p = old(list).position(old(self)@);
                &&& *r == value
                &&& inserted_at(*old(list), *final(list), p, *final(r))
                &&& final(self)@ == Some(final(list).slot_at(p))
                &&& final(self).exhausted() == old(self).exhausted()
                &&& final(list).holds(final(self)@)
                &&& final(list).position(final(self)@) == p + 1
            }),
    {
        let ghost slots = list.alloc@;
        let ghost old_view = list@;
        let ghost p = list.position(self.at);
        let link = list.link_of(self.at);
        let mut next = AtomicOwned::new_null();
        next.store_ptr(link);
        let node = Node::allocate_or_abort(next, value, &mut list.alloc);
        let slot = Owned::as_mut_ptr(&node);
        proof {
            lemma_frame_alloc(slots, list.alloc@, list.raw.head@, list.raw.chain@, slot);
        }
        list.publish(self.at, slot, true);
        proof {
            lemma_insert_overwrite(old_view, p, value);
        }
        self.at = Some(slot);
        list.element_mut(slot)
    }

    /// Remove the next item the cursor will yield
    ///
    /// The cursor keeps its link; every other cursor of the list, but one standing on the
    /// removed node, keeps its link too.
    pub fn remove<T>(&mut self, list: &mut SLList<T>) -> (r: Option<T>)
        requires
            old(list).wf(),
            old(list).holds(old(self)@),
        ensures
            final(list).wf(),
            *final(self) == *old(self),
            ({
                let p = old(list).position(old(self)@);
                if p < old(list)@.len() {
                    &&& r == Some(old(list)@[p])
                    &&& removed_at(*old(list), *final(list), p)
                    &&& final(list).holds(final(self)@)
                    &&& final(list).position(final(self)@) == p
                } else {
                    &&& r is None
                    &&& unchanged(*old(list), *final(list))
                }
            }),
    {
        proof {
            let chain = list.raw.chain@;
            let p = position_in(chain, self.at);
            lemma_link_value(list.alloc@, list.raw.head@, chain, self.at);
            if p < chain.len() {
                assert forall|d: Option<usize>| on_chain(chain, d) && position_in(chain, d) != p + 1 implies d
                    != Some(chain[p]) by {
                    if d == Some(chain[p]) {
                        lemma_index_of_unique(chain, p);
                    }
                }
                assert forall|d: Option<usize>| on_chain(chain, d) && position_in(chain, d) == p + 1 implies d
                    == Some(chain[p]) by {
                    lemma_link_value(list.alloc@, list.raw.head@, chain, d);
                }
            }
        }
        list.unlink(self.at)
    }

    /// Return the next value without advancing the cursor
    pub fn peek<'a, T>(&mut self, list: &'a mut SLList<T>) -> (r: Option<&'a mut T>)
        requires
            old(list).wf(),
            old(list).holds(old(self)@),
        ensures
            final(list).wf(),
            *final(self) == *old(self),
            same_places(*old(list), *final(list)),
            ({
                let p = old(list).position(old(self)@);
                match r {
                    Some(e) => p < old(list)@.len() && *e == old(list)@[p] && final(list)@ == old(list)@.update(p, *final(e)),
                    None => p == old(list)@.len() && final(list)@ == old(list)@,
                }
            }),
    {
        proof {
            lemma_link_value(list.alloc@, list.raw.head@, list.raw.chain@, self.at);
        }
        match list.link_of(self.at) {
            None => None,
            Some(s) => {
                proof {
                    let k = position_in(list.raw.chain@, self.at);
                    lemma_index_of_unique(list.raw.chain@, k);
                }
                Some(list.element_mut(s))
            },
        }
    }

    /// Return the next value and advance the cursor past it
    ///
    /// The cursor is fused: once this has returned `None`, it returns `None` from then on.
    pub fn next<'a, T>(&mut self, list: &'a mut SLList<T>) -> (r: Option<&'a mut T>)
        requires
            old(list).wf(),
            old(list).holds(old(self)@),
        ensures
            final(list).wf(),
            final(list).holds(final(self)@),
            same_places(*old(list), *final(list)),
            old(self).exhausted() ==> r is None && *final(self) == *old(self) && final(list)@ == old(list)@,
            !old(self).exhausted() ==> ({
                let p = old(list).position(old(self)@);
                match r {
                    Some(e) => p < old(list)@.len() && *e == old(list)@[p] && final(list)@ == old(list)@.update(p, *final(e))
                        && final(list).position(final(self)@) == p + 1 && !final(self).exhausted(),
                    None => p == old(list)@.len() && final(list)@ == old(list)@ && final(self)@ == old(self)@
                        && final(self).exhausted(),
                }
            }),
    {
        if self.done {
            return None;
        }
        proof {
            lemma_link_value(list.alloc@, list.raw.head@, list.raw.chain@, self.at);
        }
        match list.link_of(self.at) {
            None => {
                self.done = true;
                None
            },
            Some(s) => {
                proof {
                    let k = position_in(list.raw.chain@, self.at);
                    lemma_index_of_unique(list.raw.chain@, k);
                }
                self.at = Some(s);
                Some(list.element_mut(s))
            },
        }
    }
}

impl<T> SLList<T> {
    /// Pop a value from the front of the list
    pub fn pop(&mut self) -> (r: Option<T>)
        requires
            old(self).wf(),
        ensures
            final(self).wf(),
            old(self)@.len() == 0 ==> r is None && unchanged(*old(self), *final(self)),
            old(self)@.len() > 0 ==> r == Some(old(self)@[0]) && final(self)@ == old(self)@.drop_first()
                && removed_at(*old(self), *final(self), 0),
    {
        let mut cursor = self.iter_mut();
        let r = cursor.remove(self);
        proof {
            if old(self)@.len() > 0 {
                assert(old(self)@.remove(0) =~= old(self)@.drop_first());
            }
        }
        r
    }

    /// Push a value to the front of the list
    pub fn push(&mut self, value: T) -> (r: &T)
        requires
            old(self).wf(),
        ensures
            final(self).wf(),
            *r == value,
            final(self)@ == seq![value] + old(self)@,
            inserted_at(*old(self), *final(self), 0, value),
    {
        let mut cursor = self.iter();
        let r = cursor.insert(self, value);
        proof {
            assert(old(self)@.insert(0, value) =~= seq![value] + old(self)@);
        }
        r
    }

    /// Push a value to the front of the list, returning it back when no memory is left
    pub fn try_push(&mut self, value: T) -> (r: Result<&T, T>)
        requires
            old(self).wf(),
        ensures
            final(self).wf(),
            match r {
                Ok(e) => *e == value && final(self)@ == seq![value] + old(self)@ && inserted_at(
                    *old(self),
                    *final(self),
                    0,
                    value,
                ),
                Err(v) => v == value && unchanged(*old(self), *final(self)) && !old(self).has_vacancy(),
            },
            old(self).has_vacancy() ==> r is Ok,
    {
        let mut cursor = self.iter();
        let r = cursor.try_insert(self, value);
        proof {
            assert(old(self)@.insert(0, value) =~= seq![value] + old(self)@);
        }
        r
    }

    /// Push a value to the front of the list and borrow it mutably
    pub fn push_mut(&mut self, value: T) -> (r: &mut T)
        requires
            old(self).wf(),
        ensures
            final(self).wf(),
            *r == value,
            final(self)@ == seq![*final(r)] + old(self)@,
            inserted_at(*old(self), *final(self), 0, *final(r)),
    {
        let mut cursor = self.iter_mut();
        let r = cursor.insert(self, value);
        proof {
            assert forall|x: T| #[trigger] old(self)@.insert(0, x) == seq![x] + old(self)@ by {
                assert(old(self)@.insert(0, x) =~= seq![x] + old(self)@);
            }
        }
        r
    }

    /// Push a value to the front of the list and borrow it mutably, returning it back when no
    /// memory is left
    pub fn try_push_mut(&mut self, value: T) -> (r: Result<&mut T, T>)
        requires
            old(self).wf(),
        ensures
            final(self).wf(),
            match r {
                Ok(e) => *e == value && final(self)@ == seq![*final(e)] + old(self)@ && inserted_at(
                    *old(self),
                    *final(self),
                    0,
                    *final(e),
                ),
                Err(v) => v == value && unchanged(*old(self), *final(self)) && !old(self).has_vacancy(),
            },
            old(self).has_vacancy() ==> r is Ok,
    {
        let mut cursor = self.iter_mut();
        let r = cursor.try_insert(self, value);
        proof {
            assert forall|x: T| #[trigger] old(self)@.insert(0, x) == seq![x] + old(self)@ by {
                assert(old(self)@.insert(0, x) =~= seq![x] + old(self)@);
            }
        }
        r
    }
}

impl<T> SLList<T> {
    /// Mutably borrow the element of the node in `slot`, which is in the list
    fn element_mut(&mut self, slot: usize) -> (r: &mut T)
        requires
            old(self).wf(),
            on_chain(old(self).raw.chain@, Some(slot)),
        ensures
            final(self).wf(),
            *r == old(self)@[position_in(old(self).raw.chain@, Some(slot)) - 1],
            final(self)@ == old(self)@.update(position_in(old(self).raw.chain@, Some(slot)) - 1, *final(r)),
            final(self).raw.chain == old(self).raw.chain,
            final(self).alloc@.len() == old(self).alloc@.len(),
            forall|i: int|
                0 <= i < old(self).alloc@.len() ==> (#[trigger] final(self).alloc@[i] is Some) == (
                old(self).alloc@[i] is Some),
    {
        let ghost slots = self.alloc@;
        let ghost chain = self.raw.chain@;
        let ghost k = position_in(chain, Some(slot)) - 1;
        proof {
            lemma_link_value(slots, self.raw.head@, chain, Some(slot));
            assert(live_at(slots, chain[k]) && next_of(slots, chain[k]) == entry(chain, k + 1));
            assert forall|n: Node<T>| n.next == slots[slot as int]->Some_0.next implies linked(
                #[trigger] slots.update(slot as int, Some(n)),
                self.raw.head@,
                chain,
            ) && elements(slots.update(slot as int, Some(n)), chain) == elements(slots, chain).update(k, n.element)
                && forall|i: int| 0 <= i < slots.len() ==> (slots.update(slot as int, Some(n))[i] is Some) == (slots[i] is Some) by {
                lemma_set_element(slots, slots.update(slot as int, Some(n)), self.raw.head@, chain, k);
            }
        }
        let node = self.alloc.get_mut(slot);
        &mut node.element
    }
}

} // verus!

verus! {

impl<T> ExternalAllocator<NodeArena<T>> for RawSLList<T> {
    open spec fn allocated_in(&self, alloc: &NodeArena<T>) -> bool {
        self.wf_in(alloc)
    }

    /// Drop every element and release every node of the list to `alloc`; the list is empty after
    fn drop_and_dealloc(this: &mut Self, alloc: &mut NodeArena<T>)
        ensures
            final(this).len() == 0,
            final(this).wf_in(final(alloc)),
            final(alloc)@.len() == old(alloc)@.len(),
            forall|i: int|
                0 <= i < old(alloc)@.len() ==> #[trigger] final(alloc)@[i] == (if old(this).owns_slot(i) {
                    None
                } else {
                    old(alloc)@[i]
                }),
    {
        let mut list = SLList { raw: RawSLList::new(), alloc: Arena::new() };
        core::mem::swap(&mut list.raw, this);
        core::mem::swap(&mut list.alloc, alloc);
        let ghost chain0 = list.raw.chain@;
        let ghost slots0 = list.alloc@;
        let ghost mut k: int = 0;
        proof {
            assert(chain0.skip(0) =~= chain0);
        }
        while !list.is_empty()
            invariant
                list.wf(),
                0 <= k <= chain0.len(),
                chain0.no_duplicates(),
                list.raw.chain@ == chain0.skip(k),
                list.alloc@.len() == slots0.len(),
                forall|i: int|
                    0 <= i < slots0.len() ==> #[trigger] list.alloc@[i] == (if exists|j: int|
                        0 <= j < k && chain0[j] as int == i {
                        None
                    } else {
                        slots0[i]
                    }),
            decreases chain0.len() - k,
        {
            let ghost before = list.alloc@;
            let ghost head_slot = list.raw.chain@[0];
            proof {
                assert(head_slot == chain0[k]);
                assert(position_in(list.raw.chain@, None) == 0);
                assert(live_at(before, list.raw.chain@[0]) && next_of(before, list.raw.chain@[0])
                    == entry(list.raw.chain@, 1));
                assert(list@.len() == list.raw.chain@.len());
            }
            let _ = list.unlink(None);
            proof {
                assert(list.alloc@ == before.update(head_slot as int, None));
                assert(list.raw.chain@ =~= chain0.skip(k + 1));
                assert forall|i: int| 0 <= i < slots0.len() implies #[trigger] list.alloc@[i] == (if exists|j: int|
                    0 <= j < k + 1 && chain0[j] as int == i {
                    None
                } else {
                    slots0[i]
                }) by {
                    if i == head_slot as int {
                        assert(0 <= k < k + 1 && chain0[k] as int == i);
                    } else {
                        assert(before[i] == list.alloc@[i]);
                        if exists|j: int| 0 <= j < k + 1 && chain0[j] as int == i {
                            let j = choose|j: int| 0 <= j < k + 1 && chain0[j] as int == i;
                            assert(j != k);
                        }
                    }
                }
                k = k + 1;
            }
        }
        proof {
            assert(k == chain0.len());
        }
        core::mem::swap(&mut list.raw, this);
        core::mem::swap(&mut list.alloc, alloc);
    }
}

} // verus!

verus! {

impl<T> Default for SLList<T> {
    /// An empty list with an empty arena
    fn default() -> (r: Self)
        ensures
            r.wf(),
            r@ == Seq::<T>::empty(),
    {
        Self::new()
    }
}

/// `a` and `b` have equal lengths and pairwise equal elements
pub open spec fn elementwise_eq<T: PartialEq>(a: Seq<T>, b: Seq<T>) -> bool {
    a.len() == b.len() && forall|i: int| 0 <= i < a.len() ==> #[trigger] a[i].eq_spec(&b[i])
}

impl<T: PartialEq> SLList<T> {
    /// Compare two lists element by element, front first
    pub fn eq(&self, other: &Self) -> (r: bool)
        requires
            self.wf(),
            other.wf(),
        ensures
            r ==> self@.len() == other@.len(),
            T::obeys_eq_spec() ==> (r <==> elementwise_eq(self@, other@)),
    {
        let mut a = self.iter();
        let mut b = other.iter();
        loop
            invariant
                self.wf(),
                other.wf(),
                self.holds(a@),
                other.holds(b@),
                !a.exhausted(),
                !b.exhausted(),
                self.position(a@) == other.position(b@),
                0 <= self.position(a@) <= self@.len(),
                0 <= other.position(b@) <= other@.len(),
                T::obeys_eq_spec() ==> forall|i: int|
                    0 <= i < self.position(a@) ==> #[trigger] self@[i].eq_spec(&other@[i]),
            decreases self@.len() - self.position(a@),
        {
            let x = a.next(self);
            let y = b.next(other);
            match (x, y) {
                (None, None) => {
                    return true;
                },
                (Some(u), Some(v)) => {
                    if !(*u == *v) {
                        return false;
                    }
                },
                _ => {
                    return false;
                },
            }
        }
    }
}

} // verus!

verus! {

impl<T> SLList<T> {
    /// Every cursor of a list stands between its front and its end, and two cursors of the list
    /// at the same position stand on the same link
    pub proof fn lemma_cursor_positions(&self, a: Option<usize>, b: Option<usize>)
        requires
            self.wf(),
            self.holds(a),
            self.holds(b),
        ensures
            0 <= self.position(a) <= self@.len(),
            self.position(a) == self.position(b) ==> a == b,
    {
        lemma_link_value(self.alloc@, self.raw.head@, self.raw.chain@, a);
        lemma_link_value(self.alloc@, self.raw.head@, self.raw.chain@, b);
    }
}

} // verus!

verus! {

impl<T> SLList<T> {
    /// References to the elements, front first: what a walk with [`SLList::iter`] yields
    pub fn elements(&self) -> (r: Vec<&T>)
        requires
            self.wf(),
        ensures
            r@.len() == self@.len(),
            forall|i: int| 0 <= i < self@.len() ==> *#[trigger] r@[i] == self@[i],
    {
        let mut out: Vec<&T> = Vec::new();
        let mut cur = self.iter();
        loop
            invariant
                self.wf(),
                self.holds(cur@),
                !cur.exhausted(),
                out@.len() == self.position(cur@),
                0 <= self.position(cur@) <= self@.len(),
                forall|i: int| 0 <= i < out@.len() ==> *#[trigger] out@[i] == self@[i],
            decreases self@.len() - self.position(cur@),
        {
            match cur.next(self) {
                Some(e) => out.push(e),
                None => {
                    return out;
                },
            }
        }
    }
}

} // verus!
