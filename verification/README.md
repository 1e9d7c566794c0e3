# gronly

Grow-only containers, with every operation proved against its contract by Verus.

* `src/arena.rs`: the slot arena that nodes are allocated from; released slots are reused
  before the arena grows.
* `src/owned.rs`: handles owning an arena slot, and links that are null or point at one.
* `src/sllist.rs`: a singly-linked list with cursors. Inserting through a cursor never moves
  or removes a node already in the list, so every other cursor keeps its place; removal goes
  through `CursorMut` and `SLList::pop`.
* `src/boxed.rs`: a single value stored in an arena slot.
* `src/laws.rs`: properties that span several list and arena operations.
* `src/args.rs`: the arguments of the `modeled_test` / `unmodeled_test` test attributes,
  read from a list of meta items, with every problem reported in item order.
* `src/render.rs`: the test functions those attributes generate for the native, loom and
  shuttle builds.
* `src/counter.rs`: a counter incremented through a standard atomic.
* `app/`: conversion between token streams and the library's values for the test attributes,
  and the `AtomicCompat` shims over the standard atomics.

Cursors do not borrow the list: each operation takes the list it belongs to. Every operation
that changes the list (cursor inserts and removal, `push`, `pop` and their variants) states
which cursors stay valid and where they stand afterwards, and which arena slots it made live or
released. A cursor's `next` is fused: once it has returned `None` it keeps doing so.
