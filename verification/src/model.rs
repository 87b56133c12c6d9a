//! A model of the ring at rest, and what one call that no other thread
//! disturbs does to it.
//!
//! The lemmas of this file are about the model. The model is built from
//! the spec functions of `probe`, which the step functions that the calls
//! of the queue use are proved to compute. What the atomics hold while the
//! calls run is no part of it.
//!
//! A ring at rest is a sequence of cells, each a pair of a lap counter and
//! an item, and two hints. The calls of the queue are modelled by the same
//! decisions that the queue itself takes at every look. An undisturbed
//! call sees the same cells at every round of the ring, so the model stops
//! after one round where the queue would go on until it gives up. The
//! lemmas here show that these decisions keep a first-in, first-out order
//! from any hints, stale or not.

use crate::components::ItemInner;
use crate::probe::spec_force_step;
use crate::probe::spec_install_count;
use crate::probe::spec_item_at;
use crate::probe::spec_len_from;
use crate::probe::spec_pop_done;
use crate::probe::spec_pop_probe;
use crate::probe::spec_pop_step;
use crate::probe::spec_push_done;
use crate::probe::spec_push_probe;
use crate::probe::spec_push_step;
use crate::probe::ForceStep;
use crate::probe::PopProbe;
use crate::probe::PopStep;
use crate::probe::PushProbe;
use crate::probe::PushStep;
use crate::utils::lemma_gap;
use crate::utils::lemma_prev_of_residue;
use crate::utils::lemma_succ_of_residue;
use crate::utils::spec_comp;
use crate::utils::spec_pred;
use crate::utils::spec_prev;
use crate::utils::spec_succ;
use vstd::prelude::*;

verus! {

/// A ring at rest.
pub struct Ring {
    /// The counter and the item of every cell. The item 0 means that the
    /// cell is empty.
    pub cells: Seq<(u64, u64)>,
    /// The hint for the next cell to fill.
    pub head: int,
    /// The hint for the next cell to take from.
    pub tail: int,
}

/// The index after `i` on a ring of `n` cells.
pub open spec fn next_index(i: int, n: int) -> int {
    (i + 1) % n
}

/// How many cells after the cell `first` the cell `i` stands, going round
/// a ring of `n` cells.
pub open spec fn offset(i: int, first: int, n: int) -> int {
    if i >= first {
        i - first
    } else {
        i + n - first
    }
}

/// What the cell `i` holds in a ring of `n` cells whose oldest item stands
/// in the cell `first`, whose cells from `first` on have been emptied `lap`
/// times modulo `w` and the cells before it once more, and which holds
/// `items`, oldest first.
pub open spec fn cell_of(i: int, n: int, w: int, first: int, lap: int, items: Seq<u64>) -> (
    u64,
    u64,
) {
    let count = if i < first {
        spec_succ(lap, w)
    } else {
        lap
    };
    let off = offset(i, first, n);
    (
        count as u64,
        if off < items.len() {
            items[off]
        } else {
            0u64
        },
    )
}

/// Whether `ring` is a ring of counters modulo `w` that holds `items`,
/// oldest first, with the oldest in the cell `first`. The hints may point
/// at any cell.
pub open spec fn is_ring(ring: Ring, w: int, first: int, lap: int, items: Seq<u64>) -> bool {
    let n = ring.cells.len() as int;
    &&& 1 <= n <= usize::MAX
    &&& 4 <= w <= 0x1_0000_0000_0000_0000
    &&& 0 <= first < n
    &&& 0 <= lap < w
    &&& items.len() <= n
    &&& 0 <= ring.head < n
    &&& 0 <= ring.tail < n
    &&& forall|k: int| 0 <= k < items.len() ==> items[k] != 0
    &&& forall|i: int| 0 <= i < n ==> ring.cells[i] == cell_of(i, n, w, first, lap, items)
}

/// Whether both hints of `ring` point at the true head and the true tail.
pub open spec fn hints_exact(ring: Ring, first: int, items: Seq<u64>) -> bool {
    let n = ring.cells.len() as int;
    &&& ring.tail == first
    &&& ring.head == (first + items.len()) % n
}

/// The ring of `n` empty cells with both hints at 0.
pub open spec fn fresh_ring(n: nat) -> Ring {
    Ring { cells: Seq::new(n, |i: int| (0u64, 0u64)), head: 0, tail: 0 }
}

/// The index after `i` is `i + 1`, or 0 after the last.
pub proof fn lemma_next_index(i: int, n: int)
    requires
        0 <= i < n,
    ensures
        next_index(i, n) == (if i + 1 == n {
            0
        } else {
            i + 1
        }),
        0 <= next_index(i, n) < n,
{
    lemma_succ_of_residue(i, n);
    vstd::arithmetic::div_mod::lemma_small_mod(i as nat, n as nat);
}

/// The index before `i` is `i - 1`, or the last before 0.
pub proof fn lemma_prev_index(i: int, n: int)
    requires
        0 <= i < n,
    ensures
        spec_prev(i, n) == (if i == 0 {
            n - 1
        } else {
            i - 1
        }),
        0 <= spec_prev(i, n) < n,
{
    lemma_prev_of_residue(i, n);
    vstd::arithmetic::div_mod::lemma_small_mod(i as nat, n as nat);
}

/// One step forward and one step back on the counters modulo `w`.
pub proof fn lemma_counter_steps(lap: int, w: int)
    requires
        4 <= w,
        0 <= lap < w,
    ensures
        0 <= spec_succ(lap, w) < w,
        0 <= spec_pred(lap, w) < w,
        spec_succ(lap, w) != lap,
        spec_pred(spec_succ(lap, w), w) == lap,
        spec_succ(spec_pred(lap, w), w) == lap,
        (spec_succ(lap, w) + w - lap) % w == 1,
        (lap + w - spec_succ(lap, w)) % w == w - 1,
{
    let s = spec_succ(lap, w);
    let p = spec_pred(lap, w);
    vstd::arithmetic::div_mod::lemma_small_mod(lap as nat, w as nat);
    lemma_succ_of_residue(lap, w);
    lemma_prev_of_residue(lap, w);
    vstd::arithmetic::div_mod::lemma_small_mod(s as nat, w as nat);
    vstd::arithmetic::div_mod::lemma_small_mod(p as nat, w as nat);
    lemma_prev_of_residue(s, w);
    lemma_succ_of_residue(p, w);
    lemma_gap(lap, s, w);
    lemma_gap(s, lap, w);
}

/// In a ring at rest a consumer that looks at the cell `t` goes on where
/// `t` is not the cell of the oldest item. At that cell it finds the ring
/// empty or takes the item.
pub proof fn lemma_pop_probe_on_ring(
    ring: Ring,
    w: int,
    first: int,
    lap: int,
    items: Seq<u64>,
    t: int,
)
    requires
        is_ring(ring, w, first, lap, items),
        0 <= t < ring.cells.len(),
    ensures
        spec_pop_probe(
            spec_prev(t, ring.cells.len() as int),
            ring.cells[spec_prev(t, ring.cells.len() as int)],
            t,
            ring.cells[t],
            w,
        ) == (if t != first {
            PopProbe::Advance
        } else if items.len() == 0 {
            PopProbe::Empty
        } else {
            PopProbe::Take
        }),
{
    let n = ring.cells.len() as int;
    let p = spec_prev(t, n);
    lemma_prev_index(t, n);
    lemma_counter_steps(lap, w);
    let s = spec_succ(lap, w);
    assert(ring.cells[p] == cell_of(p, n, w, first, lap, items));
    assert(ring.cells[t] == cell_of(t, n, w, first, lap, items));
    if t == first && items.len() > 0 {
        assert(items[0] != 0);
    }
}

/// In a ring at rest a producer that looks at the cell `h` accepts it
/// where it is the first empty cell after the items, finds the ring full
/// at the cell of the oldest item where every cell is filled, and goes on
/// at every other cell.
pub proof fn lemma_push_probe_on_ring(
    ring: Ring,
    w: int,
    first: int,
    lap: int,
    items: Seq<u64>,
    h: int,
)
    requires
        is_ring(ring, w, first, lap, items),
        0 <= h < ring.cells.len(),
    ensures
        spec_push_probe(
            spec_prev(h, ring.cells.len() as int),
            ring.cells[spec_prev(h, ring.cells.len() as int)],
            h,
            ring.cells[h],
            w,
        ) == (if items.len() == ring.cells.len() {
            if h == first {
                PushProbe::Full
            } else {
                PushProbe::Advance
            }
        } else if h == (first + items.len()) % (ring.cells.len() as int) {
            PushProbe::Accept
        } else {
            PushProbe::Advance
        }),
{
    let n = ring.cells.len() as int;
    let p = spec_prev(h, n);
    let len = items.len() as int;
    lemma_prev_index(h, n);
    lemma_counter_steps(lap, w);
    lemma_true_head(first, len, n);
    assert(ring.cells[p] == cell_of(p, n, w, first, lap, items));
    assert(ring.cells[h] == cell_of(h, n, w, first, lap, items));
    let op = offset(p, first, n);
    let oh = offset(h, first, n);
    if op < len {
        assert(items[op] != 0);
    }
    if oh < len {
        assert(items[oh] != 0);
    }
}

/// The true head of a ring: the cell `len` cells after `first`.
pub proof fn lemma_true_head(first: int, len: int, n: int)
    requires
        0 <= first < n,
        0 <= len <= n,
    ensures
        (first + len) % n == (if first + len >= n {
            first + len - n
        } else {
            first + len
        }),
{
    if first + len >= n {
        vstd::arithmetic::div_mod::lemma_fundamental_div_mod_converse(
            first + len,
            n,
            1,
            first + len - n,
        );
    } else {
        vstd::arithmetic::div_mod::lemma_small_mod((first + len) as nat, n as nat);
    }
}

/// In a ring at rest with room, the counter that a producer expects at the
/// true head is the counter that stands there.
pub proof fn lemma_install_count_on_ring(
    ring: Ring,
    w: int,
    first: int,
    lap: int,
    items: Seq<u64>,
)
    requires
        is_ring(ring, w, first, lap, items),
        items.len() < ring.cells.len(),
    ensures
        ({
            let n = ring.cells.len() as int;
            let h = (first + items.len()) % n;
            spec_install_count(ring.cells[spec_prev(h, n)], h, w) == ring.cells[h].0
        }),
{
    let n = ring.cells.len() as int;
    let len = items.len() as int;
    let h = (first + len) % n;
    let p = spec_prev(h, n);
    lemma_true_head(first, len, n);
    lemma_prev_index(h, n);
    lemma_counter_steps(lap, w);
    lemma_counter_steps(spec_succ(lap, w), w);
    assert(ring.cells[p] == cell_of(p, n, w, first, lap, items));
    assert(ring.cells[h] == cell_of(h, n, w, first, lap, items));
    let op = offset(p, first, n);
    if op < len {
        assert(items[op] != 0);
    }
}

/// What a consumer decides that starts at the cell `at` and looks on at
/// most `looks` times: the step of `probe` at the cell where it stops.
pub open spec fn pop_walk(cells: Seq<(u64, u64)>, at: int, w: int, looks: nat) -> PopStep
    decreases looks,
{
    let n = cells.len() as int;
    let p = spec_prev(at, n);
    let step = spec_pop_step(p as usize, cells[p], at as usize, cells[at], n as usize, w);
    match step {
        PopStep::LookAt(next) => if looks == 0 {
            step
        } else {
            pop_walk(cells, next as int, w, (looks - 1) as nat)
        },
        _ => step,
    }
}

/// What a producer with `item` decides that starts at the cell `at` and
/// looks on at most `looks` times: the step of `probe` at the cell where
/// it stops.
pub open spec fn push_walk(
    cells: Seq<(u64, u64)>,
    at: int,
    item: u64,
    w: int,
    looks: nat,
) -> PushStep
    decreases looks,
{
    let n = cells.len() as int;
    let p = spec_prev(at, n);
    let step = spec_push_step(p as usize, cells[p], at as usize, cells[at], item, n as usize, w);
    match step {
        PushStep::LookAt(next) => if looks == 0 {
            step
        } else {
            push_walk(cells, next as int, item, w, (looks - 1) as nat)
        },
        _ => step,
    }
}

/// What a swap that expects `expect` in the cell `at` is answered on cells
/// at rest: what the cell holds, in `Ok` where that is what was expected.
pub open spec fn swap_answer(cells: Seq<(u64, u64)>, at: int, expect: (u64, u64)) -> Result<
    (u64, u64),
    (u64, u64),
> {
    if cells[at] == expect {
        Ok(cells[at])
    } else {
        Err(cells[at])
    }
}

/// What one undisturbed `pop` does to a ring, and what it returns. The
/// consumer walks from the tail hint as `probe::pop_step` says, once round
/// the ring at most. Where it swaps, it does with the answer what
/// `probe::pop_done` says. Where the walk does not end in a swap that
/// succeeds, the ring stays as it is and the call returns `None`.
pub open spec fn spec_pop(ring: Ring, w: int) -> (Ring, Option<u64>) {
    let n = ring.cells.len() as int;
    match pop_walk(ring.cells, ring.tail, w, n as nat) {
        PopStep::Swap { at, expect, install } => match spec_pop_done(
            swap_answer(ring.cells, at as int, expect),
            at,
            n as usize,
        ) {
            Some(out) => (
                Ring {
                    cells: ring.cells.update(at as int, install),
                    head: ring.head,
                    tail: out.1 as int,
                },
                Some(out.0),
            ),
            None => (ring, None),
        },
        _ => (ring, None),
    }
}

/// What one undisturbed `push` of `item` does to a ring, and what it
/// returns. The producer walks from the head hint as `probe::push_step`
/// says, once round the ring at most. Where it swaps, it does with the
/// answer what `probe::push_done` says. Where the walk does not end in a
/// swap that succeeds, the ring stays as it is and the call hands the item
/// back.
pub open spec fn spec_push(ring: Ring, item: u64, w: int) -> (Ring, Result<(), u64>) {
    let n = ring.cells.len() as int;
    match push_walk(ring.cells, ring.head, item, w, n as nat) {
        PushStep::Swap { at, expect, install } => match spec_push_done(
            swap_answer(ring.cells, at as int, expect),
            at,
            n as usize,
        ) {
            Some(publish) => (
                Ring {
                    cells: ring.cells.update(at as int, install),
                    head: publish as int,
                    tail: ring.tail,
                },
                Ok(()),
            ),
            None => (ring, Err(item)),
        },
        _ => (ring, Err(item)),
    }
}

/// What one undisturbed `force_push` of `item` does to a ring, and what it
/// returns: a push, and where `probe::force_step` says so a pop and one
/// more push.
pub open spec fn spec_force_push(ring: Ring, item: u64, w: int) -> (Ring, Option<u64>) {
    let (pushed, outcome) = spec_push(ring, item, w);
    match spec_force_step(outcome, None, 1) {
        ForceStep::Done(out) => (pushed, out),
        ForceStep::Again(turns) => {
            let (popped, taken) = spec_pop(pushed, w);
            let (again, outcome2) = spec_push(popped, item, w);
            match spec_force_step(outcome2, taken, turns) {
                ForceStep::Done(out) => (again, out),
                ForceStep::Again(_) => (again, taken),
            }
        },
    }
}

/// What `len`, `is_empty` and `is_full` read of a ring at rest: both
/// hints, and the cell at the head where they meet.
pub open spec fn spec_observed(ring: Ring) -> Option<(u64, u64)> {
    if ring.head == ring.tail {
        Some(ring.cells[ring.head])
    } else {
        None
    }
}

/// The number of items that `len` reports for a ring at rest.
pub open spec fn spec_len(ring: Ring) -> int {
    spec_len_from(
        ring.head,
        ring.tail,
        spec_item_at(spec_observed(ring)),
        ring.cells.len() as int,
    )
}

/// What `is_empty` reports for a ring at rest.
pub open spec fn spec_is_empty(ring: Ring) -> bool {
    spec_len(ring) == 0
}

/// What `is_full` reports for a ring at rest.
pub open spec fn spec_is_full(ring: Ring) -> bool {
    spec_len(ring) == ring.cells.len()
}

/// A fresh ring holds no item, and its hints are exact.
pub proof fn lemma_fresh_ring(n: nat, w: int)
    requires
        1 <= n <= usize::MAX,
        4 <= w <= 0x1_0000_0000_0000_0000,
    ensures
        is_ring(fresh_ring(n), w, 0, 0, Seq::<u64>::empty()),
        hints_exact(fresh_ring(n), 0, Seq::<u64>::empty()),
{
    vstd::arithmetic::div_mod::lemma_small_mod(0, n);
}

/// From any cell of a ring at rest, a consumer with enough looks stops at
/// the cell of the oldest item.
pub proof fn lemma_pop_walk_on_ring(
    ring: Ring,
    w: int,
    first: int,
    lap: int,
    items: Seq<u64>,
    at: int,
    looks: nat,
)
    requires
        is_ring(ring, w, first, lap, items),
        0 <= at < ring.cells.len(),
        looks >= offset(first, at, ring.cells.len() as int),
    ensures
        pop_walk(ring.cells, at, w, looks) == (if items.len() == 0 {
            PopStep::Nothing
        } else {
            PopStep::Swap {
                at: first as usize,
                expect: ring.cells[first],
                install: (spec_succ(ring.cells[first].0 as int, w) as u64, 0u64),
            }
        }),
    decreases looks,
{
    let n = ring.cells.len() as int;
    lemma_pop_probe_on_ring(ring, w, first, lap, items, at);
    lemma_prev_index(at, n);
    lemma_next_index(at, n);
    if at != first {
        lemma_pop_walk_on_ring(ring, w, first, lap, items, next_index(at, n), (looks - 1) as nat);
    } else if items.len() > 0 {
        assert(ring.cells[first] == cell_of(first, n, w, first, lap, items));
        assert(items[0] != 0);
    }
}

/// The cell at which a producer stops in a ring at rest: the cell of the
/// oldest item where the ring is full, the first empty cell after the
/// items where it is not.
pub open spec fn push_stop(first: int, len: int, n: int) -> int {
    if len == n {
        first
    } else {
        (first + len) % n
    }
}

/// From any cell of a ring at rest, a producer with enough looks stops at
/// the true head, or finds the ring full.
pub proof fn lemma_push_walk_on_ring(
    ring: Ring,
    w: int,
    first: int,
    lap: int,
    items: Seq<u64>,
    item: u64,
    at: int,
    looks: nat,
)
    requires
        is_ring(ring, w, first, lap, items),
        0 <= at < ring.cells.len(),
        looks >= offset(
            push_stop(first, items.len() as int, ring.cells.len() as int),
            at,
            ring.cells.len() as int,
        ),
    ensures
        push_walk(ring.cells, at, item, w, looks) == (if items.len() == ring.cells.len() {
            PushStep::GiveBack
        } else {
            let stop = push_stop(first, items.len() as int, ring.cells.len() as int);
            PushStep::Swap {
                at: stop as usize,
                expect: (ring.cells[stop].0, 0u64),
                install: (ring.cells[stop].0, item),
            }
        }),
    decreases looks,
{
    let n = ring.cells.len() as int;
    let stop = push_stop(first, items.len() as int, n);
    lemma_true_head(first, items.len() as int, n);
    lemma_push_probe_on_ring(ring, w, first, lap, items, at);
    lemma_prev_index(at, n);
    lemma_next_index(at, n);
    if at != stop {
        lemma_push_walk_on_ring(
            ring,
            w,
            first,
            lap,
            items,
            item,
            next_index(at, n),
            (looks - 1) as nat,
        );
    } else if items.len() < n {
        lemma_install_count_on_ring(ring, w, first, lap, items);
    }
}

/// The cell of the oldest item after one item has been taken.
pub open spec fn first_after_pop(first: int, n: int) -> int {
    next_index(first, n)
}

/// The lap of the ring after one item has been taken from the cell
/// `first`: the next lap once the last cell has been emptied.
pub open spec fn lap_after_pop(first: int, lap: int, n: int, w: int) -> int {
    if first + 1 == n {
        spec_succ(lap, w)
    } else {
        lap
    }
}

/// An undisturbed `pop` on a ring at rest returns `None` exactly where the
/// ring holds no item, and leaves the ring as it is. Else it returns the
/// oldest item and leaves a ring that holds the other items in their
/// order, with the tail hint at the new oldest item. This holds from any
/// tail hint.
pub proof fn lemma_pop(ring: Ring, w: int, first: int, lap: int, items: Seq<u64>)
    requires
        is_ring(ring, w, first, lap, items),
    ensures
        spec_pop(ring, w).0.cells.len() == ring.cells.len(),
        items.len() == 0 ==> spec_pop(ring, w) == (ring, None::<u64>),
        items.len() > 0 ==> {
            let n = ring.cells.len() as int;
            let after = spec_pop(ring, w).0;
            &&& spec_pop(ring, w).1 == Some(items[0])
            &&& is_ring(
                after,
                w,
                first_after_pop(first, n),
                lap_after_pop(first, lap, n, w),
                items.drop_first(),
            )
            &&& after.tail == first_after_pop(first, n)
            &&& after.head == ring.head
            &&& hints_exact(ring, first, items) ==> hints_exact(
                after,
                first_after_pop(first, n),
                items.drop_first(),
            )
        },
{
    let n = ring.cells.len() as int;
    lemma_pop_walk_on_ring(ring, w, first, lap, items, ring.tail, n as nat);
    if items.len() > 0 {
        let after = spec_pop(ring, w).0;
        let first2 = first_after_pop(first, n);
        let lap2 = lap_after_pop(first, lap, n, w);
        let items2 = items.drop_first();
        lemma_next_index(first, n);
        lemma_counter_steps(lap, w);
        lemma_true_head(first, items.len() as int, n);
        lemma_true_head(first2, items2.len() as int, n);
        assert(ring.cells[first] == cell_of(first, n, w, first, lap, items));
        assert(after.cells.len() == n);
        assert forall|k: int| 0 <= k < items2.len() implies items2[k] != 0 by {
            assert(items2[k] == items[k + 1]);
        }
        assert forall|i: int| 0 <= i < n implies after.cells[i] == cell_of(
            i,
            n,
            w,
            first2,
            lap2,
            items2,
        ) by {
            assert(ring.cells[i] == cell_of(i, n, w, first, lap, items));
            let off2 = offset(i, first2, n);
            if i != first && off2 < items2.len() {
                assert(items2[off2] == items[off2 + 1]);
            }
        }
    }
}

/// An undisturbed `push` on a ring at rest hands the item back exactly
/// where the ring holds as many items as it has cells, and leaves the ring
/// as it is. Else it returns `Ok` and leaves a ring that holds the item
/// behind the others, with the head hint at the new true head. This holds
/// from any head hint.
pub proof fn lemma_push(ring: Ring, w: int, first: int, lap: int, items: Seq<u64>, item: u64)
    requires
        is_ring(ring, w, first, lap, items),
        item != 0,
    ensures
        spec_push(ring, item, w).0.cells.len() == ring.cells.len(),
        items.len() == ring.cells.len() ==> spec_push(ring, item, w) == (ring, Err::<(), u64>(item)),
        items.len() < ring.cells.len() ==> {
            let n = ring.cells.len() as int;
            let after = spec_push(ring, item, w).0;
            &&& spec_push(ring, item, w).1 == Ok::<(), u64>(())
            &&& is_ring(after, w, first, lap, items.push(item))
            &&& after.head == (first + items.len() + 1) % n
            &&& after.tail == ring.tail
            &&& hints_exact(ring, first, items) ==> hints_exact(after, first, items.push(item))
        },
{
    let n = ring.cells.len() as int;
    let len = items.len() as int;
    lemma_push_walk_on_ring(ring, w, first, lap, items, item, ring.head, n as nat);
    lemma_true_head(first, len, n);
    if len < n {
        let h = (first + len) % n;
        let after = spec_push(ring, item, w).0;
        let items2 = items.push(item);
        lemma_install_count_on_ring(ring, w, first, lap, items);
        lemma_next_index(h, n);
        lemma_true_head(first, len + 1, n);
        assert(ring.cells[h] == cell_of(h, n, w, first, lap, items));
        assert(after.cells.len() == n);
        assert forall|k: int| 0 <= k < items2.len() implies items2[k] != 0 by {
            if k < len {
                assert(items2[k] == items[k]);
            }
        }
        assert forall|i: int| 0 <= i < n implies after.cells[i] == cell_of(
            i,
            n,
            w,
            first,
            lap,
            items2,
        ) by {
            assert(ring.cells[i] == cell_of(i, n, w, first, lap, items));
            let off = offset(i, first, n);
            if off < len {
                assert(items2[off] == items[off]);
            }
        }
    }
}

/// An undisturbed `force_push` on a ring at rest with room puts the item
/// behind the others and returns `None`. On a full ring it returns the
/// oldest item and leaves a ring that holds the other items and then the
/// new one.
pub proof fn lemma_force_push(
    ring: Ring,
    w: int,
    first: int,
    lap: int,
    items: Seq<u64>,
    item: u64,
)
    requires
        is_ring(ring, w, first, lap, items),
        item != 0,
    ensures
        spec_force_push(ring, item, w).0.cells.len() == ring.cells.len(),
        items.len() < ring.cells.len() ==> {
            let after = spec_force_push(ring, item, w).0;
            &&& spec_force_push(ring, item, w).1 == None::<u64>
            &&& is_ring(after, w, first, lap, items.push(item))
            &&& hints_exact(ring, first, items) ==> hints_exact(after, first, items.push(item))
        },
        items.len() == ring.cells.len() ==> {
            let n = ring.cells.len() as int;
            let after = spec_force_push(ring, item, w).0;
            let first2 = first_after_pop(first, n);
            &&& spec_force_push(ring, item, w).1 == Some(items[0])
            &&& is_ring(
                after,
                w,
                first2,
                lap_after_pop(first, lap, n, w),
                items.drop_first().push(item),
            )
            &&& hints_exact(ring, first, items) ==> hints_exact(
                after,
                first2,
                items.drop_first().push(item),
            )
        },
{
    let n = ring.cells.len() as int;
    lemma_push(ring, w, first, lap, items, item);
    if items.len() == n {
        lemma_pop(ring, w, first, lap, items);
        let popped = spec_pop(ring, w).0;
        lemma_push(
            popped,
            w,
            first_after_pop(first, n),
            lap_after_pop(first, lap, n, w),
            items.drop_first(),
            item,
        );
    }
}

/// In the model of a ring at rest with exact hints, `len` reports the
/// number of items, `is_empty` reports whether there is none, and
/// `is_full` whether there are as many as the ring has cells.
pub proof fn lemma_len(ring: Ring, w: int, first: int, lap: int, items: Seq<u64>)
    requires
        is_ring(ring, w, first, lap, items),
        hints_exact(ring, first, items),
    ensures
        spec_len(ring) == items.len(),
        0 <= spec_len(ring) <= ring.cells.len(),
        spec_is_empty(ring) == (items.len() == 0),
        spec_is_full(ring) == (items.len() == ring.cells.len()),
{
    let n = ring.cells.len() as int;
    lemma_true_head(first, items.len() as int, n);
    assert(ring.cells[ring.head] == cell_of(ring.head, n, w, first, lap, items));
    if items.len() == n {
        assert(items[0] != 0);
    }
}

/// In the model, a fresh ring reports no item, is empty and not full, and
/// an undisturbed `pop` on it returns `None` and leaves it as it is.
pub proof fn lemma_fresh_answers(n: nat, w: int)
    requires
        1 <= n <= usize::MAX,
        4 <= w <= 0x1_0000_0000_0000_0000,
    ensures
        spec_len(fresh_ring(n)) == 0,
        spec_is_empty(fresh_ring(n)),
        !spec_is_full(fresh_ring(n)),
        spec_pop(fresh_ring(n), w) == (fresh_ring(n), None::<u64>),
{
    lemma_fresh_ring(n, w);
    lemma_len(fresh_ring(n), w, 0, 0, Seq::<u64>::empty());
    lemma_pop(fresh_ring(n), w, 0, 0, Seq::<u64>::empty());
}

/// The ring after the items of `items` have been pushed one after the
/// other.
pub open spec fn fill(ring: Ring, items: Seq<u64>, w: int) -> Ring
    decreases items.len(),
{
    if items.len() == 0 {
        ring
    } else {
        spec_push(fill(ring, items.drop_last(), w), items.last(), w).0
    }
}

/// The ring after `k` pops, and the items that they returned, in the order
/// of the calls.
pub open spec fn drain(ring: Ring, k: nat, w: int) -> (Ring, Seq<u64>)
    decreases k,
{
    if k == 0 {
        (ring, Seq::<u64>::empty())
    } else {
        let (before, taken) = drain(ring, (k - 1) as nat, w);
        let (after, out) = spec_pop(before, w);
        (
            after,
            match out {
                Some(item) => taken.push(item),
                None => taken,
            },
        )
    }
}

/// Pushing items into a ring at rest that has room for all of them leaves
/// a ring that holds them behind the items it held.
pub proof fn lemma_fill(
    ring: Ring,
    w: int,
    first: int,
    lap: int,
    held: Seq<u64>,
    items: Seq<u64>,
)
    requires
        is_ring(ring, w, first, lap, held),
        held.len() + items.len() <= ring.cells.len(),
        forall|k: int| 0 <= k < items.len() ==> items[k] != 0,
    ensures
        is_ring(fill(ring, items, w), w, first, lap, held + items),
        fill(ring, items, w).cells.len() == ring.cells.len(),
        hints_exact(ring, first, held) ==> hints_exact(fill(ring, items, w), first, held + items),
    decreases items.len(),
{
    if items.len() == 0 {
        assert(held + items =~= held);
    } else {
        let front = items.drop_last();
        lemma_fill(ring, w, first, lap, held, front);
        lemma_push(fill(ring, front, w), w, first, lap, held + front, items.last());
        assert((held + front).push(items.last()) =~= held + items);
    }
}

/// Popping `k` times from a ring at rest that holds at least `k` items
/// returns its `k` oldest items, oldest first, and leaves a ring that holds
/// the others. The result names the cell of the oldest item left and the
/// lap of that ring.
pub proof fn lemma_drain(ring: Ring, w: int, first: int, lap: int, items: Seq<u64>, k: nat) -> (rest:
    (int, int))
    requires
        is_ring(ring, w, first, lap, items),
        k <= items.len(),
    ensures
        drain(ring, k, w).1 == items.subrange(0, k as int),
        is_ring(drain(ring, k, w).0, w, rest.0, rest.1, items.subrange(k as int, items.len() as int)),
        drain(ring, k, w).0.cells.len() == ring.cells.len(),
    decreases k,
{
    if k == 0 {
        assert(items.subrange(0, 0) =~= Seq::<u64>::empty());
        assert(items.subrange(0, items.len() as int) =~= items);
        (first, lap)
    } else {
        let n = ring.cells.len() as int;
        let j = (k - 1) as nat;
        let mid = lemma_drain(ring, w, first, lap, items, j);
        let left = items.subrange(j as int, items.len() as int);
        let (before, taken) = drain(ring, j, w);
        lemma_pop(before, w, mid.0, mid.1, left);
        assert(left[0] == items[j as int]);
        assert(items.subrange(0, j as int).push(items[j as int]) =~= items.subrange(0, k as int));
        assert(left.drop_first() =~= items.subrange(k as int, items.len() as int));
        (first_after_pop(mid.0, n), lap_after_pop(mid.0, mid.1, n, w))
    }
}

/// Popping at least as often as a ring at rest holds items returns all its
/// items, oldest first, and leaves an empty ring: this is what taking the
/// queue apart returns. The result names the cell of the oldest item and
/// the lap of the ring that is left.
pub proof fn lemma_drain_all(
    ring: Ring,
    w: int,
    first: int,
    lap: int,
    items: Seq<u64>,
    k: nat,
) -> (rest: (int, int))
    requires
        is_ring(ring, w, first, lap, items),
        k >= items.len(),
    ensures
        drain(ring, k, w).1 == items,
        is_ring(drain(ring, k, w).0, w, rest.0, rest.1, Seq::<u64>::empty()),
        drain(ring, k, w).0.cells.len() == ring.cells.len(),
    decreases k,
{
    if k == items.len() {
        let rest = lemma_drain(ring, w, first, lap, items, k);
        assert(items.subrange(0, k as int) =~= items);
        assert(items.subrange(k as int, items.len() as int) =~= Seq::<u64>::empty());
        rest
    } else {
        let j = (k - 1) as nat;
        let rest = lemma_drain_all(ring, w, first, lap, items, j);
        lemma_pop(drain(ring, j, w).0, w, rest.0, rest.1, Seq::<u64>::empty());
        rest
    }
}

/// As many pushes as a fresh ring has cells, and then as many pops, return
/// the items in the order in which they were pushed, whatever the kind of
/// cell.
pub proof fn lemma_round_trip<I: ItemInner>(items: Seq<u64>)
    requires
        1 <= items.len() <= usize::MAX,
        forall|k: int| 0 <= k < items.len() ==> items[k] != 0,
    ensures
        drain(
            fill(fresh_ring(items.len()), items, I::spec_max_w()),
            items.len(),
            I::spec_max_w(),
        ).1 == items,
{
    let n = items.len();
    let w = I::spec_max_w();
    I::lemma_max_w();
    lemma_fresh_ring(n, w);
    lemma_fill(fresh_ring(n), w, 0, 0, Seq::<u64>::empty(), items);
    assert(Seq::<u64>::empty() + items =~= items);
    let rest = lemma_drain(fill(fresh_ring(n), items, w), w, 0, 0, items, n);
    assert(items.subrange(0, n as int) =~= items);
}

/// One call of the queue.
pub enum Call {
    /// `push` of an item.
    Push(u64),
    /// `pop`.
    Pop,
    /// `force_push` of an item.
    ForcePush(u64),
}

/// What a run of calls has made of a ring.
pub struct Trace {
    /// The ring after the calls.
    pub ring: Ring,
    /// The items that went in, in the order of the calls.
    pub entered: Seq<u64>,
    /// The items that came out, in the order of the calls.
    pub left: Seq<u64>,
}

/// `left` with the item of `out` behind it, if there is one.
pub open spec fn with_taken(left: Seq<u64>, out: Option<u64>) -> Seq<u64> {
    match out {
        Some(item) => left.push(item),
        None => left,
    }
}

/// The trace `so_far` after one more undisturbed call.
pub open spec fn step(so_far: Trace, call: Call, w: int) -> Trace {
    match call {
        Call::Push(item) => {
            let (after, outcome) = spec_push(so_far.ring, item, w);
            Trace {
                ring: after,
                entered: if outcome is Ok {
                    so_far.entered.push(item)
                } else {
                    so_far.entered
                },
                left: so_far.left,
            }
        },
        Call::Pop => {
            let (after, out) = spec_pop(so_far.ring, w);
            Trace { ring: after, entered: so_far.entered, left: with_taken(so_far.left, out) }
        },
        Call::ForcePush(item) => {
            let (after, out) = spec_force_push(so_far.ring, item, w);
            Trace {
                ring: after,
                entered: so_far.entered.push(item),
                left: with_taken(so_far.left, out),
            }
        },
    }
}

/// The trace of the calls of `calls`, made one after the other and each
/// undisturbed, on `ring`.
pub open spec fn run(ring: Ring, calls: Seq<Call>, w: int) -> Trace
    decreases calls.len(),
{
    if calls.len() == 0 {
        Trace { ring, entered: Seq::<u64>::empty(), left: Seq::<u64>::empty() }
    } else {
        step(run(ring, calls.drop_last(), w), calls.last(), w)
    }
}

/// Whether `call` pushes no item 0.
pub open spec fn call_allowed(call: Call) -> bool {
    match call {
        Call::Push(item) => item != 0,
        Call::Pop => true,
        Call::ForcePush(item) => item != 0,
    }
}

/// Whether no call of `calls` pushes the item 0.
pub open spec fn calls_allowed(calls: Seq<Call>) -> bool {
    forall|k: int| 0 <= k < calls.len() ==> call_allowed(#[trigger] calls[k])
}

/// Whether the items `base`, followed by those that went in, are the
/// items that came out, followed by `held`.
pub open spec fn balanced(base: Seq<u64>, so_far: Trace, held: Seq<u64>) -> bool {
    base + so_far.entered == so_far.left + held
}

/// One more undisturbed `push` keeps a trace balanced.
pub proof fn lemma_step_push(
    so_far: Trace,
    w: int,
    first: int,
    lap: int,
    held: Seq<u64>,
    base: Seq<u64>,
    item: u64,
) -> (rest: (int, int, Seq<u64>))
    requires
        is_ring(so_far.ring, w, first, lap, held),
        balanced(base, so_far, held),
        item != 0,
    ensures
        is_ring(step(so_far, Call::Push(item), w).ring, w, rest.0, rest.1, rest.2),
        step(so_far, Call::Push(item), w).ring.cells.len() == so_far.ring.cells.len(),
        balanced(base, step(so_far, Call::Push(item), w), rest.2),
        hints_exact(so_far.ring, first, held) ==> hints_exact(
            step(so_far, Call::Push(item), w).ring,
            rest.0,
            rest.2,
        ),
{
    let n = so_far.ring.cells.len() as int;
    lemma_push(so_far.ring, w, first, lap, held, item);
    if held.len() < n {
        assert(base + so_far.entered.push(item) =~= (base + so_far.entered).push(item));
        assert((so_far.left + held).push(item) =~= so_far.left + held.push(item));
        (first, lap, held.push(item))
    } else {
        (first, lap, held)
    }
}

/// One more undisturbed `pop` keeps a trace balanced.
pub proof fn lemma_step_pop(
    so_far: Trace,
    w: int,
    first: int,
    lap: int,
    held: Seq<u64>,
    base: Seq<u64>,
) -> (rest: (int, int, Seq<u64>))
    requires
        is_ring(so_far.ring, w, first, lap, held),
        balanced(base, so_far, held),
    ensures
        is_ring(step(so_far, Call::Pop, w).ring, w, rest.0, rest.1, rest.2),
        step(so_far, Call::Pop, w).ring.cells.len() == so_far.ring.cells.len(),
        balanced(base, step(so_far, Call::Pop, w), rest.2),
        hints_exact(so_far.ring, first, held) ==> hints_exact(
            step(so_far, Call::Pop, w).ring,
            rest.0,
            rest.2,
        ),
{
    let n = so_far.ring.cells.len() as int;
    lemma_pop(so_far.ring, w, first, lap, held);
    if held.len() > 0 {
        assert(so_far.left.push(held[0]) + held.drop_first() =~= so_far.left + held);
        (first_after_pop(first, n), lap_after_pop(first, lap, n, w), held.drop_first())
    } else {
        (first, lap, held)
    }
}

/// One more undisturbed `force_push` keeps a trace balanced.
pub proof fn lemma_step_force_push(
    so_far: Trace,
    w: int,
    first: int,
    lap: int,
    held: Seq<u64>,
    base: Seq<u64>,
    item: u64,
) -> (rest: (int, int, Seq<u64>))
    requires
        is_ring(so_far.ring, w, first, lap, held),
        balanced(base, so_far, held),
        item != 0,
    ensures
        is_ring(step(so_far, Call::ForcePush(item), w).ring, w, rest.0, rest.1, rest.2),
        step(so_far, Call::ForcePush(item), w).ring.cells.len() == so_far.ring.cells.len(),
        balanced(base, step(so_far, Call::ForcePush(item), w), rest.2),
        hints_exact(so_far.ring, first, held) ==> hints_exact(
            step(so_far, Call::ForcePush(item), w).ring,
            rest.0,
            rest.2,
        ),
{
    let n = so_far.ring.cells.len() as int;
    lemma_force_push(so_far.ring, w, first, lap, held, item);
    assert(base + so_far.entered.push(item) =~= (base + so_far.entered).push(item));
    if held.len() < n {
        assert((so_far.left + held).push(item) =~= so_far.left + held.push(item));
        (first, lap, held.push(item))
    } else {
        assert((so_far.left + held).push(item) =~= so_far.left.push(held[0])
            + held.drop_first().push(item));
        (
            first_after_pop(first, n),
            lap_after_pop(first, lap, n, w),
            held.drop_first().push(item),
        )
    }
}

/// Any run of undisturbed calls on a ring at rest leaves a ring at rest,
/// and the items that the ring held followed by those that went in are the
/// items that came out followed by those that the ring holds now. The
/// result names the cell of the oldest item, the lap and the items of the
/// ring after the run.
pub proof fn lemma_run(
    ring: Ring,
    w: int,
    first: int,
    lap: int,
    items: Seq<u64>,
    calls: Seq<Call>,
) -> (rest: (int, int, Seq<u64>))
    requires
        is_ring(ring, w, first, lap, items),
        calls_allowed(calls),
    ensures
        is_ring(run(ring, calls, w).ring, w, rest.0, rest.1, rest.2),
        run(ring, calls, w).ring.cells.len() == ring.cells.len(),
        balanced(items, run(ring, calls, w), rest.2),
        hints_exact(ring, first, items) ==> hints_exact(run(ring, calls, w).ring, rest.0, rest.2),
    decreases calls.len(),
{
    if calls.len() == 0 {
        assert(items + Seq::<u64>::empty() =~= Seq::<u64>::empty() + items);
        (first, lap, items)
    } else {
        let front = calls.drop_last();
        assert forall|k: int| 0 <= k < front.len() implies call_allowed(#[trigger] front[k]) by {
            assert(front[k] == calls[k]);
        }
        let mid = lemma_run(ring, w, first, lap, items, front);
        let so_far = run(ring, front, w);
        assert(call_allowed(calls[calls.len() - 1]));
        match calls.last() {
            Call::Push(item) => lemma_step_push(so_far, w, mid.0, mid.1, mid.2, items, item),
            Call::Pop => lemma_step_pop(so_far, w, mid.0, mid.1, mid.2, items),
            Call::ForcePush(item) => lemma_step_force_push(
                so_far,
                w,
                mid.0,
                mid.1,
                mid.2,
                items,
                item,
            ),
        }
    }
}

/// First in, first out, whatever the kind of cell: in any run of
/// undisturbed calls on a fresh ring, the items that came out are the first
/// of the items that went in, in the same order, and no more items are
/// inside than the ring has cells. Every item that came out went in, as
/// often at least as it came out. The number that `len` reports is the
/// number of items inside.
pub proof fn lemma_fifo<I: ItemInner>(n: nat, calls: Seq<Call>)
    requires
        1 <= n <= usize::MAX,
        calls_allowed(calls),
    ensures
        ({
            let trace = run(fresh_ring(n), calls, I::spec_max_w());
            &&& trace.left.is_prefix_of(trace.entered)
            &&& trace.entered.len() - trace.left.len() <= n
            &&& trace.left.to_multiset().subset_of(trace.entered.to_multiset())
            &&& 0 <= spec_len(trace.ring) <= n
            &&& spec_len(trace.ring) == trace.entered.len() - trace.left.len()
        }),
{
    let w = I::spec_max_w();
    I::lemma_max_w();
    lemma_fresh_ring(n, w);
    let rest = lemma_run(fresh_ring(n), w, 0, 0, Seq::<u64>::empty(), calls);
    let trace = run(fresh_ring(n), calls, w);
    assert(Seq::<u64>::empty() + trace.entered =~= trace.entered);
    assert(trace.entered == trace.left + rest.2);
    assert(rest.2.len() <= n);
    assert(trace.entered.subrange(0, trace.left.len() as int) =~= trace.left);
    vstd::seq_lib::lemma_multiset_commutative(trace.left, rest.2);
    lemma_len(trace.ring, w, rest.0, rest.1, rest.2);
}

} // verus!
