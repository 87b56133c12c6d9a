//! A model of the cells under any interleaving of compare-and-swaps, and
//! what holds of it.
//!
//! The swaps of the model are the two that `probe::push_step` and
//! `probe::pop_step` hand to the cells: a producer swaps an empty cell for
//! the same cell with its item, and a consumer swaps a filled cell for an
//! empty cell with another counter. The model takes each swap as one
//! atomic step on a sequence of cells, whatever the threads read and
//! decide in between. The lemmas here are about sequences of such swaps:
//! none makes an item twice or out of nothing. They say nothing of the
//! atomics themselves.

use vstd::multiset::Multiset;
use vstd::prelude::*;

verus! {

/// One compare-and-swap on the cell `at`.
pub enum Swap {
    /// A producer that expects the cell empty with the counter `count`
    /// puts `item` into it.
    Fill { at: int, count: u64, item: u64 },
    /// A consumer that expects the cell as it has `seen` it empties it and
    /// gives it the counter `next`.
    Take { at: int, seen: (u64, u64), next: u64 },
}

/// Whether `swap` is one that the queue makes on `n` cells: it is at one
/// of the cells, a producer puts in an item that is not 0, and a consumer
/// expects a cell that holds an item.
pub open spec fn swap_allowed(swap: Swap, n: int) -> bool {
    match swap {
        Swap::Fill { at, count, item } => 0 <= at < n && item != 0,
        Swap::Take { at, seen, next } => 0 <= at < n && seen.1 != 0,
    }
}

/// Whether `swap` finds in `cells` what it expects, and so changes them.
pub open spec fn swap_succeeds(cells: Seq<(u64, u64)>, swap: Swap) -> bool {
    match swap {
        Swap::Fill { at, count, item } => cells[at] == (count, 0u64),
        Swap::Take { at, seen, next } => cells[at] == seen,
    }
}

/// The cells after `swap`.
pub open spec fn after_swap(cells: Seq<(u64, u64)>, swap: Swap) -> Seq<(u64, u64)> {
    if swap_succeeds(cells, swap) {
        match swap {
            Swap::Fill { at, count, item } => cells.update(at, (count, item)),
            Swap::Take { at, seen, next } => cells.update(at, (next, 0u64)),
        }
    } else {
        cells
    }
}

/// `items` and one more `item`, unless `item` is 0, which is no item.
pub open spec fn with_item(items: Multiset<u64>, item: u64) -> Multiset<u64> {
    if item != 0 {
        items.insert(item)
    } else {
        items
    }
}

/// The items in the cells, each as often as a cell holds it.
pub open spec fn inside(cells: Seq<(u64, u64)>) -> Multiset<u64>
    decreases cells.len(),
{
    if cells.len() == 0 {
        Multiset::empty()
    } else {
        with_item(inside(cells.drop_last()), cells.last().1)
    }
}

/// The items that producers have put in, and the items that consumers have
/// got out, each as often as that happened.
pub struct Tally {
    /// The items of the swaps of producers that have succeeded.
    pub entered: Multiset<u64>,
    /// The items of the swaps of consumers that have succeeded.
    pub left: Multiset<u64>,
}

/// The tally `so_far` after `swap` on `cells`.
pub open spec fn tally_swap(so_far: Tally, cells: Seq<(u64, u64)>, swap: Swap) -> Tally {
    if swap_succeeds(cells, swap) {
        match swap {
            Swap::Fill { at, count, item } => Tally {
                entered: so_far.entered.insert(item),
                left: so_far.left,
            },
            Swap::Take { at, seen, next } => Tally {
                entered: so_far.entered,
                left: so_far.left.insert(seen.1),
            },
        }
    } else {
        so_far
    }
}

/// The cells after the swaps of `swaps`, one after the other.
pub open spec fn cells_after(cells: Seq<(u64, u64)>, swaps: Seq<Swap>) -> Seq<(u64, u64)>
    decreases swaps.len(),
{
    if swaps.len() == 0 {
        cells
    } else {
        after_swap(cells_after(cells, swaps.drop_last()), swaps.last())
    }
}

/// The tally of the swaps of `swaps`, made one after the other on `cells`.
pub open spec fn tally_after(cells: Seq<(u64, u64)>, swaps: Seq<Swap>) -> Tally
    decreases swaps.len(),
{
    if swaps.len() == 0 {
        Tally { entered: Multiset::empty(), left: Multiset::empty() }
    } else {
        tally_swap(
            tally_after(cells, swaps.drop_last()),
            cells_after(cells, swaps.drop_last()),
            swaps.last(),
        )
    }
}

/// Whether every swap of `swaps` is one that the queue makes on `n` cells.
pub open spec fn swaps_allowed(swaps: Seq<Swap>, n: int) -> bool {
    forall|k: int| 0 <= k < swaps.len() ==> swap_allowed(#[trigger] swaps[k], n)
}

/// Empty cells hold no item.
pub proof fn lemma_inside_fresh(n: nat)
    ensures
        inside(Seq::new(n, |i: int| (0u64, 0u64))) == Multiset::<u64>::empty(),
    decreases n,
{
    let cells = Seq::new(n, |i: int| (0u64, 0u64));
    if n > 0 {
        lemma_inside_fresh((n - 1) as nat);
        assert(cells.drop_last() =~= Seq::new((n - 1) as nat, |i: int| (0u64, 0u64)));
    }
}

/// Writing `cell` into the cell `at` takes the item that stood there out
/// of the cells and puts the item of `cell` in.
pub proof fn lemma_inside_update(cells: Seq<(u64, u64)>, at: int, cell: (u64, u64))
    requires
        0 <= at < cells.len(),
    ensures
        with_item(inside(cells.update(at, cell)), cells[at].1) == with_item(inside(cells), cell.1),
    decreases cells.len(),
{
    let changed = cells.update(at, cell);
    let front = cells.drop_last();
    if at == cells.len() - 1 {
        assert(changed.drop_last() =~= front);
        assert(with_item(with_item(inside(front), cell.1), cells[at].1) =~= with_item(
            with_item(inside(front), cells[at].1),
            cell.1,
        ));
    } else {
        lemma_inside_update(front, at, cell);
        assert(changed.drop_last() =~= front.update(at, cell));
        assert(changed.last() == cells.last());
        let last = cells.last().1;
        assert(with_item(with_item(inside(front.update(at, cell)), last), cells[at].1)
            =~= with_item(with_item(inside(front.update(at, cell)), cells[at].1), last));
        assert(with_item(with_item(inside(front), last), cell.1) =~= with_item(
            with_item(inside(front), cell.1),
            last,
        ));
    }
}

/// One swap keeps the items in balance: the items that stood in the cells
/// before it and the item that it puts in are the items that stand there
/// after it and the item that it gets out.
pub proof fn lemma_swap_balance(cells: Seq<(u64, u64)>, so_far: Tally, swap: Swap)
    requires
        swap_allowed(swap, cells.len() as int),
    ensures
        after_swap(cells, swap).len() == cells.len(),
        inside(cells).add(tally_swap(so_far, cells, swap).entered).add(so_far.left) == inside(
            after_swap(cells, swap),
        ).add(tally_swap(so_far, cells, swap).left).add(so_far.entered),
{
    let now = tally_swap(so_far, cells, swap);
    let changed = after_swap(cells, swap);
    if swap_succeeds(cells, swap) {
        match swap {
            Swap::Fill { at, count, item } => {
                lemma_inside_update(cells, at, (count, item));
                assert(inside(changed) == inside(cells).insert(item));
                assert(inside(cells).add(so_far.entered.insert(item)).add(so_far.left)
                    =~= inside(cells).insert(item).add(so_far.left).add(so_far.entered));
            },
            Swap::Take { at, seen, next } => {
                lemma_inside_update(cells, at, (next, 0u64));
                assert(with_item(inside(changed), seen.1) == inside(cells));
                assert(inside(cells).add(so_far.entered).add(so_far.left) =~= inside(changed).add(
                    so_far.left.insert(seen.1),
                ).add(so_far.entered));
            },
        }
    } else {
        assert(inside(cells).add(so_far.entered).add(so_far.left) =~= inside(cells).add(
            so_far.left,
        ).add(so_far.entered));
    }
}

/// In the model, however the swaps of any number of producers and
/// consumers interleave, the items that stood in the cells at the start
/// and the items that were put in are the items that were got out and the
/// items that stand in the cells at the end, each as often on both sides.
pub proof fn lemma_conservation(cells: Seq<(u64, u64)>, swaps: Seq<Swap>)
    requires
        swaps_allowed(swaps, cells.len() as int),
    ensures
        cells_after(cells, swaps).len() == cells.len(),
        inside(cells).add(tally_after(cells, swaps).entered) == tally_after(cells, swaps).left.add(
            inside(cells_after(cells, swaps)),
        ),
    decreases swaps.len(),
{
    if swaps.len() == 0 {
        assert(inside(cells).add(Multiset::<u64>::empty()) =~= Multiset::<u64>::empty().add(
            inside(cells),
        ));
    } else {
        let front = swaps.drop_last();
        assert forall|k: int| 0 <= k < front.len() implies swap_allowed(
            #[trigger] front[k],
            cells.len() as int,
        ) by {
            assert(front[k] == swaps[k]);
        }
        lemma_conservation(cells, front);
        let mid = cells_after(cells, front);
        let so_far = tally_after(cells, front);
        let swap = swaps[swaps.len() - 1];
        assert(swap_allowed(swap, cells.len() as int));
        assert(swap == swaps.last());
        lemma_swap_balance(mid, so_far, swap);
        let now = tally_swap(so_far, mid, swap);
        let end = after_swap(mid, swap);
        assert(inside(cells).add(now.entered) =~= now.left.add(inside(end))) by {
            assert forall|x: u64|
                inside(cells).add(now.entered).count(x) == now.left.add(inside(end)).count(
                    x,
                ) by {
                assert(inside(cells).add(so_far.entered).count(x) == so_far.left.add(
                    inside(mid),
                ).count(x));
                assert(inside(mid).add(now.entered).add(so_far.left).count(x) == inside(end).add(
                    now.left,
                ).add(so_far.entered).count(x));
            }
        }
    }
}

/// No duplication and no fabrication in the model: on cells that start
/// empty, and however the swaps of any number of producers and consumers
/// interleave, every item that a consumer gets out was put in by a
/// producer, as often at least as it was got out. Every swap of a consumer
/// that succeeds gets an item out.
pub proof fn lemma_no_item_from_nothing(n: nat, swaps: Seq<Swap>)
    requires
        swaps_allowed(swaps, n as int),
    ensures
        tally_after(Seq::new(n, |i: int| (0u64, 0u64)), swaps).left.subset_of(
            tally_after(Seq::new(n, |i: int| (0u64, 0u64)), swaps).entered,
        ),
{
    let cells = Seq::new(n, |i: int| (0u64, 0u64));
    lemma_inside_fresh(n);
    lemma_conservation(cells, swaps);
    let tally = tally_after(cells, swaps);
    let end = cells_after(cells, swaps);
    assert forall|x: u64| tally.left.count(x) <= tally.entered.count(x) by {
        assert(inside(cells).add(tally.entered).count(x) == tally.left.add(inside(end)).count(x));
    }
}

} // verus!
