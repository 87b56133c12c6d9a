//! What a producer or a consumer decides from one look at two neighbouring
//! cells.
//!
//! A cell is seen as a pair of its lap counter and its item; the item 0
//! means that the cell is empty. Every function here is a function of what
//! was seen, so it holds whatever other threads do to the cells meanwhile.

use crate::components::ItemInner;
use crate::utils::next;
use crate::utils::spec_comp;
use crate::utils::spec_next;
use crate::utils::spec_pred;
use crate::utils::spec_succ;
use vstd::prelude::*;

verus! {

/// What a producer does after a look at the cell at its head index and the
/// cell before it.
#[derive(Clone, Copy, PartialEq, Eq, Debug, Structural)]
pub enum PushProbe {
    /// The cell at the head index is the next to fill.
    Accept,
    /// Every cell holds an item.
    Full,
    /// The head index is stale: look one cell further.
    Advance,
}

/// What a consumer does after a look at the cell at its tail index and the
/// cell before it.
#[derive(Clone, Copy, PartialEq, Eq, Debug, Structural)]
pub enum PopProbe {
    /// The cell at the tail index holds the oldest item.
    Take,
    /// No cell holds an item.
    Empty,
    /// The tail index is stale: look one cell further.
    Advance,
}

/// What a producer does after one look.
#[derive(Clone, Copy, PartialEq, Eq, Debug)]
pub enum PushStep {
    /// Hand the item back: the ring was seen full.
    GiveBack,
    /// Look at the cell at this index next.
    LookAt(usize),
    /// Swap the cell `at`, if it still holds `expect`, for `install`.
    Swap { at: usize, expect: (u64, u64), install: (u64, u64) },
}

/// What a consumer does after one look.
#[derive(Clone, Copy, PartialEq, Eq, Debug)]
pub enum PopStep {
    /// Return nothing: the ring was seen empty.
    Nothing,
    /// Look at the cell at this index next, with the cell just seen as
    /// the cell before it.
    LookAt(usize),
    /// Start again at the tail hint: the two cells were not seen as they
    /// stood at one moment.
    Again,
    /// Swap the cell `at`, if it still holds `expect`, for `install`.
    Swap { at: usize, expect: (u64, u64), install: (u64, u64) },
}

/// What `force_push` does after a push.
#[derive(Clone, Copy, PartialEq, Eq, Debug)]
pub enum ForceStep {
    /// The item is in: return this.
    Done(Option<u64>),
    /// The ring was seen full: wait as many idle turns as the call has
    /// waited last, take an item out and push again, with this many idle
    /// turns the next time.
    Again(usize),
}

/// The producer's decision. The head cell is accepted where it is empty
/// behind a filled cell, or where both cells are empty and the cell before
/// does not come first. The ring is full where both cells are filled and
/// the cell before does not come first.
pub open spec fn spec_push_probe(
    prev_idx: int,
    before: (u64, u64),
    head: int,
    current: (u64, u64),
    w: int,
) -> PushProbe {
    if before.1 != 0 && current.1 == 0 {
        PushProbe::Accept
    } else if spec_comp(prev_idx, before.0 as int, head, current.0 as int, w) {
        PushProbe::Advance
    } else if before.1 == 0 && current.1 == 0 {
        PushProbe::Accept
    } else if before.1 != 0 && current.1 != 0 {
        PushProbe::Full
    } else {
        PushProbe::Advance
    }
}

/// The counter that a producer expects in the cell it fills, from the cell
/// before it: that cell's counter, one less where that cell is empty, one
/// more where the filled cell is the first of the ring.
pub open spec fn spec_install_count(before: (u64, u64), head: int, w: int) -> int {
    let base = if before.1 == 0 {
        spec_pred(before.0 as int, w)
    } else {
        before.0 as int
    };
    if head == 0 {
        spec_succ(base, w)
    } else {
        base
    }
}

/// The consumer's decision. The tail index is stale where the cell before
/// comes first. Else the ring is empty where both cells are empty, and the
/// tail cell is taken where they are not.
pub open spec fn spec_pop_probe(
    prev_idx: int,
    before: (u64, u64),
    tail: int,
    current: (u64, u64),
    w: int,
) -> PopProbe {
    if spec_comp(prev_idx, before.0 as int, tail, current.0 as int, w) {
        PopProbe::Advance
    } else if before.1 == 0 && current.1 == 0 {
        PopProbe::Empty
    } else {
        PopProbe::Take
    }
}

/// What a producer does after a look at the cell `head` and the cell
/// before it, with `item` to put in: it hands the item back where the
/// ring is full, looks at the next cell where the head is stale, and else
/// swaps the empty cell with the counter it expects for the same cell with
/// the item.
pub open spec fn spec_push_step(
    prev_idx: usize,
    before: (u64, u64),
    head: usize,
    current: (u64, u64),
    item: u64,
    n: usize,
    w: int,
) -> PushStep {
    match spec_push_probe(prev_idx as int, before, head as int, current, w) {
        PushProbe::Full => PushStep::GiveBack,
        PushProbe::Advance => PushStep::LookAt(spec_next(head as int, n as int) as usize),
        PushProbe::Accept => PushStep::Swap {
            at: head,
            expect: (spec_install_count(before, head as int, w) as u64, 0u64),
            install: (spec_install_count(before, head as int, w) as u64, item),
        },
    }
}

/// What a producer does after the swap at the cell `at` was answered: where
/// the cell was changed the item is in and the head hint goes behind the
/// cell, and else the producer looks again.
pub open spec fn spec_push_done(
    answer: Result<(u64, u64), (u64, u64)>,
    at: usize,
    n: usize,
) -> Option<usize> {
    match answer {
        Ok(_) => Some(spec_next(at as int, n as int) as usize),
        Err(_) => None,
    }
}

/// What a consumer does after a look at the cell `tail` and the cell
/// before it: it looks at the next cell where the cell before comes
/// first, returns nothing where both cells are empty, starts again where
/// only the cell at `tail` is empty, and else swaps the cell as it was
/// seen for an empty cell with the next counter.
pub open spec fn spec_pop_step(
    prev_idx: usize,
    before: (u64, u64),
    tail: usize,
    current: (u64, u64),
    n: usize,
    w: int,
) -> PopStep {
    match spec_pop_probe(prev_idx as int, before, tail as int, current, w) {
        PopProbe::Advance => PopStep::LookAt(spec_next(tail as int, n as int) as usize),
        PopProbe::Empty => PopStep::Nothing,
        PopProbe::Take => if current.1 == 0 {
            PopStep::Again
        } else {
            PopStep::Swap {
                at: tail,
                expect: current,
                install: (spec_succ(current.0 as int, w) as u64, 0u64),
            }
        },
    }
}

/// What a consumer does after the swap at the cell `at` was answered: where
/// the cell was changed it returns the item that the cell held and the
/// tail hint goes behind the cell, and else the consumer starts again.
pub open spec fn spec_pop_done(
    answer: Result<(u64, u64), (u64, u64)>,
    at: usize,
    n: usize,
) -> Option<(u64, usize)> {
    match answer {
        Ok(found) => Some((found.1, spec_next(at as int, n as int) as usize)),
        Err(_) => None,
    }
}

/// What `force_push` does after its push was answered, where `last` is what
/// its last pop returned and `backoff` the number of idle turns it has
/// waited last.
pub open spec fn spec_force_step(
    pushed: Result<(), u64>,
    last: Option<u64>,
    backoff: usize,
) -> ForceStep {
    match pushed {
        Ok(_) => ForceStep::Done(last),
        Err(_) => ForceStep::Again(spec_next_backoff(backoff as int) as usize),
    }
}

/// The item of the cell at the head, where that cell was read.
pub open spec fn spec_item_at(at_head: Option<(u64, u64)>) -> u64 {
    match at_head {
        Some(seen) => seen.1,
        None => 0,
    }
}

/// The number of items between the two indices of a ring of `n` cells:
/// their distance where they differ, and nothing or everything where they
/// meet, as the cell at the head is empty or filled.
pub open spec fn spec_len_from(head: int, tail: int, at_head: u64, n: int) -> int {
    if head != tail {
        if head < tail {
            n - tail + head
        } else {
            head - tail
        }
    } else if at_head == 0 {
        0
    } else {
        n
    }
}

/// The number of idle turns after `backoff` of them: twice as many, 1024 at
/// most.
pub open spec fn spec_next_backoff(backoff: int) -> int {
    if backoff * 2 < 1024 {
        backoff * 2
    } else {
        1024
    }
}

/// Decides what a producer does at `head`, from the cell before it and the
/// cell at it, for cells of kind `I`.
pub fn push_probe<I: ItemInner>(
    prev_idx: usize,
    before: (u64, u64),
    head: usize,
    current: (u64, u64),
) -> (r: PushProbe)
    ensures
        r == spec_push_probe(prev_idx as int, before, head as int, current, I::spec_max_w()),
{
    if before.1 != 0 && current.1 == 0 {
        return PushProbe::Accept;
    }
    if !I::comes_before(prev_idx, before.0, head, current.0) {
        if before.1 == 0 && current.1 == 0 {
            return PushProbe::Accept;
        }
        if before.1 != 0 && current.1 != 0 {
            return PushProbe::Full;
        }
    }
    PushProbe::Advance
}

/// Computes the counter that a producer expects in the cell at `head`,
/// from the cell before it, for cells of kind `I`.
pub fn install_count<I: ItemInner>(before: (u64, u64), head: usize) -> (r: u64)
    ensures
        r == spec_install_count(before, head as int, I::spec_max_w()),
{
    let mut count: u64 = before.0;
    if before.1 == 0 {
        count = I::pred(count);
    }
    if head == 0 {
        count = I::succ(count);
    }
    count
}

/// Decides what a consumer does at `tail`, from the cell before it and the
/// cell at it, for cells of kind `I`.
pub fn pop_probe<I: ItemInner>(
    prev_idx: usize,
    before: (u64, u64),
    tail: usize,
    current: (u64, u64),
) -> (r: PopProbe)
    ensures
        r == spec_pop_probe(prev_idx as int, before, tail as int, current, I::spec_max_w()),
{
    if I::comes_before(prev_idx, before.0, tail, current.0) {
        PopProbe::Advance
    } else if before.1 == 0 && current.1 == 0 {
        PopProbe::Empty
    } else {
        PopProbe::Take
    }
}

/// Decides what a producer does after a look at the cell `head` and the
/// cell before it, for cells of kind `I`.
pub fn push_step<I: ItemInner>(
    prev_idx: usize,
    before: (u64, u64),
    head: usize,
    current: (u64, u64),
    item: u64,
    n: usize,
) -> (r: PushStep)
    requires
        head < n,
    ensures
        r == spec_push_step(prev_idx, before, head, current, item, n, I::spec_max_w()),
        r matches PushStep::LookAt(at) ==> at < n,
        r matches PushStep::Swap { at, expect, install } ==> at == head && expect.1 == 0
            && install.1 == item && install.0 == expect.0,
{
    match push_probe::<I>(prev_idx, before, head, current) {
        PushProbe::Full => PushStep::GiveBack,
        PushProbe::Advance => PushStep::LookAt(next(head, n)),
        PushProbe::Accept => {
            let count: u64 = install_count::<I>(before, head);
            PushStep::Swap { at: head, expect: (count, 0), install: (count, item) }
        },
    }
}

/// Decides what a producer does after the swap at the cell `at` was
/// answered.
pub fn push_done(answer: Result<(u64, u64), (u64, u64)>, at: usize, n: usize) -> (r: Option<usize>)
    requires
        at < n,
    ensures
        r == spec_push_done(answer, at, n),
        r matches Some(publish) ==> publish < n,
{
    match answer {
        Ok(_) => Some(next(at, n)),
        Err(_) => None,
    }
}

/// Decides what a consumer does after a look at the cell `tail` and the
/// cell before it, for cells of kind `I`.
pub fn pop_step<I: ItemInner>(
    prev_idx: usize,
    before: (u64, u64),
    tail: usize,
    current: (u64, u64),
    n: usize,
) -> (r: PopStep)
    requires
        tail < n,
    ensures
        r == spec_pop_step(prev_idx, before, tail, current, n, I::spec_max_w()),
        r matches PopStep::LookAt(at) ==> at < n,
        r matches PopStep::Swap { at, expect, install } ==> at == tail && expect == current
            && expect.1 != 0 && install.1 == 0,
{
    match pop_probe::<I>(prev_idx, before, tail, current) {
        PopProbe::Advance => PopStep::LookAt(next(tail, n)),
        PopProbe::Empty => PopStep::Nothing,
        PopProbe::Take => {
            if current.1 == 0 {
                PopStep::Again
            } else {
                PopStep::Swap { at: tail, expect: current, install: (I::succ(current.0), 0) }
            }
        },
    }
}

/// Decides what a consumer does after the swap at the cell `at` was
/// answered.
pub fn pop_done(answer: Result<(u64, u64), (u64, u64)>, at: usize, n: usize) -> (r: Option<
    (u64, usize),
>)
    requires
        at < n,
    ensures
        r == spec_pop_done(answer, at, n),
        r matches Some(out) ==> out.1 < n,
{
    match answer {
        Ok(found) => Some((found.1, next(at, n))),
        Err(_) => None,
    }
}

/// Decides what `force_push` does after its push was answered.
pub fn force_step(pushed: Result<(), u64>, last: Option<u64>, backoff: usize) -> (r: ForceStep)
    ensures
        r == spec_force_step(pushed, last, backoff),
        r matches ForceStep::Again(turns) ==> turns <= 1024,
{
    match pushed {
        Ok(_) => ForceStep::Done(last),
        Err(_) => ForceStep::Again(next_backoff(backoff)),
    }
}

/// Computes the number of items between the two indices of a ring of `n`
/// cells, from the cell at the head where the indices meet and that cell
/// was read.
pub fn len_from(head: usize, tail: usize, at_head: Option<(u64, u64)>, n: usize) -> (r: usize)
    requires
        head < n,
        tail < n,
    ensures
        r == spec_len_from(head as int, tail as int, spec_item_at(at_head), n as int),
        r <= n,
{
    if head != tail {
        if head < tail {
            n - tail + head
        } else {
            head - tail
        }
    } else {
        match at_head {
            Some(seen) => {
                if seen.1 == 0 {
                    0
                } else {
                    n
                }
            },
            None => 0,
        }
    }
}

/// Tells whether no item is between the two indices of a ring of `n`
/// cells.
pub fn empty_from(head: usize, tail: usize, at_head: Option<(u64, u64)>, n: usize) -> (r: bool)
    requires
        head < n,
        tail < n,
    ensures
        r == (spec_len_from(head as int, tail as int, spec_item_at(at_head), n as int) == 0),
{
    len_from(head, tail, at_head, n) == 0
}

/// Tells whether as many items as the ring has cells are between the two
/// indices of a ring of `n` cells.
pub fn full_from(head: usize, tail: usize, at_head: Option<(u64, u64)>, n: usize) -> (r: bool)
    requires
        head < n,
        tail < n,
    ensures
        r == (spec_len_from(head as int, tail as int, spec_item_at(at_head), n as int) == n),
{
    len_from(head, tail, at_head, n) == n
}

/// Computes the number of idle turns after `backoff` of them.
pub fn next_backoff(backoff: usize) -> (r: usize)
    ensures
        r == spec_next_backoff(backoff as int),
        r <= 1024,
{
    if backoff < 512 {
        backoff * 2
    } else {
        1024
    }
}

} // verus!
