//! The ring itself, and the two queues built on it.
//!
//! The ring keeps two indices beside its cells: the head, where the next
//! item goes in, and the tail, where the next item comes out. Both are
//! hints. A call starts from the hint, looks at cells until it has found
//! the true head or tail, changes that cell in one compare-and-swap and
//! then publishes the index after it.
//!
//! Items are words. The word 0 stands for an empty cell and cannot be
//! pushed.

use crate::components::Buffer;
use crate::components::FixedBuf;
use crate::components::HeaplessBuf;
use crate::components::ItemInner;
use crate::components::TaggedItemInner;
use crate::model::fresh_ring;
use crate::model::Ring;
use crate::probe::empty_from;
use crate::probe::force_step;
use crate::probe::full_from;
use crate::probe::len_from;
use crate::probe::pop_done;
use crate::probe::pop_step;
use crate::probe::push_done;
use crate::probe::push_step;
use crate::probe::ForceStep;
use crate::probe::PopStep;
use crate::probe::PushStep;
use crate::utils::prev;
use std::sync::atomic::AtomicUsize;
use std::sync::atomic::Ordering;
use vstd::prelude::*;

verus! {

/// The number of looks at the cells after which one call gives up. A call
/// that no other thread disturbs decides within one round of the ring; a
/// call gets to the limit only if other threads change the cells under it
/// at every one of as many looks. A `push` that gives up hands its item
/// back, a `pop` that gives up returns `None`, and neither has changed a
/// cell.
pub const PROBE_LIMIT: u64 = u64::MAX;

/// `std::hint::spin_loop` tells the processor that the caller waits in a
/// loop. It returns nothing and changes nothing that a proof can see.
#[verifier::external_body]
fn spin() {
    std::hint::spin_loop()
}

/// Waits for `turns` idle turns.
fn idle(turns: usize) {
    let mut done: usize = 0;
    while done < turns
        invariant
            done <= turns,
        decreases turns - done,
    {
        spin();
        done = done + 1;
    }
}

/// The index that a hint was made with.
pub uninterp spec fn hint_made_with(atomic: AtomicUsize) -> usize;

/// `AtomicUsize::new` of std makes an atomic that starts at `v`.
#[verifier::external_body]
fn hint_atomic(v: usize) -> (r: AtomicUsize)
    ensures
        hint_made_with(r) == v,
{
    AtomicUsize::new(v)
}

/// A bounded lock-free queue of words on the cells of the buffer `B`.
///
/// The state of the queue is in its cells alone. The two indices only
/// shorten the search: a call stores the index behind the cell that it has
/// changed, and a call that reads an index takes it modulo the number of
/// cells.
///
/// What a call returns depends on what the cells hold when it looks, and
/// other threads may change them at any time. So the calls state what
/// holds of every outcome. What a call does after each look and after each
/// answer of a swap is decided by the step functions of `probe`, which are
/// stated exactly; the calls only read, swap and store as these say.
pub struct ArrayQueue<B: Buffer> {
    /// The cells.
    buffer: B,
    /// The index of the next cell to fill. It may be stale.
    head: AtomicUsize,
    /// The index of the next cell to take from. It may be stale.
    tail: AtomicUsize,
}

impl<B: Buffer> ArrayQueue<B> {
    /// A queue has at least one cell.
    #[verifier::type_invariant]
    spec fn inv(&self) -> bool {
        self.buffer.spec_len() > 0
    }

    /// The number of cells, which is the number of items that the queue
    /// can hold.
    pub closed spec fn spec_capacity(&self) -> nat {
        self.buffer.spec_len()
    }

    /// The ring that the queue was made as: its cells and its hints as
    /// they were made.
    pub closed spec fn spec_start(&self) -> Ring {
        Ring {
            cells: self.buffer.spec_start(),
            head: hint_made_with(self.head) as int,
            tail: hint_made_with(self.tail) as int,
        }
    }

    /// Makes a queue on the cells of `buffer`, with both hints at the
    /// first cell. On cells that were made empty it starts as the fresh
    /// ring.
    pub fn new_in(buffer: B) -> (r: Self)
        requires
            buffer.spec_len() > 0,
        ensures
            r.spec_capacity() == buffer.spec_len(),
            r.spec_start() == (Ring { cells: buffer.spec_start(), head: 0, tail: 0 }),
    {
        Self { buffer, head: hint_atomic(0), tail: hint_atomic(0) }
    }

    /// Takes the oldest item out of the queue. Returns `None` where the
    /// queue was seen empty.
    ///
    /// The call starts at the tail hint and does after every look what
    /// `probe::pop_step` says, and after the swap what `probe::pop_done`
    /// says. It gives up after `PROBE_LIMIT` looks.
    pub fn pop(&self) -> (r: Option<u64>)
        ensures
            r matches Some(item) ==> item != 0 && B::Cell::spec_fits(item),
    {
        proof {
            use_type_invariant(self);
        }
        let n: usize = self.buffer.len();
        let cells = self.buffer.inner();
        let mut budget: u64 = PROBE_LIMIT;
        while budget > 0
            invariant
                n > 0,
                cells@.len() == n,
            decreases budget,
        {
            let ghost start: u64 = budget;
            budget = budget - 1;
            let mut tail: usize = self.tail.load(Ordering::Acquire) % n;
            let mut before: (u64, u64) = cells[prev(tail, n)].components();
            let mut current: (u64, u64) = cells[tail].components();
            let mut step: PopStep = pop_step::<B::Cell>(prev(tail, n), before, tail, current, n);
            while matches!(step, PopStep::LookAt(_)) && budget > 0
                invariant
                    n > 0,
                    cells@.len() == n,
                    tail < n,
                    budget < start,
                    B::Cell::spec_fits(current.1),
                    B::Cell::spec_stored(current.0, current.1) == current,
                    step matches PopStep::LookAt(at) ==> at < n,
                    step matches PopStep::Swap { at, expect, install } ==> at == tail && expect
                        == current && expect.1 != 0,
                decreases budget,
            {
                budget = budget - 1;
                match step {
                    PopStep::LookAt(at) => {
                        tail = at;
                        before = current;
                        current = cells[tail].components();
                        step = pop_step::<B::Cell>(prev(tail, n), before, tail, current, n);
                    },
                    _ => {},
                }
            }
            match step {
                PopStep::Nothing => {
                    return None;
                },
                PopStep::LookAt(_) => {
                    return None;
                },
                PopStep::Again => {},
                PopStep::Swap { at, expect, install } => {
                    let answer = cells[at].cmpxchg(expect.1, expect.0, install.1, install.0);
                    match pop_done(answer, at, n) {
                        Some(out) => {
                            self.tail.store(out.1, Ordering::Release);
                            return Some(out.0);
                        },
                        None => {},
                    }
                },
            }
        }
        None
    }

    /// Puts `item` into the queue. Hands the item back where the queue was
    /// seen full.
    ///
    /// The call starts at the head hint and does after every look what
    /// `probe::push_step` says, and after the swap what `probe::push_done`
    /// says. The swap leaves the cell's counter as it is. The call gives up
    /// after `PROBE_LIMIT` looks.
    pub fn push(&self, item: u64) -> (r: Result<(), u64>)
        requires
            item != 0,
            B::Cell::spec_fits(item),
        ensures
            r matches Err(back) ==> back == item,
    {
        proof {
            use_type_invariant(self);
        }
        let n: usize = self.buffer.len();
        let cells = self.buffer.inner();
        let mut head: usize = self.head.load(Ordering::Acquire) % n;
        let mut budget: u64 = PROBE_LIMIT;
        while budget > 0
            invariant
                n > 0,
                cells@.len() == n,
                head < n,
            decreases budget,
        {
            budget = budget - 1;
            let prev_idx: usize = prev(head, n);
            let before: (u64, u64) = cells[prev_idx].components();
            let current: (u64, u64) = cells[head].components();
            match push_step::<B::Cell>(prev_idx, before, head, current, item, n) {
                PushStep::GiveBack => {
                    return Err(item);
                },
                PushStep::LookAt(at) => {
                    head = at;
                },
                PushStep::Swap { at, expect, install } => {
                    let answer = cells[at].cmpxchg(expect.1, expect.0, install.1, install.0);
                    match push_done(answer, at, n) {
                        Some(publish) => {
                            self.head.store(publish, Ordering::Release);
                            return Ok(());
                        },
                        None => {},
                    }
                },
            }
        }
        Err(item)
    }

    /// Puts `item` into the queue, taking the oldest item out for as long
    /// as the queue is seen full. Returns the item taken out last, if any.
    ///
    /// The call is a `push`, and after every `push` that fails a pause and
    /// a `pop`, as `probe::force_step` says. It is not one atomic step:
    /// between the `pop` and the next `push` another thread may fill the
    /// cell. What earlier rounds took out is given up. After `PROBE_LIMIT`
    /// rounds the call gives up and returns `item` itself.
    pub fn force_push(&self, item: u64) -> (r: Option<u64>)
        requires
            item != 0,
            B::Cell::spec_fits(item),
        ensures
            r matches Some(taken) ==> taken != 0 && B::Cell::spec_fits(taken),
    {
        let all = self.force_push_all(item);
        all.1
    }

    /// Does what `force_push` does and returns, before what `force_push`
    /// returns, the items that earlier rounds took out, in the order in
    /// which they came out.
    pub fn force_push_all(&self, item: u64) -> (r: (Vec<u64>, Option<u64>))
        requires
            item != 0,
            B::Cell::spec_fits(item),
        ensures
            forall|i: int|
                0 <= i < r.0@.len() ==> (#[trigger] r.0@[i]) != 0 && B::Cell::spec_fits(r.0@[i]),
            r.1 matches Some(taken) ==> taken != 0 && B::Cell::spec_fits(taken),
    {
        let mut earlier: Vec<u64> = Vec::new();
        let mut last: Option<u64> = None;
        let mut backoff: usize = 1;
        let mut rounds: u64 = PROBE_LIMIT;
        while rounds > 0
            invariant
                backoff <= 1024,
                item != 0,
                B::Cell::spec_fits(item),
                forall|i: int|
                    0 <= i < earlier@.len() ==> (#[trigger] earlier@[i]) != 0
                        && B::Cell::spec_fits(earlier@[i]),
                last matches Some(taken) ==> taken != 0 && B::Cell::spec_fits(taken),
            decreases rounds,
        {
            rounds = rounds - 1;
            match force_step(self.push(item), last, backoff) {
                ForceStep::Done(out) => {
                    return (earlier, out);
                },
                ForceStep::Again(turns) => {
                    idle(backoff);
                    backoff = turns;
                    match last {
                        Some(word) => {
                            earlier.push(word);
                        },
                        None => {},
                    }
                    last = self.pop();
                },
            }
        }
        match last {
            Some(word) => {
                earlier.push(word);
            },
            None => {},
        }
        (earlier, Some(item))
    }

    /// Takes the queue apart: pops until the queue is seen empty, once
    /// for every cell at most, and returns the items in the order in which
    /// they came out.
    pub fn into_vec(self) -> (r: Vec<u64>)
        ensures
            r@.len() <= self.spec_capacity(),
            forall|i: int|
                0 <= i < r@.len() ==> (#[trigger] r@[i]) != 0 && B::Cell::spec_fits(r@[i]),
    {
        let n: usize = self.capacity();
        let mut items: Vec<u64> = Vec::new();
        let mut taken: usize = 0;
        while taken < n
            invariant
                n == self.spec_capacity(),
                taken <= n,
                items@.len() == taken,
                forall|i: int|
                    0 <= i < items@.len() ==> (#[trigger] items@[i]) != 0 && B::Cell::spec_fits(
                        items@[i],
                    ),
            decreases n - taken,
        {
            match self.pop() {
                Some(item) => {
                    items.push(item);
                },
                None => {
                    return items;
                },
            }
            taken = taken + 1;
        }
        items
    }

    /// Returns the number of items that the queue can hold.
    pub fn capacity(&self) -> (r: usize)
        ensures
            r == self.spec_capacity(),
            r > 0,
    {
        proof {
            use_type_invariant(self);
        }
        self.buffer.len()
    }

    /// Loads both hints and, where they meet, reads the cell at the head.
    fn observe(&self) -> (r: (usize, usize, Option<(u64, u64)>))
        ensures
            r.0 < self.spec_capacity(),
            r.1 < self.spec_capacity(),
            r.2 is Some <==> r.0 == r.1,
    {
        proof {
            use_type_invariant(self);
        }
        let n: usize = self.buffer.len();
        let head: usize = self.head.load(Ordering::Acquire) % n;
        let tail: usize = self.tail.load(Ordering::Acquire) % n;
        if head != tail {
            (head, tail, None)
        } else {
            let cells = self.buffer.inner();
            (head, tail, Some(cells[head].components()))
        }
    }

    /// Returns the number of items in the queue, as far as the two hints
    /// tell: what `probe::len_from` gives for the hints and the cell at
    /// the head. The number may be stale.
    pub fn len(&self) -> (r: usize)
        ensures
            r <= self.spec_capacity(),
    {
        let seen = self.observe();
        len_from(seen.0, seen.1, seen.2, self.capacity())
    }

    /// Tells whether the queue holds no item: what `probe::empty_from`
    /// gives for the hints and the cell at the head. The answer may be
    /// stale.
    pub fn is_empty(&self) -> (r: bool) {
        let seen = self.observe();
        empty_from(seen.0, seen.1, seen.2, self.capacity())
    }

    /// Tells whether the queue holds as many items as it can: what
    /// `probe::full_from` gives for the hints and the cell at the head. The
    /// answer may be stale.
    pub fn is_full(&self) -> (r: bool) {
        let seen = self.observe();
        full_from(seen.0, seen.1, seen.2, self.capacity())
    }
}

/// A queue whose cells live on the heap, its capacity chosen when it is
/// made.
pub struct HeapBackedQueue {
    ring: ArrayQueue<FixedBuf<TaggedItemInner>>,
}

impl HeapBackedQueue {
    /// The number of items that the queue can hold.
    pub closed spec fn spec_capacity(&self) -> nat {
        self.ring.spec_capacity()
    }

    /// The ring that the queue was made as.
    pub closed spec fn spec_start(&self) -> Ring {
        self.ring.spec_start()
    }

    /// Makes an empty queue that can hold `size` items: it starts as the
    /// fresh ring of `size` cells.
    pub fn new(size: usize) -> (r: Self)
        requires
            size > 0,
        ensures
            r.spec_capacity() == size,
            r.spec_start() == fresh_ring(size as nat),
    {
        let r = Self { ring: ArrayQueue::new_in(FixedBuf::new(size)) };
        assert(r.spec_start().cells =~= fresh_ring(size as nat).cells);
        r
    }

    /// Puts `item` into the queue. Hands the item back where the queue was
    /// seen full.
    pub fn push(&self, item: u64) -> (r: Result<(), u64>)
        requires
            item != 0,
            crate::utils::is_canonical(item),
        ensures
            r matches Err(back) ==> back == item,
    {
        self.ring.push(item)
    }

    /// Puts `item` into the queue, taking the oldest item out for as long
    /// as the queue is seen full. Returns the item taken out last, if any.
    pub fn force_push(&self, item: u64) -> (r: Option<u64>)
        requires
            item != 0,
            crate::utils::is_canonical(item),
        ensures
            r matches Some(taken) ==> taken != 0 && crate::utils::is_canonical(taken),
    {
        self.ring.force_push(item)
    }

    /// Does what `force_push` does and returns, before what `force_push`
    /// returns, the items that earlier rounds took out, in the order in
    /// which they came out.
    pub fn force_push_all(&self, item: u64) -> (r: (Vec<u64>, Option<u64>))
        requires
            item != 0,
            crate::utils::is_canonical(item),
        ensures
            forall|i: int|
                0 <= i < r.0@.len() ==> (#[trigger] r.0@[i]) != 0 && crate::utils::is_canonical(
                    r.0@[i],
                ),
            r.1 matches Some(taken) ==> taken != 0 && crate::utils::is_canonical(taken),
    {
        self.ring.force_push_all(item)
    }

    /// Takes the oldest item out of the queue. Returns `None` where the
    /// queue was seen empty.
    pub fn pop(&self) -> (r: Option<u64>)
        ensures
            r matches Some(item) ==> item != 0 && crate::utils::is_canonical(item),
    {
        self.ring.pop()
    }

    /// Takes the queue apart and returns the items it held, oldest first.
    pub fn into_vec(self) -> (r: Vec<u64>)
        ensures
            r@.len() <= self.spec_capacity(),
            forall|i: int|
                0 <= i < r@.len() ==> (#[trigger] r@[i]) != 0 && crate::utils::is_canonical(r@[i]),
    {
        self.ring.into_vec()
    }

    /// Returns the number of items that the queue can hold.
    pub fn capacity(&self) -> (r: usize)
        ensures
            r == self.spec_capacity(),
            r > 0,
    {
        self.ring.capacity()
    }

    /// Returns the number of items in the queue. The number may be stale.
    pub fn len(&self) -> (r: usize)
        ensures
            r <= self.spec_capacity(),
    {
        self.ring.len()
    }

    /// Tells whether the queue holds no item. The answer may be stale.
    pub fn is_empty(&self) -> (r: bool) {
        self.ring.is_empty()
    }

    /// Tells whether the queue holds as many items as it can. The answer
    /// may be stale.
    pub fn is_full(&self) -> (r: bool) {
        self.ring.is_full()
    }
}

/// A queue of `N` cells held in place.
pub struct HeaplessQueue<const N: usize> {
    ring: ArrayQueue<HeaplessBuf<N, TaggedItemInner>>,
}

impl<const N: usize> HeaplessQueue<N> {
    /// The number of items that the queue can hold.
    pub closed spec fn spec_capacity(&self) -> nat {
        self.ring.spec_capacity()
    }

    /// The ring that the queue was made as.
    pub closed spec fn spec_start(&self) -> Ring {
        self.ring.spec_start()
    }

    /// Makes an empty queue that can hold `N` items.
    pub fn new() -> (r: Self)
        requires
            N > 0,
        ensures
            r.spec_capacity() == N,
            r.spec_start() == fresh_ring(N as nat),
    {
        let r = Self { ring: ArrayQueue::new_in(HeaplessBuf::new()) };
        assert(r.spec_start().cells =~= fresh_ring(N as nat).cells);
        r
    }

    /// Puts `item` into the queue. Hands the item back where the queue was
    /// seen full.
    pub fn push(&self, item: u64) -> (r: Result<(), u64>)
        requires
            item != 0,
            crate::utils::is_canonical(item),
        ensures
            r matches Err(back) ==> back == item,
    {
        self.ring.push(item)
    }

    /// Puts `item` into the queue, taking the oldest item out for as long
    /// as the queue is seen full. Returns the item taken out last, if any.
    pub fn force_push(&self, item: u64) -> (r: Option<u64>)
        requires
            item != 0,
            crate::utils::is_canonical(item),
        ensures
            r matches Some(taken) ==> taken != 0 && crate::utils::is_canonical(taken),
    {
        self.ring.force_push(item)
    }

    /// Does what `force_push` does and returns, before what `force_push`
    /// returns, the items that earlier rounds took out, in the order in
    /// which they came out.
    pub fn force_push_all(&self, item: u64) -> (r: (Vec<u64>, Option<u64>))
        requires
            item != 0,
            crate::utils::is_canonical(item),
        ensures
            forall|i: int|
                0 <= i < r.0@.len() ==> (#[trigger] r.0@[i]) != 0 && crate::utils::is_canonical(
                    r.0@[i],
                ),
            r.1 matches Some(taken) ==> taken != 0 && crate::utils::is_canonical(taken),
    {
        self.ring.force_push_all(item)
    }

    /// Takes the oldest item out of the queue. Returns `None` where the
    /// queue was seen empty.
    pub fn pop(&self) -> (r: Option<u64>)
        ensures
            r matches Some(item) ==> item != 0 && crate::utils::is_canonical(item),
    {
        self.ring.pop()
    }

    /// Takes the queue apart and returns the items it held, oldest first.
    pub fn into_vec(self) -> (r: Vec<u64>)
        ensures
            r@.len() <= N,
            forall|i: int|
                0 <= i < r@.len() ==> (#[trigger] r@[i]) != 0 && crate::utils::is_canonical(r@[i]),
    {
        proof {
            use_type_invariant(&self);
        }
        self.ring.into_vec()
    }

    /// Returns the number of items that the queue can hold, `N`.
    pub fn capacity(&self) -> (r: usize)
        ensures
            r == N,
    {
        proof {
            use_type_invariant(self);
        }
        self.ring.capacity()
    }

    /// Returns the number of items in the queue. The number may be stale.
    pub fn len(&self) -> (r: usize)
        ensures
            r <= N,
    {
        proof {
            use_type_invariant(self);
        }
        self.ring.len()
    }

    /// Tells whether the queue holds no item. The answer may be stale.
    pub fn is_empty(&self) -> (r: bool) {
        self.ring.is_empty()
    }

    /// Tells whether the queue holds as many items as it can. The answer
    /// may be stale.
    pub fn is_full(&self) -> (r: bool) {
        self.ring.is_full()
    }

    /// The ring has `N` cells.
    #[verifier::type_invariant]
    spec fn inv(&self) -> bool {
        self.ring.spec_capacity() == N
    }
}

} // verus!
