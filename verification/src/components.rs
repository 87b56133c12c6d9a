//! The cells of the ring and the buffers that hold them.
//!
//! A cell is one atomic word that holds a lap counter and an item. Both
//! change together in a single compare-and-swap. Two kinds of cell exist:
//! a tagged 64-bit word with a 16-bit counter, and a 128-bit double word
//! with a 64-bit counter.

use crate::utils::components_as_dword;
use crate::utils::components_as_tagged;
use crate::utils::components_from_dword;
use crate::utils::components_from_tagged;
use crate::utils::comp;
use crate::utils::comp_wide;
use crate::utils::is_canonical;
use crate::utils::lemma_dword_round_trip;
use crate::utils::lemma_from_dword_round_trip;
use crate::utils::lemma_untagged_round_trip;
use crate::utils::pred;
use crate::utils::pred_wide;
use crate::utils::spec_comp_of;
use crate::utils::spec_from_dword;
use crate::utils::spec_pred_of;
use crate::utils::spec_succ_of;
use crate::utils::spec_tagged;
use crate::utils::spec_untagged;
use crate::utils::succ;
use crate::utils::succ_wide;
use crate::utils::wide_w;
use crate::utils::TAGGED_W;
use std::sync::atomic::AtomicU64;
use std::sync::atomic::Ordering;
use vstd::prelude::*;

verus! {

/// The 128-bit atomic of `portable_atomic`. Nothing inside it is visible to
/// a proof.
#[verifier::external_type_specification]
#[verifier::external_body]
pub struct ExAtomicU128(portable_atomic::AtomicU128);

/// The double word that a 128-bit atomic was made with. Whatever is stored
/// in the atomic later, this stays.
pub uninterp spec fn dword_made_with(atomic: portable_atomic::AtomicU128) -> u128;

/// `portable_atomic::AtomicU128::new` makes an atomic that starts at `v`.
#[verifier::external_body]
fn dword_atomic(v: u128) -> (r: portable_atomic::AtomicU128)
    ensures
        dword_made_with(r) == v,
{
    portable_atomic::AtomicU128::new(v)
}

/// The word that a 64-bit atomic was made with. Whatever is stored in the
/// atomic later, this stays.
pub uninterp spec fn tagged_made_with(atomic: AtomicU64) -> u64;

/// `AtomicU64::new` of std makes an atomic that starts at `v`.
#[verifier::external_body]
fn tagged_atomic(v: u64) -> (r: AtomicU64)
    ensures
        tagged_made_with(r) == v,
{
    AtomicU64::new(v)
}

/// `portable_atomic::AtomicU128::load` reads the current value, which any
/// thread may have written: nothing is claimed of it. The call panics on
/// the orderings `Release` and `AcqRel`, which are left out.
pub assume_specification[ portable_atomic::AtomicU128::load ](
    atomic: &portable_atomic::AtomicU128,
    order: Ordering,
) -> u128
    requires
        !(order matches Ordering::Release),
        !(order matches Ordering::AcqRel),
;

/// `portable_atomic::AtomicU128::compare_exchange` writes `new` if the
/// atomic holds `current` and hands back the value it found. On success
/// that value is `current`. The call does not fail while the atomic holds
/// `current`, so on failure that value is another one. The call panics
/// where the failure ordering is `Release` or `AcqRel`, which are left
/// out.
pub assume_specification[ portable_atomic::AtomicU128::compare_exchange ](
    atomic: &portable_atomic::AtomicU128,
    current: u128,
    new: u128,
    success: Ordering,
    failure: Ordering,
) -> (r: Result<u128, u128>)
    requires
        !(failure matches Ordering::Release),
        !(failure matches Ordering::AcqRel),
    ensures
        r matches Ok(found) ==> found == current,
        r matches Err(found) ==> found != current,
;

/// `AtomicU64::compare_exchange` of std, with the orderings of the cells:
/// acquire and release on success, relaxed on failure. It writes `new` if
/// the atomic holds `current` and hands back the value it found. On
/// success that value is `current`. The call does not fail while the
/// atomic holds `current`, so on failure that value is another one.
#[verifier::external_body]
fn swap_word(atomic: &AtomicU64, current: u64, new: u64) -> (r: Result<u64, u64>)
    ensures
        r matches Ok(found) ==> found == current,
        r matches Err(found) ==> found != current,
{
    atomic.compare_exchange(current, new, Ordering::AcqRel, Ordering::Relaxed)
}

/// What a kind of cell offers to the ring.
pub trait ItemInner: Sized {
    /// The number of distinct lap counters, `W`. Counters live modulo `W`.
    spec fn spec_max_w() -> int;

    /// Whether a cell of this kind hands the item `ptr` back as it was
    /// stored.
    spec fn spec_fits(ptr: u64) -> bool;

    /// What a cell of this kind hands back after `count` and `ptr` were
    /// stored in it.
    spec fn spec_stored(count: u64, ptr: u64) -> (u64, u64);

    /// The counter and the item that the cell held when it was made.
    /// Whatever is stored in the cell later, this stays.
    spec fn spec_start(&self) -> (u64, u64);

    /// `W` is at least 4, so that half a window is more than one lap,
    /// and every counter fits into 64 bits.
    proof fn lemma_max_w()
        ensures
            4 <= Self::spec_max_w() <= 0x1_0000_0000_0000_0000,
    ;

    /// Decides whether cell `i` with counter `u` comes before cell `j`
    /// with counter `v`.
    fn comes_before(i: usize, u: u64, j: usize, v: u64) -> (r: bool)
        ensures
            r == spec_comp_of(i, u, j, v, Self::spec_max_w()),
    ;

    /// Returns the counter after `c`.
    fn succ(c: u64) -> (r: u64)
        ensures
            r == spec_succ_of(c, Self::spec_max_w()),
    ;

    /// Returns the counter before `c`.
    fn pred(c: u64) -> (r: u64)
        ensures
            r == spec_pred_of(c, Self::spec_max_w()),
    ;

    /// Tells whether a cell of this kind hands the item `ptr` back as it
    /// was stored.
    fn fits(ptr: u64) -> (r: bool)
        ensures
            r == Self::spec_fits(ptr),
    ;

    /// Makes an empty cell: counter 0, no item.
    fn new() -> (r: Self)
        ensures
            r.spec_start() == (0u64, 0u64),
    ;

    /// Reads the counter and the item of the cell. Any thread may have
    /// stored them; they are a pair that the cell hands back as it is.
    fn components(&self) -> (r: (u64, u64))
        ensures
            Self::spec_fits(r.1),
            Self::spec_stored(r.0, r.1) == r,
    ;

    /// Replaces the old counter and item by the new ones in one atomic
    /// step, if the cell still holds the old ones. Hands back what the
    /// cell held: in `Ok` where the cell was changed, and then the old
    /// ones as the cell stores them, in `Err` where it held something else.
    fn cmpxchg(&self, old_ptr: u64, old_count: u64, new_ptr: u64, new_count: u64) -> (r: Result<
        (u64, u64),
        (u64, u64),
    >)
        ensures
            r matches Ok(found) ==> found == Self::spec_stored(old_count, old_ptr),
            r matches Err(found) ==> found != Self::spec_stored(old_count, old_ptr),
            match r {
                Ok(found) => Self::spec_fits(found.1) && Self::spec_stored(found.0, found.1)
                    == found,
                Err(found) => Self::spec_fits(found.1) && Self::spec_stored(found.0, found.1)
                    == found,
            },
    ;
}

/// A cell in one tagged 64-bit word: the counter in the high 16 bits, the
/// item in the low 48 bits.
pub struct TaggedItemInner {
    ptr: AtomicU64,
}

impl TaggedItemInner {
    /// Makes a cell that holds the tagged word `ptr`.
    pub fn from_tagged(ptr: u64) -> (r: Self)
        ensures
            r.spec_start() == spec_untagged(ptr),
    {
        Self { ptr: tagged_atomic(ptr) }
    }

    /// Makes a cell that holds `count` and `ptr`, as far as a tagged word
    /// has room for them.
    pub fn from_components(count: u64, ptr: u64) -> (r: Self)
        ensures
            r.spec_start() == spec_untagged(spec_tagged(count, ptr)),
    {
        Self::from_tagged(components_as_tagged(count, ptr))
    }
}

impl ItemInner for TaggedItemInner {
    open spec fn spec_max_w() -> int {
        0x1_0000
    }

    open spec fn spec_fits(ptr: u64) -> bool {
        is_canonical(ptr)
    }

    open spec fn spec_stored(count: u64, ptr: u64) -> (u64, u64) {
        spec_untagged(spec_tagged(count, ptr))
    }

    closed spec fn spec_start(&self) -> (u64, u64) {
        spec_untagged(tagged_made_with(self.ptr))
    }

    proof fn lemma_max_w() {
    }

    fn comes_before(i: usize, u: u64, j: usize, v: u64) -> (r: bool) {
        comp(i, u, j, v, TAGGED_W)
    }

    fn succ(c: u64) -> (r: u64) {
        succ(c, TAGGED_W)
    }

    fn pred(c: u64) -> (r: u64) {
        pred(c, TAGGED_W)
    }

    fn fits(ptr: u64) -> (r: bool) {
        ptr < 0x8000_0000_0000 || ptr >= 0xFFFF_8000_0000_0000
    }

    fn new() -> (r: Self) {
        proof {
            lemma_untagged_zero();
        }
        Self::from_tagged(0)
    }

    fn components(&self) -> (r: (u64, u64))
        ensures
            r.0 < 0x1_0000,
    {
        let word: u64 = self.ptr.load(Ordering::Acquire);
        proof {
            lemma_untagged_round_trip(word);
        }
        components_from_tagged(word)
    }

    fn cmpxchg(&self, old_ptr: u64, old_count: u64, new_ptr: u64, new_count: u64) -> (r: Result<
        (u64, u64),
        (u64, u64),
    >) {
        let old: u64 = components_as_tagged(old_count, old_ptr);
        let new: u64 = components_as_tagged(new_count, new_ptr);
        match swap_word(&self.ptr, old, new) {
            Ok(found) => {
                proof {
                    lemma_untagged_round_trip(found);
                }
                Ok(components_from_tagged(found))
            },
            Err(found) => {
                proof {
                    lemma_untagged_round_trip(found);
                    lemma_untagged_round_trip(old);
                }
                Err(components_from_tagged(found))
            },
        }
    }
}

/// The tagged word 0 is the empty cell with the counter 0.
proof fn lemma_untagged_zero()
    ensures
        spec_untagged(0) == (0u64, 0u64),
{
}

/// A cell in one 128-bit double word: the counter in the high 64 bits, the
/// item in the low 64 bits.
pub struct DWordItemInner {
    storage: portable_atomic::AtomicU128,
}

impl DWordItemInner {
    /// Makes a cell that holds `count` and `ptr`.
    pub fn from_components(count: u64, ptr: u64) -> (r: Self)
        ensures
            r.spec_start() == (count, ptr),
    {
        proof {
            lemma_dword_round_trip(count, ptr);
        }
        Self::from_dword(components_as_dword(count, ptr))
    }

    /// Makes a cell that holds the double word `dword`.
    pub fn from_dword(dword: u128) -> (r: Self)
        ensures
            r.spec_start() == spec_from_dword(dword),
    {
        Self { storage: dword_atomic(dword) }
    }
}

impl ItemInner for DWordItemInner {
    open spec fn spec_max_w() -> int {
        wide_w()
    }

    open spec fn spec_fits(ptr: u64) -> bool {
        true
    }

    open spec fn spec_stored(count: u64, ptr: u64) -> (u64, u64) {
        (count, ptr)
    }

    closed spec fn spec_start(&self) -> (u64, u64) {
        spec_from_dword(dword_made_with(self.storage))
    }

    proof fn lemma_max_w() {
    }

    fn comes_before(i: usize, u: u64, j: usize, v: u64) -> (r: bool) {
        comp_wide(i, u, j, v)
    }

    fn succ(c: u64) -> (r: u64) {
        succ_wide(c)
    }

    fn pred(c: u64) -> (r: u64) {
        pred_wide(c)
    }

    fn fits(ptr: u64) -> (r: bool) {
        true
    }

    fn new() -> (r: Self) {
        proof {
            lemma_from_dword_zero();
        }
        Self::from_dword(0)
    }

    fn components(&self) -> (r: (u64, u64)) {
        components_from_dword(self.storage.load(Ordering::Acquire))
    }

    fn cmpxchg(&self, old_ptr: u64, old_count: u64, new_ptr: u64, new_count: u64) -> (r: Result<
        (u64, u64),
        (u64, u64),
    >) {
        let old: u128 = components_as_dword(old_count, old_ptr);
        let new: u128 = components_as_dword(new_count, new_ptr);
        match self.storage.compare_exchange(old, new, Ordering::AcqRel, Ordering::Relaxed) {
            Ok(found) => {
                proof {
                    lemma_dword_round_trip(old_count, old_ptr);
                }
                Ok(components_from_dword(found))
            },
            Err(found) => {
                proof {
                    lemma_from_dword_round_trip(found);
                }
                Err(components_from_dword(found))
            },
        }
    }
}

/// The double word 0 is the empty cell with the counter 0.
proof fn lemma_from_dword_zero()
    ensures
        spec_from_dword(0) == (0u64, 0u64),
{
}

/// One cell of the ring, of kind `I`.
pub struct GenericItem<I: ItemInner> {
    inner: I,
}

impl<I: ItemInner> GenericItem<I> {
    /// The counter and the item that the cell held when it was made.
    pub closed spec fn spec_start(&self) -> (u64, u64) {
        self.inner.spec_start()
    }

    /// Makes an empty cell.
    pub fn new() -> (r: Self)
        ensures
            r.spec_start() == (0u64, 0u64),
    {
        Self { inner: I::new() }
    }

    /// Reads the counter and the item of the cell. Any thread may have
    /// stored them; they are a pair that the cell hands back as it is.
    pub fn components(&self) -> (r: (u64, u64))
        ensures
            I::spec_fits(r.1),
            I::spec_stored(r.0, r.1) == r,
    {
        self.inner.components()
    }

    /// Replaces the old counter and item by the new ones in one atomic
    /// step, if the cell still holds the old ones. Hands back what the
    /// cell held: in `Ok` where the cell was changed, and then the old
    /// ones as the cell stores them, in `Err` where it held something else.
    pub fn cmpxchg(&self, old_ptr: u64, old_count: u64, new_ptr: u64, new_count: u64) -> (r:
        Result<(u64, u64), (u64, u64)>)
        ensures
            r matches Ok(found) ==> found == I::spec_stored(old_count, old_ptr),
            r matches Err(found) ==> found != I::spec_stored(old_count, old_ptr),
            match r {
                Ok(found) => I::spec_fits(found.1) && I::spec_stored(found.0, found.1) == found,
                Err(found) => I::spec_fits(found.1) && I::spec_stored(found.0, found.1) == found,
            },
    {
        self.inner.cmpxchg(old_ptr, old_count, new_ptr, new_count)
    }
}

/// What every cell of `cells` held when it was made.
pub open spec fn starts_of<I: ItemInner>(cells: Seq<GenericItem<I>>) -> Seq<(u64, u64)> {
    Seq::new(cells.len(), |i: int| cells[i].spec_start())
}

/// `n` empty cells with the counter 0.
pub open spec fn empty_cells(n: nat) -> Seq<(u64, u64)> {
    Seq::new(n, |i: int| (0u64, 0u64))
}

/// A fixed run of cells.
pub trait Buffer {
    /// The kind of cell in the buffer.
    type Cell: ItemInner;

    /// The number of cells.
    spec fn spec_len(&self) -> nat;

    /// What every cell held when the buffer was made, in the order of the
    /// cells.
    spec fn spec_start(&self) -> Seq<(u64, u64)>;

    /// The buffer has as many cells as `spec_len` says.
    proof fn lemma_start_len(&self)
        ensures
            self.spec_start().len() == self.spec_len(),
    ;

    /// Returns the number of cells.
    fn len(&self) -> (n: usize)
        ensures
            n == self.spec_len(),
    ;

    /// Returns the cells.
    fn inner(&self) -> (cells: &[GenericItem<Self::Cell>])
        ensures
            cells@.len() == self.spec_len(),
            starts_of(cells@) == self.spec_start(),
    ;
}

/// A buffer of `N` cells held in place.
pub struct HeaplessBuf<const N: usize, I: ItemInner> {
    inner: [GenericItem<I>; N],
}

/// `core::array::from_fn` makes an array of `N` values, each of them what
/// one call of the closure returned. The closure here is a call of
/// `GenericItem::new`, so each of them is a cell that was made empty.
#[verifier::external_body]
fn fresh_cells<const N: usize, I: ItemInner>() -> (r: [GenericItem<I>; N])
    ensures
        forall|i: int| 0 <= i < N ==> (#[trigger] r@[i]).spec_start() == (0u64, 0u64),
{
    core::array::from_fn(|_| GenericItem::new())
}

impl<const N: usize, I: ItemInner> HeaplessBuf<N, I> {
    /// Makes a buffer of `N` empty cells.
    pub fn new() -> (r: Self)
        ensures
            r.spec_len() == N,
            r.spec_start() == empty_cells(N as nat),
    {
        let r = Self { inner: fresh_cells() };
        assert(r.spec_start() =~= empty_cells(N as nat));
        r
    }
}

impl<const N: usize, I: ItemInner> Default for HeaplessBuf<N, I> {
    fn default() -> (r: Self)
        ensures
            r.spec_len() == N,
            r.spec_start() == empty_cells(N as nat),
    {
        Self::new()
    }
}

impl<const N: usize, I: ItemInner> Buffer for HeaplessBuf<N, I> {
    type Cell = I;

    open spec fn spec_len(&self) -> nat {
        N as nat
    }

    closed spec fn spec_start(&self) -> Seq<(u64, u64)> {
        starts_of(self.inner@)
    }

    proof fn lemma_start_len(&self) {
    }

    fn len(&self) -> (n: usize) {
        N
    }

    fn inner(&self) -> (cells: &[GenericItem<I>]) {
        self.inner.as_slice()
    }
}

/// A buffer of cells on the heap, its length chosen when it is made.
pub struct FixedBuf<I: ItemInner> {
    inner: Vec<GenericItem<I>>,
}

impl<I: ItemInner> FixedBuf<I> {
    /// Makes a buffer of `size` empty cells.
    pub fn new(size: usize) -> (r: Self)
        ensures
            r.spec_len() == size,
            r.spec_start() == empty_cells(size as nat),
    {
        let mut inner: Vec<GenericItem<I>> = Vec::with_capacity(size);
        let mut made: usize = 0;
        while made < size
            invariant
                made <= size,
                inner@.len() == made,
                forall|i: int| 0 <= i < made ==> (#[trigger] inner@[i]).spec_start() == (0u64, 0u64),
            decreases size - made,
        {
            inner.push(GenericItem::new());
            made = made + 1;
        }
        let r = Self { inner };
        assert(r.spec_start() =~= empty_cells(size as nat));
        r
    }
}

impl<I: ItemInner> Buffer for FixedBuf<I> {
    type Cell = I;

    closed spec fn spec_len(&self) -> nat {
        self.inner@.len()
    }

    closed spec fn spec_start(&self) -> Seq<(u64, u64)> {
        starts_of(self.inner@)
    }

    proof fn lemma_start_len(&self) {
    }

    fn len(&self) -> (n: usize) {
        self.inner.len()
    }

    fn inner(&self) -> (cells: &[GenericItem<I>]) {
        self.inner.as_slice()
    }
}

} // verus!
