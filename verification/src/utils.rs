//! Index and counter arithmetic of the ring, and the two encodings of a cell.

use vstd::prelude::*;

verus! {

/// The bits of a tagged word that hold the item: the low 48.
pub const PTR_MASK: u64 = 0xFFFF_FFFF_FFFF;

/// Number of distinct lap counters of a tagged word: `2^16`.
pub const TAGGED_W: u64 = 0x1_0000;

/// The index before `i` on a ring of `size` cells.
pub open spec fn spec_prev(i: int, size: int) -> int {
    (i + size - 1) % size
}

/// The index after `i` on a ring of `size` cells.
pub open spec fn spec_next(i: int, size: int) -> int {
    (i + 1) % size
}

/// Whether the cell at index `i` with counter `u` comes before the cell at
/// index `j` with counter `v`, where counters live modulo `w`.
///
/// In the same lap the index decides. Across laps the cell whose counter is
/// less than half a window behind comes first.
pub open spec fn spec_comp(i: int, u: int, j: int, v: int, w: int) -> bool {
    if u == v {
        i < j
    } else {
        (v + w - u) % w < w / 2
    }
}

/// The counter after `c`, modulo `w`.
pub open spec fn spec_succ(c: int, w: int) -> int {
    (c + 1) % w
}

/// The counter before `c`, modulo `w`.
pub open spec fn spec_pred(c: int, w: int) -> int {
    (c + w - 1) % w
}

/// The number of distinct counters of a double word: `2^64`.
pub open spec fn wide_w() -> int {
    0x1_0000_0000_0000_0000
}

/// `spec_comp` of two indices and two counters as the cells hold them.
pub open spec fn spec_comp_of(i: usize, u: u64, j: usize, v: u64, w: int) -> bool {
    spec_comp(i as int, u as int, j as int, v as int, w)
}

/// `spec_succ` of a counter as a cell holds it.
pub open spec fn spec_succ_of(c: u64, w: int) -> int {
    spec_succ(c as int, w)
}

/// `spec_pred` of a counter as a cell holds it.
pub open spec fn spec_pred_of(c: u64, w: int) -> int {
    spec_pred(c as int, w)
}

/// The tagged word of a counter and an item: the low 16 bits of the counter
/// above the low 48 bits of the item.
pub open spec fn spec_tagged(count: u64, ptr: u64) -> u64 {
    ((count % 0x1_0000) * 0x1_0000_0000_0000 + ptr % 0x1_0000_0000_0000) as u64
}

/// A 48-bit value widened to 64 bits by repeating bit 47 upward.
pub open spec fn spec_sign_extend(ptr: u64) -> u64 {
    if (ptr / 0x8000_0000_0000) % 2 == 1 {
        (0xFFFF_0000_0000_0000 + ptr % 0x1_0000_0000_0000) as u64
    } else {
        ptr
    }
}

/// The counter and the item of a tagged word.
pub open spec fn spec_untagged(word: u64) -> (u64, u64) {
    (word / 0x1_0000_0000_0000, spec_sign_extend(word % 0x1_0000_0000_0000))
}

/// An item that a tagged word can hold without loss: bits 47 to 63 agree.
pub open spec fn is_canonical(ptr: u64) -> bool {
    ptr < 0x8000_0000_0000 || ptr >= 0xFFFF_8000_0000_0000
}

/// The double word of a counter and an item: the counter in the high 64
/// bits, the item in the low 64 bits.
pub open spec fn spec_dword(count: u64, ptr: u64) -> u128 {
    (count * 0x1_0000_0000_0000_0000 + ptr) as u128
}

/// The counter and the item of a double word.
pub open spec fn spec_from_dword(dword: u128) -> (u64, u64) {
    ((dword / 0x1_0000_0000_0000_0000) as u64, (dword % 0x1_0000_0000_0000_0000) as u64)
}

/// Returns the index before `i` on a ring of `size` cells.
pub fn prev(i: usize, size: usize) -> (r: usize)
    requires
        size > 0,
    ensures
        r == spec_prev(i as int, size as int),
        r < size,
{
    let at: usize = i % size;
    proof {
        lemma_prev_of_residue(i as int, size as int);
    }
    if at == 0 {
        size - 1
    } else {
        at - 1
    }
}

/// Returns the index after `i` on a ring of `size` cells.
pub fn next(i: usize, size: usize) -> (r: usize)
    requires
        size > 0,
    ensures
        r == spec_next(i as int, size as int),
        r < size,
{
    let at: usize = i % size;
    proof {
        lemma_succ_of_residue(i as int, size as int);
    }
    if at == size - 1 {
        0
    } else {
        at + 1
    }
}

/// Decides whether cell `i` with counter `u` comes before cell `j` with
/// counter `v`, counters taken modulo `w_max`.
pub fn comp(i: usize, u: u64, j: usize, v: u64, w_max: u64) -> (r: bool)
    requires
        w_max > 0,
    ensures
        r == spec_comp(i as int, u as int, j as int, v as int, w_max as int),
{
    if u == v {
        i < j
    } else {
        let a: u64 = v % w_max;
        let b: u64 = u % w_max;
        let gap: u64 = if a >= b {
            a - b
        } else {
            w_max - (b - a)
        };
        proof {
            lemma_gap(u as int, v as int, w_max as int);
        }
        gap < w_max / 2
    }
}

/// Returns the counter after `c`, modulo `w`.
pub fn succ(c: u64, w: u64) -> (r: u64)
    requires
        w > 0,
    ensures
        r == spec_succ(c as int, w as int),
        r < w,
{
    let at: u64 = c % w;
    proof {
        lemma_succ_of_residue(c as int, w as int);
    }
    if at == w - 1 {
        0
    } else {
        at + 1
    }
}

/// Returns the counter before `c`, modulo `w`.
pub fn pred(c: u64, w: u64) -> (r: u64)
    requires
        w > 0,
    ensures
        r == spec_pred(c as int, w as int),
        r < w,
{
    let at: u64 = c % w;
    proof {
        lemma_prev_of_residue(c as int, w as int);
    }
    if at == 0 {
        w - 1
    } else {
        at - 1
    }
}

/// Decides whether cell `i` with counter `u` comes before cell `j` with
/// counter `v`, counters taken modulo `2^64`.
pub fn comp_wide(i: usize, u: u64, j: usize, v: u64) -> (r: bool)
    ensures
        r == spec_comp(i as int, u as int, j as int, v as int, wide_w()),
{
    if u == v {
        i < j
    } else {
        let gap: u64 = if v >= u {
            v - u
        } else {
            (u64::MAX - (u - v)) + 1
        };
        proof {
            lemma_gap(u as int, v as int, wide_w());
            vstd::arithmetic::div_mod::lemma_small_mod(u as nat, wide_w() as nat);
            vstd::arithmetic::div_mod::lemma_small_mod(v as nat, wide_w() as nat);
        }
        gap < 0x8000_0000_0000_0000
    }
}

/// Returns the counter after `c`, modulo `2^64`.
pub fn succ_wide(c: u64) -> (r: u64)
    ensures
        r == spec_succ(c as int, wide_w()),
{
    proof {
        lemma_succ_of_residue(c as int, wide_w());
        vstd::arithmetic::div_mod::lemma_small_mod(c as nat, wide_w() as nat);
    }
    if c == u64::MAX {
        0
    } else {
        c + 1
    }
}

/// Returns the counter before `c`, modulo `2^64`.
pub fn pred_wide(c: u64) -> (r: u64)
    ensures
        r == spec_pred(c as int, wide_w()),
{
    proof {
        lemma_prev_of_residue(c as int, wide_w());
        vstd::arithmetic::div_mod::lemma_small_mod(c as nat, wide_w() as nat);
    }
    if c == 0 {
        u64::MAX
    } else {
        c - 1
    }
}

/// Packs a counter and an item into one tagged word.
pub fn components_as_tagged(count: u64, ptr: u64) -> (r: u64)
    ensures
        r == spec_tagged(count, ptr),
{
    let low: u64 = ptr & PTR_MASK;
    let r: u64 = (count << 48) | low;
    assert(((count << 48) | (ptr & 0xFFFF_FFFF_FFFFu64)) == ((count % 0x1_0000)
        * 0x1_0000_0000_0000 + ptr % 0x1_0000_0000_0000) as u64) by (bit_vector);
    r
}

/// Unpacks a tagged word into its counter and its item.
pub fn components_from_tagged(ptr: u64) -> (r: (u64, u64))
    ensures
        r == spec_untagged(ptr),
        r.0 < TAGGED_W,
        is_canonical(r.1),
{
    let count: u64 = ptr >> 48;
    let low: u64 = ptr & PTR_MASK;
    assert(ptr >> 48 == ptr / 0x1_0000_0000_0000) by (bit_vector);
    assert(ptr >> 48 < 0x1_0000) by (bit_vector);
    assert(ptr & 0xFFFF_FFFF_FFFFu64 == ptr % 0x1_0000_0000_0000) by (bit_vector);
    proof {
        lemma_sign_extend_canonical(low);
    }
    (count, sign_extend(low))
}

/// Widens a 48-bit value to 64 bits by repeating bit 47 upward.
pub fn sign_extend(ptr: u64) -> (r: u64)
    ensures
        r == spec_sign_extend(ptr),
{
    assert((ptr & (1u64 << 47) != 0) == ((ptr / 0x8000_0000_0000) % 2 == 1)) by (bit_vector);
    if ptr & (1u64 << 47) != 0 {
        assert((ptr | (!0xFFFF_FFFF_FFFFu64)) == (0xFFFF_0000_0000_0000 + ptr
            % 0x1_0000_0000_0000) as u64) by (bit_vector);
        ptr | (!PTR_MASK)
    } else {
        ptr
    }
}

/// Packs a counter and an item into one double word.
pub fn components_as_dword(count: u64, ptr: u64) -> (r: u128)
    ensures
        r == spec_dword(count, ptr),
{
    let r: u128 = ((count as u128) << 64) | (ptr as u128);
    assert((((count as u128) << 64) | (ptr as u128)) == (count * 0x1_0000_0000_0000_0000 + ptr) as u128)
        by (bit_vector);
    r
}

/// Unpacks a double word into its counter and its item.
pub fn components_from_dword(dword: u128) -> (r: (u64, u64))
    ensures
        r == spec_from_dword(dword),
{
    let count: u64 = (dword >> 64) as u64;
    let ptr: u64 = dword as u64;
    assert(((dword >> 64) as u64) == (dword / 0x1_0000_0000_0000_0000) as u64) by (bit_vector);
    assert((dword as u64) == (dword % 0x1_0000_0000_0000_0000) as u64) by (bit_vector);
    (count, ptr)
}

/// For `r = i mod n`: the predecessor of `i` modulo `n` is `n - 1` where
/// `r` is 0 and `r - 1` elsewhere.
pub proof fn lemma_prev_of_residue(i: int, n: int)
    requires
        n > 0,
    ensures
        (i + n - 1) % n == (if i % n == 0 {
            n - 1
        } else {
            i % n - 1
        }),
{
    let q = i / n;
    let r = i % n;
    vstd::arithmetic::div_mod::lemma_fundamental_div_mod(i, n);
    vstd::arithmetic::div_mod::lemma_mod_bound(i, n);
    assert(n * (q + 1) == n * q + n) by (nonlinear_arith);
    if r == 0 {
        vstd::arithmetic::div_mod::lemma_fundamental_div_mod_converse(i + n - 1, n, q, n - 1);
    } else {
        vstd::arithmetic::div_mod::lemma_fundamental_div_mod_converse(i + n - 1, n, q + 1, r - 1);
    }
}

/// For `r = c mod n`: the successor of `c` modulo `n` is 0 where `r` is
/// `n - 1` and `r + 1` elsewhere.
pub proof fn lemma_succ_of_residue(c: int, n: int)
    requires
        n > 0,
    ensures
        (c + 1) % n == (if c % n == n - 1 {
            0
        } else {
            c % n + 1
        }),
{
    let q = c / n;
    let r = c % n;
    vstd::arithmetic::div_mod::lemma_fundamental_div_mod(c, n);
    vstd::arithmetic::div_mod::lemma_mod_bound(c, n);
    assert(n * (q + 1) == n * q + n) by (nonlinear_arith);
    if r == n - 1 {
        vstd::arithmetic::div_mod::lemma_fundamental_div_mod_converse(c + 1, n, q + 1, 0);
    } else {
        vstd::arithmetic::div_mod::lemma_fundamental_div_mod_converse(c + 1, n, q, r + 1);
    }
}

/// The distance from `u` up to `v` modulo `w`, from the residues of both.
pub proof fn lemma_gap(u: int, v: int, w: int)
    requires
        w > 0,
    ensures
        (v + w - u) % w == (if v % w >= u % w {
            v % w - u % w
        } else {
            w - (u % w - v % w)
        }),
{
    let qv = v / w;
    let qu = u / w;
    let a = v % w;
    let b = u % w;
    vstd::arithmetic::div_mod::lemma_fundamental_div_mod(v, w);
    vstd::arithmetic::div_mod::lemma_fundamental_div_mod(u, w);
    vstd::arithmetic::div_mod::lemma_mod_bound(v, w);
    vstd::arithmetic::div_mod::lemma_mod_bound(u, w);
    assert(w * (qv - qu + 1) == w * qv - w * qu + w) by (nonlinear_arith);
    assert(w * (qv - qu) == w * qv - w * qu) by (nonlinear_arith);
    if a >= b {
        vstd::arithmetic::div_mod::lemma_fundamental_div_mod_converse(
            v + w - u,
            w,
            qv - qu + 1,
            a - b,
        );
    } else {
        vstd::arithmetic::div_mod::lemma_fundamental_div_mod_converse(
            v + w - u,
            w,
            qv - qu,
            w - (b - a),
        );
    }
}

/// Widening a 48-bit value gives a canonical item.
pub proof fn lemma_sign_extend_canonical(ptr: u64)
    requires
        ptr < 0x1_0000_0000_0000,
    ensures
        is_canonical(spec_sign_extend(ptr)),
{
    assert(ptr < 0x1_0000_0000_0000 ==> ((ptr / 0x8000_0000_0000) % 2 == 1 ==> (
    0xFFFF_0000_0000_0000 + ptr % 0x1_0000_0000_0000) as u64 >= 0xFFFF_8000_0000_0000) && ((ptr
        / 0x8000_0000_0000) % 2 != 1 ==> ptr < 0x8000_0000_0000)) by (bit_vector);
}

/// Packing a counter below `2^16` and a canonical item into a tagged word
/// and unpacking the word gives both back.
pub proof fn lemma_tagged_round_trip(count: u64, ptr: u64)
    requires
        count < 0x1_0000,
        is_canonical(ptr),
    ensures
        spec_untagged(spec_tagged(count, ptr)) == (count, ptr),
{
    let word = spec_tagged(count, ptr);
    let low = (word % 0x1_0000_0000_0000) as u64;
    assert(count < 0x1_0000 ==> (((count % 0x1_0000) * 0x1_0000_0000_0000 + ptr
        % 0x1_0000_0000_0000) as u64) / 0x1_0000_0000_0000 == count) by (bit_vector);
    assert(count < 0x1_0000 ==> (((count % 0x1_0000) * 0x1_0000_0000_0000 + ptr
        % 0x1_0000_0000_0000) as u64) % 0x1_0000_0000_0000 == ptr % 0x1_0000_0000_0000)
        by (bit_vector);
    assert(low == ptr % 0x1_0000_0000_0000);
    assert((ptr < 0x8000_0000_0000 || ptr >= 0xFFFF_8000_0000_0000) ==> (if ((ptr
        % 0x1_0000_0000_0000) / 0x8000_0000_0000) % 2 == 1 {
        (0xFFFF_0000_0000_0000 + (ptr % 0x1_0000_0000_0000) % 0x1_0000_0000_0000) as u64
    } else {
        ptr % 0x1_0000_0000_0000
    }) == ptr) by (bit_vector);
}

/// Unpacking any tagged word and packing the parts gives the word back.
pub proof fn lemma_untagged_round_trip(word: u64)
    ensures
        spec_tagged(spec_untagged(word).0, spec_untagged(word).1) == word,
{
    let count = spec_untagged(word).0;
    let low = (word % 0x1_0000_0000_0000) as u64;
    let ptr = spec_sign_extend(low);
    assert(((word % 0x1_0000_0000_0000) / 0x8000_0000_0000) % 2 == 1 ==> ((0xFFFF_0000_0000_0000
        + (word % 0x1_0000_0000_0000) % 0x1_0000_0000_0000) as u64) % 0x1_0000_0000_0000 == word
        % 0x1_0000_0000_0000) by (bit_vector);
    assert((word % 0x1_0000_0000_0000) % 0x1_0000_0000_0000 == word % 0x1_0000_0000_0000)
        by (bit_vector);
    assert(ptr % 0x1_0000_0000_0000 == word % 0x1_0000_0000_0000);
    assert((((word / 0x1_0000_0000_0000) % 0x1_0000) * 0x1_0000_0000_0000 + word
        % 0x1_0000_0000_0000) as u64 == word) by (bit_vector);
}

/// Packing any counter and item into a double word and unpacking the word
/// gives both back.
pub proof fn lemma_dword_round_trip(count: u64, ptr: u64)
    ensures
        spec_from_dword(spec_dword(count, ptr)) == (count, ptr),
{
    assert((((count * 0x1_0000_0000_0000_0000 + ptr) as u128) / 0x1_0000_0000_0000_0000) as u64
        == count) by (bit_vector);
    assert((((count * 0x1_0000_0000_0000_0000 + ptr) as u128) % 0x1_0000_0000_0000_0000) as u64
        == ptr) by (bit_vector);
}

/// Unpacking any double word and packing the parts gives the word back.
pub proof fn lemma_from_dword_round_trip(dword: u128)
    ensures
        spec_dword(spec_from_dword(dword).0, spec_from_dword(dword).1) == dword,
{
    assert(((((dword / 0x1_0000_0000_0000_0000) as u64) * 0x1_0000_0000_0000_0000 + ((dword
        % 0x1_0000_0000_0000_0000) as u64)) as u128) == dword) by (bit_vector);
}

/// Between two cells with the same counter the index alone decides which
/// comes first.
pub proof fn lemma_comp_same_counter(i: int, c: int, j: int, w: int)
    ensures
        spec_comp(i, c, j, c, w) == (i < j),
{
}

/// Of two cells with counters below `w`, at most one comes before the
/// other.
pub proof fn lemma_comp_antisymmetric(i: int, u: int, j: int, v: int, w: int)
    requires
        w > 0,
        0 <= u < w,
        0 <= v < w,
    ensures
        !(spec_comp(i, u, j, v, w) && spec_comp(j, v, i, u, w)),
{
    if u != v {
        lemma_gap(u, v, w);
        lemma_gap(v, u, w);
        vstd::arithmetic::div_mod::lemma_small_mod(u as nat, w as nat);
        vstd::arithmetic::div_mod::lemma_small_mod(v as nat, w as nat);
        assert(2 * (w / 2) <= w) by (nonlinear_arith)
            requires
                w > 0,
        ;
    }
}

} // verus!
