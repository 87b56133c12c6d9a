use nblfq::utils::comp;
use nblfq::utils::comp_wide;
use nblfq::utils::components_as_dword;
use nblfq::utils::components_as_tagged;
use nblfq::utils::components_from_dword;
use nblfq::utils::components_from_tagged;
use nblfq::utils::next;
use nblfq::utils::pred;
use nblfq::utils::pred_wide;
use nblfq::utils::prev;
use nblfq::utils::sign_extend;
use nblfq::utils::succ;
use nblfq::utils::succ_wide;

#[test]
fn into_tagged() {
    let ptr: u64 = u64::MAX;
    let count: u64 = 0xDEAD;
    let res = components_as_tagged(count, ptr);
    assert_eq!(res, 0xDEAD_FFFF_FFFF_FFFF);

    let ptr2: u64 = 0xDEAD_BEEF;
    let res = components_as_tagged(count, ptr2);
    assert_eq!(res, 0xDEAD_0000_DEAD_BEEF);

    let ptr: u64 = 0;
    assert_eq!(components_as_tagged(0, ptr), 0);
}

#[test]
fn from_tagged() {
    let ptr: u64 = u64::MAX;
    let count: u64 = 0xDEAD;
    let res: u64 = 0xDEAD_FFFF_FFFF_FFFF;

    assert_eq!(components_from_tagged(res), (count, ptr));

    let ptr2: u64 = 0xDEAD_BEEF;
    let res: u64 = 0xDEAD_0000_DEAD_BEEF;

    assert_eq!(components_from_tagged(res), (count, ptr2));

    let ptr: u64 = 0;
    assert_eq!(components_from_tagged(0), (0, ptr))
}

#[test]
fn tagged() {
    let ptr: u64 = u64::MAX;
    let ptr2: u64 = 0xDEAD_BEEF;
    let count: u64 = 0xDEAD;

    assert_eq!(
        components_from_tagged(components_as_tagged(count, ptr)),
        (count, ptr)
    );
    assert_eq!(
        components_from_tagged(components_as_tagged(count, ptr2)),
        (count, ptr2)
    );

    let data: u64 = 0x7FFF_0000_4242;
    let count: u64 = 42;
    let ptr = components_as_tagged(count, data);
    let (count_, data_) = components_from_tagged(ptr);
    assert_eq!(count, count_);
    assert_eq!(data, data_);
}

#[test]
fn into_dword() {
    let ptr: u64 = u64::MAX;
    let count: u64 = 0xDEAD;
    let res = components_as_dword(count, ptr);
    assert_eq!(res, 0xDEAD_u128 << 64 | u64::MAX as u128);

    let ptr2: u64 = 0xDEAD_BEEF;
    let res = components_as_dword(count, ptr2);
    assert_eq!(res, 0xDEAD_u128 << 64 | 0xDEAD_BEEF_u128);

    let ptr: u64 = 0;
    assert_eq!(components_as_dword(0, ptr), 0);
}

#[test]
fn from_dword() {
    let ptr: u64 = u64::MAX;
    let count: u64 = 0xDEAD;
    let res = 0xDEAD_u128 << 64 | u64::MAX as u128;

    assert_eq!(components_from_dword(res), (count, ptr));

    let ptr2: u64 = 0xDEAD_BEEF;
    let res = 0xDEAD_u128 << 64 | 0xDEAD_BEEF_u128;

    assert_eq!(components_from_dword(res), (count, ptr2));

    let ptr: u64 = 0;
    assert_eq!(components_from_dword(0), (0, ptr));
}

#[test]
fn dword() {
    let ptr: u64 = u64::MAX;
    let ptr2: u64 = 0xDEAD_BEEF;
    let count: u64 = 0xDEAD;

    assert_eq!(
        components_from_dword(components_as_dword(count, ptr)),
        (count, ptr)
    );
    assert_eq!(
        components_from_dword(components_as_dword(count, ptr2)),
        (count, ptr2)
    );

    let data: u64 = 0x7FFF_0000_4242;
    let count: u64 = 42;
    let dword = components_as_dword(count, data);
    let (count_, data_) = components_from_dword(dword);
    assert_eq!(count, count_);
    assert_eq!(data_, data);
}

#[test]
fn prev_() {
    assert_eq!(prev(9, 10), 8);
    assert_eq!(prev(0, 5), 4);
}

#[test]
fn comp_() {
    // cells are part of the same round,
    // cell i is before j, if i < j
    assert!(comp(0, 0, 1, 0, u16::MAX as u64 + 1));
    assert!(!comp(1, 1, 0, 1, u16::MAX as u64 + 1));

    // cells are part of different rounds,
    // cell i is before cell j, if its count is "1 less" than js
    assert!(comp(0, 1, 1, 2, u16::MAX as u64 + 1));
    assert!(!comp(0, 1, 1, 0, u16::MAX as u64 + 1));
    assert!(comp(0, u16::MAX as u64, 1, 0, u16::MAX as u64 + 1));
}

#[test]
fn prev_of_single_cell_and_of_large_index() {
    assert_eq!(prev(0, 1), 0);
    assert_eq!(prev(7, 1), 0);
    assert_eq!(prev(1, 2), 0);
    assert_eq!(prev(12, 10), 1);
    assert_eq!(prev(usize::MAX, usize::MAX), usize::MAX - 1);
}

#[test]
fn comp_same_counter_is_index_order() {
    for c in [0u64, 1, 77, 65535] {
        for i in 0usize..4 {
            for j in 0usize..4 {
                assert_eq!(comp(i, c, j, c, 65536), i < j);
            }
        }
    }
}

#[test]
fn comp_is_antisymmetric_below_the_window() {
    let w: u64 = 8;
    for u in 0..w {
        for v in 0..w {
            for i in 0usize..3 {
                for j in 0usize..3 {
                    assert!(!(comp(i, u, j, v, w) && comp(j, v, i, u, w)));
                }
            }
        }
    }
}

#[test]
fn comp_half_window() {
    // a gap of 3 is inside the half window of 8, a gap of 4 is not
    assert!(comp(0, 2, 0, 5, 8));
    assert!(!comp(0, 2, 0, 6, 8));
    assert!(!comp(0, 5, 0, 2, 8));
    // counters are taken modulo the window
    assert!(comp(0, 10, 0, 13, 8));
    assert!(comp(5, u64::MAX - 1, 1, 0, u64::MAX));
    assert!(!comp(1, 0, 5, u64::MAX - 1, u64::MAX));
}

#[test]
fn succ_and_pred_wrap() {
    assert_eq!(succ(0, 65536), 1);
    assert_eq!(succ(65535, 65536), 0);
    assert_eq!(pred(0, 65536), 65535);
    assert_eq!(pred(1, 65536), 0);
    assert_eq!(succ(u64::MAX - 1, u64::MAX), 0);
    assert_eq!(pred(0, u64::MAX), u64::MAX - 1);
    assert_eq!(succ(u64::MAX, u64::MAX), 1);
    assert_eq!(succ(70000, 65536), 4465);
    assert_eq!(pred(70000, 65536), 4463);
}

#[test]
fn sign_extend_repeats_bit_47() {
    assert_eq!(sign_extend(0), 0);
    assert_eq!(sign_extend(0x7FFF_FFFF_FFFF), 0x7FFF_FFFF_FFFF);
    assert_eq!(sign_extend(0x8000_0000_0000), 0xFFFF_8000_0000_0000);
    assert_eq!(sign_extend(0xFFFF_FFFF_FFFF), u64::MAX);
}

#[test]
fn tagged_drops_what_does_not_fit() {
    // only the low 16 bits of the counter and the low 48 bits of the item stay
    assert_eq!(components_as_tagged(0x1_0001, 7), 0x0001_0000_0000_0007);
    assert_eq!(components_as_tagged(1, 0x0001_0000_0000_0007), 0x0001_0000_0000_0007);
}

#[test]
fn tagged_round_trip_of_canonical_items() {
    for count in [0u64, 1, 0x7FFF, 0xFFFF] {
        for ptr in [0u64, 1, 0x7FFF_FFFF_FFFF, 0xFFFF_8000_0000_0000, u64::MAX] {
            assert_eq!(components_from_tagged(components_as_tagged(count, ptr)), (count, ptr));
        }
    }
    for word in [0u64, 1, 0xDEAD_0000_DEAD_BEEF, 0x0001_8000_0000_0000, u64::MAX] {
        let (count, ptr) = components_from_tagged(word);
        assert_eq!(components_as_tagged(count, ptr), word);
    }
}

#[test]
fn dword_round_trip_of_all_items() {
    for count in [0u64, 1, 0xFFFF, u64::MAX] {
        for ptr in [0u64, 1, 0x8000_0000_0000, 0x0001_0000_0000_0007, u64::MAX] {
            assert_eq!(components_from_dword(components_as_dword(count, ptr)), (count, ptr));
        }
    }
    for word in [0u128, 1, u128::MAX, 0xDEAD_u128 << 64 | 0xBEEF] {
        let (count, ptr) = components_from_dword(word);
        assert_eq!(components_as_dword(count, ptr), word);
    }
}

#[test]
fn wide_counters_wrap_at_two_to_the_64() {
    assert_eq!(succ_wide(0), 1);
    assert_eq!(succ_wide(u64::MAX), 0);
    assert_eq!(pred_wide(0), u64::MAX);
    assert_eq!(pred_wide(1), 0);
    assert!(comp_wide(0, 3, 1, 3));
    assert!(!comp_wide(1, 3, 1, 3));
    assert!(comp_wide(5, u64::MAX, 1, 0));
    assert!(!comp_wide(1, 0, 5, u64::MAX));
    assert!(comp_wide(0, 10, 0, 10 + 0x7FFF_FFFF_FFFF_FFFF));
    assert!(!comp_wide(0, 10, 0, 10 + 0x8000_0000_0000_0000));
}

#[test]
fn next_goes_round_the_ring() {
    assert_eq!(next(0, 1), 0);
    assert_eq!(next(0, 3), 1);
    assert_eq!(next(2, 3), 0);
    assert_eq!(next(8, 10), 9);
    assert_eq!(next(9, 10), 0);
    assert_eq!(next(12, 10), 3);
    assert_eq!(next(usize::MAX, usize::MAX), 1);
    assert_eq!(next(usize::MAX - 1, usize::MAX), 0);
}
