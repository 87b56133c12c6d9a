use nblfq::components::DWordItemInner;
use nblfq::components::TaggedItemInner;
use nblfq::probe::empty_from;
use nblfq::probe::force_step;
use nblfq::probe::full_from;
use nblfq::probe::install_count;
use nblfq::probe::len_from;
use nblfq::probe::next_backoff;
use nblfq::probe::pop_done;
use nblfq::probe::pop_probe;
use nblfq::probe::pop_step;
use nblfq::probe::push_done;
use nblfq::probe::push_probe;
use nblfq::probe::push_step;
use nblfq::probe::ForceStep;
use nblfq::probe::PopProbe;
use nblfq::probe::PopStep;
use nblfq::probe::PushProbe;
use nblfq::probe::PushStep;

#[test]
fn push_probe_accepts_the_empty_cell_behind_a_filled_one() {
    assert_eq!(push_probe::<TaggedItemInner>(0, (0, 7), 1, (0, 0)), PushProbe::Accept);
    assert_eq!(push_probe::<TaggedItemInner>(2, (4, 7), 0, (5, 0)), PushProbe::Accept);
    // whatever the counters say
    assert_eq!(push_probe::<TaggedItemInner>(0, (9, 7), 1, (3, 0)), PushProbe::Accept);
}

#[test]
fn push_probe_on_an_empty_ring() {
    // the cell before does not come first: this is the head
    assert_eq!(push_probe::<TaggedItemInner>(1, (0, 0), 0, (0, 0)), PushProbe::Accept);
    assert_eq!(push_probe::<TaggedItemInner>(0, (1, 0), 1, (0, 0)), PushProbe::Accept);
    assert_eq!(push_probe::<TaggedItemInner>(0, (0, 0), 0, (0, 0)), PushProbe::Accept);
    // the cell before comes first: the hint is stale
    assert_eq!(push_probe::<TaggedItemInner>(0, (0, 0), 1, (0, 0)), PushProbe::Advance);
    assert_eq!(push_probe::<TaggedItemInner>(2, (0, 0), 0, (1, 0)), PushProbe::Advance);
}

#[test]
fn push_probe_on_a_full_ring() {
    assert_eq!(push_probe::<TaggedItemInner>(1, (0, 8), 0, (0, 7)), PushProbe::Full);
    assert_eq!(push_probe::<TaggedItemInner>(0, (1, 8), 1, (0, 7)), PushProbe::Full);
    assert_eq!(push_probe::<TaggedItemInner>(0, (3, 7), 0, (3, 7)), PushProbe::Full);
    assert_eq!(push_probe::<TaggedItemInner>(0, (0, 7), 1, (0, 8)), PushProbe::Advance);
    assert_eq!(push_probe::<TaggedItemInner>(2, (0, 7), 0, (1, 8)), PushProbe::Advance);
}

#[test]
fn push_probe_at_the_tail_of_a_partly_filled_ring() {
    // empty before, filled at: never the head
    assert_eq!(push_probe::<TaggedItemInner>(0, (1, 0), 1, (0, 7)), PushProbe::Advance);
    assert_eq!(push_probe::<TaggedItemInner>(1, (0, 0), 0, (0, 7)), PushProbe::Advance);
    assert_eq!(push_probe::<TaggedItemInner>(0, (0, 0), 1, (0, 7)), PushProbe::Advance);
}

#[test]
fn install_count_values() {
    // behind a filled cell: its counter
    assert_eq!(install_count::<TaggedItemInner>((5, 7), 3), 5);
    // into the first cell: one more
    assert_eq!(install_count::<TaggedItemInner>((5, 7), 0), 6);
    assert_eq!(install_count::<TaggedItemInner>((65535, 7), 0), 0);
    // behind an empty cell: one less
    assert_eq!(install_count::<TaggedItemInner>((5, 0), 3), 4);
    assert_eq!(install_count::<TaggedItemInner>((0, 0), 3), 65535);
    // both: the counter itself
    assert_eq!(install_count::<TaggedItemInner>((5, 0), 0), 5);
    assert_eq!(install_count::<TaggedItemInner>((0, 0), 0), 0);
}

#[test]
fn install_count_values_of_double_word_cells() {
    assert_eq!(install_count::<DWordItemInner>((5, 7), 3), 5);
    assert_eq!(install_count::<DWordItemInner>((u64::MAX, 7), 0), 0);
    assert_eq!(install_count::<DWordItemInner>((0, 0), 3), u64::MAX);
    assert_eq!(install_count::<DWordItemInner>((0, 0), 0), 0);
    assert_eq!(install_count::<DWordItemInner>((70000, 0), 1), 69999);
}

#[test]
fn probes_of_double_word_cells_compare_counters_modulo_two_to_the_64() {
    // 0 is the counter after the largest one
    assert_eq!(pop_probe::<DWordItemInner>(2, (u64::MAX, 0), 0, (0, 7)), PopProbe::Advance);
    assert_eq!(pop_probe::<DWordItemInner>(0, (0, 0), 1, (u64::MAX, 7)), PopProbe::Take);
    assert_eq!(pop_probe::<TaggedItemInner>(2, (65535, 0), 0, (0, 7)), PopProbe::Advance);
    assert_eq!(pop_probe::<DWordItemInner>(2, (65535, 0), 0, (0, 7)), PopProbe::Take);
    assert_eq!(push_probe::<DWordItemInner>(2, (u64::MAX, 0), 0, (0, 0)), PushProbe::Advance);
    assert_eq!(push_probe::<DWordItemInner>(0, (0, 0), 1, (u64::MAX, 0)), PushProbe::Accept);
    assert_eq!(push_probe::<DWordItemInner>(0, (0, 7), 1, (u64::MAX, 8)), PushProbe::Full);
}

#[test]
fn pop_probe_values() {
    // the cell before comes first: stale
    assert_eq!(pop_probe::<TaggedItemInner>(0, (0, 7), 1, (0, 8)), PopProbe::Advance);
    assert_eq!(pop_probe::<TaggedItemInner>(2, (0, 0), 0, (1, 7)), PopProbe::Advance);
    // it does not, and both are empty
    assert_eq!(pop_probe::<TaggedItemInner>(1, (1, 0), 0, (1, 0)), PopProbe::Empty);
    assert_eq!(pop_probe::<TaggedItemInner>(0, (0, 0), 0, (0, 0)), PopProbe::Empty);
    assert_eq!(pop_probe::<TaggedItemInner>(0, (1, 0), 1, (0, 0)), PopProbe::Empty);
    // it does not, and one is filled
    assert_eq!(pop_probe::<TaggedItemInner>(1, (0, 8), 0, (0, 7)), PopProbe::Take);
    assert_eq!(pop_probe::<TaggedItemInner>(0, (1, 0), 1, (0, 7)), PopProbe::Take);
    assert_eq!(pop_probe::<TaggedItemInner>(0, (3, 7), 0, (3, 7)), PopProbe::Take);
    assert_eq!(pop_probe::<TaggedItemInner>(0, (1, 7), 1, (0, 0)), PopProbe::Take);
}

#[test]
fn len_from_values() {
    assert_eq!(len_from(3, 1, None, 5), 2);
    assert_eq!(len_from(3, 1, Some((4, 9)), 5), 2);
    assert_eq!(len_from(1, 3, None, 5), 3);
    assert_eq!(len_from(0, 4, None, 5), 1);
    assert_eq!(len_from(2, 2, Some((7, 0)), 5), 0);
    assert_eq!(len_from(2, 2, Some((0, 9)), 5), 5);
    assert_eq!(len_from(2, 2, None, 5), 0);
    assert_eq!(len_from(0, 0, Some((0, 0)), 1), 0);
    assert_eq!(len_from(0, 0, Some((0, 1)), 1), 1);
}

#[test]
fn len_from_goes_by_the_item_not_by_the_counter() {
    assert_eq!(len_from(1, 1, Some((5, 0)), 4), 0);
    assert_eq!(len_from(1, 1, Some((0, 5)), 4), 4);
}

#[test]
fn len_from_stays_in_range() {
    for n in 1..6usize {
        for head in 0..n {
            for tail in 0..n {
                for at_head in [None, Some((3u64, 0u64)), Some((0u64, 5u64))] {
                    assert!(len_from(head, tail, at_head, n) <= n);
                }
            }
        }
    }
}

#[test]
fn empty_from_and_full_from_values() {
    // the queue of two cells, new
    assert!(empty_from(0, 0, Some((0, 0)), 2));
    assert!(!full_from(0, 0, Some((0, 0)), 2));
    // after one push
    assert!(!empty_from(1, 0, None, 2));
    assert!(!full_from(1, 0, None, 2));
    // after two pushes
    assert!(!empty_from(0, 0, Some((0, 1)), 2));
    assert!(full_from(0, 0, Some((0, 1)), 2));
    // after two pushes and a pop
    assert!(!empty_from(0, 1, None, 2));
    assert!(!full_from(0, 1, None, 2));
    // one cell
    assert!(empty_from(0, 0, Some((3, 0)), 1));
    assert!(full_from(0, 0, Some((3, 7)), 1));
}

#[test]
fn empty_from_and_full_from_agree_with_len_from() {
    for n in 1..6usize {
        for head in 0..n {
            for tail in 0..n {
                for at_head in [None, Some((3u64, 0u64)), Some((0u64, 5u64))] {
                    let len = len_from(head, tail, at_head, n);
                    assert_eq!(empty_from(head, tail, at_head, n), len == 0);
                    assert_eq!(full_from(head, tail, at_head, n), len == n);
                }
            }
        }
    }
}

#[test]
fn push_step_values() {
    // the ring of one cell, new: swap the empty cell for the item
    assert_eq!(
        push_step::<TaggedItemInner>(0, (0, 0), 0, (0, 0), 7, 1),
        PushStep::Swap { at: 0, expect: (0, 0), install: (0, 7) }
    );
    // the ring of one cell, filled
    assert_eq!(push_step::<TaggedItemInner>(0, (0, 7), 0, (0, 7), 8, 1), PushStep::GiveBack);
    // the ring of one cell on its next lap
    assert_eq!(
        push_step::<TaggedItemInner>(0, (1, 0), 0, (1, 0), 8, 1),
        PushStep::Swap { at: 0, expect: (1, 0), install: (1, 8) }
    );
    // behind a filled cell, in the same lap
    assert_eq!(
        push_step::<TaggedItemInner>(1, (4, 7), 2, (4, 0), 9, 3),
        PushStep::Swap { at: 2, expect: (4, 0), install: (4, 9) }
    );
    // into the first cell behind the last: the next lap
    assert_eq!(
        push_step::<TaggedItemInner>(2, (4, 7), 0, (5, 0), 9, 3),
        PushStep::Swap { at: 0, expect: (5, 0), install: (5, 9) }
    );
    // a stale head: on to the next cell, and round the end
    assert_eq!(push_step::<TaggedItemInner>(0, (0, 7), 1, (0, 8), 9, 3), PushStep::LookAt(2));
    assert_eq!(push_step::<TaggedItemInner>(1, (0, 0), 2, (0, 0), 9, 3), PushStep::LookAt(0));
    // full at the tail
    assert_eq!(push_step::<TaggedItemInner>(2, (0, 9), 0, (0, 7), 5, 3), PushStep::GiveBack);
    assert_eq!(
        push_step::<DWordItemInner>(0, (0, 0), 1, (u64::MAX, 0), 5, 2),
        PushStep::Swap { at: 1, expect: (u64::MAX, 0), install: (u64::MAX, 5) }
    );
}

#[test]
fn push_done_values() {
    assert_eq!(push_done(Ok((4, 0)), 1, 3), Some(2));
    assert_eq!(push_done(Ok((4, 0)), 2, 3), Some(0));
    assert_eq!(push_done(Ok((0, 0)), 0, 1), Some(0));
    assert_eq!(push_done(Err((4, 7)), 1, 3), None);
    assert_eq!(push_done(Err((5, 0)), 2, 3), None);
}

#[test]
fn pop_step_values() {
    // the ring of one cell: empty, filled
    assert_eq!(pop_step::<TaggedItemInner>(0, (0, 0), 0, (0, 0), 1), PopStep::Nothing);
    assert_eq!(
        pop_step::<TaggedItemInner>(0, (0, 7), 0, (0, 7), 1),
        PopStep::Swap { at: 0, expect: (0, 7), install: (1, 0) }
    );
    assert_eq!(
        pop_step::<TaggedItemInner>(0, (65535, 7), 0, (65535, 7), 1),
        PopStep::Swap { at: 0, expect: (65535, 7), install: (0, 0) }
    );
    assert_eq!(
        pop_step::<DWordItemInner>(0, (65535, 7), 0, (65535, 7), 1),
        PopStep::Swap { at: 0, expect: (65535, 7), install: (65536, 0) }
    );
    // a stale tail: on to the next cell, and round the end
    assert_eq!(pop_step::<TaggedItemInner>(0, (0, 7), 1, (0, 8), 3), PopStep::LookAt(2));
    assert_eq!(pop_step::<TaggedItemInner>(1, (0, 0), 2, (0, 0), 3), PopStep::LookAt(0));
    // the oldest item behind an emptied cell
    assert_eq!(
        pop_step::<TaggedItemInner>(0, (1, 0), 1, (0, 8), 3),
        PopStep::Swap { at: 1, expect: (0, 8), install: (1, 0) }
    );
    // an empty ring at its tail
    assert_eq!(pop_step::<TaggedItemInner>(2, (1, 0), 0, (1, 0), 3), PopStep::Nothing);
}

#[test]
fn pop_step_does_not_take_from_an_empty_cell() {
    // a filled cell before an empty one that does not come after it
    assert_eq!(pop_step::<TaggedItemInner>(0, (1, 7), 1, (0, 0), 3), PopStep::Again);
    assert_eq!(pop_step::<TaggedItemInner>(2, (0, 7), 0, (0, 0), 3), PopStep::Again);
    assert_eq!(pop_step::<DWordItemInner>(2, (0, 7), 0, (0, 0), 3), PopStep::Again);
}

#[test]
fn pop_done_values() {
    assert_eq!(pop_done(Ok((4, 7)), 1, 3), Some((7, 2)));
    assert_eq!(pop_done(Ok((4, 7)), 2, 3), Some((7, 0)));
    assert_eq!(pop_done(Ok((0, 9)), 0, 1), Some((9, 0)));
    assert_eq!(pop_done(Err((5, 0)), 1, 3), None);
    assert_eq!(pop_done(Err((4, 8)), 1, 3), None);
}

#[test]
fn force_step_values() {
    assert_eq!(force_step(Ok(()), None, 1), ForceStep::Done(None));
    assert_eq!(force_step(Ok(()), Some(7), 4), ForceStep::Done(Some(7)));
    assert_eq!(force_step(Err(9), None, 1), ForceStep::Again(2));
    assert_eq!(force_step(Err(9), Some(7), 2), ForceStep::Again(4));
    assert_eq!(force_step(Err(9), Some(7), 512), ForceStep::Again(1024));
    assert_eq!(force_step(Err(9), None, 1024), ForceStep::Again(1024));
}

#[test]
fn next_backoff_doubles_up_to_1024() {
    assert_eq!(next_backoff(0), 0);
    assert_eq!(next_backoff(1), 2);
    assert_eq!(next_backoff(2), 4);
    assert_eq!(next_backoff(256), 512);
    assert_eq!(next_backoff(511), 1022);
    assert_eq!(next_backoff(512), 1024);
    assert_eq!(next_backoff(1024), 1024);
    assert_eq!(next_backoff(usize::MAX), 1024);
}
