use nblfq::arrayqueue::ArrayQueue;
use nblfq::arrayqueue::HeapBackedQueue;
use nblfq::components::DWordItemInner;
use nblfq::components::FixedBuf;

#[test]
fn arrayqueue_smoke() {
    let q = HeapBackedQueue::new(1);
    q.push(7).unwrap();
    assert_eq!(q.pop(), Some(7));

    q.push(8).unwrap();
    assert_eq!(q.pop(), Some(8));
    assert!(q.pop().is_none());
}

#[test]
fn arrayqueue_smoke_long() {
    let q = HeapBackedQueue::new(10);
    q.push(7).unwrap();
    assert_eq!(q.pop(), Some(7));

    q.push(8).unwrap();
    q.push(9).unwrap();
    assert_eq!(q.pop(), Some(8));
    assert_eq!(q.pop(), Some(9));
    assert!(q.pop().is_none());
}

#[test]
fn capacity() {
    for i in 1..10 {
        let q = HeapBackedQueue::new(i);
        assert_eq!(q.capacity(), i);
    }
}

#[test]
fn arrayqueue_len_empty_full() {
    let q = HeapBackedQueue::new(2);

    assert_eq!(q.len(), 0);
    assert!(q.is_empty());
    assert!(!q.is_full());

    q.push(1).unwrap();

    assert_eq!(q.len(), 1);
    assert!(!q.is_empty());
    assert!(!q.is_full());

    q.push(1).unwrap();

    assert_eq!(q.len(), 2);
    assert!(!q.is_empty());
    assert!(q.is_full());

    q.pop().unwrap();

    assert_eq!(q.len(), 1);
    assert!(!q.is_empty());
    assert!(!q.is_full());
}

#[test]
fn arrayqueue_len() {
    const CAP: usize = 1000;
    const ITERS: usize = CAP / 20;

    let q = HeapBackedQueue::new(CAP);
    assert_eq!(q.len(), 0);
    assert_eq!(q.capacity(), CAP);

    for _ in 0..CAP / 10 {
        for i in 0..ITERS {
            q.push(i as u64 + 1).unwrap();
            assert_eq!(q.len(), i + 1);
        }

        for i in 0..ITERS {
            q.pop().unwrap();
            assert_eq!(q.len(), ITERS - i - 1);
        }
    }
    assert_eq!(q.len(), 0);

    for i in 0..CAP {
        q.push(i as u64 + 1).unwrap();
        assert_eq!(q.len(), i + 1);
    }

    for _ in 0..CAP {
        q.pop().unwrap();
    }
    assert_eq!(q.len(), 0);
}

#[test]
fn into_iter() {
    let q = HeapBackedQueue::new(100);
    for i in 0..100 {
        q.push(i + 1).unwrap();
    }
    for (i, j) in q.into_vec().into_iter().enumerate() {
        assert_eq!(i as u64 + 1, j);
    }
}

#[test]
fn into_vec_of_a_partly_filled_queue() {
    let q = HeapBackedQueue::new(5);
    assert_eq!(HeapBackedQueue::new(3).into_vec(), Vec::<u64>::new());
    q.push(4).unwrap();
    q.push(5).unwrap();
    q.push(6).unwrap();
    assert_eq!(q.pop(), Some(4));
    assert_eq!(q.into_vec(), vec![5, 6]);
}

#[test]
fn push_hands_the_item_back_when_full() {
    let q = HeapBackedQueue::new(2);
    assert_eq!(q.push(10), Ok(()));
    assert_eq!(q.push(20), Ok(()));
    assert_eq!(q.push(30), Err(30));
    assert_eq!(q.len(), 2);
    assert_eq!(q.pop(), Some(10));
    assert_eq!(q.push(30), Ok(()));
    assert_eq!(q.push(40), Err(40));
    assert_eq!(q.pop(), Some(20));
    assert_eq!(q.pop(), Some(30));
    assert_eq!(q.pop(), None);
    assert_eq!(q.pop(), None);
}

#[test]
fn ordering_of_ten() {
    let q = HeapBackedQueue::new(10);
    for i in 0..=9u64 {
        assert_eq!(q.push(i + 100), Ok(()));
    }
    for i in 0..=9u64 {
        assert_eq!(q.pop(), Some(i + 100));
    }
    assert_eq!(q.pop(), None);
}

#[test]
fn round_trip_for_every_small_capacity() {
    for n in 1..=17usize {
        let q = HeapBackedQueue::new(n);
        for lap in 0..5u64 {
            for i in 0..n as u64 {
                assert_eq!(q.push(1000 * lap + i + 1), Ok(()));
                assert!(q.len() <= n);
            }
            assert!(q.is_full());
            assert_eq!(q.push(5), Err(5));
            for i in 0..n as u64 {
                assert_eq!(q.pop(), Some(1000 * lap + i + 1));
                assert!(q.len() <= n);
            }
            assert!(q.is_empty());
            assert_eq!(q.pop(), None);
        }
    }
}

#[test]
fn interleaved_calls_keep_the_order() {
    let q = HeapBackedQueue::new(3);
    let mut next_in: u64 = 1;
    let mut next_out: u64 = 1;
    for round in 0..2000usize {
        let pushes = round % 4;
        for _ in 0..pushes {
            if q.push(next_in).is_ok() {
                next_in += 1;
            } else {
                assert_eq!(next_in - next_out, 3);
            }
        }
        let pops = (round / 4) % 3;
        for _ in 0..pops {
            match q.pop() {
                Some(item) => {
                    assert_eq!(item, next_out);
                    next_out += 1;
                }
                None => assert_eq!(next_in, next_out),
            }
        }
        assert_eq!(q.len() as u64, next_in - next_out);
    }
}

#[test]
fn same_item_through_one_cell_past_the_counter_wrap() {
    let q = HeapBackedQueue::new(1);
    for _ in 0..70_000 {
        assert_eq!(q.push(7), Ok(()));
        assert_eq!(q.push(7), Err(7));
        assert_eq!(q.pop(), Some(7));
        assert_eq!(q.pop(), None);
    }
}

#[test]
fn counter_wrap_on_two_cells() {
    let q = HeapBackedQueue::new(2);
    q.push(1).unwrap();
    for i in 0..140_000u64 {
        assert_eq!(q.push(i + 2), Ok(()));
        assert_eq!(q.pop(), Some(i + 1));
        assert_eq!(q.len(), 1);
    }
}

#[test]
fn force_push_displaces_the_oldest() {
    let q = HeapBackedQueue::new(2);
    assert_eq!(q.force_push(10), None);
    assert_eq!(q.force_push(20), None);
    assert_eq!(q.force_push(30), Some(10));
    assert_eq!(q.pop(), Some(20));
}

#[test]
fn force_push_on_three() {
    let q = HeapBackedQueue::new(3);
    for i in 1..=3u64 {
        q.push(i).unwrap();
    }
    assert_eq!(q.force_push(4), Some(1));
    assert_eq!(q.len(), 3);
    assert_eq!(q.pop(), Some(2));
    assert_eq!(q.pop(), Some(3));
    assert_eq!(q.pop(), Some(4));
    assert_eq!(q.pop(), None);
}

#[test]
fn canonical_items_at_the_edges() {
    let q = HeapBackedQueue::new(4);
    q.push(0x7FFF_FFFF_FFFF).unwrap();
    q.push(0xFFFF_8000_0000_0000).unwrap();
    q.push(u64::MAX).unwrap();
    q.push(1).unwrap();
    assert_eq!(q.pop(), Some(0x7FFF_FFFF_FFFF));
    assert_eq!(q.pop(), Some(0xFFFF_8000_0000_0000));
    assert_eq!(q.pop(), Some(u64::MAX));
    assert_eq!(q.pop(), Some(1));
}

#[test]
fn queue_of_double_word_cells() {
    let q: ArrayQueue<FixedBuf<DWordItemInner>> = ArrayQueue::new_in(FixedBuf::new(3));
    assert_eq!(q.capacity(), 3);
    assert_eq!(q.len(), 0);
    for lap in 0..4u64 {
        assert_eq!(q.push(0x0001_0000_0000_0007 + lap), Ok(()));
        assert_eq!(q.push(0x8000_0000_0000 + lap), Ok(()));
        assert_eq!(q.push(u64::MAX - lap), Ok(()));
        assert_eq!(q.push(9), Err(9));
        assert_eq!(q.len(), 3);
        assert_eq!(q.pop(), Some(0x0001_0000_0000_0007 + lap));
        assert_eq!(q.pop(), Some(0x8000_0000_0000 + lap));
        assert_eq!(q.len(), 1);
        assert_eq!(q.pop(), Some(u64::MAX - lap));
        assert_eq!(q.pop(), None);
    }
    assert_eq!(q.force_push(1), None);
    assert_eq!(q.force_push(2), None);
    assert_eq!(q.force_push(3), None);
    assert_eq!(q.force_push(4), Some(1));
    assert_eq!(q.into_vec(), vec![2, 3, 4]);
}

#[test]
fn force_push_all_hands_out_what_force_push_returns() {
    let q = HeapBackedQueue::new(2);
    assert_eq!(q.force_push_all(10), (vec![], None));
    assert_eq!(q.force_push_all(20), (vec![], None));
    assert_eq!(q.force_push_all(30), (vec![], Some(10)));
    assert_eq!(q.force_push_all(40), (vec![], Some(20)));
    assert_eq!(q.len(), 2);
    assert_eq!(q.pop(), Some(30));
    assert_eq!(q.pop(), Some(40));
    assert_eq!(q.pop(), None);
}

#[test]
fn pop_never_hands_out_the_empty_word() {
    let q = HeapBackedQueue::new(3);
    for round in 0..1000u64 {
        for i in 0..(round % 4) {
            let _ = q.push(round * 8 + i + 1);
        }
        for _ in 0..((round / 3) % 5) {
            if let Some(item) = q.pop() {
                assert_ne!(item, 0);
            }
        }
    }
}

#[test]
fn answers_of_a_new_queue() {
    let q = HeapBackedQueue::new(4);
    assert_eq!(q.len(), 0);
    assert!(q.is_empty());
    assert!(!q.is_full());
    assert_eq!(q.pop(), None);
    assert_eq!(q.capacity(), 4);
}
