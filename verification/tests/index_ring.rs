use refined_sets::index_ring::IndexRing;

#[test]
fn scenario_push_resize_shift() {
    let mut r = IndexRing::new(2);
    r.push(1);
    r.push(2);
    assert_eq!(r.to_array(), vec![1, 2]);
    r.push(3);
    assert_eq!(r.to_array(), vec![1, 2, 3]);
    assert_eq!(r.shift(), Some(1));
    assert_eq!(r.to_array(), vec![2, 3]);
    r.push(0xFFFFFF);
    assert_eq!(r.to_array(), vec![2, 3, 16777215]);
}

#[test]
fn fifo_order_under_interleaving() {
    let mut r = IndexRing::new(0);
    let mut model: Vec<u32> = Vec::new();
    let ops: Vec<Option<u32>> = vec![
        Some(7),
        Some(0),
        None,
        Some(0xABCDEF),
        Some(42),
        None,
        None,
        Some(5),
        None,
        None,
    ];
    for op in ops {
        match op {
            Some(v) => {
                r.push(v);
                model.push(v);
            }
            None => {
                let got = r.shift();
                let want = if model.is_empty() { None } else { Some(model.remove(0)) };
                assert_eq!(got, want);
            }
        }
        assert_eq!(r.to_array(), model);
        assert_eq!(r.len(), model.len());
    }
}

#[test]
fn round_trip_exact_values() {
    let values = vec![0, 1, 0xFF, 0x100, 0xFFFF, 0x10000, 0xABCDEF, 0xFFFFFF];
    let mut r = IndexRing::new(1);
    for (i, &v) in values.iter().enumerate() {
        r.push(v);
        assert_eq!(r.get(i), v);
    }
    assert_eq!(r.to_array(), values);
}

#[test]
fn growth_preserves_order() {
    let mut r = IndexRing::new(4);
    for v in 0..4 {
        r.push(v);
    }
    // The ring is now full: the next push doubles the capacity.
    r.push(4);
    assert_eq!(r.to_array(), vec![0, 1, 2, 3, 4]);
    for v in 5..40 {
        r.push(v);
    }
    let expected: Vec<u32> = (0..40).collect();
    assert_eq!(r.to_array(), expected);
}

#[test]
fn compact_is_idempotent() {
    let mut r = IndexRing::new(8);
    for v in 10..18 {
        r.push(v);
    }
    assert_eq!(r.shift(), Some(10));
    assert_eq!(r.shift(), Some(11));
    r.compact();
    let once = r.to_array();
    let len_once = r.len();
    r.compact();
    assert_eq!(r.to_array(), once);
    assert_eq!(r.len(), len_once);
    assert_eq!(once, vec![12, 13, 14, 15, 16, 17]);
}

#[test]
fn length_stays_within_capacity() {
    // Capacity starts at 2 and doubles on a full push: 2, 4, 8, ...
    let mut r = IndexRing::new(2);
    let mut expected_capacity = 2;
    for v in 0..100 {
        if r.len() == expected_capacity {
            expected_capacity *= 2;
        }
        r.push(v);
        assert!(r.len() <= expected_capacity);
    }
    assert_eq!(r.len(), 100);
    for _ in 0..100 {
        r.shift();
        assert!(r.len() <= expected_capacity);
    }
    assert_eq!(r.len(), 0);
}

#[test]
fn shift_and_pop_on_empty_return_none() {
    let mut r = IndexRing::new(0);
    assert_eq!(r.shift(), None);
    assert_eq!(r.pop(), None);
    r.push(9);
    assert_eq!(r.pop(), Some(9));
    assert_eq!(r.pop(), None);
    assert_eq!(r.shift(), None);
}

#[test]
fn pop_removes_from_front_like_shift() {
    let mut a = IndexRing::new(3);
    let mut b = IndexRing::new(3);
    for v in [5, 6, 7] {
        a.push(v);
        b.push(v);
    }
    assert_eq!(a.pop(), b.shift());
    assert_eq!(a.pop(), b.shift());
    assert_eq!(a.to_array(), b.to_array());
}

#[test]
fn zero_capacity_ring_grows_on_first_push() {
    let mut r = IndexRing::new(0);
    assert_eq!(r.len(), 0);
    assert_eq!(r.to_array(), Vec::<u32>::new());
    r.push(123456);
    assert_eq!(r.to_array(), vec![123456]);
}

#[test]
fn reads_follow_head_across_wraparound() {
    let mut r = IndexRing::new(4);
    for v in [1, 2, 3, 4] {
        r.push(v);
    }
    assert_eq!(r.shift(), Some(1));
    assert_eq!(r.shift(), Some(2));
    // Two slots are free at the front; these writes wrap around.
    r.push(5);
    r.push(6);
    assert_eq!(r.len(), 4);
    assert_eq!(r.get(0), 3);
    assert_eq!(r.get(1), 4);
    assert_eq!(r.get(2), 5);
    assert_eq!(r.get(3), 6);
    assert_eq!(r.to_array(), vec![3, 4, 5, 6]);
}

#[test]
fn compact_after_wraparound_keeps_order() {
    let mut r = IndexRing::new(4);
    for v in [1, 2, 3, 4] {
        r.push(v);
    }
    r.shift();
    r.shift();
    r.shift();
    r.push(5);
    r.compact();
    assert_eq!(r.len(), 2);
    assert_eq!(r.to_array(), vec![4, 5]);
    r.push(6);
    assert_eq!(r.to_array(), vec![4, 5, 6]);
}

#[test]
fn compact_empty_ring() {
    let mut r = IndexRing::new(5);
    r.compact();
    assert_eq!(r.len(), 0);
    assert_eq!(r.to_array(), Vec::<u32>::new());
    r.push(8);
    assert_eq!(r.to_array(), vec![8]);
}
