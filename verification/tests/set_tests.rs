use sparse_set::set::{Entry, Sparse};

#[test]
fn push_contains() {
    let mut set: Sparse<usize> = Sparse::new();
    set.insert(1);
    set.insert(3);
    set.insert(133);

    assert!(set.contains(1));
    assert!(set.contains(3));
    assert!(set.contains(133));
    assert!(!set.contains(2));
    assert!(!set.contains(4));
}

#[test]
fn remove() {
    let mut set: Sparse<usize> = Sparse::new();
    set.insert(1);
    set.insert(3);
    set.insert(133);

    assert!(set.remove(3));
    assert!(!set.remove(4));
    assert!(!set.remove(3));

    assert!(set.contains(1));
    assert!(set.contains(133));
    assert!(!set.contains(2));
    assert!(!set.contains(3));
    assert!(!set.contains(4));
}

#[test]
fn contains() {}

#[test]
fn iter() {}

#[test]
fn from() {}

#[test]
fn insert_polarity() {
    // `false` signals "newly inserted", `true` signals "already present".
    let mut set: Sparse<usize> = Sparse::new();
    assert!(!set.insert(9));
    assert!(set.contains(9));
    assert!(set.insert(9));
    assert!(set.contains(9));
}

#[test]
fn insert_key_zero() {
    let mut set: Sparse<usize> = Sparse::new();
    assert!(!set.contains(0));
    assert!(!set.insert(0));
    assert!(set.contains(0));
    assert!(set.remove(0));
    assert!(!set.contains(0));
}

#[test]
fn remove_only_element() {
    let mut set: Sparse<usize> = Sparse::new();
    set.insert(5);
    assert!(set.remove(5));
    assert!(!set.contains(5));
    assert!(!set.remove(5));
}

#[test]
fn remove_on_empty() {
    let mut set: Sparse<usize> = Sparse::new();
    assert!(!set.remove(0));
    assert!(!set.remove(42));
    assert!(!set.contains(42));
}

#[test]
fn remove_absent_is_noop() {
    let mut set: Sparse<usize> = Sparse::from(vec![1, 3, 133, 7]);
    let before: Vec<bool> = (0..150).map(|k: usize| set.contains(k)).collect();
    assert!(!set.remove(77));
    assert!(!set.remove(149));
    let after: Vec<bool> = (0..150).map(|k: usize| set.contains(k)).collect();
    assert_eq!(before, after);
}

#[test]
fn remove_orders_keep_others() {
    // Whatever order entries leave in, the remaining keys stay present.
    let keys: [usize; 5] = [2, 5, 9, 11, 30];
    let orders: [[usize; 5]; 3] = [[2, 5, 9, 11, 30], [30, 11, 9, 5, 2], [9, 30, 2, 11, 5]];
    for order in orders.iter() {
        let mut set: Sparse<usize> = Sparse::new();
        for k in keys.iter() {
            set.insert(*k);
        }
        let mut gone: Vec<usize> = Vec::new();
        for k in order.iter() {
            assert!(set.remove(*k));
            gone.push(*k);
            for j in keys.iter() {
                assert_eq!(set.contains(*j), !gone.contains(j));
            }
        }
    }
}

#[test]
fn key_growth() {
    let mut set: Sparse<usize> = Sparse::new();
    assert!(!set.insert(10000));
    assert!(set.contains(10000));
    for k in 0..10000 {
        assert!(!set.contains(k));
    }
}

#[test]
fn with_capacity_is_only_a_hint() {
    let mut set: Sparse<usize> = Sparse::with_capacity(2);
    for k in [0usize, 1, 2, 3, 4, 50].iter() {
        assert!(!set.insert(*k));
    }
    for k in [0usize, 1, 2, 3, 4, 50].iter() {
        assert!(set.contains(*k));
    }
    assert!(!set.contains(5));

    let mut empty_hint: Sparse<usize> = Sparse::with_capacity(0);
    assert!(!empty_hint.insert(8));
    assert!(empty_hint.contains(8));
}

#[test]
fn from_matches_repeated_inserts() {
    let bulk: Sparse<usize> = Sparse::from(vec![1, 3, 133]);
    let mut manual: Sparse<usize> = Sparse::new();
    manual.insert(1);
    manual.insert(3);
    manual.insert(133);
    for k in 0..200 {
        assert_eq!(bulk.contains(k), manual.contains(k));
    }
    assert!(bulk.contains(1));
    assert!(bulk.contains(3));
    assert!(bulk.contains(133));
    assert!(!bulk.contains(2));
}

#[test]
fn from_with_colliding_keys() {
    let set: Sparse<usize> = Sparse::from(vec![2, 2, 9, 2]);
    assert!(set.contains(2));
    assert!(set.contains(9));
    assert!(!set.contains(0));
}

#[test]
fn map_mode_entries() {
    // Only the key takes part in membership; the value rides along.
    let mut set: Sparse<Entry<i32>> = Sparse::new();
    assert!(!set.insert(Entry { key: 7, value: 10 }));
    assert!(set.insert(Entry { key: 7, value: 99 }));
    assert!(set.contains(Entry { key: 7, value: 0 }));
    assert!(!set.contains(Entry { key: 8, value: 10 }));
    assert!(set.remove(Entry { key: 7, value: -1 }));
    assert!(!set.contains(Entry { key: 7, value: 10 }));
}
