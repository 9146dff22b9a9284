use stonks::StonksSet;

#[test]
fn stonks_set_overflow() {
    let mut set = StonksSet::with_capacity(2);
    set.insert(1);
    set.insert(2);
    set.insert(3);
    set.insert(4);
    set.insert(5);
    assert_eq!(set.len(), 5);
}

#[test]
fn stonks_set_insert_while_borrowed() {
    let mut set = StonksSet::with_capacity(10);
    set.insert(1);
    let first = set.get(&1).copied();
    set.insert(2);
    assert_eq!(first.unwrap(), 1);
}

#[test]
fn stonks_set_contains_inserted() {
    let mut set = StonksSet::with_capacity(10);
    set.insert(1);
    set.insert(2);
    set.insert(3);
    assert_eq!(set.contains(&3), true);
    assert_eq!(set.contains(&4), false);
}

#[test]
fn stonks_set_get_or_insert() {
    let mut set = StonksSet::with_capacity(10);
    set.insert(1);
    set.insert(2);
    set.insert(3);
    let (bucket, slot) = set.get_or_insert(3);
    assert_eq!(*set.at(bucket, slot).unwrap(), *set.get(&3).unwrap());
    let (bucket, slot) = set.get_or_insert(4);
    assert_eq!(*set.at(bucket, slot).unwrap(), 4);
}

#[test]
fn stonks_set_big_test() {
    let mut set = StonksSet::with_capacity(1000);
    let mut handles = Vec::new();
    for i in 0..100000u64 {
        handles.push(set.insert(i));
    }
    assert_eq!(set.len(), 100000);

    for i in 100000..200000u64 {
        set.insert(i);
    }
    assert_eq!(set.len(), 200000);

    for i in 0..100000usize {
        let (bucket, slot) = handles[i];
        assert_eq!(*set.at(bucket, slot).unwrap(), i as u64);
    }
}

#[test]
fn stonks_set_two_buckets_scenario() {
    let mut set = StonksSet::with_capacity(2);
    let (bucket, slot) = set.insert(1);
    set.insert(2);
    set.insert(3);
    set.insert(4);
    set.insert(5);
    assert_eq!(set.len(), 5);
    assert_eq!(*set.get(&3).unwrap(), 3);
    assert_eq!(*set.at(bucket, slot).unwrap(), 1);
}

#[test]
fn stonks_set_get_or_insert_twice_same_handle() {
    let mut set = StonksSet::with_capacity(4);
    set.insert(1);
    let a = set.get_or_insert(2);
    let b = set.get_or_insert(2);
    assert_eq!(a, b);
    assert_eq!(set.len(), 2);
}

#[test]
fn stonks_set_lookup_is_repeatable() {
    let mut set = StonksSet::with_capacity(3);
    set.insert(42);
    assert_eq!(*set.get(&42).unwrap(), 42);
    for i in 0..100u64 {
        set.insert(i);
    }
    assert_eq!(*set.get(&42).unwrap(), 42);
    assert!(set.contains(&42));
    assert!(set.contains(&42));
}

#[test]
fn stonks_set_single_bucket() {
    let mut set = StonksSet::with_capacity(1);
    set.insert(8);
    set.insert(9);
    assert_eq!(set.len(), 2);
    assert_eq!(*set.get(&8).unwrap(), 8);
    assert_eq!(*set.get(&9).unwrap(), 9);
    assert!(set.get(&10).is_none());
}

#[test]
fn stonks_set_keeps_duplicates() {
    let mut set = StonksSet::with_capacity(4);
    let first = set.insert(6);
    let second = set.insert(6);
    assert_eq!(first.0, second.0);
    assert_ne!(first.1, second.1);
    assert_eq!(set.len(), 2);
}

#[test]
fn stonks_set_empty() {
    let set = StonksSet::with_capacity(5);
    assert_eq!(set.len(), 0);
    assert!(set.get(&0).is_none());
    assert!(!set.contains(&0));
}

#[test]
fn stonks_set_at_out_of_bounds() {
    let mut set = StonksSet::with_capacity(2);
    let (bucket, slot) = set.insert(1);
    assert!(set.at(bucket, slot + 1).is_none());
    assert!(set.at(2, 0).is_none());
}
