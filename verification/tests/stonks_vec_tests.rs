use stonks::StonksVec;

#[test]
fn len() {
    let mut set = StonksVec::new();
    set.insert(1);
    set.insert(2);
    set.insert(3);
    assert_eq!(set.len(), 3);
}

#[test]
fn at() {
    let mut set = StonksVec::new();
    set.insert(1);
    set.insert(2);
    let first = set.at(1).unwrap();
    assert_eq!(*first, 2);
}

#[test]
fn stonks_vec_insert_while_borrowed() {
    let mut set = StonksVec::new();
    set.insert(1);
    let first = set.get(&1).copied();
    set.insert(2);
    assert_eq!(first.unwrap(), 1);
}

#[test]
fn stonks_vec_contains_inserted() {
    let mut set = StonksVec::new();
    set.insert(1);
    set.insert(2);
    set.insert(3);
    assert_eq!(set.contains(&3), true);
    assert_eq!(set.contains(&4), false);
}

#[test]
fn stonks_vec_get_or_insert() {
    let mut set = StonksVec::new();
    set.insert(1);
    set.insert(2);
    set.insert(3);
    let slot = set.get_or_insert(3);
    assert_eq!(*set.at(slot).unwrap(), *set.get(&3).unwrap());
    let slot = set.get_or_insert(4);
    assert_eq!(*set.at(slot).unwrap(), 4);
}

#[test]
fn stonks_vec_big_test() {
    let mut set = StonksVec::new();
    let mut slots = Vec::new();
    for i in 0..10000u64 {
        slots.push(set.insert(i));
    }
    assert_eq!(set.len(), 10000);

    for i in 10000..20000u64 {
        set.insert(i);
    }
    assert_eq!(set.len(), 20000);

    for i in 0..10000usize {
        assert_eq!(*set.at(slots[i]).unwrap(), i as u64);
    }
}

#[test]
fn stonks_vec_slots_are_insertion_order() {
    let mut set = StonksVec::new();
    assert_eq!(set.insert(10), 0);
    assert_eq!(set.insert(20), 1);
    assert_eq!(set.insert(10), 2);
    assert_eq!(set.len(), 3);
    assert_eq!(*set.at(0).unwrap(), 10);
    assert_eq!(*set.at(2).unwrap(), 10);
}

#[test]
fn stonks_vec_get_or_insert_twice_same_slot() {
    let mut set = StonksVec::new();
    set.insert(5);
    let a = set.get_or_insert(6);
    let b = set.get_or_insert(6);
    assert_eq!(a, b);
    assert_eq!(set.len(), 2);
}

#[test]
fn stonks_vec_get_or_insert_finds_first_slot() {
    let mut set = StonksVec::new();
    set.insert(9);
    set.insert(9);
    assert_eq!(set.get_or_insert(9), 0);
    assert_eq!(set.len(), 2);
}

#[test]
fn stonks_vec_empty() {
    let set = StonksVec::new();
    assert_eq!(set.len(), 0);
    assert!(set.get(&0).is_none());
    assert!(!set.contains(&0));
}

#[test]
fn stonks_vec_with_capacity_starts_empty() {
    let set = StonksVec::with_capacity(64);
    assert_eq!(set.len(), 0);
}

#[test]
fn stonks_vec_at_out_of_bounds() {
    let mut set = StonksVec::new();
    set.insert(1);
    assert!(set.at(1).is_none());
    assert!(set.at(0).is_some());
}
