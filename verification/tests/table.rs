use datacapsule::table::{NameSet, Table};

fn h(n: u8) -> [u8; 32] {
    [n; 32]
}

#[test]
fn a_table_maps_names_to_values() {
    let mut t: Table<u32> = Table::new();
    assert_eq!(t.len(), 0);
    assert_eq!(t.get(&h(1)), None);
    assert_eq!(t.insert(h(1), 10), None);
    assert_eq!(t.insert(h(2), 20), None);
    assert_eq!(t.get(&h(1)), Some(&10));
    assert_eq!(t.get(&h(2)), Some(&20));
    assert!(t.contains_key(&h(2)));
    assert!(!t.contains_key(&h(3)));
    assert_eq!(t.len(), 2);
}

#[test]
fn insert_replaces_and_returns_the_old_value() {
    let mut t: Table<u32> = Table::new();
    t.insert(h(1), 10);
    t.insert(h(2), 20);
    assert_eq!(t.insert(h(1), 11), Some(10));
    assert_eq!(t.get(&h(1)), Some(&11));
    assert_eq!(t.get(&h(2)), Some(&20));
    assert_eq!(t.len(), 2);
}

#[test]
fn remove_takes_the_row_out() {
    let mut t: Table<u32> = Table::new();
    t.insert(h(1), 10);
    t.insert(h(2), 20);
    t.insert(h(3), 30);
    assert_eq!(t.remove(&h(2)), Some(20));
    assert_eq!(t.remove(&h(2)), None);
    assert_eq!(t.get(&h(1)), Some(&10));
    assert_eq!(t.get(&h(3)), Some(&30));
    assert_eq!(t.len(), 2);
}

#[test]
fn rows_come_in_insertion_order() {
    let mut t: Table<u32> = Table::new();
    t.insert(h(3), 30);
    t.insert(h(1), 10);
    t.insert(h(3), 31);
    assert_eq!(t.row(0), (&h(3), &31));
    assert_eq!(t.row(1), (&h(1), &10));
}

#[test]
fn a_name_set_holds_each_name_once() {
    let mut s = NameSet::new();
    assert!(s.insert(h(1)));
    assert!(s.insert(h(2)));
    assert!(!s.insert(h(1)));
    assert_eq!(s.len(), 2);
    assert!(s.contains(&h(1)));
    assert!(!s.contains(&h(3)));
    assert!(s.remove(&h(1)));
    assert!(!s.remove(&h(1)));
    assert_eq!(s.to_vec(), vec![h(2)]);
    assert_eq!(*s.name_at(0), h(2));
}
