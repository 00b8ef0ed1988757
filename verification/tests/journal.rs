use datacapsule::dag::storage::{RecordBodyStorage, RecordHeaderStorage, RecordWitnessStorage};
use datacapsule::dc_repr::{RecordBackPtr, RecordHeader, RecordWitness};
use datacapsule::table::Table;

fn h(n: u8) -> [u8; 32] {
    [n; 32]
}

#[test]
fn the_journal_lists_what_was_stored_or_removed() {
    let mut t: Table<u32> = Table::new();
    assert!(t.take_changed().is_empty());
    t.insert(h(1), 10);
    t.insert(h(2), 20);
    t.insert(h(1), 11);
    t.remove(&h(3));
    assert_eq!(t.take_changed(), vec![h(1), h(2), h(1), h(3)]);
    assert!(t.take_changed().is_empty());
    assert_eq!(t.get(&h(1)), Some(&11));
    t.remove(&h(2));
    assert_eq!(t.take_changed(), vec![h(2)]);
    assert_eq!(t.len(), 1);
}

#[test]
fn storages_report_what_changed() {
    let mut bs = RecordBodyStorage::new();
    bs.store(&h(1), &vec![1]);
    assert_eq!(bs.take_changed(), vec![h(1)]);
    assert!(bs.take_changed().is_empty());
    assert_eq!(bs.get(&h(1)), Some(vec![1]));

    let mut ws = RecordWitnessStorage::new();
    ws.update_record_witness(&h(1), &RecordWitness::Signature(vec![1]));
    assert!(ws.take_changed().contains(&h(1)));
    assert!(ws.take_changed().is_empty());

    let mut hs = RecordHeaderStorage::new();
    let header = RecordHeader {
        body_ptr: h(9),
        record_backptrs: vec![RecordBackPtr { ptr: h(7), offset: None }],
    };
    hs.store(&h(1), &header);
    assert_eq!(hs.take_changed_headers(), vec![h(1)]);
    assert!(hs.take_changed_incoming().contains(&h(7)));
    assert!(hs.take_changed_headers().is_empty());
}

#[test]
fn restored_rows_read_back_without_recomputation() {
    let mut hs = RecordHeaderStorage::new();
    let header = RecordHeader {
        body_ptr: h(9),
        record_backptrs: vec![RecordBackPtr { ptr: h(7), offset: None }],
    };
    hs.restore_header(&h(1), &header);
    hs.restore_incoming(&h(7), &vec![h(1), h(1), h(2)]);
    hs.set_heads(&vec![h(5)]);
    assert_eq!(hs.get(&h(1)).unwrap().body_ptr, h(9));
    assert_eq!(hs.get_incoming_ptrs(&h(7)), Some(vec![h(1), h(2)]));
    assert_eq!(hs.get_heads(), vec![h(5)]);
    assert!(hs.get_roots().is_empty());
}

#[test]
fn fresh_indices_have_nothing_to_write_through() {
    assert!(datacapsule::dag::storage::DCMetadataStorage::new().take_changed().is_empty());
    assert!(RecordBodyStorage::new().take_changed().is_empty());
    assert!(RecordWitnessStorage::new().take_changed().is_empty());
    let mut hs = RecordHeaderStorage::new();
    assert!(hs.take_changed_headers().is_empty());
    assert!(hs.take_changed_incoming().is_empty());
    assert!(hs.get(&h(1)).is_none());
    assert!(datacapsule::tree::storage::DataStorage::new().take_changed().is_empty());
    assert!(datacapsule::tree::storage::RecordStorage::new().take_changed().is_empty());
    assert!(datacapsule::tree::storage::NodeStorage::new().take_changed().is_empty());
    assert!(datacapsule::tree::storage::OrphanStorage::new().take_changed().is_empty());
    let mut store = datacapsule::tree::server::TreeStore::new();
    assert!(store.ds.take_changed().is_empty());
    assert!(store.rs.take_changed().is_empty());
    assert!(store.ns.take_changed().is_empty());
    assert!(store.os.take_changed().is_empty());
    assert!(store.os.all_orphans().is_empty());
    let names = datacapsule::table::NameSet::new();
    assert_eq!(names.len(), 0);
    assert!(names.to_vec().is_empty());
}
