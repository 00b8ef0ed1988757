use datacapsule::dag::storage::{
    DCMetadataStorage, RecordBodyStorage, RecordHeaderStorage, RecordWitnessStorage,
};
use datacapsule::dc_repr::{Metadata, RecordBackPtr, RecordHeader, RecordWitness};

fn h(n: u8) -> [u8; 32] {
    [n; 32]
}

fn header(body: u8, ptrs: &[u8]) -> RecordHeader {
    RecordHeader {
        body_ptr: h(body),
        record_backptrs: ptrs.iter().map(|p| RecordBackPtr { ptr: h(*p), offset: None }).collect(),
    }
}

fn sorted(mut v: Vec<[u8; 32]>) -> Vec<[u8; 32]> {
    v.sort();
    v
}

#[test]
fn metadata_is_stored_by_name() {
    let mut ms = DCMetadataStorage::new();
    assert!(ms.get(&h(1)).is_none());
    assert!(ms.get_writer_pk(&h(1)).is_none());
    let dc = Metadata {
        creator_pub_key: vec![1],
        writer_pub_key: vec![2, 3],
        description: "bench".to_string(),
        signature: vec![4],
    };
    ms.store(&h(1), &dc);
    let got = ms.get(&h(1)).unwrap();
    assert_eq!(got.creator_pub_key, vec![1]);
    assert_eq!(got.description, "bench");
    assert_eq!(got.signature, vec![4]);
    assert_eq!(ms.get_writer_pk(&h(1)), Some(vec![2, 3]));
    assert!(ms.get(&h(2)).is_none());
}

#[test]
fn bodies_are_stored_by_hash() {
    let mut bs = RecordBodyStorage::new();
    assert_eq!(bs.get(&h(1)), None);
    bs.store(&h(1), &vec![1, 2, 3]);
    bs.store(&h(1), &vec![1, 2, 3]);
    assert_eq!(bs.get(&h(1)), Some(vec![1, 2, 3]));
}

#[test]
fn a_chain_has_one_head_and_one_root() {
    // genesis 100 <- 1 <- 2 <- 3
    let mut hs = RecordHeaderStorage::new();
    hs.set_heads(&vec![h(100)]);
    hs.set_roots(&vec![h(100)]);
    hs.store(&h(1), &header(11, &[100]));
    assert_eq!(hs.get_heads(), vec![h(1)]);
    assert_eq!(sorted(hs.get_roots()), sorted(vec![h(100), h(1)]));
    hs.store(&h(2), &header(12, &[1]));
    assert_eq!(hs.get_heads(), vec![h(2)]);
    assert_eq!(sorted(hs.get_roots()), sorted(vec![h(100), h(1)]));
    hs.store(&h(3), &header(13, &[2]));
    assert_eq!(hs.get_heads(), vec![h(3)]);
    assert_eq!(sorted(hs.get_roots()), sorted(vec![h(100), h(1)]));
    assert_eq!(hs.len(), 3);
    assert!(hs.contains(&h(2)));
    assert!(!hs.contains(&h(100)));
    assert_eq!(hs.get(&h(2)).unwrap().body_ptr, h(12));
    assert_eq!(hs.get_incoming_ptrs(&h(1)), Some(vec![h(2)]));
    assert_eq!(hs.get_incoming_ptrs(&h(3)), None);
}

#[test]
fn filling_a_hole_joins_head_and_root() {
    // 1 <- 2 <- 3, stored in the order 3, 1, 2
    let mut hs = RecordHeaderStorage::new();
    hs.store(&h(3), &header(13, &[2]));
    assert_eq!(hs.get_heads(), vec![h(3)]);
    assert_eq!(hs.get_roots(), vec![h(3)]);
    hs.store(&h(1), &header(11, &[100]));
    assert_eq!(sorted(hs.get_heads()), sorted(vec![h(3), h(1)]));
    assert_eq!(sorted(hs.get_roots()), sorted(vec![h(3), h(1)]));
    hs.store(&h(2), &header(12, &[1]));
    assert_eq!(hs.get_heads(), vec![h(3)]);
    assert_eq!(hs.get_roots(), vec![h(1)]);
}

#[test]
fn a_branch_gives_two_heads() {
    let mut hs = RecordHeaderStorage::new();
    hs.store(&h(1), &header(11, &[100]));
    hs.store(&h(2), &header(12, &[1]));
    hs.store(&h(3), &header(13, &[1]));
    assert_eq!(sorted(hs.get_heads()), sorted(vec![h(2), h(3)]));
    assert_eq!(hs.get_roots(), vec![h(1)]);
    assert_eq!(sorted(hs.get_incoming_ptrs(&h(1)).unwrap()), sorted(vec![h(2), h(3)]));
    // a merge of both branches
    hs.store(&h(4), &header(14, &[2, 3]));
    assert_eq!(hs.get_heads(), vec![h(4)]);
    assert_eq!(hs.get_roots(), vec![h(1)]);
}

#[test]
fn storing_twice_is_storing_once() {
    let mut once = RecordHeaderStorage::new();
    let mut twice = RecordHeaderStorage::new();
    for hs in [&mut once, &mut twice] {
        hs.store(&h(1), &header(11, &[100]));
        hs.store(&h(2), &header(12, &[1]));
    }
    twice.store(&h(2), &header(12, &[1]));
    twice.store(&h(1), &header(11, &[100]));
    assert_eq!(sorted(once.get_heads()), sorted(twice.get_heads()));
    assert_eq!(sorted(once.get_roots()), sorted(twice.get_roots()));
    assert_eq!(once.get_incoming_ptrs(&h(1)), twice.get_incoming_ptrs(&h(1)));
    assert_eq!(once.get_incoming_ptrs(&h(100)), twice.get_incoming_ptrs(&h(100)));
    assert_eq!(once.len(), twice.len());
}

#[test]
fn a_cycle_of_headers_does_not_hang() {
    let mut hs = RecordHeaderStorage::new();
    hs.store(&h(1), &header(11, &[2]));
    hs.store(&h(2), &header(12, &[1]));
    assert_eq!(hs.get_heads(), Vec::<[u8; 32]>::new());
    assert_eq!(hs.get_roots(), Vec::<[u8; 32]>::new());
}

#[test]
fn witnesses_only_move_closer() {
    let mut ws = RecordWitnessStorage::new();
    assert!(matches!(ws.get(&h(1)), RecordWitness::Unknown));
    let prev = ws.update_record_witness(&h(1), &RecordWitness::NextRecordPtr(h(2), 5));
    assert!(matches!(prev, RecordWitness::Unknown));
    let prev = ws.update_record_witness(&h(1), &RecordWitness::NextRecordPtr(h(3), 7));
    assert!(matches!(prev, RecordWitness::NextRecordPtr(_, 5)));
    match ws.get(&h(1)) {
        RecordWitness::NextRecordPtr(n, 5) => assert_eq!(n, h(2)),
        other => panic!("unexpected {:?}", other),
    }
    ws.update_record_witness(&h(1), &RecordWitness::NextRecordPtr(h(4), 2));
    match ws.get(&h(1)) {
        RecordWitness::NextRecordPtr(n, 2) => assert_eq!(n, h(4)),
        other => panic!("unexpected {:?}", other),
    }
    ws.update_record_witness(&h(1), &RecordWitness::Signature(vec![9]));
    ws.update_record_witness(&h(1), &RecordWitness::NextRecordPtr(h(4), 0));
    ws.update_record_witness(&h(1), &RecordWitness::Unknown);
    match ws.get(&h(1)) {
        RecordWitness::Signature(s) => assert_eq!(s, vec![9]),
        other => panic!("unexpected {:?}", other),
    }
}

#[test]
fn a_tie_takes_the_proposed_witness() {
    let mut ws = RecordWitnessStorage::new();
    ws.update_record_witness(&h(1), &RecordWitness::NextRecordPtr(h(2), 5));
    ws.update_record_witness(&h(1), &RecordWitness::NextRecordPtr(h(3), 5));
    match ws.get(&h(1)) {
        RecordWitness::NextRecordPtr(n, 5) => assert_eq!(n, h(3)),
        other => panic!("unexpected {:?}", other),
    }
}
