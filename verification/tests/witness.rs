use datacapsule::dc_repr::{closer_witness, RecordWitness};

fn sig() -> RecordWitness {
    RecordWitness::Signature(vec![1, 2, 3])
}

fn ptr(d: u64) -> RecordWitness {
    RecordWitness::NextRecordPtr([7u8; 32], d)
}

#[test]
fn signature_is_closer_than_pointer() {
    assert!(sig().closer_than(&ptr(1)));
    assert!(!ptr(1).closer_than(&sig()));
}

#[test]
fn pointers_are_ordered_by_distance() {
    assert!(ptr(1).closer_than(&ptr(2)));
    assert!(!ptr(2).closer_than(&ptr(1)));
    assert!(!ptr(2).closer_than(&ptr(2)));
    assert!(ptr(0).closer_than(&ptr(u64::MAX)));
}

#[test]
fn everything_is_closer_than_unknown() {
    assert!(sig().closer_than(&RecordWitness::Unknown));
    assert!(ptr(u64::MAX).closer_than(&RecordWitness::Unknown));
    assert!(!RecordWitness::Unknown.closer_than(&ptr(u64::MAX)));
    assert!(!RecordWitness::Unknown.closer_than(&sig()));
}

#[test]
fn nothing_is_closer_than_itself() {
    assert!(!sig().closer_than(&sig()));
    assert!(!RecordWitness::Unknown.closer_than(&RecordWitness::Unknown));
}

#[test]
fn closer_returns_the_second_on_a_tie() {
    let a = RecordWitness::NextRecordPtr([1u8; 32], 5);
    let b = RecordWitness::NextRecordPtr([2u8; 32], 5);
    match RecordWitness::closer(&a, &b) {
        RecordWitness::NextRecordPtr(h, 5) => assert_eq!(*h, [2u8; 32]),
        other => panic!("unexpected {:?}", other),
    }
    match RecordWitness::closer(&b, &a) {
        RecordWitness::NextRecordPtr(h, 5) => assert_eq!(*h, [1u8; 32]),
        other => panic!("unexpected {:?}", other),
    }
}

#[test]
fn closer_picks_the_closer_one() {
    assert!(matches!(RecordWitness::closer(&sig(), &ptr(3)), RecordWitness::Signature(_)));
    assert!(matches!(RecordWitness::closer(&ptr(3), &sig()), RecordWitness::Signature(_)));
    assert!(matches!(
        RecordWitness::closer(&RecordWitness::Unknown, &ptr(3)),
        RecordWitness::NextRecordPtr(_, 3)
    ));
    assert!(matches!(RecordWitness::closer(&ptr(9), &ptr(3)), RecordWitness::NextRecordPtr(_, 3)));
}

#[test]
fn closer_witness_returns_the_first_on_a_tie() {
    let a = RecordWitness::NextRecordPtr([1u8; 32], 5);
    let b = RecordWitness::NextRecordPtr([2u8; 32], 5);
    match closer_witness(&a, &b) {
        RecordWitness::NextRecordPtr(h, 5) => assert_eq!(*h, [1u8; 32]),
        other => panic!("unexpected {:?}", other),
    }
    assert!(matches!(closer_witness(&ptr(9), &ptr(3)), RecordWitness::NextRecordPtr(_, 3)));
    assert!(matches!(closer_witness(&RecordWitness::Unknown, &sig()), RecordWitness::Signature(_)));
}

#[test]
fn an_absent_row_reads_as_unknown() {
    assert!(matches!(RecordWitness::from_stored(None), RecordWitness::Unknown));
    assert!(matches!(RecordWitness::from_stored(Some(ptr(4))), RecordWitness::NextRecordPtr(_, 4)));
}
