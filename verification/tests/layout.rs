use datacapsule::layout::{tree_name, BODIES, HEADERS, METADATA, WITNESSES};

#[test]
fn a_tree_is_named_by_prefix_zeros_and_capsule() {
    let mut dc = [0u8; 32];
    for (i, b) in dc.iter_mut().enumerate() {
        *b = i as u8 + 1;
    }
    let name = tree_name(HEADERS, &dc);
    assert_eq!(name[0], b'H');
    assert_eq!(&name[1..8], &[0u8; 7]);
    assert_eq!(&name[8..], &dc);
    assert_eq!(tree_name(BODIES, &dc)[0], b'B');
    assert_eq!(tree_name(WITNESSES, &dc)[0], b'W');
    assert_eq!(METADATA, b'M');
    assert_ne!(tree_name(HEADERS, &dc), tree_name(HEADERS, &[0u8; 32]));
}
