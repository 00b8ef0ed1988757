use datacapsule::crypto::{hash_node, null_hash};
use datacapsule::merkle::{merkle_tree_root, merkle_tree_storage};

fn h(n: u8) -> [u8; 32] {
    [n; 32]
}

fn node(children: &[[u8; 32]]) -> [[u8; 32]; 4] {
    let mut out = [null_hash(); 4];
    out[..children.len()].copy_from_slice(children);
    out
}

#[test]
fn root_of_commit_without_records_is_the_carried_hash() {
    assert_eq!(merkle_tree_root(&[], &h(9)), h(9));
    let (records, blocks, parent, root, depth) = merkle_tree_storage(&[], &h(9));
    assert!(records.is_empty());
    assert!(blocks.is_empty());
    assert_eq!(parent, null_hash());
    assert_eq!(root, h(9));
    assert_eq!(depth, 0);
}

#[test]
fn one_record_gives_one_padded_node() {
    let expected = hash_node(&node(&[h(9), h(1)]));
    assert_eq!(merkle_tree_root(&[h(1)], &h(9)), expected);
}

#[test]
fn three_records_fill_one_node() {
    let expected = hash_node(&[h(9), h(1), h(2), h(3)]);
    assert_eq!(merkle_tree_root(&[h(1), h(2), h(3)], &h(9)), expected);
    let (records, blocks, parent, root, depth) = merkle_tree_storage(&[h(1), h(2), h(3)], &h(9));
    assert_eq!(root, expected);
    assert_eq!(depth, 1);
    assert_eq!(parent, expected);
    assert_eq!(records.len(), 3);
    for (i, r) in records.iter().enumerate() {
        assert_eq!(r.name, h(i as u8 + 1));
        assert_eq!(r.parent, expected);
    }
    assert_eq!(blocks.len(), 1);
    assert_eq!(blocks[0].name, expected);
    assert_eq!(blocks[0].children, [h(9), h(1), h(2), h(3)]);
    assert_eq!(blocks[0].parent, None);
    assert!(blocks[0].signed);
}

#[test]
fn four_records_need_a_second_layer() {
    let left = hash_node(&[h(9), h(1), h(2), h(3)]);
    let right = hash_node(&node(&[h(4)]));
    let top = hash_node(&node(&[left, right]));
    let hashes = [h(1), h(2), h(3), h(4)];
    assert_eq!(merkle_tree_root(&hashes, &h(9)), top);

    let (records, blocks, parent, root, depth) = merkle_tree_storage(&hashes, &h(9));
    assert_eq!(root, top);
    assert_eq!(depth, 2);
    assert_eq!(parent, left);
    assert_eq!(records.len(), 4);
    assert_eq!(records[0].parent, left);
    assert_eq!(records[1].parent, left);
    assert_eq!(records[2].parent, left);
    assert_eq!(records[3].name, h(4));
    assert_eq!(records[3].parent, right);

    assert_eq!(blocks.len(), 3);
    assert_eq!(blocks[0].name, left);
    assert_eq!(blocks[0].parent, Some(top));
    assert!(!blocks[0].signed);
    assert_eq!(blocks[1].name, right);
    assert_eq!(blocks[1].children, node(&[h(4)]));
    assert_eq!(blocks[1].parent, Some(top));
    assert!(!blocks[1].signed);
    assert_eq!(blocks[2].name, top);
    assert_eq!(blocks[2].children, node(&[left, right]));
    assert_eq!(blocks[2].parent, None);
    assert!(blocks[2].signed);
}

#[test]
fn sixteen_records_give_three_layers() {
    let hashes: Vec<[u8; 32]> = (1..=16).map(h).collect();
    let mut layer = vec![h(9)];
    layer.extend_from_slice(&hashes);
    let mut depth = 0;
    let mut count = 0;
    while layer.len() > 1 {
        let next: Vec<[u8; 32]> = layer.chunks(4).map(|c| hash_node(&node(c))).collect();
        count += next.len();
        layer = next;
        depth += 1;
    }
    assert_eq!(depth, 3);
    let (records, blocks, _, root, d) = merkle_tree_storage(&hashes, &h(9));
    assert_eq!(root, layer[0]);
    assert_eq!(d, 3);
    assert_eq!(records.len(), 16);
    assert_eq!(blocks.len(), count);
    assert_eq!(blocks.iter().filter(|b| b.signed).count(), 1);
    assert!(blocks.last().unwrap().signed);
    assert_eq!(blocks.iter().filter(|b| b.parent.is_none()).count(), 1);
    assert_eq!(merkle_tree_root(&hashes, &h(9)), root);
}

#[test]
fn every_node_is_named_by_its_children_and_known_to_its_parent() {
    let hashes: Vec<[u8; 32]> = (1..=21).map(h).collect();
    let (records, blocks, parent, root, _) = merkle_tree_storage(&hashes, &h(9));
    for b in &blocks {
        assert_eq!(b.name, hash_node(&b.children));
        match b.parent {
            Some(p) => {
                let above = blocks.iter().find(|x| x.name == p).unwrap();
                assert!(above.children.contains(&b.name));
            }
            None => assert_eq!(b.name, root),
        }
    }
    for r in &records {
        let above = blocks.iter().find(|x| x.name == r.parent).unwrap();
        assert!(above.children.contains(&r.name));
    }
    let first = blocks.iter().find(|x| x.name == parent).unwrap();
    assert_eq!(first.children[0], h(9));
}

#[test]
fn the_root_depends_on_the_carried_hash_and_on_the_order() {
    let a = merkle_tree_root(&[h(1), h(2)], &h(9));
    assert_ne!(a, merkle_tree_root(&[h(1), h(2)], &h(8)));
    assert_ne!(a, merkle_tree_root(&[h(2), h(1)], &h(9)));
}
