use datacapsule::crypto::{
    checked_signature, decrypt, deserialize_pubkey, encrypt, hash_data, hash_dc_metadata, hash_eq,
    hash_node, hash_record_header, null_hash, public_key_of, seal, sealed, serialize_pubkey, sign,
    verify_signature, PrivateKey, PublicKey,
};
use datacapsule::dc_repr::{RecordBackPtr, RecordHeader};
use openssl::ec::{EcGroup, EcKey};
use openssl::nid::Nid;

fn keypair() -> (PrivateKey, PublicKey) {
    let group = EcGroup::from_curve_name(Nid::X9_62_PRIME256V1).unwrap();
    let key = EcKey::generate(&group).unwrap();
    (
        PrivateKey { der: key.private_key_to_der().unwrap() },
        PublicKey { der: key.public_key_to_der().unwrap() },
    )
}

fn hex(bytes: &[u8]) -> String {
    let mut s = String::new();
    for b in bytes {
        s.push_str(&format!("{:02x}", b));
    }
    s
}

#[test]
fn sha256_of_abc() {
    assert_eq!(
        hex(&hash_data(b"abc")),
        "ba7816bf8f01cfea414140de5dae2223b00361a396177a9cb410ff61f20015ad"
    );
}

#[test]
fn sha256_of_nothing() {
    assert_eq!(
        hex(&hash_data(b"")),
        "e3b0c44298fc1c149afbf4c8996fb92427ae41e4649b934ca495991b7852b855"
    );
}

#[test]
fn null_hash_is_all_zero() {
    assert_eq!(null_hash(), [0u8; 32]);
}

#[test]
fn hash_eq_compares_every_byte() {
    let a = [5u8; 32];
    let mut b = a;
    assert!(hash_eq(&a, &b));
    b[31] = 6;
    assert!(!hash_eq(&a, &b));
    b[31] = 5;
    b[0] = 0;
    assert!(!hash_eq(&a, &b));
}

#[test]
fn node_hash_is_hash_of_concatenated_children() {
    let node = [[1u8; 32], [2u8; 32], [3u8; 32], [0u8; 32]];
    let mut all = Vec::new();
    for child in &node {
        all.extend_from_slice(child);
    }
    assert_eq!(hash_node(&node), hash_data(&all));
    assert_eq!(hash_node(&node), openssl::sha::sha256(&all));
}

#[test]
fn metadata_hash_is_hash_of_keys_and_description() {
    let h = hash_dc_metadata(b"creator", b"writer", "bench");
    assert_eq!(h, hash_data(b"creatorwriterbench"));
    assert_ne!(h, hash_dc_metadata(b"creator", b"writer", "bench2"));
}

#[test]
fn record_name_covers_body_ptr_and_pointers_but_not_offsets() {
    let header = RecordHeader {
        body_ptr: [9u8; 32],
        record_backptrs: vec![
            RecordBackPtr { ptr: [1u8; 32], offset: Some(1) },
            RecordBackPtr { ptr: [2u8; 32], offset: None },
        ],
    };
    let mut all = vec![9u8; 32];
    all.extend_from_slice(&[1u8; 32]);
    all.extend_from_slice(&[2u8; 32]);
    assert_eq!(hash_record_header(&header), hash_data(&all));

    let other_offsets = RecordHeader {
        body_ptr: [9u8; 32],
        record_backptrs: vec![
            RecordBackPtr { ptr: [1u8; 32], offset: Some(77) },
            RecordBackPtr { ptr: [2u8; 32], offset: Some(3) },
        ],
    };
    assert_eq!(hash_record_header(&header), hash_record_header(&other_offsets));

    let other_order = RecordHeader {
        body_ptr: [9u8; 32],
        record_backptrs: vec![
            RecordBackPtr { ptr: [2u8; 32], offset: None },
            RecordBackPtr { ptr: [1u8; 32], offset: Some(1) },
        ],
    };
    assert_ne!(hash_record_header(&header), hash_record_header(&other_order));
}

#[test]
fn record_name_without_pointers_is_hash_of_body_ptr() {
    let header = RecordHeader { body_ptr: [9u8; 32], record_backptrs: vec![] };
    assert_eq!(hash_record_header(&header), hash_data(&[9u8; 32]));
}

#[test]
fn a_private_key_knows_its_public_key() {
    let (sk, pk) = keypair();
    assert_eq!(public_key_of(&sk).unwrap().der, pk.der);
    assert!(public_key_of(&PrivateKey { der: vec![1, 2, 3] }).is_none());
    let hash = hash_data(b"message");
    let sig = sign(&hash, &sk).unwrap();
    assert!(verify_signature(&sig, &hash, &public_key_of(&sk).unwrap()));
}

#[test]
fn a_signature_verifies_under_its_key_only() {
    let (sk, pk) = keypair();
    let (_, other_pk) = keypair();
    let hash = hash_data(b"message");
    let sig = sign(&hash, &sk).unwrap();
    assert!(verify_signature(&sig, &hash, &pk));
    assert!(!verify_signature(&sig, &hash, &other_pk));
    assert!(!verify_signature(&sig, &hash_data(b"other"), &pk));
}

#[test]
fn malformed_keys_and_signatures_verify_nothing() {
    let (sk, pk) = keypair();
    let hash = hash_data(b"message");
    let sig = sign(&hash, &sk).unwrap();
    assert!(!verify_signature(&vec![1, 2, 3], &hash, &pk));
    assert!(!verify_signature(&vec![], &hash, &pk));
    assert!(!verify_signature(&sig, &hash, &PublicKey { der: vec![0, 1, 2] }));
}

#[test]
fn a_malformed_private_key_signs_nothing() {
    let hash = hash_data(b"message");
    assert!(sign(&hash, &PrivateKey { der: vec![1, 2, 3] }).is_none());
}

#[test]
fn public_keys_serialize_to_their_bytes() {
    let (_, pk) = keypair();
    let bytes = serialize_pubkey(&pk);
    assert_eq!(bytes, pk.der);
    assert_eq!(deserialize_pubkey(&bytes).der, pk.der);
}

#[test]
fn encryption_round_trips() {
    let key = [3u8; 16];
    for len in [0usize, 1, 15, 16, 17, 1000] {
        let data: Vec<u8> = (0..len).map(|i| (i % 251) as u8).collect();
        let encrypted = encrypt(&data, &key).unwrap();
        assert!(encrypted.len() >= 16 + len);
        assert_eq!((encrypted.len() - 16) % 16, 0);
        assert_ne!(&encrypted[16..], &data[..]);
        assert_eq!(decrypt(&encrypted, &key), Some(data));
    }
}

#[test]
fn encryption_uses_a_fresh_iv() {
    let key = [3u8; 16];
    let a = encrypt(b"hello", &key).unwrap();
    let b = encrypt(b"hello", &key).unwrap();
    assert_ne!(a, b);
    assert_eq!(decrypt(&a, &key), decrypt(&b, &key));
}

#[test]
fn decryption_fails_on_short_or_damaged_input() {
    let key = [3u8; 16];
    assert_eq!(decrypt(&[0u8; 15], &key), None);
    assert_eq!(decrypt(&[0u8; 16], &key), None);
    let mut encrypted = encrypt(b"hello", &key).unwrap();
    encrypted.truncate(encrypted.len() - 1);
    assert_eq!(decrypt(&encrypted, &key), None);
}

#[test]
fn decryption_under_another_key_does_not_give_the_plaintext() {
    let encrypted = encrypt(b"hello world, hello world", &[3u8; 16]).unwrap();
    assert_ne!(decrypt(&encrypted, &[4u8; 16]), Some(b"hello world, hello world".to_vec()));
}

#[test]
fn a_signature_is_handed_out_only_where_the_public_key_accepts_it() {
    let (sk, pk) = keypair();
    let (other_sk, other_pk) = keypair();
    let hash = [5u8; 32];
    let sig = sign(&hash, &sk).unwrap();
    assert_eq!(checked_signature(sig.clone(), &hash, Some(pk.clone())), Some(sig.clone()));
    assert_eq!(checked_signature(sig.clone(), &hash, Some(other_pk)), None);
    assert_eq!(checked_signature(sig.clone(), &[6u8; 32], Some(pk.clone())), None);
    assert_eq!(checked_signature(sig.clone(), &hash, None), None);
    assert_eq!(checked_signature(vec![1, 2, 3], &hash, Some(pk)), None);
    assert!(sign(&hash, &PrivateKey { der: vec![1, 2, 3] }).is_none());
    let other = sign(&hash, &other_sk).unwrap();
    assert!(verify_signature(&other, &hash, &public_key_of(&other_sk).unwrap()));
}

#[test]
fn sealing_puts_the_iv_before_the_ciphertext() {
    let iv = [9u8; 16];
    let mut expected = iv.to_vec();
    expected.extend_from_slice(&[1, 2, 3]);
    assert_eq!(sealed(&iv, vec![1, 2, 3]), Some(expected.clone()));
    assert_eq!(seal(&iv, vec![1, 2, 3]), expected);
    assert_eq!(sealed(&iv, vec![]), Some(iv.to_vec()));
}
