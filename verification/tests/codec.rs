use datacapsule::codec::{decode, encode, ClientCodec, FrameError, P2PCodec, ServerCodec};

#[test]
fn a_frame_is_the_length_then_the_payload() {
    let mut dst = vec![0xaa];
    encode(b"hello", &mut dst);
    assert_eq!(dst, vec![0xaa, 5, 0, 0, 0, 0, 0, 0, 0, b'h', b'e', b'l', b'l', b'o']);
}

#[test]
fn the_length_is_little_endian() {
    let payload = vec![7u8; 0x0102];
    let mut dst = Vec::new();
    encode(&payload, &mut dst);
    assert_eq!(&dst[..8], &[0x02, 0x01, 0, 0, 0, 0, 0, 0]);
    assert_eq!(dst.len(), 8 + 0x0102);
}

#[test]
fn an_empty_payload_is_a_frame_of_eight_zero_bytes() {
    let mut dst = Vec::new();
    encode(b"", &mut dst);
    assert_eq!(dst, vec![0u8; 8]);
    assert_eq!(decode(&mut dst), Ok(Some(vec![])));
    assert!(dst.is_empty());
}

#[test]
fn decode_takes_one_frame_and_leaves_the_rest() {
    let mut buf = Vec::new();
    encode(b"first", &mut buf);
    encode(b"second", &mut buf);
    buf.push(9);
    assert_eq!(decode(&mut buf), Ok(Some(b"first".to_vec())));
    assert_eq!(decode(&mut buf), Ok(Some(b"second".to_vec())));
    assert_eq!(buf, vec![9]);
    assert_eq!(decode(&mut buf), Ok(None));
    assert_eq!(buf, vec![9]);
}

#[test]
fn decode_waits_for_a_whole_frame() {
    let mut whole = Vec::new();
    encode(b"hello", &mut whole);
    for cut in 0..whole.len() {
        let mut part = whole[..cut].to_vec();
        assert_eq!(decode(&mut part), Ok(None));
        assert_eq!(part, whole[..cut].to_vec());
    }
}

#[test]
fn decode_refuses_a_length_that_does_not_fit() {
    let mut buf = vec![0xff; 8];
    buf.extend_from_slice(b"abc");
    assert_eq!(decode(&mut buf), Err(FrameError::MessageLen));
    assert_eq!(buf.len(), 11);
}

#[test]
fn the_codecs_frame_alike() {
    let mut a = Vec::new();
    let mut b = Vec::new();
    let mut c = Vec::new();
    ClientCodec::new().encode(b"xyz", &mut a);
    ServerCodec::new().encode(b"xyz", &mut b);
    P2PCodec::new().encode(b"xyz", &mut c);
    assert_eq!(a, b);
    assert_eq!(b, c);
    assert_eq!(ServerCodec::new().decode(&mut a), Ok(Some(b"xyz".to_vec())));
    assert_eq!(ClientCodec::new().decode(&mut b), Ok(Some(b"xyz".to_vec())));
    assert_eq!(P2PCodec::new().decode(&mut c), Ok(Some(b"xyz".to_vec())));
}
