use chat_relay::codec::decode_frame;
use chat_relay::codec::encode_frame;

#[test]
fn round_trip_empty_payload() {
    let payload: Vec<u8> = Vec::new();
    let frame = encode_frame(&payload);
    assert_eq!(frame, vec![0u8, 0u8, 0u8, 0u8]);
    let decoded = decode_frame(&frame);
    assert_eq!(decoded, Some((Vec::new(), 4usize)));
}

#[test]
fn round_trip_small_payload() {
    let payload = b"hello".to_vec();
    let frame = encode_frame(&payload);
    assert_eq!(&frame[0..4], &[0u8, 0u8, 0u8, 5u8]);
    assert_eq!(&frame[4..], b"hello");
    let decoded = decode_frame(&frame);
    assert_eq!(decoded, Some((b"hello".to_vec(), 9usize)));
}

#[test]
fn round_trip_with_trailing_bytes() {
    let payload = b"abc".to_vec();
    let mut buf = encode_frame(&payload);
    buf.extend_from_slice(b"leftover");
    let decoded = decode_frame(&buf);
    assert_eq!(decoded, Some((b"abc".to_vec(), 7usize)));
}

#[test]
fn partial_frame_yields_nothing() {
    let empty: Vec<u8> = Vec::new();
    assert_eq!(decode_frame(&empty), None);
    assert_eq!(decode_frame(&vec![0u8, 0u8]), None);
    // announced length 5, only 2 payload bytes so far
    assert_eq!(decode_frame(&vec![0u8, 0u8, 0u8, 5u8, 1u8, 2u8]), None);
}

#[test]
fn length_prefix_is_big_endian() {
    let payload = vec![7u8; 258];
    let frame = encode_frame(&payload);
    assert_eq!(&frame[0..4], &[0u8, 0u8, 1u8, 2u8]);
    let decoded = decode_frame(&frame).expect("complete frame");
    assert_eq!(decoded.0.len(), 258);
    assert_eq!(decoded.1, 262);
}

#[test]
fn back_to_back_frames_decode_one_at_a_time() {
    let first = b"one".to_vec();
    let second = b"two!".to_vec();
    let mut buf = encode_frame(&first);
    buf.extend_from_slice(&encode_frame(&second));
    let (p1, used1) = decode_frame(&buf).expect("first frame");
    assert_eq!(p1, b"one".to_vec());
    let rest: Vec<u8> = buf[used1..].to_vec();
    let (p2, used2) = decode_frame(&rest).expect("second frame");
    assert_eq!(p2, b"two!".to_vec());
    assert_eq!(used2, rest.len());
}
