use reduction_server::wire::decode_frame;
use reduction_server::wire::decode_u32_le;
use reduction_server::wire::encode_frame;
use reduction_server::wire::encode_u32_le;

#[test]
fn test_u32_le_encoding() {
    assert_eq!(encode_u32_le(1), vec![1, 0, 0, 0]);
    assert_eq!(encode_u32_le(0x12345678), vec![0x78, 0x56, 0x34, 0x12]);
    assert_eq!(encode_u32_le(u32::MAX), vec![0xff, 0xff, 0xff, 0xff]);
}

#[test]
fn test_u32_le_decoding() {
    assert_eq!(decode_u32_le(&vec![0x78, 0x56, 0x34, 0x12]), 0x12345678);
    assert_eq!(decode_u32_le(&vec![0, 0, 0, 0]), 0);
}

#[test]
fn test_handshake_round_trip() {
    // a handle framed as little-endian u32 length then bytes reads
    // back exactly
    let handle: Vec<u8> = vec![0xde, 0xad, 0xbe, 0xef, 0x42];
    let frame = encode_frame(&handle);
    assert_eq!(frame.len(), 9);
    assert_eq!(&frame[..4], &[5, 0, 0, 0]);
    let (back, used) = decode_frame(&frame).unwrap();
    assert_eq!(back, handle);
    assert_eq!(used, 9);
}

#[test]
fn test_empty_handle_round_trip() {
    let handle: Vec<u8> = Vec::new();
    let frame = encode_frame(&handle);
    assert_eq!(frame, vec![0, 0, 0, 0]);
    let (back, used) = decode_frame(&frame).unwrap();
    assert!(back.is_empty());
    assert_eq!(used, 4);
}

#[test]
fn test_decode_frame_trailing_bytes() {
    let mut frame = encode_frame(&vec![7, 8]);
    frame.push(0x99);
    let (back, used) = decode_frame(&frame).unwrap();
    assert_eq!(back, vec![7, 8]);
    assert_eq!(used, 6);
}

#[test]
fn test_decode_frame_too_short() {
    assert!(decode_frame(&vec![]).is_none());
    assert!(decode_frame(&vec![1, 0]).is_none());
    // declares 3 bytes but carries 2
    assert!(decode_frame(&vec![3, 0, 0, 0, 1, 2]).is_none());
}
