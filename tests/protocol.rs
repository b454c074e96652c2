use std::collections::HashMap;

use rocketmq::protocol::{decode_frame, encode_frame, FramingError, OpaqueCounter, RemoteCommand};

#[test]
fn test_remote_command_encode_decode_roundtrip() {
    let mut opaque = OpaqueCounter::new();
    let mut fields = HashMap::new();
    fields.insert("messageId".to_string(), "123".to_string());
    fields.insert("offset".to_string(), "456".to_string());
    let cmd = RemoteCommand::new(
        10,
        0,
        "remark".to_string(),
        fields,
        b"Hello World".to_vec(),
        &mut opaque,
    );
    let encoded = cmd.encode().unwrap();
    let decoded = RemoteCommand::from_buffer(&encoded).unwrap();
    assert_eq!(cmd, decoded);
}

#[test]
fn round_trip_unicode_remark_empty_fields_empty_body() {
    let mut opaque = OpaqueCounter::new();
    let cmd = RemoteCommand::new(
        -3,
        1,
        "grüße \u{1F600} \"quoted\"\n".to_string(),
        HashMap::new(),
        Vec::new(),
        &mut opaque,
    );
    let encoded = cmd.encode().unwrap();
    assert_eq!(RemoteCommand::from_buffer(&encoded).unwrap(), cmd);
}

#[test]
fn new_command_defaults() {
    let mut opaque = OpaqueCounter::new();
    let cmd = RemoteCommand::new(7, 2, String::new(), HashMap::new(), vec![1, 2], &mut opaque);
    assert_eq!(cmd.header.language, "OTHER");
    assert_eq!(cmd.header.version, 431);
    assert_eq!(cmd.header.opaque, 0);
    assert_eq!(cmd.header.code, 7);
    assert_eq!(cmd.header.flag, 2);
    assert_eq!(cmd.body, vec![1, 2]);
}

#[test]
fn opaque_ids_strictly_increase() {
    let mut opaque = OpaqueCounter::new();
    let mut last = -1;
    for _ in 0..100 {
        let cmd = RemoteCommand::new(1, 0, String::new(), HashMap::new(), Vec::new(), &mut opaque);
        assert!(cmd.header.opaque > last);
        last = cmd.header.opaque;
    }
    assert_eq!(last, 99);
}

#[test]
fn encoded_layout_is_length_prefixed() {
    let mut opaque = OpaqueCounter::new();
    let cmd = RemoteCommand::new(10, 0, "r".to_string(), HashMap::new(), b"abc".to_vec(), &mut opaque);
    let encoded = cmd.encode().unwrap();
    let total = u32::from_be_bytes([encoded[0], encoded[1], encoded[2], encoded[3]]) as usize;
    let hlen = u32::from_be_bytes([encoded[4], encoded[5], encoded[6], encoded[7]]) as usize;
    assert_eq!(total, encoded.len() - 4);
    assert_eq!(total, 4 + hlen + 3);
    assert!(hlen > 0);
    assert_eq!(&encoded[encoded.len() - 3..], b"abc");
    let header_text = std::str::from_utf8(&encoded[8..8 + hlen]).unwrap();
    assert!(header_text.contains("OTHER"));
    assert!(header_text.contains("431"));
}

#[test]
fn frame_bytes_exact() {
    let f = encode_frame(&[0xAA, 0xBB], &[1, 2, 3]).unwrap();
    assert_eq!(f, vec![0, 0, 0, 9, 0, 0, 0, 2, 0xAA, 0xBB, 1, 2, 3]);
    let (h, b) = decode_frame(&f).unwrap();
    assert_eq!(h, vec![0xAA, 0xBB]);
    assert_eq!(b, vec![1, 2, 3]);
}

#[test]
fn frame_large_lengths_use_all_four_bytes() {
    let header = vec![7u8; 0x0102];
    let f = encode_frame(&header, &[]).unwrap();
    assert_eq!(&f[0..8], &[0, 0, 0x01, 0x06, 0, 0, 0x01, 0x02]);
    let (h, b) = decode_frame(&f).unwrap();
    assert_eq!(h, header);
    assert!(b.is_empty());
}

#[test]
fn frame_trailing_bytes_ignored() {
    let mut f = encode_frame(&[5], &[6]).unwrap();
    f.extend_from_slice(&[9, 9]);
    assert_eq!(decode_frame(&f).unwrap(), (vec![5], vec![6]));
}

#[test]
fn frame_truncated() {
    assert_eq!(decode_frame(&[0, 0, 0]), Err(FramingError::Truncated));
    let f = encode_frame(&[1, 2], &[3, 4]).unwrap();
    assert_eq!(decode_frame(&f[..f.len() - 1]), Err(FramingError::Truncated));
}

#[test]
fn frame_bad_lengths() {
    // header longer than the total allows
    assert_eq!(decode_frame(&[0, 0, 0, 4, 0, 0, 0, 1, 0]), Err(FramingError::BadLength));
    // negative total
    assert_eq!(decode_frame(&[0xFF, 0, 0, 4, 0, 0, 0, 0]), Err(FramingError::BadLength));
}

#[test]
fn bad_header_bytes() {
    let f = encode_frame(b"not json", b"x").unwrap();
    assert_eq!(RemoteCommand::from_buffer(&f), Err(FramingError::BadHeader));
}

#[test]
fn round_trip_with_trailing_bytes() {
    let mut opaque = OpaqueCounter::new();
    let mut fields = HashMap::new();
    fields.insert("k".to_string(), "v".to_string());
    let cmd = RemoteCommand::new(3, 1, "héllo 世界 🚀".to_string(), fields, b"xyz".to_vec(), &mut opaque);
    let mut encoded = cmd.encode().unwrap();
    encoded.extend_from_slice(&[1, 2, 3, 4]);
    assert_eq!(RemoteCommand::from_buffer(&encoded).unwrap(), cmd);
}

#[test]
fn encoding_twice_decodes_to_the_same_command() {
    let mut opaque = OpaqueCounter::new();
    let mut fields = HashMap::new();
    for i in 0..10 {
        fields.insert(format!("key{}", i), format!("value{}", i));
    }
    let first = RemoteCommand::new(1, 0, String::new(), HashMap::new(), Vec::new(), &mut opaque);
    let cmd = RemoteCommand::new(2, 0, String::new(), fields, vec![0], &mut opaque);
    assert_eq!(first.header.opaque, 0);
    let a = RemoteCommand::from_buffer(&cmd.encode().unwrap()).unwrap();
    let b = RemoteCommand::from_buffer(&cmd.encode().unwrap()).unwrap();
    assert_eq!(a, b);
    assert_eq!(a.header.opaque, 1);
}

#[test]
fn encode_empty_body_has_nothing_after_header() {
    let mut opaque = OpaqueCounter::new();
    let cmd = RemoteCommand::new(1, 0, String::new(), HashMap::new(), Vec::new(), &mut opaque);
    let encoded = cmd.encode().unwrap();
    let total = u32::from_be_bytes([encoded[0], encoded[1], encoded[2], encoded[3]]) as usize;
    let hlen = u32::from_be_bytes([encoded[4], encoded[5], encoded[6], encoded[7]]) as usize;
    assert_eq!(encoded.len(), 8 + hlen);
    assert_eq!(total, 4 + hlen);
}
