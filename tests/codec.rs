use leonbasic::codec::{decode, decode_header, encode, mask_bytes, ContainerError};

#[test]
fn encode_writes_header_and_masked_payload() {
    let bytes = encode("ab").unwrap();
    assert_eq!(&bytes[0..4], b"LEON");
    assert_eq!(bytes[4], 1);
    assert_eq!(&bytes[5..9], &[2, 0, 0, 0]);
    assert_eq!(bytes[9], b'a' ^ b'L');
    assert_eq!(bytes[10], b'b' ^ b'E');
    assert_eq!(bytes.len(), 11);
}

#[test]
fn round_trip_keeps_text() {
    let src = "var(a) = string:\"héllo, 世界\";\nbasic.print(var(a));\n";
    let bytes = encode(src).unwrap();
    assert_eq!(decode(&bytes), Ok(src.to_string()));
}

#[test]
fn round_trip_of_empty_text() {
    let bytes = encode("").unwrap();
    assert_eq!(bytes.len(), 9);
    assert_eq!(decode(&bytes), Ok(String::new()));
}

#[test]
fn key_repeats_after_eighteen_bytes() {
    let data = vec![0u8; 20];
    let masked = mask_bytes(&data);
    assert_eq!(&masked[..18], b"LEON_BASIC_ENCRYPT");
    assert_eq!(masked[18], b'L');
    assert_eq!(mask_bytes(&masked), data);
}

#[test]
fn wrong_magic_is_rejected() {
    let mut bytes = encode("x").unwrap();
    bytes[0] = b'X';
    assert_eq!(decode(&bytes), Err(ContainerError::BadMagic));
    assert_eq!(decode_header(&bytes[..4]), Err(ContainerError::BadMagic));
}

#[test]
fn newer_version_is_rejected() {
    let mut bytes = encode("x").unwrap();
    bytes[4] = 2;
    assert_eq!(decode(&bytes), Err(ContainerError::UnsupportedVersion(2)));
}

#[test]
fn older_version_is_accepted() {
    let mut bytes = encode("x").unwrap();
    bytes[4] = 0;
    assert_eq!(decode(&bytes), Ok("x".to_string()));
}

#[test]
fn short_input_is_truncated() {
    assert_eq!(decode(b"LE"), Err(ContainerError::Truncated));
    assert_eq!(decode(b"LEON\x01\x05\x00"), Err(ContainerError::Truncated));
    let bytes = encode("hello").unwrap();
    assert_eq!(decode(&bytes[..12]), Err(ContainerError::Truncated));
}

#[test]
fn header_states_length() {
    let bytes = encode("hello").unwrap();
    assert_eq!(decode_header(&bytes), Ok(5));
}

#[test]
fn invalid_utf8_after_unmask_is_rejected() {
    let payload = mask_bytes(&[0xff, 0xfe]);
    let mut bytes = b"LEON\x01\x02\x00\x00\x00".to_vec();
    bytes.extend_from_slice(&payload);
    assert_eq!(decode(&bytes), Err(ContainerError::InvalidUtf8));
}

#[test]
fn bytes_after_payload_are_ignored() {
    let mut bytes = encode("ok").unwrap();
    bytes.push(7);
    assert_eq!(decode(&bytes), Ok("ok".to_string()));
}
