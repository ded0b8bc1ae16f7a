use cursor_api::base62::{decode_fixed, encode_fixed, DecodeError, BASE62_LEN};
use cursor_api::base64_codec::{decoded_len, encoded_len, from_base64, to_base64};
use cursor_api::hex::{decode_hex, hex_to_byte, push_hex};

#[test]
fn test_encode_decode_roundtrip() {
    let test_values = [0u128, 1, 61, 62, 3843, u64::MAX as u128, u128::MAX / 2, u128::MAX];

    for &value in &test_values {
        let mut buf = [0u8; BASE62_LEN];
        encode_fixed(value, &mut buf);
        let decoded = decode_fixed(&buf).unwrap();
        assert_eq!(value, decoded, "Failed for value: {}", value);
    }
}

#[test]
fn test_invalid_decode() {
    let mut buf = [b'0'; BASE62_LEN];
    buf[0] = b'!';

    match decode_fixed(&buf) {
        Err(DecodeError::InvalidCharacter { byte: b'!', position: 0 }) => {}
        other => panic!("Expected InvalidCharacter error, got: {:?}", other),
    }
}

#[test]
fn base62_overflow_is_refused() {
    let buf = [b'z'; BASE62_LEN];
    assert_eq!(decode_fixed(&buf), Err(DecodeError::ArithmeticOverflow));
}

#[test]
fn base62_known_digits() {
    let mut buf = [0u8; BASE62_LEN];
    encode_fixed(61, &mut buf);
    assert_eq!(&buf[..BASE62_LEN - 1], &[b'0'; BASE62_LEN - 1][..]);
    assert_eq!(buf[BASE62_LEN - 1], b'z');
    encode_fixed(62, &mut buf);
    assert_eq!(&buf[BASE62_LEN - 2..], b"10");
}

#[test]
fn test_empty() {
    assert_eq!(to_base64(b""), "");
    assert_eq!(from_base64("").unwrap(), b"");
}

#[test]
fn test_length_calculation() {
    assert_eq!(encoded_len(0), 0);
    assert_eq!(encoded_len(1), 2);
    assert_eq!(encoded_len(2), 3);
    assert_eq!(encoded_len(3), 4);
    assert_eq!(encoded_len(4), 6);
    assert_eq!(encoded_len(5), 7);
    assert_eq!(encoded_len(6), 8);

    assert_eq!(decoded_len(0), Some(0));
    assert_eq!(decoded_len(2), Some(1));
    assert_eq!(decoded_len(3), Some(2));
    assert_eq!(decoded_len(4), Some(3));
    assert_eq!(decoded_len(6), Some(4));
    assert_eq!(decoded_len(7), Some(5));
    assert_eq!(decoded_len(8), Some(6));
}

#[test]
fn base64_custom_alphabet_values() {
    assert_eq!(to_base64(b"f"), "Mp");
    assert_eq!(to_base64(&[0, 0, 0]), "----");
    assert_eq!(to_base64(&[0xff, 0xff, 0xff]), "____");
    assert_eq!(from_base64("Mp").unwrap(), b"f");
    assert!(from_base64("!@#$").is_none());
    assert!(from_base64("A").is_none());
    assert_eq!(decoded_len(5), None);
    for input in [&b"foobar"[..], b"fooba", b"foob", b"\x00\x01\x02\xfe"] {
        assert_eq!(from_base64(&to_base64(input)).unwrap(), input);
    }
}

#[test]
fn hex_roundtrip_and_case() {
    let mut out = Vec::new();
    push_hex(&[0x00, 0xab, 0x7f], &mut out);
    assert_eq!(out, b"00ab7f");
    assert_eq!(decode_hex(b"00AB7f"), Some(vec![0x00, 0xab, 0x7f]));
    assert_eq!(decode_hex(b"0g"), None);
    assert_eq!(decode_hex(b"abc"), None);
    assert_eq!(hex_to_byte(b'F', b'0'), Some(0xf0));
    assert_eq!(hex_to_byte(b'x', b'0'), None);
}

#[test]
fn base62_error_texts() {
    assert_eq!(DecodeError::ArithmeticOverflow.to_string(), "decoded number would overflow u128");
    for byte in 0..=255u8 {
        for position in [0usize, 7, 21, 1234567] {
            let expected = format!(
                "invalid base62 character '{}' (0x{:02X}) at position {}",
                byte.escape_ascii(),
                byte,
                position
            );
            assert_eq!(DecodeError::InvalidCharacter { byte, position }.to_string(), expected);
        }
    }
}
