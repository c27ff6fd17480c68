//! The fixed-width string codec and the little-endian hex codec.

use hashstorage::utils::{
    hex_from_bytes, hex_to_bytes, hex_to_bytes_vec, is_hex_string, str_from_bytes,
    str_from_bytes_checked, str_to_bytes_sized,
};

#[test]
fn str_encode_pads_with_zero_bytes() {
    let b: [u8; 32] = str_to_bytes_sized("abc");
    assert_eq!(&b[..3], b"abc");
    assert!(b[3..].iter().all(|&x| x == 0));
}

#[test]
fn str_encode_empty() {
    let b: [u8; 32] = str_to_bytes_sized("");
    assert_eq!(b, [0u8; 32]);
}

#[test]
fn str_encode_exact_width() {
    let s = "abcdefghijklmnopqrstuvwxyz012345";
    assert_eq!(s.len(), 32);
    let b: [u8; 32] = str_to_bytes_sized(s);
    assert_eq!(&b[..], s.as_bytes());
}

#[test]
fn str_encode_truncates_beyond_width() {
    let s = "abcdefghijklmnopqrstuvwxyz0123456789";
    let b: [u8; 32] = str_to_bytes_sized(s);
    assert_eq!(&b[..], &s.as_bytes()[..32]);
}

#[test]
fn str_decode_strips_trailing_zeros_only() {
    let mut b = [0u8; 32];
    b[0] = b'h';
    b[1] = b'i';
    assert_eq!(str_from_bytes(&b), "hi");
    // an interior zero byte survives; only the tail padding goes
    let inner = [b'h', 0u8, b'i'];
    assert_eq!(str_from_bytes(&inner), "h\0i");
}

#[test]
fn str_decode_round_trip() {
    let b: [u8; 32] = str_to_bytes_sized("storage");
    assert_eq!(str_from_bytes(&b), "storage");
}

#[test]
fn str_decode_checked_rejects_bad_utf8() {
    let bad = [0xFFu8, 0xFE, 0x00, 0x00];
    assert!(str_from_bytes_checked(&bad).is_none());
    let ok = [b'o', b'k', 0u8, 0u8];
    assert_eq!(str_from_bytes_checked(&ok).unwrap(), "ok");
}

#[test]
fn hex_decodes_least_significant_pair_first() {
    assert_eq!(hex_to_bytes_vec("AABB"), vec![0xBB, 0xAA]);
    assert_eq!(hex_to_bytes_vec("aabb"), vec![0xBB, 0xAA]);
    assert_eq!(hex_to_bytes_vec("0102030405060708"), vec![8, 7, 6, 5, 4, 3, 2, 1]);
    assert_eq!(hex_to_bytes_vec(""), Vec::<u8>::new());
}

#[test]
fn hex_encodes_last_byte_first_upper_case() {
    assert_eq!(hex_from_bytes(&[0xBB, 0xAA]), "AABB");
    assert_eq!(hex_from_bytes(&[8, 7, 6, 5, 4, 3, 2, 1]), "0102030405060708");
    assert_eq!(hex_from_bytes(&[]), "");
    assert_eq!(hex_from_bytes(&[0x0F]), "0F");
}

#[test]
fn hex_round_trips() {
    let bytes = vec![0x00, 0x01, 0x7F, 0x80, 0xFF, 0x10];
    assert_eq!(hex_to_bytes_vec(&hex_from_bytes(&bytes)), bytes);
    let hex = "DEADBEEF";
    assert_eq!(hex_from_bytes(&hex_to_bytes_vec(hex)), hex);
}

#[test]
fn hex_fixed_width() {
    let b: [u8; 2] = hex_to_bytes("AABB");
    assert_eq!(b, [0xBB, 0xAA]);
    let p: [u8; 64] = hex_to_bytes(&"42".repeat(64));
    assert_eq!(p, [0x42u8; 64]);
}

#[test]
fn hex_validation() {
    assert!(is_hex_string("AABB"));
    assert!(is_hex_string("aabb09"));
    assert!(is_hex_string(""));
    assert!(!is_hex_string("AAB"));
    assert!(!is_hex_string("GG"));
    assert!(!is_hex_string("A\u{e9}"));
}
