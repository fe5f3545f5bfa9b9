//! Tests of hex decoding and transaction-hash parsing.

use stylus_verify::text::{decode_hex, parse_tx_hash};

fn bytes(s: &str) -> Vec<u8> {
    s.as_bytes().to_vec()
}

#[test]
fn decode_hex_exact_value() {
    assert_eq!(decode_hex(&bytes("00ff10")), Some(vec![0u8, 255, 16]));
}

#[test]
fn decode_hex_empty() {
    assert_eq!(decode_hex(&bytes("")), Some(Vec::new()));
}

#[test]
fn decode_hex_mixed_case() {
    assert_eq!(decode_hex(&bytes("aAbBcC")), Some(vec![0xaau8, 0xbb, 0xcc]));
    assert_eq!(decode_hex(&bytes("DEadBEef")), Some(vec![0xdeu8, 0xad, 0xbe, 0xef]));
}

#[test]
fn decode_hex_agrees_with_hex_crate() {
    let s = "0123456789abcdefABCDEF00";
    assert_eq!(decode_hex(&bytes(s)), Some(hex::decode(s).unwrap()));
}

#[test]
fn decode_hex_rejects_odd_length() {
    assert_eq!(decode_hex(&bytes("abc")), None);
    assert_eq!(decode_hex(&bytes("f")), None);
}

#[test]
fn decode_hex_rejects_non_digits() {
    assert_eq!(decode_hex(&bytes("zz")), None);
    assert_eq!(decode_hex(&bytes("0g")), None);
    assert_eq!(decode_hex(&bytes("12 4")), None);
}

#[test]
fn parse_tx_hash_with_marker() {
    let s = format!("0x{}", "ab".repeat(32));
    let parsed = parse_tx_hash(&bytes(&s)).unwrap();
    assert_eq!(parsed, vec![0xabu8; 32]);
}

#[test]
fn parse_tx_hash_upper_marker_and_plain() {
    let digits = "12".repeat(32);
    assert_eq!(parse_tx_hash(&bytes(&format!("0X{digits}"))), Some(vec![0x12u8; 32]));
    assert_eq!(parse_tx_hash(&bytes(&digits)), Some(vec![0x12u8; 32]));
}

#[test]
fn parse_tx_hash_rejects_wrong_length() {
    assert_eq!(parse_tx_hash(&bytes(&format!("0x{}", "ab".repeat(31)))), None);
    assert_eq!(parse_tx_hash(&bytes(&format!("0x{}", "ab".repeat(33)))), None);
    assert_eq!(parse_tx_hash(&bytes("0x")), None);
}

#[test]
fn parse_tx_hash_rejects_bad_digits() {
    let s = format!("0x{}zz", "ab".repeat(31));
    assert_eq!(parse_tx_hash(&bytes(&s)), None);
}
