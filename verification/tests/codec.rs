//! Byte-codec behaviour: hex, RLP vectors, keccak, and words.

use tee_prover::hex_bytes::{HexBytes, HexError};
use tee_prover::keccak::keccak256;
use tee_prover::rlp::{append_rlp_str, append_rlp_u64, append_rlp_u256, wrap_rlp_list, min_be_u64};
use tee_prover::words::{B256, U256, Address};

#[test]
fn test_run() {}

#[test]
fn hex_decode_plain() {
    let h = HexBytes::from_hex(b"0a0b0c").unwrap();
    assert_eq!(h.as_bytes(), &[0x0a, 0x0b, 0x0c]);
}

#[test]
fn hex_decode_prefixed() {
    let h = HexBytes::from_hex(b"0xdeadBEEF").unwrap();
    assert_eq!(h.as_bytes(), &[0xde, 0xad, 0xbe, 0xef]);
}

#[test]
fn hex_decode_odd_length() {
    assert_eq!(HexBytes::from_hex(b"abc"), Err(HexError::OddLength));
}

#[test]
fn hex_decode_bad_digit() {
    assert_eq!(
        HexBytes::from_hex(b"zz"),
        Err(HexError::InvalidHexCharacter { c: b'z', index: 0 })
    );
}

#[test]
fn hex_encode() {
    let h = HexBytes::from_vec(vec![0x00, 0xff, 0x10]);
    assert_eq!(h.to_hex(), b"0x00ff10".to_vec());
}

#[test]
fn hex_round_trip() {
    let h = HexBytes::from_vec(vec![1, 2, 3, 4, 5]);
    let spelled = h.to_hex();
    let back = HexBytes::from_hex(&spelled).unwrap();
    assert_eq!(back.into_vec(), vec![1, 2, 3, 4, 5]);
}

#[test]
fn hex_utf8() {
    let h = HexBytes::from_vec(b"hello".to_vec());
    assert_eq!(h.to_utf8(), "hello");
    // Invalid sequences are replaced, not echoed.
    let h = HexBytes::from_vec(vec![0x68, 0xff, 0x69]);
    assert_eq!(h.to_utf8(), "h\u{FFFD}i");
}

#[test]
fn rlp_empty_string() {
    let mut out = Vec::new();
    append_rlp_str(&mut out, &[]);
    assert_eq!(out, vec![0x80]);
}

#[test]
fn rlp_single_low_byte() {
    let mut out = Vec::new();
    append_rlp_str(&mut out, &[0x7f]);
    assert_eq!(out, vec![0x7f]);
}

#[test]
fn rlp_dog() {
    let mut out = Vec::new();
    append_rlp_str(&mut out, b"dog");
    assert_eq!(out, vec![0x83, b'd', b'o', b'g']);
}

#[test]
fn rlp_long_string() {
    let data = vec![0x61u8; 56];
    let mut out = Vec::new();
    append_rlp_str(&mut out, &data);
    assert_eq!(out[0], 0xb8);
    assert_eq!(out[1], 56);
    assert_eq!(&out[2..], &data[..]);
}

#[test]
fn rlp_u64_scalars() {
    let mut out = Vec::new();
    append_rlp_u64(&mut out, 0);
    assert_eq!(out, vec![0x80]);

    let mut out = Vec::new();
    append_rlp_u64(&mut out, 15);
    assert_eq!(out, vec![0x0f]);

    let mut out = Vec::new();
    append_rlp_u64(&mut out, 1024);
    assert_eq!(out, vec![0x82, 0x04, 0x00]);
}

#[test]
fn rlp_u256_minimal() {
    let v = U256::from_u64(0x1234);
    let mut out = Vec::new();
    append_rlp_u256(&mut out, &v.be);
    assert_eq!(out, vec![0x82, 0x12, 0x34]);
}

#[test]
fn rlp_list_framing() {
    // ["cat", "dog"]
    let mut payload = Vec::new();
    append_rlp_str(&mut payload, b"cat");
    append_rlp_str(&mut payload, b"dog");
    let framed = wrap_rlp_list(payload);
    assert_eq!(
        framed,
        vec![0xc8, 0x83, b'c', b'a', b't', 0x83, b'd', b'o', b'g']
    );
}

#[test]
fn min_be_strip() {
    assert_eq!(min_be_u64(0), Vec::<u8>::new());
    assert_eq!(min_be_u64(0x0102), vec![0x01, 0x02]);
    assert_eq!(min_be_u64(u64::MAX).len(), 8);
}

#[test]
fn keccak_empty_vector() {
    // The well-known digest of the empty string.
    let d = keccak256(&[]);
    let expected = [
        0xc5, 0xd2, 0x46, 0x01, 0x86, 0xf7, 0x23, 0x3c, 0x92, 0x7e, 0x7d, 0xb2, 0xdc, 0xc7, 0x03,
        0xc0, 0xe5, 0x00, 0xb6, 0x53, 0xca, 0x82, 0x27, 0x3b, 0x7b, 0xfa, 0xd8, 0x04, 0x5d, 0x85,
        0xa4, 0x70,
    ];
    assert_eq!(d.bytes, expected);
}

#[test]
fn keccak_stable_across_calls() {
    let data = b"the same input".to_vec();
    let a = keccak256(&data);
    let b = keccak256(&data);
    assert_eq!(a.bytes, b.bytes);
}

#[test]
fn word_constructors() {
    let z = B256::zero();
    assert_eq!(z.bytes, [0u8; 32]);
    let u = U256::from_u64(0x0102030405060708);
    assert_eq!(&u.be[24..], &[1, 2, 3, 4, 5, 6, 7, 8]);
    assert_eq!(&u.be[..24], &[0u8; 24]);
    let a = Address::from_array([7u8; 20]);
    assert_eq!(a.to_vec(), vec![7u8; 20]);
}
