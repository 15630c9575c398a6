use txasm::error::TxAsmError;
use txasm::instruction::AccountMeta;
use txasm::serialization::{
    decode_compact_u16, decode_length_prefixed, decode_pubkey, decode_u32, decode_u64, decode_u8,
    encode_compact_u16, encode_length_prefixed, encode_pubkey, encode_u32, encode_u64, encode_u8,
    serialize_vec, vec_byte_size,
};

#[test]
fn test_compact_u16_encoding() {
    let mut buf = Vec::new();
    encode_compact_u16(42, &mut buf).unwrap();

    let (decoded, _) = decode_compact_u16(&buf, 0).unwrap();
    assert_eq!(decoded, 42);
}

#[test]
fn test_compact_u16_large() {
    let mut buf = Vec::new();
    encode_compact_u16(16383, &mut buf).unwrap();

    let (decoded, _) = decode_compact_u16(&buf, 0).unwrap();
    assert_eq!(decoded, 16383);
}

#[test]
fn test_length_prefixed() {
    let data = b"Hello, TxAsm!";
    let mut buf = Vec::new();
    encode_length_prefixed(data, &mut buf).unwrap();

    let (decoded, _) = decode_length_prefixed(&buf, 0).unwrap();
    assert_eq!(decoded, data);
}

#[test]
fn test_u64_encoding() {
    let mut buf = Vec::new();
    encode_u64(0x1234567890ABCDEF, &mut buf).unwrap();

    let (decoded, _) = decode_u64(&buf, 0).unwrap();
    assert_eq!(decoded, 0x1234567890ABCDEF);
}

#[test]
fn test_compact_u16_boundaries() {
    for value in [0u16, 0x7f, 0x80, 0x3fff, 0x4000, 0xffff] {
        let mut buf = Vec::new();
        encode_compact_u16(value, &mut buf).unwrap();
        let (decoded, used) = decode_compact_u16(&buf, 0).unwrap();
        assert_eq!(decoded, value);
        assert_eq!(used, buf.len());
    }
}

#[test]
fn test_compact_u16_exact_bytes() {
    let mut buf = Vec::new();
    encode_compact_u16(0xffff, &mut buf).unwrap();
    assert_eq!(buf, vec![0xff, 0xff, 0x03]);

    let mut buf = Vec::new();
    encode_compact_u16(0x80, &mut buf).unwrap();
    assert_eq!(buf, vec![0x80, 0x01]);
}

#[test]
fn test_compact_u16_malformed() {
    let err = decode_compact_u16(&[0x80, 0x80, 0x80], 0).unwrap_err();
    assert_eq!(err, TxAsmError::MalformedVarint);
}

#[test]
fn test_compact_u16_truncated() {
    let err = decode_compact_u16(&[0x80], 0).unwrap_err();
    assert!(matches!(err, TxAsmError::TruncatedInput { needed: 2, available: 1 }));
}

#[test]
fn test_u8_round_trip() {
    let mut buf = Vec::new();
    encode_u8(0xAB, &mut buf).unwrap();
    let (decoded, used) = decode_u8(&buf, 0).unwrap();
    assert_eq!(decoded, 0xAB);
    assert_eq!(used, 1);
}

#[test]
fn test_pubkey_round_trip() {
    let key = [7u8; 32];
    let mut buf = Vec::new();
    encode_pubkey(&key, &mut buf).unwrap();
    assert_eq!(buf.len(), 32);
    let (decoded, used) = decode_pubkey(&buf, 0).unwrap();
    assert_eq!(decoded, key);
    assert_eq!(used, 32);
}

#[test]
fn test_u64_exact_layout() {
    let mut buf = Vec::new();
    encode_u64(0x0102030405060708, &mut buf).unwrap();
    assert_eq!(buf, vec![0x08, 0x07, 0x06, 0x05, 0x04, 0x03, 0x02, 0x01]);
}

#[test]
fn test_decode_truncated_pubkey() {
    let err = decode_pubkey(&[0u8; 16], 0).unwrap_err();
    assert!(matches!(err, TxAsmError::TruncatedInput { needed: 32, available: 16 }));
}

#[test]
fn test_u32_round_trip() {
    let mut buf = Vec::new();
    encode_u32(0xDEADBEEF, &mut buf).unwrap();
    assert_eq!(buf, vec![0xEF, 0xBE, 0xAD, 0xDE]);
    let (decoded, used) = decode_u32(&buf, 0).unwrap();
    assert_eq!(decoded, 0xDEADBEEF);
    assert_eq!(used, 4);
}

#[test]
fn test_serialize_vec_matches_byte_size() {
    let items = vec![
        AccountMeta::new([1u8; 32], true, false),
        AccountMeta::new([2u8; 32], false, true),
    ];
    let mut buf = Vec::new();
    serialize_vec(&items, &mut buf).unwrap();
    assert_eq!(buf.len(), vec_byte_size(&items));
    // one count byte, then 34 bytes per reference
    assert_eq!(buf.len(), 1 + 2 * 34);
    assert_eq!(buf[0], 2);
}
