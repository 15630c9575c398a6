use txasm::instruction::{AccountMeta, DecodedInstruction, RawInstruction};
use txasm::{InstructionDecoder, InstructionEncoder};

#[test]
fn test_instruction_encoder_builder() {
    let program_id = [1u8; 32];
    let account = [2u8; 32];

    let instruction = InstructionEncoder::new(program_id)
        .signer(account, true)
        .append_u8(42)
        .append_u64(1000)
        .build();

    assert_eq!(instruction.program_id, program_id);
    assert_eq!(instruction.accounts.len(), 1);
    assert_eq!(instruction.data.len(), 9);
}

#[test]
fn test_account_meta() {
    let pubkey = [3u8; 32];
    let meta = AccountMeta::new(pubkey, true, false);

    assert_eq!(meta.pubkey, pubkey);
    assert!(meta.is_signer);
    assert!(!meta.is_writable);
}

#[test]
fn test_instruction_data_building() {
    let program_id = [0u8; 32];
    let bytes = InstructionEncoder::new(program_id)
        .append_u8(1)
        .append_u32(0x12345678)
        .append_u64(0xABCDEF0123456789)
        .serialize()
        .unwrap();

    assert!(!bytes.is_empty());
}

#[test]
fn test_append_little_endian() {
    let instruction = InstructionEncoder::new([0u8; 32])
        .append_u32(0x01020304)
        .append_u64(0x05060708090A0B0C)
        .build();
    assert_eq!(
        instruction.data,
        vec![0x04, 0x03, 0x02, 0x01, 0x0C, 0x0B, 0x0A, 0x09, 0x08, 0x07, 0x06, 0x05]
    );
}

#[test]
fn test_account_keys_order() {
    let program_id = [9u8; 32];
    let a = [1u8; 32];
    let b = [2u8; 32];
    let instruction = RawInstruction::new(
        program_id,
        vec![AccountMeta::new(a, false, false), AccountMeta::new(b, true, true)],
        vec![],
    );
    let keys = instruction.account_keys();
    assert_eq!(keys, vec![program_id, a, b]);
}

#[test]
fn test_decode_instruction() {
    // program index 7, two account indices, three payload bytes
    let bytes = [7u8, 2, 0, 1, 3, 0xAA, 0xBB, 0xCC];
    let decoded = InstructionDecoder::decode(&bytes).unwrap();
    assert_eq!(decoded.program_id_index, 7);
    assert_eq!(decoded.account_indices, vec![0, 1]);
    assert_eq!(decoded.data, vec![0xAA, 0xBB, 0xCC]);
    assert_eq!(decoded.data_size(), 3);
}

#[test]
fn test_decode_instruction_truncated_payload() {
    // declares three payload bytes but carries two
    let bytes = [7u8, 1, 0, 3, 0xAA, 0xBB];
    let err = InstructionDecoder::decode(&bytes).unwrap_err();
    assert!(matches!(err, txasm::TxAsmError::TruncatedInput { .. }));
}

#[test]
fn test_discriminator() {
    let data = [1u8, 2, 3, 4, 5, 6, 7, 8, 9];
    let disc = InstructionDecoder::extract_discriminator(&data).unwrap();
    assert_eq!(disc, [1, 2, 3, 4, 5, 6, 7, 8]);
    assert!(InstructionDecoder::extract_discriminator(&data[..7]).is_none());

    let instruction = DecodedInstruction {
        program_id_index: 0,
        account_indices: vec![],
        data: data.to_vec(),
    };
    assert!(instruction.matches_discriminator(&disc));
    assert!(!instruction.matches_discriminator(&[0u8; 8]));
}
