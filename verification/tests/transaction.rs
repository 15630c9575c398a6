use txasm::error::TxAsmError;
use txasm::instruction::AccountMeta;
use txasm::serialization::ByteSerialize;
use txasm::transaction::MessageHeader;
use txasm::{CompiledTransaction, InstructionEncoder, TransactionBuilder};

#[test]
fn test_message_header() {
    let header = MessageHeader::new(2, 1, 3);
    let mut bytes = Vec::new();
    header.serialize_bytes(&mut bytes).unwrap();
    assert_eq!(bytes, vec![2, 1, 3]);
}

#[test]
fn test_transaction_builder() {
    let payer = [1u8; 32];
    let program_id = [2u8; 32];
    let blockhash = [3u8; 32];

    let instruction = InstructionEncoder::new(program_id)
        .readonly(payer)
        .append_u8(42)
        .build();

    let builder = TransactionBuilder::new()
        .payer(payer)
        .recent_blockhash(blockhash)
        .add_instruction(instruction);

    let message = builder.compile().unwrap();
    assert_eq!(message.header.num_required_signatures, 1);
    assert!(!message.account_keys.is_empty());
}

#[test]
fn test_compiled_transaction_serialization() {
    let payer = [1u8; 32];
    let program_id = [2u8; 32];
    let blockhash = [3u8; 32];

    let instruction = InstructionEncoder::new(program_id)
        .readonly(payer)
        .append_u8(100)
        .build();

    let tx = TransactionBuilder::new()
        .payer(payer)
        .recent_blockhash(blockhash)
        .add_instruction(instruction)
        .build_unsigned()
        .unwrap();

    let bytes = tx.serialize().unwrap();
    assert!(!bytes.is_empty());

    let decoded = CompiledTransaction::deserialize(&bytes).unwrap();
    assert_eq!(decoded.message.account_keys.len(), tx.message.account_keys.len());
}

/// Round trip: decoding the serialization of a transaction yields it back,
/// field for field.
#[test]
fn test_round_trip_exact() {
    let payer = [1u8; 32];
    let program_id = [200u8; 32];
    let blockhash = [3u8; 32];

    let instruction = InstructionEncoder::new(program_id)
        .signer([9u8; 32], false)
        .writable([8u8; 32], false)
        .readonly([7u8; 32])
        .append_data(&[1, 2, 3, 4, 5])
        .build();

    let tx = TransactionBuilder::new()
        .payer(payer)
        .recent_blockhash(blockhash)
        .add_instruction(instruction)
        .build_unsigned()
        .unwrap();

    let bytes = tx.serialize().unwrap();
    let decoded = CompiledTransaction::deserialize(&bytes).unwrap();
    assert_eq!(decoded, tx);
}

/// Scenario: payer, one program, one readonly account; the payer leads, the
/// program and account sort into the readonly-unsigned class by key byte
/// order, and the header reads one required signature, no readonly signers,
/// two readonly unsigned accounts.
#[test]
fn test_single_readonly_account_layout() {
    let payer = [1u8; 32];
    let program_id = [2u8; 32];
    let account = [3u8; 32];
    let blockhash = [9u8; 32];

    let instruction = InstructionEncoder::new(program_id)
        .account(AccountMeta::new(account, false, false))
        .append_u8(1)
        .build();

    let message = TransactionBuilder::new()
        .payer(payer)
        .recent_blockhash(blockhash)
        .add_instruction(instruction)
        .compile()
        .unwrap();

    assert_eq!(message.account_keys, vec![payer, program_id, account]);
    assert_eq!(message.header.num_required_signatures, 1);
    assert_eq!(message.header.num_readonly_signed_accounts, 0);
    assert_eq!(message.header.num_readonly_unsigned_accounts, 2);
    assert_eq!(message.instructions[0].program_id_index, 1);
    assert_eq!(message.instructions[0].account_indices, vec![2]);
}

/// Scenario: the same account marked writable in a second instruction moves
/// to the writable non-signer class and sorts ahead of the readonly
/// program.
#[test]
fn test_writable_account_moves_class() {
    let payer = [1u8; 32];
    let program_id = [2u8; 32];
    let account = [3u8; 32];
    let blockhash = [9u8; 32];

    let first = InstructionEncoder::new(program_id)
        .account(AccountMeta::new(account, false, false))
        .append_u8(1)
        .build();
    let second = InstructionEncoder::new(program_id)
        .account(AccountMeta::new(account, false, true))
        .append_u8(2)
        .build();

    let message = TransactionBuilder::new()
        .payer(payer)
        .recent_blockhash(blockhash)
        .add_instructions(vec![first, second])
        .compile()
        .unwrap();

    assert_eq!(message.account_keys, vec![payer, account, program_id]);
    assert_eq!(message.header.num_required_signatures, 1);
    assert_eq!(message.header.num_readonly_signed_accounts, 0);
    assert_eq!(message.header.num_readonly_unsigned_accounts, 1);
}

/// Scenario: a buffer cut one byte before the end of the final
/// instruction's payload is rejected as truncated input.
#[test]
fn test_truncated_payload_rejected() {
    let payer = [1u8; 32];
    let program_id = [2u8; 32];
    let blockhash = [3u8; 32];

    let instruction = InstructionEncoder::new(program_id)
        .readonly(payer)
        .append_data(&[10, 20, 30, 40])
        .build();

    let tx = TransactionBuilder::new()
        .payer(payer)
        .recent_blockhash(blockhash)
        .add_instruction(instruction)
        .build_unsigned()
        .unwrap();

    let bytes = tx.serialize().unwrap();
    let err = CompiledTransaction::deserialize(&bytes[..bytes.len() - 1]).unwrap_err();
    assert!(matches!(err, TxAsmError::TruncatedInput { .. }));
}

/// Scenario: building with no instructions fails as an invalid transaction.
#[test]
fn test_build_unsigned_without_instructions() {
    let err = TransactionBuilder::new()
        .payer([1u8; 32])
        .recent_blockhash([2u8; 32])
        .build_unsigned()
        .unwrap_err();
    assert_eq!(err, TxAsmError::InvalidTransaction);
}

#[test]
fn test_compile_without_payer() {
    let instruction = InstructionEncoder::new([2u8; 32]).append_u8(1).build();
    let err = TransactionBuilder::new()
        .recent_blockhash([3u8; 32])
        .add_instruction(instruction)
        .compile()
        .unwrap_err();
    assert_eq!(err, TxAsmError::InvalidTransaction);
}

/// Determinism: the account order does not depend on the order in which
/// instructions fed the registry.
#[test]
fn test_compile_deterministic_order() {
    let payer = [5u8; 32];
    let program_id = [1u8; 32];
    let blockhash = [9u8; 32];
    let a = AccountMeta::new([40u8; 32], false, true);
    let b = AccountMeta::new([20u8; 32], true, false);
    let c = AccountMeta::new([30u8; 32], false, false);

    let forward = InstructionEncoder::new(program_id)
        .account(a)
        .account(b)
        .account(c)
        .append_u8(1)
        .build();
    let backward = InstructionEncoder::new(program_id)
        .account(c)
        .account(b)
        .account(a)
        .append_u8(1)
        .build();

    let m1 = TransactionBuilder::new()
        .payer(payer)
        .recent_blockhash(blockhash)
        .add_instruction(forward)
        .compile()
        .unwrap();
    let m2 = TransactionBuilder::new()
        .payer(payer)
        .recent_blockhash(blockhash)
        .add_instruction(backward)
        .compile()
        .unwrap();

    assert_eq!(m1.account_keys, m2.account_keys);
    assert_eq!(m1.header, m2.header);
}

/// Payer invariant: however the payer key is referenced elsewhere, it stays
/// first and is counted as a writable signer.
#[test]
fn test_payer_flags_merged() {
    let payer = [200u8; 32];
    let program_id = [2u8; 32];
    let blockhash = [9u8; 32];

    // reference the payer as readonly non-signer; the merge must not demote it
    let instruction = InstructionEncoder::new(program_id)
        .account(AccountMeta::new(payer, false, false))
        .append_u8(1)
        .build();

    let message = TransactionBuilder::new()
        .payer(payer)
        .recent_blockhash(blockhash)
        .add_instruction(instruction)
        .compile()
        .unwrap();

    assert_eq!(message.account_keys[0], payer);
    assert_eq!(message.header.num_required_signatures, 1);
    assert_eq!(message.header.num_readonly_signed_accounts, 0);
}

/// Header consistency on a mixed transaction: the three counters match the
/// four classes.
#[test]
fn test_header_counts_by_class() {
    let payer = [1u8; 32];
    let program_id = [2u8; 32];
    let blockhash = [9u8; 32];

    let instruction = InstructionEncoder::new(program_id)
        .account(AccountMeta::new([10u8; 32], true, true))   // class 0
        .account(AccountMeta::new([11u8; 32], true, false))  // class 1
        .account(AccountMeta::new([12u8; 32], false, true))  // class 2
        .account(AccountMeta::new([13u8; 32], false, false)) // class 3
        .append_u8(1)
        .build();

    let message = TransactionBuilder::new()
        .payer(payer)
        .recent_blockhash(blockhash)
        .add_instruction(instruction)
        .compile()
        .unwrap();

    // payer + class-0 account + class-1 account sign; program and class-3
    // account are readonly unsigned
    assert_eq!(message.header.num_required_signatures, 3);
    assert_eq!(message.header.num_readonly_signed_accounts, 1);
    assert_eq!(message.header.num_readonly_unsigned_accounts, 2);
    assert_eq!(message.account_keys.len(), 6);
}

/// Size exactness: the computed byte size equals the serializer's output
/// length, for the message and for the whole transaction.
#[test]
fn test_size_matches_serialized_length() {
    let payer = [1u8; 32];
    let program_id = [2u8; 32];
    let blockhash = [3u8; 32];

    let instruction = InstructionEncoder::new(program_id)
        .readonly(payer)
        .append_data(&[1, 2, 3])
        .build();

    let tx = TransactionBuilder::new()
        .payer(payer)
        .recent_blockhash(blockhash)
        .add_instruction(instruction)
        .build_unsigned()
        .unwrap();

    assert_eq!(tx.size(), tx.serialize().unwrap().len());
    assert_eq!(tx.message.byte_size(), tx.message_bytes().unwrap().len());
}

/// The one-byte index space is an explicit error path, not a wraparound.
#[test]
fn test_too_many_accounts() {
    let payer = [1u8; 32];
    let program_id = [2u8; 32];
    let blockhash = [3u8; 32];

    let mut encoder = InstructionEncoder::new(program_id);
    for i in 0..255u16 {
        let mut key = [0u8; 32];
        key[0] = (i % 256) as u8;
        key[1] = (i / 256 + 1) as u8;
        encoder = encoder.readonly(key);
    }
    let instruction = encoder.append_u8(1).build();

    let err = TransactionBuilder::new()
        .payer(payer)
        .recent_blockhash(blockhash)
        .add_instruction(instruction)
        .compile()
        .unwrap_err();
    assert_eq!(err, TxAsmError::TooManyAccounts);
}

/// A payload too long for the length prefix is an explicit error.
#[test]
fn test_unrepresentable_payload() {
    let payer = [1u8; 32];
    let program_id = [2u8; 32];
    let blockhash = [3u8; 32];

    let instruction = InstructionEncoder::new(program_id)
        .readonly(payer)
        .data(vec![0u8; 0x1_0000])
        .build();

    let tx = TransactionBuilder::new()
        .payer(payer)
        .recent_blockhash(blockhash)
        .add_instruction(instruction)
        .build_unsigned()
        .unwrap();

    assert_eq!(tx.serialize().unwrap_err(), TxAsmError::Unrepresentable);
}

/// The payer leads the account order even when another writable signer
/// sorts before it by key bytes.
#[test]
fn test_payer_first_over_lower_key() {
    let payer = [200u8; 32];
    let other_signer = [1u8; 32];
    let program_id = [2u8; 32];
    let blockhash = [9u8; 32];

    let instruction = InstructionEncoder::new(program_id)
        .account(AccountMeta::new(other_signer, true, true))
        .append_u8(1)
        .build();

    let message = TransactionBuilder::new()
        .payer(payer)
        .recent_blockhash(blockhash)
        .add_instruction(instruction)
        .compile()
        .unwrap();

    assert_eq!(message.account_keys[0], payer);
    assert_eq!(message.account_keys[1], other_signer);
    assert_eq!(message.header.num_required_signatures, 2);
}
