use solana_sdk::signature::{Keypair, Signer};
use txasm::error::TxAsmError;
use txasm::instruction::RawInstruction;
use txasm::{InstructionEncoder, TransactionBuilder};

#[test]
fn test_library_imports() {
    // Ensure all modules are accessible
    let _ = TransactionBuilder::new();
}

#[test]
fn test_build_and_sign_count_mismatch() {
    let payer = [1u8; 32];
    let signer_key = [7u8; 32];
    let program_id = [2u8; 32];
    let blockhash = [3u8; 32];

    // payer plus one more signer account: two required signatures
    let instruction = InstructionEncoder::new(program_id)
        .signer(signer_key, false)
        .append_u8(1)
        .build();

    let keypair = Keypair::new();
    let err = TransactionBuilder::new()
        .payer(payer)
        .recent_blockhash(blockhash)
        .add_instruction(instruction)
        .build_and_sign(&[&keypair])
        .unwrap_err();
    assert_eq!(err, TxAsmError::SignatureCountMismatch { expected: 2, actual: 1 });
}

#[test]
fn test_build_and_sign_fills_slots() {
    let keypair = Keypair::new();
    let payer = keypair.pubkey();
    let program_id = [2u8; 32];
    let blockhash = [3u8; 32];

    let instruction = InstructionEncoder::new(program_id)
        .readonly([4u8; 32])
        .append_u8(1)
        .build();

    let tx = TransactionBuilder::new()
        .payer_pubkey(&payer)
        .recent_blockhash(blockhash)
        .add_instruction(instruction)
        .build_and_sign(&[&keypair])
        .unwrap();

    assert_eq!(tx.signatures.len(), 1);
    assert_ne!(tx.signatures[0], [0u8; 64]);
    assert_eq!(tx.message.account_keys[0], payer.to_bytes());

    // the slot holds a real signature over the message bytes
    let message_bytes = tx.message_bytes().unwrap();
    let expected = keypair.sign_message(&message_bytes);
    assert_eq!(tx.signatures[0], <[u8; 64]>::from(expected));
}

#[test]
fn test_from_sdk_instruction() {
    let program = solana_sdk::pubkey::Pubkey::new_unique();
    let key = solana_sdk::pubkey::Pubkey::new_unique();
    let sdk_instruction = solana_sdk::instruction::Instruction {
        program_id: program,
        accounts: vec![solana_sdk::instruction::AccountMeta::new(key, true)],
        data: vec![9, 8, 7],
    };

    let instruction = RawInstruction::from_sdk_instruction(&sdk_instruction);
    assert_eq!(instruction.program_id, program.to_bytes());
    assert_eq!(instruction.accounts.len(), 1);
    assert_eq!(instruction.accounts[0].pubkey, key.to_bytes());
    assert!(instruction.accounts[0].is_signer);
    assert!(instruction.accounts[0].is_writable);
    assert_eq!(instruction.data, vec![9, 8, 7]);
}

#[test]
fn test_recent_blockhash_hash() {
    let payer = [1u8; 32];
    let hash = solana_sdk::hash::Hash::new_from_array([17u8; 32]);
    let instruction = InstructionEncoder::new([2u8; 32]).append_u8(1).build();

    let message = TransactionBuilder::new()
        .payer(payer)
        .recent_blockhash_hash(&hash)
        .add_instruction(instruction)
        .compile()
        .unwrap();
    assert_eq!(message.recent_blockhash, hash.to_bytes());
}

/// The signer count is checked before serialization: a wrong count is
/// reported even when the message itself could not be serialized.
#[test]
fn test_count_mismatch_precedes_serialization() {
    let payer = [1u8; 32];
    let program_id = [2u8; 32];
    let blockhash = [3u8; 32];

    // payload too long for the wire's length prefix
    let instruction = InstructionEncoder::new(program_id)
        .readonly([4u8; 32])
        .data(vec![0u8; 0x1_0000])
        .build();

    let keypair = Keypair::new();
    let other = Keypair::new();
    let err = TransactionBuilder::new()
        .payer(payer)
        .recent_blockhash(blockhash)
        .add_instruction(instruction)
        .build_and_sign(&[&keypair, &other])
        .unwrap_err();
    assert_eq!(err, TxAsmError::SignatureCountMismatch { expected: 1, actual: 2 });
}

/// With the right signer count, an unserializable message is reported as
/// unrepresentable.
#[test]
fn test_sign_unrepresentable_message() {
    let payer = [1u8; 32];
    let program_id = [2u8; 32];
    let blockhash = [3u8; 32];

    let instruction = InstructionEncoder::new(program_id)
        .readonly([4u8; 32])
        .data(vec![0u8; 0x1_0000])
        .build();

    let keypair = Keypair::new();
    let err = TransactionBuilder::new()
        .payer(payer)
        .recent_blockhash(blockhash)
        .add_instruction(instruction)
        .build_and_sign(&[&keypair])
        .unwrap_err();
    assert_eq!(err, TxAsmError::Unrepresentable);
}
