//! Declarations of and trusted wrappers around the Solana SDK types that
//! the library accepts at its edges: addresses, recency hashes, signing
//! keypairs, and the SDK's own instruction values. Each wrapper converts an
//! SDK value to the plain bytes the verified logic works on.

use vstd::prelude::*;

use solana_sdk::pubkey::Pubkey;
use solana_sdk::signature::{Keypair, Signer};

verus! {

/// solana_sdk's account address, opaque to the verifier.
#[verifier::external_type_specification]
#[verifier::external_body]
pub struct ExPubkey(Pubkey);

/// solana_sdk's hash value, opaque to the verifier.
#[verifier::external_type_specification]
#[verifier::external_body]
pub struct ExHash(solana_sdk::hash::Hash);

/// solana_sdk's signing keypair, opaque to the verifier.
#[verifier::external_type_specification]
#[verifier::external_body]
pub struct ExKeypair(Keypair);

/// solana_sdk's instruction value, opaque to the verifier.
#[verifier::external_type_specification]
#[verifier::external_body]
pub struct ExSdkInstruction(solana_sdk::instruction::Instruction);

/// Relies on solana_sdk's `Pubkey::to_bytes`: the address's 32 raw bytes.
#[verifier::external_body]
pub(crate) fn pubkey_bytes(pubkey: &Pubkey) -> [u8; 32] {
    pubkey.to_bytes()
}

/// Relies on solana_sdk's `Hash::to_bytes`: the hash's 32 raw bytes.
#[verifier::external_body]
pub(crate) fn hash_bytes(hash: &solana_sdk::hash::Hash) -> [u8; 32] {
    hash.to_bytes()
}

/// Relies on solana_sdk's `Signer::sign_message` for `Keypair`, which
/// returns an Ed25519 signature over exactly the given bytes, and on the
/// SDK's 64-byte `Signature` representation.
#[verifier::external_body]
pub(crate) fn sign_message_bytes(keypair: &Keypair, message: &[u8]) -> [u8; 64] {
    <[u8; 64]>::from(keypair.sign_message(message))
}

} // verus!
