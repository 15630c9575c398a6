//! Low-level transaction assembly for the Solana wire protocol.
//!
//! The crate compiles a fee payer, a list of raw instructions and a recency
//! token into a byte-exact signable message: it deduplicates the participant
//! accounts, merges their access flags, orders them deterministically,
//! resolves every reference to a compact index, derives the message header,
//! and encodes the result with the protocol's variable-length integer scheme.
//! Serialization and deserialization are proved to be exact inverses on
//! well-formed transactions.

pub mod compile;
pub mod compute_budget;
pub mod error;
pub mod fee_calculator;
pub mod instruction;
pub mod optimizer;
pub mod prelude;
pub mod serialization;
pub mod solana;
pub mod transaction;

pub use error::TxAsmError;
pub use fee_calculator::PriorityFeeCalculator;
pub use instruction::{InstructionDecoder, InstructionEncoder};
pub use optimizer::TransactionOptimizer;
pub use transaction::{CompiledTransaction, TransactionBuilder};
