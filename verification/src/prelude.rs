//! The commonly used types in one import.

pub use crate::error::TxAsmError;
pub use crate::fee_calculator::PriorityFeeCalculator;
pub use crate::instruction::{InstructionDecoder, InstructionEncoder};
pub use crate::optimizer::TransactionOptimizer;
pub use crate::transaction::{CompiledTransaction, TransactionBuilder};
