//! Size analysis and advisory optimization of compiled transactions. The
//! transforms never alter semantics: every pass returns the transaction
//! unchanged and reports what it looked at.

use vstd::prelude::*;

use crate::error::TxAsmError;
use crate::fee_calculator::spec_total_data;
use crate::instruction::spec_instr_parts_representable;
use crate::transaction::{spec_ser_tx, CompiledTransaction, CompiledTransactionView};

verus! {

/// What an optimization pass favours.
#[derive(Debug, Clone, Copy, PartialEq, Eq, Structural)]
pub enum OptimizationStrategy {
    /// Minimize transaction size.
    Size,
    /// Optimize for cost reduction.
    Cost,
    /// Balanced optimization.
    Balanced,
}

/// What an optimization pass did, and how the size changed.
#[derive(Debug, Clone)]
pub struct OptimizationReport {
    pub original_size: usize,
    pub optimized_size: usize,
    pub bytes_saved: usize,
    pub optimizations_applied: Vec<String>,
}

/// Byte counts and suggestions for one transaction.
#[derive(Debug, Clone)]
pub struct TransactionAnalysis {
    pub total_size: usize,
    pub signature_bytes: usize,
    pub account_bytes: usize,
    pub instruction_data_bytes: usize,
    pub num_signatures: usize,
    pub num_accounts: usize,
    pub num_instructions: usize,
    pub suggestions: Vec<String>,
}

/// The three byte-count shares of a transaction, in whole percent.
#[derive(Debug, Clone, Copy, PartialEq, Eq, Structural)]
pub struct SizeBreakdown {
    pub signatures_percent: u8,
    pub accounts_percent: u8,
    pub instructions_percent: u8,
}

/// Differences between two transactions.
#[derive(Debug, Clone, Copy, PartialEq, Eq, Structural)]
pub struct TransactionComparison {
    pub size_diff: i32,
    pub instruction_diff: i32,
    pub account_diff: i32,
}

/// Sum of the payload lengths of a transaction's instructions.
fn instruction_data_total(transaction: &CompiledTransaction) -> (r: usize)
    requires
        transaction@.wf(),
    ensures
        r == spec_total_data(transaction@.message.instructions),
{
    let instructions = &transaction.message.instructions;
    let ghost iv = crate::transaction::instrs_view(instructions@);
    let mut total: u64 = 0;
    let mut i: usize = 0;
    while i < instructions.len()
        invariant
            iv == crate::transaction::instrs_view(instructions@),
            forall|k: int| 0 <= k < iv.len() ==> spec_instr_parts_representable(#[trigger] iv[k]),
            iv.len() <= 0xFFFF,
            i <= instructions@.len(),
            total == spec_total_data(iv.take(i as int)),
            total <= i * 0xFFFF,
        decreases instructions@.len() - i,
    {
        proof {
            crate::fee_calculator::lemma_total_data_take_succ(iv, i as int);
            assert(iv[i as int] == instructions@[i as int]@);
        }
        total = total + instructions[i].data.len() as u64;
        i = i + 1;
    }
    proof {
        assert(iv.take(iv.len() as int) =~= iv);
    }
    total as usize
}

/// Identity transforms with reports: the compiler already deduplicates
/// accounts and preserves instruction order, so every pass returns the
/// transaction unchanged.
pub struct TransactionOptimizer {
    strategy: OptimizationStrategy,
}

impl TransactionOptimizer {
    /// The configured strategy.
    pub closed spec fn spec_strategy(&self) -> OptimizationStrategy {
        self.strategy
    }

    pub fn new(strategy: OptimizationStrategy) -> (r: Self)
        ensures
            r.spec_strategy() == strategy,
    {
        Self { strategy }
    }

    /// The strategy this optimizer was configured with.
    pub fn strategy(&self) -> (r: OptimizationStrategy)
        ensures
            r == self.spec_strategy(),
    {
        self.strategy
    }

    /// Duplicate account references are already removed during compilation;
    /// nothing is left to do.
    fn deduplicate_accounts(&self, transaction: CompiledTransaction) -> (r: Result<
        CompiledTransaction,
        TxAsmError,
    >)
        ensures
            r == Ok::<CompiledTransaction, TxAsmError>(transaction),
    {
        Ok(transaction)
    }

    /// Consolidating instructions would need program semantics; the pass
    /// keeps the transaction unchanged.
    fn consolidate_instructions(&self, transaction: CompiledTransaction) -> (r: Result<
        CompiledTransaction,
        TxAsmError,
    >)
        ensures
            r == Ok::<CompiledTransaction, TxAsmError>(transaction),
    {
        Ok(transaction)
    }

    /// Reordering would need dependency analysis; the pass keeps the
    /// transaction unchanged.
    fn reorder_instructions(&self, transaction: CompiledTransaction) -> (r: Result<
        CompiledTransaction,
        TxAsmError,
    >)
        ensures
            r == Ok::<CompiledTransaction, TxAsmError>(transaction),
    {
        Ok(transaction)
    }

    /// Run the configured passes. Every pass is semantics-preserving and
    /// currently the identity, so the transaction comes back unchanged and
    /// no bytes are saved; the report names the passes that ran.
    pub fn optimize(&self, transaction: CompiledTransaction) -> (r: Result<
        (CompiledTransaction, OptimizationReport),
        TxAsmError,
    >)
        requires
            transaction@.wf(),
            spec_ser_tx(transaction@).len() <= usize::MAX,
        ensures
            r is Ok,
            r->Ok_0.0 == transaction,
            r->Ok_0.1.original_size == spec_ser_tx(transaction@).len(),
            r->Ok_0.1.optimized_size == spec_ser_tx(transaction@).len(),
            r->Ok_0.1.bytes_saved == 0,
            self.spec_strategy() == OptimizationStrategy::Size ==> {
                &&& r->Ok_0.1.optimizations_applied@.len() == 1
                &&& r->Ok_0.1.optimizations_applied@[0]@ == "Account deduplication"@
            },
            self.spec_strategy() == OptimizationStrategy::Cost ==> {
                &&& r->Ok_0.1.optimizations_applied@.len() == 1
                &&& r->Ok_0.1.optimizations_applied@[0]@ == "Instruction consolidation"@
            },
            self.spec_strategy() == OptimizationStrategy::Balanced ==> {
                &&& r->Ok_0.1.optimizations_applied@.len() == 2
                &&& r->Ok_0.1.optimizations_applied@[0]@ == "Account deduplication"@
                &&& r->Ok_0.1.optimizations_applied@[1]@ == "Instruction ordering"@
            },
    {
        let original_size: usize = transaction.size();
        let mut optimizations_applied: Vec<String> = Vec::new();
        let optimized_tx: CompiledTransaction = match self.strategy {
            OptimizationStrategy::Size => {
                optimizations_applied.push("Account deduplication".to_owned());
                match self.deduplicate_accounts(transaction) {
                    Ok(tx) => tx,
                    Err(e) => {
                        return Err(e);
                    },
                }
            },
            OptimizationStrategy::Cost => {
                optimizations_applied.push("Instruction consolidation".to_owned());
                match self.consolidate_instructions(transaction) {
                    Ok(tx) => tx,
                    Err(e) => {
                        return Err(e);
                    },
                }
            },
            OptimizationStrategy::Balanced => {
                optimizations_applied.push("Account deduplication".to_owned());
                optimizations_applied.push("Instruction ordering".to_owned());
                let tx = match self.deduplicate_accounts(transaction) {
                    Ok(tx) => tx,
                    Err(e) => {
                        return Err(e);
                    },
                };
                match self.reorder_instructions(tx) {
                    Ok(tx) => tx,
                    Err(e) => {
                        return Err(e);
                    },
                }
            },
        };
        let optimized_size: usize = optimized_tx.size();
        let bytes_saved: usize = original_size - optimized_size;
        let report = OptimizationReport {
            original_size,
            optimized_size,
            bytes_saved,
            optimizations_applied,
        };
        Ok((optimized_tx, report))
    }

    /// Byte counts of the transaction's parts, with suggestions where a
    /// count is unusually high.
    pub fn analyze(&self, transaction: &CompiledTransaction) -> (r: TransactionAnalysis)
        requires
            transaction@.wf(),
            spec_ser_tx(transaction@).len() <= usize::MAX,
        ensures
            r.total_size == spec_ser_tx(transaction@).len(),
            r.signature_bytes == transaction@.signatures.len() * 64,
            r.account_bytes == transaction@.message.account_keys.len() * 32,
            r.instruction_data_bytes == spec_total_data(transaction@.message.instructions),
            r.num_signatures == transaction@.signatures.len(),
            r.num_accounts == transaction@.message.account_keys.len(),
            r.num_instructions == transaction@.message.instructions.len(),
            r.suggestions@.len() == spec_suggestion_count(transaction@),
    {
        let size: usize = transaction.size();
        let num_signatures: usize = transaction.signatures.len();
        let num_accounts: usize = transaction.message.account_keys.len();
        let num_instructions: usize = transaction.message.instructions.len();
        let signature_overhead: usize = num_signatures * 64;
        let account_overhead: usize = num_accounts * 32;
        let instruction_data_size: usize = instruction_data_total(transaction);
        let mut suggestions: Vec<String> = Vec::new();
        if num_instructions > 5 {
            suggestions.push(
                "Consider batching similar operations into fewer instructions".to_owned(),
            );
        }
        if num_accounts > 20 {
            suggestions.push("High number of accounts - review if all are necessary".to_owned());
        }
        if instruction_data_size > 1000 {
            suggestions.push(
                "Large instruction data - consider compressing or restructuring".to_owned(),
            );
        }
        TransactionAnalysis {
            total_size: size,
            signature_bytes: signature_overhead,
            account_bytes: account_overhead,
            instruction_data_bytes: instruction_data_size,
            num_signatures,
            num_accounts,
            num_instructions,
            suggestions,
        }
    }

    /// Efficiency in whole percent: a baseline expectation for the
    /// transaction's counts, divided by its real size and capped at one
    /// hundred.
    pub fn calculate_efficiency_score(&self, transaction: &CompiledTransaction) -> (r: u8)
        requires
            transaction@.wf(),
            spec_ser_tx(transaction@).len() <= usize::MAX,
        ensures
            r as int == spec_efficiency_score(transaction@),
    {
        let size: usize = transaction.size();
        proof {
            lemma_ser_tx_positive(transaction@);
        }
        let expected: u64 = (transaction.signatures.len() as u64) * 64 + (
        transaction.message.account_keys.len() as u64) * 32 + (
        transaction.message.instructions.len() as u64) * 50 + 100;
        let score: u64 = expected * 100 / (size as u64);
        if score > 100 {
            100
        } else {
            score as u8
        }
    }
}

/// How many suggestions an analysis carries.
pub open spec fn spec_suggestion_count(t: CompiledTransactionView) -> int {
    (if t.message.instructions.len() > 5 {
        1int
    } else {
        0int
    }) + (if t.message.account_keys.len() > 20 {
        1int
    } else {
        0int
    }) + (if spec_total_data(t.message.instructions) > 1000 {
        1int
    } else {
        0int
    })
}

/// The efficiency formula: expected bytes for the transaction's counts over
/// its real size, in whole percent, capped at one hundred.
pub open spec fn spec_efficiency_score(t: CompiledTransactionView) -> int {
    let expected: int = (t.signatures.len() as int) * 64 + (t.message.account_keys.len() as int)
        * 32 + (t.message.instructions.len() as int) * 50 + 100;
    let score: int = expected * 100 / (spec_ser_tx(t).len() as int);
    if score > 100 {
        100
    } else {
        score
    }
}

/// A serialized transaction is never empty.
proof fn lemma_ser_tx_positive(t: CompiledTransactionView)
    ensures
        spec_ser_tx(t).len() >= 1,
{
}

impl TransactionAnalysis {
    /// The three parts' shares of the total, in whole percent.
    pub fn size_breakdown(&self) -> (r: SizeBreakdown)
        requires
            self.total_size > 0,
            self.signature_bytes <= self.total_size,
            self.account_bytes <= self.total_size,
            self.instruction_data_bytes <= self.total_size,
        ensures
            r.signatures_percent as int == self.signature_bytes * 100 / (self.total_size as int),
            r.accounts_percent as int == self.account_bytes * 100 / (self.total_size as int),
            r.instructions_percent as int == self.instruction_data_bytes * 100 / (
            self.total_size as int),
    {
        let total: u128 = self.total_size as u128;
        let sig: u128 = (self.signature_bytes as u128) * 100 / total;
        let acc: u128 = (self.account_bytes as u128) * 100 / total;
        let ins: u128 = (self.instruction_data_bytes as u128) * 100 / total;
        proof {
            lemma_percent_bound(self.signature_bytes as int, self.total_size as int);
            lemma_percent_bound(self.account_bytes as int, self.total_size as int);
            lemma_percent_bound(self.instruction_data_bytes as int, self.total_size as int);
        }
        SizeBreakdown {
            signatures_percent: sig as u8,
            accounts_percent: acc as u8,
            instructions_percent: ins as u8,
        }
    }
}

/// A part of a whole is at most one hundred percent of it.
proof fn lemma_percent_bound(part: int, total: int)
    requires
        0 <= part <= total,
        total > 0,
    ensures
        0 <= part * 100 / total <= 100,
{
    assert(part * 100 <= total * 100) by (nonlinear_arith)
        requires
            0 <= part <= total,
    ;
    vstd::arithmetic::div_mod::lemma_div_is_ordered(0, part * 100, total);
    vstd::arithmetic::div_mod::lemma_div_is_ordered(part * 100, total * 100, total);
    assert(total * 100 / total == 100) by (nonlinear_arith)
        requires
            total > 0,
    ;
}

/// The protocol's packet budget in bytes.
pub const MAX_TRANSACTION_SIZE: usize = 1232;

/// Whether the transaction exceeds the packet budget.
pub fn exceeds_max_size(transaction: &CompiledTransaction) -> (r: bool)
    requires
        transaction@.wf(),
        spec_ser_tx(transaction@).len() <= usize::MAX,
    ensures
        r == (spec_ser_tx(transaction@).len() > 1232),
{
    transaction.size() > MAX_TRANSACTION_SIZE
}

/// Bytes left under the packet budget; negative once over it.
pub fn available_space(transaction: &CompiledTransaction) -> (r: i32)
    requires
        transaction@.wf(),
        spec_ser_tx(transaction@).len() <= i32::MAX,
    ensures
        r == 1232 - spec_ser_tx(transaction@).len(),
{
    1232 - (transaction.size() as i32)
}

/// Whether one more instruction of this shape still fits the packet
/// budget: its body with one-byte index slots, plus one new 32-byte key per
/// new account.
pub fn can_add_instruction(
    transaction: &CompiledTransaction,
    instruction_data_size: usize,
    num_new_accounts: usize,
) -> (r: bool)
    requires
        transaction@.wf(),
        spec_ser_tx(transaction@).len() <= usize::MAX,
        3 + num_new_accounts * 33 + instruction_data_size <= usize::MAX,
    ensures
        r == (spec_ser_tx(transaction@).len() + 3 + num_new_accounts * 33 + instruction_data_size
            <= 1232),
{
    let estimated_instruction_size: usize = 1 + 1 + num_new_accounts + 1 + instruction_data_size;
    let estimated_account_size: usize = num_new_accounts * 32;
    let total_added: usize = estimated_instruction_size + estimated_account_size;
    let size: usize = transaction.size();
    if size > 1232 {
        return false;
    }
    1232 - size >= total_added
}

/// Size and count differences between two transactions.
pub fn compare_transactions(tx1: &CompiledTransaction, tx2: &CompiledTransaction) -> (r:
    TransactionComparison)
    requires
        tx1@.wf(),
        tx2@.wf(),
        spec_ser_tx(tx1@).len() <= i32::MAX,
        spec_ser_tx(tx2@).len() <= i32::MAX,
    ensures
        r.size_diff == spec_ser_tx(tx1@).len() - spec_ser_tx(tx2@).len(),
        r.instruction_diff == tx1@.message.instructions.len() - tx2@.message.instructions.len(),
        r.account_diff == tx1@.message.account_keys.len() - tx2@.message.account_keys.len(),
{
    TransactionComparison {
        size_diff: (tx1.size() as i32) - (tx2.size() as i32),
        instruction_diff: (tx1.message.instructions.len() as i32) - (
        tx2.message.instructions.len() as i32),
        account_diff: (tx1.message.account_keys.len() as i32) - (
        tx2.message.account_keys.len() as i32),
    }
}

} // verus!
