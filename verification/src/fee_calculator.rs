//! Fee estimation over compiled transactions: a base fee per required
//! signature plus a priority fee per estimated compute unit. Advisory only;
//! it reads a transaction and never changes one.

use vstd::prelude::*;

use crate::error::TxAsmError;
use crate::instruction::InstructionParts;
use crate::transaction::{CompiledTransaction, CompiledTransactionView};

verus! {

/// Priority fee strategies, in microlamports per compute unit.
#[derive(Debug, Clone, Copy, PartialEq, Eq, Structural)]
pub enum FeeStrategy {
    /// Minimal fee, most economical.
    Low,
    /// Medium priority.
    Medium,
    /// High priority, fastest confirmation.
    High,
    /// A caller-chosen rate in microlamports per compute unit.
    Custom(u64),
}

/// How soon the transaction needs to confirm.
#[derive(Debug, Clone, Copy, PartialEq, Eq, Structural)]
pub enum TransactionUrgency {
    /// Can wait for the next block or longer.
    NotUrgent,
    /// Should be included soon.
    Normal,
    /// Needs fast confirmation.
    Urgent,
    /// Time-critical.
    Critical,
}

/// A complete fee estimate for one transaction.
#[derive(Debug, Clone, Copy, PartialEq, Eq, Structural)]
pub struct FeeEstimate {
    /// Base transaction fee in lamports.
    pub base_fee: u64,
    /// Priority fee in microlamports per compute unit.
    pub priority_fee_per_cu: u64,
    /// Estimated compute units.
    pub estimated_compute_units: u32,
    /// Total estimated cost in lamports.
    pub total_cost: u64,
}

/// Sum of the payload lengths of a sequence of instruction bodies.
pub open spec fn spec_total_data(s: Seq<InstructionParts>) -> int
    decreases s.len(),
{
    if s.len() == 0 {
        0
    } else {
        s[0].data.len() + spec_total_data(s.drop_first())
    }
}

/// The compute unit heuristic: a base amount, plus fixed costs per
/// instruction, per account, and per payload byte.
pub open spec fn spec_compute_units(t: CompiledTransactionView) -> int {
    200 + 1000 * t.message.instructions.len() + 100 * t.message.account_keys.len()
        + spec_total_data(t.message.instructions)
}

/// The rate each strategy pays, in microlamports per compute unit.
pub open spec fn spec_priority_fee(strategy: FeeStrategy) -> u64 {
    match strategy {
        FeeStrategy::Low => 1,
        FeeStrategy::Medium => 100,
        FeeStrategy::High => 1000,
        FeeStrategy::Custom(fee) => fee,
    }
}

/// The full estimate: base fee per signature, the strategy's rate, the
/// compute unit heuristic, and the total with the priority part converted
/// from microlamports to lamports.
pub open spec fn spec_fee_estimate(
    base_per_signature: u64,
    t: CompiledTransactionView,
    strategy: FeeStrategy,
) -> FeeEstimate {
    let base = base_per_signature * t.signatures.len();
    let cu = spec_compute_units(t);
    let fee = spec_priority_fee(strategy);
    FeeEstimate {
        base_fee: base as u64,
        priority_fee_per_cu: fee,
        estimated_compute_units: cu as u32,
        total_cost: (base + (cu * fee) / 1_000_000) as u64,
    }
}

/// Payload lengths are never negative, so prefixes sum to no more than the
/// whole.
pub proof fn lemma_total_data_take_succ(s: Seq<InstructionParts>, i: int)
    requires
        0 <= i < s.len(),
    ensures
        spec_total_data(s.take(i + 1)) == spec_total_data(s.take(i)) + s[i].data.len(),
    decreases i,
{
    if i == 0 {
        let t1 = s.take(1);
        assert(t1.len() == 1);
        assert(spec_total_data(t1) == t1[0].data.len() + spec_total_data(t1.drop_first()));
        assert(t1.drop_first().len() == 0);
        assert(spec_total_data(t1.drop_first()) == 0);
        assert(s.take(0).len() == 0);
        assert(spec_total_data(s.take(0)) == 0);
        assert(t1[0] == s[0]);
    } else {
        let t1 = s.take(i + 1);
        let t0 = s.take(i);
        assert(t1.drop_first() =~= s.drop_first().take(i));
        assert(t0.drop_first() =~= s.drop_first().take(i - 1));
        lemma_total_data_take_succ(s.drop_first(), i - 1);
        assert(s.drop_first()[i - 1] == s[i]);
        assert(t1[0] == s[0]);
        assert(t0[0] == s[0]);
    }
}

/// A prefix of the payloads sums to no more than all of them.
proof fn lemma_total_data_prefix(s: Seq<InstructionParts>, i: int)
    requires
        0 <= i <= s.len(),
    ensures
        0 <= spec_total_data(s.take(i)) <= spec_total_data(s),
    decreases s.len() - i,
{
    lemma_total_data_nonneg(s.take(i));
    if i == s.len() {
        assert(s.take(i) =~= s);
    } else {
        lemma_total_data_take_succ(s, i);
        lemma_total_data_prefix(s, i + 1);
        assert(s[i].data.len() >= 0);
    }
}

/// Payload lengths sum to something non-negative.
pub proof fn lemma_total_data_nonneg(s: Seq<InstructionParts>)
    ensures
        spec_total_data(s) >= 0,
    decreases s.len(),
{
    if s.len() > 0 {
        lemma_total_data_nonneg(s.drop_first());
    }
}

/// Scaling by at most a millionth of a million keeps a value no larger.
proof fn lemma_priority_part_bound(cu: int, fee: int)
    requires
        0 <= cu,
        0 <= fee <= 1_000_000,
    ensures
        0 <= (cu * fee) / 1_000_000 <= cu,
        cu * fee >= 0,
{
    vstd::arithmetic::mul::lemma_mul_inequality(fee, 1_000_000, cu);
    assert(fee * cu == cu * fee) by (nonlinear_arith);
    assert(1_000_000 * cu == cu * 1_000_000) by (nonlinear_arith);
    vstd::arithmetic::div_mod::lemma_div_is_ordered(cu * fee, cu * 1_000_000, 1_000_000);
    assert((cu * 1_000_000) / 1_000_000 == cu) by (nonlinear_arith);
    vstd::arithmetic::mul::lemma_mul_nonnegative(cu, fee);
    vstd::arithmetic::div_mod::lemma_div_is_ordered(0, cu * fee, 1_000_000);
}

/// The fee calculator: a base fee per required signature, combined with a
/// chosen priority strategy.
pub struct PriorityFeeCalculator {
    base_fee_per_signature: u64,
}

impl PriorityFeeCalculator {
    /// The configured base fee per signature, in lamports.
    pub closed spec fn spec_base_fee(&self) -> u64 {
        self.base_fee_per_signature
    }

    /// A calculator with the network's customary base fee per signature.
    pub fn new() -> (r: Self)
        ensures
            r.spec_base_fee() == 5000u64,
    {
        Self { base_fee_per_signature: 5000 }
    }

    /// A calculator with a custom base fee per signature.
    pub fn with_base_fee(base_fee_per_signature: u64) -> (r: Self)
        ensures
            r.spec_base_fee() == base_fee_per_signature,
    {
        Self { base_fee_per_signature }
    }

    /// The configured base fee per signature, in lamports.
    pub fn base_fee_per_signature(&self) -> (r: u64)
        ensures
            r == self.spec_base_fee(),
    {
        self.base_fee_per_signature
    }

    /// Base fee: the per-signature fee times the signature count.
    pub fn calculate_base_fee(&self, num_signatures: usize) -> (r: u64)
        requires
            self.spec_base_fee() * num_signatures <= u64::MAX,
        ensures
            r == self.spec_base_fee() * num_signatures,
    {
        self.base_fee_per_signature * (num_signatures as u64)
    }

    /// The compute unit heuristic over a transaction's real counts.
    pub fn estimate_compute_units(&self, transaction: &CompiledTransaction) -> (r: u32)
        requires
            spec_compute_units(transaction@) <= u32::MAX,
        ensures
            r == spec_compute_units(transaction@),
    {
        let instructions = &transaction.message.instructions;
        let ghost iv = crate::transaction::instrs_view(instructions@);
        proof {
            lemma_total_data_prefix(iv, 0);
        }
        let mut data_total: u64 = 0;
        let mut i: usize = 0;
        while i < instructions.len()
            invariant
                iv == crate::transaction::instrs_view(instructions@),
                spec_total_data(iv) <= u32::MAX,
                i <= instructions@.len(),
                data_total == spec_total_data(iv.take(i as int)),
            decreases instructions@.len() - i,
        {
            proof {
                lemma_total_data_take_succ(iv, i as int);
                lemma_total_data_prefix(iv, i + 1);
                assert(iv[i as int] == instructions@[i as int]@);
            }
            data_total = data_total + instructions[i].data.len() as u64;
            i = i + 1;
        }
        proof {
            assert(iv.take(iv.len() as int) =~= iv);
            assert(1000 * iv.len() + 100 * transaction.message.account_keys@.len() + spec_total_data(
                iv,
            ) + 200 == spec_compute_units(transaction@));
            lemma_total_data_nonneg(iv);
        }
        let total: u64 = 200 + 1000 * (instructions.len() as u64) + 100 * (
        transaction.message.account_keys.len() as u64) + data_total;
        total as u32
    }

    /// The rate a strategy pays per compute unit.
    pub fn get_priority_fee(&self, strategy: FeeStrategy) -> (r: u64)
        ensures
            r == spec_priority_fee(strategy),
    {
        match strategy {
            FeeStrategy::Low => 1,
            FeeStrategy::Medium => 100,
            FeeStrategy::High => 1000,
            FeeStrategy::Custom(fee) => fee,
        }
    }

    /// The complete estimate for one transaction under one strategy.
    pub fn estimate_fee(&self, transaction: &CompiledTransaction, strategy: FeeStrategy) -> (r:
        FeeEstimate)
        requires
            spec_compute_units(transaction@) <= u32::MAX,
            spec_compute_units(transaction@) * spec_priority_fee(strategy) <= u64::MAX,
            self.spec_base_fee() * transaction@.signatures.len() + (spec_compute_units(
                transaction@,
            ) * spec_priority_fee(strategy)) / 1_000_000 <= u64::MAX,
        ensures
            r == spec_fee_estimate(self.spec_base_fee(), transaction@, strategy),
    {
        let num_signatures: usize = transaction.signatures.len();
        proof {
            lemma_total_data_nonneg(transaction@.message.instructions);
            vstd::arithmetic::mul::lemma_mul_nonnegative(
                spec_compute_units(transaction@),
                spec_priority_fee(strategy) as int,
            );
            vstd::arithmetic::div_mod::lemma_div_is_ordered(
                0,
                spec_compute_units(transaction@) * spec_priority_fee(strategy),
                1_000_000,
            );
        }
        let base_fee: u64 = self.base_fee_per_signature * (num_signatures as u64);
        let estimated_compute_units: u32 = self.estimate_compute_units(transaction);
        let priority_fee_per_cu: u64 = self.get_priority_fee(strategy);
        let priority_fee_lamports: u64 = (estimated_compute_units as u64 * priority_fee_per_cu)
            / 1_000_000;
        let total_cost: u64 = base_fee + priority_fee_lamports;
        FeeEstimate { base_fee, priority_fee_per_cu, estimated_compute_units, total_cost }
    }

    /// The strategy a fee percentile maps to: the lower third pays the
    /// minimum, the middle third the medium rate, the rest the high rate.
    pub fn calculate_optimal_fee(&self, transaction: &CompiledTransaction, percentile: u8) -> (r:
        Result<FeeEstimate, TxAsmError>)
        requires
            spec_compute_units(transaction@) <= u32::MAX,
            self.spec_base_fee() * transaction@.signatures.len() + spec_compute_units(transaction@)
                <= u64::MAX,
        ensures
            percentile > 100 ==> r == Err::<FeeEstimate, TxAsmError>(TxAsmError::InvalidPercentile),
            percentile <= 100 ==> r == Ok::<FeeEstimate, TxAsmError>(
                spec_fee_estimate(
                    self.spec_base_fee(),
                    transaction@,
                    spec_percentile_strategy(percentile),
                ),
            ),
    {
        if percentile > 100 {
            return Err(TxAsmError::InvalidPercentile);
        }
        let strategy = if percentile <= 33 {
            FeeStrategy::Low
        } else if percentile <= 66 {
            FeeStrategy::Medium
        } else {
            FeeStrategy::High
        };
        proof {
            lemma_total_data_nonneg(transaction@.message.instructions);
            lemma_priority_part_bound(
                spec_compute_units(transaction@),
                spec_priority_fee(strategy) as int,
            );
            vstd::arithmetic::mul::lemma_mul_inequality(
                spec_priority_fee(strategy) as int,
                1_000_000,
                spec_compute_units(transaction@),
            );
            assert(spec_compute_units(transaction@) * spec_priority_fee(strategy)
                <= spec_compute_units(transaction@) * 1_000_000) by (nonlinear_arith)
                requires
                    spec_priority_fee(strategy) <= 1000,
                    0 <= spec_compute_units(transaction@),
            ;
            assert(spec_compute_units(transaction@) * 1_000_000 <= u64::MAX) by (nonlinear_arith)
                requires
                    0 <= spec_compute_units(transaction@) <= u32::MAX,
            ;
        }
        Ok(self.estimate_fee(transaction, strategy))
    }

    /// The strategy recommended for each urgency level.
    pub fn recommend_strategy(&self, urgency: TransactionUrgency) -> (r: FeeStrategy)
        ensures
            r == (match urgency {
                TransactionUrgency::NotUrgent => FeeStrategy::Low,
                TransactionUrgency::Normal => FeeStrategy::Medium,
                TransactionUrgency::Urgent => FeeStrategy::High,
                TransactionUrgency::Critical => FeeStrategy::Custom(5000u64),
            }),
    {
        match urgency {
            TransactionUrgency::NotUrgent => FeeStrategy::Low,
            TransactionUrgency::Normal => FeeStrategy::Medium,
            TransactionUrgency::Urgent => FeeStrategy::High,
            TransactionUrgency::Critical => FeeStrategy::Custom(5000),
        }
    }

    /// The estimates for the three fixed strategies, side by side.
    pub fn compare_strategies(&self, transaction: &CompiledTransaction) -> (r: Vec<
        (FeeStrategy, FeeEstimate),
    >)
        requires
            spec_compute_units(transaction@) <= u32::MAX,
            self.spec_base_fee() * transaction@.signatures.len() + spec_compute_units(transaction@)
                <= u64::MAX,
        ensures
            r@.len() == 3,
            r@[0] == (
                FeeStrategy::Low,
                spec_fee_estimate(self.spec_base_fee(), transaction@, FeeStrategy::Low),
            ),
            r@[1] == (
                FeeStrategy::Medium,
                spec_fee_estimate(self.spec_base_fee(), transaction@, FeeStrategy::Medium),
            ),
            r@[2] == (
                FeeStrategy::High,
                spec_fee_estimate(self.spec_base_fee(), transaction@, FeeStrategy::High),
            ),
    {
        proof {
            lemma_compare_requires(self.spec_base_fee(), transaction@, FeeStrategy::Low);
            lemma_compare_requires(self.spec_base_fee(), transaction@, FeeStrategy::Medium);
            lemma_compare_requires(self.spec_base_fee(), transaction@, FeeStrategy::High);
        }
        let mut out: Vec<(FeeStrategy, FeeEstimate)> = Vec::new();
        out.push((FeeStrategy::Low, self.estimate_fee(transaction, FeeStrategy::Low)));
        out.push((FeeStrategy::Medium, self.estimate_fee(transaction, FeeStrategy::Medium)));
        out.push((FeeStrategy::High, self.estimate_fee(transaction, FeeStrategy::High)));
        out
    }
}

/// The strategy a percentile selects.
pub open spec fn spec_percentile_strategy(percentile: u8) -> FeeStrategy {
    if percentile <= 33 {
        FeeStrategy::Low
    } else if percentile <= 66 {
        FeeStrategy::Medium
    } else {
        FeeStrategy::High
    }
}

/// The three fixed strategies stay within the ranges `estimate_fee` needs,
/// whenever the compute units and the base fee do.
proof fn lemma_compare_requires(base: u64, t: CompiledTransactionView, strategy: FeeStrategy)
    requires
        spec_compute_units(t) <= u32::MAX,
        base * t.signatures.len() + spec_compute_units(t) <= u64::MAX,
        spec_priority_fee(strategy) <= 1000,
    ensures
        spec_compute_units(t) * spec_priority_fee(strategy) <= u64::MAX,
        base * t.signatures.len() + (spec_compute_units(t) * spec_priority_fee(strategy))
            / 1_000_000 <= u64::MAX,
{
    let cu = spec_compute_units(t);
    assert(cu >= 0) by {
        lemma_total_data_nonneg(t.message.instructions);
    }
    lemma_priority_part_bound(cu, spec_priority_fee(strategy) as int);
    assert(cu * spec_priority_fee(strategy) <= cu * 1_000_000) by (nonlinear_arith)
        requires
            0 <= cu,
            spec_priority_fee(strategy) <= 1_000_000,
    ;
    assert(cu * 1_000_000 <= u64::MAX) by (nonlinear_arith)
        requires
            0 <= cu <= u32::MAX,
    ;
}

impl Default for PriorityFeeCalculator {
    /// The customary base fee per signature.
    fn default() -> (r: Self)
        ensures
            r.spec_base_fee() == 5000u64,
    {
        Self::new()
    }
}

} // verus!
