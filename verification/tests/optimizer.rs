use txasm::optimizer::{self, OptimizationStrategy};
use txasm::{InstructionEncoder, TransactionBuilder, TransactionOptimizer};

fn sample_transaction() -> txasm::CompiledTransaction {
    let payer = [1u8; 32];
    let program_id = [2u8; 32];
    let blockhash = [3u8; 32];

    let instruction = InstructionEncoder::new(program_id)
        .readonly(payer)
        .append_u8(42)
        .build();

    TransactionBuilder::new()
        .payer(payer)
        .recent_blockhash(blockhash)
        .add_instruction(instruction)
        .build_unsigned()
        .unwrap()
}

#[test]
fn test_optimizer_creation() {
    let optimizer = TransactionOptimizer::new(OptimizationStrategy::Size);
    assert!(matches!(optimizer.strategy(), OptimizationStrategy::Size));
}

#[test]
fn test_transaction_analysis() {
    let optimizer = TransactionOptimizer::new(OptimizationStrategy::Balanced);
    let tx = sample_transaction();

    let analysis = optimizer.analyze(&tx);
    assert!(analysis.total_size > 0);
    assert!(analysis.num_signatures > 0);
    assert!(analysis.num_accounts > 0);
    assert!(analysis.num_instructions > 0);
}

#[test]
fn test_efficiency_score() {
    let optimizer = TransactionOptimizer::new(OptimizationStrategy::Balanced);
    let tx = sample_transaction();

    let score = optimizer.calculate_efficiency_score(&tx);
    assert!(score > 0 && score <= 100);
}

#[test]
fn test_max_size_check() {
    let tx = sample_transaction();

    assert!(!optimizer::exceeds_max_size(&tx));
    assert!(optimizer::available_space(&tx) > 0);
}

#[test]
fn test_size_breakdown() {
    let optimizer = TransactionOptimizer::new(OptimizationStrategy::Balanced);
    let tx = sample_transaction();

    let analysis = optimizer.analyze(&tx);
    let breakdown = analysis.size_breakdown();

    let total = breakdown.signatures_percent as u32 + breakdown.accounts_percent as u32
        + breakdown.instructions_percent as u32;
    assert!(total <= 100);
}

#[test]
fn test_optimize_is_identity() {
    let optimizer = TransactionOptimizer::new(OptimizationStrategy::Balanced);
    let tx = sample_transaction();

    let (optimized, report) = optimizer.optimize(tx.clone()).unwrap();
    assert_eq!(optimized, tx);
    assert_eq!(report.original_size, tx.size());
    assert_eq!(report.optimized_size, tx.size());
    assert_eq!(report.bytes_saved, 0);
    assert_eq!(
        report.optimizations_applied,
        vec!["Account deduplication".to_string(), "Instruction ordering".to_string()]
    );
}

#[test]
fn test_analysis_byte_counts() {
    let optimizer = TransactionOptimizer::new(OptimizationStrategy::Size);
    let tx = sample_transaction();

    let analysis = optimizer.analyze(&tx);
    assert_eq!(analysis.num_signatures, 1);
    assert_eq!(analysis.signature_bytes, 64);
    assert_eq!(analysis.num_accounts, 2);
    assert_eq!(analysis.account_bytes, 64);
    assert_eq!(analysis.num_instructions, 1);
    assert_eq!(analysis.instruction_data_bytes, 1);
    assert_eq!(analysis.total_size, tx.size());
    assert!(analysis.suggestions.is_empty());
}

#[test]
fn test_can_add_instruction() {
    let tx = sample_transaction();
    assert!(optimizer::can_add_instruction(&tx, 10, 1));
    assert!(!optimizer::can_add_instruction(&tx, 2000, 1));
}

#[test]
fn test_compare_transactions() {
    let tx = sample_transaction();
    let comparison = optimizer::compare_transactions(&tx, &tx);
    assert_eq!(comparison.size_diff, 0);
    assert_eq!(comparison.instruction_diff, 0);
    assert_eq!(comparison.account_diff, 0);
}
