use txasm::compute_budget;
use txasm::error::TxAsmError;
use txasm::fee_calculator::{FeeStrategy, TransactionUrgency};
use txasm::{InstructionEncoder, PriorityFeeCalculator, TransactionBuilder};

#[test]
fn test_base_fee_calculation() {
    let calculator = PriorityFeeCalculator::new();
    assert_eq!(calculator.calculate_base_fee(1), 5000);
    assert_eq!(calculator.calculate_base_fee(2), 10000);
}

#[test]
fn test_priority_fee_strategies() {
    let calculator = PriorityFeeCalculator::new();
    assert_eq!(calculator.get_priority_fee(FeeStrategy::Low), 1);
    assert_eq!(calculator.get_priority_fee(FeeStrategy::Medium), 100);
    assert_eq!(calculator.get_priority_fee(FeeStrategy::High), 1000);
    assert_eq!(calculator.get_priority_fee(FeeStrategy::Custom(500)), 500);
}

#[test]
fn test_fee_estimation() {
    let calculator = PriorityFeeCalculator::new();
    let payer = [1u8; 32];
    let program_id = [2u8; 32];
    let blockhash = [3u8; 32];

    let instruction = InstructionEncoder::new(program_id)
        .readonly(payer)
        .append_u8(42)
        .build();

    let tx = TransactionBuilder::new()
        .payer(payer)
        .recent_blockhash(blockhash)
        .add_instruction(instruction)
        .build_unsigned()
        .unwrap();

    let estimate = calculator.estimate_fee(&tx, FeeStrategy::Medium);
    assert!(estimate.base_fee > 0);
    assert!(estimate.estimated_compute_units > 0);
    assert!(estimate.total_cost >= estimate.base_fee);
}

#[test]
fn test_urgency_recommendations() {
    let calculator = PriorityFeeCalculator::new();
    assert_eq!(
        calculator.recommend_strategy(TransactionUrgency::NotUrgent),
        FeeStrategy::Low
    );
    assert_eq!(
        calculator.recommend_strategy(TransactionUrgency::Normal),
        FeeStrategy::Medium
    );
    assert_eq!(
        calculator.recommend_strategy(TransactionUrgency::Urgent),
        FeeStrategy::High
    );
}

#[test]
fn test_compute_budget_instructions() {
    let limit_data = compute_budget::create_compute_unit_limit_instruction(200_000);
    assert_eq!(limit_data[0], 0x02);
    assert_eq!(limit_data.len(), 5);

    let price_data = compute_budget::create_compute_unit_price_instruction(1000);
    assert_eq!(price_data[0], 0x03);
    assert_eq!(price_data.len(), 9);
}

#[test]
fn test_fee_estimate_exact() {
    let calculator = PriorityFeeCalculator::new();
    let payer = [1u8; 32];
    let program_id = [2u8; 32];
    let blockhash = [3u8; 32];

    // one signature, one instruction, three accounts, one payload byte:
    // 200 + 1000 + 300 + 1 = 1501 compute units
    let instruction = InstructionEncoder::new(program_id)
        .readonly([4u8; 32])
        .append_u8(42)
        .build();
    let tx = TransactionBuilder::new()
        .payer(payer)
        .recent_blockhash(blockhash)
        .add_instruction(instruction)
        .build_unsigned()
        .unwrap();

    assert_eq!(calculator.estimate_compute_units(&tx), 1501);

    let estimate = calculator.estimate_fee(&tx, FeeStrategy::Medium);
    assert_eq!(estimate.base_fee, 5000);
    assert_eq!(estimate.priority_fee_per_cu, 100);
    assert_eq!(estimate.estimated_compute_units, 1501);
    // 1501 * 100 microlamports rounds down to zero whole lamports
    assert_eq!(estimate.total_cost, 5000);

    let custom = calculator.estimate_fee(&tx, FeeStrategy::Custom(2_000_000));
    assert_eq!(custom.total_cost, 5000 + 1501 * 2);
}

#[test]
fn test_optimal_fee_percentiles() {
    let calculator = PriorityFeeCalculator::new();
    let payer = [1u8; 32];
    let blockhash = [3u8; 32];
    let instruction = InstructionEncoder::new([2u8; 32]).append_u8(1).build();
    let tx = TransactionBuilder::new()
        .payer(payer)
        .recent_blockhash(blockhash)
        .add_instruction(instruction)
        .build_unsigned()
        .unwrap();

    assert_eq!(
        calculator.calculate_optimal_fee(&tx, 10).unwrap().priority_fee_per_cu,
        1
    );
    assert_eq!(
        calculator.calculate_optimal_fee(&tx, 50).unwrap().priority_fee_per_cu,
        100
    );
    assert_eq!(
        calculator.calculate_optimal_fee(&tx, 90).unwrap().priority_fee_per_cu,
        1000
    );
    assert_eq!(
        calculator.calculate_optimal_fee(&tx, 101).unwrap_err(),
        TxAsmError::InvalidPercentile
    );
}

#[test]
fn test_compare_strategies_ordering() {
    let calculator = PriorityFeeCalculator::new();
    let payer = [1u8; 32];
    let blockhash = [3u8; 32];
    let instruction = InstructionEncoder::new([2u8; 32]).append_u8(1).build();
    let tx = TransactionBuilder::new()
        .payer(payer)
        .recent_blockhash(blockhash)
        .add_instruction(instruction)
        .build_unsigned()
        .unwrap();

    let comparison = calculator.compare_strategies(&tx);
    assert_eq!(comparison.len(), 3);
    assert_eq!(comparison[0].0, FeeStrategy::Low);
    assert_eq!(comparison[1].0, FeeStrategy::Medium);
    assert_eq!(comparison[2].0, FeeStrategy::High);
    assert!(comparison[0].1.total_cost <= comparison[2].1.total_cost);
}

#[test]
fn test_compute_budget_exact_bytes() {
    assert_eq!(
        compute_budget::create_compute_unit_limit_instruction(0x01020304),
        vec![0x02, 0x04, 0x03, 0x02, 0x01]
    );
    assert_eq!(
        compute_budget::create_compute_unit_price_instruction(0x0102030405060708),
        vec![0x03, 0x08, 0x07, 0x06, 0x05, 0x04, 0x03, 0x02, 0x01]
    );
}
