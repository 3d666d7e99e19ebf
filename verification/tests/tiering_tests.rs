use ipe_core::bytecode::CompiledPolicy;
use ipe_core::engine::{Decision, DecisionKind, PolicyEngine};
use ipe_core::rar::EvaluationContext;
use ipe_core::testing::simple_policy;
use ipe_core::tiering::{ExecutionTier, ProfileStats, TieredPolicy, TieredPolicyManager};

const COOLDOWN: u64 = 10_000_000_000;

#[test]
fn test_profile_stats_default() {
    let stats = ProfileStats::new(0);
    assert_eq!(stats.eval_count, 0);
    assert_eq!(stats.total_latency_ns, 0);
    assert_eq!(stats.current_tier, ExecutionTier::Interpreter);
}

#[test]
fn test_promotion_thresholds() {
    let mut stats = ProfileStats::new(0);
    assert!(!stats.should_promote(0));
    for _ in 0..100 {
        stats.record_evaluation(50_000);
    }
    assert!(!stats.should_promote(COOLDOWN - 1));
    assert!(stats.should_promote(11_000_000_000));
    stats.promote(11_000_000_000);
    assert_eq!(stats.current_tier, ExecutionTier::BaselineJIT);
}

#[test]
fn test_avg_latency_calculation() {
    let mut stats = ProfileStats::new(0);
    stats.record_evaluation(10_000);
    stats.record_evaluation(20_000);
    stats.record_evaluation(30_000);
    assert_eq!(stats.avg_latency_ns(), 20_000);
}

#[test]
fn test_avg_latency_with_no_evaluations() {
    let stats = ProfileStats::new(0);
    assert_eq!(stats.avg_latency_ns(), 0);
}

#[test]
fn test_promotion_to_optimized_jit() {
    let mut stats = ProfileStats::new(0);
    stats.current_tier = ExecutionTier::BaselineJIT;
    for _ in 0..10_000 {
        stats.record_evaluation(25_000);
    }
    assert!(stats.should_promote(COOLDOWN));
    assert_eq!(stats.promote(COOLDOWN), ExecutionTier::OptimizedJIT);
    assert!(!stats.should_promote(COOLDOWN + 1));
}

#[test]
fn test_no_promotion_baseline_jit_low_latency() {
    let mut stats = ProfileStats::new(0);
    stats.current_tier = ExecutionTier::BaselineJIT;
    for _ in 0..10_000 {
        stats.record_evaluation(10_000);
    }
    assert!(!stats.should_promote(COOLDOWN));
}

#[test]
fn test_no_promotion_native_aot() {
    let mut stats = ProfileStats::new(0);
    stats.current_tier = ExecutionTier::NativeAOT;
    for _ in 0..200 {
        stats.record_evaluation(100_000);
    }
    assert!(!stats.should_promote(COOLDOWN));
}

#[test]
fn test_promote_stays_at_top_tier() {
    let mut stats = ProfileStats::new(0);
    stats.current_tier = ExecutionTier::OptimizedJIT;
    assert_eq!(stats.promote(5), ExecutionTier::OptimizedJIT);
}

#[test]
fn test_tiered_policy_evaluate() {
    let mut policy = TieredPolicy::new(CompiledPolicy::new(1), "TestPolicy".to_string(), 0);
    assert_eq!(policy.name, "TestPolicy");
    assert_eq!(policy.stats.current_tier, ExecutionTier::Interpreter);
    let ctx = EvaluationContext::default();
    let result = policy.evaluate(&ctx, 1_000);
    assert!(result.is_ok());
    assert_eq!(policy.stats.eval_count, 1);
}

#[test]
fn test_execution_tier_ordering() {
    assert!(ExecutionTier::Interpreter < ExecutionTier::BaselineJIT);
    assert!(ExecutionTier::BaselineJIT < ExecutionTier::OptimizedJIT);
    assert!(ExecutionTier::OptimizedJIT < ExecutionTier::NativeAOT);
}

#[test]
fn test_decision_from_bool() {
    assert_eq!(Decision::from_bool(true).kind, DecisionKind::Allow);
    assert_eq!(Decision::from_bool(false).kind, DecisionKind::Deny);
    let engine = PolicyEngine::new();
    assert_eq!(engine.evaluate(&EvaluationContext::default()).unwrap().kind, DecisionKind::Allow);
}

#[test]
fn test_promotion_to_baseline_jit() {
    let mut stats = ProfileStats::new(0);

    // Record 100 evaluations
    for _ in 0..100 {
        stats.record_evaluation(50_000);
    }

    // Should not promote immediately (cooldown)
    assert!(!stats.should_promote(0));

    // Last promotion 11 seconds before now
    let now = 20_000_000_000u64;
    stats.last_promoted_ns = now - 11_000_000_000;

    // Should promote now
    assert!(stats.should_promote(now));
    let new_tier = stats.promote(now);
    assert_eq!(new_tier, ExecutionTier::BaselineJIT);
    assert_eq!(stats.current_tier, ExecutionTier::BaselineJIT);
}

#[test]
fn test_no_promotion_from_optimized_jit() {
    let mut stats = ProfileStats::new(0);
    let now = 20_000_000_000u64;

    // Start at OptimizedJIT
    stats.current_tier = ExecutionTier::OptimizedJIT;
    stats.last_promoted_ns = now - 11_000_000_000;

    // Record many evaluations
    for _ in 0..20_000 {
        stats.record_evaluation(5_000);
    }

    // Should not promote further
    assert!(!stats.should_promote(now));
}

#[test]
fn test_tiered_policy_creation() {
    let bytecode = simple_policy(1, true);
    let policy = TieredPolicy::new(bytecode, "TestPolicy".to_string(), 0);

    assert_eq!(policy.name, "TestPolicy");
    assert_eq!(policy.stats.current_tier, ExecutionTier::Interpreter);
}

#[test]
fn test_tiered_policy_manager_creation() {
    let manager = TieredPolicyManager::new();
    assert!(manager.is_ok());
}

#[test]
fn test_tiered_policy_manager_default() {
    let manager = TieredPolicyManager::default();
    // Should not panic, just verify it was created
    let _ = manager;
}

#[test]
fn test_tiered_policy_manager_create_policy() {
    let manager = TieredPolicyManager::new().unwrap();
    let bytecode = simple_policy(1, true);
    let policy = manager.create_policy(bytecode, "TestPolicy".to_string(), 0);

    assert_eq!(policy.name, "TestPolicy");
    assert!(manager.get_stats().is_empty());
}
