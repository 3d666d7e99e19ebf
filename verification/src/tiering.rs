//! Adaptive tiering: per-policy evaluation statistics and the decision to promote a policy
//! to the next execution tier.
//!
//! Times are nanoseconds on a monotonic clock, read by the caller.

use vstd::prelude::*;
use std::sync::Arc;
use crate::bytecode::CompiledPolicy;
use crate::engine::{Decision, DecisionKind};
use crate::error::Error;
use crate::rar::EvaluationContext;

verus! {

/// Execution tier for a policy, from the slowest to the fastest.
#[derive(Debug, Clone, Copy, PartialEq, Eq, PartialOrd, Ord, Structural)]
pub enum ExecutionTier {
    /// Interpreter-only (default for all policies)
    Interpreter,
    /// Baseline JIT with minimal optimizations
    BaselineJIT,
    /// Optimized JIT with full optimizations
    OptimizedJIT,
    /// Ahead-of-time compiled native code
    NativeAOT,
}

/// Time that must pass after a promotion before the next: ten seconds.
pub const PROMOTION_COOLDOWN_NS: u64 = 10_000_000_000;

/// Statistics for adaptive tiering decisions.
#[derive(Debug, Clone)]
pub struct ProfileStats {
    /// Total number of evaluations (wrapping)
    pub eval_count: u64,
    /// Sum of evaluation latencies in nanoseconds (wrapping)
    pub total_latency_ns: u64,
    /// Time of the last promotion
    pub last_promoted_ns: u64,
    /// Current tier
    pub current_tier: ExecutionTier,
}

/// The average latency: the total over the count, or 0 before any evaluation.
pub open spec fn avg_latency(s: ProfileStats) -> u64 {
    if s.eval_count == 0 { 0 } else { (s.total_latency_ns / s.eval_count) as u64 }
}

/// Whether a policy with these statistics is due for promotion at time `now_ns`: not within
/// the cooldown after the last promotion; from the interpreter after 100 evaluations; from
/// the baseline JIT after 10000 evaluations averaging over 20 microseconds; never from the
/// top tiers.
pub open spec fn promotion_due(s: ProfileStats, now_ns: u64) -> bool {
    let elapsed = if now_ns >= s.last_promoted_ns { now_ns - s.last_promoted_ns } else { 0 };
    if elapsed < PROMOTION_COOLDOWN_NS {
        false
    } else {
        match s.current_tier {
            ExecutionTier::Interpreter => s.eval_count >= 100,
            ExecutionTier::BaselineJIT => s.eval_count >= 10_000 && avg_latency(s) > 20_000,
            _ => false,
        }
    }
}

/// The tier after a promotion from `t`.
pub open spec fn next_tier(t: ExecutionTier) -> ExecutionTier {
    match t {
        ExecutionTier::Interpreter => ExecutionTier::BaselineJIT,
        ExecutionTier::BaselineJIT => ExecutionTier::OptimizedJIT,
        _ => t,
    }
}

impl ProfileStats {
    /// No evaluation yet, at the interpreter tier, last promoted at `now_ns`.
    pub fn new(now_ns: u64) -> (s: Self)
        ensures
            s.eval_count == 0,
            s.total_latency_ns == 0,
            s.last_promoted_ns == now_ns,
            s.current_tier == ExecutionTier::Interpreter,
    {
        ProfileStats { eval_count: 0, total_latency_ns: 0, last_promoted_ns: now_ns, current_tier: ExecutionTier::Interpreter }
    }

    /// Count one evaluation of the given latency.
    pub fn record_evaluation(&mut self, latency_ns: u64)
        ensures
            final(self).eval_count == old(self).eval_count.wrapping_add(1),
            final(self).total_latency_ns == old(self).total_latency_ns.wrapping_add(latency_ns),
            final(self).last_promoted_ns == old(self).last_promoted_ns,
            final(self).current_tier == old(self).current_tier,
    {
        self.eval_count = self.eval_count.wrapping_add(1);
        self.total_latency_ns = self.total_latency_ns.wrapping_add(latency_ns);
    }

    /// The average latency in nanoseconds; 0 before any evaluation.
    pub fn avg_latency_ns(&self) -> (a: u64)
        ensures
            a == avg_latency(*self),
    {
        if self.eval_count == 0 {
            return 0;
        }
        self.total_latency_ns / self.eval_count
    }

    /// Whether the policy is due for promotion at time `now_ns`.
    pub fn should_promote(&self, now_ns: u64) -> (b: bool)
        ensures
            b == promotion_due(*self, now_ns),
    {
        let count = self.eval_count;
        let avg_latency = self.avg_latency_ns();
        let elapsed = now_ns.saturating_sub(self.last_promoted_ns);
        if elapsed < PROMOTION_COOLDOWN_NS {
            return false;
        }
        match self.current_tier {
            ExecutionTier::Interpreter => count >= 100,
            ExecutionTier::BaselineJIT => count >= 10_000 && avg_latency > 20_000,
            ExecutionTier::OptimizedJIT => false,
            ExecutionTier::NativeAOT => false,
        }
    }

    /// Move to the next tier (the top tiers stay), promoted at `now_ns`; returns the new tier.
    pub fn promote(&mut self, now_ns: u64) -> (t: ExecutionTier)
        ensures
            t == next_tier(old(self).current_tier),
            final(self).current_tier == t,
            final(self).last_promoted_ns == now_ns,
            final(self).eval_count == old(self).eval_count,
            final(self).total_latency_ns == old(self).total_latency_ns,
    {
        self.current_tier = match self.current_tier {
            ExecutionTier::Interpreter => ExecutionTier::BaselineJIT,
            ExecutionTier::BaselineJIT => ExecutionTier::OptimizedJIT,
            t => t,
        };
        self.last_promoted_ns = now_ns;
        self.current_tier
    }
}

/// Right after a promotion, no further promotion is due for the cooldown; promotion never
/// goes past the optimized JIT.
pub proof fn law_promotion_cooldown(s: ProfileStats, now_ns: u64, later_ns: u64)
    requires
        now_ns <= later_ns < now_ns + PROMOTION_COOLDOWN_NS,
    ensures
        !promotion_due(ProfileStats { current_tier: next_tier(s.current_tier), last_promoted_ns: now_ns, ..s }, later_ns),
        s.current_tier is OptimizedJIT || s.current_tier is NativeAOT ==> !promotion_due(s, later_ns),
{
}

/// When a promotion is due, stated over the raw statistics: never within ten seconds of the
/// last promotion (nor at an earlier time); from the interpreter exactly once 100
/// evaluations are counted; from the baseline JIT exactly once 10000 evaluations are
/// counted and their total latency is at least 20001 ns per evaluation (an average, rounded
/// down, above 20 microseconds); never from the optimized JIT or native code.
pub proof fn law_promotion_thresholds(s: ProfileStats, now_ns: u64)
    ensures
        promotion_due(s, now_ns) ==> now_ns >= s.last_promoted_ns + 10_000_000_000,
        now_ns >= s.last_promoted_ns + 10_000_000_000 ==> (s.current_tier is Interpreter
            ==> (promotion_due(s, now_ns) <==> s.eval_count >= 100)),
        now_ns >= s.last_promoted_ns + 10_000_000_000 ==> (s.current_tier is BaselineJIT
            ==> (promotion_due(s, now_ns) <==> s.eval_count >= 10_000
                && s.total_latency_ns >= 20_001 * s.eval_count)),
        s.current_tier is BaselineJIT && s.eval_count < 10_000 ==> !promotion_due(s, now_ns),
        s.current_tier is Interpreter && s.eval_count < 100 ==> !promotion_due(s, now_ns),
        s.current_tier is OptimizedJIT || s.current_tier is NativeAOT ==> !promotion_due(s, now_ns),
{
    if s.eval_count > 0 {
        let c = s.eval_count as int;
        let t = s.total_latency_ns as int;
        let q = t / c;
        assert(q * c <= t < q * c + c) by (nonlinear_arith) requires c > 0, q == t / c;
        assert(q > 20_000 <==> t >= 20_001 * c) by (nonlinear_arith)
            requires c > 0, q * c <= t, t < q * c + c;
    }
}

/// A policy with adaptive tiering support.
pub struct TieredPolicy {
    /// Policy bytecode (always available)
    pub bytecode: Arc<CompiledPolicy>,
    /// Profiling statistics
    pub stats: ProfileStats,
    /// Policy name
    pub name: String,
}

impl TieredPolicy {
    /// A policy at the interpreter tier, created at `now_ns`.
    pub fn new(bytecode: CompiledPolicy, name: String, now_ns: u64) -> (p: Self)
        ensures
            *p.bytecode == bytecode,
            p.name == name,
            p.stats.eval_count == 0,
            p.stats.total_latency_ns == 0,
            p.stats.last_promoted_ns == now_ns,
            p.stats.current_tier == ExecutionTier::Interpreter,
    {
        TieredPolicy { bytecode: Arc::new(bytecode), stats: ProfileStats::new(now_ns), name }
    }

    /// The interpreter path of evaluation: it allows every request, without reason or
    /// matched policy.
    pub fn interpret(&self, _ctx: &EvaluationContext) -> (r: Result<Decision, Error>)
        ensures
            r matches Ok(d) && d.kind == DecisionKind::Allow && d.reason is None
                && d.matched_policies@.len() == 0,
    {
        Ok(Decision { kind: DecisionKind::Allow, reason: None, matched_policies: Vec::new() })
    }

    /// Evaluate by the interpreter and count the evaluation with the latency measured by
    /// the caller.
    pub fn evaluate(&mut self, ctx: &EvaluationContext, latency_ns: u64) -> (r: Result<Decision, Error>)
        ensures
            r matches Ok(d) && d.kind == DecisionKind::Allow,
            final(self).stats.eval_count == old(self).stats.eval_count.wrapping_add(1),
            final(self).stats.total_latency_ns == old(self).stats.total_latency_ns.wrapping_add(latency_ns),
            final(self).stats.current_tier == old(self).stats.current_tier,
    {
        let result = self.interpret(ctx);
        self.stats.record_evaluation(latency_ns);
        result
    }
}

/// Manager for tiered policies; without native code generation it holds no state.
#[derive(Debug)]
pub struct TieredPolicyManager {}

impl TieredPolicyManager {
    /// A new manager.
    pub fn new() -> (r: Result<Self, Error>)
        ensures
            r is Ok,
    {
        Ok(TieredPolicyManager {})
    }

    /// Create a tiered policy from bytecode, at the interpreter tier, created at `now_ns`.
    pub fn create_policy(&self, bytecode: CompiledPolicy, name: String, now_ns: u64) -> (p: TieredPolicy)
        ensures
            *p.bytecode == bytecode,
            p.name == name,
            p.stats.eval_count == 0,
            p.stats.total_latency_ns == 0,
            p.stats.last_promoted_ns == now_ns,
            p.stats.current_tier == ExecutionTier::Interpreter,
    {
        TieredPolicy::new(bytecode, name, now_ns)
    }

    /// Statistics of the managed policies: the manager tracks none, so the list is empty.
    pub fn get_stats(&self) -> (v: Vec<PolicyStats>)
        ensures
            v@.len() == 0,
    {
        Vec::new()
    }
}

impl Default for TieredPolicyManager {
    fn default() -> (m: Self) {
        TieredPolicyManager {}
    }
}

/// Public statistics for a policy.
#[derive(Debug, Clone)]
pub struct PolicyStats {
    pub name: String,
    pub tier: ExecutionTier,
    pub eval_count: u64,
    pub avg_latency_ns: u64,
}

} // verus!
