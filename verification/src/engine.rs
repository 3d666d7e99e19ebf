//! Policy decisions and the policy engine front.

use vstd::prelude::*;
use crate::error::Error;
use crate::rar::EvaluationContext;

verus! {

/// Decision kinds.
#[derive(Debug, Clone, Copy, PartialEq, Eq, Structural)]
pub enum DecisionKind {
    Allow,
    Deny,
}

/// Policy decision result.
#[derive(Debug, Clone)]
pub struct Decision {
    pub kind: DecisionKind,
    pub reason: Option<String>,
    pub matched_policies: Vec<String>,
}

impl Decision {
    /// `Allow` for `true`, `Deny` for `false`, without reason or matched policy.
    pub fn from_bool(allowed: bool) -> (d: Self)
        ensures
            d.kind == (if allowed { DecisionKind::Allow } else { DecisionKind::Deny }),
            d.reason is None,
            d.matched_policies@.len() == 0,
    {
        Decision {
            kind: if allowed { DecisionKind::Allow } else { DecisionKind::Deny },
            reason: None,
            matched_policies: Vec::new(),
        }
    }
}

/// Main policy evaluation engine; it holds no policy yet and allows every request.
#[derive(Debug)]
pub struct PolicyEngine {}

impl PolicyEngine {
    /// A new engine.
    pub fn new() -> (e: Self) {
        PolicyEngine {}
    }

    /// The decision for a request: `Allow`, without reason or matched policy.
    pub fn evaluate(&self, _ctx: &EvaluationContext) -> (r: Result<Decision, Error>)
        ensures
            r matches Ok(d) && d.kind == DecisionKind::Allow && d.reason is None
                && d.matched_policies@.len() == 0,
    {
        Ok(Decision { kind: DecisionKind::Allow, reason: None, matched_policies: Vec::new() })
    }
}

impl Default for PolicyEngine {
    fn default() -> (e: Self) {
        PolicyEngine::new()
    }
}

} // verus!
