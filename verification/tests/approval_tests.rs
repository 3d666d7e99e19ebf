use ipe_core::approval::{Approval, ApprovalCheck, ApprovalError, ApprovalStore, Scope, TTLConfig};
use ipe_core::rar::{Action, EvaluationContext, Operation, Principal, Request, Resource};

#[test]
fn test_approval_creation() {
    let approval = Approval::new("bot-123", "https://api.example.com/data", "GET", "admin");
    assert_eq!(approval.identity, "bot-123");
    assert_eq!(approval.resource, "https://api.example.com/data");
    assert_eq!(approval.action, "GET");
    assert_eq!(approval.granted_by, "admin");
    assert!(approval.expires_at.is_none());
    assert!(!approval.is_expired());
}

#[test]
fn test_approval_with_expiration() {
    let approval = Approval::new("bot-123", "resource", "action", "admin").with_expiration(3600);
    assert!(approval.expires_at.is_some());
    assert!(!approval.is_expired());
}

#[test]
fn test_approval_expired() {
    let mut approval = Approval::new("bot-123", "resource", "action", "admin");
    approval.expires_at = Some(approval.granted_at - 100);
    assert!(approval.is_expired());
}

#[test]
fn test_approval_with_metadata() {
    let approval = Approval::new("bot-123", "resource", "action", "admin")
        .with_metadata("ticket", "JIRA-123")
        .with_metadata("justification", "automated testing");
    assert_eq!(approval.metadata.get("ticket").unwrap(), "JIRA-123");
    assert_eq!(approval.metadata.get("justification").unwrap(), "automated testing");
}

#[test]
fn test_approval_key_generation() {
    let approval = Approval::new("bot-123", "https://api.example.com/data", "GET", "admin");
    let key = approval.key();
    assert_eq!(key, "approvals:global:bot-123:https://api.example.com/data:GET");
}

#[test]
fn test_scoped_approval_key() {
    let approval = Approval::new("bot-1", "res", "GET", "admin").with_scope(Scope::tenant_env("acme", "prod"));
    assert_eq!(approval.key(), "approvals:tenant:acme:env:prod:bot-1:res:GET");
}

#[test]
fn test_store_grant_and_get_approval() {
    let mut store = ApprovalStore::new_temp().unwrap();
    let approval = Approval::new("bot-123", "https://api.example.com/data", "GET", "admin");
    store.grant_approval(approval.clone()).unwrap();
    let retrieved = store
        .get_approval("bot-123", "https://api.example.com/data", "GET")
        .unwrap()
        .expect("Approval should exist");
    assert_eq!(retrieved.identity, approval.identity);
    assert_eq!(retrieved.resource, approval.resource);
    assert_eq!(retrieved.action, approval.action);
}

#[test]
fn test_store_has_approval() {
    let mut store = ApprovalStore::new_temp().unwrap();
    store.grant_approval(Approval::new("bot-123", "https://api.example.com/data", "GET", "admin")).unwrap();
    assert!(store.has_approval("bot-123", "https://api.example.com/data", "GET").unwrap());
    assert!(!store.has_approval("bot-456", "https://api.example.com/data", "GET").unwrap());
}

#[test]
fn test_store_revoke_approval() {
    let mut store = ApprovalStore::new_temp().unwrap();
    store.grant_approval(Approval::new("bot-123", "https://api.example.com/data", "GET", "admin")).unwrap();
    assert!(store.has_approval("bot-123", "https://api.example.com/data", "GET").unwrap());
    store.revoke_approval("bot-123", "https://api.example.com/data", "GET").unwrap();
    assert!(!store.has_approval("bot-123", "https://api.example.com/data", "GET").unwrap());
}

#[test]
fn test_store_expired_approval() {
    let mut store = ApprovalStore::new_temp().unwrap();
    let mut approval = Approval::new("bot-123", "https://api.example.com/data", "GET", "admin");
    approval.expires_at = Some(approval.granted_at - 100);
    store.grant_approval(approval).unwrap();
    assert!(!store.has_approval("bot-123", "https://api.example.com/data", "GET").unwrap());
}

#[test]
fn test_has_approval_at_fixed_times() {
    let mut store = ApprovalStore::new_temp().unwrap();
    let mut approval = Approval::new("bot-1", "res", "GET", "admin");
    approval.expires_at = Some(1000);
    store.grant_approval(approval).unwrap();
    assert!(store.has_approval_at("bot-1", "res", "GET", &Scope::Global, 999));
    assert!(!store.has_approval_at("bot-1", "res", "GET", &Scope::Global, 1000));
    assert!(!store.has_approval_at("bot-1", "res", "GET", &Scope::tenant("t"), 0));
}

#[test]
fn test_store_invalid_approval() {
    let mut store = ApprovalStore::new_temp().unwrap();
    assert!(store.grant_approval(Approval::new("", "resource", "action", "admin")).is_err());
    assert!(store.grant_approval(Approval::new("bot-123", "", "action", "admin")).is_err());
    assert!(store.grant_approval(Approval::new("bot-123", "resource", "", "admin")).is_err());
    assert_eq!(store.count_approvals().unwrap(), 0);
}

#[test]
fn test_batch_approval_checks() {
    let mut store = ApprovalStore::new_temp().unwrap();
    store.grant_approval(Approval::new("bot-1", "resource-A", "GET", "admin")).unwrap();
    store.grant_approval(Approval::new("bot-2", "resource-B", "POST", "admin")).unwrap();
    let checks = vec![
        ApprovalCheck::new("bot-1", "resource-A", "GET"),
        ApprovalCheck::new("bot-2", "resource-B", "POST"),
        ApprovalCheck::new("bot-3", "resource-C", "DELETE"),
    ];
    assert_eq!(store.check_approvals(checks).unwrap(), vec![true, true, false]);
}

#[test]
fn test_list_approvals() {
    let mut store = ApprovalStore::new_temp().unwrap();
    store.grant_approval(Approval::new("bot-123", "resource-A", "GET", "admin")).unwrap();
    store.grant_approval(Approval::new("bot-123", "resource-B", "POST", "admin")).unwrap();
    store.grant_approval(Approval::new("bot-456", "resource-C", "DELETE", "admin")).unwrap();
    assert_eq!(store.list_approvals("bot-123").unwrap().len(), 2);
    assert_eq!(store.list_approvals("bot-456").unwrap().len(), 1);
}

#[test]
fn test_count_approvals() {
    let mut store = ApprovalStore::new_temp().unwrap();
    assert_eq!(store.count_approvals().unwrap(), 0);
    store.grant_approval(Approval::new("bot-1", "res-A", "GET", "admin")).unwrap();
    assert_eq!(store.count_approvals().unwrap(), 1);
    store.grant_approval(Approval::new("bot-2", "res-B", "POST", "admin")).unwrap();
    assert_eq!(store.count_approvals().unwrap(), 2);
}

#[test]
fn test_is_in_approved_set() {
    let mut store = ApprovalStore::new_temp().unwrap();
    for i in 1..=100 {
        store
            .grant_approval(Approval::new(&format!("bot-{}", i), "https://api.example.com/data", "GET", "admin"))
            .unwrap();
    }
    assert!(store.is_in_approved_set("bot-50", "https://api.example.com/data").unwrap());
    assert!(!store.is_in_approved_set("bot-999", "https://api.example.com/data").unwrap());
}

#[test]
fn test_no_approval_store_error() {
    let ctx = EvaluationContext::new(
        Resource::url("https://api.example.com/data"),
        Action::new(Operation::Read, "data"),
        Request { principal: Principal::bot("bot-123"), ..Default::default() },
    );
    let result = ctx.has_approval();
    assert!(result.is_err());
}

#[test]
fn approval_tests_test_scope_encoding() {
    assert_eq!(Scope::Global.encode(), "global");
    assert_eq!(Scope::tenant("acme").encode(), "tenant:acme");
    assert_eq!(Scope::env("prod").encode(), "env:prod");
    assert_eq!(Scope::tenant_env("acme", "prod").encode(), "tenant:acme:env:prod");
    assert_eq!(Scope::Custom(vec!["a".into(), "b".into()]).encode(), "custom:a:b");
}

#[test]
fn scope_ttl_tests_test_scope_encoding() {
    assert_eq!(Scope::Global.encode(), "global");
    assert_eq!(Scope::tenant("acme").encode(), "tenant:acme");
    assert_eq!(Scope::env("prod").encode(), "env:prod");
    assert_eq!(Scope::tenant_env("acme", "prod").encode(), "tenant:acme:env:prod");
    assert_eq!(Scope::Custom(vec!["region".into(), "us-west".into()]).encode(), "custom:region:us-west");
}

#[test]
fn test_list_approvals_in_scope() {
    let mut store = ApprovalStore::new_temp().unwrap();
    store.grant_approval(Approval::new("bot-123", "resource-A", "GET", "admin").with_scope(Scope::tenant("tenant-A"))).unwrap();
    store.grant_approval(Approval::new("bot-123", "resource-B", "POST", "admin").with_scope(Scope::tenant("tenant-A"))).unwrap();
    store.grant_approval(Approval::new("bot-123", "resource-C", "DELETE", "admin").with_scope(Scope::tenant("tenant-B"))).unwrap();
    assert_eq!(store.list_approvals_in_scope("bot-123", &Scope::tenant("tenant-A")).unwrap().len(), 2);
    assert_eq!(store.list_approvals_in_scope("bot-123", &Scope::tenant("tenant-B")).unwrap().len(), 1);
    assert_eq!(store.list_approvals_in_scope("bot-123", &Scope::Global).unwrap().len(), 0);
}

#[test]
fn test_revoke_approval_in_scope() {
    let mut store = ApprovalStore::new_temp().unwrap();
    store.grant_approval(Approval::new("bot-123", "resource-1", "GET", "admin").with_scope(Scope::tenant("tenant-A"))).unwrap();
    store.grant_approval(Approval::new("bot-123", "resource-1", "GET", "admin").with_scope(Scope::tenant("tenant-B"))).unwrap();
    store.revoke_approval_in_scope("bot-123", "resource-1", "GET", &Scope::tenant("tenant-A")).unwrap();
    assert!(!store.has_approval_in_scope("bot-123", "resource-1", "GET", &Scope::tenant("tenant-A")).unwrap());
    assert!(store.has_approval_in_scope("bot-123", "resource-1", "GET", &Scope::tenant("tenant-B")).unwrap());
}

#[test]
fn test_approval_with_ttl() {
    let mut store = ApprovalStore::new_temp().unwrap();
    let approval = Approval::new("bot-123", "resource-1", "GET", "admin").with_ttl(3600);
    assert_eq!(approval.ttl_seconds, Some(3600));
    assert!(approval.expires_at.is_some());
    store.grant_approval(approval).unwrap();
    assert!(store.has_approval("bot-123", "resource-1", "GET").unwrap());
}

#[test]
fn test_ttl_config_defaults() {
    let config = TTLConfig::default();
    assert_eq!(config.default_ttl_seconds, None);
    assert_eq!(config.min_ttl_seconds, 60);
    assert_eq!(config.max_ttl_seconds, 365 * 24 * 3600);
    assert!(config.enforce_ttl);
}

#[test]
fn test_ttl_config_temporary() {
    let config = TTLConfig::temporary();
    assert_eq!(config.default_ttl_seconds, Some(3600));
    assert_eq!(config.min_ttl_seconds, 60);
    assert_eq!(config.max_ttl_seconds, 24 * 3600);
    assert!(config.enforce_ttl);
}

#[test]
fn test_ttl_config_short_lived() {
    let config = TTLConfig::short_lived();
    assert_eq!(config.default_ttl_seconds, Some(24 * 3600));
    assert_eq!(config.min_ttl_seconds, 3600);
    assert_eq!(config.max_ttl_seconds, 7 * 24 * 3600);
    assert!(config.enforce_ttl);
}

#[test]
fn test_ttl_config_long_lived() {
    let config = TTLConfig::long_lived();
    assert_eq!(config.default_ttl_seconds, Some(30 * 24 * 3600));
    assert_eq!(config.min_ttl_seconds, 24 * 3600);
    assert_eq!(config.max_ttl_seconds, 365 * 24 * 3600);
    assert!(config.enforce_ttl);
}

#[test]
fn test_ttl_config_presets() {
    let temp_config = TTLConfig::temporary();
    assert_eq!(temp_config.default_ttl_seconds, Some(3600));
    assert_eq!(temp_config.min_ttl_seconds, 60);
    assert_eq!(temp_config.max_ttl_seconds, 24 * 3600);
    let short_config = TTLConfig::short_lived();
    assert_eq!(short_config.default_ttl_seconds, Some(24 * 3600));
    let long_config = TTLConfig::long_lived();
    assert_eq!(long_config.default_ttl_seconds, Some(30 * 24 * 3600));
}

#[test]
fn test_grant_then_has_then_revoke_scenario() {
    let mut store = ApprovalStore::new();
    store.grant_approval(Approval::new("a", "r", "x", "admin")).unwrap();
    store.grant_approval(Approval::new("b", "r", "x", "admin")).unwrap();
    assert!(store.has_approval_at("a", "r", "x", &Scope::Global, 5));
    store.revoke_approval("a", "r", "x").unwrap();
    assert!(!store.has_approval_at("a", "r", "x", &Scope::Global, 5));
    assert!(store.has_approval_at("b", "r", "x", &Scope::Global, 5));
}

#[test]
fn approval_test_batch_approval_checks() {
    let mut store = ApprovalStore::new_temp().unwrap();

    store
        .grant_approval(Approval::new("bot-1", "resource-A", "GET", "admin"))
        .unwrap();
    store
        .grant_approval(Approval::new("bot-2", "resource-B", "POST", "admin"))
        .unwrap();

    let checks = vec![
        ApprovalCheck::new("bot-1", "resource-A", "GET"),
        ApprovalCheck::new("bot-2", "resource-B", "POST"),
        ApprovalCheck::new("bot-3", "resource-C", "DELETE"),
    ];

    let results = store.check_approvals(checks).unwrap();
    assert_eq!(results, vec![true, true, false]);
}

#[test]
fn approval_expired_error_message_uses_utc_date() {
    let e = ApprovalError::Expired { expired_at: 0 };
    assert_eq!(e.to_string(), "Approval expired at 1970-01-01 00:00:00 UTC");
    let e = ApprovalError::Expired { expired_at: 1_700_000_000 };
    assert_eq!(e.to_string(), "Approval expired at 2023-11-14 22:13:20 UTC");
    let e = ApprovalError::Expired { expired_at: i64::MAX };
    assert_eq!(e.to_string(), format!("Approval expired at {}", i64::MAX));
}

#[test]
fn approved_set_looks_past_an_expired_first_match() {
    let mut store = ApprovalStore::new_temp().unwrap();
    let mut first = Approval::new("bot-1", "res", "GET", "admin");
    first.expires_at = Some(1);
    store.grant_approval(first).unwrap();
    store.grant_approval(Approval::new("bot-1", "res", "POST", "admin")).unwrap();
    assert!(store.is_in_approved_set_at("bot-1", "res", &Scope::Global, 100));
    assert!(store.is_in_approved_set("bot-1", "res").unwrap());
    let mut only = ApprovalStore::new_temp().unwrap();
    let mut expired = Approval::new("bot-1", "res", "GET", "admin");
    expired.expires_at = Some(1);
    only.grant_approval(expired).unwrap();
    assert!(!only.is_in_approved_set_at("bot-1", "res", &Scope::Global, 100));
    assert!(only.is_in_approved_set_at("bot-1", "res", &Scope::Global, 0));
}

#[test]
fn approval_with_cloned_scope_keeps_that_scope() {
    let s = Scope::TenantEnvironment { tenant: "acme".to_string(), environment: "prod".to_string() };
    let a = Approval::new("bot-1", "res", "GET", "admin").with_scope(s.clone());
    assert_eq!(a.scope, s);
    assert_eq!(a.key(), "approvals:tenant:acme:env:prod:bot-1:res:GET");
}
