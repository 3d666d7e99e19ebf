//! Relationship records in the store, and relationships checked through the evaluation context.

use ipe_core::rar::{Action, EvaluationContext, Operation, Principal, Request, Resource};
use ipe_core::relationship::{RelationType, Relationship, RelationshipStore};
use std::sync::Arc;

#[test]
fn test_relationship_expiration() {
    let mut store = RelationshipStore::new_temp().unwrap();

    // Add expired relationship
    let mut expired_rel = Relationship::role("alice", "editor", "document-123", "admin");
    expired_rel.expires_at = Some(chrono::Utc::now().timestamp() - 100);
    store.add_relationship(expired_rel).unwrap();

    // Expired relationship should not be found
    assert!(!store.has_relationship("alice", "editor", "document-123").unwrap());
}

#[test]
fn test_relationship_with_metadata() {
    let mut store = RelationshipStore::new_temp().unwrap();

    // Add relationship with rich metadata
    store
        .add_relationship(
            Relationship::role("alice", "editor", "document-123", "admin")
                .with_metadata("granted_date", "2024-01-15")
                .with_metadata("ticket", "JIRA-456")
                .with_metadata("scope", "full-access"),
        )
        .unwrap();

    let rel = store
        .get_relationship("alice", "editor", "document-123")
        .unwrap()
        .expect("Relationship should exist");

    assert_eq!(rel.metadata.get("ticket").unwrap(), "JIRA-456");
    assert_eq!(rel.metadata.get("scope").unwrap(), "full-access");
}

#[test]
fn test_multiple_roles_same_subject() {
    let mut store = RelationshipStore::new_temp().unwrap();

    // Alice has multiple roles on different documents
    store
        .add_relationship(Relationship::role("alice", "editor", "doc-1", "admin"))
        .unwrap();
    store
        .add_relationship(Relationship::role("alice", "viewer", "doc-2", "admin"))
        .unwrap();
    store
        .add_relationship(Relationship::role("alice", "owner", "doc-3", "admin"))
        .unwrap();

    assert!(store.has_relationship("alice", "editor", "doc-1").unwrap());
    assert!(store.has_relationship("alice", "viewer", "doc-2").unwrap());
    assert!(store.has_relationship("alice", "owner", "doc-3").unwrap());

    // List all of alice's relationships
    let rels = store.list_subject_relationships("alice").unwrap();
    assert_eq!(rels.len(), 3);
}

#[test]
fn test_delegation_chain() {
    let mut store = RelationshipStore::new_temp().unwrap();

    // Admin delegates to manager, manager delegates to alice
    store
        .add_relationship(Relationship::new(
            "manager",
            "can_delegate_from",
            "admin",
            RelationType::Delegation,
            "system",
        ))
        .unwrap();

    store
        .add_relationship(Relationship::new(
            "alice",
            "can_delegate_from",
            "manager",
            RelationType::Delegation,
            "system",
        ))
        .unwrap();

    // Delegation is not transitive by default
    assert!(store.has_relationship("alice", "can_delegate_from", "manager").unwrap());
    assert!(!store
        .has_transitive_relationship("alice", "can_delegate_from", "admin")
        .unwrap());
}

#[test]
fn test_ownership_relationships() {
    let mut store = RelationshipStore::new_temp().unwrap();

    // Alice owns project-1, project-1 owns resources
    store
        .add_relationship(Relationship::new(
            "alice",
            "owner",
            "project-1",
            RelationType::Ownership,
            "system",
        ))
        .unwrap();

    store
        .add_relationship(Relationship::new(
            "project-1",
            "owner",
            "database-1",
            RelationType::Ownership,
            "system",
        ))
        .unwrap();

    // Ownership is not transitive (alice doesn't own database-1 directly)
    assert!(store.has_relationship("alice", "owner", "project-1").unwrap());
    assert!(!store.has_transitive_relationship("alice", "owner", "database-1").unwrap());
}

#[test]
fn test_custom_relationship_type() {
    let mut store = RelationshipStore::new_temp().unwrap();

    store
        .add_relationship(Relationship::new(
            "service-a",
            "depends_on",
            "service-b",
            RelationType::Custom("dependency".into()),
            "devops",
        ))
        .unwrap();

    assert!(store.has_relationship("service-a", "depends_on", "service-b").unwrap());
}

#[test]
fn test_combined_approval_and_relationship() {
    let mut approval_store = ipe_core::approval::ApprovalStore::new_temp().unwrap();
    let mut relationship_store = RelationshipStore::new_temp().unwrap();

    // Alice is an editor of document-123
    relationship_store
        .add_relationship(Relationship::role("alice", "editor", "document-123", "admin"))
        .unwrap();

    // Alice has approval to modify document-123
    approval_store
        .grant_approval(ipe_core::approval::Approval::new(
            "alice",
            "document-123",
            "UPDATE",
            "admin",
        ))
        .unwrap();

    let ctx = EvaluationContext::new(
        Resource::url("document-123"),
        Action::new(Operation::Update, "document-123")
            .with_attribute("method", ipe_core::rar::AttributeValue::String("UPDATE".into())),
        Request {
            principal: Principal::user("alice"),
            ..Default::default()
        },
    )
    .with_approval_store(Arc::new(approval_store))
    .with_relationship_store(Arc::new(relationship_store));

    // Both checks should pass
    assert!(ctx.has_relationship("editor", "document-123").unwrap());
    assert!(ctx.has_approval().unwrap());
}

#[test]
fn test_large_relationship_graph() {
    let mut store = RelationshipStore::new_temp().unwrap();

    // Create a large graph: 100 users, each with 10 relationships
    for user_id in 0..100 {
        for doc_id in 0..10 {
            store
                .add_relationship(Relationship::role(
                    &format!("user-{}", user_id),
                    "editor",
                    &format!("doc-{}", doc_id),
                    "admin",
                ))
                .unwrap();
        }
    }

    assert_eq!(store.count_relationships().unwrap(), 1000);

    // Verify random access
    assert!(store.has_relationship("user-50", "editor", "doc-5").unwrap());
    assert!(!store.has_relationship("user-50", "viewer", "doc-5").unwrap());
}
