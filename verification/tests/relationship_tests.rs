use ipe_core::rar::{Action, EvaluationContext, Operation, Principal, Request, Resource};
use ipe_core::relationship::{RelationType, Relationship, RelationshipError, RelationshipQuery, RelationshipStore};
use std::sync::Arc;

#[test]
fn test_relationship_creation() {
    let rel = Relationship::role("alice", "editor", "document-123", "admin");
    assert_eq!(rel.subject, "alice");
    assert_eq!(rel.relation, "editor");
    assert_eq!(rel.object, "document-123");
    assert_eq!(rel.relation_type, RelationType::Role);
    assert_eq!(rel.created_by, "admin");
    assert!(!rel.is_expired());
}

#[test]
fn test_trust_relationship() {
    let rel = Relationship::trust("cert-1", "root-ca", "pki-system");
    assert_eq!(rel.subject, "cert-1");
    assert_eq!(rel.relation, "trusted_by");
    assert_eq!(rel.object, "root-ca");
    assert_eq!(rel.relation_type, RelationType::Trust);
}

#[test]
fn test_relationship_with_expiration() {
    let rel = Relationship::role("alice", "editor", "document", "admin").with_expiration(3600);
    assert!(rel.expires_at.is_some());
    assert!(!rel.is_expired());
}

#[test]
fn test_relationship_keys() {
    let rel = Relationship::role("alice", "editor", "doc", "admin");
    assert_eq!(rel.key(), "relationships:global:alice:editor:doc");
    assert_eq!(rel.forward_index_key(), "rel_fwd:global:alice:editor");
    assert_eq!(rel.reverse_index_key(), "rel_rev:global:doc:editor");
}

#[test]
fn test_direct_role_relationship() {
    let mut store = RelationshipStore::new_temp().unwrap();
    store.add_relationship(Relationship::role("alice", "editor", "document-123", "admin")).unwrap();
    assert!(store.has_relationship("alice", "editor", "document-123").unwrap());
    assert!(!store.has_relationship("bob", "editor", "document-123").unwrap());
    assert!(!store.has_relationship("alice", "viewer", "document-123").unwrap());
}

#[test]
fn test_context_has_relationship() {
    let mut store = RelationshipStore::new_temp().unwrap();
    store.add_relationship(Relationship::role("alice", "editor", "document-123", "admin")).unwrap();
    let ctx = EvaluationContext::new(
        Resource::url("document-123"),
        Action::new(Operation::Update, "document-123"),
        Request { principal: Principal::user("alice"), ..Default::default() },
    )
    .with_relationship_store(Arc::new(store));
    assert!(ctx.has_relationship("editor", "document-123").unwrap());
    assert!(!ctx.has_relationship("viewer", "document-123").unwrap());
}

#[test]
fn test_trust_chain_two_levels() {
    let mut store = RelationshipStore::new_temp().unwrap();
    store.add_relationship(Relationship::trust("cert-1", "intermediate-ca", "pki")).unwrap();
    store.add_relationship(Relationship::trust("intermediate-ca", "root-ca", "pki")).unwrap();
    assert!(store.has_relationship("cert-1", "trusted_by", "intermediate-ca").unwrap());
    assert!(store.has_transitive_relationship("cert-1", "trusted_by", "root-ca").unwrap());
    assert!(!store.has_transitive_relationship("cert-1", "trusted_by", "other-ca").unwrap());
}

#[test]
fn test_trust_chain_three_levels() {
    let mut store = RelationshipStore::new_temp().unwrap();
    store.add_relationship(Relationship::trust("leaf-cert", "intermediate-1", "pki")).unwrap();
    store.add_relationship(Relationship::trust("intermediate-1", "intermediate-2", "pki")).unwrap();
    store.add_relationship(Relationship::trust("intermediate-2", "root-ca", "pki")).unwrap();
    assert!(store.has_transitive_relationship("leaf-cert", "trusted_by", "root-ca").unwrap());
    let path = store.find_relationship_path("leaf-cert", "trusted_by", "root-ca").unwrap().expect("Path should exist");
    assert_eq!(path.depth, 3);
    assert_eq!(path.path[0].subject, "leaf-cert");
    assert_eq!(path.path[0].object, "intermediate-1");
    assert_eq!(path.path[1].subject, "intermediate-1");
    assert_eq!(path.path[1].object, "intermediate-2");
    assert_eq!(path.path[2].subject, "intermediate-2");
    assert_eq!(path.path[2].object, "root-ca");
}

#[test]
fn test_non_transitive_role() {
    let mut store = RelationshipStore::new_temp().unwrap();
    store.add_relationship(Relationship::role("alice", "editor", "folder", "admin")).unwrap();
    store.add_relationship(Relationship::role("folder", "editor", "document", "admin")).unwrap();
    assert!(!store.has_transitive_relationship("alice", "editor", "document").unwrap());
}

#[test]
fn test_membership_hierarchy() {
    let mut store = RelationshipStore::new_temp().unwrap();
    store.add_relationship(Relationship::membership("alice", "team-a", "admin")).unwrap();
    store.add_relationship(Relationship::membership("team-a", "engineering", "admin")).unwrap();
    store.add_relationship(Relationship::membership("engineering", "company", "admin")).unwrap();
    assert!(store.has_transitive_relationship("alice", "member_of", "company").unwrap());
}

#[test]
fn test_remove_relationship() {
    let mut store = RelationshipStore::new_temp().unwrap();
    store.add_relationship(Relationship::role("alice", "editor", "doc", "admin")).unwrap();
    assert!(store.has_relationship("alice", "editor", "doc").unwrap());
    store.remove_relationship("alice", "editor", "doc").unwrap();
    assert!(!store.has_relationship("alice", "editor", "doc").unwrap());
}

#[test]
fn test_batch_relationship_checks() {
    let mut store = RelationshipStore::new_temp().unwrap();
    store.add_relationship(Relationship::role("alice", "editor", "doc-1", "admin")).unwrap();
    store.add_relationship(Relationship::role("bob", "viewer", "doc-2", "admin")).unwrap();
    let queries = vec![
        RelationshipQuery::new("alice", "editor", "doc-1"),
        RelationshipQuery::new("bob", "viewer", "doc-2"),
        RelationshipQuery::new("charlie", "owner", "doc-3"),
    ];
    assert_eq!(store.check_relationships(queries).unwrap(), vec![true, true, false]);
}

#[test]
fn test_complex_trust_graph() {
    let mut store = RelationshipStore::new_temp().unwrap();
    store.add_relationship(Relationship::trust("intermediate-1", "root-ca", "pki")).unwrap();
    store.add_relationship(Relationship::trust("intermediate-2", "root-ca", "pki")).unwrap();
    store.add_relationship(Relationship::trust("cert-1", "intermediate-1", "pki")).unwrap();
    store.add_relationship(Relationship::trust("cert-2", "intermediate-2", "pki")).unwrap();
    assert!(store.has_transitive_relationship("cert-1", "trusted_by", "root-ca").unwrap());
    assert!(store.has_transitive_relationship("cert-2", "trusted_by", "root-ca").unwrap());
    assert!(!store.has_transitive_relationship("cert-1", "trusted_by", "cert-2").unwrap());
}

#[test]
fn test_max_depth_prevents_cycles() {
    let mut store = RelationshipStore::new_temp().unwrap().with_max_depth(5);
    for i in 0..20 {
        store
            .add_relationship(Relationship::trust(&format!("node-{}", i), &format!("node-{}", i + 1), "system"))
            .unwrap();
    }
    let result = store.find_relationship_path("node-0", "trusted_by", "node-20");
    assert!(result.is_err());
}

#[test]
fn test_cycle_terminates_without_path() {
    let mut store = RelationshipStore::new_temp().unwrap();
    store.add_relationship(Relationship::trust("a", "b", "system")).unwrap();
    store.add_relationship(Relationship::trust("b", "a", "system")).unwrap();
    assert_eq!(store.find_relationship_path_at("a", "trusted_by", "z", 0).unwrap().is_none(), true);
}

#[test]
fn test_shortest_path_found() {
    let mut store = RelationshipStore::new_temp().unwrap();
    store.add_relationship(Relationship::trust("A", "B", "system")).unwrap();
    store.add_relationship(Relationship::trust("B", "C", "system")).unwrap();
    store.add_relationship(Relationship::trust("A", "D", "system")).unwrap();
    store.add_relationship(Relationship::trust("D", "E", "system")).unwrap();
    store.add_relationship(Relationship::trust("E", "C", "system")).unwrap();
    let path = store.find_relationship_path("A", "trusted_by", "C").unwrap().expect("Path should exist");
    assert_eq!(path.depth, 2);
}

#[test]
fn test_expired_link_breaks_chain() {
    let mut store = RelationshipStore::new_temp().unwrap();
    let mut first = Relationship::trust("a", "b", "system");
    first.expires_at = Some(100);
    store.add_relationship(first).unwrap();
    store.add_relationship(Relationship::trust("b", "c", "system")).unwrap();
    assert!(store.find_relationship_path_at("a", "trusted_by", "c", 99).unwrap().is_some());
    assert!(store.find_relationship_path_at("a", "trusted_by", "c", 100).unwrap().is_none());
}

#[test]
fn test_no_relationship_store_error() {
    let ctx = EvaluationContext::new(
        Resource::url("document-123"),
        Action::new(Operation::Read, "document"),
        Request { principal: Principal::user("alice"), ..Default::default() },
    );
    let result = ctx.has_relationship("editor", "document-123");
    assert!(result.is_err());
}

#[test]
fn test_list_subject_relationships() {
    let mut store = RelationshipStore::new_temp().unwrap();
    store.add_relationship(Relationship::role("alice", "editor", "doc-1", "admin")).unwrap();
    store.add_relationship(Relationship::role("alice", "viewer", "doc-2", "admin")).unwrap();
    store.add_relationship(Relationship::role("bob", "editor", "doc-3", "admin")).unwrap();
    assert_eq!(store.list_subject_relationships("alice").unwrap().len(), 2);
    assert_eq!(store.list_subject_relationships("bob").unwrap().len(), 1);
}

#[test]
fn test_count_relationships() {
    let mut store = RelationshipStore::new_temp().unwrap();
    assert_eq!(store.count_relationships().unwrap(), 0);
    store.add_relationship(Relationship::role("alice", "editor", "doc-1", "admin")).unwrap();
    assert_eq!(store.count_relationships().unwrap(), 1);
    store.add_relationship(Relationship::role("bob", "viewer", "doc-2", "admin")).unwrap();
    assert_eq!(store.count_relationships().unwrap(), 2);
}

#[test]
fn test_relationship_type_display() {
    assert_eq!(RelationType::Role.to_string(), "role");
    assert_eq!(RelationType::Trust.to_string(), "trust");
    assert_eq!(RelationType::Membership.to_string(), "membership");
    assert_eq!(RelationType::Custom("foo".into()).to_string(), "foo");
}

#[test]
fn test_relationship_type_transitivity() {
    assert!(!RelationType::Role.is_transitive());
    assert!(RelationType::Trust.is_transitive());
    assert!(RelationType::Membership.is_transitive());
    assert!(!RelationType::Ownership.is_transitive());
    assert!(!RelationType::Delegation.is_transitive());
}

#[test]
fn test_empty_field_validation() {
    let mut store = RelationshipStore::new_temp().unwrap();
    assert!(store.add_relationship(Relationship::role("", "editor", "doc", "admin")).is_err());
    assert!(store.add_relationship(Relationship::new("alice", "", "doc", RelationType::Role, "admin")).is_err());
    assert!(store.add_relationship(Relationship::role("alice", "editor", "", "admin")).is_err());
}

#[test]
fn test_context_transitive_trust() {
    let mut store = RelationshipStore::new_temp().unwrap();
    store.add_relationship(Relationship::trust("cert-123", "intermediate-ca", "pki")).unwrap();
    store.add_relationship(Relationship::trust("intermediate-ca", "root-ca", "pki")).unwrap();
    let ctx = EvaluationContext::new(
        Resource::url("api.example.com"),
        Action::new(Operation::Read, "api"),
        Request { principal: Principal::new("cert-123"), ..Default::default() },
    )
    .with_relationship_store(Arc::new(store));
    assert!(ctx.has_transitive_relationship("trusted_by", "root-ca").unwrap());
    let path = ctx.find_relationship_path("trusted_by", "root-ca").unwrap().expect("path");
    assert_eq!(path.depth, 2);
}

#[test]
fn test_store_add_and_get_relationship() {
    let mut store = RelationshipStore::new_temp().unwrap();
    let rel = Relationship::role("alice", "editor", "document-123", "admin");

    store.add_relationship(rel.clone()).unwrap();

    let retrieved = store
        .get_relationship("alice", "editor", "document-123")
        .unwrap()
        .expect("Relationship should exist");

    assert_eq!(retrieved.subject, rel.subject);
    assert_eq!(retrieved.relation, rel.relation);
    assert_eq!(retrieved.object, rel.object);
}

#[test]
fn test_store_has_relationship() {
    let mut store = RelationshipStore::new_temp().unwrap();
    let rel = Relationship::role("alice", "editor", "document-123", "admin");

    store.add_relationship(rel).unwrap();

    assert!(store.has_relationship("alice", "editor", "document-123").unwrap());
    assert!(!store.has_relationship("bob", "editor", "document-123").unwrap());
}

#[test]
fn test_store_remove_relationship() {
    let mut store = RelationshipStore::new_temp().unwrap();
    let rel = Relationship::role("alice", "editor", "document-123", "admin");

    store.add_relationship(rel).unwrap();
    assert!(store.has_relationship("alice", "editor", "document-123").unwrap());

    store.remove_relationship("alice", "editor", "document-123").unwrap();
    assert!(!store.has_relationship("alice", "editor", "document-123").unwrap());
}

#[test]
fn test_transitive_trust_chain() {
    let mut store = RelationshipStore::new_temp().unwrap();

    // Build trust chain: cert-1 -> intermediate-ca -> root-ca
    store
        .add_relationship(Relationship::trust("cert-1", "intermediate-ca", "pki"))
        .unwrap();

    store
        .add_relationship(Relationship::trust("intermediate-ca", "root-ca", "pki"))
        .unwrap();

    // Direct relationship exists
    assert!(store.has_relationship("cert-1", "trusted_by", "intermediate-ca").unwrap());

    // Transitive relationship should be found
    assert!(store.has_transitive_relationship("cert-1", "trusted_by", "root-ca").unwrap());

    // No relationship to unrelated entity
    assert!(!store.has_transitive_relationship("cert-1", "trusted_by", "other-ca").unwrap());
}

#[test]
fn test_transitive_membership() {
    let mut store = RelationshipStore::new_temp().unwrap();

    // alice -> engineers -> employees
    store
        .add_relationship(Relationship::membership("alice", "engineers", "system"))
        .unwrap();

    store
        .add_relationship(Relationship::membership("engineers", "employees", "system"))
        .unwrap();

    assert!(store.has_transitive_relationship("alice", "member_of", "employees").unwrap());
}

#[test]
fn test_relationship_path() {
    let mut store = RelationshipStore::new_temp().unwrap();

    // Build chain
    store
        .add_relationship(Relationship::trust("cert-1", "intermediate", "pki"))
        .unwrap();
    store
        .add_relationship(Relationship::trust("intermediate", "root", "pki"))
        .unwrap();

    let path = store
        .find_relationship_path("cert-1", "trusted_by", "root")
        .unwrap()
        .expect("Path should exist");

    assert_eq!(path.depth, 2);
    assert_eq!(path.path.len(), 2);
    assert_eq!(path.path[0].subject, "cert-1");
    assert_eq!(path.path[0].object, "intermediate");
    assert_eq!(path.path[1].subject, "intermediate");
    assert_eq!(path.path[1].object, "root");
}

#[test]
fn test_max_depth_limit() {
    let mut store = RelationshipStore::new_temp().unwrap().with_max_depth(3);

    // Build long chain
    for i in 0..10 {
        store
            .add_relationship(Relationship::trust(
                &format!("node-{}", i),
                &format!("node-{}", i + 1),
                "system",
            ))
            .unwrap();
    }

    // Should fail due to max depth
    let result = store.find_relationship_path("node-0", "trusted_by", "node-10");
    assert!(matches!(result, Err(RelationshipError::MaxDepthExceeded(_))));
}

#[test]
fn test_transitive_check_at_fixed_time() {
    let mut store = RelationshipStore::new_temp().unwrap().with_max_depth(2);
    let mut direct = Relationship::trust("a", "z", "system");
    direct.expires_at = Some(50);
    store.add_relationship(direct).unwrap();
    store.add_relationship(Relationship::trust("a", "b", "system")).unwrap();
    store.add_relationship(Relationship::trust("b", "z", "system")).unwrap();
    store.add_relationship(Relationship::trust("z", "y", "system")).unwrap();
    store.add_relationship(Relationship::trust("y", "x", "system")).unwrap();
    // Direct link still valid.
    assert_eq!(store.has_transitive_relationship_at("a", "trusted_by", "z", 10), Ok(true));
    // Direct link expired: the chain through b answers.
    assert_eq!(store.has_transitive_relationship_at("a", "trusted_by", "z", 60), Ok(true));
    // Nothing reaches "q" and no node is first reached at depth 2 from "y".
    assert_eq!(store.has_transitive_relationship_at("y", "trusted_by", "q", 60), Ok(false));
    // From "b", node "x" is first reached through two records: the depth limit answers.
    assert_eq!(
        store.has_transitive_relationship_at("b", "trusted_by", "q", 60),
        Err(RelationshipError::MaxDepthExceeded(2))
    );
}
