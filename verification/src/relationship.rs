//! Relationship records and their store: role assignments, trust chains and memberships,
//! with breadth-first search for transitive chains.
//!
//! The store keeps its records ordered by key, the key of a record being
//! `relationships:{scope}:{subject}:{relation}:{object}`.

use vstd::prelude::*;
use crate::approval::{expired_at, scope_text, Scope, MAX_OFFSET_SECONDS};
use crate::attrs::{lookup, StrMap};
use crate::clock::now_timestamp;
use crate::kv::{put_sorted, rank, remove_sorted, run_end, SortedMap};
use crate::text::{append_str, append_u64, colon_free, lemma_colon_key_injective, nat_text, owned, str_eq};

verus! {

/// Errors of the relationship store.
#[derive(Debug, PartialEq)]
pub enum RelationshipError {
    DatabaseError(String),
    SerializationError(String),
    NotFound { subject: String, relation: String, object: String },
    InvalidRelationship(String),
    CycleDetected,
    MaxDepthExceeded(usize),
    IoError(String),
}

/// The message of a relationship error.
pub open spec fn relationship_error_text(e: RelationshipError) -> Seq<char> {
    match e {
        RelationshipError::DatabaseError(m) => "Database error: "@ + m@,
        RelationshipError::SerializationError(m) => "Serialization error: "@ + m@,
        RelationshipError::NotFound { subject, relation, object } =>
            "Relationship not found: "@ + subject@ + ":"@ + relation@ + ":"@ + object@,
        RelationshipError::InvalidRelationship(m) => "Invalid relationship: "@ + m@,
        RelationshipError::CycleDetected => "Cycle detected in relationship chain"@,
        RelationshipError::MaxDepthExceeded(d) => "Maximum traversal depth exceeded: "@ + nat_text(d as nat),
        RelationshipError::IoError(m) => "IO error: "@ + m@,
    }
}

impl RelationshipError {
    /// The error message.
    pub fn to_string(&self) -> (s: String)
        ensures
            s@ == relationship_error_text(*self),
    {
        let mut out = String::new();
        match self {
            RelationshipError::DatabaseError(m) => {
                append_str(&mut out, "Database error: ");
                append_str(&mut out, m.as_str());
            },
            RelationshipError::SerializationError(m) => {
                append_str(&mut out, "Serialization error: ");
                append_str(&mut out, m.as_str());
            },
            RelationshipError::NotFound { subject, relation, object } => {
                append_str(&mut out, "Relationship not found: ");
                append_str(&mut out, subject.as_str());
                append_str(&mut out, ":");
                append_str(&mut out, relation.as_str());
                append_str(&mut out, ":");
                append_str(&mut out, object.as_str());
            },
            RelationshipError::InvalidRelationship(m) => {
                append_str(&mut out, "Invalid relationship: ");
                append_str(&mut out, m.as_str());
            },
            RelationshipError::CycleDetected => {
                append_str(&mut out, "Cycle detected in relationship chain");
            },
            RelationshipError::MaxDepthExceeded(d) => {
                append_str(&mut out, "Maximum traversal depth exceeded: ");
                append_u64(&mut out, *d as u64);
            },
            RelationshipError::IoError(m) => {
                append_str(&mut out, "IO error: ");
                append_str(&mut out, m.as_str());
            },
        }
        out
    }
}

/// Relationship type: the semantic meaning of a relationship.
#[derive(Debug, PartialEq, Eq, Hash)]
pub enum RelationType {
    /// Direct role assignment (e.g., "alice" is "editor" of "document")
    Role,
    /// Trust relationship (e.g., "cert-1" is "trusted_by" "root-ca")
    Trust,
    /// Membership (e.g., "alice" is "member_of" "admin-group")
    Membership,
    /// Ownership (e.g., "alice" is "owner" of "resource")
    Ownership,
    /// Delegation (e.g., "alice" can "delegate_to" "bob")
    Delegation,
    /// Custom relationship type
    Custom(String),
}

/// The name of a relationship type.
pub open spec fn relation_type_text(t: RelationType) -> Seq<char> {
    match t {
        RelationType::Role => "role"@,
        RelationType::Trust => "trust"@,
        RelationType::Membership => "membership"@,
        RelationType::Ownership => "ownership"@,
        RelationType::Delegation => "delegation"@,
        RelationType::Custom(s) => s@,
    }
}

/// Trust and membership chain: A to B and B to C give A to C.
pub open spec fn transitive(t: RelationType) -> bool {
    t is Trust || t is Membership
}

/// The same relationship type, a custom one by its characters.
pub open spec fn same_type(a: RelationType, b: RelationType) -> bool {
    match (a, b) {
        (RelationType::Custom(x), RelationType::Custom(y)) => x@ == y@,
        (RelationType::Custom(_), _) => false,
        (_, RelationType::Custom(_)) => false,
        _ => a == b,
    }
}

impl Clone for RelationType {
    fn clone(&self) -> (c: Self)
        ensures
            same_type(*self, c),
    {
        match self {
            RelationType::Role => RelationType::Role,
            RelationType::Trust => RelationType::Trust,
            RelationType::Membership => RelationType::Membership,
            RelationType::Ownership => RelationType::Ownership,
            RelationType::Delegation => RelationType::Delegation,
            RelationType::Custom(s) => RelationType::Custom(s.clone()),
        }
    }
}

impl RelationType {
    /// Whether relationships of this type chain.
    pub fn is_transitive(&self) -> (b: bool)
        ensures
            b == transitive(*self),
            b <==> (*self is Trust || *self is Membership),
    {
        match self {
            RelationType::Trust => true,
            RelationType::Membership => true,
            _ => false,
        }
    }

    /// The name of the type.
    pub fn to_string(&self) -> (s: String)
        ensures
            s@ == relation_type_text(*self),
    {
        match self {
            RelationType::Role => owned("role"),
            RelationType::Trust => owned("trust"),
            RelationType::Membership => owned("membership"),
            RelationType::Ownership => owned("ownership"),
            RelationType::Delegation => owned("delegation"),
            RelationType::Custom(s) => s.clone(),
        }
    }
}

/// Relationship record: a connection from a subject to an object.
#[derive(Debug)]
pub struct Relationship {
    /// Subject entity (who/what has the relationship)
    pub subject: String,
    /// Relation (what kind of relationship)
    pub relation: String,
    /// Object entity (to whom/what the relationship applies)
    pub object: String,
    /// Relationship type categorization
    pub relation_type: RelationType,
    /// Who/what established this relationship
    pub created_by: String,
    /// When this relationship was created (Unix timestamp)
    pub created_at: i64,
    /// Optional expiration time (Unix timestamp)
    pub expires_at: Option<i64>,
    /// Additional context (e.g., certificate chain, delegation scope)
    pub metadata: StrMap<String>,
    /// Scope for multi-tenant isolation
    pub scope: Scope,
    /// TTL in seconds for automatic cleanup
    pub ttl_seconds: Option<i64>,
}

/// `b` records the same relationship as `a`: same strings, type, times, scope and
/// metadata keys.
pub open spec fn same_relationship(a: Relationship, b: Relationship) -> bool {
    &&& b.subject@ == a.subject@
    &&& b.relation@ == a.relation@
    &&& b.object@ == a.object@
    &&& same_type(a.relation_type, b.relation_type)
    &&& b.created_by@ == a.created_by@
    &&& b.created_at == a.created_at
    &&& b.expires_at == a.expires_at
    &&& b.ttl_seconds == a.ttl_seconds
    &&& scope_text(b.scope) == scope_text(a.scope)
    &&& b.metadata.entries().len() == a.metadata.entries().len()
    &&& forall|i: int| 0 <= i < a.metadata.entries().len() ==> #[trigger] b.metadata.entries()[i].0 == a.metadata.entries()[i].0
}

/// The storage key of a relationship.
pub open spec fn relationship_key(scope: Seq<char>, subject: Seq<char>, relation: Seq<char>, object: Seq<char>) -> Seq<char> {
    "relationships:"@ + scope + ":"@ + subject + ":"@ + relation + ":"@ + object
}

/// The storage key of a relationship record.
pub open spec fn rel_key(r: Relationship) -> Seq<char> {
    relationship_key(scope_text(r.scope), r.subject@, r.relation@, r.object@)
}

impl Clone for Relationship {
    fn clone(&self) -> (c: Self)
        ensures
            same_relationship(*self, c),
    {
        Relationship {
            subject: self.subject.clone(),
            relation: self.relation.clone(),
            object: self.object.clone(),
            relation_type: self.relation_type.clone(),
            created_by: self.created_by.clone(),
            created_at: self.created_at,
            expires_at: self.expires_at,
            metadata: self.metadata.clone_map(),
            scope: self.scope.clone(),
            ttl_seconds: self.ttl_seconds,
        }
    }
}

impl Relationship {
    /// A global relationship without expiry or metadata, created now.
    pub fn new(subject: &str, relation: &str, object: &str, relation_type: RelationType, created_by: &str) -> (r: Self)
        ensures
            r.subject@ == subject@,
            r.relation@ == relation@,
            r.object@ == object@,
            r.relation_type == relation_type,
            r.created_by@ == created_by@,
            0 <= r.created_at,
            r.expires_at is None,
            r.metadata.entries().len() == 0,
            r.scope == Scope::Global,
            r.ttl_seconds is None,
    {
        Relationship {
            subject: owned(subject),
            relation: owned(relation),
            object: owned(object),
            relation_type,
            created_by: owned(created_by),
            created_at: now_timestamp(),
            expires_at: None,
            metadata: StrMap::new(),
            scope: Scope::Global,
            ttl_seconds: None,
        }
    }

    /// A role relationship (e.g., "alice" is "editor" of "document").
    pub fn role(subject: &str, role: &str, object: &str, created_by: &str) -> (r: Self)
        ensures
            r.subject@ == subject@,
            r.relation@ == role@,
            r.object@ == object@,
            r.relation_type == RelationType::Role,
            r.created_by@ == created_by@,
            0 <= r.created_at,
            r.expires_at is None,
            r.metadata.entries().len() == 0,
            r.scope == Scope::Global,
            r.ttl_seconds is None,
    {
        Relationship::new(subject, role, object, RelationType::Role, created_by)
    }

    /// A trust relationship (e.g., "cert" is "trusted_by" "root-ca").
    pub fn trust(subject: &str, object: &str, created_by: &str) -> (r: Self)
        ensures
            r.subject@ == subject@,
            r.relation@ == "trusted_by"@,
            r.object@ == object@,
            r.relation_type == RelationType::Trust,
            r.created_by@ == created_by@,
            0 <= r.created_at,
            r.expires_at is None,
            r.metadata.entries().len() == 0,
            r.scope == Scope::Global,
            r.ttl_seconds is None,
    {
        Relationship::new(subject, "trusted_by", object, RelationType::Trust, created_by)
    }

    /// A membership relationship (e.g., "alice" is "member_of" "group").
    pub fn membership(subject: &str, object: &str, created_by: &str) -> (r: Self)
        ensures
            r.subject@ == subject@,
            r.relation@ == "member_of"@,
            r.object@ == object@,
            r.relation_type == RelationType::Membership,
            r.created_by@ == created_by@,
            0 <= r.created_at,
            r.expires_at is None,
            r.metadata.entries().len() == 0,
            r.scope == Scope::Global,
            r.ttl_seconds is None,
    {
        Relationship::new(subject, "member_of", object, RelationType::Membership, created_by)
    }

    /// Set the scope.
    pub fn with_scope(self, scope: Scope) -> (r: Self)
        ensures
            r == (Relationship { scope, ..self }),
    {
        let mut r = self;
        r.scope = scope;
        r
    }

    /// Set the TTL; the relationship then expires `ttl_seconds` from now.
    pub fn with_ttl(self, ttl_seconds: i64) -> (r: Self)
        requires
            ttl_seconds <= MAX_OFFSET_SECONDS,
        ensures
            r.ttl_seconds == Some(ttl_seconds),
            r.expires_at matches Some(e) && ttl_seconds <= e < ttl_seconds + 10_000_000_000_000,
            r == (Relationship { ttl_seconds: r.ttl_seconds, expires_at: r.expires_at, ..self }),
    {
        let mut r = self;
        r.ttl_seconds = Some(ttl_seconds);
        r.expires_at = Some(now_timestamp() + ttl_seconds);
        r
    }

    /// Set the expiry to `seconds` from now.
    pub fn with_expiration(self, seconds: i64) -> (r: Self)
        requires
            seconds <= MAX_OFFSET_SECONDS,
        ensures
            r.expires_at matches Some(e) && seconds <= e < seconds + 10_000_000_000_000,
            r == (Relationship { expires_at: r.expires_at, ..self }),
    {
        let mut r = self;
        r.expires_at = Some(now_timestamp() + seconds);
        r
    }

    /// Add a metadata entry, replacing any value under the same key.
    pub fn with_metadata(self, key: &str, value: &str) -> (r: Self)
        ensures
            exists|v: String| v@ == value@ && r.metadata.entries() == crate::attrs::store(self.metadata.entries(), key@, v),
            r == (Relationship { metadata: r.metadata, ..self }),
    {
        let mut r = self;
        let v = owned(value);
        let ghost gv = v;
        r.metadata.insert(owned(key), v);
        assert(gv@ == value@);
        r
    }

    /// Whether the relationship has expired at time `now`.
    pub fn is_expired_at(&self, now: i64) -> (b: bool)
        ensures
            b == expired_at(self.expires_at, now),
    {
        match self.expires_at {
            Some(e) => now >= e,
            None => false,
        }
    }

    /// Whether the relationship has expired, by the current time.
    pub fn is_expired(&self) -> (b: bool)
        ensures
            self.expires_at is None ==> !b,
            self.expires_at matches Some(e) && e <= 0 ==> b,
            self.expires_at matches Some(e) && e >= 10_000_000_000_000 ==> !b,
    {
        let now = now_timestamp();
        self.is_expired_at(now)
    }

    /// The storage key: `relationships:{scope}:{subject}:{relation}:{object}`.
    pub fn key(&self) -> (k: String)
        ensures
            k@ == rel_key(*self),
    {
        let s = self.scope.encode();
        key_of(s.as_str(), self.subject.as_str(), self.relation.as_str(), self.object.as_str())
    }

    /// The forward index key: `rel_fwd:{scope}:{subject}:{relation}`.
    pub fn forward_index_key(&self) -> (k: String)
        ensures
            k@ == "rel_fwd:"@ + scope_text(self.scope) + ":"@ + self.subject@ + ":"@ + self.relation@,
    {
        let s = self.scope.encode();
        let mut k = owned("rel_fwd:");
        append_str(&mut k, s.as_str());
        append_str(&mut k, ":");
        append_str(&mut k, self.subject.as_str());
        append_str(&mut k, ":");
        append_str(&mut k, self.relation.as_str());
        k
    }

    /// The reverse index key: `rel_rev:{scope}:{object}:{relation}`.
    pub fn reverse_index_key(&self) -> (k: String)
        ensures
            k@ == "rel_rev:"@ + scope_text(self.scope) + ":"@ + self.object@ + ":"@ + self.relation@,
    {
        let s = self.scope.encode();
        let mut k = owned("rel_rev:");
        append_str(&mut k, s.as_str());
        append_str(&mut k, ":");
        append_str(&mut k, self.object.as_str());
        append_str(&mut k, ":");
        append_str(&mut k, self.relation.as_str());
        k
    }
}

fn key_of(scope: &str, subject: &str, relation: &str, object: &str) -> (k: String)
    ensures
        k@ == relationship_key(scope@, subject@, relation@, object@),
{
    let mut k = owned("relationships:");
    append_str(&mut k, scope);
    append_str(&mut k, ":");
    append_str(&mut k, subject);
    append_str(&mut k, ":");
    append_str(&mut k, relation);
    append_str(&mut k, ":");
    append_str(&mut k, object);
    k
}

/// A query for checking one relationship in a batch.
#[derive(Debug, Clone)]
pub struct RelationshipQuery {
    pub subject: String,
    pub relation: String,
    pub object: String,
}

impl RelationshipQuery {
    /// A query for `subject` having `relation` to `object`.
    pub fn new(subject: &str, relation: &str, object: &str) -> (q: Self)
        ensures
            q.subject@ == subject@,
            q.relation@ == relation@,
            q.object@ == object@,
    {
        RelationshipQuery { subject: owned(subject), relation: owned(relation), object: owned(object) }
    }
}

/// The chain of relationships that connects a subject to an object.
#[derive(Debug, Clone)]
pub struct RelationshipPath {
    /// The chain of relationships
    pub path: Vec<Relationship>,
    /// Length of the chain
    pub depth: usize,
}

/// Default maximum depth of transitive traversal.
pub const DEFAULT_MAX_DEPTH: usize = 10;

/// A record that the search may follow: of the relation searched for, and unexpired at `now`.
pub open spec fn usable(r: Relationship, relation: Seq<char>, now: i64) -> bool {
    r.relation@ == relation && !expired_at(r.expires_at, now)
}

/// The records picked by `idx` form a chain from `subject` to `object`: each usable, each
/// but the last transitive, each one's object the next one's subject.
pub open spec fn is_chain(recs: Seq<(Seq<char>, Relationship)>, idx: Seq<int>, subject: Seq<char>, relation: Seq<char>, object: Seq<char>, now: i64) -> bool {
    &&& idx.len() > 0
    &&& forall|k: int| 0 <= k < idx.len() ==> 0 <= #[trigger] idx[k] < recs.len() && usable(recs[idx[k]].1, relation, now)
    &&& recs[idx[0]].1.subject@ == subject
    &&& forall|k: int| 0 <= k < idx.len() - 1 ==> transitive(recs[#[trigger] idx[k]].1.relation_type)
        && recs[idx[k]].1.object@ == recs[idx[k + 1]].1.subject@
    &&& recs[idx[idx.len() - 1]].1.object@ == object
}

/// The records picked by `idx` lead from `subject` to `node` through usable transitive records.
pub open spec fn leads_to(recs: Seq<(Seq<char>, Relationship)>, idx: Seq<int>, subject: Seq<char>, relation: Seq<char>, now: i64, node: Seq<char>) -> bool {
    &&& forall|k: int| 0 <= k < idx.len() ==> 0 <= #[trigger] idx[k] < recs.len() && usable(recs[idx[k]].1, relation, now)
        && transitive(recs[idx[k]].1.relation_type)
    &&& idx.len() == 0 ==> node == subject
    &&& idx.len() > 0 ==> recs[idx[0]].1.subject@ == subject && recs[idx[idx.len() - 1]].1.object@ == node
    &&& forall|k: int| 0 <= k < idx.len() - 1 ==> recs[#[trigger] idx[k]].1.object@ == recs[idx[k + 1]].1.subject@
}

/// `path` holds copies of the records picked by `idx`, in order.
pub open spec fn copies(recs: Seq<(Seq<char>, Relationship)>, idx: Seq<int>, path: Seq<Relationship>) -> bool {
    &&& idx.len() == path.len()
    &&& forall|k: int| 0 <= k < idx.len() ==> same_relationship(recs[#[trigger] idx[k]].1, path[k])
}

/// Every usable record from `node` leads elsewhere than `object`, and the transitive ones
/// lead to nodes in `nodes`.
pub open spec fn explored(recs: Seq<(Seq<char>, Relationship)>, node: Seq<char>, relation: Seq<char>, object: Seq<char>, now: i64, nodes: Seq<Seq<char>>, upto: int) -> bool {
    forall|j: int| 0 <= j < upto && (#[trigger] recs[j]).1.subject@ == node && usable(recs[j].1, relation, now)
        ==> recs[j].1.object@ != object && (transitive(recs[j].1.relation_type) ==> nodes.contains(recs[j].1.object@))
}

/// The nodes of a search queue.
pub open spec fn queue_nodes(q: Seq<(String, Vec<Relationship>)>) -> Seq<Seq<char>> {
    q.map_values(|e: (String, Vec<Relationship>)| e.0@)
}

proof fn lemma_nodes_bound(nodes: Seq<Seq<char>>, objs: Seq<Seq<char>>)
    requires
        nodes.len() > 0,
        nodes.no_duplicates(),
        forall|k: int| 1 <= k < nodes.len() ==> objs.contains(#[trigger] nodes[k]),
    ensures
        nodes.len() <= objs.len() + 1,
{
    broadcast use vstd::seq_lib::seq_to_set_is_finite;
    let t = nodes.drop_first();
    assert(t.no_duplicates());
    t.unique_seq_to_set();
    objs.lemma_cardinality_of_set();
    assert(t.to_set().subset_of(objs.to_set())) by {
        assert forall|x: Seq<char>| t.to_set().contains(x) implies objs.to_set().contains(x) by {
            let k = choose|k: int| 0 <= k < t.len() && t[k] == x;
            assert(nodes[k + 1] == x);
        }
    }
    vstd::set_lib::lemma_len_subset(t.to_set(), objs.to_set());
}

proof fn lemma_chain_nodes(recs: Seq<(Seq<char>, Relationship)>, idx: Seq<int>, subject: Seq<char>, relation: Seq<char>, object: Seq<char>, now: i64, nodes: Seq<Seq<char>>, m: int)
    requires
        is_chain(recs, idx, subject, relation, object, now),
        nodes.contains(subject),
        forall|k: int| 0 <= k < nodes.len() ==> explored(recs, #[trigger] nodes[k], relation, object, now, nodes, recs.len() as int),
        0 <= m < idx.len(),
    ensures
        nodes.contains(recs[idx[m]].1.subject@),
    decreases m,
{
    if m > 0 {
        lemma_chain_nodes(recs, idx, subject, relation, object, now, nodes, m - 1);
        let p = recs[idx[m - 1]].1;
        let k = choose|k: int| 0 <= k < nodes.len() && nodes[k] == p.subject@;
        assert(explored(recs, nodes[k], relation, object, now, nodes, recs.len() as int));
        assert(transitive(recs[idx[m - 1]].1.relation_type));
        assert(0 <= idx[m - 1] < recs.len() && usable(recs[idx[m - 1]].1, relation, now));
    }
}

/// When every node found has been explored, no chain leads from the first to `object`.
proof fn lemma_no_chain(recs: Seq<(Seq<char>, Relationship)>, idx: Seq<int>, subject: Seq<char>, relation: Seq<char>, object: Seq<char>, now: i64, nodes: Seq<Seq<char>>)
    requires
        nodes.len() > 0,
        nodes[0] == subject,
        forall|k: int| 0 <= k < nodes.len() ==> explored(recs, #[trigger] nodes[k], relation, object, now, nodes, recs.len() as int),
    ensures
        !is_chain(recs, idx, subject, relation, object, now),
{
    if is_chain(recs, idx, subject, relation, object, now) {
        assert(nodes.contains(subject));
        let last = idx.len() - 1;
        lemma_chain_nodes(recs, idx, subject, relation, object, now, nodes, last);
        let k = choose|k: int| 0 <= k < nodes.len() && nodes[k] == recs[idx[last]].1.subject@;
        assert(explored(recs, nodes[k], relation, object, now, nodes, recs.len() as int));
        assert(0 <= idx[last] < recs.len() && usable(recs[idx[last]].1, relation, now));
    }
}

fn in_queue(queue: &Vec<(String, Vec<Relationship>)>, s: &str) -> (b: bool)
    ensures
        b == queue_nodes(queue@).contains(s@),
{
    let mut i: usize = 0;
    while i < queue.len()
        invariant
            i <= queue@.len(),
            forall|k: int| 0 <= k < i ==> queue_nodes(queue@)[k] != s@,
        decreases queue@.len() - i,
    {
        if str_eq(queue[i].0.as_str(), s) {
            assert(queue_nodes(queue@)[i as int] == s@);
            return true;
        }
        i = i + 1;
    }
    false
}

fn copy_path(p: &Vec<Relationship>) -> (c: Vec<Relationship>)
    ensures
        c@.len() == p@.len(),
        forall|k: int| 0 <= k < p@.len() ==> same_relationship(p@[k], #[trigger] c@[k]),
{
    let mut c: Vec<Relationship> = Vec::new();
    let mut i: usize = 0;
    while i < p.len()
        invariant
            i <= p@.len(),
            c@.len() == i,
            forall|k: int| 0 <= k < i ==> same_relationship(p@[k], #[trigger] c@[k]),
        decreases p@.len() - i,
    {
        c.push(p[i].clone());
        i = i + 1;
    }
    c
}

/// Whether the records hold an unexpired relationship under `key` at time `now`.
pub open spec fn related_at(recs: Seq<(Seq<char>, Relationship)>, key: Seq<char>, now: i64) -> bool {
    match lookup(recs, key) {
        Some(r) => !expired_at(r.expires_at, now),
        None => false,
    }
}

/// What holds of a relationship check made at an unknown time.
pub open spec fn relation_check_holds(recs: Seq<(Seq<char>, Relationship)>, key: Seq<char>, b: bool) -> bool {
    &&& lookup(recs, key) is None ==> !b
    &&& (lookup(recs, key) matches Some(r) && r.expires_at is None) ==> b
    &&& (lookup(recs, key) matches Some(r) && r.expires_at matches Some(e) && e <= 0) ==> !b
    &&& (lookup(recs, key) matches Some(r) && r.expires_at matches Some(e) && e >= 10_000_000_000_000) ==> b
}

/// The validation error of a relationship, if any: subject, relation and object must be nonempty.
pub open spec fn relationship_invalid(r: Relationship) -> Option<Seq<char>> {
    if r.subject@.len() == 0 {
        Some("subject cannot be empty"@)
    } else if r.relation@.len() == 0 {
        Some("relation cannot be empty"@)
    } else if r.object@.len() == 0 {
        Some("object cannot be empty"@)
    } else {
        None
    }
}

/// No chain leads from `subject` to `object`.
pub open spec fn no_chain(recs: Seq<(Seq<char>, Relationship)>, subject: Seq<char>, relation: Seq<char>, object: Seq<char>, now: i64) -> bool {
    forall|idx: Seq<int>| !#[trigger] is_chain(recs, idx, subject, relation, object, now)
}

/// `node` is reached from `subject` through at most `m` usable transitive records.
pub open spec fn within(recs: Seq<(Seq<char>, Relationship)>, subject: Seq<char>, relation: Seq<char>, now: i64, node: Seq<char>, m: int) -> bool {
    exists|idx: Seq<int>| #[trigger] leads_to(recs, idx, subject, relation, now, node) && idx.len() <= m
}

/// What a breadth-first search for a chain from `subject` to `object`, going at most `max`
/// records deep, answers: a shortest chain, of copies of stored records, when one of at
/// most `max` records exists; that the depth limit was reached when none does but some
/// node is first reached through exactly `max` transitive records; and none otherwise, in
/// which case no chain exists at all.
pub open spec fn search_result(recs: Seq<(Seq<char>, Relationship)>, subject: Seq<char>, relation: Seq<char>, object: Seq<char>, now: i64, max: usize, r: Result<Option<RelationshipPath>, RelationshipError>) -> bool {
    match r {
        Ok(Some(p)) => p.depth == p.path@.len() && p.depth <= max
            && (exists|idx: Seq<int>| is_chain(recs, idx, subject, relation, object, now) && #[trigger] copies(recs, idx, p.path@))
            && (forall|idx: Seq<int>| #[trigger] is_chain(recs, idx, subject, relation, object, now) ==> idx.len() >= p.depth),
        Ok(None) => (forall|idx: Seq<int>| !#[trigger] is_chain(recs, idx, subject, relation, object, now))
            && (forall|node: Seq<char>| #[trigger] within(recs, subject, relation, now, node, max as int)
                ==> within(recs, subject, relation, now, node, max - 1)),
        Err(e) => e == RelationshipError::MaxDepthExceeded(max)
            && (forall|idx: Seq<int>| #[trigger] is_chain(recs, idx, subject, relation, object, now) ==> idx.len() > max)
            && (exists|node: Seq<char>| #[trigger] within(recs, subject, relation, now, node, max as int)
                && !within(recs, subject, relation, now, node, max - 1)),
    }
}

/// What a check for `relation` from `subject` to `object` at time `now` answers: yes when an
/// unexpired global relationship holds directly; otherwise what the search for a chain of at
/// most `max` records gives: yes when such a chain exists, the depth-limit error when none
/// does but some node is first reached through exactly `max` transitive records, and no
/// otherwise, in which case no chain exists at all.
pub open spec fn transitive_answer(recs: Seq<(Seq<char>, Relationship)>, subject: Seq<char>, relation: Seq<char>, object: Seq<char>, now: i64, max: usize, r: Result<bool, RelationshipError>) -> bool {
    let direct = related_at(recs, relationship_key("global"@, subject, relation, object), now);
    match r {
        Ok(true) => direct || exists|idx: Seq<int>| #[trigger] is_chain(recs, idx, subject, relation, object, now) && idx.len() <= max,
        Ok(false) => !direct && no_chain(recs, subject, relation, object, now)
            && (forall|node: Seq<char>| #[trigger] within(recs, subject, relation, now, node, max as int)
                ==> within(recs, subject, relation, now, node, max - 1)),
        Err(e) => !direct && e == RelationshipError::MaxDepthExceeded(max)
            && (forall|idx: Seq<int>| #[trigger] is_chain(recs, idx, subject, relation, object, now) ==> idx.len() > max)
            && (exists|node: Seq<char>| #[trigger] within(recs, subject, relation, now, node, max as int)
                && !within(recs, subject, relation, now, node, max - 1)),
    }
}

/// A path that the search finds is a chain of copies of stored relationships by `relation`,
/// none expired at `now`: it starts at `subject`, each link ends where the next begins,
/// every link but the last is transitive, and it ends at `object`, no longer than `max`.
pub proof fn law_found_path_is_chain(
    recs: Seq<(Seq<char>, Relationship)>, subject: Seq<char>, relation: Seq<char>, object: Seq<char>,
    now: i64, max: usize, p: RelationshipPath,
)
    requires
        search_result(recs, subject, relation, object, now, max, Ok(Some(p))),
    ensures
        p.path@.len() == p.depth,
        0 < p.depth <= max,
        p.path@[0].subject@ == subject,
        p.path@[p.path@.len() - 1].object@ == object,
        forall|k: int| 0 <= k < p.path@.len() ==> (#[trigger] p.path@[k]).relation@ == relation
            && !expired_at(p.path@[k].expires_at, now),
        forall|k: int| 0 <= k < p.path@.len() - 1 ==> transitive((#[trigger] p.path@[k]).relation_type)
            && p.path@[k].object@ == p.path@[k + 1].subject@,
{
    let idx = choose|idx: Seq<int>| is_chain(recs, idx, subject, relation, object, now) && #[trigger] copies(recs, idx, p.path@);
    assert(same_relationship(recs[idx[0]].1, p.path@[0]));
    let last = idx.len() - 1;
    assert(same_relationship(recs[idx[last]].1, p.path@[last]));
    assert forall|k: int| 0 <= k < p.path@.len() implies (#[trigger] p.path@[k]).relation@ == relation
        && !expired_at(p.path@[k].expires_at, now) by {
        assert(same_relationship(recs[idx[k]].1, p.path@[k]));
    }
    assert forall|k: int| 0 <= k < p.path@.len() - 1 implies transitive((#[trigger] p.path@[k]).relation_type)
        && p.path@[k].object@ == p.path@[k + 1].subject@ by {
        assert(same_relationship(recs[idx[k]].1, p.path@[k]));
        assert(same_relationship(recs[idx[k + 1]].1, p.path@[k + 1]));
        assert(transitive(recs[idx[k]].1.relation_type));
    }
}

/// Exactly trust and membership relationships chain: roles, ownership, delegation and
/// custom types never do.
pub proof fn law_only_trust_and_membership_chain(t: RelationType)
    ensures
        transitive(t) <==> (t is Trust || t is Membership),
        t is Role || t is Ownership || t is Delegation || t is Custom ==> !transitive(t),
{
}

/// Every link of a chain that the search finds, but the last, is a trust or membership
/// relationship: a link of any other type is only ever the last of a chain.
pub proof fn law_found_path_links_trust_or_membership(
    recs: Seq<(Seq<char>, Relationship)>, subject: Seq<char>, relation: Seq<char>, object: Seq<char>,
    now: i64, max: usize, p: RelationshipPath,
)
    requires
        search_result(recs, subject, relation, object, now, max, Ok(Some(p))),
    ensures
        forall|k: int| 0 <= k < p.path@.len() - 1
            ==> (#[trigger] p.path@[k]).relation_type is Trust || p.path@[k].relation_type is Membership,
{
    law_found_path_is_chain(recs, subject, relation, object, now, max, p);
    assert forall|k: int| 0 <= k < p.path@.len() - 1
        implies (#[trigger] p.path@[k]).relation_type is Trust || p.path@[k].relation_type is Membership by {
        assert(transitive(p.path@[k].relation_type));
        law_only_trust_and_membership_chain(p.path@[k].relation_type);
    }
}

/// A chain whose every link is of a type other than trust and membership, and which has
/// more than one link, is never a chain: a transitive check through such links answers by
/// the direct relationship alone.
pub proof fn law_no_chain_through_other_types(
    recs: Seq<(Seq<char>, Relationship)>, idx: Seq<int>, subject: Seq<char>, relation: Seq<char>, object: Seq<char>, now: i64,
)
    requires
        idx.len() > 1,
        0 <= idx[0] < recs.len(),
        !(recs[idx[0]].1.relation_type is Trust || recs[idx[0]].1.relation_type is Membership),
    ensures
        !is_chain(recs, idx, subject, relation, object, now),
{
}

/// In-memory relationship store, ordered by storage key.
#[derive(Debug)]
pub struct RelationshipStore {
    records: SortedMap<Relationship>,
    /// Maximum depth of transitive traversal
    max_traversal_depth: usize,
}

impl RelationshipStore {
    /// The records with their keys, in key order.
    pub closed spec fn records(&self) -> Seq<(Seq<char>, Relationship)> {
        self.records.entries()
    }

    /// The maximum depth of transitive traversal.
    pub closed spec fn max_depth(&self) -> usize {
        self.max_traversal_depth
    }

    /// An empty store with the default traversal depth.
    pub fn new() -> (s: Self)
        ensures
            s.records() == Seq::<(Seq<char>, Relationship)>::empty(),
            s.max_depth() == DEFAULT_MAX_DEPTH,
    {
        RelationshipStore { records: SortedMap::new(), max_traversal_depth: DEFAULT_MAX_DEPTH }
    }

    /// An empty store for tests; it always succeeds.
    pub fn new_temp() -> (r: Result<Self, RelationshipError>)
        ensures
            r matches Ok(s) && s.records() == Seq::<(Seq<char>, Relationship)>::empty()
                && s.max_depth() == DEFAULT_MAX_DEPTH,
    {
        Ok(RelationshipStore::new())
    }

    /// Set the maximum traversal depth.
    pub fn with_max_depth(self, depth: usize) -> (s: Self)
        ensures
            s.records() == self.records(),
            s.max_depth() == depth,
    {
        RelationshipStore { records: self.records, max_traversal_depth: depth }
    }

    /// Add a relationship under its key, replacing any there; subject, relation and object
    /// must be nonempty.
    pub fn add_relationship(&mut self, relationship: Relationship) -> (r: Result<(), RelationshipError>)
        ensures
            final(self).max_depth() == old(self).max_depth(),
            match relationship_invalid(relationship) {
                Some(m) => r matches Err(RelationshipError::InvalidRelationship(msg)) && msg@ == m
                    && final(self).records() == old(self).records(),
                None => r is Ok
                    && final(self).records() == put_sorted(old(self).records(), rel_key(relationship), relationship),
            },
    {
        if relationship.subject.unicode_len() == 0 {
            return Err(RelationshipError::InvalidRelationship(owned("subject cannot be empty")));
        }
        if relationship.relation.unicode_len() == 0 {
            return Err(RelationshipError::InvalidRelationship(owned("relation cannot be empty")));
        }
        if relationship.object.unicode_len() == 0 {
            return Err(RelationshipError::InvalidRelationship(owned("object cannot be empty")));
        }
        let key = relationship.key();
        self.records.put(key, relationship);
        Ok(())
    }

    /// The relationship of `subject` by `relation` to `object` in `scope`.
    pub fn get_relationship_in_scope(&self, subject: &str, relation: &str, object: &str, scope: &Scope) -> (r: Result<Option<Relationship>, RelationshipError>)
        ensures
            r matches Ok(found) && match lookup(self.records(), relationship_key(scope_text(*scope), subject@, relation@, object@)) {
                Some(a) => found matches Some(c) && same_relationship(a, c),
                None => found is None,
            },
    {
        let s = scope.encode();
        let key = key_of(s.as_str(), subject, relation, object);
        match self.records.get(key.as_str()) {
            Some(a) => Ok(Some(a.clone())),
            None => Ok(None),
        }
    }

    /// The global relationship of `subject` by `relation` to `object`.
    pub fn get_relationship(&self, subject: &str, relation: &str, object: &str) -> (r: Result<Option<Relationship>, RelationshipError>)
        ensures
            r matches Ok(found) && match lookup(self.records(), relationship_key("global"@, subject@, relation@, object@)) {
                Some(a) => found matches Some(c) && same_relationship(a, c),
                None => found is None,
            },
    {
        self.get_relationship_in_scope(subject, relation, object, &Scope::Global)
    }

    /// Whether an unexpired direct relationship exists in `scope` at time `now`.
    pub fn has_relationship_at(&self, subject: &str, relation: &str, object: &str, scope: &Scope, now: i64) -> (b: bool)
        ensures
            b == related_at(self.records(), relationship_key(scope_text(*scope), subject@, relation@, object@), now),
    {
        let s = scope.encode();
        let key = key_of(s.as_str(), subject, relation, object);
        match self.records.get(key.as_str()) {
            Some(a) => !a.is_expired_at(now),
            None => false,
        }
    }

    /// Whether an unexpired direct relationship exists in `scope`, by the current time.
    pub fn has_relationship_in_scope(&self, subject: &str, relation: &str, object: &str, scope: &Scope) -> (r: Result<bool, RelationshipError>)
        ensures
            r matches Ok(b) && relation_check_holds(self.records(), relationship_key(scope_text(*scope), subject@, relation@, object@), b),
    {
        let now = now_timestamp();
        Ok(self.has_relationship_at(subject, relation, object, scope, now))
    }

    /// Whether an unexpired direct global relationship exists, by the current time.
    pub fn has_relationship(&self, subject: &str, relation: &str, object: &str) -> (r: Result<bool, RelationshipError>)
        ensures
            r matches Ok(b) && relation_check_holds(self.records(), relationship_key("global"@, subject@, relation@, object@), b),
    {
        self.has_relationship_in_scope(subject, relation, object, &Scope::Global)
    }

    /// Remove the relationship in `scope`, if any.
    pub fn remove_relationship_in_scope(&mut self, subject: &str, relation: &str, object: &str, scope: &Scope) -> (r: Result<(), RelationshipError>)
        ensures
            r is Ok,
            final(self).max_depth() == old(self).max_depth(),
            final(self).records() == remove_sorted(old(self).records(), relationship_key(scope_text(*scope), subject@, relation@, object@)),
    {
        let s = scope.encode();
        let key = key_of(s.as_str(), subject, relation, object);
        self.records.remove(key.as_str());
        Ok(())
    }

    /// Remove the global relationship, if any.
    pub fn remove_relationship(&mut self, subject: &str, relation: &str, object: &str) -> (r: Result<(), RelationshipError>)
        ensures
            r is Ok,
            final(self).max_depth() == old(self).max_depth(),
            final(self).records() == remove_sorted(old(self).records(), relationship_key("global"@, subject@, relation@, object@)),
    {
        self.remove_relationship_in_scope(subject, relation, object, &Scope::Global)
    }

    /// Breadth-first search, at time `now`, for a chain of relationships by `relation` from
    /// `subject` to `object`, across all scopes; it stops with an error on reaching a node
    /// whose path is `max_depth` long.
    #[verifier::rlimit(50)]
    pub fn find_relationship_path_at(&self, subject: &str, relation: &str, object: &str, now: i64) -> (r: Result<Option<RelationshipPath>, RelationshipError>)
        ensures
            search_result(self.records(), subject@, relation@, object@, now, self.max_depth(), r),
    {
        let ghost recs = self.records();
        let max = self.max_traversal_depth;
        let n = self.records.len();
        let mut queue: Vec<(String, Vec<Relationship>)> = Vec::new();
        queue.push((owned(subject), Vec::new()));
        let ghost mut chains: Seq<Seq<int>> = seq![Seq::<int>::empty()];
        let mut head: usize = 0;
        proof {
            assert(queue_nodes(queue@) =~= seq![subject@]);
            reveal(queue_ok);
            reveal(explored_upto);
            assert(leads_to(recs, chains[0], subject@, relation@, now, queue_nodes(queue@)[0]));
            lemma_layers_init(recs, subject@, relation@, now, max as int);
        }
        while head < queue.len()
            invariant
                recs == self.records(),
                n == recs.len(),
                max == self.max_depth(),
                head <= queue@.len(),
                queue_ok(recs, queue@, chains, subject@, relation@, now, max),
                explored_upto(recs, queue_nodes(queue@), head as int, relation@, object@, now),
                bfs_layers(recs, queue_nodes(queue@), chains, head as int, subject@, relation@, now, max as int),
            decreases n + 1 - head,
        {
            proof {
                lemma_queue_ok_facts(recs, queue@, chains, subject@, relation@, now, max, head as int);
                lemma_queue_ok_all(recs, queue@, chains, subject@, relation@, now, max);
            }
            if queue[head].1.len() >= max {
                proof {
                    lemma_limit_reached(recs, queue_nodes(queue@), chains, head as int, subject@, relation@, object@, now, max as int);
                }
                return Err(RelationshipError::MaxDepthExceeded(max));
            }
            let ghost node = queue_nodes(queue@)[head as int];
            let mut j: usize = 0;
            while j < n
                invariant
                    recs == self.records(),
                    n == recs.len(),
                    max == self.max_depth(),
                    j <= n,
                    head < queue@.len(),
                    node == queue_nodes(queue@)[head as int],
                    queue@[head as int].1@.len() < max,
                    queue_ok(recs, queue@, chains, subject@, relation@, now, max),
                    explored_upto(recs, queue_nodes(queue@), head as int, relation@, object@, now),
                    explored(recs, node, relation@, object@, now, queue_nodes(queue@), j as int),
                    bfs_layers(recs, queue_nodes(queue@), chains, head as int, subject@, relation@, now, max as int),
                decreases n - j,
            {
                let rel = self.records.value_at(j);
                let ghost before = queue@;
                if str_eq(rel.subject.as_str(), queue[head].0.as_str()) && str_eq(rel.relation.as_str(), relation)
                    && !rel.is_expired_at(now) {
                    if str_eq(rel.object.as_str(), object) {
                        let mut path = copy_path(&queue[head].1);
                        path.push(rel.clone());
                        let depth = path.len();
                        let found = RelationshipPath { path, depth };
                        proof {
                            lemma_found_result(recs, queue@, chains, head as int, subject@, relation@, object@, now, max, j as int, found);
                        }
                        return Ok(Some(found));
                    }
                    if rel.relation_type.is_transitive() && !in_queue(&queue, rel.object.as_str()) {
                        let mut path = copy_path(&queue[head].1);
                        path.push(rel.clone());
                        let entry = (rel.object.clone(), path);
                        proof {
                            lemma_queue_ok_facts(recs, queue@, chains, subject@, relation@, now, max, head as int);
                            lemma_queue_push(recs, queue@, chains, subject@, relation@, now, max, head as int, j as int, entry);
                            lemma_explored_push(recs, queue_nodes(queue@), entry.0@, head as int, node, j as int, relation@, object@, now);
                            lemma_queue_ok_all(recs, queue@, chains, subject@, relation@, now, max);
                            lemma_layers_push(recs, queue_nodes(queue@), chains, head as int, subject@, relation@, object@, now, max as int, j as int);
                            assert(queue_nodes(queue@.push(entry)) =~= queue_nodes(queue@).push(entry.0@));
                            chains = chains.push(chains[head as int].push(j as int));
                        }
                        queue.push(entry);
                        assert(queue_nodes(queue@)[before.len() as int] == rel.object@);
                    }
                }
                proof {
                    lemma_explored_step(recs, node, relation@, object@, now, queue_nodes(before), queue_nodes(queue@), j as int);
                }
                j = j + 1;
            }
            proof {
                reveal(explored_upto);
                lemma_queue_ok_all(recs, queue@, chains, subject@, relation@, now, max);
                lemma_layers_advance(recs, queue_nodes(queue@), chains, head as int, subject@, relation@, object@, now, max as int);
            }
            head = head + 1;
        }
        proof {
            reveal(explored_upto);
            reveal(queue_ok);
            assert forall|idx: Seq<int>| !#[trigger] is_chain(recs, idx, subject@, relation@, object@, now) by {
                lemma_no_chain(recs, idx, subject@, relation@, object@, now, queue_nodes(queue@));
            }
            lemma_queue_ok_all(recs, queue@, chains, subject@, relation@, now, max);
            lemma_search_exhausted(recs, queue_nodes(queue@), chains, subject@, relation@, object@, now, max as int);
        }
        Ok(None)
    }
}

impl RelationshipStore {
    /// Breadth-first search, by the current time, for a chain of relationships by `relation`
    /// from `subject` to `object`, across all scopes.
    pub fn find_relationship_path(&self, subject: &str, relation: &str, object: &str) -> (r: Result<Option<RelationshipPath>, RelationshipError>)
        ensures
            exists|now: i64| 0 <= now && #[trigger] search_result(self.records(), subject@, relation@, object@, now, self.max_depth(), r),
    {
        let now = now_timestamp();
        self.find_relationship_path_at(subject, relation, object, now)
    }

    /// Whether `subject` has `relation` to `object` at time `now`, directly in the global scope
    /// or through a chain.
    pub fn has_transitive_relationship_at(&self, subject: &str, relation: &str, object: &str, now: i64) -> (r: Result<bool, RelationshipError>)
        ensures
            transitive_answer(self.records(), subject@, relation@, object@, now, self.max_depth(), r),
    {
        if self.has_relationship_at(subject, relation, object, &Scope::Global, now) {
            return Ok(true);
        }
        let r = self.find_relationship_path_at(subject, relation, object, now);
        match r {
            Ok(p) => Ok(p.is_some()),
            Err(e) => Err(e),
        }
    }

    /// Whether `subject` has `relation` to `object`, by the current time, directly in the
    /// global scope or through a chain.
    pub fn has_transitive_relationship(&self, subject: &str, relation: &str, object: &str) -> (r: Result<bool, RelationshipError>)
        ensures
            exists|now: i64| 0 <= now && #[trigger] transitive_answer(self.records(), subject@, relation@, object@, now, self.max_depth(), r),
    {
        let now = now_timestamp();
        self.has_transitive_relationship_at(subject, relation, object, now)
    }

    /// The relationships of `subject` in `scope`, in key order.
    pub fn list_subject_relationships_in_scope(&self, subject: &str, scope: &Scope) -> (r: Result<Vec<Relationship>, RelationshipError>)
        ensures
            r matches Ok(v) && ({
                let p = "relationships:"@ + scope_text(*scope) + ":"@ + subject@ + ":"@;
                let i = rank(self.records(), p);
                let want = self.records().subrange(i, run_end(self.records(), i, p));
                &&& v@.len() == want.len()
                &&& forall|k: int| 0 <= k < want.len() ==> same_relationship(want[k].1, #[trigger] v@[k])
            }),
    {
        let s = scope.encode();
        let mut prefix = owned("relationships:");
        append_str(&mut prefix, s.as_str());
        append_str(&mut prefix, ":");
        append_str(&mut prefix, subject);
        append_str(&mut prefix, ":");
        let start = self.records.seek(prefix.as_str());
        let end = self.records.prefix_end(start, prefix.as_str());
        let ghost want = self.records().subrange(start as int, end as int);
        let mut out: Vec<Relationship> = Vec::new();
        let mut i: usize = start;
        while i < end
            invariant
                start <= i <= end,
                end <= self.records().len(),
                want == self.records().subrange(start as int, end as int),
                out@.len() == i - start,
                forall|k: int| 0 <= k < out@.len() ==> same_relationship(want[k].1, #[trigger] out@[k]),
            decreases end - i,
        {
            out.push(self.records.value_at(i).clone());
            i = i + 1;
        }
        Ok(out)
    }

    /// The global relationships of `subject`, in key order.
    pub fn list_subject_relationships(&self, subject: &str) -> (r: Result<Vec<Relationship>, RelationshipError>)
        ensures
            r matches Ok(v) && ({
                let p = "relationships:"@ + "global"@ + ":"@ + subject@ + ":"@;
                let i = rank(self.records(), p);
                let want = self.records().subrange(i, run_end(self.records(), i, p));
                &&& v@.len() == want.len()
                &&& forall|k: int| 0 <= k < want.len() ==> same_relationship(want[k].1, #[trigger] v@[k])
            }),
    {
        self.list_subject_relationships_in_scope(subject, &Scope::Global)
    }

    /// Check each query against the global scope, by the current time.
    pub fn check_relationships(&self, queries: Vec<RelationshipQuery>) -> (r: Result<Vec<bool>, RelationshipError>)
        ensures
            r matches Ok(v) && v@.len() == queries@.len() && forall|i: int| 0 <= i < queries@.len() ==>
                relation_check_holds(self.records(), relationship_key("global"@, queries@[i].subject@, queries@[i].relation@, queries@[i].object@), #[trigger] v@[i]),
    {
        let mut out: Vec<bool> = Vec::new();
        let mut i: usize = 0;
        while i < queries.len()
            invariant
                i <= queries@.len(),
                out@.len() == i,
                forall|j: int| 0 <= j < i ==>
                    relation_check_holds(self.records(), relationship_key("global"@, queries@[j].subject@, queries@[j].relation@, queries@[j].object@), #[trigger] out@[j]),
            decreases queries@.len() - i,
        {
            let q = &queries[i];
            match self.has_relationship(q.subject.as_str(), q.relation.as_str(), q.object.as_str()) {
                Ok(b) => out.push(b),
                Err(e) => { return Err(e); },
            }
            i = i + 1;
        }
        Ok(out)
    }

    /// The number of relationships stored.
    pub fn count_relationships(&self) -> (r: Result<usize, RelationshipError>)
        ensures
            r == Ok::<usize, RelationshipError>(self.records().len() as usize),
    {
        Ok(self.records.len())
    }
}

/// Once a relationship is added, checking it at any time `now` finds it, related exactly
/// when it has not expired at `now`; the relationships under other keys are unchanged.
pub proof fn law_add_then_check(recs: Seq<(Seq<char>, Relationship)>, r: Relationship, other: Seq<char>, now: i64)
    requires
        crate::kv::sorted(recs),
    ensures
        lookup(put_sorted(recs, rel_key(r), r), rel_key(r)) == Some(r),
        related_at(put_sorted(recs, rel_key(r), r), rel_key(r), now) == !expired_at(r.expires_at, now),
        other != rel_key(r) ==> related_at(put_sorted(recs, rel_key(r), r), other, now) == related_at(recs, other, now),
{
    crate::kv::lemma_put_sorted(recs, rel_key(r), r);
}

/// Once a relationship is removed, no check finds it; the relationships under other keys
/// are unchanged.
pub proof fn law_remove_then_check(recs: Seq<(Seq<char>, Relationship)>, key: Seq<char>, other: Seq<char>, now: i64)
    requires
        crate::kv::sorted(recs),
    ensures
        !related_at(remove_sorted(recs, key), key, now),
        other != key ==> related_at(remove_sorted(recs, key), other, now) == related_at(recs, other, now),
{
    crate::kv::lemma_remove_sorted(recs, key);
}

/// Keys of relationships that differ in scope, subject, relation or object differ, when
/// subjects, relations and objects hold no `:` (with colons, two keys can coincide): so
/// adding or removing a relationship never changes a check of another, in its scope or any
/// other.
pub proof fn law_relationship_isolation(
    recs: Seq<(Seq<char>, Relationship)>,
    r: Relationship,
    scope: Scope,
    subject: Seq<char>,
    relation: Seq<char>,
    object: Seq<char>,
    now: i64,
)
    requires
        crate::kv::sorted(recs),
        colon_free(r.subject@),
        colon_free(r.relation@),
        colon_free(r.object@),
        colon_free(subject),
        colon_free(relation),
        colon_free(object),
        scope_text(scope) != scope_text(r.scope) || subject != r.subject@ || relation != r.relation@
            || object != r.object@,
    ensures
        related_at(put_sorted(recs, rel_key(r), r), relationship_key(scope_text(scope), subject, relation, object), now)
            == related_at(recs, relationship_key(scope_text(scope), subject, relation, object), now),
        related_at(remove_sorted(recs, rel_key(r)), relationship_key(scope_text(scope), subject, relation, object), now)
            == related_at(recs, relationship_key(scope_text(scope), subject, relation, object), now),
{
    let other = relationship_key(scope_text(scope), subject, relation, object);
    if other == rel_key(r) {
        let p1 = "relationships:"@ + scope_text(scope);
        let p2 = "relationships:"@ + scope_text(r.scope);
        lemma_colon_key_injective(p1, subject, relation, object, p2, r.subject@, r.relation@, r.object@);
        assert(p1.skip(("relationships:"@).len() as int) =~= scope_text(scope));
        assert(p2.skip(("relationships:"@).len() as int) =~= scope_text(r.scope));
    }
    law_add_then_check(recs, r, other, now);
    law_remove_then_check(recs, rel_key(r), other, now);
}

/// The search queue holds distinct nodes, the first being `subject` and the others objects
/// of records, each reached through the chain of records in `chains` and carrying copies of
/// them no more than `max` long.
#[verifier::opaque]
pub open spec fn queue_ok(recs: Seq<(Seq<char>, Relationship)>, q: Seq<(String, Vec<Relationship>)>, chains: Seq<Seq<int>>, subject: Seq<char>, relation: Seq<char>, now: i64, max: usize) -> bool {
    let nodes = queue_nodes(q);
    &&& q.len() > 0
    &&& chains.len() == q.len()
    &&& nodes[0] == subject
    &&& nodes.no_duplicates()
    &&& q.len() <= recs.len() + 1
    &&& forall|k: int| 1 <= k < q.len() ==> exists|j: int| 0 <= j < recs.len() && recs[j].1.object@ == #[trigger] nodes[k]
    &&& forall|k: int| 0 <= k < q.len() ==> #[trigger] leads_to(recs, chains[k], subject, relation, now, nodes[k])
        && copies(recs, chains[k], q[k].1@) && q[k].1@.len() <= max
}

/// The first `head` nodes have been explored.
#[verifier::opaque]
pub open spec fn explored_upto(recs: Seq<(Seq<char>, Relationship)>, nodes: Seq<Seq<char>>, head: int, relation: Seq<char>, object: Seq<char>, now: i64) -> bool {
    forall|k: int| 0 <= k < head ==> explored(recs, #[trigger] nodes[k], relation, object, now, nodes, recs.len() as int)
}

proof fn lemma_queue_ok_facts(recs: Seq<(Seq<char>, Relationship)>, q: Seq<(String, Vec<Relationship>)>, chains: Seq<Seq<int>>, subject: Seq<char>, relation: Seq<char>, now: i64, max: usize, h: int)
    requires
        queue_ok(recs, q, chains, subject, relation, now, max),
        0 <= h < q.len(),
    ensures
        q.len() <= recs.len() + 1,
        chains.len() == q.len(),
        leads_to(recs, chains[h], subject, relation, now, queue_nodes(q)[h]),
        copies(recs, chains[h], q[h].1@),
        q[h].1@.len() <= max,
{
    reveal(queue_ok);
    assert(leads_to(recs, chains[h], subject, relation, now, queue_nodes(q)[h]));
}

proof fn lemma_found(recs: Seq<(Seq<char>, Relationship)>, chain: Seq<int>, j: int, subject: Seq<char>, relation: Seq<char>, object: Seq<char>, now: i64, node: Seq<char>, hq: Seq<Relationship>, path: Seq<Relationship>)
    requires
        leads_to(recs, chain, subject, relation, now, node),
        copies(recs, chain, hq),
        0 <= j < recs.len(),
        recs[j].1.subject@ == node,
        usable(recs[j].1, relation, now),
        recs[j].1.object@ == object,
        path.len() == hq.len() + 1,
        forall|k: int| 0 <= k < hq.len() ==> same_relationship(hq[k], #[trigger] path[k]),
        same_relationship(recs[j].1, path[hq.len() as int]),
    ensures
        is_chain(recs, chain.push(j), subject, relation, object, now),
        copies(recs, chain.push(j), path),
{
    let idx = chain.push(j);
    assert(forall|k: int| 0 <= k < chain.len() ==> idx[k] == chain[k]);
    assert forall|k: int| 0 <= k < idx.len() - 1 implies transitive(recs[#[trigger] idx[k]].1.relation_type)
        && recs[idx[k]].1.object@ == recs[idx[k + 1]].1.subject@ by {
        assert(idx[k] == chain[k]);
        if k + 1 < chain.len() {
            assert(idx[k + 1] == chain[k + 1]);
        }
    }
    assert forall|k: int| 0 <= k < idx.len() implies same_relationship(recs[#[trigger] idx[k]].1, path[k]) by {
        if k < chain.len() {
            assert(same_relationship(recs[chain[k]].1, hq[k]));
            assert(same_relationship(hq[k], path[k]));
        }
    }
}

proof fn lemma_queue_push(recs: Seq<(Seq<char>, Relationship)>, q: Seq<(String, Vec<Relationship>)>, chains: Seq<Seq<int>>, subject: Seq<char>, relation: Seq<char>, now: i64, max: usize, h: int, j: int, e: (String, Vec<Relationship>))
    requires
        queue_ok(recs, q, chains, subject, relation, now, max),
        0 <= h < q.len(),
        q[h].1@.len() < max,
        0 <= j < recs.len(),
        recs[j].1.subject@ == queue_nodes(q)[h],
        usable(recs[j].1, relation, now),
        transitive(recs[j].1.relation_type),
        e.0@ == recs[j].1.object@,
        !queue_nodes(q).contains(e.0@),
        e.1@.len() == q[h].1@.len() + 1,
        forall|k: int| 0 <= k < q[h].1@.len() ==> same_relationship(q[h].1@[k], #[trigger] e.1@[k]),
        same_relationship(recs[j].1, e.1@[q[h].1@.len() as int]),
    ensures
        queue_ok(recs, q.push(e), chains.push(chains[h].push(j)), subject, relation, now, max),
{
    reveal(queue_ok);
    let nodes = queue_nodes(q);
    let q2 = q.push(e);
    let c2 = chains.push(chains[h].push(j));
    let nodes2 = queue_nodes(q2);
    assert(nodes2 =~= nodes.push(e.0@));
    let chain = chains[h];
    assert(leads_to(recs, chain, subject, relation, now, nodes[h]));
    let idx = chain.push(j);
    assert(forall|k: int| 0 <= k < chain.len() ==> idx[k] == chain[k]);
    assert(leads_to(recs, idx, subject, relation, now, e.0@)) by {
        assert forall|k: int| 0 <= k < idx.len() - 1 implies recs[#[trigger] idx[k]].1.object@ == recs[idx[k + 1]].1.subject@ by {
            assert(idx[k] == chain[k]);
            if k + 1 < chain.len() {
                assert(idx[k + 1] == chain[k + 1]);
            }
        }
        if chain.len() > 0 {
            assert(idx[0] == chain[0]);
        }
    }
    assert(copies(recs, idx, e.1@)) by {
        assert forall|k: int| 0 <= k < idx.len() implies same_relationship(recs[#[trigger] idx[k]].1, e.1@[k]) by {
            if k < chain.len() {
                assert(copies(recs, chain, q[h].1@));
                assert(same_relationship(recs[chain[k]].1, q[h].1@[k]));
                assert(same_relationship(q[h].1@[k], e.1@[k]));
            }
        }
    }
    assert forall|k: int| 0 <= k < q2.len() implies #[trigger] leads_to(recs, c2[k], subject, relation, now, nodes2[k])
        && copies(recs, c2[k], q2[k].1@) && q2[k].1@.len() <= max by {
        if k < q.len() {
            assert(leads_to(recs, chains[k], subject, relation, now, nodes[k]));
        }
    }
    assert forall|k: int| 1 <= k < q2.len() implies exists|i: int| 0 <= i < recs.len() && recs[i].1.object@ == #[trigger] nodes2[k] by {
        if k < q.len() {
            assert(nodes2[k] == nodes[k]);
        } else {
            assert(recs[j].1.object@ == nodes2[k]);
        }
    }
    let objs = recs.map_values(|x: (Seq<char>, Relationship)| x.1.object@);
    assert forall|k: int| 1 <= k < nodes2.len() implies objs.contains(#[trigger] nodes2[k]) by {
        let i = choose|i: int| 0 <= i < recs.len() && recs[i].1.object@ == nodes2[k];
        assert(objs[i] == nodes2[k]);
    }
    assert(objs.len() == recs.len());
    lemma_nodes_bound(nodes2, objs);
}

proof fn lemma_explored_push(recs: Seq<(Seq<char>, Relationship)>, nodes: Seq<Seq<char>>, x: Seq<char>, head: int, node: Seq<char>, j: int, relation: Seq<char>, object: Seq<char>, now: i64)
    requires
        explored_upto(recs, nodes, head, relation, object, now),
        explored(recs, node, relation, object, now, nodes, j),
        head < nodes.len(),
    ensures
        explored_upto(recs, nodes.push(x), head, relation, object, now),
        explored(recs, node, relation, object, now, nodes.push(x), j),
{
    reveal(explored_upto);
    let n2 = nodes.push(x);
    assert forall|k: int| 0 <= k < head implies explored(recs, #[trigger] n2[k], relation, object, now, n2, recs.len() as int) by {
        assert(n2[k] == nodes[k]);
        assert(explored(recs, nodes[k], relation, object, now, nodes, recs.len() as int));
        assert forall|i: int| 0 <= i < recs.len() && (#[trigger] recs[i]).1.subject@ == n2[k] && usable(recs[i].1, relation, now)
            && transitive(recs[i].1.relation_type) implies n2.contains(recs[i].1.object@) by {
            let w = choose|w: int| 0 <= w < nodes.len() && nodes[w] == recs[i].1.object@;
            assert(n2[w] == nodes[w]);
        }
    }
    assert forall|i: int| 0 <= i < j && (#[trigger] recs[i]).1.subject@ == node && usable(recs[i].1, relation, now)
        && transitive(recs[i].1.relation_type) implies n2.contains(recs[i].1.object@) by {
        let w = choose|w: int| 0 <= w < nodes.len() && nodes[w] == recs[i].1.object@;
        assert(n2[w] == nodes[w]);
    }
}

proof fn lemma_explored_step(recs: Seq<(Seq<char>, Relationship)>, node: Seq<char>, relation: Seq<char>, object: Seq<char>, now: i64, before: Seq<Seq<char>>, after: Seq<Seq<char>>, j: int)
    requires
        0 <= j < recs.len(),
        explored(recs, node, relation, object, now, after, j),
        before.len() <= after.len(),
        forall|k: int| 0 <= k < before.len() ==> after[k] == before[k],
        (recs[j].1.subject@ == node && usable(recs[j].1, relation, now)) ==> recs[j].1.object@ != object
            && (transitive(recs[j].1.relation_type) ==> before.contains(recs[j].1.object@) || after.contains(recs[j].1.object@)),
    ensures
        explored(recs, node, relation, object, now, after, j + 1),
{
    if recs[j].1.subject@ == node && usable(recs[j].1, relation, now) && transitive(recs[j].1.relation_type)
        && before.contains(recs[j].1.object@) {
        let w = choose|w: int| 0 <= w < before.len() && before[w] == recs[j].1.object@;
        assert(after[w] == before[w]);
    }
}

/// The search queue is laid out by depth: depths never decrease along the queue and stay
/// within one of the head's, each node's depth is its least, every node reached in fewer
/// steps than the head's depth comes before the head, and the nodes before the head are
/// less than `max` deep.
#[verifier::opaque]
pub open spec fn bfs_layers(recs: Seq<(Seq<char>, Relationship)>, nodes: Seq<Seq<char>>, chains: Seq<Seq<int>>, head: int, subject: Seq<char>, relation: Seq<char>, now: i64, max: int) -> bool {
    &&& forall|a: int, b: int| 0 <= a < b < chains.len() ==> (#[trigger] chains[a]).len() <= (#[trigger] chains[b]).len()
    &&& head < chains.len() ==> forall|k: int| 0 <= k < chains.len() ==> (#[trigger] chains[k]).len() <= chains[head].len() + 1
    &&& forall|k: int, idx: Seq<int>| 0 <= k < nodes.len() && #[trigger] leads_to(recs, idx, subject, relation, now, nodes[k])
        ==> idx.len() >= chains[k].len()
    &&& head < chains.len() ==> forall|idx: Seq<int>, x: Seq<char>| #[trigger] leads_to(recs, idx, subject, relation, now, x)
        && idx.len() < chains[head].len() ==> exists|k: int| 0 <= k < head && nodes[k] == x
    &&& forall|k: int| 0 <= k < head ==> (#[trigger] chains[k]).len() < max
}

/// A walk of at least one record ends with a usable transitive record from the node its
/// other records reach.
proof fn lemma_walk_last(recs: Seq<(Seq<char>, Relationship)>, idx: Seq<int>, subject: Seq<char>, relation: Seq<char>, now: i64, x: Seq<char>)
    requires
        leads_to(recs, idx, subject, relation, now, x),
        idx.len() > 0,
    ensures
        0 <= idx.last() < recs.len(),
        usable(recs[idx.last()].1, relation, now),
        transitive(recs[idx.last()].1.relation_type),
        recs[idx.last()].1.object@ == x,
        leads_to(recs, idx.drop_last(), subject, relation, now, recs[idx.last()].1.subject@),
{
    let p = idx.drop_last();
    assert(forall|k: int| 0 <= k < p.len() ==> p[k] == idx[k]);
    assert(0 <= idx[idx.len() - 1] < recs.len());
    if p.len() > 0 {
        assert(recs[idx[idx.len() - 2]].1.object@ == recs[idx[idx.len() - 1]].1.subject@);
        assert forall|k: int| 0 <= k < p.len() - 1 implies recs[#[trigger] p[k]].1.object@ == recs[p[k + 1]].1.subject@ by {
            assert(p[k] == idx[k]);
            assert(p[k + 1] == idx[k + 1]);
        }
    }
}

/// A chain is a walk to the subject of its last record, followed by that record.
proof fn lemma_chain_last(recs: Seq<(Seq<char>, Relationship)>, idx: Seq<int>, subject: Seq<char>, relation: Seq<char>, object: Seq<char>, now: i64)
    requires
        is_chain(recs, idx, subject, relation, object, now),
    ensures
        0 <= idx.last() < recs.len(),
        usable(recs[idx.last()].1, relation, now),
        recs[idx.last()].1.object@ == object,
        leads_to(recs, idx.drop_last(), subject, relation, now, recs[idx.last()].1.subject@),
{
    let p = idx.drop_last();
    assert(forall|k: int| 0 <= k < p.len() ==> p[k] == idx[k]);
    assert(0 <= idx[idx.len() - 1] < recs.len());
    if p.len() > 0 {
        assert(recs[idx[idx.len() - 2]].1.object@ == recs[idx[idx.len() - 1]].1.subject@);
        assert forall|k: int| 0 <= k < p.len() implies 0 <= #[trigger] p[k] < recs.len() && usable(recs[p[k]].1, relation, now)
            && transitive(recs[p[k]].1.relation_type) by {
            assert(p[k] == idx[k]);
        }
        assert forall|k: int| 0 <= k < p.len() - 1 implies recs[#[trigger] p[k]].1.object@ == recs[p[k + 1]].1.subject@ by {
            assert(p[k] == idx[k]);
            assert(p[k + 1] == idx[k + 1]);
        }
    }
}

/// Every node a walk reaches is among explored nodes that include the start.
proof fn lemma_walk_in_nodes(recs: Seq<(Seq<char>, Relationship)>, idx: Seq<int>, subject: Seq<char>, relation: Seq<char>, object: Seq<char>, now: i64, x: Seq<char>, nodes: Seq<Seq<char>>)
    requires
        leads_to(recs, idx, subject, relation, now, x),
        nodes.contains(subject),
        forall|k: int| 0 <= k < nodes.len() ==> explored(recs, #[trigger] nodes[k], relation, object, now, nodes, recs.len() as int),
    ensures
        nodes.contains(x),
    decreases idx.len(),
{
    if idx.len() > 0 {
        lemma_walk_last(recs, idx, subject, relation, now, x);
        let y = recs[idx.last()].1.subject@;
        lemma_walk_in_nodes(recs, idx.drop_last(), subject, relation, object, now, y, nodes);
        let k = choose|k: int| 0 <= k < nodes.len() && nodes[k] == y;
        assert(explored(recs, nodes[k], relation, object, now, nodes, recs.len() as int));
        let i = idx.last();
        assert(0 <= i < recs.len() && recs[i].1.subject@ == nodes[k] && usable(recs[i].1, relation, now));
    }
}

proof fn lemma_layers_init(recs: Seq<(Seq<char>, Relationship)>, subject: Seq<char>, relation: Seq<char>, now: i64, max: int)
    ensures
        bfs_layers(recs, seq![subject], seq![Seq::<int>::empty()], 0, subject, relation, now, max),
{
    reveal(bfs_layers);
}

proof fn lemma_layers_push(
    recs: Seq<(Seq<char>, Relationship)>,
    nodes: Seq<Seq<char>>,
    chains: Seq<Seq<int>>,
    h: int,
    subject: Seq<char>,
    relation: Seq<char>,
    object: Seq<char>,
    now: i64,
    max: int,
    j: int,
)
    requires
        bfs_layers(recs, nodes, chains, h, subject, relation, now, max),
        explored_upto(recs, nodes, h, relation, object, now),
        nodes.len() == chains.len(),
        0 <= h < nodes.len(),
        nodes[0] == subject,
        0 <= j < recs.len(),
        recs[j].1.subject@ == nodes[h],
        usable(recs[j].1, relation, now),
        transitive(recs[j].1.relation_type),
        !nodes.contains(recs[j].1.object@),
    ensures
        bfs_layers(recs, nodes.push(recs[j].1.object@), chains.push(chains[h].push(j)), h, subject, relation, now, max),
{
    reveal(bfs_layers);
    reveal(explored_upto);
    let x = recs[j].1.object@;
    let n2 = nodes.push(x);
    let c2 = chains.push(chains[h].push(j));
    let d = chains[h].len();
    assert(c2[h] == chains[h]);
    assert forall|a: int, b: int| 0 <= a < b < c2.len() implies (#[trigger] c2[a]).len() <= (#[trigger] c2[b]).len() by {
        if b < chains.len() {
            assert(c2[a] == chains[a] && c2[b] == chains[b]);
        } else {
            assert(c2[a] == chains[a]);
            assert(chains[a].len() <= chains[h].len() + 1);
        }
    }
    assert forall|k: int| 0 <= k < c2.len() implies (#[trigger] c2[k]).len() <= c2[h].len() + 1 by {
        if k < chains.len() {
            assert(c2[k] == chains[k]);
        }
    }
    assert forall|k: int, idx: Seq<int>| 0 <= k < n2.len() && #[trigger] leads_to(recs, idx, subject, relation, now, n2[k])
        implies idx.len() >= c2[k].len() by {
        if k < nodes.len() {
            assert(n2[k] == nodes[k] && c2[k] == chains[k]);
        } else {
            assert(n2[k] == x);
            if idx.len() < d {
                let w = choose|w: int| 0 <= w < h && nodes[w] == x;
                assert(nodes.contains(x));
            } else if idx.len() == d {
                if d == 0 {
                    assert(x == subject);
                    assert(nodes[0] == x);
                    assert(nodes.contains(x));
                } else {
                    lemma_walk_last(recs, idx, subject, relation, now, x);
                    let y = recs[idx.last()].1.subject@;
                    assert(leads_to(recs, idx.drop_last(), subject, relation, now, y));
                    let w = choose|w: int| 0 <= w < h && nodes[w] == y;
                    assert(explored(recs, nodes[w], relation, object, now, nodes, recs.len() as int));
                    let i = idx.last();
                    assert(0 <= i < recs.len() && recs[i].1.subject@ == nodes[w] && usable(recs[i].1, relation, now));
                    assert(nodes.contains(x));
                }
            }
        }
    }
    assert forall|idx: Seq<int>, y: Seq<char>| #[trigger] leads_to(recs, idx, subject, relation, now, y)
        && idx.len() < c2[h].len() implies exists|k: int| 0 <= k < h && n2[k] == y by {
        let k = choose|k: int| 0 <= k < h && nodes[k] == y;
        assert(n2[k] == nodes[k]);
    }
    assert forall|k: int| 0 <= k < h implies (#[trigger] c2[k]).len() < max by {
        assert(c2[k] == chains[k]);
    }
}

proof fn lemma_layers_advance(
    recs: Seq<(Seq<char>, Relationship)>,
    nodes: Seq<Seq<char>>,
    chains: Seq<Seq<int>>,
    h: int,
    subject: Seq<char>,
    relation: Seq<char>,
    object: Seq<char>,
    now: i64,
    max: int,
)
    requires
        bfs_layers(recs, nodes, chains, h, subject, relation, now, max),
        explored_upto(recs, nodes, h + 1, relation, object, now),
        nodes.len() == chains.len(),
        0 <= h < nodes.len(),
        nodes[0] == subject,
        chains[h].len() < max,
        forall|k: int| 0 <= k < nodes.len() ==> #[trigger] leads_to(recs, chains[k], subject, relation, now, nodes[k]),
    ensures
        bfs_layers(recs, nodes, chains, h + 1, subject, relation, now, max),
{
    reveal(bfs_layers);
    reveal(explored_upto);
    if h + 1 < chains.len() {
        let d = chains[h].len();
        let d1 = chains[h + 1].len();
        assert(d <= d1);
        assert forall|k: int| 0 <= k < chains.len() implies (#[trigger] chains[k]).len() <= chains[h + 1].len() + 1 by {
            assert(chains[k].len() <= chains[h].len() + 1);
        }
        assert forall|idx: Seq<int>, x: Seq<char>| #[trigger] leads_to(recs, idx, subject, relation, now, x)
            && idx.len() < chains[h + 1].len() implies exists|k: int| 0 <= k < h + 1 && nodes[k] == x by {
            if idx.len() < d {
                let k = choose|k: int| 0 <= k < h && nodes[k] == x;
            } else {
                assert(idx.len() == d);
                if d == 0 {
                    assert(x == subject);
                    assert(nodes[0] == x);
                } else {
                    lemma_walk_last(recs, idx, subject, relation, now, x);
                    let y = recs[idx.last()].1.subject@;
                    assert(leads_to(recs, idx.drop_last(), subject, relation, now, y));
                    let w = choose|w: int| 0 <= w < h && nodes[w] == y;
                    assert(explored(recs, nodes[w], relation, object, now, nodes, recs.len() as int));
                    let i = idx.last();
                    assert(0 <= i < recs.len() && recs[i].1.subject@ == nodes[w] && usable(recs[i].1, relation, now));
                    let p = choose|p: int| 0 <= p < nodes.len() && nodes[p] == x;
                    assert(leads_to(recs, idx, subject, relation, now, nodes[p]));
                    assert(idx.len() >= chains[p].len());
                    if p > h {
                        assert(chains[h + 1].len() <= chains[p].len());
                    }
                }
            }
        }
    }
}

/// A chain found from the head is no longer than any chain.
proof fn lemma_found_shortest(
    recs: Seq<(Seq<char>, Relationship)>,
    nodes: Seq<Seq<char>>,
    chains: Seq<Seq<int>>,
    h: int,
    subject: Seq<char>,
    relation: Seq<char>,
    object: Seq<char>,
    now: i64,
    max: int,
)
    requires
        bfs_layers(recs, nodes, chains, h, subject, relation, now, max),
        explored_upto(recs, nodes, h, relation, object, now),
        0 <= h < nodes.len(),
        nodes.len() == chains.len(),
    ensures
        forall|idx: Seq<int>| #[trigger] is_chain(recs, idx, subject, relation, object, now) ==> idx.len() >= chains[h].len() + 1,
{
    reveal(bfs_layers);
    reveal(explored_upto);
    assert forall|idx: Seq<int>| #[trigger] is_chain(recs, idx, subject, relation, object, now) implies idx.len() >= chains[h].len() + 1 by {
        lemma_chain_last(recs, idx, subject, relation, object, now);
        let y = recs[idx.last()].1.subject@;
        let p = idx.drop_last();
        assert(leads_to(recs, p, subject, relation, now, y));
        if p.len() < chains[h].len() {
            let w = choose|w: int| 0 <= w < h && nodes[w] == y;
            assert(explored(recs, nodes[w], relation, object, now, nodes, recs.len() as int));
            let i = idx.last();
            assert(0 <= i < recs.len() && recs[i].1.subject@ == nodes[w] && usable(recs[i].1, relation, now));
        }
    }
}

/// When the head is `max` deep, no chain is that short, and the head is first reached
/// through exactly `max` records.
proof fn lemma_limit_reached(
    recs: Seq<(Seq<char>, Relationship)>,
    nodes: Seq<Seq<char>>,
    chains: Seq<Seq<int>>,
    h: int,
    subject: Seq<char>,
    relation: Seq<char>,
    object: Seq<char>,
    now: i64,
    max: int,
)
    requires
        bfs_layers(recs, nodes, chains, h, subject, relation, now, max),
        explored_upto(recs, nodes, h, relation, object, now),
        0 <= h < nodes.len(),
        nodes.len() == chains.len(),
        chains[h].len() == max,
        leads_to(recs, chains[h], subject, relation, now, nodes[h]),
    ensures
        forall|idx: Seq<int>| #[trigger] is_chain(recs, idx, subject, relation, object, now) ==> idx.len() > max,
        within(recs, subject, relation, now, nodes[h], max),
        !within(recs, subject, relation, now, nodes[h], max - 1),
{
    lemma_found_shortest(recs, nodes, chains, h, subject, relation, object, now, max);
    reveal(bfs_layers);
    assert(leads_to(recs, chains[h], subject, relation, now, nodes[h]));
    if within(recs, subject, relation, now, nodes[h], max - 1) {
        let idx = choose|idx: Seq<int>| #[trigger] leads_to(recs, idx, subject, relation, now, nodes[h]) && idx.len() <= max - 1;
        assert(idx.len() >= chains[h].len());
    }
}

/// When every node has been explored short of `max` deep, every node reached within `max`
/// records is reached within `max - 1`.
proof fn lemma_search_exhausted(
    recs: Seq<(Seq<char>, Relationship)>,
    nodes: Seq<Seq<char>>,
    chains: Seq<Seq<int>>,
    subject: Seq<char>,
    relation: Seq<char>,
    object: Seq<char>,
    now: i64,
    max: int,
)
    requires
        bfs_layers(recs, nodes, chains, nodes.len() as int, subject, relation, now, max),
        explored_upto(recs, nodes, nodes.len() as int, relation, object, now),
        nodes.len() == chains.len(),
        nodes.len() > 0,
        nodes[0] == subject,
        forall|k: int| 0 <= k < nodes.len() ==> #[trigger] leads_to(recs, chains[k], subject, relation, now, nodes[k]),
    ensures
        forall|x: Seq<char>| #[trigger] within(recs, subject, relation, now, x, max) ==> within(recs, subject, relation, now, x, max - 1),
{
    reveal(bfs_layers);
    reveal(explored_upto);
    assert forall|x: Seq<char>| #[trigger] within(recs, subject, relation, now, x, max) implies within(recs, subject, relation, now, x, max - 1) by {
        let idx = choose|idx: Seq<int>| #[trigger] leads_to(recs, idx, subject, relation, now, x) && idx.len() <= max;
        assert(nodes.contains(subject)) by { assert(nodes[0] == subject); }
        lemma_walk_in_nodes(recs, idx, subject, relation, object, now, x, nodes);
        let p = choose|p: int| 0 <= p < nodes.len() && nodes[p] == x;
        assert(chains[p].len() < max);
        assert(leads_to(recs, chains[p], subject, relation, now, nodes[p]));
    }
}

proof fn lemma_queue_ok_all(recs: Seq<(Seq<char>, Relationship)>, q: Seq<(String, Vec<Relationship>)>, chains: Seq<Seq<int>>, subject: Seq<char>, relation: Seq<char>, now: i64, max: usize)
    requires
        queue_ok(recs, q, chains, subject, relation, now, max),
    ensures
        chains.len() == q.len(),
        queue_nodes(q).len() == q.len(),
        q.len() > 0,
        queue_nodes(q)[0] == subject,
        forall|k: int| 0 <= k < q.len() ==> #[trigger] leads_to(recs, chains[k], subject, relation, now, queue_nodes(q)[k]),
        forall|k: int| 0 <= k < q.len() ==> chains[k].len() == (#[trigger] q[k]).1@.len() && q[k].1@.len() <= max,
{
    reveal(queue_ok);
    assert forall|k: int| 0 <= k < q.len() implies chains[k].len() == (#[trigger] q[k]).1@.len() && q[k].1@.len() <= max by {
        assert(leads_to(recs, chains[k], subject, relation, now, queue_nodes(q)[k]));
    }
}

/// A record from the head to `object` completes a shortest chain.
proof fn lemma_found_result(
    recs: Seq<(Seq<char>, Relationship)>,
    q: Seq<(String, Vec<Relationship>)>,
    chains: Seq<Seq<int>>,
    h: int,
    subject: Seq<char>,
    relation: Seq<char>,
    object: Seq<char>,
    now: i64,
    max: usize,
    j: int,
    found: RelationshipPath,
)
    requires
        queue_ok(recs, q, chains, subject, relation, now, max),
        explored_upto(recs, queue_nodes(q), h, relation, object, now),
        bfs_layers(recs, queue_nodes(q), chains, h, subject, relation, now, max as int),
        0 <= h < q.len(),
        q[h].1@.len() < max,
        0 <= j < recs.len(),
        recs[j].1.subject@ == queue_nodes(q)[h],
        usable(recs[j].1, relation, now),
        recs[j].1.object@ == object,
        found.path@.len() == q[h].1@.len() + 1,
        forall|k: int| 0 <= k < q[h].1@.len() ==> same_relationship(q[h].1@[k], #[trigger] found.path@[k]),
        same_relationship(recs[j].1, found.path@[q[h].1@.len() as int]),
        found.depth == found.path@.len(),
    ensures
        search_result(recs, subject, relation, object, now, max, Ok(Some(found))),
{
    lemma_queue_ok_facts(recs, q, chains, subject, relation, now, max, h);
    lemma_queue_ok_all(recs, q, chains, subject, relation, now, max);
    lemma_found(recs, chains[h], j, subject, relation, object, now, queue_nodes(q)[h], q[h].1@, found.path@);
    lemma_found_shortest(recs, queue_nodes(q), chains, h, subject, relation, object, now, max as int);
    assert(chains[h].len() == q[h].1@.len());
}

} // verus!
