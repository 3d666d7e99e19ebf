//! Approval records and their store: which identity may perform which action on which
//! resource, granted by whom, until when, within which scope.
//!
//! The store keeps its records ordered by key, the key of a record being
//! `approvals:{scope}:{identity}:{resource}:{action}`; prefix scans follow that order.

use vstd::prelude::*;
use crate::attrs::{lookup, StrMap};
use crate::clock::{now_timestamp, utc_display, utc_text};
use crate::kv::{lemma_put_sorted, lemma_remove_sorted, put_sorted, rank, remove_sorted, run_end, sorted, SortedMap};
use crate::text::{
    append_i64, append_joined, append_str, colon_free, int_text, lemma_colon_key_injective, lemma_split_last_colon, has_prefix, join_with, owned, str_eq, strings_chars,
};

verus! {

/// Scope defines the isolation boundary for data.
#[derive(Debug, PartialEq, Eq, Hash)]
pub enum Scope {
    /// Global scope - accessible across all tenants (use sparingly)
    Global,
    /// Tenant-specific scope
    Tenant(String),
    /// Environment-specific scope (dev, staging, prod)
    Environment(String),
    /// Tenant + Environment combination (most common)
    TenantEnvironment { tenant: String, environment: String },
    /// Custom scope with hierarchical path
    Custom(Vec<String>),
}

/// The text of a scope in storage keys.
pub open spec fn scope_text(s: Scope) -> Seq<char> {
    match s {
        Scope::Global => "global"@,
        Scope::Tenant(t) => "tenant:"@ + t@,
        Scope::Environment(e) => "env:"@ + e@,
        Scope::TenantEnvironment { tenant, environment } => "tenant:"@ + tenant@ + ":env:"@ + environment@,
        Scope::Custom(parts) => "custom:"@ + join_with(strings_chars(parts@), ':'),
    }
}

impl Clone for Scope {
    fn clone(&self) -> (c: Self)
        ensures
            scope_text(c) == scope_text(*self),
            same_scope(*self, c),
            !(*self is Custom) ==> c == *self,
    {
        match self {
            Scope::Global => Scope::Global,
            Scope::Tenant(t) => Scope::Tenant(t.clone()),
            Scope::Environment(e) => Scope::Environment(e.clone()),
            Scope::TenantEnvironment { tenant, environment } => Scope::TenantEnvironment {
                tenant: tenant.clone(),
                environment: environment.clone(),
            },
            Scope::Custom(parts) => {
                let p = parts.clone();
                assert(strings_chars(p@) =~= strings_chars(parts@));
                Scope::Custom(p)
            },
        }
    }
}

impl Default for Scope {
    fn default() -> (s: Self)
        ensures
            s == Scope::Global,
    {
        Scope::Global
    }
}

impl Scope {
    /// A tenant scope.
    pub fn tenant(tenant: &str) -> (s: Self)
        ensures
            s matches Scope::Tenant(t) && t@ == tenant@,
    {
        Scope::Tenant(owned(tenant))
    }

    /// An environment scope.
    pub fn env(environment: &str) -> (s: Self)
        ensures
            s matches Scope::Environment(e) && e@ == environment@,
    {
        Scope::Environment(owned(environment))
    }

    /// A tenant and environment scope.
    pub fn tenant_env(tenant: &str, environment: &str) -> (s: Self)
        ensures
            s matches Scope::TenantEnvironment { tenant: t, environment: e } && t@ == tenant@ && e@ == environment@,
    {
        Scope::TenantEnvironment { tenant: owned(tenant), environment: owned(environment) }
    }

    /// Encode the scope as text for storage keys.
    pub fn encode(&self) -> (s: String)
        ensures
            s@ == scope_text(*self),
    {
        let mut out = String::new();
        match self {
            Scope::Global => append_str(&mut out, "global"),
            Scope::Tenant(t) => {
                append_str(&mut out, "tenant:");
                append_str(&mut out, t.as_str());
            },
            Scope::Environment(e) => {
                append_str(&mut out, "env:");
                append_str(&mut out, e.as_str());
            },
            Scope::TenantEnvironment { tenant, environment } => {
                append_str(&mut out, "tenant:");
                append_str(&mut out, tenant.as_str());
                append_str(&mut out, ":env:");
                append_str(&mut out, environment.as_str());
            },
            Scope::Custom(parts) => {
                append_str(&mut out, "custom:");
                append_joined(&mut out, parts, ':');
            },
        }
        out
    }
}

/// TTL configuration for automatic cleanup.
#[derive(Debug, Clone, Copy, PartialEq, Eq, Structural)]
pub struct TTLConfig {
    pub default_ttl_seconds: Option<i64>,
    pub min_ttl_seconds: i64,
    pub max_ttl_seconds: i64,
    pub enforce_ttl: bool,
}

impl Default for TTLConfig {
    fn default() -> (c: Self)
        ensures
            c == (TTLConfig {
                default_ttl_seconds: None,
                min_ttl_seconds: 60i64,
                max_ttl_seconds: 31536000i64,
                enforce_ttl: true,
            }),
    {
        TTLConfig { default_ttl_seconds: None, min_ttl_seconds: 60, max_ttl_seconds: 365 * 24 * 3600, enforce_ttl: true }
    }
}

impl TTLConfig {
    /// One hour by default, between a minute and a day.
    pub fn temporary() -> (c: Self)
        ensures
            c == (TTLConfig {
                default_ttl_seconds: Some(3600i64),
                min_ttl_seconds: 60i64,
                max_ttl_seconds: 86400i64,
                enforce_ttl: true,
            }),
    {
        TTLConfig { default_ttl_seconds: Some(3600), min_ttl_seconds: 60, max_ttl_seconds: 24 * 3600, enforce_ttl: true }
    }

    /// One day by default, between an hour and a week.
    pub fn short_lived() -> (c: Self)
        ensures
            c == (TTLConfig {
                default_ttl_seconds: Some(86400i64),
                min_ttl_seconds: 3600i64,
                max_ttl_seconds: 604800i64,
                enforce_ttl: true,
            }),
    {
        TTLConfig {
            default_ttl_seconds: Some(24 * 3600),
            min_ttl_seconds: 3600,
            max_ttl_seconds: 7 * 24 * 3600,
            enforce_ttl: true,
        }
    }

    /// Thirty days by default, between a day and a year.
    pub fn long_lived() -> (c: Self)
        ensures
            c == (TTLConfig {
                default_ttl_seconds: Some(2592000i64),
                min_ttl_seconds: 86400i64,
                max_ttl_seconds: 31536000i64,
                enforce_ttl: true,
            }),
    {
        TTLConfig {
            default_ttl_seconds: Some(30 * 24 * 3600),
            min_ttl_seconds: 24 * 3600,
            max_ttl_seconds: 365 * 24 * 3600,
            enforce_ttl: true,
        }
    }
}

/// The key prefix of the approvals of `identity` whose resource and action begin with
/// `pattern`, in `scope`.
pub open spec fn set_prefix_text(scope: Scope, identity: Seq<char>, pattern: Seq<char>) -> Seq<char> {
    "approvals:"@ + scope_text(scope) + ":"@ + identity + ":"@ + pattern
}

/// Some stored approval whose key begins with `p` has not expired at time `now`.
pub open spec fn in_approved_set(records: Seq<(Seq<char>, Approval)>, p: Seq<char>, now: i64) -> bool {
    exists|i: int| 0 <= i < records.len() && #[trigger] has_prefix(records[i].0, p)
        && !expired_at(records[i].1.expires_at, now)
}

/// What holds of a set-membership check made at an unknown time: the answer is that of
/// `in_approved_set` at some time of the clock's range, so a matching approval that never
/// expires gives `true`, and `true` needs some matching approval.
pub open spec fn set_check_holds(records: Seq<(Seq<char>, Approval)>, p: Seq<char>, b: bool) -> bool {
    &&& exists|now: i64| 0 <= now < 10_000_000_000_000i64 && b == #[trigger] in_approved_set(records, p, now)
    &&& (exists|i: int| 0 <= i < records.len() && #[trigger] has_prefix(records[i].0, p)
        && records[i].1.expires_at is None) ==> b
    &&& b ==> exists|i: int| 0 <= i < records.len() && #[trigger] has_prefix(records[i].0, p)
}

proof fn lemma_set_check(records: Seq<(Seq<char>, Approval)>, p: Seq<char>, now: i64)
    requires
        0 <= now < 10_000_000_000_000i64,
    ensures
        set_check_holds(records, p, in_approved_set(records, p, now)),
{
    if exists|i: int| 0 <= i < records.len() && #[trigger] has_prefix(records[i].0, p)
        && records[i].1.expires_at is None {
        let i = choose|i: int| 0 <= i < records.len() && #[trigger] has_prefix(records[i].0, p)
            && records[i].1.expires_at is None;
        assert(!expired_at(records[i].1.expires_at, now));
    }
}

/// `a` with the TTL `ttl_seconds` set at time `now`: it expires `ttl_seconds` after `now`.
pub open spec fn ttl_set(a: Approval, ttl_seconds: i64, now: i64) -> Approval {
    Approval { ttl_seconds: Some(ttl_seconds), expires_at: Some((now + ttl_seconds) as i64), ..a }
}

/// `a` set at time `now` to expire `seconds` later.
pub open spec fn expiry_set(a: Approval, seconds: i64, now: i64) -> Approval {
    Approval { expires_at: Some((now + seconds) as i64), ..a }
}

/// Errors of the approval store.
#[derive(Debug, PartialEq)]
pub enum ApprovalError {
    DatabaseError(String),
    SerializationError(String),
    NotFound { identity: String, resource: String, action: String },
    /// Expired at the given Unix time, in seconds
    Expired { expired_at: i64 },
    InvalidApproval(String),
    IoError(String),
}

/// An expiry time as chrono writes its UTC date, or as the number of seconds where chrono
/// has no such date.
pub open spec fn expiry_text(t: i64) -> Seq<char> {
    match utc_display(t) {
        Some(s) => s,
        None => int_text(t as int),
    }
}

/// The message of an approval error.
pub open spec fn approval_error_text(e: ApprovalError) -> Seq<char> {
    match e {
        ApprovalError::DatabaseError(m) => "Database error: "@ + m@,
        ApprovalError::SerializationError(m) => "Serialization error: "@ + m@,
        ApprovalError::NotFound { identity, resource, action } =>
            "Approval not found: "@ + identity@ + ":"@ + resource@ + ":"@ + action@,
        ApprovalError::Expired { expired_at } => "Approval expired at "@ + expiry_text(expired_at),
        ApprovalError::InvalidApproval(m) => "Invalid approval: "@ + m@,
        ApprovalError::IoError(m) => "IO error: "@ + m@,
    }
}

impl ApprovalError {
    /// The error message; an expiry time is written as its UTC date.
    pub fn to_string(&self) -> (s: String)
        ensures
            s@ == approval_error_text(*self),
    {
        let mut out = String::new();
        match self {
            ApprovalError::DatabaseError(m) => {
                append_str(&mut out, "Database error: ");
                append_str(&mut out, m.as_str());
            },
            ApprovalError::SerializationError(m) => {
                append_str(&mut out, "Serialization error: ");
                append_str(&mut out, m.as_str());
            },
            ApprovalError::NotFound { identity, resource, action } => {
                append_str(&mut out, "Approval not found: ");
                append_str(&mut out, identity.as_str());
                append_str(&mut out, ":");
                append_str(&mut out, resource.as_str());
                append_str(&mut out, ":");
                append_str(&mut out, action.as_str());
            },
            ApprovalError::Expired { expired_at } => {
                append_str(&mut out, "Approval expired at ");
                match utc_text(*expired_at) {
                    Some(d) => append_str(&mut out, d.as_str()),
                    None => append_i64(&mut out, *expired_at),
                }
            },
            ApprovalError::InvalidApproval(m) => {
                append_str(&mut out, "Invalid approval: ");
                append_str(&mut out, m.as_str());
            },
            ApprovalError::IoError(m) => {
                append_str(&mut out, "IO error: ");
                append_str(&mut out, m.as_str());
            },
        }
        out
    }
}

/// Whether a record with the given expiry has expired at time `now`.
pub open spec fn expired_at(expires_at: Option<i64>, now: i64) -> bool {
    match expires_at {
        Some(e) => now >= e,
        None => false,
    }
}

/// Largest number of seconds that can be added to the current time without overflow.
pub const MAX_OFFSET_SECONDS: i64 = 9_223_362_036_854_775_807i64;

/// Approval record representing authorization granted by a privileged entity.
#[derive(Debug)]
pub struct Approval {
    /// Principal identifier (service account, bot ID, user)
    pub identity: String,
    /// URL or resource pattern
    pub resource: String,
    /// HTTP method or action type
    pub action: String,
    /// Privileged identity that granted this approval
    pub granted_by: String,
    /// When this approval was granted (Unix timestamp)
    pub granted_at: i64,
    /// Optional expiration time (Unix timestamp)
    pub expires_at: Option<i64>,
    /// Additional context (e.g., justification, ticket ID)
    pub metadata: StrMap<String>,
    /// Scope for multi-tenant isolation
    pub scope: Scope,
    /// TTL in seconds for automatic cleanup
    pub ttl_seconds: Option<i64>,
}

/// `b` records the same approval as `a`: same strings, times, scope and metadata keys.
pub open spec fn same_approval(a: Approval, b: Approval) -> bool {
    &&& b.identity@ == a.identity@
    &&& b.resource@ == a.resource@
    &&& b.action@ == a.action@
    &&& b.granted_by@ == a.granted_by@
    &&& b.granted_at == a.granted_at
    &&& b.expires_at == a.expires_at
    &&& b.ttl_seconds == a.ttl_seconds
    &&& scope_text(b.scope) == scope_text(a.scope)
    &&& b.metadata.entries().len() == a.metadata.entries().len()
    &&& forall|i: int| 0 <= i < a.metadata.entries().len() ==> #[trigger] b.metadata.entries()[i].0 == a.metadata.entries()[i].0
}

/// The storage key of an approval.
pub open spec fn approval_key(scope: Seq<char>, identity: Seq<char>, resource: Seq<char>, action: Seq<char>) -> Seq<char> {
    "approvals:"@ + scope + ":"@ + identity + ":"@ + resource + ":"@ + action
}

/// The storage key of an approval record.
pub open spec fn record_key(a: Approval) -> Seq<char> {
    approval_key(scope_text(a.scope), a.identity@, a.resource@, a.action@)
}

impl Clone for Approval {
    fn clone(&self) -> (c: Self)
        ensures
            same_approval(*self, c),
    {
        Approval {
            identity: self.identity.clone(),
            resource: self.resource.clone(),
            action: self.action.clone(),
            granted_by: self.granted_by.clone(),
            granted_at: self.granted_at,
            expires_at: self.expires_at,
            metadata: self.metadata.clone_map(),
            scope: self.scope.clone(),
            ttl_seconds: self.ttl_seconds,
        }
    }
}

impl Approval {
    /// A global approval without expiry or metadata, granted now.
    pub fn new(identity: &str, resource: &str, action: &str, granted_by: &str) -> (a: Self)
        ensures
            a.identity@ == identity@,
            a.resource@ == resource@,
            a.action@ == action@,
            a.granted_by@ == granted_by@,
            0 <= a.granted_at,
            a.expires_at is None,
            a.metadata.entries().len() == 0,
            a.scope == Scope::Global,
            a.ttl_seconds is None,
    {
        Approval {
            identity: owned(identity),
            resource: owned(resource),
            action: owned(action),
            granted_by: owned(granted_by),
            granted_at: now_timestamp(),
            expires_at: None,
            metadata: StrMap::new(),
            scope: Scope::Global,
            ttl_seconds: None,
        }
    }

    /// Set the scope.
    pub fn with_scope(self, scope: Scope) -> (a: Self)
        ensures
            a == (Approval { scope, ..self }),
    {
        let mut a = self;
        a.scope = scope;
        a
    }

    /// Set the TTL at time `now`: the approval then expires `ttl_seconds` after `now`.
    pub fn with_ttl_at(self, ttl_seconds: i64, now: i64) -> (a: Self)
        requires
            i64::MIN <= now + ttl_seconds <= i64::MAX,
        ensures
            a == ttl_set(self, ttl_seconds, now),
    {
        let mut a = self;
        a.ttl_seconds = Some(ttl_seconds);
        a.expires_at = Some(now + ttl_seconds);
        a
    }

    /// Set the TTL; the approval then expires `ttl_seconds` from now.
    pub fn with_ttl(self, ttl_seconds: i64) -> (a: Self)
        requires
            ttl_seconds <= MAX_OFFSET_SECONDS,
        ensures
            a.ttl_seconds == Some(ttl_seconds),
            a.expires_at matches Some(e) && ttl_seconds <= e < ttl_seconds + 10_000_000_000_000,
            a == (Approval { ttl_seconds: a.ttl_seconds, expires_at: a.expires_at, ..self }),
            exists|now: i64| 0 <= now < 10_000_000_000_000i64
                && a == #[trigger] ttl_set(self, ttl_seconds, now),
    {
        let now = now_timestamp();
        self.with_ttl_at(ttl_seconds, now)
    }

    /// Set the expiry to `seconds` after time `now`.
    pub fn with_expiration_at(self, seconds: i64, now: i64) -> (a: Self)
        requires
            i64::MIN <= now + seconds <= i64::MAX,
        ensures
            a == expiry_set(self, seconds, now),
    {
        let mut a = self;
        a.expires_at = Some(now + seconds);
        a
    }

    /// Set the expiry to `seconds` from now.
    pub fn with_expiration(self, seconds: i64) -> (a: Self)
        requires
            seconds <= MAX_OFFSET_SECONDS,
        ensures
            a.expires_at matches Some(e) && seconds <= e < seconds + 10_000_000_000_000,
            a == (Approval { expires_at: a.expires_at, ..self }),
            exists|now: i64| 0 <= now < 10_000_000_000_000i64
                && a == #[trigger] expiry_set(self, seconds, now),
    {
        let now = now_timestamp();
        self.with_expiration_at(seconds, now)
    }

    /// Add a metadata entry, replacing any value under the same key.
    pub fn with_metadata(self, key: &str, value: &str) -> (a: Self)
        ensures
            exists|v: String| v@ == value@ && a.metadata.entries() == crate::attrs::store(self.metadata.entries(), key@, v),
            a == (Approval { metadata: a.metadata, ..self }),
    {
        let mut a = self;
        let v = owned(value);
        let ghost gv = v;
        a.metadata.insert(owned(key), v);
        assert(gv@ == value@);
        a
    }

    /// Whether the approval has expired at time `now`.
    pub fn is_expired_at(&self, now: i64) -> (b: bool)
        ensures
            b == expired_at(self.expires_at, now),
    {
        match self.expires_at {
            Some(e) => now >= e,
            None => false,
        }
    }

    /// Whether the approval has expired, by the current time.
    pub fn is_expired(&self) -> (b: bool)
        ensures
            self.expires_at is None ==> !b,
            self.expires_at matches Some(e) && e <= 0 ==> b,
            self.expires_at matches Some(e) && e >= 10_000_000_000_000 ==> !b,
    {
        let now = now_timestamp();
        self.is_expired_at(now)
    }

    /// The storage key: `approvals:{scope}:{identity}:{resource}:{action}`.
    pub fn key(&self) -> (k: String)
        ensures
            k@ == record_key(*self),
    {
        let s = self.scope.encode();
        key_of(s.as_str(), self.identity.as_str(), self.resource.as_str(), self.action.as_str())
    }
}

fn key_of(scope: &str, identity: &str, resource: &str, action: &str) -> (k: String)
    ensures
        k@ == approval_key(scope@, identity@, resource@, action@),
{
    let mut k = owned("approvals:");
    append_str(&mut k, scope);
    append_str(&mut k, ":");
    append_str(&mut k, identity);
    append_str(&mut k, ":");
    append_str(&mut k, resource);
    append_str(&mut k, ":");
    append_str(&mut k, action);
    k
}

/// A request for checking one approval in a batch.
#[derive(Debug, Clone)]
pub struct ApprovalCheck {
    pub identity: String,
    pub resource: String,
    pub action: String,
}

impl ApprovalCheck {
    /// A check of `action` on `resource` by `identity`.
    pub fn new(identity: &str, resource: &str, action: &str) -> (c: Self)
        ensures
            c.identity@ == identity@,
            c.resource@ == resource@,
            c.action@ == action@,
    {
        ApprovalCheck { identity: owned(identity), resource: owned(resource), action: owned(action) }
    }
}

/// Whether the records hold an unexpired approval under `key` at time `now`.
pub open spec fn approved_at(records: Seq<(Seq<char>, Approval)>, key: Seq<char>, now: i64) -> bool {
    match lookup(records, key) {
        Some(a) => !expired_at(a.expires_at, now),
        None => false,
    }
}

/// What holds of an approval check made at an unknown time: a missing record is not approved;
/// a record without expiry is; one that expired before the epoch is not, nor is one
/// approved past the end of the clock's range.
pub open spec fn approval_check_holds(records: Seq<(Seq<char>, Approval)>, key: Seq<char>, b: bool) -> bool {
    &&& lookup(records, key) is None ==> !b
    &&& (lookup(records, key) matches Some(a) && a.expires_at is None) ==> b
    &&& (lookup(records, key) matches Some(a) && a.expires_at matches Some(e) && e <= 0) ==> !b
    &&& (lookup(records, key) matches Some(a) && a.expires_at matches Some(e) && e >= 10_000_000_000_000) ==> b
}

/// The validation error of an approval, if any: identity, resource and action must be nonempty.
pub open spec fn approval_invalid(a: Approval) -> Option<Seq<char>> {
    if a.identity@.len() == 0 {
        Some("identity cannot be empty"@)
    } else if a.resource@.len() == 0 {
        Some("resource cannot be empty"@)
    } else if a.action@.len() == 0 {
        Some("action cannot be empty"@)
    } else {
        None
    }
}

/// The records of a run of keys that all begin with `prefix`, starting at the first key not
/// before `prefix`, in key order.
pub open spec fn prefix_records(records: Seq<(Seq<char>, Approval)>, prefix: Seq<char>) -> Seq<Approval> {
    let i = rank(records, prefix);
    records.subrange(i, run_end(records, i, prefix)).map_values(|e: (Seq<char>, Approval)| e.1)
}

/// In-memory approval store, ordered by storage key.
#[derive(Debug, Clone)]
pub struct ApprovalStore {
    records: SortedMap<Approval>,
}

impl ApprovalStore {
    /// The records with their keys, in key order.
    pub closed spec fn records(&self) -> Seq<(Seq<char>, Approval)> {
        self.records.entries()
    }

    /// An empty store.
    pub fn new() -> (s: Self)
        ensures
            s.records() == Seq::<(Seq<char>, Approval)>::empty(),
    {
        ApprovalStore { records: SortedMap::new() }
    }

    /// An empty store for tests; it always succeeds.
    pub fn new_temp() -> (r: Result<Self, ApprovalError>)
        ensures
            r matches Ok(s) && s.records() == Seq::<(Seq<char>, Approval)>::empty(),
    {
        Ok(ApprovalStore::new())
    }

    /// Write an approval under its key, replacing any approval there; identity, resource and
    /// action must be nonempty.
    pub fn grant_approval(&mut self, approval: Approval) -> (r: Result<(), ApprovalError>)
        ensures
            match approval_invalid(approval) {
                Some(m) => r matches Err(ApprovalError::InvalidApproval(msg)) && msg@ == m
                    && final(self).records() == old(self).records(),
                None => r is Ok
                    && final(self).records() == put_sorted(old(self).records(), record_key(approval), approval),
            },
    {
        if approval.identity.unicode_len() == 0 {
            return Err(ApprovalError::InvalidApproval(owned("identity cannot be empty")));
        }
        if approval.resource.unicode_len() == 0 {
            return Err(ApprovalError::InvalidApproval(owned("resource cannot be empty")));
        }
        if approval.action.unicode_len() == 0 {
            return Err(ApprovalError::InvalidApproval(owned("action cannot be empty")));
        }
        let key = approval.key();
        self.records.put(key, approval);
        Ok(())
    }

    /// The approval of `identity` for `action` on `resource` in `scope`.
    pub fn get_approval_in_scope(&self, identity: &str, resource: &str, action: &str, scope: &Scope) -> (r: Result<Option<Approval>, ApprovalError>)
        ensures
            r matches Ok(found) && match lookup(self.records(), approval_key(scope_text(*scope), identity@, resource@, action@)) {
                Some(a) => found matches Some(c) && same_approval(a, c),
                None => found is None,
            },
    {
        let s = scope.encode();
        let key = key_of(s.as_str(), identity, resource, action);
        match self.records.get(key.as_str()) {
            Some(a) => Ok(Some(a.clone())),
            None => Ok(None),
        }
    }

    /// The global approval of `identity` for `action` on `resource`.
    pub fn get_approval(&self, identity: &str, resource: &str, action: &str) -> (r: Result<Option<Approval>, ApprovalError>)
        ensures
            r matches Ok(found) && match lookup(self.records(), approval_key("global"@, identity@, resource@, action@)) {
                Some(a) => found matches Some(c) && same_approval(a, c),
                None => found is None,
            },
    {
        self.get_approval_in_scope(identity, resource, action, &Scope::Global)
    }

    /// Whether an unexpired approval exists in `scope` at time `now`.
    pub fn has_approval_at(&self, identity: &str, resource: &str, action: &str, scope: &Scope, now: i64) -> (b: bool)
        ensures
            b == approved_at(self.records(), approval_key(scope_text(*scope), identity@, resource@, action@), now),
    {
        let s = scope.encode();
        let key = key_of(s.as_str(), identity, resource, action);
        match self.records.get(key.as_str()) {
            Some(a) => !a.is_expired_at(now),
            None => false,
        }
    }

    /// Whether an unexpired approval exists in `scope`, by the current time.
    pub fn has_approval_in_scope(&self, identity: &str, resource: &str, action: &str, scope: &Scope) -> (r: Result<bool, ApprovalError>)
        ensures
            r matches Ok(b) && approval_check_holds(self.records(), approval_key(scope_text(*scope), identity@, resource@, action@), b),
    {
        let now = now_timestamp();
        Ok(self.has_approval_at(identity, resource, action, scope, now))
    }

    /// Whether an unexpired global approval exists, by the current time.
    pub fn has_approval(&self, identity: &str, resource: &str, action: &str) -> (r: Result<bool, ApprovalError>)
        ensures
            r matches Ok(b) && approval_check_holds(self.records(), approval_key("global"@, identity@, resource@, action@), b),
    {
        self.has_approval_in_scope(identity, resource, action, &Scope::Global)
    }

    /// Remove the approval in `scope`, if any.
    pub fn revoke_approval_in_scope(&mut self, identity: &str, resource: &str, action: &str, scope: &Scope) -> (r: Result<(), ApprovalError>)
        ensures
            r is Ok,
            final(self).records() == remove_sorted(old(self).records(), approval_key(scope_text(*scope), identity@, resource@, action@)),
    {
        let s = scope.encode();
        let key = key_of(s.as_str(), identity, resource, action);
        self.records.remove(key.as_str());
        Ok(())
    }

    /// Remove the global approval, if any.
    pub fn revoke_approval(&mut self, identity: &str, resource: &str, action: &str) -> (r: Result<(), ApprovalError>)
        ensures
            r is Ok,
            final(self).records() == remove_sorted(old(self).records(), approval_key("global"@, identity@, resource@, action@)),
    {
        self.revoke_approval_in_scope(identity, resource, action, &Scope::Global)
    }

    /// Whether `identity` is in the approved set for `resource_pattern` in `scope` at time
    /// `now`: some stored approval whose key begins with the prefix of the identity and the
    /// pattern has not expired at `now`.
    pub fn is_in_approved_set_at(&self, identity: &str, resource_pattern: &str, scope: &Scope, now: i64) -> (b: bool)
        ensures
            b == in_approved_set(self.records(), set_prefix_text(*scope, identity@, resource_pattern@), now),
    {
        let prefix = self.set_prefix(identity, resource_pattern, scope);
        let ghost p = prefix@;
        let ghost recs = self.records();
        let n = self.records.len();
        let mut i: usize = 0;
        while i < n
            invariant
                recs == self.records(),
                n == recs.len(),
                p == set_prefix_text(*scope, identity@, resource_pattern@),
                p == prefix@,
                i <= n,
                forall|k: int| 0 <= k < i ==> !(has_prefix(#[trigger] recs[k].0, p)
                    && !expired_at(recs[k].1.expires_at, now)),
            decreases n - i,
        {
            let matches = crate::text::str_starts_with(self.records.key_at(i).as_str(), prefix.as_str());
            let live = !self.records.value_at(i).is_expired_at(now);
            proof {
                assert(matches == has_prefix(recs[i as int].0, p));
                assert(live == !expired_at(recs[i as int].1.expires_at, now));
            }
            if matches && live {
                return true;
            }
            i = i + 1;
        }
        false
    }

    fn set_prefix(&self, identity: &str, resource_pattern: &str, scope: &Scope) -> (p: String)
        ensures
            p@ == set_prefix_text(*scope, identity@, resource_pattern@),
    {
        let s = scope.encode();
        let mut p = owned("approvals:");
        append_str(&mut p, s.as_str());
        append_str(&mut p, ":");
        append_str(&mut p, identity);
        append_str(&mut p, ":");
        append_str(&mut p, resource_pattern);
        p
    }

    /// Set membership in `scope`, by the current time: whether some stored approval whose key
    /// begins with the prefix of the identity and the pattern has not expired.
    pub fn is_in_approved_set_in_scope(&self, identity: &str, resource_pattern: &str, scope: &Scope) -> (r: Result<bool, ApprovalError>)
        ensures
            r matches Ok(b) && set_check_holds(self.records(), set_prefix_text(*scope, identity@, resource_pattern@), b),
    {
        let now = now_timestamp();
        let b = self.is_in_approved_set_at(identity, resource_pattern, scope, now);
        proof {
            lemma_set_check(self.records(), set_prefix_text(*scope, identity@, resource_pattern@), now);
        }
        Ok(b)
    }

    /// Set membership in the global scope, by the current time.
    pub fn is_in_approved_set(&self, identity: &str, resource_pattern: &str) -> (r: Result<bool, ApprovalError>)
        ensures
            r matches Ok(b) && set_check_holds(self.records(), set_prefix_text(Scope::Global, identity@, resource_pattern@), b),
    {
        self.is_in_approved_set_in_scope(identity, resource_pattern, &Scope::Global)
    }

    /// Check each request against the global scope, by the current time.
    pub fn check_approvals(&self, checks: Vec<ApprovalCheck>) -> (r: Result<Vec<bool>, ApprovalError>)
        ensures
            r matches Ok(v) && v@.len() == checks@.len() && forall|i: int| 0 <= i < checks@.len() ==>
                approval_check_holds(self.records(), approval_key("global"@, checks@[i].identity@, checks@[i].resource@, checks@[i].action@), #[trigger] v@[i]),
    {
        let mut out: Vec<bool> = Vec::new();
        let mut i: usize = 0;
        while i < checks.len()
            invariant
                i <= checks@.len(),
                out@.len() == i,
                forall|j: int| 0 <= j < i ==>
                    approval_check_holds(self.records(), approval_key("global"@, checks@[j].identity@, checks@[j].resource@, checks@[j].action@), #[trigger] out@[j]),
            decreases checks@.len() - i,
        {
            let c = &checks[i];
            match self.has_approval(c.identity.as_str(), c.resource.as_str(), c.action.as_str()) {
                Ok(b) => out.push(b),
                Err(e) => { return Err(e); },
            }
            i = i + 1;
        }
        Ok(out)
    }

    /// The approvals of `identity` in `scope`, in key order.
    pub fn list_approvals_in_scope(&self, identity: &str, scope: &Scope) -> (r: Result<Vec<Approval>, ApprovalError>)
        ensures
            r matches Ok(v) && ({
                let want = prefix_records(self.records(), "approvals:"@ + scope_text(*scope) + ":"@ + identity@ + ":"@);
                &&& v@.len() == want.len()
                &&& forall|i: int| 0 <= i < want.len() ==> same_approval(want[i], #[trigger] v@[i])
            }),
    {
        let s = scope.encode();
        let mut prefix = owned("approvals:");
        append_str(&mut prefix, s.as_str());
        append_str(&mut prefix, ":");
        append_str(&mut prefix, identity);
        append_str(&mut prefix, ":");
        let start = self.records.seek(prefix.as_str());
        let end = self.records.prefix_end(start, prefix.as_str());
        let ghost want = prefix_records(self.records(), prefix@);
        let mut out: Vec<Approval> = Vec::new();
        let mut i: usize = start;
        while i < end
            invariant
                start <= i <= end,
                end <= self.records().len(),
                want == self.records().subrange(start as int, end as int).map_values(|e: (Seq<char>, Approval)| e.1),
                out@.len() == i - start,
                forall|j: int| 0 <= j < out@.len() ==> same_approval(want[j], #[trigger] out@[j]),
            decreases end - i,
        {
            let a = self.records.value_at(i).clone();
            out.push(a);
            i = i + 1;
        }
        Ok(out)
    }

    /// The global approvals of `identity`, in key order.
    pub fn list_approvals(&self, identity: &str) -> (r: Result<Vec<Approval>, ApprovalError>)
        ensures
            r matches Ok(v) && ({
                let want = prefix_records(self.records(), "approvals:"@ + "global"@ + ":"@ + identity@ + ":"@);
                &&& v@.len() == want.len()
                &&& forall|i: int| 0 <= i < want.len() ==> same_approval(want[i], #[trigger] v@[i])
            }),
    {
        self.list_approvals_in_scope(identity, &Scope::Global)
    }

    /// The number of approvals stored.
    pub fn count_approvals(&self) -> (r: Result<usize, ApprovalError>)
        ensures
            r == Ok::<usize, ApprovalError>(self.records().len() as usize),
    {
        Ok(self.records.len())
    }
}

/// Once an approval is granted, checking it at any time `now` finds it, approved exactly
/// when it has not expired at `now`; the approvals stored under other keys are unchanged.
pub proof fn law_grant_then_check(records: Seq<(Seq<char>, Approval)>, a: Approval, other: Seq<char>, now: i64)
    requires
        sorted(records),
    ensures
        lookup(put_sorted(records, record_key(a), a), record_key(a)) == Some(a),
        approved_at(put_sorted(records, record_key(a), a), record_key(a), now) == !expired_at(a.expires_at, now),
        other != record_key(a) ==> approved_at(put_sorted(records, record_key(a), a), other, now)
            == approved_at(records, other, now),
{
    lemma_put_sorted(records, record_key(a), a);
}

/// An approval given a TTL at time `now` and then granted is found by a check at time `t`
/// exactly when `t` comes before `now` plus the TTL: with a TTL of an hour it is approved
/// for the hour after `now` and refused from then on.
pub proof fn law_ttl_then_check(records: Seq<(Seq<char>, Approval)>, a: Approval, ttl_seconds: i64, now: i64, t: i64)
    requires
        sorted(records),
        i64::MIN <= now + ttl_seconds <= i64::MAX,
    ensures
        ({
            let b = ttl_set(a, ttl_seconds, now);
            &&& b.expires_at == Some((now + ttl_seconds) as i64)
            &&& approved_at(put_sorted(records, record_key(b), b), record_key(b), t) <==> t < now + ttl_seconds
        }),
{
    let b = ttl_set(a, ttl_seconds, now);
    law_grant_then_check(records, b, record_key(b), t);
}

/// Once an approval is revoked, no check finds it at any time; the approvals stored under
/// other keys are unchanged.
pub proof fn law_revoke_then_check(records: Seq<(Seq<char>, Approval)>, key: Seq<char>, other: Seq<char>, now: i64)
    requires
        sorted(records),
    ensures
        lookup(remove_sorted(records, key), key) is None,
        !approved_at(remove_sorted(records, key), key, now),
        other != key ==> approved_at(remove_sorted(records, key), other, now) == approved_at(records, other, now),
{
    lemma_remove_sorted(records, key);
}

/// The parts of a scope hold no `:`, and a custom scope has at least one part.
pub open spec fn scope_parts_plain(s: Scope) -> bool {
    match s {
        Scope::Global => true,
        Scope::Tenant(t) => colon_free(t@),
        Scope::Environment(e) => colon_free(e@),
        Scope::TenantEnvironment { tenant, environment } => colon_free(tenant@) && colon_free(environment@),
        Scope::Custom(parts) => parts@.len() > 0
            && forall|i: int| 0 <= i < parts@.len() ==> colon_free(#[trigger] parts@[i]@),
    }
}

/// Two scopes of the same kind with the same parts, by their characters.
pub open spec fn same_scope(a: Scope, b: Scope) -> bool {
    match (a, b) {
        (Scope::Global, Scope::Global) => true,
        (Scope::Tenant(x), Scope::Tenant(y)) => x@ == y@,
        (Scope::Environment(x), Scope::Environment(y)) => x@ == y@,
        (Scope::TenantEnvironment { tenant: t1, environment: e1 }, Scope::TenantEnvironment { tenant: t2, environment: e2 }) =>
            t1@ == t2@ && e1@ == e2@,
        (Scope::Custom(x), Scope::Custom(y)) => strings_chars(x@) == strings_chars(y@),
        _ => false,
    }
}

proof fn lemma_join_colon_injective(a: Seq<Seq<char>>, b: Seq<Seq<char>>)
    requires
        a.len() > 0,
        b.len() > 0,
        forall|i: int| 0 <= i < a.len() ==> colon_free(#[trigger] a[i]),
        forall|i: int| 0 <= i < b.len() ==> colon_free(#[trigger] b[i]),
        join_with(a, ':') == join_with(b, ':'),
    ensures
        a == b,
    decreases a.len() + b.len(),
{
    reveal_strlit(":");
    if a.len() == 1 && b.len() == 1 {
        assert(a =~= b);
    } else if a.len() == 1 {
        let pre = join_with(b.drop_last(), ':');
        assert(join_with(b, ':') == pre + seq![':'] + b.last());
        assert(join_with(b, ':')[pre.len() as int] == ':');
        assert(colon_free(a[0]));
        assert(false);
    } else if b.len() == 1 {
        let pre = join_with(a.drop_last(), ':');
        assert(join_with(a, ':') == pre + seq![':'] + a.last());
        assert(join_with(a, ':')[pre.len() as int] == ':');
        assert(colon_free(b[0]));
        assert(false);
    } else {
        assert(seq![':'] =~= ":"@);
        assert(colon_free(a.last()));
        assert(colon_free(b.last()));
        lemma_split_last_colon(join_with(a.drop_last(), ':'), a.last(), join_with(b.drop_last(), ':'), b.last());
        lemma_join_colon_injective(a.drop_last(), b.drop_last());
        assert(a =~= a.drop_last().push(a.last()));
        assert(b =~= b.drop_last().push(b.last()));
    }
}

proof fn lemma_tenant_not_pair(x: Seq<char>, t: Seq<char>, e: Seq<char>)
    requires
        colon_free(x),
    ensures
        "tenant:"@ + x != "tenant:"@ + t + ":env:"@ + e,
{
    reveal_strlit("tenant:");
    reveal_strlit(":env:");
    let l = "tenant:"@ + x;
    let r = "tenant:"@ + t + ":env:"@ + e;
    if l == r {
        assert(l.len() == 7 + x.len());
        assert(r.len() == 7 + t.len() + 5 + e.len());
        let k = 7 + t.len() as int;
        assert(r[k] == ':');
        assert(l[k] == x[t.len() as int]);
    }
}

proof fn lemma_pair_injective(t1: Seq<char>, e1: Seq<char>, t2: Seq<char>, e2: Seq<char>)
    requires
        colon_free(e1),
        colon_free(e2),
        "tenant:"@ + t1 + ":env:"@ + e1 == "tenant:"@ + t2 + ":env:"@ + e2,
    ensures
        t1 == t2,
        e1 == e2,
{
    reveal_strlit("tenant:");
    reveal_strlit(":env:");
    reveal_strlit(":env");
    reveal_strlit(":");
    let p1 = "tenant:"@ + t1 + ":env"@;
    let p2 = "tenant:"@ + t2 + ":env"@;
    assert("tenant:"@ + t1 + ":env:"@ + e1 =~= p1 + ":"@ + e1);
    assert("tenant:"@ + t2 + ":env:"@ + e2 =~= p2 + ":"@ + e2);
    lemma_split_last_colon(p1, e1, p2, e2);
    assert(p1.subrange(7, p1.len() - 4) =~= t1);
    assert(p2.subrange(7, p2.len() - 4) =~= t2);
}

proof fn lemma_scope_first(s: Scope)
    ensures
        scope_text(s).len() > 0,
        scope_text(s)[0] == match s {
            Scope::Global => 'g',
            Scope::Tenant(_) => 't',
            Scope::TenantEnvironment { .. } => 't',
            Scope::Environment(_) => 'e',
            Scope::Custom(_) => 'c',
        },
{
    reveal_strlit("global");
    reveal_strlit("tenant:");
    reveal_strlit("env:");
    reveal_strlit("custom:");
    match s {
        Scope::Global => {},
        Scope::Tenant(t) => assert(("tenant:"@ + t@)[0] == 't'),
        Scope::Environment(e) => assert(("env:"@ + e@)[0] == 'e'),
        Scope::TenantEnvironment { tenant, environment } =>
            assert(("tenant:"@ + tenant@ + ":env:"@ + environment@)[0] == 't'),
        Scope::Custom(parts) => assert(("custom:"@ + join_with(strings_chars(parts@), ':'))[0] == 'c'),
    }
}

proof fn lemma_after_prefix(p: Seq<char>, x: Seq<char>, y: Seq<char>)
    requires
        p + x == p + y,
    ensures
        x == y,
{
    assert((p + x).skip(p.len() as int) =~= x);
    assert((p + y).skip(p.len() as int) =~= y);
}

/// The text of a scope determines the scope, when its parts hold no `:` and a custom scope
/// has at least one part (without these, `Tenant("a:env:b")` and `TenantEnvironment("a",
/// "b")` share their text, as do `Custom([])` and `Custom([""])`).
pub proof fn law_scope_text_injective(a: Scope, b: Scope)
    requires
        scope_parts_plain(a),
        scope_parts_plain(b),
        scope_text(a) == scope_text(b),
    ensures
        same_scope(a, b),
{
    reveal_strlit("global");
    reveal_strlit("tenant:");
    reveal_strlit("env:");
    reveal_strlit("custom:");
    match (a, b) {
        (Scope::Global, Scope::Global) => {},
        (Scope::Tenant(x), Scope::Tenant(y)) => lemma_after_prefix("tenant:"@, x@, y@),
        (Scope::Environment(x), Scope::Environment(y)) => lemma_after_prefix("env:"@, x@, y@),
        (Scope::Custom(x), Scope::Custom(y)) => {
            lemma_after_prefix("custom:"@, join_with(strings_chars(x@), ':'), join_with(strings_chars(y@), ':'));
            assert forall|i: int| 0 <= i < strings_chars(x@).len() implies colon_free(#[trigger] strings_chars(x@)[i]) by {
                assert(colon_free(x@[i]@));
            }
            assert forall|i: int| 0 <= i < strings_chars(y@).len() implies colon_free(#[trigger] strings_chars(y@)[i]) by {
                assert(colon_free(y@[i]@));
            }
            lemma_join_colon_injective(strings_chars(x@), strings_chars(y@));
        },
        (Scope::TenantEnvironment { tenant: t1, environment: e1 }, Scope::TenantEnvironment { tenant: t2, environment: e2 }) =>
            lemma_pair_injective(t1@, e1@, t2@, e2@),
        (Scope::Tenant(x), Scope::TenantEnvironment { tenant: t, environment: e }) => lemma_tenant_not_pair(x@, t@, e@),
        (Scope::TenantEnvironment { tenant: t, environment: e }, Scope::Tenant(x)) => lemma_tenant_not_pair(x@, t@, e@),
        _ => {
            lemma_scope_first(a);
            lemma_scope_first(b);
            assert(scope_text(a)[0] == scope_text(b)[0]);
            if (a is Tenant || a is TenantEnvironment) && (b is Tenant || b is TenantEnvironment) {
            } else {
                assert(false);
            }
        },
    }
}

/// The storage key of an approval determines its scope text, identity, resource and
/// action, when identity, resource and action hold no `:`.
pub proof fn law_approval_key_injective(
    s1: Seq<char>, i1: Seq<char>, r1: Seq<char>, a1: Seq<char>,
    s2: Seq<char>, i2: Seq<char>, r2: Seq<char>, a2: Seq<char>,
)
    requires
        colon_free(i1), colon_free(r1), colon_free(a1),
        colon_free(i2), colon_free(r2), colon_free(a2),
        approval_key(s1, i1, r1, a1) == approval_key(s2, i2, r2, a2),
    ensures
        s1 == s2,
        i1 == i2,
        r1 == r2,
        a1 == a2,
{
    let p1 = "approvals:"@ + s1;
    let p2 = "approvals:"@ + s2;
    assert(approval_key(s1, i1, r1, a1) =~= p1 + ":"@ + i1 + ":"@ + r1 + ":"@ + a1);
    assert(approval_key(s2, i2, r2, a2) =~= p2 + ":"@ + i2 + ":"@ + r2 + ":"@ + a2);
    lemma_colon_key_injective(p1, i1, r1, a1, p2, i2, r2, a2);
    assert(p1.skip(("approvals:"@).len() as int) =~= s1);
    assert(p2.skip(("approvals:"@).len() as int) =~= s2);
}

/// Keys of approvals that differ in scope, identity, resource or action differ, when
/// identities, resources and actions hold no `:` (with colons, two keys can coincide): so
/// granting or revoking an approval never changes a check of another, in its scope or any
/// other.
pub proof fn law_scope_isolation(
    records: Seq<(Seq<char>, Approval)>,
    a: Approval,
    scope: Scope,
    identity: Seq<char>,
    resource: Seq<char>,
    action: Seq<char>,
    now: i64,
)
    requires
        sorted(records),
        colon_free(a.identity@),
        colon_free(a.resource@),
        colon_free(a.action@),
        colon_free(identity),
        colon_free(resource),
        colon_free(action),
        scope_text(scope) != scope_text(a.scope) || identity != a.identity@ || resource != a.resource@
            || action != a.action@,
    ensures
        approved_at(put_sorted(records, record_key(a), a), approval_key(scope_text(scope), identity, resource, action), now)
            == approved_at(records, approval_key(scope_text(scope), identity, resource, action), now),
        approved_at(remove_sorted(records, record_key(a)), approval_key(scope_text(scope), identity, resource, action), now)
            == approved_at(records, approval_key(scope_text(scope), identity, resource, action), now),
{
    let other = approval_key(scope_text(scope), identity, resource, action);
    if other == record_key(a) {
        let p1 = "approvals:"@ + scope_text(scope);
        let p2 = "approvals:"@ + scope_text(a.scope);
        lemma_colon_key_injective(p1, identity, resource, action, p2, a.identity@, a.resource@, a.action@);
        assert(p1.skip(("approvals:"@).len() as int) =~= scope_text(scope));
        assert(p2.skip(("approvals:"@).len() as int) =~= scope_text(a.scope));
    }
    law_grant_then_check(records, a, other, now);
    law_revoke_then_check(records, record_key(a), other, now);
}

} // verus!
