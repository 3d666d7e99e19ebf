//! The evaluation context of a policy decision: resource, action and request.

use vstd::prelude::*;
use std::sync::Arc;
use crate::approval::{approval_check_holds, approval_key, ApprovalStore};
use crate::attrs::{lookup, StrMap};
use crate::error::Error;
use crate::relationship::{
    relation_check_holds, relationship_key, search_result, transitive_answer, RelationshipError,
    RelationshipPath, RelationshipStore,
};
use crate::text::{append_str, append_u64, nat_text, owned};

verus! {

/// Resource type identifier.
#[derive(Debug, Clone, Copy, PartialEq, Eq, Hash, Structural)]
pub struct ResourceTypeId(pub u32);

/// Attribute values (typed).
#[derive(Debug, PartialEq)]
pub enum AttributeValue {
    String(String),
    Int(i64),
    Bool(bool),
    Array(Vec<AttributeValue>),
}

/// Whether `b` is a copy of `a`: same kind and scalar, same characters, same number of items.
pub open spec fn attr_copy_of(a: AttributeValue, b: AttributeValue) -> bool {
    match (a, b) {
        (AttributeValue::String(x), AttributeValue::String(y)) => x@ == y@,
        (AttributeValue::Int(x), AttributeValue::Int(y)) => x == y,
        (AttributeValue::Bool(x), AttributeValue::Bool(y)) => x == y,
        (AttributeValue::Array(x), AttributeValue::Array(y)) => x@.len() == y@.len(),
        _ => false,
    }
}

/// A copy of an attribute value.
pub fn copy_attr(a: &AttributeValue) -> (c: AttributeValue)
    ensures
        attr_copy_of(*a, c),
    decreases a,
{
    match a {
        AttributeValue::String(s) => AttributeValue::String(s.clone()),
        AttributeValue::Int(i) => AttributeValue::Int(*i),
        AttributeValue::Bool(b) => AttributeValue::Bool(*b),
        AttributeValue::Array(v) => {
            let mut out: Vec<AttributeValue> = Vec::new();
            let mut i: usize = 0;
            while i < v.len()
                invariant
                    i <= v@.len(),
                    out@.len() == i,
                    *a == AttributeValue::Array(*v),
                decreases v@.len() - i,
            {
                proof {
                    vstd::std_specs::vec::axiom_vec_index_decreases(*v, i as int);
                    assert(decreases_to!(*a => (*a)->Array_0));
                    assert((*a)->Array_0 == *v);
                    assert(decreases_to!(*v => v[i as int]));
                    assert(decreases_to!(*a => v[i as int]));
                }
                let c = copy_attr(&v[i]);
                out.push(c);
                i = i + 1;
            }
            AttributeValue::Array(out)
        },
    }
}

impl Clone for AttributeValue {
    fn clone(&self) -> (c: Self)
        ensures
            attr_copy_of(*self, c),
    {
        copy_attr(self)
    }
}

/// Resource being accessed.
#[derive(Debug, Clone)]
pub struct Resource {
    pub type_id: ResourceTypeId,
    pub attributes: StrMap<AttributeValue>,
}

impl Resource {
    /// A resource of the given type, with no attribute.
    pub fn new(type_id: ResourceTypeId) -> (r: Self)
        ensures
            r.type_id == type_id,
            r.attributes.entries().len() == 0,
    {
        Resource { type_id, attributes: StrMap::new() }
    }

    /// The resource with `value` stored under `key`.
    pub fn with_attribute(self, key: &str, value: AttributeValue) -> (r: Self)
        ensures
            r.type_id == self.type_id,
            r.attributes.entries() == crate::attrs::store(self.attributes.entries(), key@, value),
    {
        let mut r = self;
        r.attributes.insert(owned(key), value);
        r
    }

    /// A resource of type 0 whose `url` attribute is `url`.
    pub fn url(url: &str) -> (r: Self)
        ensures
            r.type_id == ResourceTypeId(0),
            r.attributes.entries().len() == 1,
            r.attributes.entries()[0].0 == "url"@,
            r.attributes.entries()[0].1 matches AttributeValue::String(s) && s@ == url@,
    {
        let mut attributes = StrMap::new();
        attributes.insert(owned("url"), AttributeValue::String(owned(url)));
        proof { reveal_strlit("url"); }
        Resource { type_id: ResourceTypeId(0), attributes }
    }
}

impl Default for Resource {
    fn default() -> (r: Self)
        ensures
            r.type_id == ResourceTypeId(0),
            r.attributes.entries().len() == 0,
    {
        Resource::new(ResourceTypeId(0))
    }
}

/// Operation types.
#[derive(Debug, Clone, Copy, PartialEq, Eq, Structural)]
pub enum Operation {
    Create,
    Read,
    Update,
    Delete,
    Deploy,
    Execute,
    Custom(u32),
}

/// Action being performed.
#[derive(Debug, Clone)]
pub struct Action {
    pub operation: Operation,
    pub target: String,
    pub attributes: StrMap<AttributeValue>,
}

impl Action {
    /// An action with the given operation and target, with no attribute.
    pub fn new(operation: Operation, target: &str) -> (a: Self)
        ensures
            a.operation == operation,
            a.target@ == target@,
            a.attributes.entries().len() == 0,
    {
        Action { operation, target: owned(target), attributes: StrMap::new() }
    }

    /// The action with `value` stored under `key`.
    pub fn with_attribute(self, key: &str, value: AttributeValue) -> (r: Self)
        ensures
            r.operation == self.operation,
            r.target == self.target,
            r.attributes.entries() == crate::attrs::store(self.attributes.entries(), key@, value),
    {
        let mut r = self;
        r.attributes.insert(owned(key), value);
        r
    }
}

impl Default for Action {
    fn default() -> (a: Self)
        ensures
            a.operation == Operation::Read,
            a.target@.len() == 0,
            a.attributes.entries().len() == 0,
    {
        Action { operation: Operation::Read, target: String::new(), attributes: StrMap::new() }
    }
}

/// Principal (user/service) making the request.
#[derive(Debug, Clone)]
pub struct Principal {
    pub id: String,
    pub roles: Vec<String>,
    pub attributes: StrMap<AttributeValue>,
}

impl Principal {
    /// A principal with the given id, no role and no attribute.
    pub fn new(id: &str) -> (p: Self)
        ensures
            p.id@ == id@,
            p.roles@.len() == 0,
            p.attributes.entries().len() == 0,
    {
        Principal { id: owned(id), roles: Vec::new(), attributes: StrMap::new() }
    }

    /// The principal with `role` added at the end of its roles.
    pub fn with_role(self, role: &str) -> (p: Self)
        ensures
            p.id == self.id,
            p.roles@.len() == self.roles@.len() + 1,
            p.roles@.take(self.roles@.len() as int) == self.roles@,
            p.roles@.last()@ == role@,
            p.attributes == self.attributes,
    {
        let mut p = self;
        p.roles.push(owned(role));
        assert(p.roles@.take(self.roles@.len() as int) =~= self.roles@);
        p
    }

    /// The principal with `value` stored under `key`.
    pub fn with_attribute(self, key: &str, value: AttributeValue) -> (p: Self)
        ensures
            p.id == self.id,
            p.roles == self.roles,
            p.attributes.entries() == crate::attrs::store(self.attributes.entries(), key@, value),
    {
        let mut p = self;
        p.attributes.insert(owned(key), value);
        p
    }

    /// A principal whose `type` attribute is `bot`.
    pub fn bot(id: &str) -> (p: Self)
        ensures
            p.id@ == id@,
            p.roles@.len() == 0,
            p.attributes.entries().len() == 1,
            p.attributes.entries()[0].0 == "type"@,
            p.attributes.entries()[0].1 matches AttributeValue::String(s) && s@ == "bot"@,
    {
        let p = Principal::new(id).with_attribute("type", AttributeValue::String(owned("bot")));
        p
    }

    /// A principal whose `type` attribute is `user`.
    pub fn user(id: &str) -> (p: Self)
        ensures
            p.id@ == id@,
            p.roles@.len() == 0,
            p.attributes.entries().len() == 1,
            p.attributes.entries()[0].0 == "type"@,
            p.attributes.entries()[0].1 matches AttributeValue::String(s) && s@ == "user"@,
    {
        let p = Principal::new(id).with_attribute("type", AttributeValue::String(owned("user")));
        p
    }
}

impl Default for Principal {
    fn default() -> (p: Self)
        ensures
            p.id@.len() == 0,
            p.roles@.len() == 0,
            p.attributes.entries().len() == 0,
    {
        Principal { id: String::new(), roles: Vec::new(), attributes: StrMap::new() }
    }
}

/// Request metadata.
#[derive(Debug, Clone)]
pub struct Request {
    pub principal: Principal,
    pub timestamp: i64,
    pub source_ip: Option<String>,
    pub metadata: StrMap<AttributeValue>,
}

impl Default for Request {
    fn default() -> (r: Self)
        ensures
            r.principal.id@.len() == 0,
            r.principal.roles@.len() == 0,
            r.principal.attributes.entries().len() == 0,
            r.timestamp == 0,
            r.source_ip is None,
            r.metadata.entries().len() == 0,
    {
        Request { principal: Principal::default(), timestamp: 0, source_ip: None, metadata: StrMap::new() }
    }
}

/// Complete evaluation context for a policy decision.
#[derive(Debug, Clone)]
pub struct EvaluationContext {
    pub resource: Resource,
    pub action: Action,
    pub request: Request,
    /// Store of approvals, if approvals are checked
    pub approval_store: Option<Arc<ApprovalStore>>,
    /// Store of relationships, if relationships are checked
    pub relationship_store: Option<Arc<RelationshipStore>>,
}

/// The debug text of an operation.
pub open spec fn operation_text(op: Operation) -> Seq<char> {
    match op {
        Operation::Create => "Create"@,
        Operation::Read => "Read"@,
        Operation::Update => "Update"@,
        Operation::Delete => "Delete"@,
        Operation::Deploy => "Deploy"@,
        Operation::Execute => "Execute"@,
        Operation::Custom(n) => "Custom("@ + nat_text(n as nat) + ")"@,
    }
}

/// The resource checked for approval: the `url` attribute of the resource when it is a
/// string, else the action's target.
pub open spec fn approval_resource(c: EvaluationContext) -> Seq<char> {
    match lookup(c.resource.attributes.entries(), "url"@) {
        Some(AttributeValue::String(s)) => s@,
        _ => c.action.target@,
    }
}

/// The action checked for approval: the `method` attribute of the action when it is a
/// string, else the operation's name.
pub open spec fn approval_action(c: EvaluationContext) -> Seq<char> {
    match lookup(c.action.attributes.entries(), "method"@) {
        Some(AttributeValue::String(s)) => s@,
        _ => operation_text(c.action.operation),
    }
}

/// The store's own result inside an engine result.
pub open spec fn store_result(r: Result<Option<RelationshipPath>, Error>) -> Result<Option<RelationshipPath>, RelationshipError> {
    match r {
        Ok(p) => Ok(p),
        Err(Error::Relationship(e)) => Err(e),
        Err(_) => Err(RelationshipError::CycleDetected),
    }
}

/// The store's own answer inside a context's boolean result.
pub open spec fn store_bool(r: Result<bool, Error>) -> Result<bool, RelationshipError> {
    match r {
        Ok(b) => Ok(b),
        Err(Error::Relationship(e)) => Err(e),
        Err(_) => Err(RelationshipError::CycleDetected),
    }
}

fn operation_string(op: Operation) -> (s: String)
    ensures
        s@ == operation_text(op),
{
    match op {
        Operation::Create => owned("Create"),
        Operation::Read => owned("Read"),
        Operation::Update => owned("Update"),
        Operation::Delete => owned("Delete"),
        Operation::Deploy => owned("Deploy"),
        Operation::Execute => owned("Execute"),
        Operation::Custom(n) => {
            let mut s = owned("Custom(");
            append_u64(&mut s, n as u64);
            append_str(&mut s, ")");
            s
        },
    }
}

impl EvaluationContext {
    /// A context made of the given parts.
    pub fn new(resource: Resource, action: Action, request: Request) -> (c: Self)
        ensures
            c.resource == resource,
            c.action == action,
            c.request == request,
            c.approval_store is None,
            c.relationship_store is None,
    {
        EvaluationContext { resource, action, request, approval_store: None, relationship_store: None }
    }

    /// The context with the given approval store.
    pub fn with_approval_store(self, store: Arc<ApprovalStore>) -> (c: Self)
        ensures
            c == (EvaluationContext { approval_store: Some(store), ..self }),
    {
        let mut c = self;
        c.approval_store = Some(store);
        c
    }

    /// The context with the given relationship store.
    pub fn with_relationship_store(self, store: Arc<RelationshipStore>) -> (c: Self)
        ensures
            c == (EvaluationContext { relationship_store: Some(store), ..self }),
    {
        let mut c = self;
        c.relationship_store = Some(store);
        c
    }

    /// Whether the principal has a global approval for the request, by the current time:
    /// the resource is the `url` attribute (else the action's target), the action the
    /// `method` attribute (else the operation's name).
    pub fn has_approval(&self) -> (r: Result<bool, Error>)
        ensures
            self.approval_store is None ==> r == Err::<bool, Error>(Error::NoApprovalStore),
            self.approval_store matches Some(st) ==> r matches Ok(b) && approval_check_holds(
                st.records(),
                approval_key("global"@, self.request.principal.id@, approval_resource(*self), approval_action(*self)),
                b,
            ),
    {
        let store = match &self.approval_store {
            Some(s) => s,
            None => { return Err(Error::NoApprovalStore); },
        };
        let resource_url = match self.resource.attributes.get("url") {
            Some(AttributeValue::String(s)) => s.clone(),
            _ => self.action.target.clone(),
        };
        let action_method = match self.action.attributes.get("method") {
            Some(AttributeValue::String(s)) => s.clone(),
            _ => operation_string(self.action.operation),
        };
        match store.has_approval(self.request.principal.id.as_str(), resource_url.as_str(), action_method.as_str()) {
            Ok(b) => Ok(b),
            Err(e) => Err(Error::Approval(e)),
        }
    }

    /// Whether the principal has `relation` to `object` directly, in the global scope, by
    /// the current time.
    pub fn has_relationship(&self, relation: &str, object: &str) -> (r: Result<bool, Error>)
        ensures
            self.relationship_store is None ==> r == Err::<bool, Error>(Error::NoRelationshipStore),
            self.relationship_store matches Some(st) ==> r matches Ok(b) && relation_check_holds(
                st.records(),
                relationship_key("global"@, self.request.principal.id@, relation@, object@),
                b,
            ),
    {
        let store = match &self.relationship_store {
            Some(s) => s,
            None => { return Err(Error::NoRelationshipStore); },
        };
        match store.has_relationship(self.request.principal.id.as_str(), relation, object) {
            Ok(b) => Ok(b),
            Err(e) => Err(Error::Relationship(e)),
        }
    }

    /// Whether the principal has `relation` to `object` directly or through a chain, by the
    /// current time.
    pub fn has_transitive_relationship(&self, relation: &str, object: &str) -> (r: Result<bool, Error>)
        ensures
            self.relationship_store is None ==> r == Err::<bool, Error>(Error::NoRelationshipStore),
            self.relationship_store matches Some(st) ==> exists|now: i64| 0 <= now && #[trigger] transitive_answer(
                st.records(), self.request.principal.id@, relation@, object@, now, st.max_depth(),
                store_bool(r),
            ),
            self.relationship_store is Some ==> r matches Ok(_) || r matches Err(Error::Relationship(_)),
    {
        let store = match &self.relationship_store {
            Some(s) => s,
            None => { return Err(Error::NoRelationshipStore); },
        };
        match store.has_transitive_relationship(self.request.principal.id.as_str(), relation, object) {
            Ok(b) => Ok(b),
            Err(e) => Err(Error::Relationship(e)),
        }
    }

    /// The chain of relationships from the principal to `object`, by the current time.
    pub fn find_relationship_path(&self, relation: &str, object: &str) -> (r: Result<Option<RelationshipPath>, Error>)
        ensures
            self.relationship_store is None ==> r matches Err(Error::NoRelationshipStore),
            self.relationship_store matches Some(st) ==> exists|now: i64| 0 <= now && #[trigger] search_result(
                st.records(), self.request.principal.id@, relation@, object@, now, st.max_depth(),
                store_result(r),
            ),
            self.relationship_store is Some ==> r matches Ok(_) || r matches Err(Error::Relationship(_)),
    {
        let store = match &self.relationship_store {
            Some(s) => s,
            None => { return Err(Error::NoRelationshipStore); },
        };
        match store.find_relationship_path(self.request.principal.id.as_str(), relation, object) {
            Ok(p) => Ok(p),
            Err(e) => Err(Error::Relationship(e)),
        }
    }
}

impl Default for EvaluationContext {
    fn default() -> (c: Self)
        ensures
            c.resource.type_id == ResourceTypeId(0),
            c.resource.attributes.entries().len() == 0,
            c.action.operation == Operation::Read,
            c.action.target@.len() == 0,
            c.action.attributes.entries().len() == 0,
            c.request.principal.id@.len() == 0,
            c.request.principal.roles@.len() == 0,
            c.request.principal.attributes.entries().len() == 0,
            c.request.timestamp == 0,
            c.request.source_ip is None,
            c.request.metadata.entries().len() == 0,
            c.approval_store is None,
            c.relationship_store is None,
    {
        EvaluationContext {
            resource: Resource::default(),
            action: Action::default(),
            request: Request::default(),
            approval_store: None,
            relationship_store: None,
        }
    }
}

} // verus!
