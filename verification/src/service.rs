//! Request handling of the evaluation service: the operation an action name stands for,
//! the evaluation context of a request, and the label of a decision.

use vstd::prelude::*;
use crate::attrs::store;
use crate::engine::DecisionKind;
use crate::rar::{Action, AttributeValue, EvaluationContext, Operation, Principal, Request, Resource, ResourceTypeId};
use crate::text::{chars_of, push_char, str_eq};

verus! {

/// The lower-case form of a string, as `str::to_lowercase` gives it.
pub uninterp spec fn lowercase(s: Seq<char>) -> Seq<char>;

/// `str::to_lowercase`: the string with each character replaced by its lower-case mapping.
/// Its result is named, not stated: Unicode case mapping is the standard library's.
#[verifier::external_body]
fn to_lowercase(s: &str) -> (r: String)
    ensures
        r@ == lowercase(s@),
{
    s.to_lowercase()
}

/// The operation a lower-case action name stands for; any other name stands for
/// `Custom(0)`.
pub open spec fn operation_named(t: Seq<char>) -> Operation {
    if t == "create"@ {
        Operation::Create
    } else if t == "read"@ || t == "get"@ {
        Operation::Read
    } else if t == "update"@ || t == "put"@ || t == "patch"@ {
        Operation::Update
    } else if t == "delete"@ {
        Operation::Delete
    } else if t == "deploy"@ {
        Operation::Deploy
    } else if t == "execute"@ || t == "run"@ {
        Operation::Execute
    } else {
        Operation::Custom(0)
    }
}

/// The operation a lower-case action name stands for.
pub fn operation_from_lowercase(t: &str) -> (op: Operation)
    ensures
        op == operation_named(t@),
{
    if str_eq(t, "create") {
        Operation::Create
    } else if str_eq(t, "read") || str_eq(t, "get") {
        Operation::Read
    } else if str_eq(t, "update") || str_eq(t, "put") || str_eq(t, "patch") {
        Operation::Update
    } else if str_eq(t, "delete") {
        Operation::Delete
    } else if str_eq(t, "deploy") {
        Operation::Deploy
    } else if str_eq(t, "execute") || str_eq(t, "run") {
        Operation::Execute
    } else {
        Operation::Custom(0)
    }
}

/// Whether every character is ASCII.
pub open spec fn all_ascii(s: Seq<char>) -> bool {
    forall|i: int| 0 <= i < s.len() ==> (#[trigger] s[i] as u32) < 128
}

/// The lower-case form of an ASCII character: upper-case letters become lower-case.
pub open spec fn ascii_lower(c: char) -> char {
    if 'A' <= c && c <= 'Z' { ((c as u32) + 32) as char } else { c }
}

/// The lower-case form of a string as `str::to_lowercase` gives it: for an ASCII string,
/// each upper-case letter made lower-case and every other character kept; otherwise as
/// the standard library's Unicode case mapping says.
pub open spec fn lower_text(s: Seq<char>) -> Seq<char> {
    if all_ascii(s) { s.map_values(|c: char| ascii_lower(c)) } else { lowercase(s) }
}

/// The ASCII lower-case form of an ASCII string.
fn ascii_lowercase(s: &str) -> (r: String)
    requires
        all_ascii(s@),
    ensures
        r@ == s@.map_values(|c: char| ascii_lower(c)),
{
    let chars = chars_of(s);
    let mut out = String::new();
    let mut i: usize = 0;
    while i < chars.len()
        invariant
            chars@ == s@,
            all_ascii(s@),
            i <= chars@.len(),
            out@ == s@.take(i as int).map_values(|c: char| ascii_lower(c)),
        decreases chars@.len() - i,
    {
        let c = chars[i];
        let l = if 'A' <= c && c <= 'Z' {
            let b: u8 = (c as u8) + 32;
            b as char
        } else {
            c
        };
        assert(l == ascii_lower(c));
        push_char(&mut out, l);
        assert(s@.take(i + 1) =~= s@.take(i as int).push(c));
        assert(out@ =~= s@.take(i + 1).map_values(|c: char| ascii_lower(c)));
        i = i + 1;
    }
    assert(s@.take(chars@.len() as int) =~= s@);
    out
}

/// Whether every character of `s` is ASCII.
fn is_all_ascii(s: &str) -> (b: bool)
    ensures
        b == all_ascii(s@),
{
    let chars = chars_of(s);
    let mut i: usize = 0;
    while i < chars.len()
        invariant
            chars@ == s@,
            i <= chars@.len(),
            forall|k: int| 0 <= k < i ==> (#[trigger] s@[k] as u32) < 128,
        decreases chars@.len() - i,
    {
        if (chars[i] as u32) >= 128 {
            return false;
        }
        i = i + 1;
    }
    true
}

/// The operation an action name stands for, whatever its case.
pub fn parse_operation(s: &str) -> (op: Operation)
    ensures
        op == operation_named(lower_text(s@)),
{
    let t = if is_all_ascii(s) { ascii_lowercase(s) } else { to_lowercase(s) };
    operation_from_lowercase(t.as_str())
}

/// The attributes after storing each item in turn.
pub open spec fn stored_all(m: Seq<(Seq<char>, AttributeValue)>, items: Seq<(String, AttributeValue)>) -> Seq<(Seq<char>, AttributeValue)>
    decreases items.len(),
{
    if items.len() == 0 {
        m
    } else {
        store(stored_all(m, items.drop_last()), items.last().0@, items.last().1)
    }
}

/// The evaluation context of a service request: a resource of the given type (0 when none)
/// with the attributes stored in order, the action named by `action` with `action` as its
/// target, a user principal (`anonymous` when none) and the given request time.
pub fn request_context(
    resource_type: Option<u32>,
    action: &str,
    principal_id: Option<&str>,
    attributes: Vec<(String, AttributeValue)>,
    timestamp: i64,
) -> (ctx: EvaluationContext)
    ensures
        ctx.resource.type_id == ResourceTypeId(match resource_type { Some(t) => t, None => 0 }),
        ctx.resource.attributes.entries() == stored_all(Seq::empty(), attributes@),
        ctx.action.operation == operation_named(lower_text(action@)),
        ctx.action.target@ == action@,
        ctx.action.attributes.entries().len() == 0,
        ctx.request.principal.id@ == (match principal_id { Some(p) => p@, None => "anonymous"@ }),
        ctx.request.principal.roles@.len() == 0,
        ctx.request.principal.attributes.entries().len() == 1,
        ctx.request.principal.attributes.entries()[0].0 == "type"@,
        ctx.request.principal.attributes.entries()[0].1 matches AttributeValue::String(s) && s@ == "user"@,
        ctx.request.timestamp == timestamp,
        ctx.request.source_ip is None,
        ctx.request.metadata.entries().len() == 0,
        ctx.approval_store is None,
        ctx.relationship_store is None,
{
    let type_id = match resource_type {
        Some(t) => ResourceTypeId(t),
        None => ResourceTypeId(0),
    };
    let mut resource = Resource::new(type_id);
    let ghost items = attributes@;
    let mut rest = attributes;
    let total = rest.len();
    let mut done: usize = 0;
    assert(items.skip(0) =~= items);
    while rest.len() > 0
        invariant
            done <= items.len(),
            items.len() == total,
            rest@ == items.skip(done as int),
            resource.type_id == type_id,
            resource.attributes.entries() == stored_all(Seq::empty(), items.take(done as int)),
        decreases rest@.len(),
    {
        assert(items.take(done + 1).drop_last() =~= items.take(done as int));
        assert(items.skip(done as int)[0] == items[done as int]);
        let (key, value) = rest.remove(0);
        resource = resource.with_attribute(key.as_str(), value);
        assert(rest@ =~= items.skip(done + 1));
        done = done + 1;
    }
    assert(items.take(items.len() as int) =~= items);
    let operation = parse_operation(action);
    let action = Action::new(operation, action);
    let principal = match principal_id {
        Some(p) => Principal::user(p),
        None => Principal::user("anonymous"),
    };
    let request = Request { principal, timestamp, source_ip: None, metadata: crate::attrs::StrMap::new() };
    EvaluationContext::new(resource, action, request)
}

/// The label of a decision kind: `allow` or `deny`.
pub fn decision_label(kind: DecisionKind) -> (s: &'static str)
    ensures
        s@ == (match kind {
            DecisionKind::Allow => "allow"@,
            DecisionKind::Deny => "deny"@,
        }),
{
    match kind {
        DecisionKind::Allow => "allow",
        DecisionKind::Deny => "deny",
    }
}

} // verus!
