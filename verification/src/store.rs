//! Policy snapshots: immutable sets of compiled policies indexed by resource type, the
//! updates that produce the next snapshot from the current one, and the evaluation of a
//! request against a snapshot.
//!
//! A snapshot is never changed in place: an update builds a new one with the next version,
//! and leaves the current one as it was when it fails.

use vstd::prelude::*;
use std::collections::HashMap;
use std::sync::Arc;
use crate::ast::nodes::Policy;
use crate::bytecode::{CompiledPolicy, Instruction};
use crate::compiler::{
    compiled_as, error_message, fits, gen_policy, law_policy_code_shape, start_state, PolicyCompiler,
};
use crate::engine::{Decision, DecisionKind};
use crate::error::Error;
use crate::index::{indexed_under, lemma_indexed_in_range, push_matches};
use crate::interpreter::{
    forward_jumps, halts, law_forward_jumps_halt, lemma_straight_outcome, outcome, straight_then_return, FieldMapping, Interpreter, MAX_STACK_SIZE,
};
use crate::parser::grammar::{p_policy, PErr, PolicyTree};
use crate::parser::lexer::{tokens_from, TokenModel};
use crate::parser::parse::{parse_error_message, policy_tree, Parser};
use crate::parser::token::KindModel;
use crate::rar::{EvaluationContext, ResourceTypeId};
use crate::attrs::StrMap;
use crate::code_size::{law_cost_bounds_code, policy_cost_exec};
use crate::text::{append_str, owned, split_on, split_str, str_eq, strings_chars};

verus! {

broadcast use vstd::std_specs::hash::group_hash_axioms;

/// Pre-compiled policy entry.
#[derive(Debug, Clone)]
pub struct PolicyEntry {
    /// Policy name
    pub name: String,
    /// Pre-compiled bytecode
    pub bytecode: Arc<CompiledPolicy>,
    /// Pre-computed field mapping
    pub field_mapping: FieldMapping,
    /// Resource types this policy applies to
    pub resource_types: Vec<ResourceTypeId>,
}

/// Immutable snapshot of all policies.
#[derive(Debug, Clone)]
pub struct PolicySnapshot {
    /// Version number (monotonically increasing)
    pub version: u64,
    /// All pre-compiled policies
    policies: Vec<PolicyEntry>,
}

impl PolicySnapshot {
    /// The policies, in order.
    pub closed spec fn entries(&self) -> Seq<PolicyEntry> {
        self.policies@
    }

    /// The version number.
    pub closed spec fn version_number(&self) -> u64 {
        self.version
    }

    /// The resource types of each policy.
    pub open spec fn types_of(&self) -> Seq<Seq<ResourceTypeId>> {
        self.entries().map_values(|p: PolicyEntry| p.resource_types@)
    }

    /// The policies that apply to a resource type, in order: each policy once for each time
    /// its resource types list the type.
    pub open spec fn applicable(&self, resource_type: ResourceTypeId) -> Seq<PolicyEntry> {
        indexed_under(self.types_of(), resource_type).map_values(|i: int| self.entries()[i])
    }

    /// Every policy is straight-line code ending with its only `Return`.
    pub open spec fn straight_line(&self) -> bool {
        all_straight(self.entries())
    }

    /// An empty snapshot, version 0.
    pub fn empty() -> (s: Self)
        ensures
            s.version_number() == 0,
            s.entries().len() == 0,
    {
        PolicySnapshot { version: 0, policies: Vec::new() }
    }

    /// A snapshot with the given version and policies.
    pub fn new(version: u64, policies: Vec<PolicyEntry>) -> (s: Self)
        ensures
            s.version_number() == version,
            s.entries() == policies@,
    {
        PolicySnapshot { version, policies }
    }

    /// Whether every jump of every policy goes forward; then every policy halts on every
    /// context (`lemma_forward_snapshot_halts`), as policies compiled from source do.
    pub fn jumps_forward(&self) -> (b: bool)
        ensures
            b == all_forward(self.entries()),
    {
        let mut i: usize = 0;
        while i < self.policies.len()
            invariant
                i <= self.policies@.len(),
                forall|j: int| 0 <= j < i ==> forward_jumps((#[trigger] self.policies@[j]).bytecode.code@),
            decreases self.policies@.len() - i,
        {
            if !code_jumps_forward(&self.policies[i].bytecode.code) {
                return false;
            }
            i = i + 1;
        }
        true
    }

    /// The policies that apply to a resource type, in order.
    pub fn policies_for_resource(&self, resource_type: ResourceTypeId) -> (v: Vec<&PolicyEntry>)
        ensures
            v@.len() == self.applicable(resource_type).len(),
            forall|k: int| 0 <= k < v@.len() ==> *#[trigger] v@[k] == self.applicable(resource_type)[k],
    {
        let ghost types = self.types_of();
        let mut positions: Vec<usize> = Vec::new();
        let mut i: usize = 0;
        assert(types.take(0) =~= Seq::<Seq<ResourceTypeId>>::empty());
        while i < self.policies.len()
            invariant
                i <= self.policies@.len(),
                types == self.types_of(),
                positions@.map_values(|i: usize| i as int) == indexed_under(types.take(i as int), resource_type),
            decreases self.policies@.len() - i,
        {
            push_matches(&mut positions, i, &self.policies[i].resource_types, resource_type);
            proof {
                let ts = types.take(i + 1);
                assert(ts.drop_last() =~= types.take(i as int));
                assert(ts.last() == self.policies@[i as int].resource_types@);
                assert(positions@.map_values(|i: usize| i as int) =~= indexed_under(ts, resource_type));
            }
            i = i + 1;
        }
        assert(types.take(self.policies@.len() as int) =~= types);
        let ghost want = indexed_under(types, resource_type);
        let mut out: Vec<&PolicyEntry> = Vec::new();
        let mut k: usize = 0;
        while k < positions.len()
            invariant
                k <= positions@.len(),
                types == self.types_of(),
                positions@.map_values(|i: usize| i as int) == want,
                want == indexed_under(types, resource_type),
                out@.len() == k,
                forall|m: int| 0 <= m < k ==> *#[trigger] out@[m] == self.applicable(resource_type)[m],
            decreases positions@.len() - k,
        {
            proof { lemma_indexed_in_range(types, resource_type, k as int); }
            assert(want[k as int] == positions@[k as int] as int);
            out.push(&self.policies[positions[k]]);
            k = k + 1;
        }
        out
    }

    /// The first policy with the given name.
    pub fn get_policy(&self, name: &str) -> (r: Option<&PolicyEntry>)
        ensures
            match r {
                Some(p) => exists|i: int| 0 <= i < self.entries().len() && *p == self.entries()[i]
                    && p.name@ == name@ && forall|j: int| 0 <= j < i ==> (#[trigger] self.entries()[j]).name@ != name@,
                None => forall|i: int| 0 <= i < self.entries().len() ==> (#[trigger] self.entries()[i]).name@ != name@,
            },
    {
        let mut i: usize = 0;
        while i < self.policies.len()
            invariant
                i <= self.policies@.len(),
                forall|j: int| 0 <= j < i ==> (#[trigger] self.entries()[j]).name@ != name@,
            decreases self.policies@.len() - i,
        {
            if str_eq(self.policies[i].name.as_str(), name) {
                assert(self.entries()[i as int] == self.policies@[i as int]);
                return Some(&self.policies[i]);
            }
            i = i + 1;
        }
        None
    }

    /// The number of policies.
    pub fn len(&self) -> (n: usize)
        ensures
            n == self.entries().len(),
    {
        self.policies.len()
    }

    /// Whether there is no policy.
    pub fn is_empty(&self) -> (b: bool)
        ensures
            b == (self.entries().len() == 0),
    {
        self.policies.len() == 0
    }
}

/// The entry is straight-line code ending with its only `Return`.
pub open spec fn is_straight(e: PolicyEntry) -> bool {
    exists|v: bool| straight_then_return(e.bytecode.code@, v)
}

/// Every entry is straight-line code ending with its only `Return`.
pub open spec fn all_straight(s: Seq<PolicyEntry>) -> bool {
    forall|i: int| 0 <= i < s.len() ==> #[trigger] is_straight(s[i])
}

/// Every jump of every entry goes forward.
pub open spec fn all_forward(s: Seq<PolicyEntry>) -> bool {
    forall|i: int| 0 <= i < s.len() ==> forward_jumps((#[trigger] s[i]).bytecode.code@)
}

/// Whether every jump of the code goes forward.
fn code_jumps_forward(code: &Vec<Instruction>) -> (b: bool)
    ensures
        b == forward_jumps(code@),
{
    let mut k: usize = 0;
    while k < code.len()
        invariant
            k <= code@.len(),
            forall|j: int| 0 <= j < k ==> match #[trigger] code@[j] {
                Instruction::Jump { offset } => offset > 0,
                Instruction::JumpIfFalse { offset } => offset > 0,
                _ => true,
            },
        decreases code@.len() - k,
    {
        let ok = match &code[k] {
            Instruction::Jump { offset } => *offset > 0,
            Instruction::JumpIfFalse { offset } => *offset > 0,
            _ => true,
        };
        if !ok {
            return false;
        }
        k = k + 1;
    }
    true
}

/// Update request for the policy store.
#[derive(Debug, Clone)]
pub enum UpdateRequest {
    /// Add a new policy
    AddPolicy { name: String, source: String, resource_types: Vec<ResourceTypeId> },
    /// Remove a policy by name
    RemovePolicy { name: String },
    /// Replace all policies
    ReplaceAll { policies: Vec<(String, String, Vec<ResourceTypeId>)> },
}

/// Result of an update operation.
#[derive(Debug, Clone)]
pub enum UpdateResult {
    /// Update succeeded, new version
    Success { version: u64 },
    /// Update failed with error
    Error { message: String },
}

/// Snapshot of store statistics.
#[derive(Debug, Clone, Copy)]
pub struct StoreStatSnapshot {
    pub reads: u64,
    pub updates: u64,
    pub update_failures: u64,
    pub current_version: u64,
}

/// The token kinds of a source text.
pub open spec fn source_tokens(source: Seq<char>) -> Seq<KindModel> {
    tokens_from(source, 0).map_values(|t: TokenModel| t.kind)
}

/// What parsing a source text gives: the policy by its tree, or the parse error.
pub open spec fn parse_source(source: Seq<char>) -> Result<PolicyTree, PErr> {
    match p_policy(source_tokens(source), 0) {
        Ok((t, _)) => Ok(t),
        Err(e) => Err(e),
    }
}

/// `pol` is a policy that `source` parses to.
pub open spec fn parsed_from(source: Seq<char>, pol: Policy) -> bool {
    parse_source(source) == Ok::<PolicyTree, PErr>(policy_tree(pol))
}

/// A source text that can be handed to the parser, and whose policy compiles within the
/// bytecode's counters (code size in a `u32`, field offsets in a `u16`).
pub open spec fn source_fits(source: Seq<char>) -> bool {
    &&& source.len() < usize::MAX
    &&& forall|pol: Policy| #[trigger] parsed_from(source, pol) ==> fits(gen_policy(pol, start_state()))
}

/// Every source text of the request fits.
pub open spec fn request_fits(request: UpdateRequest) -> bool {
    match request {
        UpdateRequest::AddPolicy { source, .. } => source_fits(source@),
        UpdateRequest::RemovePolicy { .. } => true,
        UpdateRequest::ReplaceAll { policies } => forall|i: int| 0 <= i < policies@.len()
            ==> source_fits((#[trigger] policies@[i]).1@),
    }
}

/// A check that a source text fits: it is shorter than `usize::MAX`, and it does not parse
/// or its policy's bound on compiled code (`policy_cost`) is at most 65535. The bound may
/// exceed the code's true size, so a policy that fits can still be refused here.
pub fn source_fits_check(source: &str) -> (b: bool)
    ensures
        b ==> source_fits(source@),
{
    if source.unicode_len() == usize::MAX {
        return false;
    }
    let mut parser = Parser::new(source);
    match parser.parse_policy() {
        Err(_) => true,
        Ok(ast) => {
            let c = policy_cost_exec(&ast);
            proof {
                if c < 65536 {
                    assert forall|pol: Policy| #[trigger] parsed_from(source@, pol)
                        implies fits(gen_policy(pol, start_state())) by {
                        assert(policy_tree(pol) == policy_tree(ast));
                        law_cost_bounds_code(pol);
                    }
                }
            }
            c < 65536
        },
    }
}

/// A check that every source text of the request fits (`source_fits_check`).
pub fn request_fits_check(request: &UpdateRequest) -> (b: bool)
    ensures
        b ==> request_fits(*request),
{
    match request {
        UpdateRequest::AddPolicy { source, .. } => source_fits_check(source.as_str()),
        UpdateRequest::RemovePolicy { .. } => true,
        UpdateRequest::ReplaceAll { policies } => {
            let mut i: usize = 0;
            while i < policies.len()
                invariant
                    i <= policies@.len(),
                    forall|k: int| 0 <= k < i ==> source_fits((#[trigger] policies@[k]).1@),
                decreases policies@.len() - i,
            {
                if !source_fits_check(policies[i].1.as_str()) {
                    return false;
                }
                i = i + 1;
            }
            true
        },
    }
}

/// The field mapping of a compiled entry: each field offset that compilation allocated maps
/// to the segments of its path, the pieces of the path text between dots, and no other
/// offset is mapped.
pub open spec fn field_path_mapping(m: Map<u16, Vec<String>>, fields: Seq<(Seq<char>, u16)>) -> bool {
    &&& m.dom() == Set::new(|k: u16| exists|i: int| 0 <= i < fields.len() && #[trigger] fields[i].1 == k)
    &&& forall|i: int| 0 <= i < fields.len()
        ==> strings_chars(m[(#[trigger] fields[i]).1]@) == split_on(fields[i].0, '.')
}

/// The message of a parse failure of the named policy.
pub open spec fn parse_failure(name: Seq<char>, e: PErr) -> Seq<char> {
    "Failed to parse policy '"@ + name + "': "@ + parse_error_message(e)
}

/// `entry` is the named policy compiled from `pol` with the given resource types.
pub open spec fn compiled_entry(entry: PolicyEntry, name: Seq<char>, pol: Policy, types: Seq<ResourceTypeId>) -> bool {
    &&& gen_policy(pol, start_state()).err is None
    &&& compiled_as(*entry.bytecode, gen_policy(pol, start_state()), 0)
    &&& straight_then_return(entry.bytecode.code@, pol.requirements is Requires)
    &&& entry.name@ == name
    &&& entry.resource_types@ == types
    &&& field_path_mapping(entry.field_mapping@, gen_policy(pol, start_state()).fields)
}

/// What compiling the named policy from `source` gives: `Ok` with an entry compiled from a
/// policy that `source` parses to, or the parse or compile error, with its message.
pub open spec fn compile_outcome(name: Seq<char>, source: Seq<char>, types: Seq<ResourceTypeId>, r: Result<PolicyEntry, Error>) -> bool {
    match r {
        Ok(entry) => exists|pol: Policy| #[trigger] parsed_from(source, pol) && compiled_entry(entry, name, pol, types),
        Err(Error::ParseError(m)) => parse_source(source) matches Err(e) && m@ == parse_failure(name, e),
        Err(Error::CompilationError(m)) => exists|pol: Policy| #[trigger] parsed_from(source, pol)
            && (gen_policy(pol, start_state()).err matches Some(ce)
            && m@ == "Failed to compile policy '"@ + name + "': "@ + error_message(ce)),
        Err(_) => false,
    }
}

/// `prefix`, the name, `': ` and the detail.
fn failure_message(prefix: &str, name: &str, detail: &str) -> (m: String)
    ensures
        m@ == prefix@ + name@ + "': "@ + detail@,
{
    let mut m = owned(prefix);
    append_str(&mut m, name);
    append_str(&mut m, "': ");
    append_str(&mut m, detail);
    m
}

/// The field mapping of the allocated field paths: the offset of each path maps to the
/// path's segments.
fn field_slots(fields: &StrMap<u16>) -> (m: FieldMapping)
    requires
        fields.entries().len() <= u16::MAX,
        forall|i: int| 0 <= i < fields.entries().len() ==> #[trigger] fields.entries()[i].1 == i,
    ensures
        field_path_mapping(m@, fields.entries()),
{
    let ghost f = fields.entries();
    let n = fields.len();
    let mut field_mapping: FieldMapping = HashMap::new();
    let mut idx: usize = 0;
    assert(field_mapping@.dom() =~= Set::new(|k: u16| (k as int) < 0));
    while idx < n
        invariant
            f == fields.entries(),
            n == f.len(),
            n <= u16::MAX,
            idx <= n,
            field_mapping@.dom() == Set::new(|k: u16| (k as int) < idx),
            forall|k: u16| (k as int) < idx ==> strings_chars(#[trigger] field_mapping@[k]@) == split_on(f[k as int].0, '.'),
        decreases n - idx,
    {
        let key: u16 = idx as u16;
        let segments = split_str(fields.key_at(idx).as_str(), '.');
        field_mapping.insert(key, segments);
        proof {
            assert(field_mapping@.dom() =~= Set::new(|k: u16| (k as int) < idx + 1));
        }
        idx = idx + 1;
    }
    proof {
        assert forall|k: u16| field_mapping@.dom().contains(k)
            <==> (exists|i: int| 0 <= i < f.len() && #[trigger] f[i].1 == k) by {
            if field_mapping@.dom().contains(k) {
                assert(f[k as int].1 == k);
            }
        }
        assert(field_mapping@.dom() =~= Set::new(|k: u16| exists|i: int| 0 <= i < f.len() && #[trigger] f[i].1 == k));
        assert forall|i: int| 0 <= i < f.len()
            implies strings_chars(field_mapping@[(#[trigger] f[i]).1]@) == split_on(f[i].0, '.') by {
            assert(f[i].1 == i);
            let k: u16 = i as u16;
            assert(strings_chars(field_mapping@[k]@) == split_on(f[k as int].0, '.'));
        }
    }
    field_mapping
}

/// Compile a policy from source: parse it, compile it as policy 0, and map each field
/// offset the compiler allocated to the segments of its path.
pub fn compile_policy(name: &str, source: &str, resource_types: Vec<ResourceTypeId>) -> (r: Result<PolicyEntry, Error>)
    requires
        source_fits(source@),
    ensures
        compile_outcome(name@, source@, resource_types@, r),
        parse_source(source@) is Err <==> r matches Err(Error::ParseError(_)),
{
    let mut parser = Parser::new(source);
    let ast = match parser.parse_policy() {
        Ok(p) => p,
        Err(e) => {
            let text = e.to_string();
            return Err(Error::ParseError(failure_message("Failed to parse policy '", name, text.as_str())));
        },
    };
    let compiler = PolicyCompiler::new(0);
    proof {
        assert(parsed_from(source@, ast));
    }
    let (bytecode, fields) = match compiler.compile_with_fields(&ast) {
        Ok(b) => b,
        Err(e) => {
            let text = e.to_string();
            return Err(Error::CompilationError(failure_message("Failed to compile policy '", name, text.as_str())));
        },
    };
    proof {
        law_policy_code_shape(ast);
    }
    let field_mapping = field_slots(&fields);
    let entry = PolicyEntry { name: owned(name), bytecode: Arc::new(bytecode), field_mapping, resource_types };
    proof {
        assert(compiled_entry(entry, name@, ast, resource_types@));
    }
    Ok(entry)
}

/// The policies without those with the given name, in order.
pub open spec fn without_name(s: Seq<PolicyEntry>, name: Seq<char>) -> Seq<PolicyEntry>
    decreases s.len(),
{
    if s.len() == 0 {
        s
    } else if s.last().name@ == name {
        without_name(s.drop_last(), name)
    } else {
        without_name(s.drop_last(), name).push(s.last())
    }
}

proof fn lemma_without_name_members(s: Seq<PolicyEntry>, name: Seq<char>)
    ensures
        forall|k: int| 0 <= k < without_name(s, name).len()
            ==> exists|j: int| 0 <= j < s.len() && #[trigger] without_name(s, name)[k] == s[j],
    decreases s.len(),
{
    if s.len() > 0 {
        lemma_without_name_members(s.drop_last(), name);
        let w = without_name(s, name);
        let w0 = without_name(s.drop_last(), name);
        assert forall|k: int| 0 <= k < w.len() implies exists|j: int| 0 <= j < s.len() && #[trigger] w[k] == s[j] by {
            if k < w0.len() {
                assert(w[k] == w0[k]);
                let j = choose|j: int| 0 <= j < s.drop_last().len() && w0[k] == s.drop_last()[j];
                assert(s[j] == s.drop_last()[j]);
            } else {
                assert(w[k] == s[s.len() - 1]);
            }
        }
    }
}

/// The entries of a sequence of compiled policies, one for each request, all compiled.
pub open spec fn all_compiled(specs: Seq<(String, String, Vec<ResourceTypeId>)>, entries: Seq<PolicyEntry>) -> bool {
    &&& entries.len() == specs.len()
    &&& forall|i: int| 0 <= i < specs.len() ==> compile_outcome(
        (#[trigger] specs[i]).0@, specs[i].1@, specs[i].2@, Ok::<PolicyEntry, Error>(entries[i]),
    )
}

/// The named policy compiles from its source.
pub open spec fn compiles(name: Seq<char>, source: Seq<char>, types: Seq<ResourceTypeId>) -> bool {
    exists|e: PolicyEntry| compile_outcome(name, source, types, Ok::<PolicyEntry, Error>(e))
}

/// A copy of a list of resource types.
fn copy_types(v: &Vec<ResourceTypeId>) -> (r: Vec<ResourceTypeId>)
    ensures
        r@ == v@,
{
    let mut r: Vec<ResourceTypeId> = Vec::new();
    let mut k: usize = 0;
    while k < v.len()
        invariant
            k <= v@.len(),
            r@ == v@.take(k as int),
        decreases v@.len() - k,
    {
        r.push(v[k]);
        k = k + 1;
        assert(r@ =~= v@.take(k as int));
    }
    assert(v@.take(v@.len() as int) =~= v@);
    r
}

/// Compile each named source, in order, stopping at the first failure.
fn compile_all(specs: &Vec<(String, String, Vec<ResourceTypeId>)>) -> (r: Result<Vec<PolicyEntry>, Error>)
    requires
        forall|i: int| 0 <= i < specs@.len() ==> source_fits((#[trigger] specs@[i]).1@),
    ensures
        match r {
            Ok(es) => all_compiled(specs@, es@),
            Err(e) => exists|i: int| 0 <= i < specs@.len()
                && (forall|j: int| 0 <= j < i ==> compiles((#[trigger] specs@[j]).0@, specs@[j].1@, specs@[j].2@))
                && #[trigger] compile_outcome(specs@[i].0@, specs@[i].1@, specs@[i].2@, Err::<PolicyEntry, Error>(e)),
        },
{
    let mut out: Vec<PolicyEntry> = Vec::new();
    let mut i: usize = 0;
    while i < specs.len()
        invariant
            i <= specs@.len(),
            forall|i: int| 0 <= i < specs@.len() ==> source_fits((#[trigger] specs@[i]).1@),
            all_compiled(specs@.take(i as int), out@),
        decreases specs@.len() - i,
    {
        let types = copy_types(&specs[i].2);
        let ghost before = out@;
        match compile_policy(specs[i].0.as_str(), specs[i].1.as_str(), types) {
            Ok(entry) => {
                out.push(entry);
                proof {
                    let t = specs@.take(i + 1);
                    assert forall|k: int| 0 <= k < t.len() implies compile_outcome(
                        (#[trigger] t[k]).0@, t[k].1@, t[k].2@, Ok::<PolicyEntry, Error>(out@[k])) by {
                        if k < i {
                            assert(t[k] == specs@.take(i as int)[k]);
                        }
                    }
                }
            },
            Err(e) => {
                proof {
                    assert forall|j: int| 0 <= j < i implies compiles((#[trigger] specs@[j]).0@, specs@[j].1@, specs@[j].2@) by {
                        assert(specs@.take(i as int)[j] == specs@[j]);
                        assert(compile_outcome(specs@[j].0@, specs@[j].1@, specs@[j].2@, Ok::<PolicyEntry, Error>(before[j])));
                    }
                }
                return Err(e);
            },
        }
        i = i + 1;
    }
    assert(specs@.take(specs@.len() as int) =~= specs@);
    Ok(out)
}

/// The policies of `s` without those with the given name, in order.
fn remove_named(policies: Vec<PolicyEntry>, name: &str) -> (r: Vec<PolicyEntry>)
    ensures
        r@ == without_name(policies@, name@),
{
    let ghost orig = policies@;
    let mut policies = policies;
    let mut i: usize = 0;
    let ghost mut j: int = 0;
    assert(orig.take(0) =~= Seq::<PolicyEntry>::empty());
    assert(policies@.take(0) =~= Seq::<PolicyEntry>::empty());
    assert(orig.skip(0) =~= orig);
    while i < policies.len()
        invariant
            0 <= j <= orig.len(),
            i <= policies@.len(),
            policies@.take(i as int) == without_name(orig.take(j), name@),
            policies@.skip(i as int) == orig.skip(j),
        decreases policies@.len() - i,
    {
        assert(policies@.skip(i as int).len() == policies@.len() - i);
        assert(orig.skip(j).len() == orig.len() - j);
        assert(orig.skip(j)[0] == policies@[i as int]);
        assert(orig.take(j + 1).drop_last() =~= orig.take(j));
        assert(orig.take(j + 1).last() == orig[j]);
        if str_eq(policies[i].name.as_str(), name) {
            let ghost before = policies@;
            let _removed = policies.remove(i);
            proof {
                assert(policies@.take(i as int) =~= before.take(i as int));
                assert(policies@.skip(i as int) =~= before.skip(i + 1));
                assert(orig.skip(j + 1) =~= orig.skip(j).skip(1));
                assert(before.skip(i + 1) =~= before.skip(i as int).skip(1));
                j = j + 1;
            }
        } else {
            proof {
                assert(policies@.take(i + 1) =~= policies@.take(i as int).push(policies@[i as int]));
                assert(policies@.skip(i + 1) =~= policies@.skip(i as int).skip(1));
                assert(orig.skip(j + 1) =~= orig.skip(j).skip(1));
                j = j + 1;
            }
            i = i + 1;
        }
    }
    assert(orig.skip(j).len() == 0);
    assert(orig.take(j) =~= orig);
    assert(policies@.take(i as int) =~= policies@);
    policies
}

/// What an update makes of the current policies: `Ok` with the next policies, or the error
/// that stopped it.
pub open spec fn update_outcome(current: Seq<PolicyEntry>, request: UpdateRequest, r: Result<Seq<PolicyEntry>, Error>) -> bool {
    match request {
        UpdateRequest::AddPolicy { name, source, resource_types } => match r {
            Ok(next) => next.len() == current.len() + 1 && next.drop_last() == current
                && compile_outcome(name@, source@, resource_types@, Ok::<PolicyEntry, Error>(next.last())),
            Err(e) => compile_outcome(name@, source@, resource_types@, Err::<PolicyEntry, Error>(e)),
        },
        UpdateRequest::RemovePolicy { name } => r == Ok::<Seq<PolicyEntry>, Error>(without_name(current, name@)),
        UpdateRequest::ReplaceAll { policies } => match r {
            Ok(next) => all_compiled(policies@, next),
            Err(e) => exists|i: int| 0 <= i < policies@.len()
                && (forall|j: int| 0 <= j < i ==> compiles((#[trigger] policies@[j]).0@, policies@[j].1@, policies@[j].2@))
                && #[trigger] compile_outcome(policies@[i].0@, policies@[i].1@, policies@[i].2@, Err::<PolicyEntry, Error>(e)),
        },
    }
}

proof fn lemma_straight_after_update(current: Seq<PolicyEntry>, request: UpdateRequest, next: Seq<PolicyEntry>)
    requires
        all_straight(current),
        update_outcome(current, request, Ok::<Seq<PolicyEntry>, Error>(next)),
    ensures
        all_straight(next),
{
    match request {
        UpdateRequest::AddPolicy { name, source, resource_types } => {
            assert forall|i: int| 0 <= i < next.len() implies #[trigger] is_straight(next[i]) by {
                if i < current.len() {
                    assert(next[i] == next.drop_last()[i]);
                    assert(is_straight(current[i]));
                } else {
                    let e = next.last();
                    let pol = choose|pol: Policy| #[trigger] parsed_from(source@, pol) && compiled_entry(e, name@, pol, resource_types@);
                    assert(straight_then_return(e.bytecode.code@, pol.requirements is Requires));
                    assert(next[i] == e);
                }
            }
            assert(all_straight(next));
        },
        UpdateRequest::RemovePolicy { name } => {
            lemma_without_name_members(current, name@);
            assert forall|i: int| 0 <= i < next.len() implies #[trigger] is_straight(next[i]) by {
                let j = choose|j: int| 0 <= j < current.len() && without_name(current, name@)[i] == current[j];
                assert(is_straight(current[j]));
            }
        },
        UpdateRequest::ReplaceAll { policies } => {
            assert forall|i: int| 0 <= i < next.len() implies #[trigger] is_straight(next[i]) by {
                assert(compile_outcome(policies@[i].0@, policies@[i].1@, policies@[i].2@, Ok::<PolicyEntry, Error>(next[i])));
                let pol = choose|pol: Policy| #[trigger] parsed_from(policies@[i].1@, pol)
                    && compiled_entry(next[i], policies@[i].0@, pol, policies@[i].2@);
                assert(straight_then_return(next[i].bytecode.code@, pol.requirements is Requires));
            }
        },
    }
}

/// The next policies after an update, or the error that stopped it.
fn next_policies(current: Vec<PolicyEntry>, request: UpdateRequest) -> (r: Result<Vec<PolicyEntry>, Error>)
    requires
        request_fits(request),
    ensures
        match r {
            Ok(next) => update_outcome(current@, request, Ok::<Seq<PolicyEntry>, Error>(next@)),
            Err(e) => update_outcome(current@, request, Err::<Seq<PolicyEntry>, Error>(e)),
        },
{
    let ghost cur = current@;
    match request {
        UpdateRequest::AddPolicy { name, source, resource_types } => {
            let entry = match compile_policy(name.as_str(), source.as_str(), resource_types) {
                Ok(e) => e,
                Err(e) => return Err(e),
            };
            let mut policies = current;
            policies.push(entry);
            proof {
                assert(policies@.drop_last() =~= cur);
            }
            Ok(policies)
        },
        UpdateRequest::RemovePolicy { name } => Ok(remove_named(current, name.as_str())),
        UpdateRequest::ReplaceAll { policies } => compile_all(&policies),
    }
}

/// Process an update request: the next snapshot, one version after the current one, or the
/// error that stopped the update (the current snapshot then stays as it is).
pub fn process_update(current: PolicySnapshot, request: UpdateRequest) -> (r: Result<PolicySnapshot, Error>)
    requires
        current.version_number() < u64::MAX,
        request_fits(request),
    ensures
        match r {
            Ok(s) => s.version_number() == current.version_number() + 1
                && update_outcome(current.entries(), request, Ok::<Seq<PolicyEntry>, Error>(s.entries()))
                && (current.straight_line() ==> s.straight_line()),
            Err(e) => update_outcome(current.entries(), request, Err::<Seq<PolicyEntry>, Error>(e)),
        },
{
    let new_version = current.version + 1;
    let ghost cur = current.entries();
    let ghost req = request;
    match next_policies(current.policies, request) {
        Ok(next) => {
            proof {
                if all_straight(cur) {
                    lemma_straight_after_update(cur, req, next@);
                }
            }
            Ok(PolicySnapshot::new(new_version, next))
        },
        Err(e) => Err(e),
    }
}

/// The result of running an entry's code against a context.
pub open spec fn entry_result(e: PolicyEntry, ctx: EvaluationContext) -> Result<bool, Seq<char>> {
    outcome(*e.bytecode, e.field_mapping@, ctx, MAX_STACK_SIZE as nat).0
}

/// Running an entry's code against a context ends.
pub open spec fn entry_halts(e: PolicyEntry, ctx: EvaluationContext) -> bool {
    halts(*e.bytecode, e.field_mapping@, ctx, MAX_STACK_SIZE as nat)
}

/// The names of the entries whose code gives `true`, in order.
pub open spec fn matched_names(es: Seq<PolicyEntry>, ctx: EvaluationContext) -> Seq<Seq<char>>
    decreases es.len(),
{
    if es.len() == 0 {
        Seq::empty()
    } else if entry_result(es.last(), ctx) == Ok::<bool, Seq<char>>(true) {
        matched_names(es.drop_last(), ctx).push(es.last().name@)
    } else {
        matched_names(es.drop_last(), ctx)
    }
}

/// The name and error of the first entry whose code fails, if any.
pub open spec fn first_failure(es: Seq<PolicyEntry>, ctx: EvaluationContext) -> Option<(Seq<char>, Seq<char>)>
    decreases es.len(),
{
    if es.len() == 0 {
        None
    } else {
        match first_failure(es.drop_last(), ctx) {
            Some(f) => Some(f),
            None => match entry_result(es.last(), ctx) {
                Err(m) => Some((es.last().name@, m)),
                Ok(_) => None,
            },
        }
    }
}

/// The decision on the applicable entries, as kind, reason and matched names, or the error
/// message of the first failing entry: `Deny` when no entry applies, `Allow` with the names
/// of the entries that allow when one does, `Deny` otherwise.
pub open spec fn evaluation(es: Seq<PolicyEntry>, ctx: EvaluationContext) -> Result<(DecisionKind, Option<Seq<char>>, Seq<Seq<char>>), Seq<char>> {
    if es.len() == 0 {
        Ok((DecisionKind::Deny, Some("No policies found for resource type"@), Seq::empty()))
    } else {
        match first_failure(es, ctx) {
            Some((n, m)) => Err("Policy '"@ + n + "' failed: "@ + m),
            None => if matched_names(es, ctx).len() > 0 {
                Ok((DecisionKind::Allow, None, matched_names(es, ctx)))
            } else {
                Ok((DecisionKind::Deny, Some("No policies allowed access"@), Seq::empty()))
            },
        }
    }
}

/// A decision as kind, reason and matched names.
pub open spec fn decision_parts(d: Decision) -> (DecisionKind, Option<Seq<char>>, Seq<Seq<char>>) {
    (d.kind, match d.reason { Some(r) => Some(r@), None => None }, strings_chars(d.matched_policies@))
}

/// Evaluate the policies of a snapshot that apply to the resource type of a context.
pub fn evaluate_snapshot(snap: &PolicySnapshot, ctx: &EvaluationContext) -> (r: Result<Decision, Error>)
    requires
        forall|k: int| 0 <= k < snap.applicable(ctx.resource.type_id).len()
            ==> entry_halts(#[trigger] snap.applicable(ctx.resource.type_id)[k], *ctx),
    ensures
        match r {
            Ok(d) => evaluation(snap.applicable(ctx.resource.type_id), *ctx) == Ok::<(DecisionKind, Option<Seq<char>>, Seq<Seq<char>>), Seq<char>>(decision_parts(d)),
            Err(e) => e matches Error::EvaluationError(m)
                && evaluation(snap.applicable(ctx.resource.type_id), *ctx) == Err::<(DecisionKind, Option<Seq<char>>, Seq<Seq<char>>), Seq<char>>(m@),
        },
{
    let ghost es = snap.applicable(ctx.resource.type_id);
    let policies = snap.policies_for_resource(ctx.resource.type_id);
    if policies.len() == 0 {
        let d = Decision {
            kind: DecisionKind::Deny,
            reason: Some(owned("No policies found for resource type")),
            matched_policies: Vec::new(),
        };
        assert(strings_chars(d.matched_policies@) =~= Seq::<Seq<char>>::empty());
        return Ok(d);
    }
    let mut allow = false;
    let mut matched: Vec<String> = Vec::new();
    let mut k: usize = 0;
    assert(es.take(0) =~= Seq::<PolicyEntry>::empty());
    while k < policies.len()
        invariant
            k <= policies@.len(),
            policies@.len() == es.len(),
            es == snap.applicable(ctx.resource.type_id),
            forall|m: int| 0 <= m < policies@.len() ==> *#[trigger] policies@[m] == es[m],
            forall|m: int| 0 <= m < es.len() ==> entry_halts(#[trigger] es[m], *ctx),
            first_failure(es.take(k as int), *ctx) is None,
            strings_chars(matched@) == matched_names(es.take(k as int), *ctx),
            allow == (matched_names(es.take(k as int), *ctx).len() > 0),
        decreases policies@.len() - k,
    {
        let entry: &PolicyEntry = policies[k];
        let ghost t = es.take(k + 1);
        assert(t.drop_last() =~= es.take(k as int));
        assert(t.last() == *entry);
        let mut interp = Interpreter::new(entry.field_mapping.clone());
        assert(entry_halts(es[k as int], *ctx));
        match interp.evaluate(&*entry.bytecode, ctx) {
            Ok(result) => {
                if result {
                    allow = true;
                    matched.push(entry.name.clone());
                    assert(strings_chars(matched@) =~= matched_names(t, *ctx));
                }
            },
            Err(e) => {
                let mut m = owned("Policy '");
                append_str(&mut m, entry.name.as_str());
                append_str(&mut m, "' failed: ");
                append_str(&mut m, e.as_str());
                proof {
                    lemma_first_failure_prefix(es, *ctx, k + 1);
                }
                return Err(Error::EvaluationError(m));
            },
        }
        k = k + 1;
    }
    assert(es.take(es.len() as int) =~= es);
    if allow {
        Ok(Decision { kind: DecisionKind::Allow, reason: None, matched_policies: matched })
    } else {
        let d = Decision {
            kind: DecisionKind::Deny,
            reason: Some(owned("No policies allowed access")),
            matched_policies: Vec::new(),
        };
        assert(strings_chars(d.matched_policies@) =~= Seq::<Seq<char>>::empty());
        Ok(d)
    }
}

/// A failure in a prefix is the first failure of the whole sequence.
proof fn lemma_first_failure_prefix(es: Seq<PolicyEntry>, ctx: EvaluationContext, n: int)
    requires
        0 <= n <= es.len(),
        first_failure(es.take(n), ctx) is Some,
    ensures
        first_failure(es, ctx) == first_failure(es.take(n), ctx),
    decreases es.len() - n,
{
    if n < es.len() {
        let t = es.take(n + 1);
        assert(t.drop_last() =~= es.take(n));
        lemma_first_failure_prefix(es, ctx, n + 1);
    } else {
        assert(es.take(n) =~= es);
    }
}

/// In a snapshot of straight-line policies, running any policy against any context ends.
pub proof fn lemma_straight_snapshot_halts(snap: PolicySnapshot, resource_type: ResourceTypeId, ctx: EvaluationContext)
    requires
        snap.straight_line(),
    ensures
        forall|k: int| 0 <= k < snap.applicable(resource_type).len()
            ==> entry_halts(#[trigger] snap.applicable(resource_type)[k], ctx),
{
    assert forall|k: int| 0 <= k < snap.applicable(resource_type).len()
        implies entry_halts(#[trigger] snap.applicable(resource_type)[k], ctx) by {
        let idx = indexed_under(snap.types_of(), resource_type);
        lemma_indexed_in_range(snap.types_of(), resource_type, k);
        let e = snap.entries()[idx[k]];
        assert(is_straight(e));
        let v = choose|v: bool| straight_then_return(e.bytecode.code@, v);
        lemma_straight_outcome(*e.bytecode, e.field_mapping@, ctx, MAX_STACK_SIZE as nat, v);
    }
}

/// In a snapshot whose jumps all go forward, running any policy against any context ends:
/// this is what `evaluate_snapshot` asks, and `jumps_forward` checks it.
pub proof fn lemma_forward_snapshot_halts(snap: PolicySnapshot, resource_type: ResourceTypeId, ctx: EvaluationContext)
    requires
        all_forward(snap.entries()),
    ensures
        forall|k: int| 0 <= k < snap.applicable(resource_type).len()
            ==> entry_halts(#[trigger] snap.applicable(resource_type)[k], ctx),
{
    assert forall|k: int| 0 <= k < snap.applicable(resource_type).len()
        implies entry_halts(#[trigger] snap.applicable(resource_type)[k], ctx) by {
        let idx = indexed_under(snap.types_of(), resource_type);
        lemma_indexed_in_range(snap.types_of(), resource_type, k);
        let e = snap.entries()[idx[k]];
        assert(forward_jumps(e.bytecode.code@));
        law_forward_jumps_halt(*e.bytecode, e.field_mapping@, ctx, MAX_STACK_SIZE as nat);
    }
}

/// After a policy is removed by name, no policy of the next snapshot has that name.
pub proof fn law_remove_leaves_no_such_name(current: Seq<PolicyEntry>, name: String, next: Seq<PolicyEntry>)
    requires
        update_outcome(current, UpdateRequest::RemovePolicy { name }, Ok::<Seq<PolicyEntry>, Error>(next)),
    ensures
        forall|k: int| 0 <= k < next.len() ==> (#[trigger] next[k]).name@ != name@,
{
    lemma_without_name_no_name(current, name@);
}

proof fn lemma_without_name_no_name(s: Seq<PolicyEntry>, name: Seq<char>)
    ensures
        forall|k: int| 0 <= k < without_name(s, name).len() ==> (#[trigger] without_name(s, name)[k]).name@ != name,
    decreases s.len(),
{
    if s.len() > 0 {
        lemma_without_name_no_name(s.drop_last(), name);
        let w = without_name(s, name);
        let w0 = without_name(s.drop_last(), name);
        assert forall|k: int| 0 <= k < w.len() implies (#[trigger] w[k]).name@ != name by {
            if k < w0.len() {
                assert(w[k] == w0[k]);
            }
        }
    }
}

/// After a policy is added, the next snapshot's last policy carries its name and resource
/// types, so a lookup by that name finds a policy.
pub proof fn law_add_then_present(
    current: Seq<PolicyEntry>,
    name: String,
    source: String,
    resource_types: Vec<ResourceTypeId>,
    next: Seq<PolicyEntry>,
)
    requires
        update_outcome(current, UpdateRequest::AddPolicy { name, source, resource_types }, Ok::<Seq<PolicyEntry>, Error>(next)),
    ensures
        next.len() > 0,
        next.last().name@ == name@,
        next.last().resource_types@ == resource_types@,
        exists|k: int| 0 <= k < next.len() && (#[trigger] next[k]).name@ == name@,
{
    let e = next.last();
    let pol = choose|pol: Policy| #[trigger] parsed_from(source@, pol) && compiled_entry(e, name@, pol, resource_types@);
    assert(next[next.len() - 1].name@ == name@);
}

} // verus!
