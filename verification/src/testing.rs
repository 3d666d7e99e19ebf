//! Helpers for building policies, contexts and policy databases in tests.

use vstd::prelude::*;
use std::collections::HashMap;
use crate::attrs::{store, StrMap};
use crate::bytecode::{CompOp, CompiledPolicy, Instruction, Value};
use crate::index::PolicyDB;
use crate::interpreter::FieldMapping;
use crate::rar::{AttributeValue, EvaluationContext, Operation, ResourceTypeId};
use crate::text::owned;

verus! {

broadcast use vstd::std_specs::hash::group_hash_axioms;

/// A policy that returns the given value: one `Return` instruction.
pub fn simple_policy(policy_id: u64, allow: bool) -> (p: CompiledPolicy)
    ensures
        p.code@ == seq![Instruction::Return { value: allow }],
        p.constants@.len() == 0,
        p.header.policy_id == policy_id,
        p.header.code_size == 1,
        p.header.const_size == 0,
{
    let mut policy = CompiledPolicy::new(policy_id);
    policy.emit(Instruction::Return { value: allow });
    assert(policy.code@ =~= seq![Instruction::Return { value: allow }]);
    policy
}

/// The default context, with the given resource type and attributes.
pub fn test_context_with_resource(type_id: ResourceTypeId, attributes: StrMap<AttributeValue>) -> (ctx: EvaluationContext)
    ensures
        ctx.resource.type_id == type_id,
        ctx.resource.attributes == attributes,
        ctx.action.operation == Operation::Read,
        ctx.action.target@.len() == 0,
        ctx.action.attributes.entries().len() == 0,
        ctx.request.principal.id@.len() == 0,
        ctx.request.principal.roles@.len() == 0,
        ctx.request.principal.attributes.entries().len() == 0,
        ctx.request.timestamp == 0,
        ctx.request.source_ip is None,
        ctx.request.metadata.entries().len() == 0,
        ctx.approval_store is None,
        ctx.relationship_store is None,
{
    let mut ctx = EvaluationContext::default();
    ctx.resource.type_id = type_id;
    ctx.resource.attributes = attributes;
    ctx
}

/// The default context, with the given resource type and a single attribute.
pub fn test_context_with_attr(type_id: ResourceTypeId, attr_name: &str, attr_value: AttributeValue) -> (ctx: EvaluationContext)
    ensures
        ctx.resource.type_id == type_id,
        ctx.resource.attributes.entries() == seq![(attr_name@, attr_value)],
        ctx.approval_store is None,
        ctx.relationship_store is None,
{
    let mut attributes = StrMap::new();
    attributes.insert(owned(attr_name), attr_value);
    assert(store(Seq::<(Seq<char>, AttributeValue)>::empty(), attr_name@, attr_value) =~= seq![(attr_name@, attr_value)]);
    test_context_with_resource(type_id, attributes)
}

/// A policy database holding one policy.
pub fn policy_db_with_policy(
    name: &str,
    policy: CompiledPolicy,
    field_map: FieldMapping,
    resource_types: Vec<ResourceTypeId>,
) -> (db: PolicyDB)
    ensures
        db.entries().len() == 1,
        db.entries()[0].name@ == name@,
        db.entries()[0].policy == policy,
        db.entries()[0].field_map == field_map,
        db.entries()[0].resource_types == resource_types,
{
    let mut db = PolicyDB::new();
    db.add_policy(owned(name), policy, field_map, resource_types);
    db
}

/// The strings of a path, owned.
fn owned_path(path: &Vec<&str>) -> (v: Vec<String>)
    ensures
        v@.len() == path@.len(),
        forall|i: int| 0 <= i < path@.len() ==> (#[trigger] v@[i])@ == path@[i]@,
{
    let mut v: Vec<String> = Vec::new();
    let mut i: usize = 0;
    while i < path.len()
        invariant
            i <= path@.len(),
            v@.len() == i,
            forall|k: int| 0 <= k < i ==> (#[trigger] v@[k])@ == path@[k]@,
        decreases path@.len() - i,
    {
        v.push(owned(path[i]));
        i = i + 1;
    }
    v
}

/// A field mapping from offsets to paths; a later entry for an offset replaces an earlier
/// one.
pub fn field_mapping_from_paths(paths: &[(u16, Vec<&str>)]) -> (m: FieldMapping)
    ensures
        m@.dom() == Set::new(|k: u16| exists|i: int| 0 <= i < paths@.len() && (#[trigger] paths@[i]).0 == k),
        forall|i: int| #![trigger paths@[i]] 0 <= i < paths@.len()
            && (forall|j: int| i < j < paths@.len() ==> (#[trigger] paths@[j]).0 != paths@[i].0)
            ==> m@[paths@[i].0]@.len() == paths@[i].1@.len()
                && forall|k: int| 0 <= k < paths@[i].1@.len() ==> (#[trigger] m@[paths@[i].0]@[k])@ == paths@[i].1@[k]@,
{
    let mut mapping: FieldMapping = HashMap::new();
    let mut n: usize = 0;
    assert(mapping@.dom() =~= Set::new(|k: u16| exists|i: int| 0 <= i < 0 && (#[trigger] paths@[i]).0 == k));
    while n < paths.len()
        invariant
            n <= paths@.len(),
            mapping@.dom() == Set::new(|k: u16| exists|i: int| 0 <= i < n && (#[trigger] paths@[i]).0 == k),
            forall|i: int| #![trigger paths@[i]] 0 <= i < n
                && (forall|j: int| i < j < n ==> (#[trigger] paths@[j]).0 != paths@[i].0)
                ==> mapping@[paths@[i].0]@.len() == paths@[i].1@.len()
                    && forall|k: int| 0 <= k < paths@[i].1@.len() ==> (#[trigger] mapping@[paths@[i].0]@[k])@ == paths@[i].1@[k]@,
        decreases paths@.len() - n,
    {
        let offset = paths[n].0;
        let path = owned_path(&paths[n].1);
        mapping.insert(offset, path);
        proof {
            assert(mapping@.dom() =~= Set::new(|k: u16| exists|i: int| 0 <= i < n + 1 && (#[trigger] paths@[i]).0 == k)) by {
                assert forall|k: u16| mapping@.dom().contains(k) implies exists|i: int| 0 <= i < n + 1 && (#[trigger] paths@[i]).0 == k by {
                    if k == offset {
                        assert(paths@[n as int].0 == k);
                    }
                }
            }
        }
        n = n + 1;
    }
    mapping
}

/// Builder for test policies, one instruction at a time.
pub struct PolicyBuilder {
    policy: CompiledPolicy,
}

impl PolicyBuilder {
    /// The policy built so far.
    pub closed spec fn built(&self) -> CompiledPolicy {
        self.policy
    }

    /// A builder for an empty policy with the given identifier.
    pub fn new(policy_id: u64) -> (b: Self)
        ensures
            b.built().code@.len() == 0,
            b.built().constants@.len() == 0,
            b.built().header.policy_id == policy_id,
            b.built().header.code_size == 0,
            b.built().header.const_size == 0,
    {
        PolicyBuilder { policy: CompiledPolicy::new(policy_id) }
    }

    /// Append an instruction.
    fn with(self, instr: Instruction) -> (b: Self)
        requires
            self.built().header.code_size < u32::MAX,
        ensures
            b.built().code@ == self.built().code@.push(instr),
            b.built().constants@ == self.built().constants@,
            b.built().header.code_size == self.built().header.code_size + 1,
            b.built().header.const_size == self.built().header.const_size,
            b.built().header.policy_id == self.built().header.policy_id,
    {
        let mut b = self;
        b.policy.emit(instr);
        b
    }

    /// Load a field from the evaluation context.
    pub fn load_field(self, offset: u16) -> (b: Self)
        requires
            self.built().header.code_size < u32::MAX,
        ensures
            b.built().code@ == self.built().code@.push(Instruction::LoadField { offset }),
            b.built().constants@ == self.built().constants@,
            b.built().header.code_size == self.built().header.code_size + 1,
            b.built().header.const_size == self.built().header.const_size,
            b.built().header.policy_id == self.built().header.policy_id,
    {
        self.with(Instruction::LoadField { offset })
    }

    /// Add a constant and load it.
    pub fn load_const(self, value: Value) -> (b: Self)
        requires
            self.built().header.code_size < u32::MAX,
            self.built().header.const_size < u32::MAX,
        ensures
            b.built().code@ == self.built().code@.push(
                Instruction::LoadConst { idx: (self.built().constants@.len() % 65536) as u16 },
            ),
            b.built().constants@ == self.built().constants@.push(value),
            b.built().header.code_size == self.built().header.code_size + 1,
            b.built().header.const_size == self.built().header.const_size + 1,
            b.built().header.policy_id == self.built().header.policy_id,
    {
        let mut b = self;
        let idx = b.policy.add_constant(value);
        b.policy.emit(Instruction::LoadConst { idx });
        b
    }

    /// Add a comparison.
    pub fn compare(self, op: CompOp) -> (b: Self)
        requires
            self.built().header.code_size < u32::MAX,
        ensures
            b.built().code@ == self.built().code@.push(Instruction::Compare { op }),
            b.built().constants@ == self.built().constants@,
            b.built().header.code_size == self.built().header.code_size + 1,
            b.built().header.const_size == self.built().header.const_size,
            b.built().header.policy_id == self.built().header.policy_id,
    {
        self.with(Instruction::Compare { op })
    }

    /// Add a jump taken when the popped value is falsy.
    pub fn jump_if_false(self, offset: i16) -> (b: Self)
        requires
            self.built().header.code_size < u32::MAX,
        ensures
            b.built().code@ == self.built().code@.push(Instruction::JumpIfFalse { offset }),
            b.built().constants@ == self.built().constants@,
            b.built().header.code_size == self.built().header.code_size + 1,
            b.built().header.const_size == self.built().header.const_size,
            b.built().header.policy_id == self.built().header.policy_id,
    {
        self.with(Instruction::JumpIfFalse { offset })
    }

    /// Add an `And`.
    pub fn and(self) -> (b: Self)
        requires
            self.built().header.code_size < u32::MAX,
        ensures
            b.built().code@ == self.built().code@.push(Instruction::And),
            b.built().constants@ == self.built().constants@,
            b.built().header.code_size == self.built().header.code_size + 1,
            b.built().header.const_size == self.built().header.const_size,
            b.built().header.policy_id == self.built().header.policy_id,
    {
        self.with(Instruction::And)
    }

    /// Add an `Or`.
    pub fn or(self) -> (b: Self)
        requires
            self.built().header.code_size < u32::MAX,
        ensures
            b.built().code@ == self.built().code@.push(Instruction::Or),
            b.built().constants@ == self.built().constants@,
            b.built().header.code_size == self.built().header.code_size + 1,
            b.built().header.const_size == self.built().header.const_size,
            b.built().header.policy_id == self.built().header.policy_id,
    {
        self.with(Instruction::Or)
    }

    /// Add a `Not`.
    pub fn not(self) -> (b: Self)
        requires
            self.built().header.code_size < u32::MAX,
        ensures
            b.built().code@ == self.built().code@.push(Instruction::Not),
            b.built().constants@ == self.built().constants@,
            b.built().header.code_size == self.built().header.code_size + 1,
            b.built().header.const_size == self.built().header.const_size,
            b.built().header.policy_id == self.built().header.policy_id,
    {
        self.with(Instruction::Not)
    }

    /// Add a `Return` of the given value.
    pub fn return_value(self, value: bool) -> (b: Self)
        requires
            self.built().header.code_size < u32::MAX,
        ensures
            b.built().code@ == self.built().code@.push(Instruction::Return { value }),
            b.built().constants@ == self.built().constants@,
            b.built().header.code_size == self.built().header.code_size + 1,
            b.built().header.const_size == self.built().header.const_size,
            b.built().header.policy_id == self.built().header.policy_id,
    {
        self.with(Instruction::Return { value })
    }

    /// The policy built.
    pub fn build(self) -> (p: CompiledPolicy)
        ensures
            p == self.built(),
    {
        self.policy
    }
}

} // verus!
