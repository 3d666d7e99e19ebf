//! Bytecode interpreter: a bounded value stack and a machine that runs compiled policies
//! against an evaluation context.

use vstd::prelude::*;
use std::collections::HashMap;
use crate::attrs::lookup;
use crate::bytecode::{CompiledPolicy, Instruction, Value, ValueModel, compare_spec, truthy};
use crate::rar::{AttributeValue, EvaluationContext, Principal, Request, Resource, Action};
use crate::text::{nat_text, append_str, append_u64, owned, str_eq};

verus! {

broadcast use vstd::std_specs::hash::group_hash_axioms;

/// Maximum stack size used by `Stack::new`.
pub const MAX_STACK_SIZE: usize = 1024;

/// Field mapping from offset to path.
pub type FieldMapping = HashMap<u16, Vec<String>>;

/// The message of a push onto a full stack.
pub open spec fn overflow_message(max: nat) -> Seq<char> {
    "Stack overflow: exceeded max size of "@ + nat_text(max)
}

/// Evaluation stack with a maximum size.
pub struct Stack {
    values: Vec<Value>,
    max_size: usize,
}

impl Stack {
    /// The values on the stack, bottom first.
    pub closed spec fn contents(&self) -> Seq<ValueModel> {
        self.values@.map_values(|v: Value| v@)
    }

    /// The maximum number of values.
    pub closed spec fn capacity(&self) -> nat {
        self.max_size as nat
    }

    /// An empty stack holding at most `MAX_STACK_SIZE` values.
    pub fn new() -> (s: Self)
        ensures
            s.contents() == Seq::<ValueModel>::empty(),
            s.capacity() == MAX_STACK_SIZE,
    {
        Self::with_capacity(MAX_STACK_SIZE)
    }

    /// An empty stack holding at most `max_size` values.
    pub fn with_capacity(max_size: usize) -> (s: Self)
        ensures
            s.contents() == Seq::<ValueModel>::empty(),
            s.capacity() == max_size,
    {
        let initial = if max_size < 128 { max_size } else { 128 };
        let s = Stack { values: Vec::with_capacity(initial), max_size };
        assert(s.contents() =~= Seq::<ValueModel>::empty());
        s
    }

    /// The maximum number of values.
    pub fn max_size(&self) -> (m: usize)
        ensures
            m == self.capacity(),
    {
        self.max_size
    }

    /// Push a value; fails, leaving the stack as it was, when the stack is full.
    pub fn push(&mut self, value: Value) -> (r: Result<(), String>)
        ensures
            final(self).capacity() == old(self).capacity(),
            match r {
                Ok(()) => old(self).contents().len() < old(self).capacity()
                    && final(self).contents() == old(self).contents().push(value@),
                Err(e) => old(self).contents().len() >= old(self).capacity()
                    && final(self).contents() == old(self).contents()
                    && e@ == overflow_message(old(self).capacity()),
            },
    {
        if self.values.len() >= self.max_size {
            let mut msg = owned("Stack overflow: exceeded max size of ");
            append_u64(&mut msg, self.max_size as u64);
            return Err(msg);
        }
        self.values.push(value);
        assert(self.contents() =~= old(self).contents().push(value@));
        Ok(())
    }

    /// Pop the top value; fails on an empty stack.
    pub fn pop(&mut self) -> (r: Result<Value, String>)
        ensures
            final(self).capacity() == old(self).capacity(),
            match r {
                Ok(v) => old(self).contents().len() > 0 && v@ == old(self).contents().last()
                    && final(self).contents() == old(self).contents().drop_last(),
                Err(e) => old(self).contents().len() == 0 && final(self).contents() == old(self).contents()
                    && e@ == "Stack underflow"@,
            },
    {
        match self.values.pop() {
            Some(v) => {
                assert(self.contents() =~= old(self).contents().drop_last());
                Ok(v)
            },
            None => Err(owned("Stack underflow")),
        }
    }

    /// The top value, left in place; fails on an empty stack.
    pub fn peek(&self) -> (r: Result<&Value, String>)
        ensures
            match r {
                Ok(v) => self.contents().len() > 0 && v@ == self.contents().last(),
                Err(e) => self.contents().len() == 0 && e@ == "Stack is empty"@,
            },
    {
        let n = self.values.len();
        if n == 0 {
            Err(owned("Stack is empty"))
        } else {
            Ok(&self.values[n - 1])
        }
    }

    /// Number of values on the stack.
    pub fn len(&self) -> (n: usize)
        ensures
            n == self.contents().len(),
    {
        self.values.len()
    }

    /// Whether the stack holds no value.
    pub fn is_empty(&self) -> (b: bool)
        ensures
            b == (self.contents().len() == 0),
    {
        self.values.len() == 0
    }

    /// Remove every value.
    pub fn clear(&mut self)
        ensures
            final(self).contents() == Seq::<ValueModel>::empty(),
            final(self).capacity() == old(self).capacity(),
    {
        self.values.clear();
        assert(self.contents() =~= Seq::<ValueModel>::empty());
    }
}

impl Default for Stack {
    fn default() -> (s: Self)
        ensures
            s.contents() == Seq::<ValueModel>::empty(),
            s.capacity() == MAX_STACK_SIZE,
    {
        Self::new()
    }
}

// ----- the machine -----

/// Value of an attribute read by a policy; arrays are refused.
pub open spec fn attr_value(a: AttributeValue) -> Result<ValueModel, Seq<char>> {
    match a {
        AttributeValue::String(s) => Ok(ValueModel::Str(s@)),
        AttributeValue::Int(i) => Ok(ValueModel::Int(i)),
        AttributeValue::Bool(b) => Ok(ValueModel::Bool(b)),
        AttributeValue::Array(_) => Err("Array attributes not yet supported"@),
    }
}

/// Reading `resource.<path>`.
pub open spec fn resource_field(path: Seq<String>, r: Resource) -> Result<ValueModel, Seq<char>> {
    if path.len() == 0 {
        Err("Resource path cannot be empty"@)
    } else if path[0]@ == "type"@ {
        Ok(ValueModel::Int(r.type_id.0 as i64))
    } else {
        match lookup(r.attributes.entries(), path[0]@) {
            Some(a) => attr_value(a),
            None => Err("Attribute not found: "@ + path[0]@),
        }
    }
}

/// Reading `action.<path>`: no action field is readable.
pub open spec fn action_field(path: Seq<String>, a: Action) -> Result<ValueModel, Seq<char>> {
    if path.len() == 0 {
        Err("Action path cannot be empty"@)
    } else {
        Err("Action field not supported: "@ + path[0]@)
    }
}

/// Reading `request.principal.<path>`.
pub open spec fn principal_field(path: Seq<String>, p: Principal) -> Result<ValueModel, Seq<char>> {
    if path.len() == 0 {
        Err("Principal path cannot be empty"@)
    } else if path[0]@ == "id"@ {
        Ok(ValueModel::Str(p.id@))
    } else {
        match lookup(p.attributes.entries(), path[0]@) {
            Some(a) => attr_value(a),
            None => Err("Principal attribute not found: "@ + path[0]@),
        }
    }
}

/// Reading `request.<path>`.
pub open spec fn request_field(path: Seq<String>, r: Request) -> Result<ValueModel, Seq<char>> {
    if path.len() == 0 {
        Err("Request path cannot be empty"@)
    } else if path[0]@ == "principal"@ {
        if path.len() < 2 {
            Err("Principal path too short"@)
        } else {
            principal_field(path.skip(1), r.principal)
        }
    } else {
        match lookup(r.metadata.entries(), path[0]@) {
            Some(a) => attr_value(a),
            None => Err("Request metadata not found: "@ + path[0]@),
        }
    }
}

/// Reading the field registered under `offset`.
pub open spec fn field_value(fmap: Map<u16, Vec<String>>, offset: u16, ctx: EvaluationContext) -> Result<ValueModel, Seq<char>> {
    if !fmap.contains_key(offset) {
        Err("Unknown field offset: "@ + nat_text(offset as nat))
    } else {
        let path = fmap[offset]@;
        if path.len() == 0 {
            Err("Empty field path"@)
        } else if path[0]@ == "resource"@ {
            resource_field(path.skip(1), ctx.resource)
        } else if path[0]@ == "action"@ {
            action_field(path.skip(1), ctx.action)
        } else if path[0]@ == "request"@ {
            request_field(path.skip(1), ctx.request)
        } else {
            Err("Unknown RAR component: "@ + path[0]@)
        }
    }
}

/// State of the machine after one instruction.
pub enum Outcome {
    /// Execution goes on at the given instruction with the given stack.
    Running(int, Seq<ValueModel>),
    /// Execution ended with the given result and stack.
    Done(Result<bool, Seq<char>>, Seq<ValueModel>),
}

/// Pushing `v` and going on at `next`.
pub open spec fn push_then(next: int, st: Seq<ValueModel>, v: ValueModel, max: nat) -> Outcome {
    if st.len() >= max {
        Outcome::Done(Err(overflow_message(max)), st)
    } else {
        Outcome::Running(next, st.push(v))
    }
}

/// A relative jump; a target before the first instruction ends execution like running off the end.
pub open spec fn jump_to(pc: int, offset: i16, st: Seq<ValueModel>) -> Outcome {
    if pc + offset < 0 {
        Outcome::Done(Ok(false), st)
    } else {
        Outcome::Running(pc + offset, st)
    }
}

/// Applying a binary operation to the two values on top of the stack.
pub open spec fn binary_then(pc: int, st: Seq<ValueModel>, max: nat, f: spec_fn(ValueModel, ValueModel) -> Result<bool, Seq<char>>) -> Outcome {
    if st.len() == 0 {
        Outcome::Done(Err("Stack underflow"@), st)
    } else if st.len() == 1 {
        Outcome::Done(Err("Stack underflow"@), st.drop_last())
    } else {
        let b = st.last();
        let a = st.drop_last().last();
        let rest = st.drop_last().drop_last();
        match f(a, b) {
            Ok(r) => push_then(pc + 1, rest, ValueModel::Bool(r), max),
            Err(e) => Outcome::Done(Err(e), rest),
        }
    }
}

/// The message of a `Call` instruction.
pub open spec fn call_message(func: u8, argc: u8) -> Seq<char> {
    "Function calls not yet supported: func="@ + nat_text(func as nat) + ", argc="@ + nat_text(argc as nat)
}

/// One step of the machine at instruction `pc` with stack `st`.
pub open spec fn step(p: CompiledPolicy, fmap: Map<u16, Vec<String>>, ctx: EvaluationContext, max: nat, pc: int, st: Seq<ValueModel>) -> Outcome {
    if pc < 0 || pc >= p.code@.len() {
        Outcome::Done(Ok(false), st)
    } else {
        match p.code@[pc] {
            Instruction::LoadField { offset } => match field_value(fmap, offset, ctx) {
                Ok(v) => push_then(pc + 1, st, v, max),
                Err(e) => Outcome::Done(Err(e), st),
            },
            Instruction::LoadConst { idx } => if (idx as int) < p.constants@.len() {
                push_then(pc + 1, st, p.constants@[idx as int]@, max)
            } else {
                Outcome::Done(Err("Invalid constant index: "@ + nat_text(idx as nat)), st)
            },
            Instruction::Compare { op } => binary_then(pc, st, max, |a: ValueModel, b: ValueModel| compare_spec(a, b, op)),
            Instruction::And => binary_then(pc, st, max, |a: ValueModel, b: ValueModel| Ok::<bool, Seq<char>>(truthy(a) && truthy(b))),
            Instruction::Or => binary_then(pc, st, max, |a: ValueModel, b: ValueModel| Ok::<bool, Seq<char>>(truthy(a) || truthy(b))),
            Instruction::Not => if st.len() == 0 {
                Outcome::Done(Err("Stack underflow"@), st)
            } else {
                push_then(pc + 1, st.drop_last(), ValueModel::Bool(!truthy(st.last())), max)
            },
            Instruction::Return { value } => Outcome::Done(Ok(value), st),
            Instruction::Jump { offset } => jump_to(pc, offset, st),
            Instruction::JumpIfFalse { offset } => if st.len() == 0 {
                Outcome::Done(Err("Stack underflow"@), st)
            } else if !truthy(st.last()) {
                jump_to(pc, offset, st.drop_last())
            } else {
                Outcome::Running(pc + 1, st.drop_last())
            },
            Instruction::Call { func, argc } => Outcome::Done(Err(call_message(func, argc)), st),
        }
    }
}

/// Running at most `fuel` steps from `pc` with stack `st`: the result and final stack,
/// or `None` when the fuel runs out first.
pub open spec fn run(p: CompiledPolicy, fmap: Map<u16, Vec<String>>, ctx: EvaluationContext, max: nat, pc: int, st: Seq<ValueModel>, fuel: nat) -> Option<(Result<bool, Seq<char>>, Seq<ValueModel>)>
    decreases fuel,
{
    if fuel == 0 {
        None
    } else {
        match step(p, fmap, ctx, max, pc, st) {
            Outcome::Done(r, s) => Some((r, s)),
            Outcome::Running(next, s) => run(p, fmap, ctx, max, next, s, (fuel - 1) as nat),
        }
    }
}

/// Whether running the policy from its first instruction on an empty stack ends.
pub open spec fn halts(p: CompiledPolicy, fmap: Map<u16, Vec<String>>, ctx: EvaluationContext, max: nat) -> bool {
    exists|f: nat| #[trigger] run(p, fmap, ctx, max, 0, Seq::empty(), f) is Some
}

/// The fuel with which the run from the start ends.
pub open spec fn halting_fuel(p: CompiledPolicy, fmap: Map<u16, Vec<String>>, ctx: EvaluationContext, max: nat) -> nat {
    choose|f: nat| #[trigger] run(p, fmap, ctx, max, 0, Seq::empty(), f) is Some
}

/// Result and final stack of running the policy from its first instruction on an empty stack.
pub open spec fn outcome(p: CompiledPolicy, fmap: Map<u16, Vec<String>>, ctx: EvaluationContext, max: nat) -> (Result<bool, Seq<char>>, Seq<ValueModel>) {
    run(p, fmap, ctx, max, 0, Seq::empty(), halting_fuel(p, fmap, ctx, max)).unwrap()
}

/// Neither a jump nor a return: a step either goes on at the next instruction or stops
/// with an error.
pub open spec fn straight(i: Instruction) -> bool {
    !(i is Jump || i is JumpIfFalse || i is Return)
}

/// Straight-line code ending with its only `Return`, which gives `v`.
pub open spec fn straight_then_return(code: Seq<Instruction>, v: bool) -> bool {
    &&& code.len() > 0
    &&& code.last() == (Instruction::Return { value: v })
    &&& forall|k: int| 0 <= k < code.len() - 1 ==> straight(#[trigger] code[k])
}

/// The code holds no `Return true`.
pub open spec fn never_returns_true(code: Seq<Instruction>) -> bool {
    forall|k: int| 0 <= k < code.len() ==> #[trigger] code[k] != (Instruction::Return { value: true })
}

proof fn lemma_step_not_true(p: CompiledPolicy, fmap: Map<u16, Vec<String>>, ctx: EvaluationContext, max: nat, pc: int, st: Seq<ValueModel>)
    requires
        never_returns_true(p.code@),
    ensures
        step(p, fmap, ctx, max, pc, st) matches Outcome::Done(r, _) ==> r != Ok::<bool, Seq<char>>(true),
{
    if 0 <= pc < p.code@.len() {
        assert(p.code@[pc] != (Instruction::Return { value: true }));
        match p.code@[pc] {
            Instruction::Compare { op } => {
                let f = |a: ValueModel, b: ValueModel| compare_spec(a, b, op);
                assert(binary_then(pc, st, max, f) matches Outcome::Done(r, _) ==> r is Err);
            },
            Instruction::And => {
                let f = |a: ValueModel, b: ValueModel| Ok::<bool, Seq<char>>(truthy(a) && truthy(b));
                assert(binary_then(pc, st, max, f) matches Outcome::Done(r, _) ==> r is Err);
            },
            Instruction::Or => {
                let f = |a: ValueModel, b: ValueModel| Ok::<bool, Seq<char>>(truthy(a) || truthy(b));
                assert(binary_then(pc, st, max, f) matches Outcome::Done(r, _) ==> r is Err);
            },
            _ => {},
        }
    }
}

/// Code without a `Return true` never evaluates to `Ok(true)`, from any instruction and
/// stack, whatever the context, field mapping, stack capacity and number of steps: it ends
/// with `Ok(false)` (a `Return false`, or a jump or step off the code) or with an error.
pub proof fn law_no_return_true_never_allows(p: CompiledPolicy, fmap: Map<u16, Vec<String>>, ctx: EvaluationContext, max: nat, pc: int, st: Seq<ValueModel>, fuel: nat)
    requires
        never_returns_true(p.code@),
    ensures
        run(p, fmap, ctx, max, pc, st, fuel) matches Some((r, _)) ==> r != Ok::<bool, Seq<char>>(true),
    decreases fuel,
{
    if fuel > 0 {
        lemma_step_not_true(p, fmap, ctx, max, pc, st);
        match step(p, fmap, ctx, max, pc, st) {
            Outcome::Running(n, s) => law_no_return_true_never_allows(p, fmap, ctx, max, n, s, (fuel - 1) as nat),
            Outcome::Done(_, _) => {},
        }
    }
}

/// Every jump of the code goes forward.
pub open spec fn forward_jumps(code: Seq<Instruction>) -> bool {
    forall|k: int| 0 <= k < code.len() ==> match #[trigger] code[k] {
        Instruction::Jump { offset } => offset > 0,
        Instruction::JumpIfFalse { offset } => offset > 0,
        _ => true,
    }
}

proof fn lemma_step_forward(p: CompiledPolicy, fmap: Map<u16, Vec<String>>, ctx: EvaluationContext, max: nat, pc: int, st: Seq<ValueModel>)
    requires
        forward_jumps(p.code@),
        0 <= pc,
    ensures
        step(p, fmap, ctx, max, pc, st) matches Outcome::Running(n, _) ==> n > pc,
{
    if pc < p.code@.len() {
        let i = p.code@[pc];
        assert(match i {
            Instruction::Jump { offset } => offset > 0,
            Instruction::JumpIfFalse { offset } => offset > 0,
            _ => true,
        });
        match i {
            Instruction::Compare { op } => {
                let f = |a: ValueModel, b: ValueModel| compare_spec(a, b, op);
                assert(binary_then(pc, st, max, f) matches Outcome::Running(n, _) ==> n == pc + 1);
            },
            Instruction::And => {
                let f = |a: ValueModel, b: ValueModel| Ok::<bool, Seq<char>>(truthy(a) && truthy(b));
                assert(binary_then(pc, st, max, f) matches Outcome::Running(n, _) ==> n == pc + 1);
            },
            Instruction::Or => {
                let f = |a: ValueModel, b: ValueModel| Ok::<bool, Seq<char>>(truthy(a) || truthy(b));
                assert(binary_then(pc, st, max, f) matches Outcome::Running(n, _) ==> n == pc + 1);
            },
            _ => {},
        }
    }
}

/// Code whose jumps all go forward ends from any instruction and stack within one step more
/// than the instructions left, whatever the context, field mapping and stack capacity.
pub proof fn law_forward_jumps_end(p: CompiledPolicy, fmap: Map<u16, Vec<String>>, ctx: EvaluationContext, max: nat, pc: int, st: Seq<ValueModel>, fuel: nat)
    requires
        forward_jumps(p.code@),
        0 <= pc,
        fuel >= 1,
        fuel >= p.code@.len() - pc + 1,
    ensures
        run(p, fmap, ctx, max, pc, st, fuel) is Some,
    decreases fuel,
{
    lemma_step_forward(p, fmap, ctx, max, pc, st);
    match step(p, fmap, ctx, max, pc, st) {
        Outcome::Running(n, s) => {
            if pc >= p.code@.len() {
                assert(false);
            }
            law_forward_jumps_end(p, fmap, ctx, max, n, s, (fuel - 1) as nat);
        },
        Outcome::Done(_, _) => {},
    }
}

/// Code whose jumps all go forward halts, within one step more than its length.
pub proof fn law_forward_jumps_halt(p: CompiledPolicy, fmap: Map<u16, Vec<String>>, ctx: EvaluationContext, max: nat)
    requires
        forward_jumps(p.code@),
    ensures
        halts(p, fmap, ctx, max),
        run(p, fmap, ctx, max, 0, Seq::empty(), (p.code@.len() + 1) as nat) is Some,
{
    law_forward_jumps_end(p, fmap, ctx, max, 0, Seq::empty(), (p.code@.len() + 1) as nat);
    assert(run(p, fmap, ctx, max, 0, Seq::empty(), (p.code@.len() + 1) as nat) is Some);
}

/// Running with more fuel than needed gives the same result.
pub proof fn lemma_run_more_fuel(p: CompiledPolicy, fmap: Map<u16, Vec<String>>, ctx: EvaluationContext, max: nat, pc: int, st: Seq<ValueModel>, f: nat, g: nat)
    requires
        run(p, fmap, ctx, max, pc, st, f) is Some,
        f <= g,
    ensures
        run(p, fmap, ctx, max, pc, st, g) == run(p, fmap, ctx, max, pc, st, f),
    decreases f,
{
    if f > 0 {
        match step(p, fmap, ctx, max, pc, st) {
            Outcome::Running(n, s) => lemma_run_more_fuel(p, fmap, ctx, max, n, s, (f - 1) as nat, (g - 1) as nat),
            Outcome::Done(_, _) => {},
        }
    }
}

proof fn lemma_step_straight(p: CompiledPolicy, fmap: Map<u16, Vec<String>>, ctx: EvaluationContext, max: nat, pc: int, st: Seq<ValueModel>)
    requires
        0 <= pc < p.code@.len(),
        straight(p.code@[pc]),
    ensures
        match step(p, fmap, ctx, max, pc, st) {
            Outcome::Done(r, _) => r is Err,
            Outcome::Running(n, _) => n == pc + 1,
        },
{
    match p.code@[pc] {
        Instruction::Compare { op } => {
            let f = |a: ValueModel, b: ValueModel| compare_spec(a, b, op);
            if st.len() >= 2 {
                let b = st.last();
                let a = st.drop_last().last();
                assert(f(a, b) is Ok || f(a, b) is Err);
            }
        },
        _ => {},
    }
}

proof fn lemma_run_straight(p: CompiledPolicy, fmap: Map<u16, Vec<String>>, ctx: EvaluationContext, max: nat, pc: int, st: Seq<ValueModel>, v: bool)
    requires
        straight_then_return(p.code@, v),
        0 <= pc < p.code@.len(),
    ensures
        run(p, fmap, ctx, max, pc, st, (p.code@.len() - pc) as nat) is Some,
        run(p, fmap, ctx, max, pc, st, (p.code@.len() - pc) as nat).unwrap().0 matches Ok(b) ==> b == v,
        p.code@.len() == 1 ==> run(p, fmap, ctx, max, pc, st, (p.code@.len() - pc) as nat).unwrap().0
            == Ok::<bool, Seq<char>>(v),
    decreases p.code@.len() - pc,
{
    if pc < p.code@.len() - 1 {
        lemma_step_straight(p, fmap, ctx, max, pc, st);
        match step(p, fmap, ctx, max, pc, st) {
            Outcome::Running(n, s) => lemma_run_straight(p, fmap, ctx, max, n, s, v),
            Outcome::Done(_, _) => {},
        }
    }
}

/// Straight-line code ending with its only `Return` halts, and gives the value of that
/// `Return` unless an error stops it first; a lone `Return` gives its value.
pub proof fn lemma_straight_outcome(p: CompiledPolicy, fmap: Map<u16, Vec<String>>, ctx: EvaluationContext, max: nat, v: bool)
    requires
        straight_then_return(p.code@, v),
    ensures
        halts(p, fmap, ctx, max),
        outcome(p, fmap, ctx, max).0 matches Ok(b) ==> b == v,
        p.code@.len() == 1 ==> outcome(p, fmap, ctx, max).0 == Ok::<bool, Seq<char>>(v),
{
    let f = p.code@.len() as nat;
    lemma_run_straight(p, fmap, ctx, max, 0, Seq::empty(), v);
    assert(run(p, fmap, ctx, max, 0, Seq::empty(), f) is Some);
    let h = halting_fuel(p, fmap, ctx, max);
    if h <= f {
        lemma_run_more_fuel(p, fmap, ctx, max, 0, Seq::empty(), h, f);
    } else {
        lemma_run_more_fuel(p, fmap, ctx, max, 0, Seq::empty(), f, h);
    }
}

/// Bytecode interpreter.
pub struct Interpreter {
    stack: Stack,
    field_map: FieldMapping,
}

fn msg_with(prefix: &str, s: &str) -> (m: String)
    ensures
        m@ == prefix@ + s@,
{
    let mut m = owned(prefix);
    append_str(&mut m, s);
    m
}

fn attr_to_value(attr: &AttributeValue) -> (r: Result<Value, String>)
    ensures
        match r {
            Ok(v) => attr_value(*attr) == Ok::<ValueModel, Seq<char>>(v@),
            Err(e) => attr_value(*attr) == Err::<ValueModel, Seq<char>>(e@),
        },
{
    match attr {
        AttributeValue::String(s) => Ok(Value::String(s.clone())),
        AttributeValue::Int(i) => Ok(Value::Int(*i)),
        AttributeValue::Bool(b) => Ok(Value::Bool(*b)),
        AttributeValue::Array(_) => Err(owned("Array attributes not yet supported")),
    }
}

/// Whether `r` is the result a spec function gives.
pub open spec fn matches_result(r: Result<Value, String>, s: Result<ValueModel, Seq<char>>) -> bool {
    match r {
        Ok(v) => s == Ok::<ValueModel, Seq<char>>(v@),
        Err(e) => s == Err::<ValueModel, Seq<char>>(e@),
    }
}

fn access_resource(path: &Vec<String>, start: usize, resource: &Resource) -> (r: Result<Value, String>)
    requires
        start <= path@.len(),
    ensures
        matches_result(r, resource_field(path@.skip(start as int), *resource)),
{
    if start >= path.len() {
        return Err(owned("Resource path cannot be empty"));
    }
    let name = path[start].as_str();
    assert(path@.skip(start as int)[0] == path@[start as int]);
    if str_eq(name, "type") {
        Ok(Value::Int(resource.type_id.0 as i64))
    } else {
        match resource.attributes.get(name) {
            Some(a) => attr_to_value(a),
            None => Err(msg_with("Attribute not found: ", name)),
        }
    }
}

fn access_action(path: &Vec<String>, start: usize, action: &Action) -> (r: Result<Value, String>)
    requires
        start <= path@.len(),
    ensures
        matches_result(r, action_field(path@.skip(start as int), *action)),
{
    if start >= path.len() {
        return Err(owned("Action path cannot be empty"));
    }
    assert(path@.skip(start as int)[0] == path@[start as int]);
    Err(msg_with("Action field not supported: ", path[start].as_str()))
}

fn access_principal(path: &Vec<String>, start: usize, principal: &Principal) -> (r: Result<Value, String>)
    requires
        start <= path@.len(),
    ensures
        matches_result(r, principal_field(path@.skip(start as int), *principal)),
{
    if start >= path.len() {
        return Err(owned("Principal path cannot be empty"));
    }
    let name = path[start].as_str();
    assert(path@.skip(start as int)[0] == path@[start as int]);
    if str_eq(name, "id") {
        Ok(Value::String(principal.id.clone()))
    } else {
        match principal.attributes.get(name) {
            Some(a) => attr_to_value(a),
            None => Err(msg_with("Principal attribute not found: ", name)),
        }
    }
}

fn access_request(path: &Vec<String>, start: usize, request: &Request) -> (r: Result<Value, String>)
    requires
        start <= path@.len(),
    ensures
        matches_result(r, request_field(path@.skip(start as int), *request)),
{
    if start >= path.len() {
        return Err(owned("Request path cannot be empty"));
    }
    let name = path[start].as_str();
    assert(path@.skip(start as int)[0] == path@[start as int]);
    if str_eq(name, "principal") {
        if path.len() - start < 2 {
            return Err(owned("Principal path too short"));
        }
        assert(path@.skip(start as int).skip(1) =~= path@.skip(start + 1));
        access_principal(path, start + 1, &request.principal)
    } else {
        match request.metadata.get(name) {
            Some(a) => attr_to_value(a),
            None => Err(msg_with("Request metadata not found: ", name)),
        }
    }
}

impl Interpreter {
    /// The field mapping, by offset.
    pub closed spec fn fields(&self) -> Map<u16, Vec<String>> {
        self.field_map@
    }

    /// The evaluation stack.
    pub closed spec fn stack_view(&self) -> Stack {
        self.stack
    }

    /// Create a new interpreter with the given field mapping and an empty stack of
    /// `MAX_STACK_SIZE` values.
    pub fn new(field_map: FieldMapping) -> (i: Self)
        ensures
            i.fields() == field_map@,
            i.stack_view().contents() == Seq::<ValueModel>::empty(),
            i.stack_view().capacity() == MAX_STACK_SIZE,
    {
        Interpreter { stack: Stack::new(), field_map }
    }

    /// The evaluation stack as the last evaluation left it.
    pub fn stack(&self) -> (s: &Stack)
        ensures
            *s == self.stack_view(),
    {
        &self.stack
    }

    /// Evaluate a compiled policy against an evaluation context: the instructions run from
    /// the first on an emptied stack until a `Return`, an error, or the end of the code,
    /// which denies (`Ok(false)`). The stack keeps what the run left on it.
    pub fn evaluate(&mut self, policy: &CompiledPolicy, ctx: &EvaluationContext) -> (r: Result<bool, String>)
        requires
            halts(*policy, old(self).fields(), *ctx, old(self).stack_view().capacity()),
        ensures
            final(self).fields() == old(self).fields(),
            final(self).stack_view().capacity() == old(self).stack_view().capacity(),
            final(self).stack_view().contents()
                == outcome(*policy, old(self).fields(), *ctx, old(self).stack_view().capacity()).1,
            match r {
                Ok(b) => outcome(*policy, old(self).fields(), *ctx, old(self).stack_view().capacity()).0
                    == Ok::<bool, Seq<char>>(b),
                Err(e) => outcome(*policy, old(self).fields(), *ctx, old(self).stack_view().capacity()).0
                    == Err::<bool, Seq<char>>(e@),
            },
    {
        let ghost fmap = self.fields();
        let ghost max = self.stack.capacity();
        let ghost fuel = halting_fuel(*policy, fmap, *ctx, max);
        let ghost goal = run(*policy, fmap, *ctx, max, 0, Seq::empty(), fuel);
        self.stack.clear();
        let mut pc: usize = 0;
        let ghost mut k: nat = fuel;
        loop
            invariant
                self.fields() == fmap,
                self.stack.capacity() == max,
                fmap == old(self).fields(),
                max == old(self).stack_view().capacity(),
                goal is Some,
                fuel == halting_fuel(*policy, fmap, *ctx, max),
                goal == run(*policy, fmap, *ctx, max, 0, Seq::empty(), fuel),
                run(*policy, fmap, *ctx, max, pc as int, self.stack.contents(), k) == goal,
            decreases k,
        {
            let ghost st = self.stack.contents();
            assert(k > 0);
            if pc >= policy.code.len() {
                return Ok(false);
            }
            match policy.code[pc] {
                Instruction::LoadField { offset } => {
                    let value = self.load_field(offset, ctx)?;
                    self.stack.push(value)?;
                },
                Instruction::LoadConst { idx } => {
                    if (idx as usize) >= policy.constants.len() {
                        let mut m = owned("Invalid constant index: ");
                        append_u64(&mut m, idx as u64);
                        return Err(m);
                    }
                    let value = policy.constants[idx as usize].clone();
                    self.stack.push(value)?;
                },
                Instruction::Compare { op } => {
                    let b = self.stack.pop()?;
                    let a = self.stack.pop()?;
                    let result = a.compare(&b, op)?;
                    self.stack.push(Value::Bool(result))?;
                },
                Instruction::And => {
                    let b = self.stack.pop()?;
                    let a = self.stack.pop()?;
                    let result = a.is_truthy() && b.is_truthy();
                    self.stack.push(Value::Bool(result))?;
                },
                Instruction::Or => {
                    let b = self.stack.pop()?;
                    let a = self.stack.pop()?;
                    let result = a.is_truthy() || b.is_truthy();
                    self.stack.push(Value::Bool(result))?;
                },
                Instruction::Not => {
                    let a = self.stack.pop()?;
                    let result = !a.is_truthy();
                    self.stack.push(Value::Bool(result))?;
                },
                Instruction::Return { value } => {
                    return Ok(value);
                },
                Instruction::Jump { offset } => {
                    let target: i128 = pc as i128 + offset as i128;
                    if target < 0 || target >= policy.code.len() as i128 {
                        proof {
                            if target >= 0 {
                                let s2 = self.stack.contents();
                                assert(run(*policy, fmap, *ctx, max, pc as int, st, k)
                                    == run(*policy, fmap, *ctx, max, target as int, s2, (k - 1) as nat));
                                assert((k - 1) as nat > 0);
                            }
                        }
                        return Ok(false);
                    }
                    pc = target as usize;
                    proof { k = (k - 1) as nat; }
                    continue;
                },
                Instruction::JumpIfFalse { offset } => {
                    let cond = self.stack.pop()?;
                    if !cond.is_truthy() {
                        let target: i128 = pc as i128 + offset as i128;
                        if target < 0 || target >= policy.code.len() as i128 {
                            proof {
                                if target >= 0 {
                                    let s2 = self.stack.contents();
                                    assert(run(*policy, fmap, *ctx, max, pc as int, st, k)
                                        == run(*policy, fmap, *ctx, max, target as int, s2, (k - 1) as nat));
                                    assert((k - 1) as nat > 0);
                                }
                            }
                            return Ok(false);
                        }
                        pc = target as usize;
                        proof { k = (k - 1) as nat; }
                        continue;
                    }
                },
                Instruction::Call { func, argc } => {
                    let mut m = owned("Function calls not yet supported: func=");
                    append_u64(&mut m, func as u64);
                    append_str(&mut m, ", argc=");
                    append_u64(&mut m, argc as u64);
                    return Err(m);
                },
            }
            pc = pc + 1;
            proof { k = (k - 1) as nat; }
        }
    }

    /// Load the value of the field registered under `offset`.
    fn load_field(&self, offset: u16, ctx: &EvaluationContext) -> (r: Result<Value, String>)
        ensures
            matches_result(r, field_value(self.fields(), offset, *ctx)),
    {
        let path = match self.field_map.get(&offset) {
            Some(p) => p,
            None => {
                let mut m = owned("Unknown field offset: ");
                append_u64(&mut m, offset as u64);
                return Err(m);
            },
        };
        if path.len() == 0 {
            return Err(owned("Empty field path"));
        }
        let root = path[0].as_str();
        if str_eq(root, "resource") {
            access_resource(path, 1, &ctx.resource)
        } else if str_eq(root, "action") {
            access_action(path, 1, &ctx.action)
        } else if str_eq(root, "request") {
            access_request(path, 1, &ctx.request)
        } else {
            Err(msg_with("Unknown RAR component: ", root))
        }
    }
}

impl Default for Interpreter {
    fn default() -> (i: Self)
        ensures
            i.fields() == Map::<u16, Vec<String>>::empty(),
            i.stack_view().contents() == Seq::<ValueModel>::empty(),
            i.stack_view().capacity() == MAX_STACK_SIZE,
    {
        Self::new(HashMap::new())
    }
}

} // verus!
