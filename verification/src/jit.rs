//! Translation plan for native code generation: the bytecode of a policy turned into a
//! list of operations on numbered values and blocks, which a code generator emits one by
//! one. The plan fixes which values feed each operation, where blocks start, and which
//! stack underflow stops the translation.

use vstd::prelude::*;
use std::collections::HashMap;
use crate::bytecode::{CompOp, CompiledPolicy, Instruction, Value};
use crate::text::owned;

verus! {

broadcast use vstd::std_specs::hash::group_hash_axioms;

/// One operation of a translation plan. Values and blocks are numbered from 0 in the
/// order in which they are made.
#[derive(Debug, Clone, Copy, PartialEq, Eq, Structural)]
pub enum IrOp {
    /// Seal the block and go on emitting into it
    EnterBlock { block: usize },
    /// Load the 64-bit word at the given offset of the context
    LoadField { dst: usize, offset: u16 },
    /// A 64-bit integer constant
    IntConst { dst: usize, value: i64 },
    /// An 8-bit boolean constant
    BoolConst { dst: usize, value: bool },
    /// An integer comparison
    Compare { dst: usize, op: CompOp, lhs: usize, rhs: usize },
    /// Jump to a block
    Jump { block: usize },
    /// Go on in `fallthrough` when the condition holds, jump to `target` otherwise
    BranchIfFalse { cond: usize, target: usize, fallthrough: usize },
    /// Bitwise and
    And { dst: usize, lhs: usize, rhs: usize },
    /// Bitwise or
    Or { dst: usize, lhs: usize, rhs: usize },
    /// Bitwise not
    Not { dst: usize, operand: usize },
    /// Return the given result
    Return { value: bool },
}

/// The target of a jump at `idx`: the index taken as an `i16`, plus the offset, as a
/// `usize`.
pub open spec fn jump_target(idx: int, offset: i16) -> usize {
    (((idx as i16) as int + offset as int) as i16) as usize
}

/// No jump target overflows an `i16`.
pub open spec fn jumps_fit(code: Seq<Instruction>) -> bool {
    forall|k: int| 0 <= k < code.len() ==> match #[trigger] code[k] {
        Instruction::Jump { offset } => i16::MIN <= (k as i16) as int + offset as int <= i16::MAX,
        Instruction::JumpIfFalse { offset } => i16::MIN <= (k as i16) as int + offset as int <= i16::MAX,
        _ => true,
    }
}

/// Every constant the code loads is in the pool.
pub open spec fn consts_in_range(p: CompiledPolicy) -> bool {
    forall|k: int| 0 <= k < p.code@.len() ==> match #[trigger] p.code@[k] {
        Instruction::LoadConst { idx } => (idx as int) < p.constants@.len(),
        _ => true,
    }
}

/// The offset of a jump instruction.
pub open spec fn jump_offset(i: Instruction) -> Option<i16> {
    match i {
        Instruction::Jump { offset } => Some(offset),
        Instruction::JumpIfFalse { offset } => Some(offset),
        _ => None,
    }
}

/// The block of each jump target, numbered in the order in which the targets first
/// appear, with the number of blocks.
pub open spec fn target_blocks(code: Seq<Instruction>) -> (Map<usize, usize>, nat)
    decreases code.len(),
{
    if code.len() == 0 {
        (Map::empty(), 0)
    } else {
        let (m, n) = target_blocks(code.drop_last());
        match jump_offset(code.last()) {
            Some(offset) => {
                let t = jump_target(code.len() - 1, offset);
                if m.contains_key(t) { (m, n) } else { (m.insert(t, n as usize), n + 1) }
            },
            None => (m, n),
        }
    }
}

proof fn lemma_target_blocks_bound(code: Seq<Instruction>)
    ensures
        target_blocks(code).1 <= code.len(),
        forall|t: usize| #[trigger] target_blocks(code).0.contains_key(t) ==> target_blocks(code).0[t] < target_blocks(code).1,
    decreases code.len(),
{
    if code.len() > 0 {
        lemma_target_blocks_bound(code.drop_last());
    }
}

/// Every jump's target has a block.
proof fn lemma_target_has_block(code: Seq<Instruction>, k: int)
    requires
        0 <= k < code.len(),
        jump_offset(code[k]) is Some,
    ensures
        target_blocks(code).0.contains_key(jump_target(k, jump_offset(code[k]).unwrap())),
    decreases code.len(),
{
    if k < code.len() - 1 {
        assert(code.drop_last()[k] == code[k]);
        lemma_target_has_block(code.drop_last(), k);
    }
}

/// The block of each jump target, numbered in the order in which the targets first
/// appear, with the number of blocks.
fn jump_blocks(code: &Vec<Instruction>) -> (r: (HashMap<usize, usize>, usize))
    requires
        jumps_fit(code@),
    ensures
        r.0@ == target_blocks(code@).0,
        r.1 == target_blocks(code@).1,
{
    let mut map: HashMap<usize, usize> = HashMap::new();
    let mut count: usize = 0;
    let mut idx: usize = 0;
    assert(code@.take(0) =~= Seq::<Instruction>::empty());
    assert(map@ =~= Map::<usize, usize>::empty());
    while idx < code.len()
        invariant
            idx <= code@.len(),
            jumps_fit(code@),
            map@ == target_blocks(code@.take(idx as int)).0,
            count == target_blocks(code@.take(idx as int)).1,
        decreases code@.len() - idx,
    {
        let ghost pre = code@.take(idx as int);
        let ghost cur = code@.take(idx + 1);
        assert(cur.drop_last() =~= pre);
        assert(cur.last() == code@[idx as int]);
        proof {
            lemma_target_blocks_bound(pre);
        }
        let offset: Option<i16> = match code[idx] {
            Instruction::Jump { offset } => Some(offset),
            Instruction::JumpIfFalse { offset } => Some(offset),
            _ => None,
        };
        if let Some(offset) = offset {
            assert(jumps_fit(code@) ==> match code@[idx as int] {
                Instruction::Jump { offset } => i16::MIN <= (idx as i16) as int + offset as int <= i16::MAX,
                Instruction::JumpIfFalse { offset } => i16::MIN <= (idx as i16) as int + offset as int <= i16::MAX,
                _ => true,
            });
            let sum: i16 = (idx as i16) + offset;
            let target: usize = sum as usize;
            if !map.contains_key(&target) {
                map.insert(target, count);
                count = count + 1;
            }
        }
        idx = idx + 1;
    }
    assert(code@.take(code@.len() as int) =~= code@);
    (map, count)
}

/// The translation state after some instructions: the stack of value numbers, the numbers
/// of values and blocks made so far, and the operations planned.
pub struct PlanState {
    pub stack: Seq<usize>,
    pub values: nat,
    pub blocks: nat,
    pub ops: Seq<IrOp>,
}

/// The state with a new value pushed, made by `op`.
pub open spec fn push_value(st: PlanState, op: IrOp) -> PlanState {
    PlanState { stack: st.stack.push(st.values as usize), values: st.values + 1, ops: st.ops.push(op), ..st }
}

/// Two values popped and a new one pushed, made by `f` from them; the message when the
/// stack holds fewer than two.
pub open spec fn binary_value(st: PlanState, name: Seq<char>, f: spec_fn(usize, usize, usize) -> IrOp) -> Result<PlanState, Seq<char>> {
    if st.stack.len() < 2 {
        Err("Stack underflow in "@ + name)
    } else {
        let b = st.stack.last();
        let a = st.stack.drop_last().last();
        let rest = PlanState { stack: st.stack.drop_last().drop_last(), ..st };
        Ok(push_value(rest, f(st.values as usize, a, b)))
    }
}

/// The translation of the instruction at `k`, after entering its block when it is a jump
/// target.
pub open spec fn plan_step(p: CompiledPolicy, blocks: Map<usize, usize>, k: int, st: PlanState) -> Result<PlanState, Seq<char>> {
    let st0 = if blocks.contains_key(k as usize) {
        PlanState { ops: st.ops.push(IrOp::EnterBlock { block: blocks[k as usize] }), ..st }
    } else {
        st
    };
    let v = st0.values as usize;
    match p.code@[k] {
        Instruction::LoadField { offset } => Ok(push_value(st0, IrOp::LoadField { dst: v, offset })),
        Instruction::LoadConst { idx } => Ok(push_value(st0, match p.constants@[idx as int] {
            Value::Int(i) => IrOp::IntConst { dst: v, value: i },
            Value::Bool(b) => IrOp::BoolConst { dst: v, value: b },
            Value::String(_) => IrOp::IntConst { dst: v, value: 0 },
        })),
        Instruction::Compare { op } => binary_value(st0, "Compare"@, |d: usize, a: usize, b: usize| IrOp::Compare { dst: d, op, lhs: a, rhs: b }),
        Instruction::Jump { offset } => Ok(PlanState {
            ops: st0.ops.push(IrOp::Jump { block: blocks[jump_target(k, offset)] }),
            ..st0
        }),
        Instruction::JumpIfFalse { offset } => if st0.stack.len() == 0 {
            Err("Stack underflow in JumpIfFalse"@)
        } else {
            let f = st0.blocks as usize;
            Ok(PlanState {
                stack: st0.stack.drop_last(),
                blocks: st0.blocks + 1,
                ops: st0.ops.push(IrOp::BranchIfFalse {
                    cond: st0.stack.last(),
                    target: blocks[jump_target(k, offset)],
                    fallthrough: f,
                }).push(IrOp::EnterBlock { block: f }),
                ..st0
            })
        },
        Instruction::And => binary_value(st0, "And"@, |d: usize, a: usize, b: usize| IrOp::And { dst: d, lhs: a, rhs: b }),
        Instruction::Or => binary_value(st0, "Or"@, |d: usize, a: usize, b: usize| IrOp::Or { dst: d, lhs: a, rhs: b }),
        Instruction::Not => if st0.stack.len() == 0 {
            Err("Stack underflow in Not"@)
        } else {
            let rest = PlanState { stack: st0.stack.drop_last(), ..st0 };
            Ok(push_value(rest, IrOp::Not { dst: v, operand: st0.stack.last() }))
        },
        Instruction::Call { .. } => Ok(push_value(st0, IrOp::IntConst { dst: v, value: 0 })),
        Instruction::Return { value } => Ok(PlanState { ops: st0.ops.push(IrOp::Return { value }), ..st0 }),
    }
}

/// The translation of the first `n` instructions.
pub open spec fn plan_prefix(p: CompiledPolicy, blocks: Map<usize, usize>, nblocks: nat, n: nat) -> Result<PlanState, Seq<char>>
    decreases n,
{
    if n == 0 {
        Ok(PlanState { stack: Seq::empty(), values: 0, blocks: nblocks, ops: Seq::empty() })
    } else {
        match plan_prefix(p, blocks, nblocks, (n - 1) as nat) {
            Err(e) => Err(e),
            Ok(st) => plan_step(p, blocks, n - 1, st),
        }
    }
}

/// The translation of a whole policy: the final state, or the message of the first
/// stack underflow.
pub open spec fn translation(p: CompiledPolicy) -> Result<PlanState, Seq<char>> {
    plan_prefix(p, target_blocks(p.code@).0, target_blocks(p.code@).1, p.code@.len())
}

proof fn lemma_plan_err_stays(p: CompiledPolicy, blocks: Map<usize, usize>, nblocks: nat, k: nat, m: nat)
    requires
        k <= m,
        plan_prefix(p, blocks, nblocks, k) is Err,
    ensures
        plan_prefix(p, blocks, nblocks, m) == plan_prefix(p, blocks, nblocks, k),
    decreases m - k,
{
    if k < m {
        lemma_plan_err_stays(p, blocks, nblocks, k, (m - 1) as nat);
    }
}

/// A translation plan: the number of blocks made for jump targets (numbered first), and
/// the operations.
#[derive(Debug)]
pub struct TranslationPlan {
    pub jump_blocks: usize,
    pub ops: Vec<IrOp>,
}

/// Pop two values for `name`.
fn pop_two(stack: &mut Vec<usize>, name: &str) -> (r: Result<(usize, usize), String>)
    ensures
        old(stack)@.len() < 2 ==> (r matches Err(m) && m@ == "Stack underflow in "@ + name@),
        old(stack)@.len() >= 2 ==> r == Ok::<(usize, usize), String>((old(stack)@.drop_last().last(), old(stack)@.last()))
            && final(stack)@ == old(stack)@.drop_last().drop_last(),
{
    if stack.len() < 2 {
        let mut m = owned("Stack underflow in ");
        crate::text::append_str(&mut m, name);
        return Err(m);
    }
    let b = stack.pop().unwrap();
    let a = stack.pop().unwrap();
    Ok((a, b))
}

/// Plan the translation of a policy's bytecode: the operations in order, or the message
/// of the first stack underflow.
pub fn plan_translation(policy: &CompiledPolicy) -> (r: Result<TranslationPlan, String>)
    requires
        jumps_fit(policy.code@),
        consts_in_range(*policy),
        policy.code@.len() <= usize::MAX / 2,
    ensures
        match r {
            Ok(plan) => translation(*policy) matches Ok(st) && plan.ops@ == st.ops
                && plan.jump_blocks == target_blocks(policy.code@).1,
            Err(e) => translation(*policy) == Err::<PlanState, Seq<char>>(e@),
        },
{
    let (blocks, nblocks) = jump_blocks(&policy.code);
    let ghost bmap = blocks@;
    let mut stack: Vec<usize> = Vec::new();
    let mut values: usize = 0;
    let mut made: usize = nblocks;
    let mut ops: Vec<IrOp> = Vec::new();
    let n = policy.code.len();
    let mut idx: usize = 0;
    proof {
        lemma_target_blocks_bound(policy.code@);
    }
    while idx < n
        invariant
            n == policy.code@.len(),
            n <= usize::MAX / 2,
            idx <= n,
            bmap == blocks@,
            bmap == target_blocks(policy.code@).0,
            nblocks == target_blocks(policy.code@).1,
            nblocks <= n,
            forall|t: usize| #[trigger] bmap.contains_key(t) ==> bmap[t] < nblocks,
            jumps_fit(policy.code@),
            consts_in_range(*policy),
            values <= idx,
            made <= nblocks + idx,
            plan_prefix(*policy, bmap, nblocks as nat, idx as nat) == Ok::<PlanState, Seq<char>>(PlanState {
                stack: stack@, values: values as nat, blocks: made as nat, ops: ops@,
            }),
        decreases n - idx,
    {
        if blocks.contains_key(&idx) {
            let block = *blocks.get(&idx).unwrap();
            ops.push(IrOp::EnterBlock { block });
        }
        let v = values;
        match policy.code[idx] {
            Instruction::LoadField { offset } => {
                ops.push(IrOp::LoadField { dst: v, offset });
                stack.push(v);
                values = values + 1;
            },
            Instruction::LoadConst { idx: c } => {
                let op = match &policy.constants[c as usize] {
                    Value::Int(i) => IrOp::IntConst { dst: v, value: *i },
                    Value::Bool(b) => IrOp::BoolConst { dst: v, value: *b },
                    Value::String(_) => IrOp::IntConst { dst: v, value: 0 },
                };
                ops.push(op);
                stack.push(v);
                values = values + 1;
            },
            Instruction::Compare { op } => {
                let (a, b) = match pop_two(&mut stack, "Compare") {
                    Ok(p) => p,
                    Err(e) => {
                        proof { lemma_plan_err_stays(*policy, bmap, nblocks as nat, (idx + 1) as nat, n as nat); }
                        return Err(e);
                    },
                };
                ops.push(IrOp::Compare { dst: v, op, lhs: a, rhs: b });
                stack.push(v);
                values = values + 1;
            },
            Instruction::Jump { offset } => {
                proof { lemma_target_has_block(policy.code@, idx as int); }
                let sum: i16 = (idx as i16) + offset;
                let target: usize = sum as usize;
                let block = *blocks.get(&target).unwrap();
                ops.push(IrOp::Jump { block });
            },
            Instruction::JumpIfFalse { offset } => {
                let cond = match stack.pop() {
                    Some(c) => c,
                    None => {
                        proof { lemma_plan_err_stays(*policy, bmap, nblocks as nat, (idx + 1) as nat, n as nat); }
                        return Err(owned("Stack underflow in JumpIfFalse"));
                    },
                };
                proof { lemma_target_has_block(policy.code@, idx as int); }
                let sum: i16 = (idx as i16) + offset;
                let target: usize = sum as usize;
                let block = *blocks.get(&target).unwrap();
                let fallthrough = made;
                ops.push(IrOp::BranchIfFalse { cond, target: block, fallthrough });
                ops.push(IrOp::EnterBlock { block: fallthrough });
                made = made + 1;
            },
            Instruction::And => {
                let (a, b) = match pop_two(&mut stack, "And") {
                    Ok(p) => p,
                    Err(e) => {
                        proof { lemma_plan_err_stays(*policy, bmap, nblocks as nat, (idx + 1) as nat, n as nat); }
                        return Err(e);
                    },
                };
                ops.push(IrOp::And { dst: v, lhs: a, rhs: b });
                stack.push(v);
                values = values + 1;
            },
            Instruction::Or => {
                let (a, b) = match pop_two(&mut stack, "Or") {
                    Ok(p) => p,
                    Err(e) => {
                        proof { lemma_plan_err_stays(*policy, bmap, nblocks as nat, (idx + 1) as nat, n as nat); }
                        return Err(e);
                    },
                };
                ops.push(IrOp::Or { dst: v, lhs: a, rhs: b });
                stack.push(v);
                values = values + 1;
            },
            Instruction::Not => {
                let a = match stack.pop() {
                    Some(a) => a,
                    None => {
                        proof { lemma_plan_err_stays(*policy, bmap, nblocks as nat, (idx + 1) as nat, n as nat); }
                        return Err(owned("Stack underflow in Not"));
                    },
                };
                ops.push(IrOp::Not { dst: v, operand: a });
                stack.push(v);
                values = values + 1;
            },
            Instruction::Call { .. } => {
                ops.push(IrOp::IntConst { dst: v, value: 0 });
                stack.push(v);
                values = values + 1;
            },
            Instruction::Return { value } => {
                ops.push(IrOp::Return { value });
            },
        }
        idx = idx + 1;
    }
    Ok(TranslationPlan { jump_blocks: nblocks, ops })
}

/// The values an operation reads.
pub open spec fn operands(op: IrOp) -> Seq<usize> {
    match op {
        IrOp::Compare { lhs, rhs, .. } => seq![lhs, rhs],
        IrOp::BranchIfFalse { cond, .. } => seq![cond],
        IrOp::And { lhs, rhs, .. } => seq![lhs, rhs],
        IrOp::Or { lhs, rhs, .. } => seq![lhs, rhs],
        IrOp::Not { operand, .. } => seq![operand],
        _ => Seq::empty(),
    }
}

/// The value an operation makes, if any.
pub open spec fn made_value(op: IrOp) -> Option<usize> {
    match op {
        IrOp::LoadField { dst, .. } => Some(dst),
        IrOp::IntConst { dst, .. } => Some(dst),
        IrOp::BoolConst { dst, .. } => Some(dst),
        IrOp::Compare { dst, .. } => Some(dst),
        IrOp::And { dst, .. } => Some(dst),
        IrOp::Or { dst, .. } => Some(dst),
        IrOp::Not { dst, .. } => Some(dst),
        _ => None,
    }
}

/// The number of values the operations make.
pub open spec fn made_count(ops: Seq<IrOp>) -> nat
    decreases ops.len(),
{
    if ops.len() == 0 {
        0
    } else {
        made_count(ops.drop_last()) + if made_value(ops.last()) is Some { 1nat } else { 0nat }
    }
}

/// Each operation reads only values made by earlier operations, and the values are made
/// numbered 0, 1, 2, ... in order.
pub open spec fn well_numbered(ops: Seq<IrOp>) -> bool
    decreases ops.len(),
{
    if ops.len() == 0 {
        true
    } else {
        let n = made_count(ops.drop_last());
        &&& well_numbered(ops.drop_last())
        &&& forall|j: int| 0 <= j < operands(ops.last()).len() ==> (#[trigger] operands(ops.last())[j]) < n
        &&& (made_value(ops.last()) matches Some(d) ==> d == n)
    }
}

/// The state is consistent: its operations are well numbered, it has counted the values
/// they make, and its stack names only values already made.
pub open spec fn plan_consistent(st: PlanState) -> bool {
    &&& well_numbered(st.ops)
    &&& made_count(st.ops) == st.values
    &&& forall|j: int| 0 <= j < st.stack.len() ==> (#[trigger] st.stack[j]) < st.values
}

proof fn lemma_push_op(ops: Seq<IrOp>, op: IrOp)
    ensures
        ops.push(op).drop_last() == ops,
        ops.push(op).last() == op,
        made_count(ops.push(op)) == made_count(ops) + if made_value(op) is Some { 1nat } else { 0nat },
        well_numbered(ops.push(op)) == (well_numbered(ops)
            && (forall|j: int| 0 <= j < operands(op).len() ==> (#[trigger] operands(op)[j]) < made_count(ops))
            && (made_value(op) matches Some(d) ==> d == made_count(ops))),
{
    assert(ops.push(op).drop_last() =~= ops);
}

proof fn lemma_plan_step_consistent(p: CompiledPolicy, blocks: Map<usize, usize>, k: int, st: PlanState)
    requires
        plan_consistent(st),
        st.values < usize::MAX,
        0 <= k < p.code@.len(),
    ensures
        plan_step(p, blocks, k, st) matches Ok(next) ==> plan_consistent(next),
{
    let st0 = if blocks.contains_key(k as usize) {
        PlanState { ops: st.ops.push(IrOp::EnterBlock { block: blocks[k as usize] }), ..st }
    } else {
        st
    };
    if blocks.contains_key(k as usize) {
        lemma_push_op(st.ops, IrOp::EnterBlock { block: blocks[k as usize] });
    }
    assert(plan_consistent(st0));
    let v = st0.values as usize;
    match p.code@[k] {
        Instruction::LoadField { offset } => {
            lemma_push_op(st0.ops, IrOp::LoadField { dst: v, offset });
        },
        Instruction::LoadConst { idx } => {
            let op = match p.constants@[idx as int] {
                Value::Int(i) => IrOp::IntConst { dst: v, value: i },
                Value::Bool(b) => IrOp::BoolConst { dst: v, value: b },
                Value::String(_) => IrOp::IntConst { dst: v, value: 0 },
            };
            lemma_push_op(st0.ops, op);
        },
        Instruction::Compare { op } => {
            if st0.stack.len() >= 2 {
                let b = st0.stack.last();
                let a = st0.stack.drop_last().last();
                assert(st0.stack[st0.stack.len() - 1] == b);
                assert(st0.stack[st0.stack.len() - 2] == a);
                lemma_push_op(st0.ops, IrOp::Compare { dst: v, op, lhs: a, rhs: b });
            }
        },
        Instruction::Jump { offset } => {
            lemma_push_op(st0.ops, IrOp::Jump { block: blocks[jump_target(k, offset)] });
        },
        Instruction::JumpIfFalse { offset } => {
            if st0.stack.len() > 0 {
                let f = st0.blocks as usize;
                let br = IrOp::BranchIfFalse { cond: st0.stack.last(), target: blocks[jump_target(k, offset)], fallthrough: f };
                assert(st0.stack[st0.stack.len() - 1] == st0.stack.last());
                lemma_push_op(st0.ops, br);
                lemma_push_op(st0.ops.push(br), IrOp::EnterBlock { block: f });
            }
        },
        Instruction::And => {
            if st0.stack.len() >= 2 {
                let b = st0.stack.last();
                let a = st0.stack.drop_last().last();
                assert(st0.stack[st0.stack.len() - 1] == b);
                assert(st0.stack[st0.stack.len() - 2] == a);
                lemma_push_op(st0.ops, IrOp::And { dst: v, lhs: a, rhs: b });
            }
        },
        Instruction::Or => {
            if st0.stack.len() >= 2 {
                let b = st0.stack.last();
                let a = st0.stack.drop_last().last();
                assert(st0.stack[st0.stack.len() - 1] == b);
                assert(st0.stack[st0.stack.len() - 2] == a);
                lemma_push_op(st0.ops, IrOp::Or { dst: v, lhs: a, rhs: b });
            }
        },
        Instruction::Not => {
            if st0.stack.len() > 0 {
                assert(st0.stack[st0.stack.len() - 1] == st0.stack.last());
                lemma_push_op(st0.ops, IrOp::Not { dst: v, operand: st0.stack.last() });
            }
        },
        Instruction::Call { .. } => {
            lemma_push_op(st0.ops, IrOp::IntConst { dst: v, value: 0 });
        },
        Instruction::Return { value } => {
            lemma_push_op(st0.ops, IrOp::Return { value });
        },
    }
}

proof fn lemma_plan_prefix_consistent(p: CompiledPolicy, blocks: Map<usize, usize>, nblocks: nat, n: nat)
    requires
        n <= p.code@.len(),
        p.code@.len() < usize::MAX,
    ensures
        plan_prefix(p, blocks, nblocks, n) matches Ok(st) ==> plan_consistent(st) && st.values <= n,
    decreases n,
{
    if n > 0 {
        lemma_plan_prefix_consistent(p, blocks, nblocks, (n - 1) as nat);
        match plan_prefix(p, blocks, nblocks, (n - 1) as nat) {
            Ok(st) => {
                lemma_plan_step_consistent(p, blocks, n - 1, st);
                match plan_step(p, blocks, n - 1, st) {
                    Ok(next) => assert(next.values <= st.values + 1),
                    Err(_) => {},
                }
            },
            Err(_) => {},
        }
    } else {
        assert(made_count(Seq::<IrOp>::empty()) == 0);
    }
}

/// The stack depth after instruction `i` from depth `d`, or `None` when `i` needs more
/// values than the stack holds: loads and calls push one value; comparisons, `And` and `Or`
/// pop two and push one; `Not` pops one and pushes one; `JumpIfFalse` pops one; jumps and
/// returns leave the stack as it is.
pub open spec fn depth_after(i: Instruction, d: int) -> Option<int> {
    match i {
        Instruction::LoadField { .. } => Some(d + 1),
        Instruction::LoadConst { .. } => Some(d + 1),
        Instruction::Call { .. } => Some(d + 1),
        Instruction::Compare { .. } => if d < 2 { None } else { Some(d - 1) },
        Instruction::And => if d < 2 { None } else { Some(d - 1) },
        Instruction::Or => if d < 2 { None } else { Some(d - 1) },
        Instruction::Not => if d < 1 { None } else { Some(d) },
        Instruction::JumpIfFalse { .. } => if d < 1 { None } else { Some(d - 1) },
        Instruction::Jump { .. } => Some(d),
        Instruction::Return { .. } => Some(d),
    }
}

/// The message of a stack underflow at instruction `i`, naming its kind.
pub open spec fn underflow_message(i: Instruction) -> Seq<char> {
    match i {
        Instruction::Compare { .. } => "Stack underflow in "@ + "Compare"@,
        Instruction::And => "Stack underflow in "@ + "And"@,
        Instruction::Or => "Stack underflow in "@ + "Or"@,
        Instruction::Not => "Stack underflow in Not"@,
        _ => "Stack underflow in JumpIfFalse"@,
    }
}

/// Simulating the stack depth over the first `n` instructions in code order from an empty
/// stack: the depth reached, or the underflow message of the first instruction that finds
/// too few values.
pub open spec fn simulated_depth(code: Seq<Instruction>, n: nat) -> Result<int, Seq<char>>
    decreases n,
{
    if n == 0 {
        Ok(0)
    } else {
        match simulated_depth(code, (n - 1) as nat) {
            Err(e) => Err(e),
            Ok(d) => match depth_after(code[n - 1], d) {
                Some(d2) => Ok(d2),
                None => Err(underflow_message(code[n - 1])),
            },
        }
    }
}

proof fn lemma_plan_simulates(p: CompiledPolicy, blocks: Map<usize, usize>, nblocks: nat, n: nat)
    requires
        n <= p.code@.len(),
    ensures
        match (plan_prefix(p, blocks, nblocks, n), simulated_depth(p.code@, n)) {
            (Ok(st), Ok(d)) => st.stack.len() == d,
            (Err(e1), Err(e2)) => e1 == e2,
            _ => false,
        },
    decreases n,
{
    if n > 0 {
        lemma_plan_simulates(p, blocks, nblocks, (n - 1) as nat);
    }
}

/// The translation agrees with a simulation of the stack depth in code order from an empty
/// stack: it succeeds exactly when the simulation never finds too few values, with the
/// simulated depth as its final stack; otherwise it fails with the underflow message of the
/// first instruction that finds too few (`Stack underflow in` and the instruction's kind).
pub proof fn law_translation_simulates_stack(p: CompiledPolicy)
    ensures
        translation(p) is Ok <==> simulated_depth(p.code@, p.code@.len()) is Ok,
        translation(p) matches Ok(st) ==> simulated_depth(p.code@, p.code@.len()) == Ok::<int, Seq<char>>(st.stack.len() as int),
        translation(p) matches Err(e) ==> simulated_depth(p.code@, p.code@.len()) == Err::<int, Seq<char>>(e),
{
    lemma_plan_simulates(p, target_blocks(p.code@).0, target_blocks(p.code@).1, p.code@.len());
}

/// In a successful translation each operation reads only values made by earlier
/// operations, and values are numbered 0, 1, 2, ... in the order they are made.
pub proof fn law_plan_well_numbered(p: CompiledPolicy)
    requires
        p.code@.len() < usize::MAX,
    ensures
        translation(p) matches Ok(st) ==> well_numbered(st.ops) && made_count(st.ops) == st.values,
{
    lemma_plan_prefix_consistent(p, target_blocks(p.code@).0, target_blocks(p.code@).1, p.code@.len());
}

} // verus!
