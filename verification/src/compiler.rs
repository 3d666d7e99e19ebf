//! Compiler from policy ASTs to bytecode.
//!
//! The code generator is specified by spec functions over a [`GenState`]: the code and
//! constants emitted so far, the field offsets allocated so far, and the first error met.
//! Once an error is recorded, generation stops and the state no longer changes.

use vstd::prelude::*;
use crate::ast::nodes::{
    join_dot, segment_chars, BinaryOp, ComparisonOp, Condition, Expression, LogicalOp, Path,
    Policy, Requirements, Value,
};
use crate::attrs::{lookup, store, StrMap, lemma_key_index};
use crate::bytecode::{CompOp, CompiledPolicy, Instruction, Value as BytecodeValue, ValueModel};
use crate::interpreter::{halts, lemma_straight_outcome, outcome, straight, straight_then_return};
use crate::rar::EvaluationContext;
use crate::text::{append_str, owned, str_eq};

verus! {

/// Errors of compilation.
#[derive(Debug, PartialEq)]
pub enum CompileError {
    ParseError(String),
    UnsupportedExpression(String),
    UndefinedVariable(String),
    TypeMismatch { expected: String, got: String },
    TooManyConstants,
    UnsupportedAggregate(String),
}

/// A compile error with its strings taken by their characters.
pub enum CompileErrorModel {
    Parse(Seq<char>),
    Unsupported(Seq<char>),
    Undefined(Seq<char>),
    Mismatch(Seq<char>, Seq<char>),
    TooManyConstants,
    Aggregate(Seq<char>),
}

impl View for CompileError {
    type V = CompileErrorModel;

    open spec fn view(&self) -> CompileErrorModel {
        match self {
            CompileError::ParseError(s) => CompileErrorModel::Parse(s@),
            CompileError::UnsupportedExpression(s) => CompileErrorModel::Unsupported(s@),
            CompileError::UndefinedVariable(s) => CompileErrorModel::Undefined(s@),
            CompileError::TypeMismatch { expected, got } => CompileErrorModel::Mismatch(expected@, got@),
            CompileError::TooManyConstants => CompileErrorModel::TooManyConstants,
            CompileError::UnsupportedAggregate(s) => CompileErrorModel::Aggregate(s@),
        }
    }
}

/// The message of a compile error.
pub open spec fn error_message(e: CompileErrorModel) -> Seq<char> {
    match e {
        CompileErrorModel::Parse(s) => "Parse error: "@ + s,
        CompileErrorModel::Unsupported(s) => "Unsupported expression: "@ + s,
        CompileErrorModel::Undefined(s) => "Undefined variable: "@ + s,
        CompileErrorModel::Mismatch(a, b) => "Type mismatch: expected "@ + a + ", got "@ + b,
        CompileErrorModel::TooManyConstants => "Too many constants (max 65536)"@,
        CompileErrorModel::Aggregate(s) => "Aggregate functions not yet supported: "@ + s,
    }
}

impl CompileError {
    /// The error message.
    pub fn to_string(&self) -> (s: String)
        ensures
            s@ == error_message(self@),
    {
        let mut out = String::new();
        match self {
            CompileError::ParseError(m) => {
                append_str(&mut out, "Parse error: ");
                append_str(&mut out, m.as_str());
            },
            CompileError::UnsupportedExpression(m) => {
                append_str(&mut out, "Unsupported expression: ");
                append_str(&mut out, m.as_str());
            },
            CompileError::UndefinedVariable(m) => {
                append_str(&mut out, "Undefined variable: ");
                append_str(&mut out, m.as_str());
            },
            CompileError::TypeMismatch { expected, got } => {
                append_str(&mut out, "Type mismatch: expected ");
                append_str(&mut out, expected.as_str());
                append_str(&mut out, ", got ");
                append_str(&mut out, got.as_str());
            },
            CompileError::TooManyConstants => {
                append_str(&mut out, "Too many constants (max 65536)");
            },
            CompileError::UnsupportedAggregate(m) => {
                append_str(&mut out, "Aggregate functions not yet supported: ");
                append_str(&mut out, m.as_str());
            },
        }
        out
    }
}

/// What code generation has produced so far.
pub struct GenState {
    /// Instructions emitted
    pub code: Seq<Instruction>,
    /// Constants in the pool
    pub consts: Seq<ValueModel>,
    /// Field paths with their offsets, in order of allocation
    pub fields: Seq<(Seq<char>, u16)>,
    /// The first error met, if any
    pub err: Option<CompileErrorModel>,
}

/// The state with which compilation starts.
pub open spec fn start_state() -> GenState {
    GenState { code: Seq::empty(), consts: Seq::empty(), fields: Seq::empty(), err: None }
}

/// Emitting `i`, unless an error was met.
pub open spec fn emit_ok(s: GenState, i: Instruction) -> GenState {
    if s.err is Some { s } else { GenState { code: s.code.push(i), ..s } }
}

/// Recording the error `e`, unless one was met before.
pub open spec fn fail(s: GenState, e: CompileErrorModel) -> GenState {
    if s.err is Some { s } else { GenState { err: Some(e), ..s } }
}

/// Adding a constant to the pool and loading it; at most 65536 constants.
pub open spec fn gen_const(s: GenState, v: ValueModel) -> GenState {
    if s.err is Some {
        s
    } else if s.consts.len() >= 65536 {
        fail(s, CompileErrorModel::TooManyConstants)
    } else {
        emit_ok(
            GenState { consts: s.consts.push(v), ..s },
            Instruction::LoadConst { idx: s.consts.len() as u16 },
        )
    }
}

/// The bytecode value of a literal: integers, booleans and strings only.
pub open spec fn literal_model(v: Value) -> Result<ValueModel, CompileErrorModel> {
    match v {
        Value::Int(n) => Ok(ValueModel::Int(n)),
        Value::Bool(b) => Ok(ValueModel::Bool(b)),
        Value::String(s) => Ok(ValueModel::Str(s@)),
        Value::Float(_) => Err(CompileErrorModel::Unsupported("Float literals not yet supported in bytecode"@)),
        Value::Array(_) => Err(CompileErrorModel::Unsupported("Array literals not yet supported in bytecode"@)),
    }
}

/// Loading a literal.
pub open spec fn gen_literal(v: Value, s: GenState) -> GenState {
    match literal_model(v) {
        Ok(m) => gen_const(s, m),
        Err(e) => fail(s, e),
    }
}

/// The key under which a path's field offset is kept: its segments joined with `.`.
pub open spec fn path_key(p: Path) -> Seq<char> {
    join_dot(segment_chars(p))
}

/// Loading a field: a path seen before keeps its offset, a new path gets the next one.
pub open spec fn gen_path(p: Path, s: GenState) -> GenState {
    if s.err is Some {
        s
    } else {
        match lookup(s.fields, path_key(p)) {
            Some(off) => emit_ok(s, Instruction::LoadField { offset: off }),
            None => {
                let off = s.fields.len() as u16;
                emit_ok(
                    GenState { fields: store(s.fields, path_key(p), off), ..s },
                    Instruction::LoadField { offset: off },
                )
            },
        }
    }
}

/// The bytecode comparison of an AST comparison.
pub open spec fn comp_op(op: ComparisonOp) -> CompOp {
    match op {
        ComparisonOp::Eq => CompOp::Eq,
        ComparisonOp::Neq => CompOp::Neq,
        ComparisonOp::Lt => CompOp::Lt,
        ComparisonOp::LtEq => CompOp::Lte,
        ComparisonOp::Gt => CompOp::Gt,
        ComparisonOp::GtEq => CompOp::Gte,
    }
}

/// The identifier of a built-in function.
pub open spec fn function_id(name: Seq<char>) -> Option<u8> {
    if name == "count"@ {
        Some(0u8)
    } else if name == "any"@ {
        Some(1u8)
    } else if name == "all"@ {
        Some(2u8)
    } else {
        None
    }
}

/// Calling the function `name` with `n` arguments; the argument count is kept modulo 256.
pub open spec fn gen_call(s: GenState, name: Seq<char>, n: nat) -> GenState {
    match function_id(name) {
        Some(f) => emit_ok(s, Instruction::Call { func: f, argc: (n % 256) as u8 }),
        None => fail(s, CompileErrorModel::Unsupported("Unknown function: "@ + name)),
    }
}

/// Code for an expression.
pub open spec fn gen_expr(e: Expression, s: GenState) -> GenState
    decreases e, 0int,
{
    if s.err is Some {
        s
    } else {
        match e {
            Expression::Literal(v) => gen_literal(v, s),
            Expression::Path(p) => gen_path(p, s),
            Expression::Binary { left, op, right } => {
                let BinaryOp::Comparison(c) = op;
                emit_ok(gen_expr(*right, gen_expr(*left, s)), Instruction::Compare { op: comp_op(c) })
            },
            Expression::Logical { op, operands } => match op {
                LogicalOp::And => gen_seq(operands@, Some(Instruction::And), s),
                LogicalOp::Or => gen_seq(operands@, Some(Instruction::Or), s),
                LogicalOp::Not => if operands@.len() == 0 {
                    fail(s, CompileErrorModel::Unsupported("NOT requires an operand"@))
                } else {
                    emit_ok(gen_expr(operands@[0], s), Instruction::Not)
                },
            },
            Expression::In { expr, list } => {
                let s1 = gen_expr(*expr, s);
                if list@.len() == 0 {
                    gen_const(s1, ValueModel::Bool(false))
                } else {
                    gen_in(*expr, list@, s1)
                }
            },
            Expression::Aggregate { .. } => fail(
                s,
                CompileErrorModel::Aggregate("Aggregate functions require special handling"@),
            ),
            Expression::Call { name, args } => gen_call(gen_seq(args@, None, s), name@, args@.len()),
        }
    }
}

/// Code for the expressions one after the other, with `joiner` after each but the first.
pub open spec fn gen_seq(ops: Seq<Expression>, joiner: Option<Instruction>, s: GenState) -> GenState
    decreases ops, 0int,
{
    if ops.len() == 0 {
        s
    } else {
        let s1 = gen_seq(ops.subrange(0, ops.len() - 1), joiner, s);
        let s2 = gen_expr(ops[ops.len() - 1], s1);
        match joiner {
            Some(j) => if ops.len() > 1 { emit_ok(s2, j) } else { s2 },
            None => s2,
        }
    }
}

/// Code comparing `x` with each item of the list, the results combined with `Or`; the code
/// for `x` before the first comparison is not part of it.
pub open spec fn gen_in(x: Expression, list: Seq<Value>, s: GenState) -> GenState
    decreases x, list.len() as int,
{
    if list.len() == 0 {
        s
    } else {
        let s1 = gen_in(x, list.subrange(0, list.len() - 1), s);
        let s2 = if list.len() > 1 { gen_expr(x, s1) } else { s1 };
        let s3 = emit_ok(gen_literal(list[list.len() - 1], s2), Instruction::Compare { op: CompOp::Eq });
        if list.len() > 1 { emit_ok(s3, Instruction::Or) } else { s3 }
    }
}

/// Code for the `requires` conditions, with `And` between consecutive ones.
pub open spec fn gen_conds(cs: Seq<Condition>, s: GenState) -> GenState
    decreases cs.len(),
{
    if cs.len() == 0 {
        s
    } else {
        let s1 = gen_conds(cs.subrange(0, cs.len() - 1), s);
        let s2 = if cs.len() > 1 { emit_ok(s1, Instruction::And) } else { s1 };
        gen_expr(cs[cs.len() - 1].expr, s2)
    }
}

/// Code for the `where` conditions, each followed by `And`.
pub open spec fn gen_where(cs: Seq<Condition>, s: GenState) -> GenState
    decreases cs.len(),
{
    if cs.len() == 0 {
        s
    } else {
        emit_ok(gen_expr(cs[cs.len() - 1].expr, gen_where(cs.subrange(0, cs.len() - 1), s)), Instruction::And)
    }
}

/// Code for a policy: its requirements, then `Return true`; a denying policy is `Return false`.
pub open spec fn gen_policy(p: Policy, s: GenState) -> GenState {
    match p.requirements {
        Requirements::Requires { conditions, where_clause } => {
            let s1 = gen_conds(conditions@, s);
            let s2 = match where_clause {
                Some(w) => gen_where(w@, s1),
                None => s1,
            };
            emit_ok(s2, Instruction::Return { value: true })
        },
        Requirements::Denies { .. } => emit_ok(s, Instruction::Return { value: false }),
    }
}

/// `a` has no more code and no more fields than `b`.
pub open spec fn le(a: GenState, b: GenState) -> bool {
    a.code.len() <= b.code.len() && a.fields.len() <= b.fields.len()
}

/// The code size fits the header's `u32` counter and the field offsets fit a `u16`.
pub open spec fn fits(g: GenState) -> bool {
    g.code.len() <= u32::MAX && g.fields.len() <= u16::MAX
}

proof fn lemma_path_mono(p: Path, s: GenState)
    ensures
        le(s, gen_path(p, s)),
        gen_path(p, s).fields.len() <= s.fields.len() + 1,
{
    lemma_key_index(s.fields, path_key(p));
}

proof fn lemma_expr_mono(e: Expression, s: GenState)
    ensures
        le(s, gen_expr(e, s)),
    decreases e, 0int,
{
    if s.err is None {
        match e {
            Expression::Path(p) => lemma_path_mono(p, s),
            Expression::Binary { left, op, right } => {
                lemma_expr_mono(*left, s);
                lemma_expr_mono(*right, gen_expr(*left, s));
            },
            Expression::Logical { op, operands } => {
                if operands@.len() > 0 {
                    lemma_expr_mono(operands@[0], s);
                }
                lemma_seq_mono(operands@, Some(Instruction::And), s);
                lemma_seq_mono(operands@, Some(Instruction::Or), s);
            },
            Expression::In { expr, list } => {
                lemma_expr_mono(*expr, s);
                lemma_in_mono(*expr, list@, gen_expr(*expr, s));
            },
            Expression::Call { name, args } => {
                lemma_seq_mono(args@, None, s);
            },
            _ => {},
        }
    }
}

proof fn lemma_seq_mono(ops: Seq<Expression>, joiner: Option<Instruction>, s: GenState)
    ensures
        le(s, gen_seq(ops, joiner, s)),
    decreases ops, 0int,
{
    if ops.len() > 0 {
        let pre = ops.subrange(0, ops.len() - 1);
        lemma_seq_mono(pre, joiner, s);
        lemma_expr_mono(ops[ops.len() - 1], gen_seq(pre, joiner, s));
    }
}

proof fn lemma_in_mono(x: Expression, list: Seq<Value>, s: GenState)
    ensures
        le(s, gen_in(x, list, s)),
    decreases x, list.len() as int,
{
    if list.len() > 0 {
        let pre = list.subrange(0, list.len() - 1);
        lemma_in_mono(x, pre, s);
        if list.len() > 1 {
            lemma_expr_mono(x, gen_in(x, pre, s));
        }
    }
}

/// Every `LoadConst` in the code names a constant of the pool.
pub open spec fn consts_in_pool(g: GenState) -> bool {
    forall|k: int| 0 <= k < g.code.len()
        ==> ((#[trigger] g.code[k]) matches Instruction::LoadConst { idx } ==> (idx as int) < g.consts.len())
}

/// The pool never shrinks.
pub open spec fn pool_grows(s: GenState, g: GenState) -> bool {
    s.consts.len() <= g.consts.len()
}

proof fn lemma_const_pool(s: GenState, v: ValueModel)
    requires
        consts_in_pool(s),
    ensures
        consts_in_pool(gen_const(s, v)),
        pool_grows(s, gen_const(s, v)),
{
    if s.err is None && s.consts.len() < 65536 {
        let g = gen_const(s, v);
        assert forall|k: int| 0 <= k < g.code.len()
            implies ((#[trigger] g.code[k]) matches Instruction::LoadConst { idx } ==> (idx as int) < g.consts.len()) by {
            if k < s.code.len() {
                assert(g.code[k] == s.code[k]);
            }
        }
    }
}

proof fn lemma_emit_pool(s: GenState, i: Instruction)
    requires
        consts_in_pool(s),
        !(i is LoadConst),
    ensures
        consts_in_pool(emit_ok(s, i)),
        pool_grows(s, emit_ok(s, i)),
{
    let g = emit_ok(s, i);
    assert forall|k: int| 0 <= k < g.code.len()
        implies ((#[trigger] g.code[k]) matches Instruction::LoadConst { idx } ==> (idx as int) < g.consts.len()) by {
        if k < s.code.len() {
            assert(g.code[k] == s.code[k]);
        }
    }
}

proof fn lemma_literal_pool(v: Value, s: GenState)
    requires
        consts_in_pool(s),
    ensures
        consts_in_pool(gen_literal(v, s)),
        pool_grows(s, gen_literal(v, s)),
{
    match literal_model(v) {
        Ok(m) => lemma_const_pool(s, m),
        Err(e) => {},
    }
}

proof fn lemma_expr_pool(e: Expression, s: GenState)
    requires
        consts_in_pool(s),
    ensures
        consts_in_pool(gen_expr(e, s)),
        pool_grows(s, gen_expr(e, s)),
    decreases e, 0int,
{
    if s.err is None {
        match e {
            Expression::Literal(v) => lemma_literal_pool(v, s),
            Expression::Path(p) => {
                match lookup(s.fields, path_key(p)) {
                    Some(off) => lemma_emit_pool(s, Instruction::LoadField { offset: off }),
                    None => lemma_emit_pool(
                        GenState { fields: store(s.fields, path_key(p), s.fields.len() as u16), ..s },
                        Instruction::LoadField { offset: s.fields.len() as u16 },
                    ),
                }
            },
            Expression::Binary { left, op, right } => {
                let BinaryOp::Comparison(c) = op;
                lemma_expr_pool(*left, s);
                lemma_expr_pool(*right, gen_expr(*left, s));
                lemma_emit_pool(gen_expr(*right, gen_expr(*left, s)), Instruction::Compare { op: comp_op(c) });
            },
            Expression::Logical { op, operands } => {
                match op {
                    LogicalOp::And => lemma_seq_pool(operands@, Some(Instruction::And), s),
                    LogicalOp::Or => lemma_seq_pool(operands@, Some(Instruction::Or), s),
                    LogicalOp::Not => {
                        if operands@.len() > 0 {
                            lemma_expr_pool(operands@[0], s);
                            lemma_emit_pool(gen_expr(operands@[0], s), Instruction::Not);
                        }
                    },
                }
            },
            Expression::In { expr, list } => {
                lemma_expr_pool(*expr, s);
                if list@.len() == 0 {
                    lemma_const_pool(gen_expr(*expr, s), ValueModel::Bool(false));
                } else {
                    lemma_in_pool(*expr, list@, gen_expr(*expr, s));
                }
            },
            Expression::Call { name, args } => {
                lemma_seq_pool(args@, None, s);
                let s1 = gen_seq(args@, None, s);
                match function_id(name@) {
                    Some(f) => lemma_emit_pool(s1, Instruction::Call { func: f, argc: (args@.len() % 256) as u8 }),
                    None => {},
                }
            },
            _ => {},
        }
    }
}

proof fn lemma_seq_pool(ops: Seq<Expression>, joiner: Option<Instruction>, s: GenState)
    requires
        consts_in_pool(s),
        joiner matches Some(j) ==> !(j is LoadConst),
    ensures
        consts_in_pool(gen_seq(ops, joiner, s)),
        pool_grows(s, gen_seq(ops, joiner, s)),
    decreases ops, 0int,
{
    if ops.len() > 0 {
        let pre = ops.subrange(0, ops.len() - 1);
        lemma_seq_pool(pre, joiner, s);
        let s1 = gen_seq(pre, joiner, s);
        lemma_expr_pool(ops[ops.len() - 1], s1);
        match joiner {
            Some(j) => if ops.len() > 1 { lemma_emit_pool(gen_expr(ops[ops.len() - 1], s1), j); },
            None => {},
        }
    }
}

proof fn lemma_in_pool(x: Expression, list: Seq<Value>, s: GenState)
    requires
        consts_in_pool(s),
    ensures
        consts_in_pool(gen_in(x, list, s)),
        pool_grows(s, gen_in(x, list, s)),
    decreases x, list.len() as int,
{
    if list.len() > 0 {
        let pre = list.subrange(0, list.len() - 1);
        lemma_in_pool(x, pre, s);
        let s1 = gen_in(x, pre, s);
        let s2 = if list.len() > 1 { gen_expr(x, s1) } else { s1 };
        if list.len() > 1 {
            lemma_expr_pool(x, s1);
        }
        lemma_literal_pool(list[list.len() - 1], s2);
        let s3 = emit_ok(gen_literal(list[list.len() - 1], s2), Instruction::Compare { op: CompOp::Eq });
        lemma_emit_pool(gen_literal(list[list.len() - 1], s2), Instruction::Compare { op: CompOp::Eq });
        if list.len() > 1 {
            lemma_emit_pool(s3, Instruction::Or);
        }
    }
}

proof fn lemma_conds_pool(cs: Seq<Condition>, s: GenState)
    requires
        consts_in_pool(s),
    ensures
        consts_in_pool(gen_conds(cs, s)),
        pool_grows(s, gen_conds(cs, s)),
    decreases cs.len(),
{
    if cs.len() > 0 {
        let pre = cs.subrange(0, cs.len() - 1);
        lemma_conds_pool(pre, s);
        let s1 = gen_conds(pre, s);
        if cs.len() > 1 {
            lemma_emit_pool(s1, Instruction::And);
        }
        let s2 = if cs.len() > 1 { emit_ok(s1, Instruction::And) } else { s1 };
        lemma_expr_pool(cs[cs.len() - 1].expr, s2);
    }
}

proof fn lemma_where_pool(cs: Seq<Condition>, s: GenState)
    requires
        consts_in_pool(s),
    ensures
        consts_in_pool(gen_where(cs, s)),
        pool_grows(s, gen_where(cs, s)),
    decreases cs.len(),
{
    if cs.len() > 0 {
        let pre = cs.subrange(0, cs.len() - 1);
        lemma_where_pool(pre, s);
        let s1 = gen_where(pre, s);
        lemma_expr_pool(cs[cs.len() - 1].expr, s1);
        lemma_emit_pool(gen_expr(cs[cs.len() - 1].expr, s1), Instruction::And);
    }
}

/// In the code compiled for any policy, every `LoadConst` names a constant of the pool, and
/// the header counts the code and the constants; a denying policy compiles to the lone
/// instruction `Return false` with no constant.
pub proof fn law_compiled_constants_in_range(policy: Policy, p: CompiledPolicy, id: u64)
    requires
        compiled_as(p, gen_policy(policy, start_state()), id),
    ensures
        forall|k: int| 0 <= k < p.code@.len()
            ==> ((#[trigger] p.code@[k]) matches Instruction::LoadConst { idx } ==> (idx as int) < p.constants@.len()),
        p.header.policy_id == id,
        p.header.code_size == p.code@.len(),
        p.header.const_size == p.constants@.len(),
        policy.requirements is Denies ==> p.code@ == seq![Instruction::Return { value: false }]
            && p.constants@.len() == 0,
{
    let s = start_state();
    match policy.requirements {
        Requirements::Requires { conditions, where_clause } => {
            lemma_conds_pool(conditions@, s);
            let s1 = gen_conds(conditions@, s);
            match where_clause {
                Some(w) => lemma_where_pool(w@, s1),
                None => {},
            }
            let s2 = match where_clause { Some(w) => gen_where(w@, s1), None => s1 };
            lemma_emit_pool(s2, Instruction::Return { value: true });
        },
        Requirements::Denies { .. } => {
            lemma_emit_pool(s, Instruction::Return { value: false });
            assert(s.code.push(Instruction::Return { value: false }) =~= seq![Instruction::Return { value: false }]);
        },
    }
    let g = gen_policy(policy, s);
    assert(p.constants@.map_values(|v: BytecodeValue| v@).len() == p.constants@.len());
    assert forall|k: int| 0 <= k < p.code@.len()
        implies ((#[trigger] p.code@[k]) matches Instruction::LoadConst { idx } ==> (idx as int) < p.constants@.len()) by {
        assert(p.code@[k] == g.code[k]);
    }
}

proof fn lemma_seq_err(ops: Seq<Expression>, joiner: Option<Instruction>, s: GenState)
    requires
        s.err is Some,
    ensures
        gen_seq(ops, joiner, s) == s,
    decreases ops.len(),
{
    if ops.len() > 0 {
        lemma_seq_err(ops.subrange(0, ops.len() - 1), joiner, s);
        assert(gen_expr(ops[ops.len() - 1], s) == s);
    }
}

proof fn lemma_in_err(x: Expression, list: Seq<Value>, s: GenState)
    requires
        s.err is Some,
    ensures
        gen_in(x, list, s) == s,
    decreases list.len(),
{
    if list.len() > 0 {
        lemma_in_err(x, list.subrange(0, list.len() - 1), s);
        assert(gen_expr(x, s) == s);
    }
}

proof fn lemma_conds_err(cs: Seq<Condition>, s: GenState)
    requires
        s.err is Some,
    ensures
        gen_conds(cs, s) == s,
    decreases cs.len(),
{
    if cs.len() > 0 {
        lemma_conds_err(cs.subrange(0, cs.len() - 1), s);
    }
}

proof fn lemma_where_err(cs: Seq<Condition>, s: GenState)
    requires
        s.err is Some,
    ensures
        gen_where(cs, s) == s,
    decreases cs.len(),
{
    if cs.len() > 0 {
        lemma_where_err(cs.subrange(0, cs.len() - 1), s);
    }
}

/// Generating a prefix gives a state below that of the whole sequence, and an error met
/// in the prefix is the outcome of the whole.
proof fn lemma_seq_prefix(ops: Seq<Expression>, joiner: Option<Instruction>, s: GenState, k: int)
    requires
        0 <= k <= ops.len(),
    ensures
        le(gen_seq(ops.take(k), joiner, s), gen_seq(ops, joiner, s)),
        gen_seq(ops.take(k), joiner, s).err is Some ==> gen_seq(ops, joiner, s) == gen_seq(ops.take(k), joiner, s),
    decreases ops.len(),
{
    if k == ops.len() {
        assert(ops.take(k) =~= ops);
    } else {
        let pre = ops.subrange(0, ops.len() - 1);
        assert(pre.take(k) =~= ops.take(k));
        lemma_seq_prefix(pre, joiner, s, k);
        lemma_expr_mono(ops[ops.len() - 1], gen_seq(pre, joiner, s));
    }
}

proof fn lemma_in_prefix(x: Expression, list: Seq<Value>, s: GenState, k: int)
    requires
        0 <= k <= list.len(),
    ensures
        le(gen_in(x, list.take(k), s), gen_in(x, list, s)),
        gen_in(x, list.take(k), s).err is Some ==> gen_in(x, list, s) == gen_in(x, list.take(k), s),
    decreases list.len(),
{
    if k == list.len() {
        assert(list.take(k) =~= list);
    } else {
        let pre = list.subrange(0, list.len() - 1);
        assert(pre.take(k) =~= list.take(k));
        lemma_in_prefix(x, pre, s, k);
        if list.len() > 1 {
            lemma_expr_mono(x, gen_in(x, pre, s));
        }
    }
}

proof fn lemma_conds_prefix(cs: Seq<Condition>, s: GenState, k: int)
    requires
        0 <= k <= cs.len(),
    ensures
        le(gen_conds(cs.take(k), s), gen_conds(cs, s)),
        gen_conds(cs.take(k), s).err is Some ==> gen_conds(cs, s) == gen_conds(cs.take(k), s),
    decreases cs.len(),
{
    if k == cs.len() {
        assert(cs.take(k) =~= cs);
    } else {
        let pre = cs.subrange(0, cs.len() - 1);
        assert(pre.take(k) =~= cs.take(k));
        lemma_conds_prefix(pre, s, k);
        let s1 = gen_conds(pre, s);
        let s2 = if cs.len() > 1 { emit_ok(s1, Instruction::And) } else { s1 };
        lemma_expr_mono(cs[cs.len() - 1].expr, s2);
    }
}

proof fn lemma_where_prefix(cs: Seq<Condition>, s: GenState, k: int)
    requires
        0 <= k <= cs.len(),
    ensures
        le(gen_where(cs.take(k), s), gen_where(cs, s)),
        gen_where(cs.take(k), s).err is Some ==> gen_where(cs, s) == gen_where(cs.take(k), s),
    decreases cs.len(),
{
    if k == cs.len() {
        assert(cs.take(k) =~= cs);
    } else {
        let pre = cs.subrange(0, cs.len() - 1);
        assert(pre.take(k) =~= cs.take(k));
        lemma_where_prefix(pre, s, k);
        lemma_expr_mono(cs[cs.len() - 1].expr, gen_where(pre, s));
    }
}

proof fn lemma_conds_mono(cs: Seq<Condition>, s: GenState)
    ensures
        le(s, gen_conds(cs, s)),
{
    lemma_conds_prefix(cs, s, 0);
    assert(cs.take(0) =~= Seq::<Condition>::empty());
}

proof fn lemma_where_mono(cs: Seq<Condition>, s: GenState)
    ensures
        le(s, gen_where(cs, s)),
{
    lemma_where_prefix(cs, s, 0);
    assert(cs.take(0) =~= Seq::<Condition>::empty());
}

/// Field offsets allocated during compilation: each new path gets the next offset.
pub struct CompileContext {
    field_offsets: StrMap<u16>,
    next_offset: u16,
}

impl CompileContext {
    /// The paths with their offsets, in order of allocation.
    pub closed spec fn offsets(&self) -> Seq<(Seq<char>, u16)> {
        self.field_offsets.entries()
    }

    /// The `i`-th path allocated has offset `i`, and the next offset is their number.
    pub closed spec fn wf(&self) -> bool {
        &&& self.next_offset == self.offsets().len()
        &&& forall|i: int| 0 <= i < self.offsets().len() ==> #[trigger] self.offsets()[i].1 == i
    }

    /// A context with no field allocated.
    pub fn new() -> (c: Self)
        ensures
            c.wf(),
            c.offsets() == Seq::<(Seq<char>, u16)>::empty(),
    {
        CompileContext { field_offsets: StrMap::new(), next_offset: 0 }
    }

    /// The offset of `path`, allocating the next one if the path is new.
    pub fn get_or_allocate_field(&mut self, path: &str) -> (offset: u16)
        requires
            old(self).wf(),
            lookup(old(self).offsets(), path@) is Some || old(self).offsets().len() < u16::MAX,
        ensures
            final(self).wf(),
            match lookup(old(self).offsets(), path@) {
                Some(o) => offset == o && final(self).offsets() == old(self).offsets(),
                None => offset == old(self).offsets().len()
                    && final(self).offsets() == store(old(self).offsets(), path@, offset),
            },
    {
        match self.field_offsets.get(path) {
            Some(o) => *o,
            None => {
                let offset = self.next_offset;
                self.field_offsets.insert(owned(path), offset);
                self.next_offset = self.next_offset + 1;
                offset
            },
        }
    }
}

/// Compiler from a policy AST to bytecode.
pub struct PolicyCompiler {
    policy: CompiledPolicy,
    context: CompileContext,
}

impl PolicyCompiler {
    /// The header counts the code and constants, and the field offsets are well formed.
    pub closed spec fn wf(&self) -> bool {
        &&& self.context.wf()
        &&& self.policy.header.code_size == self.policy.code@.len()
        &&& self.policy.header.const_size == self.policy.constants@.len()
        &&& self.policy.header.version == 1
        &&& self.policy.header.magic@ == seq![73u8, 80u8, 69u8, 0u8]
    }

    /// The identifier of the policy being compiled.
    pub closed spec fn policy_id(&self) -> u64 {
        self.policy.header.policy_id
    }

    /// What has been generated so far.
    pub closed spec fn state(&self) -> GenState {
        GenState {
            code: self.policy.code@,
            consts: self.policy.constants@.map_values(|v: BytecodeValue| v@),
            fields: self.context.offsets(),
            err: None,
        }
    }

    /// The code, constants and fields are those of `g`.
    pub open spec fn holds(&self, g: GenState) -> bool {
        &&& self.state().code == g.code
        &&& self.state().consts == g.consts
        &&& self.state().fields == g.fields
    }

    /// A compiler for the policy with the given identifier.
    pub fn new(policy_id: u64) -> (c: Self)
        ensures
            c.wf(),
            c.holds(start_state()),
            c.state() == start_state(),
            c.policy_id() == policy_id,
    {
        let c = PolicyCompiler { policy: CompiledPolicy::new(policy_id), context: CompileContext::new() };
        assert(c.state().consts =~= Seq::<ValueModel>::empty());
        assert(c.state().code =~= Seq::<Instruction>::empty());
        c
    }

    /// The path-to-offset mappings allocated so far.
    pub fn field_mappings(&self) -> (m: &StrMap<u16>)
        ensures
            m.entries() == self.state().fields,
    {
        &self.context.field_offsets
    }

    fn add_constant(&mut self, value: BytecodeValue) -> (r: Result<u16, CompileError>)
        requires
            old(self).wf(),
        ensures
            final(self).wf(),
            final(self).policy_id() == old(self).policy_id(),
            old(self).state().consts.len() >= 65536 ==> r is Err && r->Err_0@ == CompileErrorModel::TooManyConstants
                && final(self).holds(old(self).state()),
            old(self).state().consts.len() < 65536 ==> r == Ok::<u16, CompileError>(old(self).state().consts.len() as u16)
                && final(self).holds(GenState { consts: old(self).state().consts.push(value@), ..old(self).state() }),
    {
        if self.policy.constants.len() >= 65536 {
            return Err(CompileError::TooManyConstants);
        }
        let idx = self.policy.add_constant(value);
        assert(self.state().consts =~= old(self).state().consts.push(value@));
        Ok(idx)
    }

    fn compile_literal(&mut self, v: &Value) -> (r: Result<(), CompileError>)
        requires
            old(self).wf(),
            fits(gen_literal(*v, old(self).state())),
        ensures
            final(self).wf(),
            final(self).policy_id() == old(self).policy_id(),
            final(self).holds(gen_literal(*v, old(self).state())),
            r is Ok <==> gen_literal(*v, old(self).state()).err is None,
            r matches Err(x) ==> gen_literal(*v, old(self).state()).err == Some(x@),
    {
        let bv = match v {
            Value::Int(n) => BytecodeValue::Int(*n),
            Value::Bool(b) => BytecodeValue::Bool(*b),
            Value::String(s) => BytecodeValue::String(s.clone()),
            Value::Float(_) => {
                return Err(CompileError::UnsupportedExpression(owned("Float literals not yet supported in bytecode")));
            },
            Value::Array(_) => {
                return Err(CompileError::UnsupportedExpression(owned("Array literals not yet supported in bytecode")));
            },
        };
        match self.add_constant(bv) {
            Ok(idx) => {
                self.policy.emit(Instruction::LoadConst { idx });
                Ok(())
            },
            Err(e) => Err(e),
        }
    }

    fn compile_path(&mut self, p: &Path) -> (r: Result<(), CompileError>)
        requires
            old(self).wf(),
            fits(gen_path(*p, old(self).state())),
        ensures
            final(self).wf(),
            final(self).policy_id() == old(self).policy_id(),
            final(self).holds(gen_path(*p, old(self).state())),
            r is Ok,
            gen_path(*p, old(self).state()).err is None,
    {
        let key = p.to_string();
        proof { lemma_key_index(self.state().fields, key@); }
        let offset = self.context.get_or_allocate_field(key.as_str());
        self.policy.emit(Instruction::LoadField { offset });
        Ok(())
    }

    fn compile_expression(&mut self, e: &Expression) -> (r: Result<(), CompileError>)
        requires
            old(self).wf(),
            fits(gen_expr(*e, old(self).state())),
        ensures
            final(self).wf(),
            final(self).policy_id() == old(self).policy_id(),
            final(self).holds(gen_expr(*e, old(self).state())),
            r is Ok <==> gen_expr(*e, old(self).state()).err is None,
            r matches Err(x) ==> gen_expr(*e, old(self).state()).err == Some(x@),
        decreases e, 0int,
    {
        let ghost s0 = self.state();
        match e {
            Expression::Literal(v) => self.compile_literal(v),
            Expression::Path(p) => self.compile_path(p),
            Expression::Binary { left, op, right } => {
                proof {
                    lemma_expr_mono(**left, s0);
                    lemma_expr_mono(**right, gen_expr(**left, s0));
                }
                match self.compile_expression(left) {
                    Ok(()) => {},
                    Err(x) => { return Err(x); },
                }
                match self.compile_expression(right) {
                    Ok(()) => {},
                    Err(x) => { return Err(x); },
                }
                let BinaryOp::Comparison(c) = op;
                let cop = match c {
                    ComparisonOp::Eq => CompOp::Eq,
                    ComparisonOp::Neq => CompOp::Neq,
                    ComparisonOp::Lt => CompOp::Lt,
                    ComparisonOp::LtEq => CompOp::Lte,
                    ComparisonOp::Gt => CompOp::Gt,
                    ComparisonOp::GtEq => CompOp::Gte,
                };
                self.policy.emit(Instruction::Compare { op: cop });
                Ok(())
            },
            Expression::Logical { op, operands } => match op {
                LogicalOp::And => self.compile_seq(operands, Some(Instruction::And)),
                LogicalOp::Or => self.compile_seq(operands, Some(Instruction::Or)),
                LogicalOp::Not => {
                    if operands.len() == 0 {
                        return Err(CompileError::UnsupportedExpression(owned("NOT requires an operand")));
                    }
                    proof {
                        vstd::std_specs::vec::axiom_vec_index_decreases(*operands, 0);
                        lemma_expr_mono(operands@[0], s0);
                    }
                    match self.compile_expression(&operands[0]) {
                        Ok(()) => {},
                        Err(x) => { return Err(x); },
                    }
                    self.policy.emit(Instruction::Not);
                    Ok(())
                },
            },
            Expression::In { expr, list } => {
                proof {
                    lemma_in_mono(**expr, list@, gen_expr(**expr, s0));
                }
                match self.compile_expression(expr) {
                    Ok(()) => {},
                    Err(x) => {
                        proof { lemma_in_err(**expr, list@, gen_expr(**expr, s0)); }
                        return Err(x);
                    },
                }
                if list.len() == 0 {
                    match self.add_constant(BytecodeValue::Bool(false)) {
                        Ok(idx) => {
                            self.policy.emit(Instruction::LoadConst { idx });
                            Ok(())
                        },
                        Err(x) => Err(x),
                    }
                } else {
                    self.compile_in(expr, list)
                }
            },
            Expression::Aggregate { .. } => {
                Err(CompileError::UnsupportedAggregate(owned("Aggregate functions require special handling")))
            },
            Expression::Call { name, args } => {
                proof {
                    lemma_seq_mono(args@, None, s0);
                }
                match self.compile_seq(args, None) {
                    Ok(()) => {},
                    Err(x) => { return Err(x); },
                }
                let n = name.as_str();
                let func: u8 = if str_eq(n, "count") {
                    0
                } else if str_eq(n, "any") {
                    1
                } else if str_eq(n, "all") {
                    2
                } else {
                    let mut msg = String::new();
                    append_str(&mut msg, "Unknown function: ");
                    append_str(&mut msg, n);
                    return Err(CompileError::UnsupportedExpression(msg));
                };
                let argc = (args.len() % 256) as u8;
                self.policy.emit(Instruction::Call { func, argc });
                Ok(())
            },
        }
    }

    fn compile_seq(&mut self, ops: &Vec<Expression>, joiner: Option<Instruction>) -> (r: Result<(), CompileError>)
        requires
            old(self).wf(),
            fits(gen_seq(ops@, joiner, old(self).state())),
        ensures
            final(self).wf(),
            final(self).policy_id() == old(self).policy_id(),
            final(self).holds(gen_seq(ops@, joiner, old(self).state())),
            r is Ok <==> gen_seq(ops@, joiner, old(self).state()).err is None,
            r matches Err(x) ==> gen_seq(ops@, joiner, old(self).state()).err == Some(x@),
        decreases ops@, 0int,
    {
        let ghost s0 = self.state();
        let ghost id = self.policy_id();
        let mut i: usize = 0;
        assert(ops@.take(0) =~= Seq::<Expression>::empty());
        while i < ops.len()
            invariant
                i <= ops@.len(),
                self.wf(),
                self.policy_id() == id,
                s0 == old(self).state(),
                id == old(self).policy_id(),
                s0.err is None,
                fits(gen_seq(ops@, joiner, s0)),
                self.state() == gen_seq(ops@.take(i as int), joiner, s0),
            decreases ops@.len() - i,
        {
            let ghost pre = gen_seq(ops@.take(i as int), joiner, s0);
            proof {
                lemma_seq_prefix(ops@, joiner, s0, i + 1);
                assert(ops@.take(i + 1).subrange(0, i as int) =~= ops@.take(i as int));
                lemma_expr_mono(ops@[i as int], pre);
                vstd::std_specs::vec::axiom_vec_index_decreases(*ops, i as int);
            }
            match self.compile_expression(&ops[i]) {
                Ok(()) => {},
                Err(x) => { return Err(x); },
            }
            if i > 0 {
                match joiner {
                    Some(j) => { self.policy.emit(j); },
                    None => {},
                }
            }
            i = i + 1;
        }
        assert(ops@.take(ops@.len() as int) =~= ops@);
        Ok(())
    }

    fn compile_in(&mut self, x: &Expression, list: &Vec<Value>) -> (r: Result<(), CompileError>)
        requires
            old(self).wf(),
            fits(gen_in(*x, list@, old(self).state())),
        ensures
            final(self).wf(),
            final(self).policy_id() == old(self).policy_id(),
            final(self).holds(gen_in(*x, list@, old(self).state())),
            r is Ok <==> gen_in(*x, list@, old(self).state()).err is None,
            r matches Err(e) ==> gen_in(*x, list@, old(self).state()).err == Some(e@),
        decreases x, 1int,
    {
        let ghost s0 = self.state();
        let ghost id = self.policy_id();
        let mut i: usize = 0;
        assert(list@.take(0) =~= Seq::<Value>::empty());
        while i < list.len()
            invariant
                i <= list@.len(),
                self.wf(),
                self.policy_id() == id,
                s0 == old(self).state(),
                id == old(self).policy_id(),
                s0.err is None,
                fits(gen_in(*x, list@, s0)),
                self.state() == gen_in(*x, list@.take(i as int), s0),
            decreases list@.len() - i,
        {
            let ghost pre = gen_in(*x, list@.take(i as int), s0);
            proof {
                lemma_in_prefix(*x, list@, s0, i + 1);
                assert(list@.take(i + 1).subrange(0, i as int) =~= list@.take(i as int));
                lemma_expr_mono(*x, pre);
            }
            if i > 0 {
                match self.compile_expression(x) {
                    Ok(()) => {},
                    Err(e) => { return Err(e); },
                }
            }
            match self.compile_literal(&list[i]) {
                Ok(()) => {},
                Err(e) => { return Err(e); },
            }
            self.policy.emit(Instruction::Compare { op: CompOp::Eq });
            if i > 0 {
                self.policy.emit(Instruction::Or);
            }
            i = i + 1;
        }
        assert(list@.take(list@.len() as int) =~= list@);
        Ok(())
    }

    fn compile_conditions(&mut self, cs: &Vec<Condition>) -> (r: Result<(), CompileError>)
        requires
            old(self).wf(),
            fits(gen_conds(cs@, old(self).state())),
        ensures
            final(self).wf(),
            final(self).policy_id() == old(self).policy_id(),
            final(self).holds(gen_conds(cs@, old(self).state())),
            r is Ok <==> gen_conds(cs@, old(self).state()).err is None,
            r matches Err(x) ==> gen_conds(cs@, old(self).state()).err == Some(x@),
    {
        let ghost s0 = self.state();
        let ghost id = self.policy_id();
        let mut i: usize = 0;
        assert(cs@.take(0) =~= Seq::<Condition>::empty());
        while i < cs.len()
            invariant
                i <= cs@.len(),
                self.wf(),
                self.policy_id() == id,
                s0 == old(self).state(),
                id == old(self).policy_id(),
                s0.err is None,
                fits(gen_conds(cs@, s0)),
                self.state() == gen_conds(cs@.take(i as int), s0),
            decreases cs@.len() - i,
        {
            let ghost pre = gen_conds(cs@.take(i as int), s0);
            let ghost mid = if i > 0 { emit_ok(pre, Instruction::And) } else { pre };
            proof {
                lemma_conds_prefix(cs@, s0, i + 1);
                assert(cs@.take(i + 1).subrange(0, i as int) =~= cs@.take(i as int));
                lemma_expr_mono(cs@[i as int].expr, mid);
            }
            if i > 0 {
                self.policy.emit(Instruction::And);
            }
            match self.compile_expression(&cs[i].expr) {
                Ok(()) => {},
                Err(x) => { return Err(x); },
            }
            i = i + 1;
        }
        assert(cs@.take(cs@.len() as int) =~= cs@);
        Ok(())
    }

    fn compile_where(&mut self, cs: &Vec<Condition>) -> (r: Result<(), CompileError>)
        requires
            old(self).wf(),
            fits(gen_where(cs@, old(self).state())),
        ensures
            final(self).wf(),
            final(self).policy_id() == old(self).policy_id(),
            final(self).holds(gen_where(cs@, old(self).state())),
            r is Ok <==> gen_where(cs@, old(self).state()).err is None,
            r matches Err(x) ==> gen_where(cs@, old(self).state()).err == Some(x@),
    {
        let ghost s0 = self.state();
        let ghost id = self.policy_id();
        let mut i: usize = 0;
        assert(cs@.take(0) =~= Seq::<Condition>::empty());
        while i < cs.len()
            invariant
                i <= cs@.len(),
                self.wf(),
                self.policy_id() == id,
                s0 == old(self).state(),
                id == old(self).policy_id(),
                s0.err is None,
                fits(gen_where(cs@, s0)),
                self.state() == gen_where(cs@.take(i as int), s0),
            decreases cs@.len() - i,
        {
            let ghost pre = gen_where(cs@.take(i as int), s0);
            proof {
                lemma_where_prefix(cs@, s0, i + 1);
                assert(cs@.take(i + 1).subrange(0, i as int) =~= cs@.take(i as int));
                lemma_expr_mono(cs@[i as int].expr, pre);
            }
            match self.compile_expression(&cs[i].expr) {
                Ok(()) => {},
                Err(x) => { return Err(x); },
            }
            self.policy.emit(Instruction::And);
            i = i + 1;
        }
        assert(cs@.take(cs@.len() as int) =~= cs@);
        Ok(())
    }

    /// Compile a policy to bytecode: its requirements, or `Return false` for a denying policy.
    pub fn compile(self, policy: &Policy) -> (r: Result<CompiledPolicy, CompileError>)
        requires
            self.wf(),
            fits(gen_policy(*policy, self.state())),
        ensures
            r is Ok <==> gen_policy(*policy, self.state()).err is None,
            r matches Err(x) ==> gen_policy(*policy, self.state()).err == Some(x@),
            r matches Ok(p) ==> compiled_as(p, gen_policy(*policy, self.state()), self.policy_id()),
    {
        match self.compile_with_fields(policy) {
            Ok((p, _)) => Ok(p),
            Err(x) => Err(x),
        }
    }

    /// Compile a policy as `compile` does, and also give the field paths allocated, each
    /// with its offset, in order of allocation: the `i`-th path has offset `i`.
    pub fn compile_with_fields(self, policy: &Policy) -> (r: Result<(CompiledPolicy, StrMap<u16>), CompileError>)
        requires
            self.wf(),
            fits(gen_policy(*policy, self.state())),
        ensures
            r is Ok <==> gen_policy(*policy, self.state()).err is None,
            r matches Err(x) ==> gen_policy(*policy, self.state()).err == Some(x@),
            r matches Ok((p, m)) ==> compiled_as(p, gen_policy(*policy, self.state()), self.policy_id())
                && m.entries() == gen_policy(*policy, self.state()).fields
                && forall|i: int| 0 <= i < m.entries().len() ==> #[trigger] m.entries()[i].1 == i,
    {
        let ghost s0 = self.state();
        let mut c = self;
        match &policy.requirements {
            Requirements::Requires { conditions, where_clause } => {
                let ghost g1 = gen_conds(conditions@, s0);
                proof {
                    lemma_conds_mono(conditions@, s0);
                    match where_clause {
                        Some(w) => lemma_where_mono(w@, g1),
                        None => {},
                    }
                }
                match c.compile_conditions(conditions) {
                    Ok(()) => {},
                    Err(x) => {
                        proof {
                            match where_clause {
                                Some(w) => lemma_where_err(w@, g1),
                                None => {},
                            }
                        }
                        return Err(x);
                    },
                }
                match where_clause {
                    Some(w) => {
                        match c.compile_where(w) {
                            Ok(()) => {},
                            Err(x) => { return Err(x); },
                        }
                    },
                    None => {},
                }
                c.policy.emit(Instruction::Return { value: true });
            },
            Requirements::Denies { .. } => {
                c.policy.emit(Instruction::Return { value: false });
            },
        }
        proof { reveal(CompileContext::wf); }
        Ok((c.policy, c.context.field_offsets))
    }
}

impl Default for PolicyCompiler {
    fn default() -> (c: Self)
        ensures
            c.wf(),
            c.holds(start_state()),
            c.policy_id() == 0,
    {
        PolicyCompiler::new(0)
    }
}

/// `p` holds the code and constants of `g`, under a header that counts them.
pub open spec fn compiled_as(p: CompiledPolicy, g: GenState, policy_id: u64) -> bool {
    &&& p.code@ == g.code
    &&& p.constants@.map_values(|v: BytecodeValue| v@) == g.consts
    &&& p.header.policy_id == policy_id
    &&& p.header.code_size == p.code@.len()
    &&& p.header.const_size == p.constants@.len()
    &&& p.header.version == 1
    &&& p.header.magic@ == seq![73u8, 80u8, 69u8, 0u8]
}

/// `g` keeps the code of `s` and adds only straight-line instructions after it.
pub open spec fn adds_straight(s: GenState, g: GenState) -> bool {
    &&& s.code.len() <= g.code.len()
    &&& g.code.subrange(0, s.code.len() as int) == s.code
    &&& forall|k: int| s.code.len() <= k < g.code.len() ==> straight(#[trigger] g.code[k])
}

proof fn lemma_adds_trans(a: GenState, b: GenState, c: GenState)
    requires
        adds_straight(a, b),
        adds_straight(b, c),
    ensures
        adds_straight(a, c),
{
    assert(c.code.subrange(0, a.code.len() as int) =~= b.code.subrange(0, a.code.len() as int)) by {
        assert forall|k: int| 0 <= k < a.code.len() implies c.code[k] == b.code[k] by {
            assert(c.code.subrange(0, b.code.len() as int)[k] == c.code[k]);
        }
    }
    assert forall|k: int| a.code.len() <= k < c.code.len() implies straight(#[trigger] c.code[k]) by {
        if k < b.code.len() {
            assert(c.code.subrange(0, b.code.len() as int)[k] == c.code[k]);
        }
    }
}

proof fn lemma_adds_refl(s: GenState)
    ensures
        adds_straight(s, s),
{
    assert(s.code.subrange(0, s.code.len() as int) =~= s.code);
}

proof fn lemma_emit_straight(s: GenState, i: Instruction)
    requires
        straight(i),
    ensures
        adds_straight(s, emit_ok(s, i)),
{
    lemma_adds_refl(s);
    if s.err is None {
        assert(emit_ok(s, i).code.subrange(0, s.code.len() as int) =~= s.code);
    }
}

proof fn lemma_fail_straight(s: GenState, e: CompileErrorModel)
    ensures
        adds_straight(s, fail(s, e)),
{
    lemma_adds_refl(s);
}

proof fn lemma_literal_straight(v: Value, s: GenState)
    ensures
        adds_straight(s, gen_literal(v, s)),
{
    lemma_adds_refl(s);
    match literal_model(v) {
        Ok(m) => {
            if s.err is None && s.consts.len() < 65536 {
                let t = GenState { consts: s.consts.push(m), ..s };
                lemma_emit_straight(t, Instruction::LoadConst { idx: s.consts.len() as u16 });
            }
        },
        Err(_) => {},
    }
}

proof fn lemma_const_straight(s: GenState, m: ValueModel)
    ensures
        adds_straight(s, gen_const(s, m)),
{
    lemma_adds_refl(s);
    if s.err is None && s.consts.len() < 65536 {
        let t = GenState { consts: s.consts.push(m), ..s };
        lemma_emit_straight(t, Instruction::LoadConst { idx: s.consts.len() as u16 });
    }
}

proof fn lemma_path_straight(p: Path, s: GenState)
    ensures
        adds_straight(s, gen_path(p, s)),
{
    lemma_adds_refl(s);
    if s.err is None {
        match lookup(s.fields, path_key(p)) {
            Some(off) => lemma_emit_straight(s, Instruction::LoadField { offset: off }),
            None => {
                let off = s.fields.len() as u16;
                let t = GenState { fields: store(s.fields, path_key(p), off), ..s };
                lemma_emit_straight(t, Instruction::LoadField { offset: off });
            },
        }
    }
}

proof fn lemma_expr_straight(e: Expression, s: GenState)
    ensures
        adds_straight(s, gen_expr(e, s)),
    decreases e, 0int,
{
    lemma_adds_refl(s);
    if s.err is None {
        match e {
            Expression::Literal(v) => lemma_literal_straight(v, s),
            Expression::Path(p) => lemma_path_straight(p, s),
            Expression::Binary { left, op, right } => {
                let BinaryOp::Comparison(c) = op;
                let s1 = gen_expr(*left, s);
                let s2 = gen_expr(*right, s1);
                lemma_expr_straight(*left, s);
                lemma_expr_straight(*right, s1);
                lemma_emit_straight(s2, Instruction::Compare { op: comp_op(c) });
                lemma_adds_trans(s, s1, s2);
                lemma_adds_trans(s, s2, gen_expr(e, s));
            },
            Expression::Logical { op, operands } => match op {
                LogicalOp::And => lemma_seq_straight(operands@, Some(Instruction::And), s),
                LogicalOp::Or => lemma_seq_straight(operands@, Some(Instruction::Or), s),
                LogicalOp::Not => {
                    if operands@.len() == 0 {
                        lemma_fail_straight(s, CompileErrorModel::Unsupported("NOT requires an operand"@));
                    } else {
                        let s1 = gen_expr(operands@[0], s);
                        lemma_expr_straight(operands@[0], s);
                        lemma_emit_straight(s1, Instruction::Not);
                        lemma_adds_trans(s, s1, gen_expr(e, s));
                    }
                },
            },
            Expression::In { expr, list } => {
                let s1 = gen_expr(*expr, s);
                lemma_expr_straight(*expr, s);
                if list@.len() == 0 {
                    lemma_const_straight(s1, ValueModel::Bool(false));
                } else {
                    lemma_in_straight(*expr, list@, s1);
                }
                lemma_adds_trans(s, s1, gen_expr(e, s));
            },
            Expression::Aggregate { .. } => {},
            Expression::Call { name, args } => {
                let s1 = gen_seq(args@, None, s);
                lemma_seq_straight(args@, None, s);
                lemma_adds_refl(s1);
                match function_id(name@) {
                    Some(f) => lemma_emit_straight(s1, Instruction::Call { func: f, argc: (args@.len() % 256) as u8 }),
                    None => {},
                }
                lemma_adds_trans(s, s1, gen_expr(e, s));
            },
        }
    }
}

proof fn lemma_seq_straight(ops: Seq<Expression>, joiner: Option<Instruction>, s: GenState)
    requires
        joiner matches Some(j) ==> straight(j),
    ensures
        adds_straight(s, gen_seq(ops, joiner, s)),
    decreases ops, 0int,
{
    lemma_adds_refl(s);
    if ops.len() > 0 {
        let pre = ops.subrange(0, ops.len() - 1);
        let s1 = gen_seq(pre, joiner, s);
        let s2 = gen_expr(ops[ops.len() - 1], s1);
        lemma_seq_straight(pre, joiner, s);
        lemma_expr_straight(ops[ops.len() - 1], s1);
        lemma_adds_trans(s, s1, s2);
        lemma_adds_refl(s2);
        match joiner {
            Some(j) => if ops.len() > 1 {
                lemma_emit_straight(s2, j);
                lemma_adds_trans(s, s2, emit_ok(s2, j));
            },
            None => {},
        }
    }
}

proof fn lemma_in_straight(x: Expression, list: Seq<Value>, s: GenState)
    ensures
        adds_straight(s, gen_in(x, list, s)),
    decreases x, list.len() as int,
{
    lemma_adds_refl(s);
    if list.len() > 0 {
        let pre = list.subrange(0, list.len() - 1);
        let s1 = gen_in(x, pre, s);
        lemma_in_straight(x, pre, s);
        let s2 = if list.len() > 1 { gen_expr(x, s1) } else { s1 };
        lemma_adds_refl(s1);
        if list.len() > 1 {
            lemma_expr_straight(x, s1);
        }
        let s3 = gen_literal(list[list.len() - 1], s2);
        lemma_literal_straight(list[list.len() - 1], s2);
        let s4 = emit_ok(s3, Instruction::Compare { op: CompOp::Eq });
        lemma_emit_straight(s3, Instruction::Compare { op: CompOp::Eq });
        lemma_adds_trans(s, s1, s2);
        lemma_adds_trans(s, s2, s3);
        lemma_adds_trans(s, s3, s4);
        if list.len() > 1 {
            lemma_emit_straight(s4, Instruction::Or);
            lemma_adds_trans(s, s4, emit_ok(s4, Instruction::Or));
        }
    }
}

proof fn lemma_conds_straight(cs: Seq<Condition>, s: GenState)
    ensures
        adds_straight(s, gen_conds(cs, s)),
    decreases cs.len(),
{
    lemma_adds_refl(s);
    if cs.len() > 0 {
        let pre = cs.subrange(0, cs.len() - 1);
        let s1 = gen_conds(pre, s);
        lemma_conds_straight(pre, s);
        let s2 = if cs.len() > 1 { emit_ok(s1, Instruction::And) } else { s1 };
        lemma_emit_straight(s1, Instruction::And);
        lemma_adds_refl(s1);
        lemma_adds_trans(s, s1, s2);
        lemma_expr_straight(cs[cs.len() - 1].expr, s2);
        lemma_adds_trans(s, s2, gen_conds(cs, s));
    }
}

proof fn lemma_where_straight(cs: Seq<Condition>, s: GenState)
    ensures
        adds_straight(s, gen_where(cs, s)),
    decreases cs.len(),
{
    lemma_adds_refl(s);
    if cs.len() > 0 {
        let pre = cs.subrange(0, cs.len() - 1);
        let s1 = gen_where(pre, s);
        lemma_where_straight(pre, s);
        let s2 = gen_expr(cs[cs.len() - 1].expr, s1);
        lemma_expr_straight(cs[cs.len() - 1].expr, s1);
        lemma_emit_straight(s2, Instruction::And);
        lemma_adds_trans(s, s1, s2);
        lemma_adds_trans(s, s2, gen_where(cs, s));
    }
}

/// The code generated for a policy, when no error is met, is straight-line code whose only
/// `Return` ends it: `Return true` for a policy with requirements, and for a denying policy
/// the lone instruction `Return false`.
pub proof fn law_policy_code_shape(policy: Policy)
    requires
        gen_policy(policy, start_state()).err is None,
    ensures
        straight_then_return(gen_policy(policy, start_state()).code, policy.requirements is Requires),
        policy.requirements is Denies ==> gen_policy(policy, start_state()).code
            == seq![Instruction::Return { value: false }],
{
    let s0 = start_state();
    let g = gen_policy(policy, s0);
    match policy.requirements {
        Requirements::Requires { conditions, where_clause } => {
            let s1 = gen_conds(conditions@, s0);
            lemma_conds_straight(conditions@, s0);
            let s2 = match where_clause {
                Some(w) => gen_where(w@, s1),
                None => s1,
            };
            lemma_adds_refl(s1);
            match where_clause {
                Some(w) => lemma_where_straight(w@, s1),
                None => {},
            }
            lemma_adds_trans(s0, s1, s2);
            assert(g.code == s2.code.push(Instruction::Return { value: true }));
            assert forall|k: int| 0 <= k < g.code.len() - 1 implies straight(#[trigger] g.code[k]) by {
                assert(g.code[k] == s2.code[k]);
            }
        },
        Requirements::Denies { .. } => {
            assert(g.code =~= seq![Instruction::Return { value: false }]);
        },
    }
}

/// A policy compiled from an AST always halts under the interpreter, whatever the context,
/// field mapping and stack capacity: a denying policy evaluates to `Ok(false)`, and a
/// policy with requirements never evaluates to `Ok(false)` (it allows, or fails with an error).
pub proof fn law_compiled_policy_outcome(
    policy: Policy,
    p: CompiledPolicy,
    policy_id: u64,
    fmap: Map<u16, Vec<String>>,
    ctx: EvaluationContext,
    max: nat,
)
    requires
        gen_policy(policy, start_state()).err is None,
        compiled_as(p, gen_policy(policy, start_state()), policy_id),
    ensures
        halts(p, fmap, ctx, max),
        policy.requirements is Denies ==> outcome(p, fmap, ctx, max).0 == Ok::<bool, Seq<char>>(false),
        policy.requirements is Requires ==> outcome(p, fmap, ctx, max).0 != Ok::<bool, Seq<char>>(false),
{
    law_policy_code_shape(policy);
    lemma_straight_outcome(p, fmap, ctx, max, policy.requirements is Requires);
}

} // verus!
