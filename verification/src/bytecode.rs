//! Bytecode instruction set, runtime values and compiled policies.

use vstd::prelude::*;
use crate::text::{int_text, seq_lex_lt, str_lt, str_eq, push_char, append_i64, append_str};

verus! {

/// Bytecode instructions.
#[derive(Debug, Clone, Copy, PartialEq, Eq, Structural)]
pub enum Instruction {
    /// Load a field from the evaluation context
    LoadField { offset: u16 },
    /// Load a constant from the constant pool
    LoadConst { idx: u16 },
    /// Compare the two values on top of the stack
    Compare { op: CompOp },
    /// Unconditional jump, relative to the current instruction
    Jump { offset: i16 },
    /// Jump, relative to the current instruction, if the top of the stack is not truthy
    JumpIfFalse { offset: i16 },
    /// Call a built-in function
    Call { func: u8, argc: u8 },
    /// End evaluation with the given result
    Return { value: bool },
    /// Logical AND of the two values on top of the stack
    And,
    /// Logical OR of the two values on top of the stack
    Or,
    /// Logical NOT of the value on top of the stack
    Not,
}

/// Comparison operators.
#[derive(Debug, Clone, Copy, PartialEq, Eq, Structural)]
pub enum CompOp {
    Eq,
    Neq,
    Lt,
    Lte,
    Gt,
    Gte,
}

/// Runtime values.
#[derive(Debug, PartialEq)]
pub enum Value {
    Int(i64),
    Bool(bool),
    String(String),
}

/// A runtime value with its string taken by its characters.
pub enum ValueModel {
    Int(i64),
    Bool(bool),
    Str(Seq<char>),
}

impl Clone for Value {
    fn clone(&self) -> (c: Self)
        ensures
            c@ == self@,
    {
        match self {
            Value::Int(i) => Value::Int(*i),
            Value::Bool(b) => Value::Bool(*b),
            Value::String(s) => Value::String(s.clone()),
        }
    }
}

impl View for Value {
    type V = ValueModel;

    open spec fn view(&self) -> ValueModel {
        match self {
            Value::Int(i) => ValueModel::Int(*i),
            Value::Bool(b) => ValueModel::Bool(*b),
            Value::String(s) => ValueModel::Str(s@),
        }
    }
}

/// Truthiness: `true`, a nonzero integer, a nonempty string.
pub open spec fn truthy(v: ValueModel) -> bool {
    match v {
        ValueModel::Bool(b) => b,
        ValueModel::Int(i) => i != 0,
        ValueModel::Str(s) => s.len() > 0,
    }
}

/// How `{:?}` renders a character inside a string literal.
pub open spec fn debug_escape_char(c: char) -> Seq<char> {
    if c == '"' { seq!['\\', '"'] }
    else if c == '\\' { seq!['\\', '\\'] }
    else if c == '\n' { seq!['\\', 'n'] }
    else if c == '\r' { seq!['\\', 'r'] }
    else if c == '\t' { seq!['\\', 't'] }
    else if c == '\0' { seq!['\\', '0'] }
    else { seq![c] }
}

/// The escaped body of a string literal.
pub open spec fn debug_escape(s: Seq<char>) -> Seq<char>
    decreases s.len(),
{
    if s.len() == 0 {
        Seq::empty()
    } else {
        debug_escape(s.drop_last()) + debug_escape_char(s.last())
    }
}

/// Debug rendering of a runtime value, e.g. `Int(42)`, `Bool(true)`, `String("x")`.
pub open spec fn value_debug(v: ValueModel) -> Seq<char> {
    match v {
        ValueModel::Int(i) => "Int("@ + int_text(i as int) + ")"@,
        ValueModel::Bool(b) => if b { "Bool(true)"@ } else { "Bool(false)"@ },
        ValueModel::Str(s) => "String(\""@ + debug_escape(s) + "\")"@,
    }
}

/// Result of comparing two ordered quantities, given which of them is smaller and whether they are equal.
pub open spec fn ordered_result(lt: bool, eq: bool, op: CompOp) -> bool {
    match op {
        CompOp::Eq => eq,
        CompOp::Neq => !eq,
        CompOp::Lt => lt,
        CompOp::Lte => lt || eq,
        CompOp::Gt => !lt && !eq,
        CompOp::Gte => !lt,
    }
}

/// Booleans support only `==` and `!=`; every ordering comparison is `false`.
pub open spec fn bool_result(a: bool, b: bool, op: CompOp) -> bool {
    match op {
        CompOp::Eq => a == b,
        CompOp::Neq => a != b,
        _ => false,
    }
}

/// The message of a comparison between values of different kinds.
pub open spec fn mismatch_message(a: ValueModel, b: ValueModel) -> Seq<char> {
    "Cannot compare "@ + value_debug(a) + " with "@ + value_debug(b)
}

/// Comparison of two runtime values.
pub open spec fn compare_spec(a: ValueModel, b: ValueModel, op: CompOp) -> Result<bool, Seq<char>> {
    match (a, b) {
        (ValueModel::Int(x), ValueModel::Int(y)) => Ok(ordered_result(x < y, x == y, op)),
        (ValueModel::Str(x), ValueModel::Str(y)) => Ok(ordered_result(seq_lex_lt(x, y), x == y, op)),
        (ValueModel::Bool(x), ValueModel::Bool(y)) => Ok(bool_result(x, y, op)),
        _ => Err(mismatch_message(a, b)),
    }
}

/// `x` and `y` agree on their first `k` characters, and there `x` ends while `y` goes on, or
/// both go on and `x` has the smaller character: `x` comes first in dictionary order.
pub open spec fn precedes_at(x: Seq<char>, y: Seq<char>, k: int) -> bool {
    &&& 0 <= k <= x.len()
    &&& k <= y.len()
    &&& x.take(k) == y.take(k)
    &&& (k == x.len() && k < y.len()) || (k < x.len() && k < y.len() && (x[k] as int) < (y[k] as int))
}

proof fn lemma_lex_lt_precedes(x: Seq<char>, y: Seq<char>)
    ensures
        seq_lex_lt(x, y) <==> exists|k: int| #[trigger] precedes_at(x, y, k),
    decreases x.len(),
{
    if x.len() == 0 {
        if y.len() > 0 {
            assert(x.take(0) =~= y.take(0));
            assert(precedes_at(x, y, 0));
        }
    } else if y.len() == 0 {
    } else if x[0] == y[0] {
        let x1 = x.drop_first();
        let y1 = y.drop_first();
        lemma_lex_lt_precedes(x1, y1);
        if seq_lex_lt(x, y) {
            let k = choose|k: int| #[trigger] precedes_at(x1, y1, k);
            assert(x.take(k + 1) =~= seq![x[0]] + x1.take(k));
            assert(y.take(k + 1) =~= seq![y[0]] + y1.take(k));
            assert(precedes_at(x, y, k + 1));
        }
        if exists|k: int| #[trigger] precedes_at(x, y, k) {
            let k = choose|k: int| #[trigger] precedes_at(x, y, k);
            if k == 0 {
                assert(false);
            }
            assert(x.take(k)[0] == y.take(k)[0]);
            assert(x1.take(k - 1) =~= x.take(k).drop_first());
            assert(y1.take(k - 1) =~= y.take(k).drop_first());
            assert(precedes_at(x1, y1, k - 1));
        }
    } else {
        if (x[0] as int) < (y[0] as int) {
            assert(x.take(0) =~= y.take(0));
            assert(precedes_at(x, y, 0));
        }
        if exists|k: int| #[trigger] precedes_at(x, y, k) {
            let k = choose|k: int| #[trigger] precedes_at(x, y, k);
            if k > 0 {
                assert(x.take(k)[0] == y.take(k)[0]);
            }
        }
    }
}

/// Strings compare in dictionary order of their characters, whatever their lengths: `<` holds
/// exactly when, after their longest common prefix, the first string ends while the second
/// goes on, or the first has the smaller character; `==` is equality of the characters; `>`
/// and `>=` are `<` and `<=` with the sides swapped.
pub proof fn law_string_comparison(x: Seq<char>, y: Seq<char>)
    ensures
        compare_spec(ValueModel::Str(x), ValueModel::Str(y), CompOp::Lt)
            == Ok::<bool, Seq<char>>(exists|k: int| #[trigger] precedes_at(x, y, k)),
        compare_spec(ValueModel::Str(x), ValueModel::Str(y), CompOp::Eq) == Ok::<bool, Seq<char>>(x == y),
        compare_spec(ValueModel::Str(x), ValueModel::Str(y), CompOp::Neq) == Ok::<bool, Seq<char>>(x != y),
        compare_spec(ValueModel::Str(x), ValueModel::Str(y), CompOp::Lte)
            == Ok::<bool, Seq<char>>((exists|k: int| #[trigger] precedes_at(x, y, k)) || x == y),
        compare_spec(ValueModel::Str(x), ValueModel::Str(y), CompOp::Gt)
            == compare_spec(ValueModel::Str(y), ValueModel::Str(x), CompOp::Lt),
        compare_spec(ValueModel::Str(x), ValueModel::Str(y), CompOp::Gte)
            == compare_spec(ValueModel::Str(y), ValueModel::Str(x), CompOp::Lte),
{
    lemma_lex_lt_precedes(x, y);
    lemma_lex_lt_precedes(y, x);
    if seq_lex_lt(x, y) && seq_lex_lt(y, x) {
        crate::text::lemma_lex_transitive(x, y, x);
        crate::text::lemma_lex_irreflexive(x);
    }
    if x != y {
        crate::text::lemma_lex_total(x, y);
    } else {
        crate::text::lemma_lex_irreflexive(x);
    }
}

fn ordered(lt: bool, eq: bool, op: CompOp) -> (r: bool)
    ensures
        r == ordered_result(lt, eq, op),
{
    match op {
        CompOp::Eq => eq,
        CompOp::Neq => !eq,
        CompOp::Lt => lt,
        CompOp::Lte => lt || eq,
        CompOp::Gt => !lt && !eq,
        CompOp::Gte => !lt,
    }
}

/// Appends the escaped body of `s` to `out`.
fn append_escaped(out: &mut String, s: &str)
    ensures
        final(out)@ == old(out)@ + debug_escape(s@),
{
    let n = s.unicode_len();
    let mut i: usize = 0;
    while i < n
        invariant
            n == s@.len(),
            i <= n,
            out@ == old(out)@ + debug_escape(s@.take(i as int)),
        decreases n - i,
    {
        let c = s.get_char(i);
        let ghost before = out@;
        if c == '"' { push_char(out, '\\'); push_char(out, '"'); }
        else if c == '\\' { push_char(out, '\\'); push_char(out, '\\'); }
        else if c == '\n' { push_char(out, '\\'); push_char(out, 'n'); }
        else if c == '\r' { push_char(out, '\\'); push_char(out, 'r'); }
        else if c == '\t' { push_char(out, '\\'); push_char(out, 't'); }
        else if c == '\0' { push_char(out, '\\'); push_char(out, '0'); }
        else { push_char(out, c); }
        assert(out@ =~= before + debug_escape_char(c));
        assert(s@.take((i + 1) as int).drop_last() =~= s@.take(i as int));
        assert(s@.take((i + 1) as int).last() == c);
        i = i + 1;
        assert(out@ =~= old(out)@ + debug_escape(s@.take(i as int)));
    }
    assert(s@.take(n as int) =~= s@);
}

/// Appends the debug rendering of `v` to `out`.
pub fn append_value_debug(out: &mut String, v: &Value)
    ensures
        final(out)@ == old(out)@ + value_debug(v@),
{
    let ghost o = out@;
    match v {
        Value::Int(i) => {
            append_str(out, "Int(");
            append_i64(out, *i);
            append_str(out, ")");
            proof { reveal_strlit("Int("); reveal_strlit(")"); }
            assert(out@ =~= o + value_debug(v@));
        },
        Value::Bool(b) => {
            if *b { append_str(out, "Bool(true)"); } else { append_str(out, "Bool(false)"); }
        },
        Value::String(s) => {
            append_str(out, "String(\"");
            append_escaped(out, s.as_str());
            append_str(out, "\")");
            assert(out@ =~= o + value_debug(v@));
        },
    }
}

impl Value {
    /// Check if the value is truthy (for boolean operations).
    pub fn is_truthy(&self) -> (b: bool)
        ensures
            b == truthy(self@),
    {
        match self {
            Value::Bool(b) => *b,
            Value::Int(i) => *i != 0,
            Value::String(s) => s.unicode_len() != 0,
        }
    }

    /// Compare two values using the given comparison operator.
    pub fn compare(&self, other: &Value, op: CompOp) -> (r: Result<bool, String>)
        ensures
            match r {
                Ok(b) => compare_spec(self@, other@, op) == Ok::<bool, Seq<char>>(b),
                Err(e) => compare_spec(self@, other@, op) == Err::<bool, Seq<char>>(e@),
            },
    {
        match (self, other) {
            (Value::Int(a), Value::Int(b)) => Ok(ordered(*a < *b, *a == *b, op)),
            (Value::String(a), Value::String(b)) => {
                let lt = str_lt(a.as_str(), b.as_str());
                let eq = str_eq(a.as_str(), b.as_str());
                Ok(ordered(lt, eq, op))
            },
            (Value::Bool(a), Value::Bool(b)) => {
                let r = match op {
                    CompOp::Eq => *a == *b,
                    CompOp::Neq => *a != *b,
                    _ => false,
                };
                Ok(r)
            },
            _ => {
                let mut msg = String::new();
                append_str(&mut msg, "Cannot compare ");
                append_value_debug(&mut msg, self);
                append_str(&mut msg, " with ");
                append_value_debug(&mut msg, other);
                Err(msg)
            },
        }
    }
}

/// Compiled policy header.
#[derive(Debug, Clone)]
pub struct PolicyHeader {
    /// `IPE\0`
    pub magic: [u8; 4],
    pub version: u32,
    pub policy_id: u64,
    pub code_size: u32,
    pub const_size: u32,
}

/// Compiled policy bytecode.
#[derive(Debug, Clone)]
pub struct CompiledPolicy {
    pub header: PolicyHeader,
    pub code: Vec<Instruction>,
    pub constants: Vec<Value>,
}

/// Bytes that a constant takes in the size estimate: 8 for an integer, 1 for a boolean,
/// the UTF-8 length for a string.
pub open spec fn constant_bytes(v: Value) -> nat {
    match v {
        Value::Int(_) => 8,
        Value::Bool(_) => 1,
        Value::String(s) => vstd::utf8::encode_utf8(s@).len(),
    }
}

/// Total of `constant_bytes` over a sequence of constants.
pub open spec fn constants_bytes(s: Seq<Value>) -> nat
    decreases s.len(),
{
    if s.len() == 0 { 0 } else { constants_bytes(s.drop_last()) + constant_bytes(s.last()) }
}

/// Size estimate of a compiled policy.
pub open spec fn size_estimate(p: CompiledPolicy) -> nat {
    vstd::layout::size_of::<PolicyHeader>() + p.code@.len() * vstd::layout::size_of::<Instruction>()
        + constants_bytes(p.constants@)
}

impl CompiledPolicy {
    /// Create an empty compiled policy.
    pub fn new(policy_id: u64) -> (p: Self)
        ensures
            p.header.magic@ == seq![73u8, 80u8, 69u8, 0u8],
            p.header.version == 1,
            p.header.policy_id == policy_id,
            p.header.code_size == 0,
            p.header.const_size == 0,
            p.code@.len() == 0,
            p.constants@.len() == 0,
    {
        CompiledPolicy {
            header: PolicyHeader {
                magic: [73u8, 80u8, 69u8, 0u8],
                version: 1,
                policy_id,
                code_size: 0,
                const_size: 0,
            },
            code: Vec::new(),
            constants: Vec::new(),
        }
    }

    /// Append an instruction to the bytecode.
    pub fn emit(&mut self, instr: Instruction)
        requires
            old(self).header.code_size < u32::MAX,
        ensures
            final(self).code@ == old(self).code@.push(instr),
            final(self).constants@ == old(self).constants@,
            final(self).header.code_size == old(self).header.code_size + 1,
            final(self).header.const_size == old(self).header.const_size,
            final(self).header.policy_id == old(self).header.policy_id,
            final(self).header.version == old(self).header.version,
            final(self).header.magic == old(self).header.magic,
    {
        self.code.push(instr);
        self.header.code_size = self.header.code_size + 1;
    }

    /// Append a constant to the constant pool; returns its index, taken modulo 65536.
    pub fn add_constant(&mut self, value: Value) -> (idx: u16)
        requires
            old(self).header.const_size < u32::MAX,
        ensures
            idx == old(self).constants@.len() % 65536,
            final(self).constants@ == old(self).constants@.push(value),
            final(self).code@ == old(self).code@,
            final(self).header.const_size == old(self).header.const_size + 1,
            final(self).header.code_size == old(self).header.code_size,
            final(self).header.policy_id == old(self).header.policy_id,
            final(self).header.version == old(self).header.version,
            final(self).header.magic == old(self).header.magic,
    {
        let idx = (self.constants.len() % 65536) as u16;
        self.constants.push(value);
        self.header.const_size = self.header.const_size + 1;
        idx
    }

    /// Size estimate in bytes: the header, each instruction, and the payload of each constant.
    pub fn size_bytes(&self) -> (n: usize)
        requires
            size_estimate(*self) <= usize::MAX,
        ensures
            n == size_estimate(*self),
    {
        let header = core::mem::size_of::<PolicyHeader>();
        let instr = core::mem::size_of::<Instruction>();
        let ghost total = size_estimate(*self);
        assert(self.code@.len() * instr <= total) by (nonlinear_arith)
            requires
                total == header + self.code@.len() * instr + constants_bytes(self.constants@);
        let code_bytes = self.code.len() * instr;
        let mut sum: usize = header + code_bytes;
        let mut i: usize = 0;
        while i < self.constants.len()
            invariant
                i <= self.constants@.len(),
                sum == header + code_bytes + constants_bytes(self.constants@.take(i as int)),
                total == header + code_bytes + constants_bytes(self.constants@),
                total <= usize::MAX,
            decreases self.constants@.len() - i,
        {
            proof { lemma_constants_bytes_prefix(self.constants@, (i + 1) as int); }
            assert(self.constants@.take((i + 1) as int).drop_last() =~= self.constants@.take(i as int));
            let b: usize = match &self.constants[i] {
                Value::Int(_) => 8,
                Value::Bool(_) => 1,
                Value::String(s) => s.as_str().len(),
            };
            sum = sum + b;
            i = i + 1;
        }
        assert(self.constants@.take(i as int) =~= self.constants@);
        sum
    }
}

proof fn lemma_constants_bytes_prefix(s: Seq<Value>, k: int)
    requires
        0 <= k <= s.len(),
    ensures
        constants_bytes(s.take(k)) <= constants_bytes(s),
    decreases s.len(),
{
    if k < s.len() {
        assert(s.drop_last().take(k) =~= s.take(k));
        lemma_constants_bytes_prefix(s.drop_last(), k);
    } else {
        assert(s.take(k) =~= s);
    }
}

} // verus!
