//! AST node definitions.

use vstd::prelude::*;
use crate::parser::parse::{expr_tree, exprs_tree, value_tree, values_tree};
use crate::text::{owned, append_str, push_char, str_eq};

verus! {

/// Source location for error reporting.
#[derive(Debug, Clone, Copy, PartialEq, Eq, Structural)]
pub struct SourceLocation {
    pub line: usize,
    pub column: usize,
    pub length: usize,
}

impl SourceLocation {
    /// Create a new source location.
    pub fn new(line: usize, column: usize, length: usize) -> (l: Self)
        ensures
            l.line == line,
            l.column == column,
            l.length == length,
    {
        SourceLocation { line, column, length }
    }
}

impl Default for SourceLocation {
    fn default() -> (l: Self)
        ensures
            l.line == 0 && l.column == 0 && l.length == 0,
    {
        SourceLocation { line: 0, column: 0, length: 0 }
    }
}

/// A float literal, kept as the decimal text it was written with (`digits.digits`,
/// optionally preceded by `-`).
#[derive(Debug, Clone, PartialEq)]
pub struct FloatLiteral {
    pub text: String,
}

impl FloatLiteral {
    /// A float literal with the given decimal text.
    pub fn new(text: &str) -> (f: Self)
        ensures
            f.text@ == text@,
    {
        FloatLiteral { text: owned(text) }
    }
}

/// Whether the decimal text has a digit other than `0`, i.e. denotes a nonzero number.
pub open spec fn has_nonzero_digit(s: Seq<char>) -> bool {
    exists|i: int| 0 <= i < s.len() && '1' <= #[trigger] s[i] && s[i] <= '9'
}

/// A value in the AST.
#[derive(Debug, PartialEq)]
pub enum Value {
    String(String),
    Int(i64),
    Float(FloatLiteral),
    Bool(bool),
    Array(Vec<Value>),
}

/// Truthiness of an AST value: `true`, a nonzero number, a nonempty string or array.
pub open spec fn value_truthy(v: Value) -> bool {
    match v {
        Value::Bool(b) => b,
        Value::Int(n) => n != 0,
        Value::String(s) => s@.len() > 0,
        Value::Array(a) => a@.len() > 0,
        Value::Float(f) => has_nonzero_digit(f.text@),
    }
}

/// A copy of an AST value: same kind and scalar, same characters, same number of items.
pub open spec fn value_copy_of(a: Value, b: Value) -> bool {
    match (a, b) {
        (Value::String(x), Value::String(y)) => x@ == y@,
        (Value::Int(x), Value::Int(y)) => x == y,
        (Value::Float(x), Value::Float(y)) => x.text@ == y.text@,
        (Value::Bool(x), Value::Bool(y)) => x == y,
        (Value::Array(x), Value::Array(y)) => x@.len() == y@.len(),
        _ => false,
    }
}

/// A copy of an AST value.
pub fn copy_value(a: &Value) -> (c: Value)
    ensures
        value_copy_of(*a, c),
        value_tree(c) == value_tree(*a),
    decreases a,
{
    match a {
        Value::String(s) => Value::String(s.clone()),
        Value::Int(i) => Value::Int(*i),
        Value::Float(f) => Value::Float(FloatLiteral { text: f.text.clone() }),
        Value::Bool(b) => Value::Bool(*b),
        Value::Array(v) => {
            let mut out: Vec<Value> = Vec::new();
            let mut i: usize = 0;
            while i < v.len()
                invariant
                    i <= v@.len(),
                    out@.len() == i,
                    *a == Value::Array(*v),
                    values_tree(out@) == values_tree(v@.subrange(0, i as int)),
                decreases v@.len() - i,
            {
                proof {
                    vstd::std_specs::vec::axiom_vec_index_decreases(*v, i as int);
                    assert(decreases_to!(*a => (*a)->Array_0));
                }
                let x = copy_value(&v[i]);
                let ghost prev = out@;
                out.push(x);
                proof {
                    assert(out@.subrange(0, i as int) =~= prev);
                    assert(v@.subrange(0, i + 1).subrange(0, i as int) =~= v@.subrange(0, i as int));
                }
                i = i + 1;
            }
            proof {
                assert(v@.subrange(0, v@.len() as int) =~= v@);
            }
            Value::Array(out)
        },
    }
}

impl Clone for Value {
    fn clone(&self) -> (c: Self)
        ensures
            value_copy_of(*self, c),
    {
        copy_value(self)
    }
}

impl Value {
    /// Check if value is truthy.
    pub fn is_truthy(&self) -> (b: bool)
        ensures
            b == value_truthy(*self),
    {
        match self {
            Value::Bool(b) => *b,
            Value::Int(n) => *n != 0,
            Value::String(s) => s.unicode_len() != 0,
            Value::Array(arr) => arr.len() != 0,
            Value::Float(f) => {
                let t = f.text.as_str();
                let n = t.unicode_len();
                let mut i: usize = 0;
                while i < n
                    invariant
                        n == t@.len(),
                        t@ == f.text@,
                        *self == Value::Float(*f),
                        i <= n,
                        forall|j: int| 0 <= j < i ==> !('1' <= #[trigger] t@[j] && t@[j] <= '9'),
                    decreases n - i,
                {
                    let c = t.get_char(i);
                    if '1' <= c && c <= '9' {
                        assert(t@[i as int] == c);
                        return true;
                    }
                    i = i + 1;
                }
                false
            },
        }
    }

    /// Get the type name.
    pub fn kind_name(&self) -> (n: &'static str)
        ensures
            n@ == match *self {
                Value::String(_) => "String"@,
                Value::Int(_) => "Int"@,
                Value::Float(_) => "Float"@,
                Value::Bool(_) => "Bool"@,
                Value::Array(_) => "Array"@,
            },
    {
        match self {
            Value::String(_) => "String",
            Value::Int(_) => "Int",
            Value::Float(_) => "Float",
            Value::Bool(_) => "Bool",
            Value::Array(_) => "Array",
        }
    }
}

/// Comparison operators.
#[derive(Debug, Clone, Copy, PartialEq, Eq, Hash, Structural)]
pub enum ComparisonOp {
    Eq,
    Neq,
    Lt,
    Gt,
    LtEq,
    GtEq,
}

impl ComparisonOp {
    /// The operator as written in policies.
    pub fn to_string(&self) -> (s: String)
        ensures
            s@ == match *self {
                ComparisonOp::Eq => "=="@,
                ComparisonOp::Neq => "!="@,
                ComparisonOp::Lt => "<"@,
                ComparisonOp::Gt => ">"@,
                ComparisonOp::LtEq => "<="@,
                ComparisonOp::GtEq => ">="@,
            },
    {
        match self {
            ComparisonOp::Eq => owned("=="),
            ComparisonOp::Neq => owned("!="),
            ComparisonOp::Lt => owned("<"),
            ComparisonOp::Gt => owned(">"),
            ComparisonOp::LtEq => owned("<="),
            ComparisonOp::GtEq => owned(">="),
        }
    }
}

/// Binary operators.
#[derive(Debug, Clone, Copy, PartialEq, Eq, Hash, Structural)]
pub enum BinaryOp {
    Comparison(ComparisonOp),
}

/// Logical operators.
#[derive(Debug, Clone, Copy, PartialEq, Eq, Hash, Structural)]
pub enum LogicalOp {
    And,
    Or,
    Not,
}

impl LogicalOp {
    /// The operator as written in policies.
    pub fn to_string(&self) -> (s: String)
        ensures
            s@ == match *self {
                LogicalOp::And => "and"@,
                LogicalOp::Or => "or"@,
                LogicalOp::Not => "not"@,
            },
    {
        match self {
            LogicalOp::And => owned("and"),
            LogicalOp::Or => owned("or"),
            LogicalOp::Not => owned("not"),
        }
    }
}

/// Aggregate functions.
#[derive(Debug, Clone, Copy, PartialEq, Eq, Hash, Structural)]
pub enum AggregateFunc {
    Count,
    Any,
    All,
    Sum,
    Max,
    Min,
}

impl AggregateFunc {
    /// The function name as written in policies.
    pub fn to_string(&self) -> (s: String)
        ensures
            s@ == match *self {
                AggregateFunc::Count => "count"@,
                AggregateFunc::Any => "any"@,
                AggregateFunc::All => "all"@,
                AggregateFunc::Sum => "sum"@,
                AggregateFunc::Max => "max"@,
                AggregateFunc::Min => "min"@,
            },
    {
        match self {
            AggregateFunc::Count => owned("count"),
            AggregateFunc::Any => owned("any"),
            AggregateFunc::All => owned("all"),
            AggregateFunc::Sum => owned("sum"),
            AggregateFunc::Max => owned("max"),
            AggregateFunc::Min => owned("min"),
        }
    }
}

/// The characters of the segments joined with `.`.
pub open spec fn join_dot(segs: Seq<Seq<char>>) -> Seq<char>
    decreases segs.len(),
{
    if segs.len() == 0 {
        Seq::empty()
    } else if segs.len() == 1 {
        segs[0]
    } else {
        join_dot(segs.drop_last()) + seq!['.'] + segs.last()
    }
}

/// A path (dot-separated identifiers).
#[derive(Debug, PartialEq, Eq, Hash)]
pub struct Path {
    pub segments: Vec<String>,
}

/// The segments of a path, by their characters.
pub open spec fn segment_chars(p: Path) -> Seq<Seq<char>> {
    p.segments@.map_values(|s: String| s@)
}

impl Clone for Path {
    fn clone(&self) -> (p: Self)
        ensures
            p.segments@ == self.segments@,
    {
        let segments = self.segments.clone();
        assert(segments@ =~= self.segments@);
        Path { segments }
    }
}

impl Path {
    /// Create a new path.
    pub fn new(segments: Vec<String>) -> (p: Self)
        ensures
            p.segments == segments,
    {
        Path { segments }
    }

    /// Create a simple path with one segment.
    pub fn simple(segment: String) -> (p: Self)
        ensures
            p.segments@ == seq![segment],
    {
        let mut segments = Vec::new();
        segments.push(segment);
        Path { segments }
    }

    /// Get the first segment.
    pub fn root(&self) -> (r: Option<&str>)
        ensures
            match r {
                Some(s) => self.segments@.len() > 0 && s@ == self.segments@[0]@,
                None => self.segments@.len() == 0,
            },
    {
        if self.segments.len() == 0 {
            None
        } else {
            Some(self.segments[0].as_str())
        }
    }

    /// Check if this is a simple path (one segment).
    pub fn is_simple(&self) -> (b: bool)
        ensures
            b == (self.segments@.len() == 1),
    {
        self.segments.len() == 1
    }

    /// The segments joined with `.`.
    pub fn to_string(&self) -> (s: String)
        ensures
            s@ == join_dot(segment_chars(*self)),
    {
        let mut out = String::new();
        let n = self.segments.len();
        let mut i: usize = 0;
        while i < n
            invariant
                n == self.segments@.len(),
                i <= n,
                out@ == join_dot(segment_chars(*self).take(i as int)),
            decreases n - i,
        {
            let ghost segs = segment_chars(*self);
            assert(segs.take((i + 1) as int).drop_last() =~= segs.take(i as int));
            if i > 0 {
                push_char(&mut out, '.');
            }
            append_str(&mut out, self.segments[i].as_str());
            i = i + 1;
            proof {
                if i == 1 {
                    assert(segs.take(1) =~= seq![segs[0]]);
                    assert(out@ =~= join_dot(segs.take(1)));
                } else {
                    assert(out@ =~= join_dot(segs.take(i as int)));
                }
            }
        }
        assert(segment_chars(*self).take(n as int) =~= segment_chars(*self));
        out
    }
}

/// A complete policy definition.
#[derive(Debug, Clone, PartialEq)]
pub struct Policy {
    /// Policy name (identifier)
    pub name: String,
    /// Natural language intent string
    pub intent: String,
    /// Trigger conditions (when to evaluate this policy)
    pub triggers: Vec<Condition>,
    /// Requirements (what must be true for Allow)
    pub requirements: Requirements,
    /// Optional metadata
    pub metadata: Option<Metadata>,
    /// Source location
    pub location: SourceLocation,
}

impl Policy {
    /// Create a new policy, without metadata, at the default location.
    pub fn new(name: String, intent: String, triggers: Vec<Condition>, requirements: Requirements) -> (p: Self)
        ensures
            p.name == name,
            p.intent == intent,
            p.triggers == triggers,
            p.requirements == requirements,
            p.metadata is None,
            p.location == (SourceLocation { line: 0, column: 0, length: 0 }),
    {
        Policy {
            name,
            intent,
            triggers,
            requirements,
            metadata: None,
            location: SourceLocation::default(),
        }
    }

    /// Add metadata to the policy.
    pub fn with_metadata(self, metadata: Metadata) -> (p: Self)
        ensures
            p == (Policy { metadata: Some(metadata), ..self }),
    {
        let mut p = self;
        p.metadata = Some(metadata);
        p
    }

    /// Set the source location.
    pub fn with_location(self, location: SourceLocation) -> (p: Self)
        ensures
            p == (Policy { location, ..self }),
    {
        let mut p = self;
        p.location = location;
        p
    }
}

/// Policy requirements (requires or denies).
#[derive(Debug, Clone, PartialEq)]
pub enum Requirements {
    /// Allow if conditions are met
    Requires { conditions: Vec<Condition>, where_clause: Option<Vec<Condition>> },
    /// Deny with optional reason
    Denies { reason: Option<String> },
}

impl Requirements {
    /// Create a requires clause.
    pub fn require(conditions: Vec<Condition>) -> (r: Self)
        ensures
            r == (Requirements::Requires { conditions, where_clause: None }),
    {
        Requirements::Requires { conditions, where_clause: None }
    }

    /// Create a requires clause with a where clause.
    pub fn requires_where(conditions: Vec<Condition>, where_clause: Vec<Condition>) -> (r: Self)
        ensures
            r == (Requirements::Requires { conditions, where_clause: Some(where_clause) }),
    {
        Requirements::Requires { conditions, where_clause: Some(where_clause) }
    }

    /// Create a denies clause.
    pub fn denies(reason: Option<String>) -> (r: Self)
        ensures
            r == (Requirements::Denies { reason }),
    {
        Requirements::Denies { reason }
    }
}

/// A condition in triggers or requirements.
#[derive(Debug, PartialEq)]
pub struct Condition {
    /// The expression
    pub expr: Expression,
    /// Source location
    pub location: SourceLocation,
}

impl Condition {
    /// Create a new condition at the default location.
    pub fn new(expr: Expression) -> (c: Self)
        ensures
            c.expr == expr,
            c.location == (SourceLocation { line: 0, column: 0, length: 0 }),
    {
        Condition { expr, location: SourceLocation::default() }
    }

    /// Set the source location.
    pub fn with_location(self, location: SourceLocation) -> (c: Self)
        ensures
            c.expr == self.expr,
            c.location == location,
    {
        Condition { expr: self.expr, location }
    }
}

/// An expression in the AST.
#[derive(Debug, PartialEq)]
pub enum Expression {
    /// Literal value
    Literal(Value),
    /// Path access (e.g., resource.type)
    Path(Path),
    /// Binary operation (e.g., x == y)
    Binary { left: Box<Expression>, op: BinaryOp, right: Box<Expression> },
    /// Logical operation (and, or, not)
    Logical { op: LogicalOp, operands: Vec<Expression> },
    /// Membership test (x in [a, b, c])
    In { expr: Box<Expression>, list: Vec<Value> },
    /// Aggregate function (count, any, all, etc.)
    Aggregate { path: Path, func: AggregateFunc, condition: Box<Condition> },
    /// Function call
    Call { name: String, args: Vec<Expression> },
}

/// A copy of an expression, node by node.
fn copy_expression(e: &Expression) -> (c: Expression)
    ensures
        expr_tree(c) == expr_tree(*e),
    decreases e,
{
    match e {
        Expression::Literal(v) => Expression::Literal(copy_value(v)),
        Expression::Path(p) => Expression::Path(p.clone()),
        Expression::Binary { left, op, right } => Expression::Binary {
            left: Box::new(copy_expression(left)),
            op: *op,
            right: Box::new(copy_expression(right)),
        },
        Expression::Logical { op, operands } => {
            let mut out: Vec<Expression> = Vec::new();
            let mut i: usize = 0;
            while i < operands.len()
                invariant
                    i <= operands@.len(),
                    *e == (Expression::Logical { op: *op, operands: *operands }),
                    out@.len() == i,
                    exprs_tree(out@) == exprs_tree(operands@.subrange(0, i as int)),
                decreases operands@.len() - i,
            {
                proof {
                    vstd::std_specs::vec::axiom_vec_index_decreases(*operands, i as int);
                    assert(decreases_to!(*e => (*e)->operands));
                }
                let x = copy_expression(&operands[i]);
                let ghost prev = out@;
                out.push(x);
                proof {
                    assert(out@.subrange(0, i as int) =~= prev);
                    assert(operands@.subrange(0, i + 1).subrange(0, i as int) =~= operands@.subrange(0, i as int));
                }
                i = i + 1;
            }
            proof {
                assert(operands@.subrange(0, operands@.len() as int) =~= operands@);
            }
            Expression::Logical { op: *op, operands: out }
        },
        Expression::In { expr, list } => {
            let mut out: Vec<Value> = Vec::new();
            let mut i: usize = 0;
            while i < list.len()
                invariant
                    i <= list@.len(),
                    out@.len() == i,
                    values_tree(out@) == values_tree(list@.subrange(0, i as int)),
                decreases list@.len() - i,
            {
                let x = copy_value(&list[i]);
                let ghost prev = out@;
                out.push(x);
                proof {
                    assert(out@.subrange(0, i as int) =~= prev);
                    assert(list@.subrange(0, i + 1).subrange(0, i as int) =~= list@.subrange(0, i as int));
                }
                i = i + 1;
            }
            proof {
                assert(list@.subrange(0, list@.len() as int) =~= list@);
            }
            Expression::In { expr: Box::new(copy_expression(expr)), list: out }
        },
        Expression::Aggregate { path, func, condition } => Expression::Aggregate {
            path: path.clone(),
            func: *func,
            condition: Box::new(Condition {
                expr: copy_expression(&condition.expr),
                location: condition.location,
            }),
        },
        Expression::Call { name, args } => {
            let mut out: Vec<Expression> = Vec::new();
            let mut i: usize = 0;
            while i < args.len()
                invariant
                    i <= args@.len(),
                    *e == (Expression::Call { name: *name, args: *args }),
                    out@.len() == i,
                    exprs_tree(out@) == exprs_tree(args@.subrange(0, i as int)),
                decreases args@.len() - i,
            {
                proof {
                    vstd::std_specs::vec::axiom_vec_index_decreases(*args, i as int);
                    assert(decreases_to!(*e => (*e)->args));
                }
                let x = copy_expression(&args[i]);
                let ghost prev = out@;
                out.push(x);
                proof {
                    assert(out@.subrange(0, i as int) =~= prev);
                    assert(args@.subrange(0, i + 1).subrange(0, i as int) =~= args@.subrange(0, i as int));
                }
                i = i + 1;
            }
            proof {
                assert(args@.subrange(0, args@.len() as int) =~= args@);
            }
            Expression::Call { name: name.clone(), args: out }
        },
    }
}

impl Clone for Expression {
    fn clone(&self) -> Self {
        copy_expression(self)
    }
}

impl Clone for Condition {
    fn clone(&self) -> Self {
        Condition { expr: copy_expression(&self.expr), location: self.location }
    }
}

impl Expression {
    /// Create a literal expression.
    pub fn literal(value: Value) -> (e: Self)
        ensures
            e == Expression::Literal(value),
    {
        Expression::Literal(value)
    }

    /// Create a path expression.
    pub fn path(segments: Vec<String>) -> (e: Self)
        ensures
            e == Expression::Path(Path { segments }),
    {
        Expression::Path(Path { segments })
    }

    /// Create a binary expression.
    pub fn binary(left: Expression, op: BinaryOp, right: Expression) -> (e: Self)
        ensures
            e == (Expression::Binary { left: Box::new(left), op, right: Box::new(right) }),
    {
        Expression::Binary { left: Box::new(left), op, right: Box::new(right) }
    }

    /// Create a logical AND.
    pub fn and(operands: Vec<Expression>) -> (e: Self)
        ensures
            e == (Expression::Logical { op: LogicalOp::And, operands }),
    {
        Expression::Logical { op: LogicalOp::And, operands }
    }

    /// Create a logical OR.
    pub fn or(operands: Vec<Expression>) -> (e: Self)
        ensures
            e == (Expression::Logical { op: LogicalOp::Or, operands }),
    {
        Expression::Logical { op: LogicalOp::Or, operands }
    }

    /// Create a NOT expression.
    pub fn not(operand: Expression) -> (e: Self)
        ensures
            e matches Expression::Logical { op: LogicalOp::Not, operands }
                && operands@ == seq![operand],
    {
        let mut operands: Vec<Expression> = Vec::new();
        operands.push(operand);
        Expression::Logical { op: LogicalOp::Not, operands }
    }

    /// Create an IN expression.
    pub fn in_list(expr: Expression, list: Vec<Value>) -> (e: Self)
        ensures
            e == (Expression::In { expr: Box::new(expr), list }),
    {
        Expression::In { expr: Box::new(expr), list }
    }
}

/// Policy metadata: key/value fields in the order they were added.
#[derive(Debug, Clone, PartialEq)]
pub struct Metadata {
    pub fields: Vec<(String, Value)>,
}

impl Metadata {
    /// Create empty metadata.
    pub fn new() -> (m: Self)
        ensures
            m.fields@.len() == 0,
    {
        Metadata { fields: Vec::new() }
    }

    /// Add a field at the end.
    pub fn add_field(self, key: String, value: Value) -> (m: Self)
        ensures
            m.fields@ == self.fields@.push((key, value)),
    {
        let mut fields = self.fields;
        fields.push((key, value));
        Metadata { fields }
    }

    /// The value of the first field with the given key.
    pub fn get(&self, key: &str) -> (r: Option<&Value>)
        ensures
            match r {
                Some(v) => exists|i: int|
                    0 <= i < self.fields@.len() && (#[trigger] self.fields@[i]).0@ == key@
                        && *v == self.fields@[i].1
                        && forall|j: int| 0 <= j < i ==> (#[trigger] self.fields@[j]).0@ != key@,
                None => forall|i: int|
                    0 <= i < self.fields@.len() ==> (#[trigger] self.fields@[i]).0@ != key@,
            },
    {
        let mut i: usize = 0;
        while i < self.fields.len()
            invariant
                i <= self.fields@.len(),
                forall|j: int| 0 <= j < i ==> (#[trigger] self.fields@[j]).0@ != key@,
            decreases self.fields@.len() - i,
        {
            if str_eq(self.fields[i].0.as_str(), key) {
                return Some(&self.fields[i].1);
            }
            i = i + 1;
        }
        None
    }
}

impl Default for Metadata {
    fn default() -> (m: Self)
        ensures
            m.fields@.len() == 0,
    {
        Metadata::new()
    }
}

} // verus!
