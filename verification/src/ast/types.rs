//! Type system for policies: types, type environments and a checker that records the type
//! errors of an expression.

use vstd::prelude::*;
use crate::ast::nodes::{Condition, Expression, Value};
use crate::attrs::{key_index, lookup, store, StrMap};
use crate::text::{owned, str_eq};

verus! {

/// Type information.
#[derive(Debug, PartialEq, Eq)]
pub enum Type {
    String,
    Int,
    Float,
    Bool,
    Array(Box<Type>),
    /// Named resource type
    Resource(String),
    /// Unknown/dynamic type
    Any,
}

/// A type with resource names taken by their characters.
pub enum TypeModel {
    String,
    Int,
    Float,
    Bool,
    Array(Box<TypeModel>),
    Resource(Seq<char>),
    Any,
}

/// A type by its model.
pub open spec fn type_model(t: Type) -> TypeModel
    decreases t,
{
    match t {
        Type::String => TypeModel::String,
        Type::Int => TypeModel::Int,
        Type::Float => TypeModel::Float,
        Type::Bool => TypeModel::Bool,
        Type::Array(e) => TypeModel::Array(Box::new(type_model(*e))),
        Type::Resource(n) => TypeModel::Resource(n@),
        Type::Any => TypeModel::Any,
    }
}

/// Type compatibility: `Any` is compatible with everything, integers with floats, arrays
/// with compatible elements, resources of the same name, and each type with itself.
pub open spec fn compatible(a: TypeModel, b: TypeModel) -> bool
    decreases a,
{
    match (a, b) {
        (TypeModel::Any, _) => true,
        (_, TypeModel::Any) => true,
        (TypeModel::String, TypeModel::String) => true,
        (TypeModel::Int, TypeModel::Int) => true,
        (TypeModel::Float, TypeModel::Float) => true,
        (TypeModel::Bool, TypeModel::Bool) => true,
        (TypeModel::Int, TypeModel::Float) => true,
        (TypeModel::Float, TypeModel::Int) => true,
        (TypeModel::Array(x), TypeModel::Array(y)) => compatible(*x, *y),
        (TypeModel::Resource(x), TypeModel::Resource(y)) => x == y,
        _ => false,
    }
}

/// Type compatibility is reflexive and symmetric, arrays nested to any depth included.
pub proof fn law_compatible_reflexive_symmetric(a: TypeModel, b: TypeModel)
    ensures
        compatible(a, a),
        compatible(a, b) == compatible(b, a),
    decreases a,
{
    match (a, b) {
        (TypeModel::Array(x), TypeModel::Array(y)) => {
            law_compatible_reflexive_symmetric(*x, *y);
        },
        (TypeModel::Array(x), _) => {
            law_compatible_reflexive_symmetric(*x, *x);
        },
        _ => {},
    }
}

/// What each scalar type is compatible with: a boolean only with a boolean, a string only
/// with a string, an integer or a float only with an integer or a float, a resource only with
/// a resource of the same name, an array only with an array of compatible items; `Any`
/// with everything, on either side.
pub proof fn law_compatible_partners(t: TypeModel)
    ensures
        compatible(TypeModel::Bool, t) <==> (t is Bool || t is Any),
        compatible(TypeModel::String, t) <==> (t is String || t is Any),
        compatible(TypeModel::Int, t) <==> (t is Int || t is Float || t is Any),
        compatible(TypeModel::Float, t) <==> (t is Int || t is Float || t is Any),
        compatible(TypeModel::Any, t),
        compatible(t, TypeModel::Any),
        forall|n: Seq<char>| #[trigger] compatible(TypeModel::Resource(n), t)
            <==> (t is Any || t == TypeModel::Resource(n)),
        forall|x: TypeModel| #[trigger] compatible(TypeModel::Array(Box::new(x)), t)
            <==> (t is Any || (t matches TypeModel::Array(y) && compatible(x, *y))),
{
    assert forall|n: Seq<char>| #[trigger] compatible(TypeModel::Resource(n), t)
        <==> (t is Any || t == TypeModel::Resource(n)) by {
        if let TypeModel::Resource(m) = t {
            if m == n {
                assert(t == TypeModel::Resource(n));
            }
        }
    }
}

/// The type of a value; an array has the type of its first item, or `Any` when empty.
pub open spec fn value_type(v: Value) -> TypeModel
    decreases v,
{
    match v {
        Value::String(_) => TypeModel::String,
        Value::Int(_) => TypeModel::Int,
        Value::Float(_) => TypeModel::Float,
        Value::Bool(_) => TypeModel::Bool,
        Value::Array(a) => if a@.len() == 0 {
            TypeModel::Array(Box::new(TypeModel::Any))
        } else {
            TypeModel::Array(Box::new(value_type(a@[0])))
        },
    }
}

impl Clone for Type {
    fn clone(&self) -> (c: Self)
        ensures
            type_model(c) == type_model(*self),
        decreases self,
    {
        match self {
            Type::String => Type::String,
            Type::Int => Type::Int,
            Type::Float => Type::Float,
            Type::Bool => Type::Bool,
            Type::Array(e) => Type::Array(Box::new((**e).clone())),
            Type::Resource(n) => Type::Resource(n.clone()),
            Type::Any => Type::Any,
        }
    }
}

impl Type {
    /// Whether this type is compatible with another.
    pub fn is_compatible_with(&self, other: &Type) -> (b: bool)
        ensures
            b == compatible(type_model(*self), type_model(*other)),
        decreases self,
    {
        match (self, other) {
            (Type::Any, _) => true,
            (_, Type::Any) => true,
            (Type::String, Type::String) => true,
            (Type::Int, Type::Int) => true,
            (Type::Float, Type::Float) => true,
            (Type::Bool, Type::Bool) => true,
            (Type::Int, Type::Float) => true,
            (Type::Float, Type::Int) => true,
            (Type::Array(t1), Type::Array(t2)) => t1.is_compatible_with(t2),
            (Type::Resource(r1), Type::Resource(r2)) => str_eq(r1.as_str(), r2.as_str()),
            _ => false,
        }
    }

    /// The type of a value.
    pub fn from_value(value: &Value) -> (t: Self)
        ensures
            type_model(t) == value_type(*value),
        decreases value,
    {
        match value {
            Value::String(_) => Type::String,
            Value::Int(_) => Type::Int,
            Value::Float(_) => Type::Float,
            Value::Bool(_) => Type::Bool,
            Value::Array(arr) => {
                if arr.len() == 0 {
                    let t = Type::Array(Box::new(Type::Any));
                    assert(type_model(Type::Any) == TypeModel::Any);
                    assert(type_model(t) == TypeModel::Array(Box::new(TypeModel::Any)));
                    t
                } else {
                    proof {
                        vstd::std_specs::vec::axiom_vec_index_decreases(*arr, 0);
                    }
                    let e = Type::from_value(&arr[0]);
                    let t = Type::Array(Box::new(e));
                    assert(type_model(t) == TypeModel::Array(Box::new(type_model(e))));
                    t
                }
            },
        }
    }
}

/// Type environment: the types of named variables.
#[derive(Debug)]
pub struct TypeEnv {
    variables: StrMap<Type>,
}

impl TypeEnv {
    /// The bindings, in the order names were first bound.
    pub closed spec fn bindings(&self) -> Seq<(Seq<char>, Type)> {
        self.variables.entries()
    }

    /// An empty environment.
    pub fn new() -> (e: Self)
        ensures
            e.bindings() == Seq::<(Seq<char>, Type)>::empty(),
    {
        TypeEnv { variables: StrMap::new() }
    }

    /// Bind `name` to `typ`, replacing any earlier binding.
    pub fn bind(&mut self, name: String, typ: Type)
        ensures
            final(self).bindings() == store(old(self).bindings(), name@, typ),
    {
        self.variables.insert(name, typ);
    }

    /// The type bound to `name`.
    pub fn lookup(&self, name: &str) -> (t: Option<&Type>)
        ensures
            match t {
                Some(t) => lookup(self.bindings(), name@) == Some(*t),
                None => lookup(self.bindings(), name@) is None,
            },
    {
        self.variables.get(name)
    }

    /// The environment of the built-in variables `resource`, `action` and `request`.
    pub fn standard() -> (e: Self)
        ensures
            lookup(e.bindings(), "resource"@) matches Some(t) && type_model(t) == TypeModel::Resource("Resource"@),
            lookup(e.bindings(), "action"@) matches Some(t) && type_model(t) == TypeModel::Resource("Action"@),
            lookup(e.bindings(), "request"@) matches Some(t) && type_model(t) == TypeModel::Resource("Request"@),
            e.bindings().len() == 3,
            forall|n: Seq<char>| #[trigger] lookup(e.bindings(), n) is Some
                ==> n == "resource"@ || n == "action"@ || n == "request"@,
    {
        let mut env = TypeEnv::new();
        let ghost e0 = env.bindings();
        let r = Type::Resource(owned("Resource"));
        let ghost rv = r;
        env.bind(owned("resource"), r);
        let ghost e1 = env.bindings();
        let a = Type::Resource(owned("Action"));
        let ghost av = a;
        env.bind(owned("action"), a);
        let ghost e2 = env.bindings();
        let q = Type::Resource(owned("Request"));
        let ghost qv = q;
        env.bind(owned("request"), q);
        proof {
            reveal_strlit("resource");
            reveal_strlit("action");
            reveal_strlit("request");
            assert("resource"@ != "action"@ && "resource"@ != "request"@ && "action"@ != "request"@) by {
                assert("resource"@[0] != "action"@[0]);
                assert("resource"@.len() != "request"@.len());
                assert("action"@[0] != "request"@[0]);
            }
            crate::attrs::lemma_store_same(e0, "resource"@, rv);
            crate::attrs::lemma_store_other(e1, "action"@, av, "resource"@);
            crate::attrs::lemma_store_other(e2, "request"@, qv, "resource"@);
            crate::attrs::lemma_store_same(e1, "action"@, av);
            crate::attrs::lemma_store_other(e2, "request"@, qv, "action"@);
            crate::attrs::lemma_store_same(e2, "request"@, qv);
            assert(type_model(rv) == TypeModel::Resource("Resource"@));
            assert(type_model(av) == TypeModel::Resource("Action"@));
            assert(type_model(qv) == TypeModel::Resource("Request"@));
            let b = env.bindings();
            crate::attrs::lemma_key_index(e0, "resource"@);
            assert(e1.len() == 1 && e1[0].0 == "resource"@);
            crate::attrs::lemma_key_index(e1, "action"@);
            assert(key_index(e1, "action"@) < 0);
            assert(e2.len() == 2 && e2[0].0 == "resource"@ && e2[1].0 == "action"@);
            crate::attrs::lemma_key_index(e2, "request"@);
            assert(key_index(e2, "request"@) < 0);
            assert(b.len() == 3 && b[0].0 == "resource"@ && b[1].0 == "action"@ && b[2].0 == "request"@);
            assert forall|n: Seq<char>| #[trigger] lookup(b, n) is Some
                implies n == "resource"@ || n == "action"@ || n == "request"@ by {
                crate::attrs::lemma_key_index(b, n);
            }
        }
        env
    }
}

impl Default for TypeEnv {
    fn default() -> (e: Self)
        ensures
            e.bindings() == Seq::<(Seq<char>, Type)>::empty(),
    {
        TypeEnv::new()
    }
}

/// Type checking errors.
#[derive(Debug, PartialEq)]
pub enum TypeError {
    IncompatibleTypes { left: Type, right: Type },
    ExpectedBool { got: Type },
    UndefinedVariable { name: String },
    InvalidFieldAccess { base: Type, field: String },
}

/// A type error by its types' models.
pub enum TypeErrorModel {
    Incompatible(TypeModel, TypeModel),
    ExpectedBool(TypeModel),
    Undefined(Seq<char>),
    InvalidField(TypeModel, Seq<char>),
}

/// A type error by its model.
pub open spec fn error_model(e: TypeError) -> TypeErrorModel {
    match e {
        TypeError::IncompatibleTypes { left, right } => TypeErrorModel::Incompatible(type_model(left), type_model(right)),
        TypeError::ExpectedBool { got } => TypeErrorModel::ExpectedBool(type_model(got)),
        TypeError::UndefinedVariable { name } => TypeErrorModel::Undefined(name@),
        TypeError::InvalidFieldAccess { base, field } => TypeErrorModel::InvalidField(type_model(base), field@),
    }
}

/// The type of an expression in `env` and the errors found in it, in order: comparisons
/// give `Bool` and an error for incompatible sides; logical operations give `Bool` and an
/// error for each operand that is neither `Bool` nor `Any`; a path has the type of its root
/// variable, or `Any`; membership gives `Bool`; aggregates `Int`; calls `Any`.
pub open spec fn check_spec(env: Seq<(Seq<char>, Type)>, e: Expression) -> (TypeModel, Seq<TypeErrorModel>)
    decreases e, 0int,
{
    match e {
        Expression::Literal(v) => (value_type(v), Seq::empty()),
        Expression::Path(p) => {
            let t = if p.segments@.len() > 0 {
                match lookup(env, p.segments@[0]@) {
                    Some(t) => type_model(t),
                    None => TypeModel::Any,
                }
            } else {
                TypeModel::Any
            };
            (t, Seq::empty())
        },
        Expression::Binary { left, op, right } => {
            let l = check_spec(env, *left);
            let r = check_spec(env, *right);
            let extra = if compatible(l.0, r.0) { Seq::empty() } else { seq![TypeErrorModel::Incompatible(l.0, r.0)] };
            (TypeModel::Bool, l.1 + r.1 + extra)
        },
        Expression::Logical { op, operands } => (TypeModel::Bool, check_operands(env, operands@, true)),
        Expression::In { expr, list } => (TypeModel::Bool, check_spec(env, *expr).1),
        Expression::Aggregate { .. } => (TypeModel::Int, Seq::empty()),
        Expression::Call { name, args } => (TypeModel::Any, check_operands(env, args@, false)),
    }
}

/// The errors found in the expressions one after the other; with `bools`, also an error
/// for each whose type is neither `Bool` nor `Any`.
pub open spec fn check_operands(env: Seq<(Seq<char>, Type)>, ops: Seq<Expression>, bools: bool) -> Seq<TypeErrorModel>
    decreases ops, 0int,
{
    if ops.len() == 0 {
        Seq::empty()
    } else {
        let pre = check_operands(env, ops.subrange(0, ops.len() - 1), bools);
        let r = check_spec(env, ops[ops.len() - 1]);
        let extra = if bools && !(r.0 is Bool || r.0 is Any) { seq![TypeErrorModel::ExpectedBool(r.0)] } else { Seq::empty() };
        pre + r.1 + extra
    }
}

/// Type checker for expressions.
pub struct TypeChecker {
    env: TypeEnv,
    errors: Vec<TypeError>,
}

impl TypeChecker {
    /// The environment.
    pub closed spec fn environment(&self) -> Seq<(Seq<char>, Type)> {
        self.env.bindings()
    }

    /// The errors found so far.
    pub closed spec fn found(&self) -> Seq<TypeErrorModel> {
        self.errors@.map_values(|e: TypeError| error_model(e))
    }

    /// A checker with the given environment and no error.
    pub fn new(env: TypeEnv) -> (c: Self)
        ensures
            c.environment() == env.bindings(),
            c.found() == Seq::<TypeErrorModel>::empty(),
    {
        let c = TypeChecker { env, errors: Vec::new() };
        assert(c.found() =~= Seq::<TypeErrorModel>::empty());
        c
    }

    fn push_error(&mut self, e: TypeError)
        ensures
            final(self).environment() == old(self).environment(),
            final(self).found() == old(self).found().push(error_model(e)),
    {
        let ghost e2 = error_model(e);
        self.errors.push(e);
        assert(self.found() =~= old(self).found().push(e2));
    }

    /// The type of an expression; the errors found in it are added after those found before.
    pub fn check_expression(&mut self, expr: &Expression) -> (t: Type)
        ensures
            final(self).environment() == old(self).environment(),
            type_model(t) == check_spec(old(self).environment(), *expr).0,
            final(self).found() == old(self).found() + check_spec(old(self).environment(), *expr).1,
        decreases expr, 0int,
    {
        let ghost f0 = self.found();
        match expr {
            Expression::Literal(value) => {
                assert(f0 + Seq::<TypeErrorModel>::empty() =~= f0);
                Type::from_value(value)
            },
            Expression::Path(path) => {
                assert(f0 + Seq::<TypeErrorModel>::empty() =~= f0);
                match path.root() {
                    Some(root) => match self.env.lookup(root) {
                        Some(t) => t.clone(),
                        None => Type::Any,
                    },
                    None => Type::Any,
                }
            },
            Expression::Binary { left, op: _, right } => {
                let left_type = self.check_expression(left);
                let right_type = self.check_expression(right);
                if !left_type.is_compatible_with(&right_type) {
                    self.push_error(TypeError::IncompatibleTypes { left: left_type.clone(), right: right_type.clone() });
                }
                let ghost l = check_spec(old(self).environment(), **left);
                let ghost r = check_spec(old(self).environment(), **right);
                assert(self.found() =~= f0 + (l.1 + r.1 + (if compatible(l.0, r.0) { Seq::empty() } else { seq![TypeErrorModel::Incompatible(l.0, r.0)] })));
                Type::Bool
            },
            Expression::Logical { op: _, operands } => {
                self.check_all(operands, true);
                Type::Bool
            },
            Expression::In { expr, list: _ } => {
                let _t = self.check_expression(expr);
                Type::Bool
            },
            Expression::Aggregate { .. } => {
                assert(f0 + Seq::<TypeErrorModel>::empty() =~= f0);
                Type::Int
            },
            Expression::Call { name, args } => self.check_function_call(name.as_str(), args),
        }
    }

    fn check_all(&mut self, ops: &Vec<Expression>, bools: bool)
        ensures
            final(self).environment() == old(self).environment(),
            final(self).found() == old(self).found() + check_operands(old(self).environment(), ops@, bools),
        decreases ops@, 0int,
    {
        let ghost env = self.environment();
        let ghost f0 = self.found();
        let mut i: usize = 0;
        assert(ops@.take(0) =~= Seq::<Expression>::empty());
        assert(f0 + Seq::<TypeErrorModel>::empty() =~= f0);
        while i < ops.len()
            invariant
                i <= ops@.len(),
                env == old(self).environment(),
                f0 == old(self).found(),
                self.environment() == env,
                self.found() == f0 + check_operands(env, ops@.take(i as int), bools),
            decreases ops@.len() - i,
        {
            proof {
                vstd::std_specs::vec::axiom_vec_index_decreases(*ops, i as int);
                assert(ops@.take(i + 1).subrange(0, i as int) =~= ops@.take(i as int));
            }
            let ghost before = self.found();
            let t = self.check_expression(&ops[i]);
            let is_ok = match t {
                Type::Bool => true,
                Type::Any => true,
                _ => false,
            };
            if bools && !is_ok {
                self.push_error(TypeError::ExpectedBool { got: t });
            }
            proof {
                let r = check_spec(env, ops@[i as int]);
                let extra = if bools && !(r.0 is Bool || r.0 is Any) { seq![TypeErrorModel::ExpectedBool(r.0)] } else { Seq::<TypeErrorModel>::empty() };
                assert(check_operands(env, ops@.take(i + 1), bools) == check_operands(env, ops@.take(i as int), bools) + r.1 + extra);
                assert(self.found() =~= f0 + check_operands(env, ops@.take(i + 1), bools));
            }
            i = i + 1;
        }
        assert(ops@.take(ops@.len() as int) =~= ops@);
    }

    /// The type of a condition's expression.
    pub fn check_condition(&mut self, cond: &Condition) -> (t: Type)
        ensures
            final(self).environment() == old(self).environment(),
            type_model(t) == check_spec(old(self).environment(), cond.expr).0,
            final(self).found() == old(self).found() + check_spec(old(self).environment(), cond.expr).1,
    {
        self.check_expression(&cond.expr)
    }

    fn check_function_call(&mut self, name: &str, args: &Vec<Expression>) -> (t: Type)
        ensures
            final(self).environment() == old(self).environment(),
            t == Type::Any,
            final(self).found() == old(self).found() + check_operands(old(self).environment(), args@, false),
        decreases args@, 1int,
    {
        self.check_all(args, false);
        Type::Any
    }

    /// The errors found so far.
    pub fn errors(&self) -> (e: &[TypeError])
        ensures
            e@.map_values(|x: TypeError| error_model(x)) == self.found(),
    {
        self.errors.as_slice()
    }

    /// Whether any error was found.
    pub fn has_errors(&self) -> (b: bool)
        ensures
            b == (self.found().len() > 0),
    {
        self.errors.len() != 0
    }
}

} // verus!
