//! Recursive-descent parser for policies; each parsing function follows its spec function
//! in `grammar`.

use vstd::prelude::*;
use crate::ast::nodes::{
    BinaryOp, ComparisonOp, Condition, Expression, FloatLiteral, LogicalOp, Metadata, Path, Policy,
    Requirements, SourceLocation, Value,
};
use crate::parser::grammar::{
    and_rest, at, check, comparison_at, expect_ident, expect_str, expect_tok, lemma_skip_nl,
    meta_rest, or_rest, p_and, p_args, p_cmp, p_expr, p_in, p_metadata, p_or, p_path_or_call,
    p_policy, p_primary, p_requirements, p_segments, p_triggers, p_value, p_values, req_rest,
    skip_nl, starts_field, trig_rest, unexpected, where_rest, ExprTree, PErr, PolicyTree, ReqTree,
    ValueTree,
};
use crate::parser::lexer::{lemma_tokens_end, tokens_from, Lexer, TokenModel};
use crate::parser::token::{kind_text, KindModel, Token, TokenKind};
use crate::text::{append_str, owned, str_eq, strings_chars};

verus! {

/// Parse errors.
#[derive(Debug, PartialEq)]
pub enum ParseError {
    UnexpectedToken { expected: String, got: String },
    UnexpectedEof,
    InvalidExpression(String),
    InvalidPolicy(String),
}

impl View for ParseError {
    type V = PErr;

    open spec fn view(&self) -> PErr {
        match self {
            ParseError::UnexpectedToken { expected, got } => PErr::Unexpected(expected@, got@),
            ParseError::UnexpectedEof => PErr::Eof,
            ParseError::InvalidExpression(s) => PErr::Invalid(s@),
            ParseError::InvalidPolicy(s) => PErr::Policy(s@),
        }
    }
}

/// The message of a parse error.
pub open spec fn parse_error_message(e: PErr) -> Seq<char> {
    match e {
        PErr::Unexpected(a, b) => "Unexpected token: expected "@ + a + ", got "@ + b,
        PErr::Eof => "Unexpected end of file"@,
        PErr::Invalid(s) => "Invalid expression: "@ + s,
        PErr::Policy(s) => "Invalid policy structure: "@ + s,
    }
}

impl ParseError {
    /// The error message.
    pub fn to_string(&self) -> (s: String)
        ensures
            s@ == parse_error_message(self@),
    {
        let mut out = String::new();
        match self {
            ParseError::UnexpectedToken { expected, got } => {
                append_str(&mut out, "Unexpected token: expected ");
                append_str(&mut out, expected.as_str());
                append_str(&mut out, ", got ");
                append_str(&mut out, got.as_str());
            },
            ParseError::UnexpectedEof => append_str(&mut out, "Unexpected end of file"),
            ParseError::InvalidExpression(s) => {
                append_str(&mut out, "Invalid expression: ");
                append_str(&mut out, s.as_str());
            },
            ParseError::InvalidPolicy(s) => {
                append_str(&mut out, "Invalid policy structure: ");
                append_str(&mut out, s.as_str());
            },
        }
        out
    }
}

/// The result of a parsing step.
pub type ParseResult<T> = Result<T, ParseError>;

/// An AST value by its tree.
pub open spec fn value_tree(v: Value) -> ValueTree
    decreases v, 0int,
{
    match v {
        Value::String(s) => ValueTree::Str(s@),
        Value::Int(n) => ValueTree::Int(n),
        Value::Float(f) => ValueTree::Float(f.text@),
        Value::Bool(b) => ValueTree::Bool(b),
        Value::Array(a) => ValueTree::Array(values_tree(a@)),
    }
}

/// AST values by their trees.
pub open spec fn values_tree(s: Seq<Value>) -> Seq<ValueTree>
    decreases s, 1int,
{
    if s.len() == 0 {
        Seq::empty()
    } else {
        values_tree(s.subrange(0, s.len() - 1)).push(value_tree(s[s.len() - 1]))
    }
}

/// Every condition is at the default source location, as the parser places them.
pub open spec fn at_default(cs: Seq<Condition>) -> bool {
    forall|i: int| 0 <= i < cs.len()
        ==> (#[trigger] cs[i]).location == (SourceLocation { line: 0, column: 0, length: 0 })
}

/// Every condition of the requirements, the `where` clause's included, is at the default
/// source location.
pub open spec fn req_at_default(r: Requirements) -> bool {
    match r {
        Requirements::Requires { conditions, where_clause } => at_default(conditions@)
            && (where_clause matches Some(w) ==> at_default(w@)),
        Requirements::Denies { .. } => true,
    }
}

/// An AST expression by its tree.
pub open spec fn expr_tree(e: Expression) -> ExprTree
    decreases e, 0int,
{
    match e {
        Expression::Literal(v) => ExprTree::Lit(value_tree(v)),
        Expression::Path(p) => ExprTree::PathT(strings_chars(p.segments@)),
        Expression::Binary { left, op, right } => {
            let BinaryOp::Comparison(c) = op;
            ExprTree::Bin(Box::new(expr_tree(*left)), c, Box::new(expr_tree(*right)))
        },
        Expression::Logical { op, operands } => ExprTree::Logic(op, exprs_tree(operands@)),
        Expression::In { expr, list } => ExprTree::InT(Box::new(expr_tree(*expr)), values_tree(list@)),
        Expression::Aggregate { path, func, condition } => ExprTree::Agg(strings_chars(path.segments@), func, Box::new(expr_tree(condition.expr)), condition.location),
        Expression::Call { name, args } => ExprTree::CallT(name@, exprs_tree(args@)),
    }
}

/// AST expressions by their trees.
pub open spec fn exprs_tree(s: Seq<Expression>) -> Seq<ExprTree>
    decreases s, 1int,
{
    if s.len() == 0 {
        Seq::empty()
    } else {
        exprs_tree(s.subrange(0, s.len() - 1)).push(expr_tree(s[s.len() - 1]))
    }
}

/// The expressions of conditions by their trees.
pub open spec fn conds_tree(s: Seq<Condition>) -> Seq<ExprTree> {
    s.map_values(|c: Condition| expr_tree(c.expr))
}

/// Requirements by their tree.
pub open spec fn req_tree(r: Requirements) -> ReqTree {
    match r {
        Requirements::Requires { conditions, where_clause } => ReqTree::Requires(
            conds_tree(conditions@),
            match where_clause { Some(w) => Some(conds_tree(w@)), None => None },
        ),
        Requirements::Denies { reason } => ReqTree::Denies(match reason { Some(r) => Some(r@), None => None }),
    }
}

/// A policy by its tree.
pub open spec fn policy_tree(p: Policy) -> PolicyTree {
    PolicyTree {
        name: p.name@,
        intent: p.intent@,
        triggers: conds_tree(p.triggers@),
        requirements: req_tree(p.requirements),
        metadata: match p.metadata {
            Some(m) => Some(fields_tree(m.fields@)),
            None => None,
        },
    }
}

/// Metadata fields by their trees.
pub open spec fn fields_tree(s: Seq<(String, Value)>) -> Seq<(Seq<char>, ValueTree)> {
    s.map_values(|f: (String, Value)| (f.0@, value_tree(f.1)))
}

/// Puts `acc` in front of the conditions of a parsed `requires` clause.
pub open spec fn prepend_req(
    acc: Seq<ExprTree>,
    r: Result<(Seq<ExprTree>, Option<Seq<ExprTree>>, int), PErr>,
) -> Result<(Seq<ExprTree>, Option<Seq<ExprTree>>, int), PErr> {
    match r {
        Ok((items, w, q)) => Ok((acc + items, w, q)),
        Err(e) => Err(e),
    }
}

/// Whether two token kinds are the same.
fn same_kind(a: &TokenKind, b: &TokenKind) -> (r: bool)
    ensures
        r == (a@ == b@),
{
    match (a, b) {
        (TokenKind::StringLit(x), TokenKind::StringLit(y)) => str_eq(x.as_str(), y.as_str()),
        (TokenKind::IntLit(x), TokenKind::IntLit(y)) => *x == *y,
        (TokenKind::FloatLit(x), TokenKind::FloatLit(y)) => str_eq(x.text.as_str(), y.text.as_str()),
        (TokenKind::BoolLit(x), TokenKind::BoolLit(y)) => *x == *y,
        (TokenKind::Ident(x), TokenKind::Ident(y)) => str_eq(x.as_str(), y.as_str()),
        (TokenKind::Error(x), TokenKind::Error(y)) => str_eq(x.as_str(), y.as_str()),
        (TokenKind::Policy, TokenKind::Policy) => true,
        (TokenKind::Triggers, TokenKind::Triggers) => true,
        (TokenKind::When, TokenKind::When) => true,
        (TokenKind::Requires, TokenKind::Requires) => true,
        (TokenKind::Denies, TokenKind::Denies) => true,
        (TokenKind::With, TokenKind::With) => true,
        (TokenKind::Reason, TokenKind::Reason) => true,
        (TokenKind::Where, TokenKind::Where) => true,
        (TokenKind::Metadata, TokenKind::Metadata) => true,
        (TokenKind::And, TokenKind::And) => true,
        (TokenKind::Or, TokenKind::Or) => true,
        (TokenKind::Not, TokenKind::Not) => true,
        (TokenKind::In, TokenKind::In) => true,
        (TokenKind::Eq, TokenKind::Eq) => true,
        (TokenKind::Neq, TokenKind::Neq) => true,
        (TokenKind::Lt, TokenKind::Lt) => true,
        (TokenKind::Gt, TokenKind::Gt) => true,
        (TokenKind::LtEq, TokenKind::LtEq) => true,
        (TokenKind::GtEq, TokenKind::GtEq) => true,
        (TokenKind::Colon, TokenKind::Colon) => true,
        (TokenKind::Comma, TokenKind::Comma) => true,
        (TokenKind::Dot, TokenKind::Dot) => true,
        (TokenKind::LParen, TokenKind::LParen) => true,
        (TokenKind::RParen, TokenKind::RParen) => true,
        (TokenKind::LBracket, TokenKind::LBracket) => true,
        (TokenKind::RBracket, TokenKind::RBracket) => true,
        (TokenKind::LBrace, TokenKind::LBrace) => true,
        (TokenKind::RBrace, TokenKind::RBrace) => true,
        (TokenKind::Newline, TokenKind::Newline) => true,
        (TokenKind::Eof, TokenKind::Eof) => true,
        _ => false,
    }
}

/// Puts `acc` in front of the items of a parse result.
pub open spec fn prepend<T>(acc: Seq<T>, r: Result<(Seq<T>, int), PErr>) -> Result<(Seq<T>, int), PErr> {
    match r {
        Ok((items, q)) => Ok((acc + items, q)),
        Err(e) => Err(e),
    }
}

proof fn lemma_prepend_step<T>(acc: Seq<T>, x: T, r: Result<(Seq<T>, int), PErr>)
    ensures
        prepend(acc, prepend(seq![x], r)) == prepend(acc.push(x), r),
        prepend(acc, Ok::<(Seq<T>, int), PErr>((seq![x], 0))) is Ok,
{
    match r {
        Ok((items, q)) => {
            assert(acc + (seq![x] + items) =~= acc.push(x) + items);
        },
        Err(_) => {},
    }
}

proof fn lemma_prepend_empty<T>(r: Result<(Seq<T>, int), PErr>)
    ensures
        prepend(Seq::empty(), r) == r,
{
    match r {
        Ok((items, q)) => {
            assert(Seq::<T>::empty() + items =~= items);
        },
        Err(_) => {},
    }
}

proof fn lemma_prepend_req(acc: Seq<ExprTree>, x: ExprTree, r: Result<(Seq<ExprTree>, Option<Seq<ExprTree>>, int), PErr>)
    ensures
        prepend_req(Seq::empty(), r) == r,
        prepend_req(acc, match r {
            Ok((items, w, q)) => Ok::<(Seq<ExprTree>, Option<Seq<ExprTree>>, int), PErr>((seq![x] + items, w, q)),
            Err(e) => Err(e),
        }) == prepend_req(acc.push(x), r),
{
    match r {
        Ok((items, w, q)) => {
            assert(Seq::<ExprTree>::empty() + items =~= items);
            assert(acc + (seq![x] + items) =~= acc.push(x) + items);
        },
        Err(_) => {},
    }
}

proof fn lemma_conds_tree_push(s: Seq<Condition>, c: Condition)
    ensures
        conds_tree(s.push(c)) == conds_tree(s).push(expr_tree(c.expr)),
{
    assert(conds_tree(s.push(c)) =~= conds_tree(s).push(expr_tree(c.expr)));
}

proof fn lemma_values_tree_push(s: Seq<Value>, v: Value)
    ensures
        values_tree(s.push(v)) == values_tree(s).push(value_tree(v)),
{
    assert(s.push(v).subrange(0, s.len() as int) =~= s);
}

proof fn lemma_exprs_tree_push(s: Seq<Expression>, e: Expression)
    ensures
        exprs_tree(s.push(e)) == exprs_tree(s).push(expr_tree(e)),
{
    assert(s.push(e).subrange(0, s.len() as int) =~= s);
}

proof fn lemma_exprs_tree_two(a: Expression, b: Expression)
    ensures
        exprs_tree(seq![a]) == seq![expr_tree(a)],
        exprs_tree(seq![a, b]) == seq![expr_tree(a), expr_tree(b)],
{
    lemma_exprs_tree_push(Seq::empty(), a);
    assert(Seq::<Expression>::empty().push(a) =~= seq![a]);
    lemma_exprs_tree_push(seq![a], b);
    assert(seq![a].push(b) =~= seq![a, b]);
    assert(Seq::<ExprTree>::empty().push(expr_tree(a)) =~= seq![expr_tree(a)]);
    assert(seq![expr_tree(a)].push(expr_tree(b)) =~= seq![expr_tree(a), expr_tree(b)]);
}

/// Two expressions as a vector.
fn pair(a: Expression, b: Expression) -> (v: Vec<Expression>)
    ensures
        v@ == seq![a, b],
{
    let mut v: Vec<Expression> = Vec::new();
    v.push(a);
    v.push(b);
    proof {
        assert(v@ =~= seq![a, b]);
    }
    v
}

/// Parser over the tokens of a source text.
pub struct Parser {
    tokens: Vec<Token>,
    position: usize,
}

impl Parser {
    /// The kinds of the tokens.
    pub closed spec fn toks(&self) -> Seq<KindModel> {
        self.tokens@.map_values(|t: Token| t.kind@)
    }

    /// The position of the current token.
    pub closed spec fn pos(&self) -> int {
        self.position as int
    }

    /// There is a token, the last is `Eof`, and the position is a token's.
    pub closed spec fn wf(&self) -> bool {
        &&& self.tokens@.len() > 0
        &&& self.toks().last() is Eof
        &&& self.position < self.tokens@.len()
    }

    /// A parser at the first token of `source`.
    pub fn new(source: &str) -> (p: Self)
        requires
            source@.len() < usize::MAX,
        ensures
            p.wf(),
            p.pos() == 0,
            p.toks() == tokens_from(source@, 0).map_values(|t: TokenModel| t.kind),
    {
        let mut lexer = Lexer::new(source);
        let tokens = lexer.tokenize();
        proof {
            lemma_tokens_end(source@, 0);
            let ms = tokens@.map_values(|t: Token| crate::parser::lexer::token_model(t));
            assert(tokens@.map_values(|t: Token| t.kind@) =~= ms.map_values(|t: TokenModel| t.kind));
        }
        Parser { tokens, position: 0 }
    }

    fn current(&self) -> (t: &Token)
        requires
            self.wf(),
        ensures
            t.kind@ == at(self.toks(), self.pos()),
    {
        &self.tokens[self.position]
    }

    fn is_at_end(&self) -> (b: bool)
        requires
            self.wf(),
        ensures
            b == (at(self.toks(), self.pos()) is Eof),
    {
        match self.tokens[self.position].kind {
            TokenKind::Eof => true,
            _ => false,
        }
    }

    fn advance(&mut self)
        requires
            old(self).wf(),
        ensures
            final(self).wf(),
            final(self).toks() == old(self).toks(),
            final(self).pos() == if at(old(self).toks(), old(self).pos()) is Eof { old(self).pos() } else { old(self).pos() + 1 },
    {
        if !self.is_at_end() {
            let n = self.tokens.len();
            proof {
                assert(self.toks()[self.pos()] == self.tokens@[self.pos()].kind@);
                assert(self.toks().len() == self.tokens@.len());
                assert(self.pos() != self.tokens@.len() - 1);
            }
            self.position = self.position + 1;
        }
    }

    fn check_token(&self, kind: TokenKind) -> (b: bool)
        requires
            self.wf(),
        ensures
            b == check(self.toks(), self.pos(), kind@),
    {
        !self.is_at_end() && same_kind(&self.tokens[self.position].kind, &kind)
    }

    fn skip_newlines(&mut self)
        requires
            old(self).wf(),
        ensures
            final(self).wf(),
            final(self).toks() == old(self).toks(),
            final(self).pos() == skip_nl(old(self).toks(), old(self).pos()),
    {
        let ghost p0 = self.pos();
        while self.check_token(TokenKind::Newline)
            invariant
                self.wf(),
                self.toks() == old(self).toks(),
                p0 == old(self).pos(),
                skip_nl(self.toks(), p0) == skip_nl(self.toks(), self.pos()),
            decreases self.toks().len() - self.pos(),
        {
            self.advance();
        }
    }

    fn expect_token(&mut self, expected: TokenKind) -> (r: Result<(), ParseError>)
        requires
            old(self).wf(),
        ensures
            final(self).wf(),
            final(self).toks() == old(self).toks(),
            match r {
                Ok(()) => expect_tok(old(self).toks(), old(self).pos(), expected@) == Ok::<int, PErr>(final(self).pos()),
                Err(e) => expect_tok(old(self).toks(), old(self).pos(), expected@) == Err::<int, PErr>(e@),
            },
    {
        if self.check_token(expected.clone()) {
            self.advance();
            Ok(())
        } else {
            let got = self.current().kind.to_string();
            Err(ParseError::UnexpectedToken { expected: expected.to_string(), got })
        }
    }

    fn expect_identifier(&mut self) -> (r: Result<String, ParseError>)
        requires
            old(self).wf(),
        ensures
            final(self).wf(),
            final(self).toks() == old(self).toks(),
            match r {
                Ok(s) => expect_ident(old(self).toks(), old(self).pos()) == Ok::<(Seq<char>, int), PErr>((s@, final(self).pos())),
                Err(e) => expect_ident(old(self).toks(), old(self).pos()) == Err::<(Seq<char>, int), PErr>(e@),
            },
    {
        match &self.tokens[self.position].kind {
            TokenKind::Ident(s) => {
                let result = s.clone();
                self.advance();
                Ok(result)
            },
            _ => {
                let got = self.current().kind.to_string();
                Err(ParseError::UnexpectedToken { expected: owned("identifier"), got })
            },
        }
    }

    fn expect_string(&mut self) -> (r: Result<String, ParseError>)
        requires
            old(self).wf(),
        ensures
            final(self).wf(),
            final(self).toks() == old(self).toks(),
            match r {
                Ok(s) => expect_str(old(self).toks(), old(self).pos()) == Ok::<(Seq<char>, int), PErr>((s@, final(self).pos())),
                Err(e) => expect_str(old(self).toks(), old(self).pos()) == Err::<(Seq<char>, int), PErr>(e@),
            },
    {
        match &self.tokens[self.position].kind {
            TokenKind::StringLit(s) => {
                let result = s.clone();
                self.advance();
                Ok(result)
            },
            _ => {
                let got = self.current().kind.to_string();
                Err(ParseError::UnexpectedToken { expected: owned("string literal"), got })
            },
        }
    }

    fn parse_comparison_op(&self) -> (r: Option<ComparisonOp>)
        requires
            self.wf(),
        ensures
            r == comparison_at(self.toks(), self.pos()),
    {
        match self.tokens[self.position].kind {
            TokenKind::Eq => Some(ComparisonOp::Eq),
            TokenKind::Neq => Some(ComparisonOp::Neq),
            TokenKind::Lt => Some(ComparisonOp::Lt),
            TokenKind::Gt => Some(ComparisonOp::Gt),
            TokenKind::LtEq => Some(ComparisonOp::LtEq),
            TokenKind::GtEq => Some(ComparisonOp::GtEq),
            _ => None,
        }
    }

    fn parse_value(&mut self) -> (r: Result<Value, ParseError>)
        requires
            old(self).wf(),
        ensures
            final(self).wf(),
            final(self).toks() == old(self).toks(),
            match r {
                Ok(v) => p_value(old(self).toks(), old(self).pos()) == Ok::<(ValueTree, int), PErr>((value_tree(v), final(self).pos()))
                    && old(self).pos() < final(self).pos(),
                Err(e) => p_value(old(self).toks(), old(self).pos()) == Err::<(ValueTree, int), PErr>(e@),
            },
        decreases old(self).toks().len() - old(self).pos(), 0int,
    {
        proof {
            assert(self.toks()[self.pos()] == self.tokens@[self.pos()].kind@);
        }
        match &self.tokens[self.position].kind {
            TokenKind::StringLit(s) => {
                let v = Value::String(s.clone());
                self.advance();
                Ok(v)
            },
            TokenKind::IntLit(n) => {
                let v = Value::Int(*n);
                self.advance();
                Ok(v)
            },
            TokenKind::FloatLit(f) => {
                let v = Value::Float(FloatLiteral { text: f.text.clone() });
                self.advance();
                Ok(v)
            },
            TokenKind::BoolLit(b) => {
                let v = Value::Bool(*b);
                self.advance();
                Ok(v)
            },
            TokenKind::Ident(s) => {
                let v = Value::String(s.clone());
                self.advance();
                Ok(v)
            },
            TokenKind::LBracket => {
                self.advance();
                let mut values: Vec<Value> = Vec::new();
                if !self.check_token(TokenKind::RBracket) {
                    values = match self.parse_values() {
                        Ok(vs) => vs,
                        Err(e) => return Err(e),
                    };
                }
                match self.expect_token(TokenKind::RBracket) {
                    Ok(()) => {},
                    Err(e) => return Err(e),
                }
                proof {
                    assert(values_tree(Seq::<Value>::empty()) =~= Seq::<ValueTree>::empty());
                }
                Ok(Value::Array(values))
            },
            other => {
                let mut msg = owned("Expected value, got ");
                let got = other.to_string();
                append_str(&mut msg, got.as_str());
                Err(ParseError::InvalidExpression(msg))
            },
        }
    }

    fn parse_values(&mut self) -> (r: Result<Vec<Value>, ParseError>)
        requires
            old(self).wf(),
        ensures
            final(self).wf(),
            final(self).toks() == old(self).toks(),
            match r {
                Ok(vs) => p_values(old(self).toks(), old(self).pos()) == Ok::<(Seq<ValueTree>, int), PErr>((values_tree(vs@), final(self).pos()))
                    && old(self).pos() < final(self).pos(),
                Err(e) => p_values(old(self).toks(), old(self).pos()) == Err::<(Seq<ValueTree>, int), PErr>(e@),
            },
        decreases old(self).toks().len() - old(self).pos(), 1int,
    {
        let ghost toks = self.toks();
        let ghost p0 = self.pos();
        let mut values: Vec<Value> = Vec::new();
        proof {
            assert(values_tree(values@) =~= Seq::<ValueTree>::empty());
            assert(prepend(Seq::<ValueTree>::empty(), p_values(toks, p0)) == p_values(toks, p0)) by {
                match p_values(toks, p0) {
                    Ok((items, q)) => { assert(Seq::<ValueTree>::empty() + items =~= items); },
                    Err(_) => {},
                }
            }
        }
        loop
            invariant
                self.wf(),
                self.toks() == toks,
                toks == old(self).toks(),
                p0 == old(self).pos(),
                p0 <= self.pos(),
                values@.len() == 0 ==> self.pos() == p0,
                values@.len() > 0 ==> p0 < self.pos(),
                p_values(toks, p0) == prepend(values_tree(values@), p_values(toks, self.pos())),
            decreases toks.len() - self.pos(),
        {
            let ghost p = self.pos();
            let ghost acc = values_tree(values@);
            let v = match self.parse_value() {
                Ok(v) => v,
                Err(e) => return Err(e),
            };
            proof {
                lemma_values_tree_push(values@, v);
                lemma_prepend_step(acc, value_tree(v), p_values(toks, self.pos() + 1));
            }
            values.push(v);
            if self.check_token(TokenKind::Comma) {
                self.advance();
            } else {
                proof {
                    assert(acc + seq![value_tree(v)] =~= acc.push(value_tree(v)));
                }
                return Ok(values);
            }
        }
    }

    /// Parse an expression.
    pub fn parse_expression(&mut self) -> (r: Result<Expression, ParseError>)
        requires
            old(self).wf(),
        ensures
            final(self).wf(),
            final(self).toks() == old(self).toks(),
            match r {
                Ok(e) => p_expr(old(self).toks(), old(self).pos()) == Ok::<(ExprTree, int), PErr>((expr_tree(e), final(self).pos()))
                    && old(self).pos() < final(self).pos(),
                Err(e) => p_expr(old(self).toks(), old(self).pos()) == Err::<(ExprTree, int), PErr>(e@),
            },
        decreases old(self).toks().len() - old(self).pos(), 10int,
    {
        self.parse_logical_or()
    }

    fn parse_logical_or(&mut self) -> (r: Result<Expression, ParseError>)
        requires
            old(self).wf(),
        ensures
            final(self).wf(),
            final(self).toks() == old(self).toks(),
            match r {
                Ok(e) => p_or(old(self).toks(), old(self).pos()) == Ok::<(ExprTree, int), PErr>((expr_tree(e), final(self).pos()))
                    && old(self).pos() < final(self).pos(),
                Err(e) => p_or(old(self).toks(), old(self).pos()) == Err::<(ExprTree, int), PErr>(e@),
            },
        decreases old(self).toks().len() - old(self).pos(), 9int,
    {
        let ghost toks = self.toks();
        let ghost p0 = self.pos();
        let mut left = match self.parse_logical_and() {
            Ok(e) => e,
            Err(e) => return Err(e),
        };
        loop
            invariant
                self.wf(),
                self.toks() == toks,
                toks == old(self).toks(),
                p0 == old(self).pos(),
                p0 < self.pos(),
                p_or(toks, p0) == or_rest(toks, expr_tree(left), self.pos()),
            decreases toks.len() - self.pos(),
        {
            let ghost q = self.pos();
            let ghost lt = expr_tree(left);
            proof {
                lemma_skip_nl(toks, q);
            }
            self.skip_newlines();
            let ghost q1 = self.pos();
            if !self.check_token(TokenKind::Or) {
                proof {
                    assert(or_rest(toks, lt, q) == Ok::<(ExprTree, int), PErr>((lt, q1)));
                }
                return Ok(left);
            }
            self.advance();
            self.skip_newlines();
            let ghost q2 = self.pos();
            proof {
                lemma_skip_nl(toks, q1 + 1);
                assert(q2 == skip_nl(toks, q1 + 1));
            }
            let right = match self.parse_logical_and() {
                Ok(e) => e,
                Err(e) => {
                    proof {
                        assert(or_rest(toks, lt, q) == Err::<(ExprTree, int), PErr>(e@));
                    }
                    return Err(e);
                },
            };
            proof {
                lemma_exprs_tree_two(left, right);
                assert(or_rest(toks, lt, q) == or_rest(toks, ExprTree::Logic(LogicalOp::Or, seq![lt, expr_tree(right)]), self.pos()));
            }
            left = Expression::or(pair(left, right));
        }
    }

    fn parse_logical_and(&mut self) -> (r: Result<Expression, ParseError>)
        requires
            old(self).wf(),
        ensures
            final(self).wf(),
            final(self).toks() == old(self).toks(),
            match r {
                Ok(e) => p_and(old(self).toks(), old(self).pos()) == Ok::<(ExprTree, int), PErr>((expr_tree(e), final(self).pos()))
                    && old(self).pos() < final(self).pos(),
                Err(e) => p_and(old(self).toks(), old(self).pos()) == Err::<(ExprTree, int), PErr>(e@),
            },
        decreases old(self).toks().len() - old(self).pos(), 7int,
    {
        let ghost toks = self.toks();
        let ghost p0 = self.pos();
        let mut left = match self.parse_comparison() {
            Ok(e) => e,
            Err(e) => return Err(e),
        };
        loop
            invariant
                self.wf(),
                self.toks() == toks,
                toks == old(self).toks(),
                p0 == old(self).pos(),
                p0 < self.pos(),
                p_and(toks, p0) == and_rest(toks, expr_tree(left), self.pos()),
            decreases toks.len() - self.pos(),
        {
            let ghost q = self.pos();
            let ghost lt = expr_tree(left);
            proof {
                lemma_skip_nl(toks, q);
            }
            self.skip_newlines();
            let ghost q1 = self.pos();
            if !self.check_token(TokenKind::And) {
                proof {
                    assert(and_rest(toks, lt, q) == Ok::<(ExprTree, int), PErr>((lt, q1)));
                }
                return Ok(left);
            }
            self.advance();
            self.skip_newlines();
            let ghost q2 = self.pos();
            proof {
                lemma_skip_nl(toks, q1 + 1);
                assert(q2 == skip_nl(toks, q1 + 1));
            }
            let right = match self.parse_comparison() {
                Ok(e) => e,
                Err(e) => {
                    proof {
                        assert(and_rest(toks, lt, q) == Err::<(ExprTree, int), PErr>(e@));
                    }
                    return Err(e);
                },
            };
            proof {
                lemma_exprs_tree_two(left, right);
                assert(and_rest(toks, lt, q) == and_rest(toks, ExprTree::Logic(LogicalOp::And, seq![lt, expr_tree(right)]), self.pos()));
            }
            left = Expression::and(pair(left, right));
        }
    }

    fn parse_comparison(&mut self) -> (r: Result<Expression, ParseError>)
        requires
            old(self).wf(),
        ensures
            final(self).wf(),
            final(self).toks() == old(self).toks(),
            match r {
                Ok(e) => p_cmp(old(self).toks(), old(self).pos()) == Ok::<(ExprTree, int), PErr>((expr_tree(e), final(self).pos()))
                    && old(self).pos() < final(self).pos(),
                Err(e) => p_cmp(old(self).toks(), old(self).pos()) == Err::<(ExprTree, int), PErr>(e@),
            },
        decreases old(self).toks().len() - old(self).pos(), 5int,
    {
        let left = match self.parse_in_expression() {
            Ok(e) => e,
            Err(e) => return Err(e),
        };
        match self.parse_comparison_op() {
            Some(op) => {
                self.advance();
                let right = match self.parse_in_expression() {
                    Ok(e) => e,
                    Err(e) => return Err(e),
                };
                Ok(Expression::binary(left, BinaryOp::Comparison(op), right))
            },
            None => Ok(left),
        }
    }

    fn parse_in_expression(&mut self) -> (r: Result<Expression, ParseError>)
        requires
            old(self).wf(),
        ensures
            final(self).wf(),
            final(self).toks() == old(self).toks(),
            match r {
                Ok(e) => p_in(old(self).toks(), old(self).pos()) == Ok::<(ExprTree, int), PErr>((expr_tree(e), final(self).pos()))
                    && old(self).pos() < final(self).pos(),
                Err(e) => p_in(old(self).toks(), old(self).pos()) == Err::<(ExprTree, int), PErr>(e@),
            },
        decreases old(self).toks().len() - old(self).pos(), 4int,
    {
        let e = match self.parse_primary() {
            Ok(e) => e,
            Err(e) => return Err(e),
        };
        if self.check_token(TokenKind::In) {
            self.advance();
            match self.expect_token(TokenKind::LBracket) {
                Ok(()) => {},
                Err(err) => return Err(err),
            }
            let values = match self.parse_values() {
                Ok(vs) => vs,
                Err(err) => return Err(err),
            };
            match self.expect_token(TokenKind::RBracket) {
                Ok(()) => {},
                Err(err) => return Err(err),
            }
            Ok(Expression::in_list(e, values))
        } else {
            Ok(e)
        }
    }

    fn parse_primary(&mut self) -> (r: Result<Expression, ParseError>)
        requires
            old(self).wf(),
        ensures
            final(self).wf(),
            final(self).toks() == old(self).toks(),
            match r {
                Ok(e) => p_primary(old(self).toks(), old(self).pos()) == Ok::<(ExprTree, int), PErr>((expr_tree(e), final(self).pos()))
                    && old(self).pos() < final(self).pos(),
                Err(e) => p_primary(old(self).toks(), old(self).pos()) == Err::<(ExprTree, int), PErr>(e@),
            },
        decreases old(self).toks().len() - old(self).pos(), 3int,
    {
        proof {
            assert(self.toks()[self.pos()] == self.tokens@[self.pos()].kind@);
        }
        match &self.tokens[self.position].kind {
            TokenKind::StringLit(s) => {
                let e = Expression::literal(Value::String(s.clone()));
                self.advance();
                Ok(e)
            },
            TokenKind::IntLit(n) => {
                let e = Expression::literal(Value::Int(*n));
                self.advance();
                Ok(e)
            },
            TokenKind::FloatLit(f) => {
                let e = Expression::literal(Value::Float(FloatLiteral { text: f.text.clone() }));
                self.advance();
                Ok(e)
            },
            TokenKind::BoolLit(b) => {
                let e = Expression::literal(Value::Bool(*b));
                self.advance();
                Ok(e)
            },
            TokenKind::Ident(_) => self.parse_path_or_call(),
            TokenKind::LParen => {
                self.advance();
                let e = match self.parse_expression() {
                    Ok(e) => e,
                    Err(err) => return Err(err),
                };
                match self.expect_token(TokenKind::RParen) {
                    Ok(()) => {},
                    Err(err) => return Err(err),
                }
                Ok(e)
            },
            TokenKind::Not => {
                self.advance();
                let operand = match self.parse_primary() {
                    Ok(e) => e,
                    Err(err) => return Err(err),
                };
                proof {
                    lemma_exprs_tree_two(operand, operand);
                }
                Ok(Expression::not(operand))
            },
            other => {
                let mut msg = owned("Unexpected token: ");
                let got = other.to_string();
                append_str(&mut msg, got.as_str());
                Err(ParseError::InvalidExpression(msg))
            },
        }
    }

    fn parse_path_or_call(&mut self) -> (r: Result<Expression, ParseError>)
        requires
            old(self).wf(),
        ensures
            final(self).wf(),
            final(self).toks() == old(self).toks(),
            match r {
                Ok(e) => p_path_or_call(old(self).toks(), old(self).pos()) == Ok::<(ExprTree, int), PErr>((expr_tree(e), final(self).pos()))
                    && old(self).pos() < final(self).pos(),
                Err(e) => p_path_or_call(old(self).toks(), old(self).pos()) == Err::<(ExprTree, int), PErr>(e@),
            },
        decreases old(self).toks().len() - old(self).pos(), 2int,
    {
        let ghost toks = self.toks();
        let ghost p0 = self.pos();
        let first = match self.expect_identifier() {
            Ok(s) => s,
            Err(e) => return Err(e),
        };
        let ghost q = self.pos();
        let ghost first_v = first@;
        let mut segments: Vec<String> = Vec::new();
        segments.push(first);
        proof {
            assert(strings_chars(segments@).subrange(1, 1) =~= Seq::<Seq<char>>::empty());
            assert(prepend(Seq::<Seq<char>>::empty(), p_segments(toks, q)) == p_segments(toks, q)) by {
                match p_segments(toks, q) {
                    Ok((items, q2)) => { assert(Seq::<Seq<char>>::empty() + items =~= items); },
                    Err(_) => {},
                }
            }
        }
        while self.check_token(TokenKind::Dot)
            invariant
                self.wf(),
                self.toks() == toks,
                toks == old(self).toks(),
                p0 == old(self).pos(),
                p0 < q <= self.pos(),
                segments@.len() >= 1,
                segments@[0]@ == first_v,
                expect_ident(toks, p0) == Ok::<(Seq<char>, int), PErr>((first_v, q)),
                p_segments(toks, q) == prepend(strings_chars(segments@).subrange(1, segments@.len() as int), p_segments(toks, self.pos())),
            decreases toks.len() - self.pos(),
        {
            let ghost acc = strings_chars(segments@).subrange(1, segments@.len() as int);
            self.advance();
            let s = match self.expect_identifier() {
                Ok(s) => s,
                Err(e) => return Err(e),
            };
            proof {
                lemma_prepend_step(acc, s@, p_segments(toks, self.pos()));
            }
            segments.push(s);
            proof {
                assert(strings_chars(segments@).subrange(1, segments@.len() as int) =~= acc.push(s@));
            }
        }
        let ghost segs = strings_chars(segments@);
        proof {
            assert(seq![first_v] + segs.subrange(1, segs.len() as int) =~= segs);
        }
        if self.check_token(TokenKind::LParen) {
            if segments.len() > 1 {
                return Err(ParseError::InvalidExpression(owned("Function calls cannot have path segments")));
            }
            self.advance();
            let mut args: Vec<Expression> = Vec::new();
            if !self.check_token(TokenKind::RParen) {
                args = match self.parse_arguments() {
                    Ok(a) => a,
                    Err(e) => return Err(e),
                };
            }
            match self.expect_token(TokenKind::RParen) {
                Ok(()) => {},
                Err(e) => return Err(e),
            }
            proof {
                assert(exprs_tree(Seq::<Expression>::empty()) =~= Seq::<ExprTree>::empty());
            }
            let name = segments[0].clone();
            Ok(Expression::Call { name, args })
        } else {
            Ok(Expression::path(segments))
        }
    }

    fn parse_arguments(&mut self) -> (r: Result<Vec<Expression>, ParseError>)
        requires
            old(self).wf(),
        ensures
            final(self).wf(),
            final(self).toks() == old(self).toks(),
            match r {
                Ok(args) => p_args(old(self).toks(), old(self).pos()) == Ok::<(Seq<ExprTree>, int), PErr>((exprs_tree(args@), final(self).pos()))
                    && old(self).pos() < final(self).pos(),
                Err(e) => p_args(old(self).toks(), old(self).pos()) == Err::<(Seq<ExprTree>, int), PErr>(e@),
            },
        decreases old(self).toks().len() - old(self).pos(), 11int,
    {
        let ghost toks = self.toks();
        let ghost p0 = self.pos();
        let mut args: Vec<Expression> = Vec::new();
        proof {
            assert(exprs_tree(args@) =~= Seq::<ExprTree>::empty());
            assert(prepend(Seq::<ExprTree>::empty(), p_args(toks, p0)) == p_args(toks, p0)) by {
                match p_args(toks, p0) {
                    Ok((items, q)) => { assert(Seq::<ExprTree>::empty() + items =~= items); },
                    Err(_) => {},
                }
            }
        }
        loop
            invariant
                self.wf(),
                self.toks() == toks,
                toks == old(self).toks(),
                p0 == old(self).pos(),
                p0 <= self.pos(),
                args@.len() == 0 ==> self.pos() == p0,
                args@.len() > 0 ==> p0 < self.pos(),
                p_args(toks, p0) == prepend(exprs_tree(args@), p_args(toks, self.pos())),
            decreases toks.len() - self.pos(),
        {
            let ghost acc = exprs_tree(args@);
            let a = match self.parse_expression() {
                Ok(a) => a,
                Err(e) => return Err(e),
            };
            proof {
                lemma_exprs_tree_push(args@, a);
                lemma_prepend_step(acc, expr_tree(a), p_args(toks, self.pos() + 1));
            }
            args.push(a);
            if self.check_token(TokenKind::Comma) {
                self.advance();
            } else {
                proof {
                    assert(acc + seq![expr_tree(a)] =~= acc.push(expr_tree(a)));
                }
                return Ok(args);
            }
        }
    }


    fn parse_triggers(&mut self) -> (r: Result<Vec<Condition>, ParseError>)
        requires
            old(self).wf(),
        ensures
            final(self).wf(),
            final(self).toks() == old(self).toks(),
            match r {
                Ok(ts) => p_triggers(old(self).toks(), old(self).pos()) == Ok::<(Seq<ExprTree>, int), PErr>((conds_tree(ts@), final(self).pos())),
                Err(e) => p_triggers(old(self).toks(), old(self).pos()) == Err::<(Seq<ExprTree>, int), PErr>(e@),
            },
            r matches Ok(ts) ==> at_default(ts@),
    {
        let ghost toks = self.toks();
        match self.expect_token(TokenKind::Triggers) {
            Ok(()) => {},
            Err(e) => return Err(e),
        }
        match self.expect_token(TokenKind::When) {
            Ok(()) => {},
            Err(e) => return Err(e),
        }
        self.skip_newlines();
        let ghost q0 = self.pos();
        let mut triggers: Vec<Condition> = Vec::new();
        proof {
            lemma_prepend_empty(trig_rest(toks, q0));
            assert(conds_tree(triggers@) =~= Seq::<ExprTree>::empty());
        }
        loop
            invariant
                self.wf(),
                self.toks() == toks,
                toks == old(self).toks(),
                q0 <= self.pos(),
                triggers@.len() > 0 ==> q0 < self.pos(),
                at_default(triggers@),
                p_triggers(toks, old(self).pos()) == trig_rest(toks, q0),
                trig_rest(toks, q0) == prepend(conds_tree(triggers@), trig_rest(toks, self.pos())),
            decreases toks.len() - self.pos(),
        {
            let ghost q = self.pos();
            let ghost acc = conds_tree(triggers@);
            let expr = match self.parse_expression() {
                Ok(e) => e,
                Err(e) => return Err(e),
            };
            let ghost et = expr_tree(expr);
            let c = Condition::new(expr);
            proof {
                lemma_conds_tree_push(triggers@, c);
                lemma_skip_nl(toks, self.pos());
            }
            triggers.push(c);
            self.skip_newlines();
            let ghost r1 = self.pos();
            if self.check_token(TokenKind::Requires) || self.check_token(TokenKind::Denies) {
                proof {
                    assert(trig_rest(toks, q) == Ok::<(Seq<ExprTree>, int), PErr>((seq![et], r1)));
                    assert(acc + seq![et] =~= acc.push(et));
                }
                return Ok(triggers);
            }
            if self.check_token(TokenKind::And) {
                self.advance();
                self.skip_newlines();
                proof {
                    lemma_skip_nl(toks, r1 + 1);
                    lemma_prepend_step(acc, et, trig_rest(toks, self.pos()));
                }
            } else {
                proof {
                    assert(trig_rest(toks, q) == Ok::<(Seq<ExprTree>, int), PErr>((seq![et], r1)));
                    assert(acc + seq![et] =~= acc.push(et));
                }
                return Ok(triggers);
            }
        }
    }

    fn parse_where_clause(&mut self) -> (r: Result<Vec<Condition>, ParseError>)
        requires
            old(self).wf(),
        ensures
            final(self).wf(),
            final(self).toks() == old(self).toks(),
            match r {
                Ok(ws) => where_rest(old(self).toks(), old(self).pos()) == Ok::<(Seq<ExprTree>, int), PErr>((conds_tree(ws@), final(self).pos())),
                Err(e) => where_rest(old(self).toks(), old(self).pos()) == Err::<(Seq<ExprTree>, int), PErr>(e@),
            },
            r matches Ok(ws) ==> at_default(ws@),
    {
        let ghost toks = self.toks();
        let ghost q0 = self.pos();
        let mut conditions: Vec<Condition> = Vec::new();
        proof {
            lemma_prepend_empty(where_rest(toks, q0));
            assert(conds_tree(conditions@) =~= Seq::<ExprTree>::empty());
        }
        loop
            invariant
                self.wf(),
                self.toks() == toks,
                toks == old(self).toks(),
                q0 == old(self).pos(),
                q0 <= self.pos(),
                conditions@.len() > 0 ==> q0 < self.pos(),
                at_default(conditions@),
                where_rest(toks, q0) == prepend(conds_tree(conditions@), where_rest(toks, self.pos())),
            decreases toks.len() - self.pos(),
        {
            let ghost q = self.pos();
            let ghost acc = conds_tree(conditions@);
            let expr = match self.parse_expression() {
                Ok(e) => e,
                Err(e) => return Err(e),
            };
            let ghost et = expr_tree(expr);
            let c = Condition::new(expr);
            proof {
                lemma_conds_tree_push(conditions@, c);
                lemma_skip_nl(toks, self.pos());
            }
            conditions.push(c);
            self.skip_newlines();
            let ghost r1 = self.pos();
            if self.check_token(TokenKind::And) {
                self.advance();
                self.skip_newlines();
                proof {
                    lemma_skip_nl(toks, r1 + 1);
                    lemma_prepend_step(acc, et, where_rest(toks, self.pos()));
                }
            } else {
                proof {
                    assert(where_rest(toks, q) == Ok::<(Seq<ExprTree>, int), PErr>((seq![et], r1)));
                    assert(acc + seq![et] =~= acc.push(et));
                }
                return Ok(conditions);
            }
        }
    }

    fn parse_requirements(&mut self) -> (r: Result<Requirements, ParseError>)
        requires
            old(self).wf(),
        ensures
            final(self).wf(),
            final(self).toks() == old(self).toks(),
            match r {
                Ok(req) => p_requirements(old(self).toks(), old(self).pos()) == Ok::<(ReqTree, int), PErr>((req_tree(req), final(self).pos())),
                Err(e) => p_requirements(old(self).toks(), old(self).pos()) == Err::<(ReqTree, int), PErr>(e@),
            },
            !check(old(self).toks(), old(self).pos(), KindModel::Requires)
                && !check(old(self).toks(), old(self).pos(), KindModel::Denies)
                ==> final(self).pos() == old(self).pos(),
            r matches Ok(req) ==> req_at_default(req),
    {
        let ghost toks = self.toks();
        let ghost p0 = self.pos();
        if self.check_token(TokenKind::Requires) {
            self.advance();
            proof {
                lemma_skip_nl(toks, p0 + 1);
            }
            self.skip_newlines();
            let ghost q0 = self.pos();
            let mut conditions: Vec<Condition> = Vec::new();
            proof {
                lemma_prepend_req(Seq::empty(), ExprTree::Lit(ValueTree::Bool(true)), req_rest(toks, q0));
                assert(conds_tree(conditions@) =~= Seq::<ExprTree>::empty());
            }
            loop
                invariant
                    self.wf(),
                    self.toks() == toks,
                    toks == old(self).toks(),
                    p0 == old(self).pos(),
                    check(toks, p0, KindModel::Requires),
                    q0 == skip_nl(toks, p0 + 1),
                    q0 <= self.pos(),
                    conditions@.len() > 0 ==> q0 < self.pos(),
                    at_default(conditions@),
                    req_rest(toks, q0) == prepend_req(conds_tree(conditions@), req_rest(toks, self.pos())),
                decreases toks.len() - self.pos(),
            {
                let ghost q = self.pos();
                let ghost acc = conds_tree(conditions@);
                let expr = match self.parse_expression() {
                    Ok(e) => e,
                    Err(e) => return Err(e),
                };
                let ghost et = expr_tree(expr);
                let c = Condition::new(expr);
                proof {
                    lemma_conds_tree_push(conditions@, c);
                    lemma_skip_nl(toks, self.pos());
                }
                conditions.push(c);
                self.skip_newlines();
                let ghost r1 = self.pos();
                if self.check_token(TokenKind::And) {
                    self.advance();
                    self.skip_newlines();
                    proof {
                        lemma_skip_nl(toks, r1 + 1);
                        lemma_prepend_req(acc, et, req_rest(toks, self.pos()));
                    }
                } else if self.check_token(TokenKind::Where) {
                    self.advance();
                    self.skip_newlines();
                    proof {
                        lemma_skip_nl(toks, r1 + 1);
                    }
                    let where_conditions = match self.parse_where_clause() {
                        Ok(ws) => ws,
                        Err(e) => return Err(e),
                    };
                    proof {
                        assert(acc + seq![et] =~= acc.push(et));
                    }
                    return Ok(Requirements::requires_where(conditions, where_conditions));
                } else {
                    proof {
                        assert(acc + seq![et] =~= acc.push(et));
                    }
                    return Ok(Requirements::require(conditions));
                }
            }
        } else if self.check_token(TokenKind::Denies) {
            self.advance();
            proof {
                lemma_skip_nl(toks, p0 + 1);
            }
            self.skip_newlines();
            let reason = if self.check_token(TokenKind::With) {
                self.advance();
                match self.expect_token(TokenKind::Reason) {
                    Ok(()) => {},
                    Err(e) => return Err(e),
                }
                match self.expect_string() {
                    Ok(s) => Some(s),
                    Err(e) => return Err(e),
                }
            } else {
                None
            };
            Ok(Requirements::denies(reason))
        } else {
            Err(ParseError::InvalidPolicy(owned("Expected 'requires' or 'denies'")))
        }
    }

    fn parse_metadata(&mut self) -> (r: Result<Metadata, ParseError>)
        requires
            old(self).wf(),
        ensures
            final(self).wf(),
            final(self).toks() == old(self).toks(),
            match r {
                Ok(m) => p_metadata(old(self).toks(), old(self).pos()) == Ok::<(Seq<(Seq<char>, ValueTree)>, int), PErr>((fields_tree(m.fields@), final(self).pos())),
                Err(e) => p_metadata(old(self).toks(), old(self).pos()) == Err::<(Seq<(Seq<char>, ValueTree)>, int), PErr>(e@),
            },
    {
        let ghost toks = self.toks();
        match self.expect_token(TokenKind::Metadata) {
            Ok(()) => {},
            Err(e) => return Err(e),
        }
        self.skip_newlines();
        let ghost q0 = self.pos();
        let mut metadata = Metadata::new();
        proof {
            lemma_prepend_empty(meta_rest(toks, q0));
            assert(fields_tree(metadata.fields@) =~= Seq::<(Seq<char>, ValueTree)>::empty());
        }
        loop
            invariant
                self.wf(),
                self.toks() == toks,
                toks == old(self).toks(),
                q0 <= self.pos(),
                metadata.fields@.len() > 0 ==> q0 < self.pos(),
                p_metadata(toks, old(self).pos()) == meta_rest(toks, q0),
                meta_rest(toks, q0) == prepend(fields_tree(metadata.fields@), meta_rest(toks, self.pos())),
            decreases toks.len() - self.pos(),
        {
            let ghost q = self.pos();
            let ghost acc = fields_tree(metadata.fields@);
            let key = match self.expect_identifier() {
                Ok(k) => k,
                Err(e) => return Err(e),
            };
            match self.expect_token(TokenKind::Colon) {
                Ok(()) => {},
                Err(e) => return Err(e),
            }
            let value = match self.parse_value() {
                Ok(v) => v,
                Err(e) => return Err(e),
            };
            let ghost field = (key@, value_tree(value));
            let ghost before = metadata.fields@;
            metadata = metadata.add_field(key, value);
            proof {
                assert(fields_tree(metadata.fields@) =~= acc.push(field));
                lemma_skip_nl(toks, self.pos());
            }
            self.skip_newlines();
            let ghost q4 = self.pos();
            let stop = self.is_at_end() || !self.current().kind.is_literal() && !match self.current().kind {
                TokenKind::Ident(_) => true,
                _ => false,
            };
            if stop {
                proof {
                    assert(meta_rest(toks, q) == Ok::<(Seq<(Seq<char>, ValueTree)>, int), PErr>((seq![field], q4)));
                    assert(acc + seq![field] =~= acc.push(field));
                }
                return Ok(metadata);
            }
            proof {
                lemma_prepend_step(acc, field, meta_rest(toks, q4));
            }
        }
    }

    /// Parse a complete policy.
    pub fn parse_policy(&mut self) -> (r: Result<Policy, ParseError>)
        requires
            old(self).wf(),
        ensures
            final(self).wf(),
            final(self).toks() == old(self).toks(),
            match r {
                Ok(pol) => p_policy(old(self).toks(), old(self).pos()) == Ok::<(PolicyTree, int), PErr>((policy_tree(pol), final(self).pos()))
                    && pol.location == (SourceLocation { line: 0, column: 0, length: 0 })
                    && at_default(pol.triggers@) && req_at_default(pol.requirements),
                Err(e) => p_policy(old(self).toks(), old(self).pos()) == Err::<(PolicyTree, int), PErr>(e@),
            },
    {
        self.skip_newlines();
        match self.expect_token(TokenKind::Policy) {
            Ok(()) => {},
            Err(e) => return Err(e),
        }
        let name = match self.expect_identifier() {
            Ok(s) => s,
            Err(e) => return Err(e),
        };
        match self.expect_token(TokenKind::Colon) {
            Ok(()) => {},
            Err(e) => return Err(e),
        }
        self.skip_newlines();
        let intent = match self.expect_string() {
            Ok(s) => s,
            Err(e) => return Err(e),
        };
        self.skip_newlines();
        let triggers = match self.parse_triggers() {
            Ok(t) => t,
            Err(e) => return Err(e),
        };
        self.skip_newlines();
        let requirements = match self.parse_requirements() {
            Ok(r) => r,
            Err(e) => return Err(e),
        };
        self.skip_newlines();
        let metadata = if self.check_token(TokenKind::Metadata) {
            match self.parse_metadata() {
                Ok(m) => Some(m),
                Err(e) => return Err(e),
            }
        } else {
            None
        };
        Ok(Policy {
            name,
            intent,
            triggers,
            requirements,
            metadata,
            location: SourceLocation::default(),
        })
    }

}

} // verus!
