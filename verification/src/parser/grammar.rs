//! The policy grammar, as spec functions over token kinds: what the parser builds from the
//! tokens at a position, and the position after it, or the error it reports.
//!
//! The parser never moves past an `Eof` token; reading past the last token reads `Eof`.

use vstd::prelude::*;
use crate::ast::nodes::{AggregateFunc, ComparisonOp, LogicalOp, SourceLocation};
use crate::parser::token::{kind_text, KindModel};

verus! {

/// A value of the AST with its strings taken by their characters.
pub enum ValueTree {
    Str(Seq<char>),
    Int(i64),
    Float(Seq<char>),
    Bool(bool),
    Array(Seq<ValueTree>),
}

/// An expression of the AST with its strings taken by their characters.
pub enum ExprTree {
    Lit(ValueTree),
    PathT(Seq<Seq<char>>),
    Bin(Box<ExprTree>, ComparisonOp, Box<ExprTree>),
    Logic(LogicalOp, Seq<ExprTree>),
    InT(Box<ExprTree>, Seq<ValueTree>),
    Agg(Seq<Seq<char>>, AggregateFunc, Box<ExprTree>, SourceLocation),
    CallT(Seq<char>, Seq<ExprTree>),
}

/// Requirements of a policy: the `requires` conditions with the optional `where`
/// conditions, or `denies` with an optional reason.
pub enum ReqTree {
    Requires(Seq<ExprTree>, Option<Seq<ExprTree>>),
    Denies(Option<Seq<char>>),
}

/// A parsed policy: name, intent, triggers, requirements and optional metadata.
pub struct PolicyTree {
    pub name: Seq<char>,
    pub intent: Seq<char>,
    pub triggers: Seq<ExprTree>,
    pub requirements: ReqTree,
    pub metadata: Option<Seq<(Seq<char>, ValueTree)>>,
}

/// A parse error with its strings taken by their characters.
pub enum PErr {
    Unexpected(Seq<char>, Seq<char>),
    Eof,
    Invalid(Seq<char>),
    Policy(Seq<char>),
}

/// The token at `p`; `Eof` outside the tokens.
pub open spec fn at(toks: Seq<KindModel>, p: int) -> KindModel {
    if 0 <= p < toks.len() { toks[p] } else { KindModel::Eof }
}

/// Whether the token at `p` is the given kind (never true at `Eof`).
pub open spec fn check(toks: Seq<KindModel>, p: int, k: KindModel) -> bool {
    !(at(toks, p) is Eof) && at(toks, p) == k
}

/// The position after the newlines at `p`.
pub open spec fn skip_nl(toks: Seq<KindModel>, p: int) -> int
    decreases toks.len() - p,
{
    if check(toks, p, KindModel::Newline) { skip_nl(toks, p + 1) } else { p }
}

pub proof fn lemma_skip_nl(toks: Seq<KindModel>, p: int)
    requires
        0 <= p,
    ensures
        p <= skip_nl(toks, p),
        p <= toks.len() ==> skip_nl(toks, p) <= toks.len(),
        !check(toks, skip_nl(toks, p), KindModel::Newline),
    decreases toks.len() - p,
{
    if check(toks, p, KindModel::Newline) {
        lemma_skip_nl(toks, p + 1);
    }
}

/// The error for expecting `what` at `p`.
pub open spec fn unexpected(toks: Seq<KindModel>, p: int, what: Seq<char>) -> PErr {
    PErr::Unexpected(what, kind_text(at(toks, p)))
}

/// Expecting the token `k` at `p`.
pub open spec fn expect_tok(toks: Seq<KindModel>, p: int, k: KindModel) -> Result<int, PErr> {
    if check(toks, p, k) { Ok(p + 1) } else { Err(unexpected(toks, p, kind_text(k))) }
}

/// Expecting an identifier at `p`.
pub open spec fn expect_ident(toks: Seq<KindModel>, p: int) -> Result<(Seq<char>, int), PErr> {
    match at(toks, p) {
        KindModel::Ident(s) => Ok((s, p + 1)),
        _ => Err(unexpected(toks, p, "identifier"@)),
    }
}

/// Expecting a string literal at `p`.
pub open spec fn expect_str(toks: Seq<KindModel>, p: int) -> Result<(Seq<char>, int), PErr> {
    match at(toks, p) {
        KindModel::StringLit(s) => Ok((s, p + 1)),
        _ => Err(unexpected(toks, p, "string literal"@)),
    }
}

/// A value at `p`: a literal, an identifier (as a string), or a bracketed list of values.
pub open spec fn p_value(toks: Seq<KindModel>, p: int) -> Result<(ValueTree, int), PErr>
    decreases toks.len() - p, 0int,
{
    match at(toks, p) {
        KindModel::StringLit(s) => Ok((ValueTree::Str(s), p + 1)),
        KindModel::IntLit(n) => Ok((ValueTree::Int(n), p + 1)),
        KindModel::FloatLit(f) => Ok((ValueTree::Float(f), p + 1)),
        KindModel::BoolLit(b) => Ok((ValueTree::Bool(b), p + 1)),
        KindModel::Ident(s) => Ok((ValueTree::Str(s), p + 1)),
        KindModel::LBracket => {
            if p < 0 {
                Err(PErr::Eof)
            } else if check(toks, p + 1, KindModel::RBracket) {
                Ok((ValueTree::Array(Seq::empty()), p + 2))
            } else {
                match p_values(toks, p + 1) {
                    Err(e) => Err(e),
                    Ok((vs, r)) => match expect_tok(toks, r, KindModel::RBracket) {
                        Ok(r2) => Ok((ValueTree::Array(vs), r2)),
                        Err(e) => Err(e),
                    },
                }
            }
        },
        k => Err(PErr::Invalid("Expected value, got "@ + kind_text(k))),
    }
}

/// Values separated by commas, at `p`.
pub open spec fn p_values(toks: Seq<KindModel>, p: int) -> Result<(Seq<ValueTree>, int), PErr>
    decreases toks.len() - p, 1int,
{
    if p < 0 || p >= toks.len() {
        Err(PErr::Eof)
    } else {
        match p_value(toks, p) {
            Err(e) => Err(e),
            Ok((v, q)) => if q >= p && check(toks, q, KindModel::Comma) {
                match p_values(toks, q + 1) {
                    Ok((vs, r)) => Ok((seq![v] + vs, r)),
                    Err(e) => Err(e),
                }
            } else {
                Ok((seq![v], q))
            },
        }
    }
}

/// The comparison operator at `p`, if any.
pub open spec fn comparison_at(toks: Seq<KindModel>, p: int) -> Option<ComparisonOp> {
    match at(toks, p) {
        KindModel::Eq => Some(ComparisonOp::Eq),
        KindModel::Neq => Some(ComparisonOp::Neq),
        KindModel::Lt => Some(ComparisonOp::Lt),
        KindModel::Gt => Some(ComparisonOp::Gt),
        KindModel::LtEq => Some(ComparisonOp::LtEq),
        KindModel::GtEq => Some(ComparisonOp::GtEq),
        _ => None,
    }
}

/// An expression at `p`.
pub open spec fn p_expr(toks: Seq<KindModel>, p: int) -> Result<(ExprTree, int), PErr>
    decreases toks.len() - p, 10int,
{
    p_or(toks, p)
}

/// Operands joined by `or`, grouped to the left; newlines may surround `or`.
pub open spec fn p_or(toks: Seq<KindModel>, p: int) -> Result<(ExprTree, int), PErr>
    decreases toks.len() - p, 9int,
{
    match p_and(toks, p) {
        Err(e) => Err(e),
        Ok((l, q)) => if p <= q <= toks.len() { or_rest(toks, l, q) } else { Err(PErr::Eof) },
    }
}

/// The rest of an `or` chain after `left`, at `q`.
pub open spec fn or_rest(toks: Seq<KindModel>, left: ExprTree, q: int) -> Result<(ExprTree, int), PErr>
    decreases toks.len() - q, 8int,
{
    if q < 0 {
        Err(PErr::Eof)
    } else {
        let q1 = skip_nl(toks, q);
        proof {
            lemma_skip_nl(toks, q);
            lemma_skip_nl(toks, q1 + 1);
        }
        if check(toks, q1, KindModel::Or) {
            let q2 = skip_nl(toks, q1 + 1);
            match p_and(toks, q2) {
                Err(e) => Err(e),
                Ok((r, q3)) => if q < q3 <= toks.len() {
                    or_rest(toks, ExprTree::Logic(LogicalOp::Or, seq![left, r]), q3)
                } else {
                    Err(PErr::Eof)
                },
            }
        } else {
            Ok((left, q1))
        }
    }
}

/// Operands joined by `and`, grouped to the left; newlines may surround `and`.
pub open spec fn p_and(toks: Seq<KindModel>, p: int) -> Result<(ExprTree, int), PErr>
    decreases toks.len() - p, 7int,
{
    match p_cmp(toks, p) {
        Err(e) => Err(e),
        Ok((l, q)) => if p <= q <= toks.len() { and_rest(toks, l, q) } else { Err(PErr::Eof) },
    }
}

/// The rest of an `and` chain after `left`, at `q`.
pub open spec fn and_rest(toks: Seq<KindModel>, left: ExprTree, q: int) -> Result<(ExprTree, int), PErr>
    decreases toks.len() - q, 6int,
{
    if q < 0 {
        Err(PErr::Eof)
    } else {
        let q1 = skip_nl(toks, q);
        proof {
            lemma_skip_nl(toks, q);
            lemma_skip_nl(toks, q1 + 1);
        }
        if check(toks, q1, KindModel::And) {
            let q2 = skip_nl(toks, q1 + 1);
            match p_cmp(toks, q2) {
                Err(e) => Err(e),
                Ok((r, q3)) => if q < q3 <= toks.len() {
                    and_rest(toks, ExprTree::Logic(LogicalOp::And, seq![left, r]), q3)
                } else {
                    Err(PErr::Eof)
                },
            }
        } else {
            Ok((left, q1))
        }
    }
}

/// A comparison, or a membership test alone.
pub open spec fn p_cmp(toks: Seq<KindModel>, p: int) -> Result<(ExprTree, int), PErr>
    decreases toks.len() - p, 5int,
{
    match p_in(toks, p) {
        Err(e) => Err(e),
        Ok((l, q)) => match comparison_at(toks, q) {
            Some(op) => if q >= p && q < toks.len() {
                match p_in(toks, q + 1) {
                    Err(e) => Err(e),
                    Ok((r, q2)) => Ok((ExprTree::Bin(Box::new(l), op, Box::new(r)), q2)),
                }
            } else {
                Err(PErr::Eof)
            },
            None => Ok((l, q)),
        },
    }
}

/// A primary expression, optionally followed by `in [values]`.
pub open spec fn p_in(toks: Seq<KindModel>, p: int) -> Result<(ExprTree, int), PErr>
    decreases toks.len() - p, 4int,
{
    match p_primary(toks, p) {
        Err(e) => Err(e),
        Ok((e, q)) => if check(toks, q, KindModel::In) {
            match expect_tok(toks, q + 1, KindModel::LBracket) {
                Err(err) => Err(err),
                Ok(q2) => match p_values(toks, q2) {
                    Err(err) => Err(err),
                    Ok((vs, q3)) => match expect_tok(toks, q3, KindModel::RBracket) {
                        Err(err) => Err(err),
                        Ok(q4) => Ok((ExprTree::InT(Box::new(e), vs), q4)),
                    },
                },
            }
        } else {
            Ok((e, q))
        },
    }
}

/// A literal, a path or call, a parenthesized expression, or `not` before a primary.
pub open spec fn p_primary(toks: Seq<KindModel>, p: int) -> Result<(ExprTree, int), PErr>
    decreases toks.len() - p, 3int,
{
    if p < 0 || p >= toks.len() {
        Err(PErr::Invalid("Unexpected token: "@ + kind_text(KindModel::Eof)))
    } else {
        match toks[p] {
            KindModel::StringLit(s) => Ok((ExprTree::Lit(ValueTree::Str(s)), p + 1)),
            KindModel::IntLit(n) => Ok((ExprTree::Lit(ValueTree::Int(n)), p + 1)),
            KindModel::FloatLit(f) => Ok((ExprTree::Lit(ValueTree::Float(f)), p + 1)),
            KindModel::BoolLit(b) => Ok((ExprTree::Lit(ValueTree::Bool(b)), p + 1)),
            KindModel::Ident(_) => p_path_or_call(toks, p),
            KindModel::LParen => match p_expr(toks, p + 1) {
                Err(e) => Err(e),
                Ok((e, q)) => match expect_tok(toks, q, KindModel::RParen) {
                    Err(err) => Err(err),
                    Ok(q2) => Ok((e, q2)),
                },
            },
            KindModel::Not => match p_primary(toks, p + 1) {
                Err(e) => Err(e),
                Ok((e, q)) => Ok((ExprTree::Logic(LogicalOp::Not, seq![e]), q)),
            },
            k => Err(PErr::Invalid("Unexpected token: "@ + kind_text(k))),
        }
    }
}

/// Identifiers separated by dots, after the first, at `q`.
pub open spec fn p_segments(toks: Seq<KindModel>, q: int) -> Result<(Seq<Seq<char>>, int), PErr>
    decreases toks.len() - q,
{
    if q >= 0 && check(toks, q, KindModel::Dot) {
        match expect_ident(toks, q + 1) {
            Err(e) => Err(e),
            Ok((s, q2)) => match p_segments(toks, q2) {
                Err(e) => Err(e),
                Ok((rest, q3)) => Ok((seq![s] + rest, q3)),
            },
        }
    } else {
        Ok((Seq::empty(), q))
    }
}

/// A path, or a call when a single identifier is followed by `(`.
pub open spec fn p_path_or_call(toks: Seq<KindModel>, p: int) -> Result<(ExprTree, int), PErr>
    decreases toks.len() - p, 2int,
{
    match expect_ident(toks, p) {
        Err(e) => Err(e),
        Ok((first, q)) => match p_segments(toks, q) {
            Err(e) => Err(e),
            Ok((rest, q2)) => {
                let segs = seq![first] + rest;
                if check(toks, q2, KindModel::LParen) {
                    if segs.len() > 1 {
                        Err(PErr::Invalid("Function calls cannot have path segments"@))
                    } else if q2 < p || q2 >= toks.len() {
                        Err(PErr::Eof)
                    } else {
                        let q3 = q2 + 1;
                        if check(toks, q3, KindModel::RParen) {
                            Ok((ExprTree::CallT(first, Seq::empty()), q3 + 1))
                        } else {
                            match p_args(toks, q3) {
                                Err(e) => Err(e),
                                Ok((args, q4)) => match expect_tok(toks, q4, KindModel::RParen) {
                                    Err(e) => Err(e),
                                    Ok(q5) => Ok((ExprTree::CallT(first, args), q5)),
                                },
                            }
                        }
                    }
                } else {
                    Ok((ExprTree::PathT(segs), q2))
                }
            },
        },
    }
}

/// Expressions separated by commas, at `p`.
pub open spec fn p_args(toks: Seq<KindModel>, p: int) -> Result<(Seq<ExprTree>, int), PErr>
    decreases toks.len() - p, 11int,
{
    match p_expr(toks, p) {
        Err(e) => Err(e),
        Ok((a, q)) => if q >= p && q < toks.len() && check(toks, q, KindModel::Comma) {
            match p_args(toks, q + 1) {
                Err(e) => Err(e),
                Ok((rest, r)) => Ok((seq![a] + rest, r)),
            }
        } else {
            Ok((seq![a], q))
        },
    }
}

/// `triggers when` and the trigger conditions.
pub open spec fn p_triggers(toks: Seq<KindModel>, p: int) -> Result<(Seq<ExprTree>, int), PErr> {
    match expect_tok(toks, p, KindModel::Triggers) {
        Err(e) => Err(e),
        Ok(q1) => match expect_tok(toks, q1, KindModel::When) {
            Err(e) => Err(e),
            Ok(q2) => trig_rest(toks, skip_nl(toks, q2)),
        },
    }
}

/// Trigger conditions from `q`: each followed by newlines, ending before `requires` or
/// `denies`, or where no `and` follows.
pub open spec fn trig_rest(toks: Seq<KindModel>, q: int) -> Result<(Seq<ExprTree>, int), PErr>
    decreases toks.len() - q,
{
    match p_expr(toks, q) {
        Err(e) => Err(e),
        Ok((e, r)) => {
            let r1 = skip_nl(toks, r);
            if check(toks, r1, KindModel::Requires) || check(toks, r1, KindModel::Denies) {
                Ok((seq![e], r1))
            } else if check(toks, r1, KindModel::And) {
                let r2 = skip_nl(toks, r1 + 1);
                if q < r2 <= toks.len() {
                    match trig_rest(toks, r2) {
                        Err(e) => Err(e),
                        Ok((es, r3)) => Ok((seq![e] + es, r3)),
                    }
                } else {
                    Err(PErr::Eof)
                }
            } else {
                Ok((seq![e], r1))
            }
        },
    }
}

/// `requires` conditions from `q`, joined by `and`, with an optional `where` part.
pub open spec fn req_rest(toks: Seq<KindModel>, q: int) -> Result<(Seq<ExprTree>, Option<Seq<ExprTree>>, int), PErr>
    decreases toks.len() - q,
{
    match p_expr(toks, q) {
        Err(e) => Err(e),
        Ok((e, r)) => {
            let r1 = skip_nl(toks, r);
            if check(toks, r1, KindModel::And) {
                let r2 = skip_nl(toks, r1 + 1);
                if q < r2 <= toks.len() {
                    match req_rest(toks, r2) {
                        Err(e) => Err(e),
                        Ok((es, w, r3)) => Ok((seq![e] + es, w, r3)),
                    }
                } else {
                    Err(PErr::Eof)
                }
            } else if check(toks, r1, KindModel::Where) {
                match where_rest(toks, skip_nl(toks, r1 + 1)) {
                    Err(e) => Err(e),
                    Ok((ws, r3)) => Ok((seq![e], Some(ws), r3)),
                }
            } else {
                Ok((seq![e], None, r1))
            }
        },
    }
}

/// `where` conditions from `q`, joined by `and`.
pub open spec fn where_rest(toks: Seq<KindModel>, q: int) -> Result<(Seq<ExprTree>, int), PErr>
    decreases toks.len() - q,
{
    match p_expr(toks, q) {
        Err(e) => Err(e),
        Ok((e, r)) => {
            let r1 = skip_nl(toks, r);
            if check(toks, r1, KindModel::And) {
                let r2 = skip_nl(toks, r1 + 1);
                if q < r2 <= toks.len() {
                    match where_rest(toks, r2) {
                        Err(e) => Err(e),
                        Ok((ws, r3)) => Ok((seq![e] + ws, r3)),
                    }
                } else {
                    Err(PErr::Eof)
                }
            } else {
                Ok((seq![e], r1))
            }
        },
    }
}

/// `requires ...` or `denies [with reason "..."]`.
pub open spec fn p_requirements(toks: Seq<KindModel>, p: int) -> Result<(ReqTree, int), PErr> {
    if check(toks, p, KindModel::Requires) {
        match req_rest(toks, skip_nl(toks, p + 1)) {
            Err(e) => Err(e),
            Ok((cs, w, r)) => Ok((ReqTree::Requires(cs, w), r)),
        }
    } else if check(toks, p, KindModel::Denies) {
        let q = skip_nl(toks, p + 1);
        if check(toks, q, KindModel::With) {
            match expect_tok(toks, q + 1, KindModel::Reason) {
                Err(e) => Err(e),
                Ok(q2) => match expect_str(toks, q2) {
                    Err(e) => Err(e),
                    Ok((s, q3)) => Ok((ReqTree::Denies(Some(s)), q3)),
                },
            }
        } else {
            Ok((ReqTree::Denies(None), q))
        }
    } else {
        Err(PErr::Policy("Expected 'requires' or 'denies'"@))
    }
}

/// Whether the token is a literal or an identifier: another metadata field follows.
pub open spec fn starts_field(k: KindModel) -> bool {
    k is StringLit || k is IntLit || k is FloatLit || k is BoolLit || k is Ident
}

/// Metadata fields `key: value` from `q`, each followed by newlines.
pub open spec fn meta_rest(toks: Seq<KindModel>, q: int) -> Result<(Seq<(Seq<char>, ValueTree)>, int), PErr>
    decreases toks.len() - q,
{
    match expect_ident(toks, q) {
        Err(e) => Err(e),
        Ok((k, q1)) => match expect_tok(toks, q1, KindModel::Colon) {
            Err(e) => Err(e),
            Ok(q2) => match p_value(toks, q2) {
                Err(e) => Err(e),
                Ok((v, q3)) => {
                    let q4 = skip_nl(toks, q3);
                    if at(toks, q4) is Eof || !starts_field(at(toks, q4)) {
                        Ok((seq![(k, v)], q4))
                    } else if q < q4 <= toks.len() {
                        match meta_rest(toks, q4) {
                            Err(e) => Err(e),
                            Ok((fs, q5)) => Ok((seq![(k, v)] + fs, q5)),
                        }
                    } else {
                        Err(PErr::Eof)
                    }
                },
            },
        },
    }
}

/// `metadata` and its fields.
pub open spec fn p_metadata(toks: Seq<KindModel>, p: int) -> Result<(Seq<(Seq<char>, ValueTree)>, int), PErr> {
    match expect_tok(toks, p, KindModel::Metadata) {
        Err(e) => Err(e),
        Ok(q) => meta_rest(toks, skip_nl(toks, q)),
    }
}

/// A whole policy: `policy Name:` the intent string, the triggers, the requirements and the
/// optional metadata, with newlines allowed between the parts.
pub open spec fn p_policy(toks: Seq<KindModel>, p: int) -> Result<(PolicyTree, int), PErr> {
    match expect_tok(toks, skip_nl(toks, p), KindModel::Policy) {
        Err(e) => Err(e),
        Ok(q1) => match expect_ident(toks, q1) {
            Err(e) => Err(e),
            Ok((name, q2)) => match expect_tok(toks, q2, KindModel::Colon) {
                Err(e) => Err(e),
                Ok(q3) => match expect_str(toks, skip_nl(toks, q3)) {
                    Err(e) => Err(e),
                    Ok((intent, q4)) => match p_triggers(toks, skip_nl(toks, q4)) {
                        Err(e) => Err(e),
                        Ok((triggers, q5)) => match p_requirements(toks, skip_nl(toks, q5)) {
                            Err(e) => Err(e),
                            Ok((req, q6)) => {
                                let q7 = skip_nl(toks, q6);
                                if check(toks, q7, KindModel::Metadata) {
                                    match p_metadata(toks, q7) {
                                        Err(e) => Err(e),
                                        Ok((m, q8)) => Ok((PolicyTree { name, intent, triggers, requirements: req, metadata: Some(m) }, q8)),
                                    }
                                } else {
                                    Ok((PolicyTree { name, intent, triggers, requirements: req, metadata: None }, q7))
                                }
                            },
                        },
                    },
                },
            },
        },
    }
}

} // verus!
