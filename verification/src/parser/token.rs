//! Tokens of the policy language.

use vstd::prelude::*;
use crate::ast::nodes::FloatLiteral;
use crate::text::{append_i64, append_str, int_text, owned};

verus! {

/// The kind of a token.
#[derive(Debug, PartialEq)]
pub enum TokenKind {
    // Keywords
    Policy,
    Triggers,
    When,
    Requires,
    Denies,
    With,
    Reason,
    Where,
    Metadata,
    And,
    Or,
    Not,
    In,
    // Comparison operators
    Eq,
    Neq,
    Lt,
    Gt,
    LtEq,
    GtEq,
    // Literals
    StringLit(String),
    IntLit(i64),
    FloatLit(FloatLiteral),
    BoolLit(bool),
    // Identifiers
    Ident(String),
    // Punctuation
    Colon,
    Comma,
    Dot,
    LParen,
    RParen,
    LBracket,
    RBracket,
    LBrace,
    RBrace,
    // Special
    Newline,
    Eof,
    Error(String),
}

/// A token kind with its strings taken by their characters.
pub enum KindModel {
    Policy,
    Triggers,
    When,
    Requires,
    Denies,
    With,
    Reason,
    Where,
    Metadata,
    And,
    Or,
    Not,
    In,
    Eq,
    Neq,
    Lt,
    Gt,
    LtEq,
    GtEq,
    StringLit(Seq<char>),
    IntLit(i64),
    FloatLit(Seq<char>),
    BoolLit(bool),
    Ident(Seq<char>),
    Colon,
    Comma,
    Dot,
    LParen,
    RParen,
    LBracket,
    RBracket,
    LBrace,
    RBrace,
    Newline,
    Eof,
    Error(Seq<char>),
}

impl View for TokenKind {
    type V = KindModel;

    open spec fn view(&self) -> KindModel {
        match self {
            TokenKind::Policy => KindModel::Policy,
            TokenKind::Triggers => KindModel::Triggers,
            TokenKind::When => KindModel::When,
            TokenKind::Requires => KindModel::Requires,
            TokenKind::Denies => KindModel::Denies,
            TokenKind::With => KindModel::With,
            TokenKind::Reason => KindModel::Reason,
            TokenKind::Where => KindModel::Where,
            TokenKind::Metadata => KindModel::Metadata,
            TokenKind::And => KindModel::And,
            TokenKind::Or => KindModel::Or,
            TokenKind::Not => KindModel::Not,
            TokenKind::In => KindModel::In,
            TokenKind::Eq => KindModel::Eq,
            TokenKind::Neq => KindModel::Neq,
            TokenKind::Lt => KindModel::Lt,
            TokenKind::Gt => KindModel::Gt,
            TokenKind::LtEq => KindModel::LtEq,
            TokenKind::GtEq => KindModel::GtEq,
            TokenKind::StringLit(s) => KindModel::StringLit(s@),
            TokenKind::IntLit(n) => KindModel::IntLit(*n),
            TokenKind::FloatLit(f) => KindModel::FloatLit(f.text@),
            TokenKind::BoolLit(b) => KindModel::BoolLit(*b),
            TokenKind::Ident(s) => KindModel::Ident(s@),
            TokenKind::Colon => KindModel::Colon,
            TokenKind::Comma => KindModel::Comma,
            TokenKind::Dot => KindModel::Dot,
            TokenKind::LParen => KindModel::LParen,
            TokenKind::RParen => KindModel::RParen,
            TokenKind::LBracket => KindModel::LBracket,
            TokenKind::RBracket => KindModel::RBracket,
            TokenKind::LBrace => KindModel::LBrace,
            TokenKind::RBrace => KindModel::RBrace,
            TokenKind::Newline => KindModel::Newline,
            TokenKind::Eof => KindModel::Eof,
            TokenKind::Error(s) => KindModel::Error(s@),
        }
    }
}

impl Clone for TokenKind {
    fn clone(&self) -> (c: Self)
        ensures
            c@ == self@,
    {
        match self {
            TokenKind::Policy => TokenKind::Policy,
            TokenKind::Triggers => TokenKind::Triggers,
            TokenKind::When => TokenKind::When,
            TokenKind::Requires => TokenKind::Requires,
            TokenKind::Denies => TokenKind::Denies,
            TokenKind::With => TokenKind::With,
            TokenKind::Reason => TokenKind::Reason,
            TokenKind::Where => TokenKind::Where,
            TokenKind::Metadata => TokenKind::Metadata,
            TokenKind::And => TokenKind::And,
            TokenKind::Or => TokenKind::Or,
            TokenKind::Not => TokenKind::Not,
            TokenKind::In => TokenKind::In,
            TokenKind::Eq => TokenKind::Eq,
            TokenKind::Neq => TokenKind::Neq,
            TokenKind::Lt => TokenKind::Lt,
            TokenKind::Gt => TokenKind::Gt,
            TokenKind::LtEq => TokenKind::LtEq,
            TokenKind::GtEq => TokenKind::GtEq,
            TokenKind::StringLit(s) => TokenKind::StringLit(s.clone()),
            TokenKind::IntLit(n) => TokenKind::IntLit(*n),
            TokenKind::FloatLit(f) => TokenKind::FloatLit(FloatLiteral { text: f.text.clone() }),
            TokenKind::BoolLit(b) => TokenKind::BoolLit(*b),
            TokenKind::Ident(s) => TokenKind::Ident(s.clone()),
            TokenKind::Colon => TokenKind::Colon,
            TokenKind::Comma => TokenKind::Comma,
            TokenKind::Dot => TokenKind::Dot,
            TokenKind::LParen => TokenKind::LParen,
            TokenKind::RParen => TokenKind::RParen,
            TokenKind::LBracket => TokenKind::LBracket,
            TokenKind::RBracket => TokenKind::RBracket,
            TokenKind::LBrace => TokenKind::LBrace,
            TokenKind::RBrace => TokenKind::RBrace,
            TokenKind::Newline => TokenKind::Newline,
            TokenKind::Eof => TokenKind::Eof,
            TokenKind::Error(s) => TokenKind::Error(s.clone()),
        }
    }
}

/// The text of a token kind as written.
pub open spec fn kind_text(k: KindModel) -> Seq<char> {
    match k {
        KindModel::Policy => "policy"@,
        KindModel::Triggers => "triggers"@,
        KindModel::When => "when"@,
        KindModel::Requires => "requires"@,
        KindModel::Denies => "denies"@,
        KindModel::With => "with"@,
        KindModel::Reason => "reason"@,
        KindModel::Where => "where"@,
        KindModel::Metadata => "metadata"@,
        KindModel::And => "and"@,
        KindModel::Or => "or"@,
        KindModel::Not => "not"@,
        KindModel::In => "in"@,
        KindModel::Eq => "=="@,
        KindModel::Neq => "!="@,
        KindModel::Lt => "<"@,
        KindModel::Gt => ">"@,
        KindModel::LtEq => "<="@,
        KindModel::GtEq => ">="@,
        KindModel::StringLit(s) => "\""@ + s + "\""@,
        KindModel::IntLit(n) => int_text(n as int),
        KindModel::FloatLit(t) => t,
        KindModel::BoolLit(b) => if b { "true"@ } else { "false"@ },
        KindModel::Ident(s) => s,
        KindModel::Colon => ":"@,
        KindModel::Comma => ","@,
        KindModel::Dot => "."@,
        KindModel::LParen => "("@,
        KindModel::RParen => ")"@,
        KindModel::LBracket => "["@,
        KindModel::RBracket => "]"@,
        KindModel::LBrace => "{"@,
        KindModel::RBrace => "}"@,
        KindModel::Newline => "\\n"@,
        KindModel::Eof => "EOF"@,
        KindModel::Error(m) => "Error: "@ + m,
    }
}

impl TokenKind {
    /// Whether this token is a keyword.
    pub fn is_keyword(&self) -> (b: bool)
        ensures
            b == (self is Policy || self is Triggers || self is When || self is Requires || self is Denies
                || self is With || self is Reason || self is Where || self is Metadata || self is And
                || self is Or || self is Not || self is In),
    {
        match self {
            TokenKind::Policy | TokenKind::Triggers | TokenKind::When | TokenKind::Requires
            | TokenKind::Denies | TokenKind::With | TokenKind::Reason | TokenKind::Where
            | TokenKind::Metadata | TokenKind::And | TokenKind::Or | TokenKind::Not
            | TokenKind::In => true,
            _ => false,
        }
    }

    /// Whether this token is a comparison operator.
    pub fn is_operator(&self) -> (b: bool)
        ensures
            b == (self is Eq || self is Neq || self is Lt || self is Gt || self is LtEq || self is GtEq),
    {
        match self {
            TokenKind::Eq | TokenKind::Neq | TokenKind::Lt | TokenKind::Gt | TokenKind::LtEq
            | TokenKind::GtEq => true,
            _ => false,
        }
    }

    /// Whether this token is a literal.
    pub fn is_literal(&self) -> (b: bool)
        ensures
            b == (self is StringLit || self is IntLit || self is FloatLit || self is BoolLit),
    {
        match self {
            TokenKind::StringLit(_) | TokenKind::IntLit(_) | TokenKind::FloatLit(_)
            | TokenKind::BoolLit(_) => true,
            _ => false,
        }
    }

    /// The token as written.
    pub fn to_string(&self) -> (s: String)
        ensures
            s@ == kind_text(self@),
    {
        match self {
            TokenKind::StringLit(s) => {
                let mut out = owned("\"");
                append_str(&mut out, s.as_str());
                append_str(&mut out, "\"");
                out
            },
            TokenKind::IntLit(n) => {
                let mut out = String::new();
                append_i64(&mut out, *n);
                out
            },
            TokenKind::FloatLit(f) => f.text.clone(),
            TokenKind::BoolLit(b) => if *b { owned("true") } else { owned("false") },
            TokenKind::Ident(s) => s.clone(),
            TokenKind::Error(m) => {
                let mut out = owned("Error: ");
                append_str(&mut out, m.as_str());
                out
            },
            TokenKind::Policy => owned("policy"),
            TokenKind::Triggers => owned("triggers"),
            TokenKind::When => owned("when"),
            TokenKind::Requires => owned("requires"),
            TokenKind::Denies => owned("denies"),
            TokenKind::With => owned("with"),
            TokenKind::Reason => owned("reason"),
            TokenKind::Where => owned("where"),
            TokenKind::Metadata => owned("metadata"),
            TokenKind::And => owned("and"),
            TokenKind::Or => owned("or"),
            TokenKind::Not => owned("not"),
            TokenKind::In => owned("in"),
            TokenKind::Eq => owned("=="),
            TokenKind::Neq => owned("!="),
            TokenKind::Lt => owned("<"),
            TokenKind::Gt => owned(">"),
            TokenKind::LtEq => owned("<="),
            TokenKind::GtEq => owned(">="),
            TokenKind::Colon => owned(":"),
            TokenKind::Comma => owned(","),
            TokenKind::Dot => owned("."),
            TokenKind::LParen => owned("("),
            TokenKind::RParen => owned(")"),
            TokenKind::LBracket => owned("["),
            TokenKind::RBracket => owned("]"),
            TokenKind::LBrace => owned("{"),
            TokenKind::RBrace => owned("}"),
            TokenKind::Newline => owned("\\n"),
            TokenKind::Eof => owned("EOF"),
        }
    }
}

/// A token with its position (1-based line and column).
#[derive(Debug, PartialEq)]
pub struct Token {
    /// The kind of token
    pub kind: TokenKind,
    /// The source text of the token
    pub text: String,
    /// Line number (1-indexed)
    pub line: usize,
    /// Column number (1-indexed)
    pub column: usize,
}

impl Clone for Token {
    fn clone(&self) -> (c: Self)
        ensures
            c.kind@ == self.kind@,
            c.text@ == self.text@,
            c.line == self.line,
            c.column == self.column,
    {
        Token { kind: self.kind.clone(), text: self.text.clone(), line: self.line, column: self.column }
    }
}

impl Token {
    /// A token of the given kind, text and position.
    pub fn new(kind: TokenKind, text: String, line: usize, column: usize) -> (t: Self)
        ensures
            t == (Token { kind, text, line, column }),
    {
        Token { kind, text, line, column }
    }
}

} // verus!
