//! Lexer for the policy language: from source text to tokens with 1-based lines and columns.
//!
//! The spec functions below say what the token at a position is; the lexer follows them.

use vstd::prelude::*;
use crate::ast::nodes::FloatLiteral;
use crate::parser::token::{KindModel, Token, TokenKind};
use crate::text::{append_str, chars_of, owned, push_char, str_eq};

verus! {

/// Whether `c` has the Unicode `Alphabetic` property (`char::is_alphabetic`).
pub uninterp spec fn unicode_alphabetic(c: char) -> bool;

/// Whether `c` has a Unicode `Numeric_Type` (`char::is_numeric`).
pub uninterp spec fn unicode_numeric(c: char) -> bool;

/// `char::is_alphabetic`: whether the character has the Unicode `Alphabetic` property, as
/// std's Unicode tables say; the tables are not restated here.
#[verifier::external_body]
fn is_alphabetic(c: char) -> (b: bool)
    ensures
        b == unicode_alphabetic(c),
{
    c.is_alphabetic()
}

/// `char::is_numeric`: whether the character has a Unicode numeric type, as std's Unicode
/// tables say; the tables are not restated here.
#[verifier::external_body]
fn is_numeric(c: char) -> (b: bool)
    ensures
        b == unicode_numeric(c),
{
    c.is_numeric()
}

/// An ASCII decimal digit.
pub open spec fn is_digit(c: char) -> bool {
    '0' <= c && c <= '9'
}

/// A space, tab or carriage return.
pub open spec fn is_blank(c: char) -> bool {
    c == ' ' || c == '\t' || c == '\r'
}

/// An ASCII letter.
pub open spec fn is_ascii_letter(c: char) -> bool {
    ('a' <= c && c <= 'z') || ('A' <= c && c <= 'Z')
}

/// A character that starts an identifier or keyword: alphabetic or `_`. Among ASCII
/// characters the alphabetic ones are the letters, so those are told apart here; other
/// characters go by Unicode's `Alphabetic` property.
pub open spec fn ident_start(c: char) -> bool {
    if (c as u32) < 128 {
        is_ascii_letter(c) || c == '_'
    } else {
        unicode_alphabetic(c)
    }
}

/// A character that continues an identifier or keyword (`char::is_alphanumeric` or `_`).
/// Among ASCII characters the alphanumeric ones are the letters and digits; other
/// characters go by Unicode's properties.
pub open spec fn ident_char(c: char) -> bool {
    if (c as u32) < 128 {
        is_ascii_letter(c) || is_digit(c) || c == '_'
    } else {
        unicode_alphabetic(c) || unicode_numeric(c)
    }
}

/// Line and column after reading the first `to` characters, from line 1, column 1.
pub open spec fn lc_after(input: Seq<char>, to: int) -> (int, int)
    decreases to,
{
    if to <= 0 {
        (1, 1)
    } else {
        let (l, c) = lc_after(input, to - 1);
        if input[to - 1] == '\n' { (l + 1, 1) } else { (l, c + 1) }
    }
}

proof fn lemma_lc_bounds(input: Seq<char>, to: int)
    requires
        0 <= to,
    ensures
        1 <= lc_after(input, to).0 <= to + 1,
        1 <= lc_after(input, to).1 <= to + 1,
    decreases to,
{
    if to > 0 {
        lemma_lc_bounds(input, to - 1);
    }
}

/// The position after the blanks from `p`.
pub open spec fn skip_blanks(input: Seq<char>, p: int) -> int
    decreases input.len() - p,
{
    if 0 <= p < input.len() && is_blank(input[p]) { skip_blanks(input, p + 1) } else { p }
}

/// The position of the end of the line from `p` (the newline is not skipped).
pub open spec fn skip_line(input: Seq<char>, p: int) -> int
    decreases input.len() - p,
{
    if 0 <= p < input.len() && input[p] != '\n' { skip_line(input, p + 1) } else { p }
}

pub proof fn lemma_skip_blanks(input: Seq<char>, p: int)
    requires
        0 <= p <= input.len(),
    ensures
        p <= skip_blanks(input, p) <= input.len(),
        skip_blanks(input, skip_blanks(input, p)) == skip_blanks(input, p),
        forall|i: int| p <= i < skip_blanks(input, p) ==> is_blank(#[trigger] input[i]),
    decreases input.len() - p,
{
    if p < input.len() && is_blank(input[p]) {
        lemma_skip_blanks(input, p + 1);
    }
}

pub proof fn lemma_skip_line(input: Seq<char>, p: int)
    requires
        0 <= p <= input.len(),
    ensures
        p <= skip_line(input, p) <= input.len(),
        skip_line(input, p) < input.len() ==> input[skip_line(input, p)] == '\n',
    decreases input.len() - p,
{
    if p < input.len() && input[p] != '\n' {
        lemma_skip_line(input, p + 1);
    }
}

/// Where the token read from `p` starts: after blanks and comments (`#` to the end of the line).
pub open spec fn token_start(input: Seq<char>, p: int) -> int
    decreases input.len() - p,
{
    if p < 0 || p > input.len() {
        p
    } else {
        let q = skip_blanks(input, p);
        proof {
            lemma_skip_blanks(input, p);
        }
        if q < input.len() && input[q] == '#' {
            proof {
                lemma_skip_line(input, q);
                assert(skip_line(input, q) == skip_line(input, q + 1));
                lemma_skip_line(input, q + 1);
            }
            token_start(input, skip_line(input, q))
        } else {
            q
        }
    }
}

proof fn lemma_token_start(input: Seq<char>, p: int)
    requires
        0 <= p <= input.len(),
    ensures
        p <= token_start(input, p) <= input.len(),
    decreases input.len() - p,
{
    lemma_skip_blanks(input, p);
    let q = skip_blanks(input, p);
    if q < input.len() && input[q] == '#' {
        lemma_skip_line(input, q + 1);
        assert(skip_line(input, q) == skip_line(input, q + 1));
        lemma_token_start(input, skip_line(input, q));
    }
}

/// The contents of a string literal from `i` (after the opening quote): its value, the
/// position after it, and whether a closing quote ended it. A backslash escapes the next
/// character (`n`, `t` and `r` stand for newline, tab and carriage return); an unescaped
/// newline or the end of input leaves it unterminated.
pub open spec fn scan_str(input: Seq<char>, i: int, escaped: bool) -> (Seq<char>, int, bool)
    decreases input.len() - i,
{
    if i < 0 || i >= input.len() {
        (Seq::empty(), i, false)
    } else {
        let ch = input[i];
        if escaped {
            let r = scan_str(input, i + 1, false);
            (seq![unescape(ch)] + r.0, r.1, r.2)
        } else if ch == '\\' {
            scan_str(input, i + 1, true)
        } else if ch == '"' {
            (Seq::empty(), i + 1, true)
        } else if ch == '\n' {
            (Seq::empty(), i, false)
        } else {
            let r = scan_str(input, i + 1, false);
            (seq![ch] + r.0, r.1, r.2)
        }
    }
}

/// The character an escape sequence stands for.
pub open spec fn unescape(c: char) -> char {
    if c == 'n' {
        '\n'
    } else if c == 't' {
        '\t'
    } else if c == 'r' {
        '\r'
    } else {
        c
    }
}

proof fn lemma_scan_str(input: Seq<char>, i: int, escaped: bool)
    requires
        0 <= i <= input.len(),
    ensures
        i <= scan_str(input, i, escaped).1 <= input.len(),
    decreases input.len() - i,
{
    if i < input.len() {
        let ch = input[i];
        if escaped || ch == '\\' || (ch != '"' && ch != '\n') {
            lemma_scan_str(input, i + 1, escaped && false || (!escaped && ch == '\\'));
            lemma_scan_str(input, i + 1, false);
            lemma_scan_str(input, i + 1, true);
        }
    }
}

/// The position after the digits from `i`.
pub open spec fn digits_end(input: Seq<char>, i: int) -> int
    decreases input.len() - i,
{
    if 0 <= i < input.len() && is_digit(input[i]) { digits_end(input, i + 1) } else { i }
}

/// The position after the identifier characters from `i`.
pub open spec fn ident_end(input: Seq<char>, i: int) -> int
    decreases input.len() - i,
{
    if 0 <= i < input.len() && ident_char(input[i]) { ident_end(input, i + 1) } else { i }
}

proof fn lemma_digits_end(input: Seq<char>, i: int)
    requires
        0 <= i <= input.len(),
    ensures
        i <= digits_end(input, i) <= input.len(),
        forall|k: int| i <= k < digits_end(input, i) ==> is_digit(#[trigger] input[k]),
    decreases input.len() - i,
{
    if i < input.len() && is_digit(input[i]) {
        lemma_digits_end(input, i + 1);
    }
}

proof fn lemma_ident_end(input: Seq<char>, i: int)
    requires
        0 <= i <= input.len(),
    ensures
        i <= ident_end(input, i) <= input.len(),
    decreases input.len() - i,
{
    if i < input.len() && ident_char(input[i]) {
        lemma_ident_end(input, i + 1);
    }
}

/// The value of a string of decimal digits.
pub open spec fn decimal(s: Seq<char>) -> nat
    decreases s.len(),
{
    if s.len() == 0 {
        0
    } else {
        decimal(s.drop_last()) * 10 + ((s.last() as int - '0' as int) as nat)
    }
}

proof fn lemma_decimal_mono(s: Seq<char>, k: int)
    requires
        0 <= k <= s.len(),
        forall|i: int| 0 <= i < s.len() ==> is_digit(#[trigger] s[i]),
    ensures
        decimal(s.take(k)) <= decimal(s),
    decreases s.len() - k,
{
    if k < s.len() {
        let t = s.take(k + 1);
        assert(t.drop_last() =~= s.take(k));
        assert(forall|i: int| 0 <= i < t.len() ==> t[i] == s[i]);
        lemma_decimal_mono(s, k + 1);
    } else {
        assert(s.take(k) =~= s);
    }
}

/// The keyword, boolean literal or identifier that a word is.
pub open spec fn word_kind(w: Seq<char>) -> KindModel {
    if w == "policy"@ {
        KindModel::Policy
    } else if w == "triggers"@ {
        KindModel::Triggers
    } else if w == "when"@ {
        KindModel::When
    } else if w == "requires"@ {
        KindModel::Requires
    } else if w == "denies"@ {
        KindModel::Denies
    } else if w == "with"@ {
        KindModel::With
    } else if w == "reason"@ {
        KindModel::Reason
    } else if w == "where"@ {
        KindModel::Where
    } else if w == "metadata"@ {
        KindModel::Metadata
    } else if w == "and"@ {
        KindModel::And
    } else if w == "or"@ {
        KindModel::Or
    } else if w == "not"@ {
        KindModel::Not
    } else if w == "in"@ {
        KindModel::In
    } else if w == "true"@ {
        KindModel::BoolLit(true)
    } else if w == "false"@ {
        KindModel::BoolLit(false)
    } else {
        KindModel::Ident(w)
    }
}

/// The operator made of two characters, if they make one.
pub open spec fn two_char_op(a: char, b: char) -> Option<KindModel> {
    if a == '=' && b == '=' {
        Some(KindModel::Eq)
    } else if a == '!' && b == '=' {
        Some(KindModel::Neq)
    } else if a == '<' && b == '=' {
        Some(KindModel::LtEq)
    } else if a == '>' && b == '=' {
        Some(KindModel::GtEq)
    } else {
        None
    }
}

/// The operator or punctuation that a character is, or the error for it.
pub open spec fn one_char_kind(c: char) -> KindModel {
    if c == '<' {
        KindModel::Lt
    } else if c == '>' {
        KindModel::Gt
    } else if c == ':' {
        KindModel::Colon
    } else if c == ',' {
        KindModel::Comma
    } else if c == '.' {
        KindModel::Dot
    } else if c == '(' {
        KindModel::LParen
    } else if c == ')' {
        KindModel::RParen
    } else if c == '[' {
        KindModel::LBracket
    } else if c == ']' {
        KindModel::RBracket
    } else if c == '{' {
        KindModel::LBrace
    } else if c == '}' {
        KindModel::RBrace
    } else {
        KindModel::Error("Unexpected character: "@ + seq![c])
    }
}

/// A number from `s`: digits, then a fractional part if a `.` is followed by a digit.
/// An integer beyond `i64::MAX` is an error.
pub open spec fn lex_number(input: Seq<char>, s: int) -> (KindModel, Seq<char>, int) {
    let d = digits_end(input, s);
    if d + 1 < input.len() && input[d] == '.' && is_digit(input[d + 1]) {
        let f = digits_end(input, d + 1);
        (KindModel::FloatLit(input.subrange(s, f)), input.subrange(s, f), f)
    } else {
        let t = input.subrange(s, d);
        if decimal(t) <= i64::MAX {
            (KindModel::IntLit(decimal(t) as i64), t, d)
        } else {
            (KindModel::Error("Invalid integer literal: "@ + t), t, d)
        }
    }
}

/// The token that starts at `s`: its kind, its text and the position after it.
pub open spec fn lex_at(input: Seq<char>, s: int) -> (KindModel, Seq<char>, int) {
    if s < 0 || s >= input.len() {
        (KindModel::Eof, Seq::empty(), s)
    } else {
        let ch = input[s];
        if ch == '\n' {
            (KindModel::Newline, seq!['\n'], s + 1)
        } else if ch == '"' {
            let r = scan_str(input, s + 1, false);
            if r.2 {
                (KindModel::StringLit(r.0), seq!['"'] + r.0 + seq!['"'], r.1)
            } else {
                (KindModel::Error("Unterminated string literal"@), r.0, r.1)
            }
        } else if is_digit(ch) {
            lex_number(input, s)
        } else if ident_start(ch) {
            let e = ident_end(input, s);
            (word_kind(input.subrange(s, e)), input.subrange(s, e), e)
        } else if s + 1 < input.len() && two_char_op(ch, input[s + 1]) is Some {
            (two_char_op(ch, input[s + 1]).unwrap(), seq![ch, input[s + 1]], s + 2)
        } else {
            (one_char_kind(ch), seq![ch], s + 1)
        }
    }
}

proof fn lemma_lex_at(input: Seq<char>, s: int)
    requires
        0 <= s <= input.len(),
    ensures
        s <= lex_at(input, s).2 <= input.len(),
        s < input.len() ==> s < lex_at(input, s).2,
        lex_at(input, s).0 is Eof <==> s == input.len(),
{
    if s < input.len() {
        let ch = input[s];
        if ch == '"' {
            lemma_scan_str(input, s + 1, false);
        } else if is_digit(ch) {
            lemma_digits_end(input, s);
            lemma_digits_end(input, s + 1);
            let d = digits_end(input, s);
            if d + 1 < input.len() {
                lemma_digits_end(input, d + 1);
            }
        } else if ident_start(ch) {
            lemma_ident_end(input, s);
            lemma_ident_end(input, s + 1);
            assert(word_kind(input.subrange(s, ident_end(input, s))) !is Eof);
        }
    }
}

/// A token: kind, text and position.
pub struct TokenModel {
    pub kind: KindModel,
    pub text: Seq<char>,
    pub line: int,
    pub column: int,
}

/// A token by its model.
pub open spec fn token_model(t: Token) -> TokenModel {
    TokenModel { kind: t.kind@, text: t.text@, line: t.line as int, column: t.column as int }
}

/// The token read from position `p`, and the position after it.
pub open spec fn next_token_spec(input: Seq<char>, p: int) -> (TokenModel, int) {
    let s = token_start(input, p);
    let r = lex_at(input, s);
    (TokenModel { kind: r.0, text: r.1, line: lc_after(input, s).0, column: lc_after(input, s).1 }, r.2)
}

/// The tokens read from position `p`, up to and including the end-of-input token.
pub open spec fn tokens_from(input: Seq<char>, p: int) -> Seq<TokenModel>
    decreases input.len() - p,
{
    let (t, e) = next_token_spec(input, p);
    if t.kind is Eof || e <= p || p < 0 || e > input.len() {
        seq![t]
    } else {
        seq![t] + tokens_from(input, e)
    }
}

/// The tokens read from a position within the input are never empty and end with `Eof`,
/// and no token before the last is `Eof`.
pub proof fn lemma_tokens_end(input: Seq<char>, p: int)
    requires
        0 <= p <= input.len(),
    ensures
        tokens_from(input, p).len() > 0,
        tokens_from(input, p).last().kind is Eof,
        forall|k: int| 0 <= k < tokens_from(input, p).len() - 1 ==> !((#[trigger] tokens_from(input, p)[k]).kind is Eof),
    decreases input.len() - p,
{
    lemma_token_start(input, p);
    lemma_lex_at(input, token_start(input, p));
    let (t, e) = next_token_spec(input, p);
    if !(t.kind is Eof || e <= p || e > input.len()) {
        lemma_tokens_end(input, e);
        let rest = tokens_from(input, e);
        let all = seq![t] + rest;
        assert(all.last() == rest.last());
        assert forall|k: int| 0 <= k < all.len() - 1 implies !((#[trigger] all[k]).kind is Eof) by {
            if k > 0 {
                assert(all[k] == rest[k - 1]);
            }
        }
    }
}

/// Lexer over the characters of a source text.
pub struct Lexer {
    input: Vec<char>,
    position: usize,
    line: usize,
    column: usize,
}

proof fn lemma_subrange_push(s: Seq<char>, a: int, b: int)
    requires
        0 <= a <= b < s.len(),
    ensures
        s.subrange(a, b + 1) == s.subrange(a, b).push(s[b]),
{
    assert(s.subrange(a, b + 1) =~= s.subrange(a, b).push(s[b]));
}

/// The number of a decimal digit.
fn digit_value(c: char) -> (d: i64)
    requires
        is_digit(c),
    ensures
        d == c as int - '0' as int,
        0 <= d <= 9,
{
    (c as u32 - '0' as u32) as i64
}

/// The value of a string of decimal digits, if it fits an `i64`.
pub fn parse_decimal(digits: &str) -> (r: Option<i64>)
    requires
        forall|i: int| 0 <= i < digits@.len() ==> is_digit(#[trigger] digits@[i]),
    ensures
        decimal(digits@) <= i64::MAX ==> r == Some(decimal(digits@) as i64),
        decimal(digits@) > i64::MAX ==> r is None,
{
    let n = digits.unicode_len();
    let mut acc: i64 = 0;
    let mut i: usize = 0;
    assert(digits@.take(0) =~= Seq::<char>::empty());
    while i < n
        invariant
            n == digits@.len(),
            i <= n,
            forall|k: int| 0 <= k < digits@.len() ==> is_digit(#[trigger] digits@[k]),
            acc == decimal(digits@.take(i as int)),
        decreases n - i,
    {
        let c = digits.get_char(i);
        let d = digit_value(c);
        let ghost t = digits@.take(i + 1);
        assert(t.drop_last() =~= digits@.take(i as int));
        if acc > 922337203685477580 || (acc == 922337203685477580 && d > 7) {
            proof {
                lemma_decimal_mono(digits@, i + 1);
            }
            return None;
        }
        acc = acc * 10 + d;
        i = i + 1;
    }
    assert(digits@.take(n as int) =~= digits@);
    Some(acc)
}

impl Lexer {
    /// The characters being read.
    pub closed spec fn source(&self) -> Seq<char> {
        self.input@
    }

    /// The position of the next character to read.
    pub closed spec fn pos(&self) -> int {
        self.position as int
    }

    /// The position is within the input, and the line and column are those of the position.
    pub closed spec fn wf(&self) -> bool {
        &&& self.position <= self.input@.len()
        &&& self.input@.len() < usize::MAX
        &&& (self.line as int, self.column as int) == lc_after(self.input@, self.position as int)
    }

    /// A lexer at the start of `input`.
    pub fn new(input: &str) -> (l: Self)
        requires
            input@.len() < usize::MAX,
        ensures
            l.wf(),
            l.source() == input@,
            l.pos() == 0,
    {
        Lexer { input: chars_of(input), position: 0, line: 1, column: 1 }
    }

    /// The character at the position.
    pub fn current_char(&self) -> (c: char)
        requires
            self.pos() < self.source().len(),
        ensures
            c == self.source()[self.pos()],
    {
        self.input[self.position]
    }

    /// The character after the one at the position, if any.
    pub fn peek_char(&self) -> (c: Option<char>)
        requires
            self.wf(),
        ensures
            self.pos() + 1 < self.source().len() ==> c == Some(self.source()[self.pos() + 1]),
            self.pos() + 1 >= self.source().len() ==> c is None,
    {
        if self.position + 1 < self.input.len() {
            Some(self.input[self.position + 1])
        } else {
            None
        }
    }

    /// Whether all input has been read.
    pub fn is_at_end(&self) -> (b: bool)
        ensures
            b == (self.pos() >= self.source().len()),
    {
        self.position >= self.input.len()
    }

    /// Read one character, moving to the next line after a newline.
    pub fn advance(&mut self) -> (c: char)
        requires
            old(self).wf(),
            old(self).pos() < old(self).source().len(),
        ensures
            final(self).wf(),
            final(self).source() == old(self).source(),
            final(self).pos() == old(self).pos() + 1,
            c == old(self).source()[old(self).pos()],
    {
        proof { lemma_lc_bounds(self.input@, self.position as int); }
        let ch = self.input[self.position];
        self.position = self.position + 1;
        if ch == '\n' {
            self.line = self.line + 1;
            self.column = 1;
        } else {
            self.column = self.column + 1;
        }
        ch
    }

    /// Skip spaces, tabs and carriage returns.
    pub fn skip_whitespace(&mut self)
        requires
            old(self).wf(),
        ensures
            final(self).wf(),
            final(self).source() == old(self).source(),
            final(self).pos() == skip_blanks(old(self).source(), old(self).pos()),
    {
        let ghost p0 = self.pos();
        while !self.is_at_end() && is_blank_char(self.current_char())
            invariant
                self.wf(),
                self.source() == old(self).source(),
                p0 == old(self).pos(),
                p0 <= self.pos(),
                skip_blanks(self.source(), p0) == skip_blanks(self.source(), self.pos()),
            decreases self.source().len() - self.pos(),
        {
            self.advance();
        }
    }

    /// Skip to the end of the line.
    pub fn skip_comment(&mut self)
        requires
            old(self).wf(),
        ensures
            final(self).wf(),
            final(self).source() == old(self).source(),
            final(self).pos() == skip_line(old(self).source(), old(self).pos()),
    {
        let ghost p0 = self.pos();
        while !self.is_at_end() && self.current_char() != '\n'
            invariant
                self.wf(),
                self.source() == old(self).source(),
                p0 == old(self).pos(),
                skip_line(self.source(), p0) == skip_line(self.source(), self.pos()),
            decreases self.source().len() - self.pos(),
        {
            self.advance();
        }
    }
}

fn is_blank_char(c: char) -> (b: bool)
    ensures
        b == is_blank(c),
{
    c == ' ' || c == '\t' || c == '\r'
}

impl Lexer {
    fn lex_string(&mut self) -> (t: Token)
        requires
            old(self).wf(),
            old(self).pos() < old(self).source().len(),
            old(self).source()[old(self).pos()] == '"',
        ensures
            final(self).wf(),
            final(self).source() == old(self).source(),
            t.kind@ == lex_at(old(self).source(), old(self).pos()).0,
            t.text@ == lex_at(old(self).source(), old(self).pos()).1,
            final(self).pos() == lex_at(old(self).source(), old(self).pos()).2,
            (t.line as int, t.column as int) == lc_after(old(self).source(), old(self).pos()),
    {
        let start_line = self.line;
        let start_column = self.column;
        let ghost input = self.source();
        let ghost r0 = scan_str(input, self.pos() + 1, false);
        self.advance();
        let mut value = String::new();
        let mut escaped = false;
        while !self.is_at_end()
            invariant
                self.wf(),
                self.source() == input,
                input == old(self).source(),
                start_line as int == lc_after(input, old(self).pos()).0,
                start_column as int == lc_after(input, old(self).pos()).1,
                r0 == scan_str(input, old(self).pos() + 1, false),
                value@ + scan_str(input, self.pos(), escaped).0 == r0.0,
                scan_str(input, self.pos(), escaped).1 == r0.1,
                scan_str(input, self.pos(), escaped).2 == r0.2,
                input[old(self).pos()] == '"',
                0 <= old(self).pos() < input.len(),
            decreases input.len() - self.pos(),
        {
            let ch = self.current_char();
            if escaped {
                let e = if ch == 'n' {
                    '\n'
                } else if ch == 't' {
                    '\t'
                } else if ch == 'r' {
                    '\r'
                } else {
                    ch
                };
                let ghost v0 = value@;
                push_char(&mut value, e);
                assert(value@ + scan_str(input, self.pos() + 1, false).0 =~= v0 + (seq![unescape(ch)] + scan_str(input, self.pos() + 1, false).0));
                escaped = false;
                self.advance();
            } else if ch == '\\' {
                escaped = true;
                self.advance();
            } else if ch == '"' {
                self.advance();
                let mut text = owned("\"");
                append_str(&mut text, value.as_str());
                append_str(&mut text, "\"");
                proof {
                    assert(value@ =~= r0.0);
                    assert("\""@ =~= seq!['"']) by {
                        reveal_strlit("\"");
                    }
                }
                return Token::new(TokenKind::StringLit(value), text, start_line, start_column);
            } else if ch == '\n' {
                assert(value@ =~= r0.0);
                return Token::new(TokenKind::Error(owned("Unterminated string literal")), value, start_line, start_column);
            } else {
                let ghost v0 = value@;
                push_char(&mut value, ch);
                assert(value@ + scan_str(input, self.pos() + 1, false).0 =~= v0 + (seq![ch] + scan_str(input, self.pos() + 1, false).0));
                self.advance();
            }
        }
        assert(value@ =~= r0.0);
        Token::new(TokenKind::Error(owned("Unterminated string literal")), value, start_line, start_column)
    }

    fn lex_number(&mut self) -> (t: Token)
        requires
            old(self).wf(),
            old(self).pos() < old(self).source().len(),
            is_digit(old(self).source()[old(self).pos()]),
        ensures
            final(self).wf(),
            final(self).source() == old(self).source(),
            t.kind@ == lex_at(old(self).source(), old(self).pos()).0,
            t.text@ == lex_at(old(self).source(), old(self).pos()).1,
            final(self).pos() == lex_at(old(self).source(), old(self).pos()).2,
            (t.line as int, t.column as int) == lc_after(old(self).source(), old(self).pos()),
    {
        let start_line = self.line;
        let start_column = self.column;
        let ghost input = self.source();
        let ghost s0 = self.pos();
        let mut number_str = String::new();
        let mut is_float = false;
        proof { lemma_digits_end(input, s0); }
        while !self.is_at_end() && is_digit_char(self.current_char())
            invariant
                self.wf(),
                self.source() == input,
                0 <= s0 <= self.pos() <= input.len(),
                number_str@ == input.subrange(s0, self.pos()),
                digits_end(input, s0) == digits_end(input, self.pos()),
            decreases input.len() - self.pos(),
        {
            let ghost p = self.pos();
            assert(s0 <= p);
            assert(p < input.len());
            let c = self.advance();
            push_char(&mut number_str, c);
            proof { lemma_subrange_push(input, s0, p); }
            assert(number_str@ =~= input.subrange(s0, self.pos()));
        }
        let ghost d = self.pos();
        if !self.is_at_end() && self.current_char() == '.' {
            match self.peek_char() {
                Some(next_ch) => {
                    if is_digit_char(next_ch) {
                        is_float = true;
                        let ghost p = self.pos();
                        let c = self.advance();
                        push_char(&mut number_str, c);
                        proof { lemma_subrange_push(input, s0, p); }
                        assert(number_str@ =~= input.subrange(s0, self.pos()));
                        while !self.is_at_end() && is_digit_char(self.current_char())
                            invariant
                                self.wf(),
                                self.source() == input,
                                0 <= s0 <= self.pos() <= input.len(),
                                number_str@ == input.subrange(s0, self.pos()),
                                digits_end(input, d + 1) == digits_end(input, self.pos()),
                            decreases input.len() - self.pos(),
                        {
                            let ghost p = self.pos();
                            let c = self.advance();
                            push_char(&mut number_str, c);
                            proof { lemma_subrange_push(input, s0, p); }
                            assert(number_str@ =~= input.subrange(s0, self.pos()));
                        }
                    }
                },
                None => {},
            }
        }
        if is_float {
            let text = number_str.clone();
            Token::new(TokenKind::FloatLit(FloatLiteral { text: number_str }), text, start_line, start_column)
        } else {
            proof {
                assert forall|i: int| 0 <= i < number_str@.len() implies is_digit(#[trigger] number_str@[i]) by {
                    assert(number_str@[i] == input[s0 + i]);
                }
            }
            match parse_decimal(number_str.as_str()) {
                Some(n) => Token::new(TokenKind::IntLit(n), number_str, start_line, start_column),
                None => {
                    let mut msg = owned("Invalid integer literal: ");
                    append_str(&mut msg, number_str.as_str());
                    Token::new(TokenKind::Error(msg), number_str, start_line, start_column)
                },
            }
        }
    }

    fn lex_identifier_or_keyword(&mut self) -> (t: Token)
        requires
            old(self).wf(),
            old(self).pos() < old(self).source().len(),
            ident_start(old(self).source()[old(self).pos()]),
            !is_digit(old(self).source()[old(self).pos()]),
            old(self).source()[old(self).pos()] != '"',
            old(self).source()[old(self).pos()] != '\n',
        ensures
            final(self).wf(),
            final(self).source() == old(self).source(),
            t.kind@ == lex_at(old(self).source(), old(self).pos()).0,
            t.text@ == lex_at(old(self).source(), old(self).pos()).1,
            final(self).pos() == lex_at(old(self).source(), old(self).pos()).2,
            (t.line as int, t.column as int) == lc_after(old(self).source(), old(self).pos()),
    {
        let start_line = self.line;
        let start_column = self.column;
        let ghost input = self.source();
        let ghost s0 = self.pos();
        let mut ident = String::new();
        while !self.is_at_end() && is_ident_char(self.current_char())
            invariant
                self.wf(),
                self.source() == input,
                0 <= s0 <= self.pos() <= input.len(),
                ident@ == input.subrange(s0, self.pos()),
                ident_end(input, s0) == ident_end(input, self.pos()),
            decreases input.len() - self.pos(),
        {
            let ghost p = self.pos();
            let c = self.advance();
            push_char(&mut ident, c);
            proof { lemma_subrange_push(input, s0, p); }
            assert(ident@ =~= input.subrange(s0, self.pos()));
        }
        let w = ident.as_str();
        let kind = if str_eq(w, "policy") {
            TokenKind::Policy
        } else if str_eq(w, "triggers") {
            TokenKind::Triggers
        } else if str_eq(w, "when") {
            TokenKind::When
        } else if str_eq(w, "requires") {
            TokenKind::Requires
        } else if str_eq(w, "denies") {
            TokenKind::Denies
        } else if str_eq(w, "with") {
            TokenKind::With
        } else if str_eq(w, "reason") {
            TokenKind::Reason
        } else if str_eq(w, "where") {
            TokenKind::Where
        } else if str_eq(w, "metadata") {
            TokenKind::Metadata
        } else if str_eq(w, "and") {
            TokenKind::And
        } else if str_eq(w, "or") {
            TokenKind::Or
        } else if str_eq(w, "not") {
            TokenKind::Not
        } else if str_eq(w, "in") {
            TokenKind::In
        } else if str_eq(w, "true") {
            TokenKind::BoolLit(true)
        } else if str_eq(w, "false") {
            TokenKind::BoolLit(false)
        } else {
            TokenKind::Ident(ident.clone())
        };
        Token::new(kind, ident, start_line, start_column)
    }

    fn lex_operator_or_punctuation(&mut self) -> (t: Token)
        requires
            old(self).wf(),
            old(self).pos() < old(self).source().len(),
            !ident_start(old(self).source()[old(self).pos()]),
            !is_digit(old(self).source()[old(self).pos()]),
            old(self).source()[old(self).pos()] != '"',
            old(self).source()[old(self).pos()] != '\n',
        ensures
            final(self).wf(),
            final(self).source() == old(self).source(),
            t.kind@ == lex_at(old(self).source(), old(self).pos()).0,
            t.text@ == lex_at(old(self).source(), old(self).pos()).1,
            final(self).pos() == lex_at(old(self).source(), old(self).pos()).2,
            (t.line as int, t.column as int) == lc_after(old(self).source(), old(self).pos()),
    {
        let start_line = self.line;
        let start_column = self.column;
        let ch = self.advance();
        if !self.is_at_end() {
            let next_ch = self.current_char();
            let kind = if ch == '=' && next_ch == '=' {
                Some(TokenKind::Eq)
            } else if ch == '!' && next_ch == '=' {
                Some(TokenKind::Neq)
            } else if ch == '<' && next_ch == '=' {
                Some(TokenKind::LtEq)
            } else if ch == '>' && next_ch == '=' {
                Some(TokenKind::GtEq)
            } else {
                None
            };
            match kind {
                Some(k) => {
                    self.advance();
                    let mut text = String::new();
                    push_char(&mut text, ch);
                    push_char(&mut text, next_ch);
                    assert(text@ =~= seq![ch, next_ch]);
                    return Token::new(k, text, start_line, start_column);
                },
                None => {},
            }
        }
        let kind = if ch == '<' {
            TokenKind::Lt
        } else if ch == '>' {
            TokenKind::Gt
        } else if ch == ':' {
            TokenKind::Colon
        } else if ch == ',' {
            TokenKind::Comma
        } else if ch == '.' {
            TokenKind::Dot
        } else if ch == '(' {
            TokenKind::LParen
        } else if ch == ')' {
            TokenKind::RParen
        } else if ch == '[' {
            TokenKind::LBracket
        } else if ch == ']' {
            TokenKind::RBracket
        } else if ch == '{' {
            TokenKind::LBrace
        } else if ch == '}' {
            TokenKind::RBrace
        } else {
            let mut msg = owned("Unexpected character: ");
            push_char(&mut msg, ch);
            assert(msg@ =~= "Unexpected character: "@ + seq![ch]);
            TokenKind::Error(msg)
        };
        let mut text = String::new();
        push_char(&mut text, ch);
        assert(text@ =~= seq![ch]);
        Token::new(kind, text, start_line, start_column)
    }

    /// The next token, after blanks and comments; at the end of input, `Eof`.
    pub fn next_token(&mut self) -> (t: Token)
        requires
            old(self).wf(),
        ensures
            final(self).wf(),
            final(self).source() == old(self).source(),
            token_model(t) == next_token_spec(old(self).source(), old(self).pos()).0,
            final(self).pos() == next_token_spec(old(self).source(), old(self).pos()).1,
    {
        let ghost input = self.source();
        let ghost p0 = self.pos();
        proof { lemma_skip_blanks(input, p0); }
        self.skip_whitespace();
        proof { lemma_skip_blanks(input, self.pos()); }
        while !self.is_at_end() && self.current_char() == '#'
            invariant
                self.wf(),
                self.source() == input,
                input == old(self).source(),
                p0 == old(self).pos(),
                token_start(input, p0) == token_start(input, self.pos()),
                skip_blanks(input, self.pos()) == self.pos(),
            decreases input.len() - self.pos(),
        {
            let ghost q = self.pos();
            proof {
                lemma_skip_line(input, q + 1);
                assert(skip_line(input, q) == skip_line(input, q + 1));
            }
            self.skip_comment();
            let ghost q1 = self.pos();
            proof { lemma_skip_blanks(input, q1); }
            self.skip_whitespace();
            proof { lemma_skip_blanks(input, self.pos()); }
        }
        let ghost s = self.pos();
        assert(token_start(input, p0) == s);
        let start_line = self.line;
        let start_column = self.column;
        if self.is_at_end() {
            return Token::new(TokenKind::Eof, String::new(), start_line, start_column);
        }
        let ch = self.current_char();
        if ch == '\n' {
            self.advance();
            let mut text = String::new();
            push_char(&mut text, '\n');
            assert(text@ =~= seq!['\n']);
            return Token::new(TokenKind::Newline, text, start_line, start_column);
        }
        if ch == '"' {
            return self.lex_string();
        }
        if is_digit_char(ch) {
            return self.lex_number();
        }
        if is_ident_start(ch) {
            return self.lex_identifier_or_keyword();
        }
        self.lex_operator_or_punctuation()
    }

    /// All tokens from the position, ending with `Eof`.
    pub fn tokenize(&mut self) -> (tokens: Vec<Token>)
        requires
            old(self).wf(),
        ensures
            final(self).wf(),
            final(self).source() == old(self).source(),
            tokens@.map_values(|t: Token| token_model(t)) == tokens_from(old(self).source(), old(self).pos()),
    {
        let ghost input = self.source();
        let ghost p0 = self.pos();
        let mut tokens: Vec<Token> = Vec::new();
        let mut done = false;
        while !done
            invariant
                self.wf(),
                self.source() == input,
                input == old(self).source(),
                p0 == old(self).pos(),
                tokens@.map_values(|t: Token| token_model(t)) + (if done { Seq::empty() } else { tokens_from(input, self.pos()) })
                    == tokens_from(input, p0),
            decreases input.len() - self.pos() + (if done { 0int } else { 1int }),
        {
            let ghost p = self.pos();
            proof {
                lemma_token_start(input, p);
                lemma_lex_at(input, token_start(input, p));
            }
            let t = self.next_token();
            let is_eof = match t.kind {
                TokenKind::Eof => true,
                _ => false,
            };
            let ghost before = tokens@;
            tokens.push(t);
            proof {
                let m = tokens@.map_values(|t: Token| token_model(t));
                assert(m =~= before.map_values(|t: Token| token_model(t)).push(token_model(tokens@.last())));
            }
            if is_eof {
                done = true;
            }
        }
        tokens
    }
}

fn is_digit_char(c: char) -> (b: bool)
    ensures
        b == is_digit(c),
{
    '0' <= c && c <= '9'
}

fn is_ident_char(c: char) -> (b: bool)
    ensures
        b == ident_char(c),
{
    if (c as u32) < 128 {
        ('a' <= c && c <= 'z') || ('A' <= c && c <= 'Z') || ('0' <= c && c <= '9') || c == '_'
    } else {
        is_alphabetic(c) || is_numeric(c)
    }
}

fn is_ident_start(c: char) -> (b: bool)
    ensures
        b == ident_start(c),
{
    if (c as u32) < 128 {
        ('a' <= c && c <= 'z') || ('A' <= c && c <= 'Z') || c == '_'
    } else {
        is_alphabetic(c)
    }
}

} // verus!
