use ipe_core::ast::nodes::FloatLiteral;
use ipe_core::parser::lexer::{parse_decimal, Lexer};
use ipe_core::parser::token::{Token, TokenKind};

fn token_kinds(tokens: &[Token]) -> Vec<TokenKind> {
    tokens.iter().map(|t| t.kind.clone()).collect()
}

#[test]
fn test_empty_input() {
    let tokens = Lexer::new("").tokenize();
    assert_eq!(tokens.len(), 1);
    assert_eq!(tokens[0].kind, TokenKind::Eof);
}

#[test]
fn test_keywords() {
    let mut lexer = Lexer::new("policy triggers when requires denies with reason where metadata and or not in");
    let expected = vec![
        TokenKind::Policy, TokenKind::Triggers, TokenKind::When, TokenKind::Requires, TokenKind::Denies,
        TokenKind::With, TokenKind::Reason, TokenKind::Where, TokenKind::Metadata, TokenKind::And,
        TokenKind::Or, TokenKind::Not, TokenKind::In, TokenKind::Eof,
    ];
    assert_eq!(token_kinds(&lexer.tokenize()), expected);
}

#[test]
fn test_operators() {
    let mut lexer = Lexer::new("== != < > <= >=");
    let expected = vec![TokenKind::Eq, TokenKind::Neq, TokenKind::Lt, TokenKind::Gt, TokenKind::LtEq, TokenKind::GtEq, TokenKind::Eof];
    assert_eq!(token_kinds(&lexer.tokenize()), expected);
}

#[test]
fn test_punctuation() {
    let mut lexer = Lexer::new(": , . ( ) [ ] { }");
    let expected = vec![
        TokenKind::Colon, TokenKind::Comma, TokenKind::Dot, TokenKind::LParen, TokenKind::RParen,
        TokenKind::LBracket, TokenKind::RBracket, TokenKind::LBrace, TokenKind::RBrace, TokenKind::Eof,
    ];
    assert_eq!(token_kinds(&lexer.tokenize()), expected);
}

#[test]
fn test_string_literals() {
    let tokens = Lexer::new(r#""hello" "world with spaces" "escaped\"quote""#).tokenize();
    assert_eq!(tokens[0].kind, TokenKind::StringLit("hello".to_string()));
    assert_eq!(tokens[1].kind, TokenKind::StringLit("world with spaces".to_string()));
    assert_eq!(tokens[2].kind, TokenKind::StringLit("escaped\"quote".to_string()));
    assert_eq!(tokens[0].text, "\"hello\"");
}

#[test]
fn test_string_escape_sequences() {
    let tokens = Lexer::new(r#""line1\nline2" "tab\there" "backslash\\""#).tokenize();
    assert_eq!(tokens[0].kind, TokenKind::StringLit("line1\nline2".to_string()));
    assert_eq!(tokens[1].kind, TokenKind::StringLit("tab\there".to_string()));
    assert_eq!(tokens[2].kind, TokenKind::StringLit("backslash\\".to_string()));
}

#[test]
fn test_unterminated_string() {
    let tokens = Lexer::new("\"unterminated").tokenize();
    match &tokens[0].kind {
        TokenKind::Error(msg) => assert!(msg.contains("Unterminated")),
        _ => panic!("Expected error token"),
    }
}

#[test]
fn test_integer_literals() {
    let tokens = Lexer::new("0 42 12345 999").tokenize();
    assert_eq!(tokens[0].kind, TokenKind::IntLit(0));
    assert_eq!(tokens[1].kind, TokenKind::IntLit(42));
    assert_eq!(tokens[2].kind, TokenKind::IntLit(12345));
    assert_eq!(tokens[3].kind, TokenKind::IntLit(999));
}

#[test]
fn test_integer_overflow_is_error() {
    let tokens = Lexer::new("9223372036854775807 9223372036854775808").tokenize();
    assert_eq!(tokens[0].kind, TokenKind::IntLit(i64::MAX));
    assert_eq!(tokens[1].kind, TokenKind::Error("Invalid integer literal: 9223372036854775808".to_string()));
    assert_eq!(parse_decimal("00123"), Some(123));
}

#[test]
fn test_float_literals() {
    let tokens = Lexer::new("3.14 0.5 42.0 123.456").tokenize();
    assert_eq!(tokens[0].kind, TokenKind::FloatLit(FloatLiteral::new("3.14")));
    assert_eq!(tokens[1].kind, TokenKind::FloatLit(FloatLiteral::new("0.5")));
    assert_eq!(tokens[2].kind, TokenKind::FloatLit(FloatLiteral::new("42.0")));
    assert_eq!(tokens[3].kind, TokenKind::FloatLit(FloatLiteral::new("123.456")));
}

#[test]
fn test_boolean_literals() {
    let tokens = Lexer::new("true false").tokenize();
    assert_eq!(tokens[0].kind, TokenKind::BoolLit(true));
    assert_eq!(tokens[1].kind, TokenKind::BoolLit(false));
}

#[test]
fn test_identifiers() {
    let tokens = Lexer::new("foo bar_baz myVar_123 _private").tokenize();
    assert_eq!(tokens[0].kind, TokenKind::Ident("foo".to_string()));
    assert_eq!(tokens[1].kind, TokenKind::Ident("bar_baz".to_string()));
    assert_eq!(tokens[2].kind, TokenKind::Ident("myVar_123".to_string()));
    assert_eq!(tokens[3].kind, TokenKind::Ident("_private".to_string()));
}

#[test]
fn test_comments() {
    let tokens = Lexer::new("policy # this is a comment\nrequires").tokenize();
    assert_eq!(tokens[0].kind, TokenKind::Policy);
    assert_eq!(tokens[1].kind, TokenKind::Newline);
    assert_eq!(tokens[2].kind, TokenKind::Requires);
}

#[test]
fn test_newlines() {
    let tokens = Lexer::new("policy\nrequires\n\ndenies").tokenize();
    assert_eq!(tokens[0].kind, TokenKind::Policy);
    assert_eq!(tokens[1].kind, TokenKind::Newline);
    assert_eq!(tokens[2].kind, TokenKind::Requires);
    assert_eq!(tokens[3].kind, TokenKind::Newline);
    assert_eq!(tokens[4].kind, TokenKind::Newline);
    assert_eq!(tokens[5].kind, TokenKind::Denies);
}

#[test]
fn test_position_tracking() {
    let tokens = Lexer::new("policy\n  requires").tokenize();
    assert_eq!(tokens[0].line, 1);
    assert_eq!(tokens[0].column, 1);
    assert_eq!(tokens[1].line, 1);
    assert_eq!(tokens[1].column, 7);
    assert_eq!(tokens[2].line, 2);
    assert_eq!(tokens[2].column, 3);
}

#[test]
fn test_unexpected_character() {
    let tokens = Lexer::new("@").tokenize();
    assert_eq!(tokens[0].kind, TokenKind::Error("Unexpected character: @".to_string()));
    assert_eq!(tokens[0].text, "@");
}

#[test]
fn test_whitespace_handling() {
    let tokens = Lexer::new("  policy  \t  requires  ").tokenize();
    assert_eq!(tokens.len(), 3);
    assert_eq!(tokens[0].kind, TokenKind::Policy);
    assert_eq!(tokens[1].kind, TokenKind::Requires);
}

#[test]
fn test_token_creation() {
    let token = Token::new(TokenKind::Policy, "policy".to_string(), 1, 1);
    assert_eq!(token.kind, TokenKind::Policy);
    assert_eq!(token.text, "policy");
    assert_eq!(token.line, 1);
    assert_eq!(token.column, 1);
}

#[test]
fn test_token_kind_predicates() {
    assert!(TokenKind::Policy.is_keyword());
    assert!(!TokenKind::Eq.is_keyword());
    assert!(TokenKind::Eq.is_operator());
    assert!(!TokenKind::Colon.is_operator());
    assert!(TokenKind::IntLit(42).is_literal());
    assert!(!TokenKind::Ident("foo".to_string()).is_literal());
}

#[test]
fn test_token_kind_display() {
    assert_eq!(TokenKind::Policy.to_string(), "policy");
    assert_eq!(TokenKind::Eq.to_string(), "==");
    assert_eq!(TokenKind::StringLit("test".to_string()).to_string(), "\"test\"");
    assert_eq!(TokenKind::IntLit(42).to_string(), "42");
    assert_eq!(TokenKind::IntLit(-7).to_string(), "-7");
}

#[test]
fn test_complex_expression() {
    let input = r#"resource.type == "Deployment" and count >= 2"#;
    let mut lexer = Lexer::new(input);
    let tokens = lexer.tokenize();

    let expected = vec![
        TokenKind::Ident("resource".to_string()),
        TokenKind::Dot,
        TokenKind::Ident("type".to_string()),
        TokenKind::Eq,
        TokenKind::StringLit("Deployment".to_string()),
        TokenKind::And,
        TokenKind::Ident("count".to_string()),
        TokenKind::GtEq,
        TokenKind::IntLit(2),
        TokenKind::Eof,
    ];

    assert_eq!(token_kinds(&tokens), expected);
}

#[test]
fn test_rfc_example_snippet() {
    let input = r#"policy RequireApproval:
  "Production deployments need 2+ approvals"

  triggers when
resource.type == "Deployment""#;

    let mut lexer = Lexer::new(input);
    let tokens = lexer.tokenize();

    // Verify key tokens are present
    assert!(tokens.iter().any(|t| t.kind == TokenKind::Policy));
    assert!(tokens.iter().any(|t| t.kind == TokenKind::Ident("RequireApproval".to_string())));
    assert!(tokens.iter().any(|t| t.kind == TokenKind::Colon));
    assert!(tokens.iter().any(|t| matches!(t.kind, TokenKind::StringLit(_))));
    assert!(tokens.iter().any(|t| t.kind == TokenKind::Triggers));
    assert!(tokens.iter().any(|t| t.kind == TokenKind::When));
}

#[test]
fn lexer_test_whitespace_handling() {
    let input = "policy   \t  requires";
    let mut lexer = Lexer::new(input);
    let tokens = lexer.tokenize();

    assert_eq!(tokens.len(), 3); // policy, requires, EOF
    assert_eq!(tokens[0].kind, TokenKind::Policy);
    assert_eq!(tokens[1].kind, TokenKind::Requires);
}

#[test]
fn test_array_syntax() {
    let input = r#"["production", "staging"]"#;
    let mut lexer = Lexer::new(input);
    let tokens = lexer.tokenize();

    let expected = vec![
        TokenKind::LBracket,
        TokenKind::StringLit("production".to_string()),
        TokenKind::Comma,
        TokenKind::StringLit("staging".to_string()),
        TokenKind::RBracket,
        TokenKind::Eof,
    ];

    assert_eq!(token_kinds(&tokens), expected);
}

#[test]
fn test_metadata_block() {
    let input = "metadata\n  severity: critical";
    let mut lexer = Lexer::new(input);
    let tokens = lexer.tokenize();

    assert!(tokens.iter().any(|t| t.kind == TokenKind::Metadata));
    assert!(tokens.iter().any(|t| t.kind == TokenKind::Ident("severity".to_string())));
    assert!(tokens.iter().any(|t| t.kind == TokenKind::Colon));
    assert!(tokens.iter().any(|t| t.kind == TokenKind::Ident("critical".to_string())));
}

#[test]
fn test_error_unexpected_character() {
    let input = "policy @ requires";
    let mut lexer = Lexer::new(input);
    let tokens = lexer.tokenize();

    assert_eq!(tokens[0].kind, TokenKind::Policy);
    match &tokens[1].kind {
        TokenKind::Error(msg) => assert!(msg.contains("Unexpected character")),
        _ => panic!("Expected error token"),
    }
}

#[test]
fn test_dot_not_part_of_number() {
    let input = "42.field";
    let mut lexer = Lexer::new(input);
    let tokens = lexer.tokenize();

    // Should be: 42 . field
    assert_eq!(tokens[0].kind, TokenKind::IntLit(42));
    assert_eq!(tokens[1].kind, TokenKind::Dot);
    assert_eq!(tokens[2].kind, TokenKind::Ident("field".to_string()));
}

#[test]
fn test_string_with_newline() {
    let input = "\"line1\nline2\"";
    let mut lexer = Lexer::new(input);
    let token = lexer.next_token();

    match token.kind {
        TokenKind::Error(msg) => assert!(msg.contains("Unterminated")),
        _ => panic!("Expected error for string with newline"),
    }
}

#[test]
fn test_number_overflow() {
    // Test a number that's too large for i64
    let input = "99999999999999999999999999999";
    let mut lexer = Lexer::new(input);
    let token = lexer.next_token();

    match token.kind {
        TokenKind::Error(msg) => assert!(msg.contains("Invalid integer")),
        _ => panic!("Expected error for integer overflow"),
    }
}

#[test]
fn test_float_with_large_exponent() {
    // This will parse as an identifier since 'e' makes it non-numeric
    let input = "1e99999999999999999999";
    let mut lexer = Lexer::new(input);
    let tokens = lexer.tokenize();

    // Should be parsed as: 1 e99999999999999999999
    assert_eq!(tokens[0].kind, TokenKind::IntLit(1));
    assert!(matches!(tokens[1].kind, TokenKind::Ident(_)));
}

#[test]
fn test_multiple_errors() {
    let input = "@ $ %";
    let mut lexer = Lexer::new(input);
    let tokens = lexer.tokenize();

    // Should have 3 errors
    let error_count = tokens.iter().filter(|t| matches!(t.kind, TokenKind::Error(_))).count();
    assert_eq!(error_count, 3);
}

#[test]
fn test_mixed_operators() {
    let input = "< > <= >= == !=";
    let mut lexer = Lexer::new(input);
    let tokens = lexer.tokenize();

    let expected = vec![
        TokenKind::Lt,
        TokenKind::Gt,
        TokenKind::LtEq,
        TokenKind::GtEq,
        TokenKind::Eq,
        TokenKind::Neq,
        TokenKind::Eof,
    ];

    assert_eq!(token_kinds(&tokens), expected);
}

#[test]
fn test_edge_case_dot_at_end() {
    let input = "42.";
    let mut lexer = Lexer::new(input);
    let tokens = lexer.tokenize();

    // Should be: 42 .
    assert_eq!(tokens[0].kind, TokenKind::IntLit(42));
    assert_eq!(tokens[1].kind, TokenKind::Dot);
}

#[test]
fn test_multiple_newlines_in_row() {
    let input = "\n\n\n";
    let mut lexer = Lexer::new(input);
    let tokens = lexer.tokenize();

    // Should have 3 newlines + EOF
    let newline_count = tokens.iter().filter(|t| t.kind == TokenKind::Newline).count();
    assert_eq!(newline_count, 3);
}

#[test]
fn test_comment_at_end_of_file() {
    let input = "policy # comment";
    let mut lexer = Lexer::new(input);
    let tokens = lexer.tokenize();

    assert_eq!(tokens[0].kind, TokenKind::Policy);
    assert_eq!(tokens[1].kind, TokenKind::Eof);
}

#[test]
fn test_all_escape_sequences() {
    let input = "\"\\n\\t\\r\\\\\\\"\"";
    let mut lexer = Lexer::new(input);
    let token = lexer.next_token();

    assert_eq!(token.kind, TokenKind::StringLit("\n\t\r\\\"".to_string()));
}

#[test]
fn test_underscore_identifier() {
    let input = "_ _x x_";
    let mut lexer = Lexer::new(input);
    let tokens = lexer.tokenize();

    assert_eq!(tokens[0].kind, TokenKind::Ident("_".to_string()));
    assert_eq!(tokens[1].kind, TokenKind::Ident("_x".to_string()));
    assert_eq!(tokens[2].kind, TokenKind::Ident("x_".to_string()));
}

#[test]
fn test_zero_float() {
    let input = "0.0";
    let mut lexer = Lexer::new(input);
    let token = lexer.next_token();

    assert_eq!(token.kind, TokenKind::FloatLit(FloatLiteral::new("0.0")));
}

#[test]
fn test_carriage_return_handling() {
    let input = "policy\r\nrequires";
    let mut lexer = Lexer::new(input);
    let tokens = lexer.tokenize();

    // \r is whitespace, \n is newline
    assert_eq!(tokens[0].kind, TokenKind::Policy);
    assert_eq!(tokens[1].kind, TokenKind::Newline);
    assert_eq!(tokens[2].kind, TokenKind::Requires);
}

#[test]
fn empty_input_gives_only_eof_at_line_one_column_one() {
    let tokens = Lexer::new("").tokenize();
    assert_eq!(tokens.len(), 1);
    assert_eq!(tokens[0].kind, TokenKind::Eof);
    assert_eq!(tokens[0].text, "");
    assert_eq!(tokens[0].line, 1);
    assert_eq!(tokens[0].column, 1);
}
