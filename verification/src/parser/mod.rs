//! Policy language front end: tokens, lexer and parser.

pub mod grammar;
pub mod parse;
pub mod lexer;
pub mod token;

pub use lexer::Lexer;
pub use parse::{ParseError, ParseResult, Parser};
pub use token::{Token, TokenKind};
