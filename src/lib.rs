//! Front end of a small statically typed scripting language: a tokenizer that
//! classifies source text into positioned tokens, and a recursive-descent
//! parser that builds syntax trees from them.
use vstd::prelude::*;

pub mod ast;
pub mod grammar;
pub mod lexer;
pub mod parser;
pub mod token;

pub use ast::{BinOp, CondKind, DeclType, AST};
pub use grammar::ParseError;
pub use lexer::{LexError, Lexer};
pub use parser::{parse_source, Parser, SyntaxError};
pub use token::{KeywordKind, LiteralKind, Token, TokenType};

verus! {

} // verus!
