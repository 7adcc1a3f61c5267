//! Front end of a small expression language: a grapheme-aware scanner, a
//! recursive-descent parser producing a span-annotated tree, and the operand
//! rules of the runtime's values.
pub mod ast;
pub mod parser;
pub mod scanner;
pub mod source;
pub mod span;
pub mod token;
pub mod value;

pub use ast::{ASTNode, BinaryExpr, Literal, Op, ParenExpr, UnaryExpr, AST};
pub use parser::{Parser, ParserError};
pub use scanner::{is_alpha, is_digit, is_whitespace, Scanner};

pub use source::Source;
pub use span::Span;
pub use token::{Token, TokenType};
pub use value::{check_binary, check_unary, concatenate, Action, Function, Operator, RuntimeError, ValueKind};
