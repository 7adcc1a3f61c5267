use crate::span::Span;
use vstd::prelude::*;

verus! {

#[derive(Clone, Copy, Debug, PartialEq, Eq, Structural)]
pub enum TokenType {
    Plus,
    Minus,
    Star,
    Slash,
    LeftParen,
    RightParen,
    Number,
    Ident,
    True,
    False,
    Error,
    Eof,
}

impl TokenType {
    pub open spec fn spec_name(self) -> Seq<char> {
        match self {
            TokenType::Plus => "Plus"@,
            TokenType::Minus => "Minus"@,
            TokenType::Star => "Star"@,
            TokenType::Slash => "Slash"@,
            TokenType::LeftParen => "LeftParen"@,
            TokenType::RightParen => "RightParen"@,
            TokenType::Number => "Number"@,
            TokenType::Ident => "Ident"@,
            TokenType::True => "True"@,
            TokenType::False => "False"@,
            TokenType::Error => "Error"@,
            TokenType::Eof => "Eof"@,
        }
    }

    /// The kind's name, as diagnostics print it.
    pub fn name(self) -> (r: &'static str)
        ensures
            r@ == self.spec_name(),
    {
        match self {
            TokenType::Plus => "Plus",
            TokenType::Minus => "Minus",
            TokenType::Star => "Star",
            TokenType::Slash => "Slash",
            TokenType::LeftParen => "LeftParen",
            TokenType::RightParen => "RightParen",
            TokenType::Number => "Number",
            TokenType::Ident => "Ident",
            TokenType::True => "True",
            TokenType::False => "False",
            TokenType::Error => "Error",
            TokenType::Eof => "Eof",
        }
    }
}

/// What a token is, for contracts: its kind, its text and its span.
pub struct TokenView {
    pub token_type: TokenType,
    pub value: Seq<char>,
    pub start: int,
    pub end: int,
}

/// A classified lexeme. For an `Error` token `value` holds the diagnostic.
#[derive(Clone, Debug, PartialEq)]
pub struct Token {
    pub token_type: TokenType,
    pub value: String,
    pub span: Span,
}

impl View for Token {
    type V = TokenView;

    open spec fn view(&self) -> TokenView {
        TokenView {
            token_type: self.token_type,
            value: self.value@,
            start: self.span.start as int,
            end: self.span.end as int,
        }
    }
}

impl Token {
    pub fn new(token_type: TokenType, value: String, span: Span) -> (r: Token)
        ensures
            r.token_type == token_type,
            r.value@ == value@,
            r.span == span,
    {
        Token { token_type, value, span }
    }
}

} // verus!
