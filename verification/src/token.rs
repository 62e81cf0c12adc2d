//! Lexical tokens as a tokenizer hands them over. The evaluation core only
//! reads them.

use vstd::prelude::*;
use vstd::string::*;
use crate::number::{number_of, Number};

verus! {

/// Kind of a lexical token.
#[derive(Clone, Copy, Debug, PartialEq, Eq, Structural)]
pub enum TokenType {
    LeftParen,
    RightParen,
    LeftBrace,
    RightBrace,
    Comma,
    Dot,
    Minus,
    Plus,
    Semicolon,
    Slash,
    Star,
    Bang,
    BangEqual,
    Equal,
    EqualEqual,
    Greater,
    GreaterEqual,
    Less,
    LessEqual,
    Identifier,
    StringLit,
    Number,
    And,
    Class,
    Else,
    False,
    Fun,
    For,
    If,
    Nil,
    Or,
    Print,
    Return,
    Super,
    This,
    True,
    Var,
    While,
    Eof,
}

/// Literal payload of a token.
#[derive(Debug)]
pub enum TokenLiteral {
    IntValue(i64),
    FValue(Number),
    StringValue(String),
    IdentifierVal(String),
}

/// A token: its kind, its text, its literal payload if it has one, and the
/// source line it came from.
#[derive(Debug)]
pub struct Token {
    pub token_type: TokenType,
    pub lexeme: String,
    pub literal: Option<TokenLiteral>,
    pub line_number: usize,
}

/// The text that a token literal carries, for the literals that carry text.
pub open spec fn literal_text(literal: Option<TokenLiteral>) -> Option<Seq<char>> {
    match literal {
        Some(TokenLiteral::StringValue(s)) => Some(s@),
        Some(TokenLiteral::IdentifierVal(s)) => Some(s@),
        _ => None,
    }
}

/// The number that a token literal carries, for the literals that carry one
/// that is in range.
pub open spec fn literal_number(literal: Option<TokenLiteral>) -> Option<Number> {
    match literal {
        Some(TokenLiteral::IntValue(x)) => number_of(x * 1_000_000),
        Some(TokenLiteral::FValue(x)) => Some(x),
        _ => None,
    }
}

/// The text of a string or identifier literal.
pub fn unwrap_as_string(literal: Option<TokenLiteral>) -> (r: String)
    requires
        literal_text(literal) is Some,
    ensures
        Some(r@) == literal_text(literal),
{
    match literal {
        Some(TokenLiteral::StringValue(s)) => s,
        Some(TokenLiteral::IdentifierVal(s)) => s,
        _ => unreached(),
    }
}

/// The number of an integer or fractional literal.
pub fn unwrap_as_number(literal: Option<TokenLiteral>) -> (r: Number)
    requires
        literal_number(literal) is Some,
    ensures
        Some(r) == literal_number(literal),
{
    match literal {
        Some(TokenLiteral::IntValue(x)) => {
            match Number::from_integer(x) {
                Some(n) => n,
                None => unreached(),
            }
        },
        Some(TokenLiteral::FValue(x)) => x,
        _ => unreached(),
    }
}

impl TokenType {
    /// Name of the kind, as diagnostics print it.
    pub open spec fn name_spec(self) -> Seq<char> {
        match self {
            TokenType::LeftParen => "LeftParen"@,
            TokenType::RightParen => "RightParen"@,
            TokenType::LeftBrace => "LeftBrace"@,
            TokenType::RightBrace => "RightBrace"@,
            TokenType::Comma => "Comma"@,
            TokenType::Dot => "Dot"@,
            TokenType::Minus => "Minus"@,
            TokenType::Plus => "Plus"@,
            TokenType::Semicolon => "Semicolon"@,
            TokenType::Slash => "Slash"@,
            TokenType::Star => "Star"@,
            TokenType::Bang => "Bang"@,
            TokenType::BangEqual => "BangEqual"@,
            TokenType::Equal => "Equal"@,
            TokenType::EqualEqual => "EqualEqual"@,
            TokenType::Greater => "Greater"@,
            TokenType::GreaterEqual => "GreaterEqual"@,
            TokenType::Less => "Less"@,
            TokenType::LessEqual => "LessEqual"@,
            TokenType::Identifier => "Identifier"@,
            TokenType::StringLit => "StringLit"@,
            TokenType::Number => "Number"@,
            TokenType::And => "And"@,
            TokenType::Class => "Class"@,
            TokenType::Else => "Else"@,
            TokenType::False => "False"@,
            TokenType::Fun => "Fun"@,
            TokenType::For => "For"@,
            TokenType::If => "If"@,
            TokenType::Nil => "Nil"@,
            TokenType::Or => "Or"@,
            TokenType::Print => "Print"@,
            TokenType::Return => "Return"@,
            TokenType::Super => "Super"@,
            TokenType::This => "This"@,
            TokenType::True => "True"@,
            TokenType::Var => "Var"@,
            TokenType::While => "While"@,
            TokenType::Eof => "Eof"@,
        }
    }

    /// Name of the kind, as diagnostics print it.
    pub fn name(self) -> (r: &'static str)
        ensures
            r@ == self.name_spec(),
    {
        match self {
            TokenType::LeftParen => "LeftParen",
            TokenType::RightParen => "RightParen",
            TokenType::LeftBrace => "LeftBrace",
            TokenType::RightBrace => "RightBrace",
            TokenType::Comma => "Comma",
            TokenType::Dot => "Dot",
            TokenType::Minus => "Minus",
            TokenType::Plus => "Plus",
            TokenType::Semicolon => "Semicolon",
            TokenType::Slash => "Slash",
            TokenType::Star => "Star",
            TokenType::Bang => "Bang",
            TokenType::BangEqual => "BangEqual",
            TokenType::Equal => "Equal",
            TokenType::EqualEqual => "EqualEqual",
            TokenType::Greater => "Greater",
            TokenType::GreaterEqual => "GreaterEqual",
            TokenType::Less => "Less",
            TokenType::LessEqual => "LessEqual",
            TokenType::Identifier => "Identifier",
            TokenType::StringLit => "StringLit",
            TokenType::Number => "Number",
            TokenType::And => "And",
            TokenType::Class => "Class",
            TokenType::Else => "Else",
            TokenType::False => "False",
            TokenType::Fun => "Fun",
            TokenType::For => "For",
            TokenType::If => "If",
            TokenType::Nil => "Nil",
            TokenType::Or => "Or",
            TokenType::Print => "Print",
            TokenType::Return => "Return",
            TokenType::Super => "Super",
            TokenType::This => "This",
            TokenType::True => "True",
            TokenType::Var => "Var",
            TokenType::While => "While",
            TokenType::Eof => "Eof",
        }
    }
}

impl Token {
    /// A token without a literal payload.
    pub fn new(token_type: TokenType, lexeme: String, line_number: usize) -> (r: Token)
        ensures
            r.token_type == token_type,
            r.lexeme == lexeme,
            r.literal is None,
            r.line_number == line_number,
    {
        Token { token_type, lexeme, literal: None, line_number }
    }
}

} // verus!
