use vstd::prelude::*;
use crate::error::ScanError;
use crate::span::Span;

verus! {

/// The kind of a token, with its payload where it has one.
///
/// A number literal carries its source text; turning that text into a
/// double-precision value is left to the host, which owns floating point.
#[derive(Debug, Clone, PartialEq)]
pub enum TokenType {
    LeftParen,
    RightParen,
    LeftBrace,
    RightBrace,
    Comma,
    Dot,
    Minus,
    Plus,
    Semicolon,
    Star,
    Slash,
    Comment(String),
    BlockComment(String, u32),
    Bang,
    BangEqual,
    Equal,
    EqualEqual,
    Greater,
    GreaterEqual,
    Less,
    LessEqual,
    Identifier(String),
    String(String),
    Number(String),
    Whitespace(String),
    And,
    Class,
    Else,
    False,
    Fun,
    For,
    If,
    Nil,
    Or,
    Print,
    Return,
    Super,
    This,
    True,
    Var,
    While,
    EOF,
    Error(ScanError),
}

/// The reserved word spelled by `w`, if any.
pub open spec fn keyword_of(w: Seq<char>) -> Option<TokenType> {
    if w == "and"@ { Some(TokenType::And) }
    else if w == "class"@ { Some(TokenType::Class) }
    else if w == "else"@ { Some(TokenType::Else) }
    else if w == "false"@ { Some(TokenType::False) }
    else if w == "fun"@ { Some(TokenType::Fun) }
    else if w == "for"@ { Some(TokenType::For) }
    else if w == "if"@ { Some(TokenType::If) }
    else if w == "nil"@ { Some(TokenType::Nil) }
    else if w == "or"@ { Some(TokenType::Or) }
    else if w == "print"@ { Some(TokenType::Print) }
    else if w == "return"@ { Some(TokenType::Return) }
    else if w == "super"@ { Some(TokenType::Super) }
    else if w == "this"@ { Some(TokenType::This) }
    else if w == "true"@ { Some(TokenType::True) }
    else if w == "var"@ { Some(TokenType::Var) }
    else if w == "while"@ { Some(TokenType::While) }
    else { None }
}

impl TokenType {
    pub fn is_eof(&self) -> (r: bool)
        ensures
            r == (*self is EOF),
    {
        match self {
            TokenType::EOF => true,
            _ => false,
        }
    }

    /// Tokens that carry no meaning for the compiler.
    pub open spec fn spec_is_trivia(&self) -> bool {
        ||| *self is Whitespace
        ||| *self is Comment
        ||| *self is BlockComment
    }

    pub fn is_trivia(&self) -> (r: bool)
        ensures
            r == self.spec_is_trivia(),
    {
        match self {
            TokenType::Whitespace(_) | TokenType::Comment(_) | TokenType::BlockComment(_, _) => true,
            _ => false,
        }
    }

    /// Whether two kinds are the same variant, payloads aside.
    pub fn same_kind(&self, other: &TokenType) -> (r: bool)
        ensures
            r == (discriminant_of(*self) == discriminant_of(*other)),
    {
        token_tag(self) == token_tag(other)
    }
}

/// Distinguishes the variants of `TokenType`, ignoring payloads.
pub open spec fn discriminant_of(t: TokenType) -> nat {
    match t {
        TokenType::LeftParen => 0,
        TokenType::RightParen => 1,
        TokenType::LeftBrace => 2,
        TokenType::RightBrace => 3,
        TokenType::Comma => 4,
        TokenType::Dot => 5,
        TokenType::Minus => 6,
        TokenType::Plus => 7,
        TokenType::Semicolon => 8,
        TokenType::Star => 9,
        TokenType::Slash => 10,
        TokenType::Comment(_) => 11,
        TokenType::BlockComment(_, _) => 12,
        TokenType::Bang => 13,
        TokenType::BangEqual => 14,
        TokenType::Equal => 15,
        TokenType::EqualEqual => 16,
        TokenType::Greater => 17,
        TokenType::GreaterEqual => 18,
        TokenType::Less => 19,
        TokenType::LessEqual => 20,
        TokenType::Identifier(_) => 21,
        TokenType::String(_) => 22,
        TokenType::Number(_) => 23,
        TokenType::Whitespace(_) => 24,
        TokenType::And => 25,
        TokenType::Class => 26,
        TokenType::Else => 27,
        TokenType::False => 28,
        TokenType::Fun => 29,
        TokenType::For => 30,
        TokenType::If => 31,
        TokenType::Nil => 32,
        TokenType::Or => 33,
        TokenType::Print => 34,
        TokenType::Return => 35,
        TokenType::Super => 36,
        TokenType::This => 37,
        TokenType::True => 38,
        TokenType::Var => 39,
        TokenType::While => 40,
        TokenType::EOF => 41,
        TokenType::Error(_) => 42,
    }
}

fn token_tag(t: &TokenType) -> (r: u8)
    ensures
        r as nat == discriminant_of(*t),
{
    match t {
        TokenType::LeftParen => 0,
        TokenType::RightParen => 1,
        TokenType::LeftBrace => 2,
        TokenType::RightBrace => 3,
        TokenType::Comma => 4,
        TokenType::Dot => 5,
        TokenType::Minus => 6,
        TokenType::Plus => 7,
        TokenType::Semicolon => 8,
        TokenType::Star => 9,
        TokenType::Slash => 10,
        TokenType::Comment(_) => 11,
        TokenType::BlockComment(_, _) => 12,
        TokenType::Bang => 13,
        TokenType::BangEqual => 14,
        TokenType::Equal => 15,
        TokenType::EqualEqual => 16,
        TokenType::Greater => 17,
        TokenType::GreaterEqual => 18,
        TokenType::Less => 19,
        TokenType::LessEqual => 20,
        TokenType::Identifier(_) => 21,
        TokenType::String(_) => 22,
        TokenType::Number(_) => 23,
        TokenType::Whitespace(_) => 24,
        TokenType::And => 25,
        TokenType::Class => 26,
        TokenType::Else => 27,
        TokenType::False => 28,
        TokenType::Fun => 29,
        TokenType::For => 30,
        TokenType::If => 31,
        TokenType::Nil => 32,
        TokenType::Or => 33,
        TokenType::Print => 34,
        TokenType::Return => 35,
        TokenType::Super => 36,
        TokenType::This => 37,
        TokenType::True => 38,
        TokenType::Var => 39,
        TokenType::While => 40,
        TokenType::EOF => 41,
        TokenType::Error(_) => 42,
    }
}

/// A token: its kind and where it stands in the source.
#[derive(Debug, Clone, PartialEq)]
pub struct Token {
    pub kind: TokenType,
    pub span: Span,
}

impl Token {
    pub fn new(kind: TokenType, span: Span) -> (r: Token)
        ensures
            r.kind == kind,
            r.span == span,
    {
        Token { kind, span }
    }
}

} // verus!
