use vstd::prelude::*;
use crate::token::TokenType;

verus! {

/// Binding strength of operators, lowest first.
#[derive(Debug, Clone, Copy, PartialEq, Eq, Structural)]
pub enum Precedence {
    Lowest,
    Sequence,
    Assignment,
    Or,
    And,
    Equality,
    Comparision,
    Term,
    Factor,
    Unary,
    Call,
    Primary,
}

/// The position of a precedence in the order, from 0 (`Lowest`) to 11 (`Primary`).
pub open spec fn spec_level(p: Precedence) -> nat {
    match p {
        Precedence::Lowest => 0,
        Precedence::Sequence => 1,
        Precedence::Assignment => 2,
        Precedence::Or => 3,
        Precedence::And => 4,
        Precedence::Equality => 5,
        Precedence::Comparision => 6,
        Precedence::Term => 7,
        Precedence::Factor => 8,
        Precedence::Unary => 9,
        Precedence::Call => 10,
        Precedence::Primary => 11,
    }
}

/// The precedence at a position of the order; positions past the end give `Lowest`.
pub open spec fn spec_from_level(n: int) -> Precedence {
    if n == 1 { Precedence::Sequence }
    else if n == 2 { Precedence::Assignment }
    else if n == 3 { Precedence::Or }
    else if n == 4 { Precedence::And }
    else if n == 5 { Precedence::Equality }
    else if n == 6 { Precedence::Comparision }
    else if n == 7 { Precedence::Term }
    else if n == 8 { Precedence::Factor }
    else if n == 9 { Precedence::Unary }
    else if n == 10 { Precedence::Call }
    else if n == 11 { Precedence::Primary }
    else { Precedence::Lowest }
}

impl Precedence {
    pub fn level(&self) -> (r: u8)
        ensures
            r as nat == spec_level(*self),
            r <= 11,
    {
        match self {
            Precedence::Lowest => 0,
            Precedence::Sequence => 1,
            Precedence::Assignment => 2,
            Precedence::Or => 3,
            Precedence::And => 4,
            Precedence::Equality => 5,
            Precedence::Comparision => 6,
            Precedence::Term => 7,
            Precedence::Factor => 8,
            Precedence::Unary => 9,
            Precedence::Call => 10,
            Precedence::Primary => 11,
        }
    }

    /// The precedence at a position of the order.
    pub fn from_level(n: usize) -> (r: Precedence)
        ensures
            r == spec_from_level(n as int),
    {
        if n == 1 { Precedence::Sequence }
        else if n == 2 { Precedence::Assignment }
        else if n == 3 { Precedence::Or }
        else if n == 4 { Precedence::And }
        else if n == 5 { Precedence::Equality }
        else if n == 6 { Precedence::Comparision }
        else if n == 7 { Precedence::Term }
        else if n == 8 { Precedence::Factor }
        else if n == 9 { Precedence::Unary }
        else if n == 10 { Precedence::Call }
        else if n == 11 { Precedence::Primary }
        else { Precedence::Lowest }
    }

    /// The precedence `val` steps away; stepping outside the order gives `Lowest`.
    pub fn update(&self, val: isize) -> (r: Precedence)
        ensures
            r == spec_from_level(spec_level(*self) + val),
    {
        let n = self.level() as isize;
        if val > 11 || val < -11 {
            return Precedence::Lowest;
        }
        let m = n + val;
        if m < 0 {
            Precedence::Lowest
        } else {
            Precedence::from_level(m as usize)
        }
    }

    /// Whether `self` binds no tighter than `other`.
    pub fn le(&self, other: &Precedence) -> (r: bool)
        ensures
            r == (spec_level(*self) <= spec_level(*other)),
    {
        self.level() <= other.level()
    }
}

/// The parsing routine a rule names.
#[derive(Debug, Clone, Copy, PartialEq, Eq, Structural)]
pub enum ParseFn {
    Nothing,
    Group,
    Binary,
    Unary,
    Number,
    Literal,
    String,
    Variable,
    Call,
    And,
    Or,
}

/// A row of the Pratt table: the prefix routine, the infix routine and the
/// infix precedence of a token kind.
#[derive(Debug, Clone, Copy, PartialEq, Eq, Structural)]
pub struct ParseRule(pub ParseFn, pub ParseFn, pub Precedence);

/// The Pratt table.
pub open spec fn spec_rule(kind: TokenType) -> ParseRule {
    match kind {
        TokenType::LeftParen => ParseRule(ParseFn::Group, ParseFn::Call, Precedence::Call),
        TokenType::Minus => ParseRule(ParseFn::Unary, ParseFn::Binary, Precedence::Term),
        TokenType::Plus => ParseRule(ParseFn::Nothing, ParseFn::Binary, Precedence::Term),
        TokenType::Slash => ParseRule(ParseFn::Nothing, ParseFn::Binary, Precedence::Factor),
        TokenType::Star => ParseRule(ParseFn::Nothing, ParseFn::Binary, Precedence::Factor),
        TokenType::Bang => ParseRule(ParseFn::Unary, ParseFn::Nothing, Precedence::Lowest),
        TokenType::BangEqual => ParseRule(ParseFn::Nothing, ParseFn::Binary, Precedence::Equality),
        TokenType::EqualEqual => ParseRule(ParseFn::Nothing, ParseFn::Binary, Precedence::Equality),
        TokenType::Greater => ParseRule(ParseFn::Nothing, ParseFn::Binary, Precedence::Comparision),
        TokenType::GreaterEqual => ParseRule(ParseFn::Nothing, ParseFn::Binary, Precedence::Comparision),
        TokenType::Less => ParseRule(ParseFn::Nothing, ParseFn::Binary, Precedence::Comparision),
        TokenType::LessEqual => ParseRule(ParseFn::Nothing, ParseFn::Binary, Precedence::Comparision),
        TokenType::And => ParseRule(ParseFn::Nothing, ParseFn::And, Precedence::And),
        TokenType::Or => ParseRule(ParseFn::Nothing, ParseFn::Or, Precedence::Or),
        TokenType::Number(_) => ParseRule(ParseFn::Number, ParseFn::Nothing, Precedence::Lowest),
        TokenType::True => ParseRule(ParseFn::Literal, ParseFn::Nothing, Precedence::Lowest),
        TokenType::False => ParseRule(ParseFn::Literal, ParseFn::Nothing, Precedence::Lowest),
        TokenType::Nil => ParseRule(ParseFn::Literal, ParseFn::Nothing, Precedence::Lowest),
        TokenType::String(_) => ParseRule(ParseFn::String, ParseFn::Nothing, Precedence::Lowest),
        TokenType::Identifier(_) => ParseRule(ParseFn::Variable, ParseFn::Nothing, Precedence::Lowest),
        TokenType::Comma => ParseRule(ParseFn::Nothing, ParseFn::Binary, Precedence::Sequence),
        _ => ParseRule(ParseFn::Nothing, ParseFn::Nothing, Precedence::Lowest),
    }
}

impl ParseRule {
    /// The table row of a token kind.
    pub fn from_token(kind: &TokenType) -> (r: ParseRule)
        ensures
            r == spec_rule(*kind),
    {
        match kind {
            TokenType::LeftParen => ParseRule(ParseFn::Group, ParseFn::Call, Precedence::Call),
            TokenType::Minus => ParseRule(ParseFn::Unary, ParseFn::Binary, Precedence::Term),
            TokenType::Plus => ParseRule(ParseFn::Nothing, ParseFn::Binary, Precedence::Term),
            TokenType::Slash | TokenType::Star => ParseRule(ParseFn::Nothing, ParseFn::Binary, Precedence::Factor),
            TokenType::Bang => ParseRule(ParseFn::Unary, ParseFn::Nothing, Precedence::Lowest),
            TokenType::BangEqual | TokenType::EqualEqual => ParseRule(ParseFn::Nothing, ParseFn::Binary, Precedence::Equality),
            TokenType::Greater | TokenType::GreaterEqual | TokenType::Less | TokenType::LessEqual
                => ParseRule(ParseFn::Nothing, ParseFn::Binary, Precedence::Comparision),
            TokenType::And => ParseRule(ParseFn::Nothing, ParseFn::And, Precedence::And),
            TokenType::Or => ParseRule(ParseFn::Nothing, ParseFn::Or, Precedence::Or),
            TokenType::Number(_) => ParseRule(ParseFn::Number, ParseFn::Nothing, Precedence::Lowest),
            TokenType::True | TokenType::False | TokenType::Nil => ParseRule(ParseFn::Literal, ParseFn::Nothing, Precedence::Lowest),
            TokenType::String(_) => ParseRule(ParseFn::String, ParseFn::Nothing, Precedence::Lowest),
            TokenType::Identifier(_) => ParseRule(ParseFn::Variable, ParseFn::Nothing, Precedence::Lowest),
            TokenType::Comma => ParseRule(ParseFn::Nothing, ParseFn::Binary, Precedence::Sequence),
            _ => ParseRule(ParseFn::Nothing, ParseFn::Nothing, Precedence::Lowest),
        }
    }
}

} // verus!
