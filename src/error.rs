use vstd::prelude::*;
use crate::span::Span;
use crate::token::Token;
use crate::token::TokenType;

verus! {

/// How serious a diagnostic is. Only `Error` aborts compilation or execution.
#[derive(Debug, Clone, Copy, PartialEq, Eq, Structural)]
pub enum ErrorLevel {
    Info,
    Warning,
    Error,
}

/// The phase a diagnostic comes from.
#[derive(Debug, Clone, Copy, PartialEq, Eq, Structural)]
pub enum ErrorType {
    Error,
    CompileError,
    RuntimeError,
}

impl ErrorLevel {
    /// The upper-case word printed in a report.
    pub fn word(&self) -> (r: &'static str)
        ensures
            r@ == level_word(*self),
    {
        match self {
            ErrorLevel::Info => "INFO",
            ErrorLevel::Warning => "WARNING",
            ErrorLevel::Error => "ERROR",
        }
    }
}

pub open spec fn level_word(l: ErrorLevel) -> Seq<char> {
    match l {
        ErrorLevel::Info => "INFO"@,
        ErrorLevel::Warning => "WARNING"@,
        ErrorLevel::Error => "ERROR"@,
    }
}

impl ErrorType {
    /// The phase name printed in a report.
    pub fn word(&self) -> (r: &'static str)
        ensures
            r@ == type_word(*self),
    {
        match self {
            ErrorType::Error => "Error",
            ErrorType::CompileError => "Compile Error",
            ErrorType::RuntimeError => "Runtime Error",
        }
    }
}

pub open spec fn type_word(t: ErrorType) -> Seq<char> {
    match t {
        ErrorType::Error => "Error"@,
        ErrorType::CompileError => "Compile Error"@,
        ErrorType::RuntimeError => "Runtime Error"@,
    }
}

/// A lexical error, carried by the scanner's error token.
#[derive(Debug, Clone, Copy, PartialEq, Eq, Structural)]
pub enum ScanError {
    UnexpectedChar(char),
    UnterminatedString,
    UnterminatedComment,
    InvalidNumberLiteral,
}

impl ScanError {
    /// Whether more input could complete the source (an open string literal).
    pub fn allows_continuation(&self) -> (r: bool)
        ensures
            r == (*self == ScanError::UnterminatedString),
    {
        match self {
            ScanError::UnterminatedString => true,
            _ => false,
        }
    }
}

/// A diagnostic of the compiler.
#[derive(Debug, Clone)]
pub enum ParseError {
    Error { level: ErrorLevel, message: String, span: Span },
    ScanError { error: ScanError, span: Span },
    UnexpectedToken { message: String, offending: Token, expected: Option<TokenType> },
    InvalidJump { message: String, span: Span },
    StackOverflow { message: String, span: Span },
}

impl ParseError {
    pub open spec fn spec_span(&self) -> Span {
        match self {
            ParseError::Error { span, .. } => *span,
            ParseError::ScanError { span, .. } => *span,
            ParseError::UnexpectedToken { offending, .. } => offending.span,
            ParseError::InvalidJump { span, .. } => *span,
            ParseError::StackOverflow { span, .. } => *span,
        }
    }

    pub open spec fn spec_level(&self) -> ErrorLevel {
        match self {
            ParseError::Error { level, .. } => *level,
            _ => ErrorLevel::Error,
        }
    }

    /// The span that caused the error.
    pub fn primary_span(&self) -> (r: Span)
        ensures
            r == self.spec_span(),
    {
        match self {
            ParseError::Error { span, .. } => *span,
            ParseError::ScanError { span, .. } => *span,
            ParseError::UnexpectedToken { offending, .. } => offending.span,
            ParseError::InvalidJump { span, .. } => *span,
            ParseError::StackOverflow { span, .. } => *span,
        }
    }

    /// The level of the diagnostic: only a general error may be below `Error`.
    pub fn get_level(&self) -> (r: ErrorLevel)
        ensures
            r == self.spec_level(),
    {
        match self {
            ParseError::Error { level, .. } => *level,
            _ => ErrorLevel::Error,
        }
    }

    /// Compile errors are all of the compile phase.
    pub fn get_type(&self) -> (r: ErrorType)
        ensures
            r == ErrorType::CompileError,
    {
        ErrorType::CompileError
    }

    /// Whether more input could complete the source: an unexpected end of
    /// file, or an unterminated string.
    pub fn allows_continuation(&self) -> (r: bool)
        ensures
            r == match self {
                ParseError::UnexpectedToken { offending, .. } => offending.kind is EOF,
                ParseError::ScanError { error, .. } => *error == ScanError::UnterminatedString,
                _ => false,
            },
    {
        match self {
            ParseError::UnexpectedToken { offending, .. } => offending.kind.is_eof(),
            ParseError::ScanError { error, .. } => error.allows_continuation(),
            _ => false,
        }
    }
}

/// An error raised while executing bytecode.
#[derive(Debug, Clone)]
pub enum RuntimeError {
    UnsupportedType { message: String, span: Span, level: ErrorLevel },
    UndefinedVariable { name: String, span: Span },
    ZeroDivision(Span),
    EmptyStack(Span),
    StackOverflow(Span),
}

impl RuntimeError {
    pub open spec fn spec_span(&self) -> Span {
        match self {
            RuntimeError::UnsupportedType { span, .. } => *span,
            RuntimeError::UndefinedVariable { span, .. } => *span,
            RuntimeError::ZeroDivision(span) => *span,
            RuntimeError::EmptyStack(span) => *span,
            RuntimeError::StackOverflow(span) => *span,
        }
    }

    pub open spec fn spec_level(&self) -> ErrorLevel {
        match self {
            RuntimeError::UnsupportedType { level, .. } => *level,
            RuntimeError::ZeroDivision(_) => ErrorLevel::Warning,
            _ => ErrorLevel::Error,
        }
    }

    /// The span of the instruction that failed.
    pub fn primary_span(&self) -> (r: Span)
        ensures
            r == self.spec_span(),
    {
        match self {
            RuntimeError::UnsupportedType { span, .. } => *span,
            RuntimeError::UndefinedVariable { span, .. } => *span,
            RuntimeError::ZeroDivision(span) => *span,
            RuntimeError::EmptyStack(span) => *span,
            RuntimeError::StackOverflow(span) => *span,
        }
    }

    /// The level of the error: a division by zero is only a warning.
    pub fn get_level(&self) -> (r: ErrorLevel)
        ensures
            r == self.spec_level(),
    {
        match self {
            RuntimeError::UnsupportedType { level, .. } => *level,
            RuntimeError::ZeroDivision(_) => ErrorLevel::Warning,
            _ => ErrorLevel::Error,
        }
    }

    /// Runtime errors are all of the runtime phase.
    pub fn get_type(&self) -> (r: ErrorType)
        ensures
            r == ErrorType::RuntimeError,
    {
        ErrorType::RuntimeError
    }
}

/// What every diagnostic tells: how serious it is, which phase raised it,
/// and where.
pub trait LoxError {
    fn get_level(&self) -> ErrorLevel;

    fn get_type(&self) -> ErrorType;

    fn get_span(&self) -> Span;
}

impl LoxError for ParseError {
    fn get_level(&self) -> ErrorLevel {
        ParseError::get_level(self)
    }

    fn get_type(&self) -> ErrorType {
        ParseError::get_type(self)
    }

    fn get_span(&self) -> Span {
        self.primary_span()
    }
}

impl LoxError for RuntimeError {
    fn get_level(&self) -> ErrorLevel {
        RuntimeError::get_level(self)
    }

    fn get_type(&self) -> ErrorType {
        RuntimeError::get_type(self)
    }

    fn get_span(&self) -> Span {
        self.primary_span()
    }
}

} // verus!
