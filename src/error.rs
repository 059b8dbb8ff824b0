//! Errors reported by the front end and the evaluator.

use vstd::prelude::*;
use crate::text::{digits_of, push_str, push_digits};

verus! {

/// The closed set of failures of the library.
#[derive(Debug, Clone)]
pub enum SELError {
    LexerError { message: String, line: usize, column: usize },
    ParserError { message: String, line: usize, column: usize },
    CompilerError(String),
    ValidationError(String),
    RuntimeError(String),
}

impl SELError {
    pub fn lexer(message: &str, line: usize, column: usize) -> (r: Self)
        ensures
            r matches SELError::LexerError { message: m, line: l, column: c } && m@ == message@
                && l == line && c == column,
    {
        SELError::LexerError { message: message.to_string(), line, column }
    }

    pub fn parser(message: &str, line: usize, column: usize) -> (r: Self)
        ensures
            r matches SELError::ParserError { message: m, line: l, column: c } && m@ == message@
                && l == line && c == column,
    {
        SELError::ParserError { message: message.to_string(), line, column }
    }

    pub fn compiler(message: &str) -> (r: Self)
        ensures
            r matches SELError::CompilerError(m) && m@ == message@,
    {
        SELError::CompilerError(message.to_string())
    }

    pub fn runtime(message: &str) -> (r: Self)
        ensures
            r matches SELError::RuntimeError(m) && m@ == message@,
    {
        SELError::RuntimeError(message.to_string())
    }

    /// The human-readable rendering of the error.
    pub fn to_message(&self) -> (r: String)
        ensures
            r@ == self.message_spec(),
    {
        let mut s = String::new();
        match self {
            SELError::LexerError { message, line, column } => {
                push_str(&mut s, "Lexer error at line ");
                push_digits(&mut s, *line as u64);
                push_str(&mut s, ", column ");
                push_digits(&mut s, *column as u64);
                push_str(&mut s, ": ");
                push_str(&mut s, message.as_str());
            },
            SELError::ParserError { message, line, column } => {
                push_str(&mut s, "Parser error at line ");
                push_digits(&mut s, *line as u64);
                push_str(&mut s, ", column ");
                push_digits(&mut s, *column as u64);
                push_str(&mut s, ": ");
                push_str(&mut s, message.as_str());
            },
            SELError::CompilerError(m) => {
                push_str(&mut s, "Compiler error: ");
                push_str(&mut s, m.as_str());
            },
            SELError::ValidationError(m) => {
                push_str(&mut s, "Validation error: ");
                push_str(&mut s, m.as_str());
            },
            SELError::RuntimeError(m) => {
                push_str(&mut s, "Runtime error: ");
                push_str(&mut s, m.as_str());
            },
        }
        s
    }

    pub open spec fn message_spec(&self) -> Seq<char> {
        match self {
            SELError::LexerError { message, line, column } => "Lexer error at line "@ + digits_of(
                *line as nat,
            ) + ", column "@ + digits_of(*column as nat) + ": "@ + message@,
            SELError::ParserError { message, line, column } => "Parser error at line "@
                + digits_of(*line as nat) + ", column "@ + digits_of(*column as nat) + ": "@
                + message@,
            SELError::CompilerError(m) => "Compiler error: "@ + m@,
            SELError::ValidationError(m) => "Validation error: "@ + m@,
            SELError::RuntimeError(m) => "Runtime error: "@ + m@,
        }
    }
}

/// A position in source text: 1-based line and column, 0-based byte offset.
#[derive(Debug, Clone, Copy, PartialEq, Eq, Structural)]
pub struct SourceLocation {
    pub line: usize,
    pub column: usize,
    pub offset: usize,
}

impl SourceLocation {
    pub fn new(line: usize, column: usize, offset: usize) -> (r: Self)
        ensures
            r == (SourceLocation { line, column, offset }),
    {
        SourceLocation { line, column, offset }
    }
}

impl Default for SourceLocation {
    fn default() -> (r: Self)
        ensures
            r == (SourceLocation { line: 1, column: 1, offset: 0 }),
    {
        SourceLocation { line: 1, column: 1, offset: 0 }
    }
}

} // verus!
