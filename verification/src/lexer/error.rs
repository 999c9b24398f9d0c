//! What can go wrong while scanning: one error value per bad token.

use vstd::prelude::*;
use vstd::string::StringExecFns;

use crate::strutil::{nat_chars, usize_string};

verus! {

/// A lexical error, carrying enough position context to render a
/// diagnostic without re-scanning the source.
#[derive(Debug, PartialEq)]
pub enum LexerError {
    /// The input ended before a string literal's closing quote.
    UnterminatedString { line: usize, col: usize },
    /// A character that cannot begin any token.
    UnexpectedCharacter { character: char, line: usize, col: usize },
    /// A numeric literal whose value has no in-bounds representation.
    NumberParsingError { lexeme: String, line: usize, col: usize },
}

/// The variant name of a lexical error.
pub open spec fn lexer_error_name(e: LexerError) -> Seq<char> {
    match e {
        LexerError::UnterminatedString { .. } => "UnterminatedString"@,
        LexerError::UnexpectedCharacter { .. } => "UnexpectedCharacter"@,
        LexerError::NumberParsingError { .. } => "NumberParsingError"@,
    }
}

/// The rendered diagnostic: position, name, and the offending text.
pub open spec fn lexer_error_message(e: LexerError) -> Seq<char> {
    let (line, col) = match e {
        LexerError::UnterminatedString { line, col } => (line, col),
        LexerError::UnexpectedCharacter { line, col, .. } => (line, col),
        LexerError::NumberParsingError { line, col, .. } => (line, col),
    };
    let payload = match e {
        LexerError::UnterminatedString { .. } => Seq::<char>::empty(),
        LexerError::UnexpectedCharacter { character, .. } => seq![character],
        LexerError::NumberParsingError { lexeme, .. } => lexeme@,
    };
    "[line "@ + nat_chars(line as nat) + ": col "@ + nat_chars(col as nat) + "] "@
        + lexer_error_name(e) + ": "@ + payload
}

impl LexerError {
    /// The variant name.
    pub fn name(&self) -> (r: &'static str)
        ensures
            r@ == lexer_error_name(*self),
    {
        match self {
            LexerError::UnterminatedString { .. } => "UnterminatedString",
            LexerError::UnexpectedCharacter { .. } => "UnexpectedCharacter",
            LexerError::NumberParsingError { .. } => "NumberParsingError",
        }
    }

    /// The rendered diagnostic line.
    pub fn message(&self) -> (r: String)
        ensures
            r@ == lexer_error_message(*self),
    {
        let (line, col) = match self {
            LexerError::UnterminatedString { line, col } => (*line, *col),
            LexerError::UnexpectedCharacter { line, col, .. } => (*line, *col),
            LexerError::NumberParsingError { line, col, .. } => (*line, *col),
        };
        let mut s = String::new();
        s.append("[line ");
        s.append(usize_string(line).as_str());
        s.append(": col ");
        s.append(usize_string(col).as_str());
        s.append("] ");
        s.append(self.name());
        s.append(": ");
        match self {
            LexerError::UnterminatedString { .. } => {},
            LexerError::UnexpectedCharacter { character, .. } => {
                crate::strutil::push_char(&mut s, *character);
            },
            LexerError::NumberParsingError { lexeme, .. } => {
                s.append(lexeme.as_str());
            },
        }
        proof {
            assert(s@ =~= lexer_error_message(*self));
        }
        s
    }
}

} // verus!
