//! What can stop parsing: one error value per failed declaration.

use vstd::prelude::*;
use vstd::string::StringExecFns;

use crate::lexer::token::{token_text, token_type_name, Token, TokenType};

verus! {

/// A parse error, carrying the token or context that caused it.
#[derive(Debug, PartialEq)]
pub enum ParserError {
    /// The tokens ran out while more were required.
    UnexpectedEndOfTokens,
    /// A token that is not operator-shaped reached operator construction.
    InvalidTokenToOperatorConversion(Token),
    /// A token that cannot begin a primary expression.
    InvalidPrimaryExpressionToken(Token),
    /// The left-hand side of an assignment is not a plain variable; the
    /// token is the equals sign.
    InvalidAssignmentTarget(Token),
    /// A required token kind was not found at the expected position.
    MissingExpectedToken { token_type: TokenType, message: String },
    /// A statement of an unusable shape at a fixed place in the grammar.
    UnexpectedLanguageComponent { expected: String, got: String },
}

/// The mathematical shape of a parse error: token kinds by their number,
/// text by its characters; a carried token is the input token itself.
pub enum PErr {
    EndOfTokens,
    NotAnOperator(Token),
    NotAPrimary(Token),
    BadAssignTarget(Token),
    Missing { kind: int, message: Seq<char> },
    BadComponent { expected: Seq<char>, got: Seq<char> },
}

/// The mathematical shape a parse error value stands for.
pub open spec fn perr_of(e: ParserError) -> PErr {
    match e {
        ParserError::UnexpectedEndOfTokens => PErr::EndOfTokens,
        ParserError::InvalidTokenToOperatorConversion(t) => PErr::NotAnOperator(t),
        ParserError::InvalidPrimaryExpressionToken(t) => PErr::NotAPrimary(t),
        ParserError::InvalidAssignmentTarget(t) => PErr::BadAssignTarget(t),
        ParserError::MissingExpectedToken { token_type, message } => PErr::Missing {
            kind: crate::lexer::token::kind_id(token_type),
            message: message@,
        },
        ParserError::UnexpectedLanguageComponent { expected, got } => PErr::BadComponent {
            expected: expected@,
            got: got@,
        },
    }
}

/// The rendered diagnostic of a parse error.
pub open spec fn parser_error_message(e: ParserError) -> Seq<char> {
    match e {
        ParserError::UnexpectedEndOfTokens => "unexpected end of tokens"@,
        ParserError::InvalidTokenToOperatorConversion(t) => token_text(t)
            + " is not a valid operator token"@,
        ParserError::InvalidPrimaryExpressionToken(t) => "expected expression, got: "@
            + token_text(t),
        ParserError::InvalidAssignmentTarget(t) => "invalid assignment target at: "@
            + token_text(t),
        ParserError::MissingExpectedToken { token_type, message } => "expected "@
            + token_type_name(token_type) + ": "@ + message@,
        ParserError::UnexpectedLanguageComponent { expected, got } => "unexpected "@ + got@
            + ", expected "@ + expected@,
    }
}

impl ParserError {
    /// Any token carried stays within the decimal bounds.
    pub open spec fn wf(self) -> bool {
        match self {
            ParserError::InvalidTokenToOperatorConversion(t) => t.wf(),
            ParserError::InvalidPrimaryExpressionToken(t) => t.wf(),
            ParserError::InvalidAssignmentTarget(t) => t.wf(),
            _ => true,
        }
    }

    /// The rendered diagnostic line.
    pub fn message(&self) -> (r: String)
        requires
            self.wf(),
        ensures
            r@ == parser_error_message(*self),
    {
        let mut s = String::new();
        match self {
            ParserError::UnexpectedEndOfTokens => {
                s.append("unexpected end of tokens");
            },
            ParserError::InvalidTokenToOperatorConversion(t) => {
                s.append(t.render().as_str());
                s.append(" is not a valid operator token");
            },
            ParserError::InvalidPrimaryExpressionToken(t) => {
                s.append("expected expression, got: ");
                s.append(t.render().as_str());
            },
            ParserError::InvalidAssignmentTarget(t) => {
                s.append("invalid assignment target at: ");
                s.append(t.render().as_str());
            },
            ParserError::MissingExpectedToken { token_type, message } => {
                s.append("expected ");
                s.append(token_type.name());
                s.append(": ");
                s.append(message.as_str());
            },
            ParserError::UnexpectedLanguageComponent { expected, got } => {
                s.append("unexpected ");
                s.append(got.as_str());
                s.append(", expected ");
                s.append(expected.as_str());
            },
        }
        proof {
            assert(s@ =~= parser_error_message(*self));
        }
        s
    }
}

} // verus!
