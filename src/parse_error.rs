//! What the parser reports when the tokens do not follow the grammar.
use vstd::prelude::*;
use crate::token::token_type::{TokenType, kind_name};

verus! {

/// The token that the parser required and did not find.
#[derive(Clone, Copy, Debug, PartialEq, Eq, Structural)]
pub enum Expectation {
    VariableName,
    SemicolonAfterVariable,
    ParenAfterFor,
    SemicolonAfterLoopCondition,
    ParenAfterForClauses,
    ParenAfterWhile,
    ParenAfterCondition,
    ParenAfterIf,
    ParenAfterIfCondition,
    BraceAfterBlock,
    SemicolonAfterValue,
    SemicolonAfterExpression,
    ParenAfterExpression,
}

pub open spec fn expectation_text(e: Expectation) -> Seq<char> {
    match e {
        Expectation::VariableName => "Expect variable name."@,
        Expectation::SemicolonAfterVariable => "Expect ';' after variable declaration."@,
        Expectation::ParenAfterFor => "Expect '(' after 'for'."@,
        Expectation::SemicolonAfterLoopCondition => "Expect ';' after loop condition."@,
        Expectation::ParenAfterForClauses => "Expect ')' after for clauses."@,
        Expectation::ParenAfterWhile => "Expect '(' after 'while'."@,
        Expectation::ParenAfterCondition => "Expect ')' after condition."@,
        Expectation::ParenAfterIf => "Expect '(' after 'if'."@,
        Expectation::ParenAfterIfCondition => "Expect ')' after if condition."@,
        Expectation::BraceAfterBlock => "Expect '}' after block."@,
        Expectation::SemicolonAfterValue => "Expect ';' after value."@,
        Expectation::SemicolonAfterExpression => "Expect ';' after expression."@,
        Expectation::ParenAfterExpression => "Expect ')' after expression."@,
    }
}

impl Expectation {
    pub fn message(&self) -> (r: String)
        ensures
            r@ == expectation_text(*self),
    {
        match self {
            Expectation::VariableName => String::from_str("Expect variable name."),
            Expectation::SemicolonAfterVariable => String::from_str("Expect ';' after variable declaration."),
            Expectation::ParenAfterFor => String::from_str("Expect '(' after 'for'."),
            Expectation::SemicolonAfterLoopCondition => String::from_str("Expect ';' after loop condition."),
            Expectation::ParenAfterForClauses => String::from_str("Expect ')' after for clauses."),
            Expectation::ParenAfterWhile => String::from_str("Expect '(' after 'while'."),
            Expectation::ParenAfterCondition => String::from_str("Expect ')' after condition."),
            Expectation::ParenAfterIf => String::from_str("Expect '(' after 'if'."),
            Expectation::ParenAfterIfCondition => String::from_str("Expect ')' after if condition."),
            Expectation::BraceAfterBlock => String::from_str("Expect '}' after block."),
            Expectation::SemicolonAfterValue => String::from_str("Expect ';' after value."),
            Expectation::SemicolonAfterExpression => String::from_str("Expect ';' after expression."),
            Expectation::ParenAfterExpression => String::from_str("Expect ')' after expression."),
        }
    }
}

/// The first mismatch: the kind of the offending token, and the token that
/// was required there when the grammar names one.
#[derive(Clone, Copy, Debug, PartialEq, Eq, Structural)]
pub enum ParseError {
    UnexpectedTokenError(TokenType),
    ExpectedToken(TokenType, Expectation),
}

pub open spec fn parse_error_text(e: ParseError) -> Seq<char> {
    match e {
        ParseError::UnexpectedTokenError(k) => "Parse Error: Unexpected token: "@ + kind_name(k),
        ParseError::ExpectedToken(k, _) => "Parse Error: Unexpected token: "@ + kind_name(k),
    }
}

impl ParseError {
    pub fn message(&self) -> (r: String)
        ensures
            r@ == parse_error_text(*self),
    {
        let k = match self {
            ParseError::UnexpectedTokenError(k) => *k,
            ParseError::ExpectedToken(k, _) => *k,
        };
        let mut s = String::from_str("Parse Error: Unexpected token: ");
        s.append(k.name().as_str());
        s
    }

    /// The line naming the required token, where there is one.
    pub fn expectation_message(&self) -> (r: Option<String>)
        ensures
            match *self {
                ParseError::ExpectedToken(_, e) => r matches Some(m) && m@ == expectation_text(e),
                _ => r is None,
            },
    {
        match self {
            ParseError::ExpectedToken(_, e) => Some(e.message()),
            _ => None,
        }
    }
}

} // verus!
