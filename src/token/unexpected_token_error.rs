//! The scanner's diagnostic for a character that starts no lexeme.
use vstd::prelude::*;
use crate::text::{nat_text, push_decimal};

verus! {

pub struct UnexpectedTokenError {
    pub line: usize,
    pub token: char,
}

/// `[line N] Error: ` followed by `message`.
pub open spec fn line_error_text(line: nat, message: Seq<char>) -> Seq<char> {
    "[line "@ + nat_text(line) + "] Error: "@ + message
}

pub open spec fn unexpected_character_text(line: nat, c: char) -> Seq<char> {
    line_error_text(line, "Unexpected character: "@.push(c))
}

/// Writes `[line N] Error: ` followed by `message`.
pub fn line_error(line: usize, message: &str) -> (r: String)
    ensures
        r@ == line_error_text(line as nat, message@),
{
    let mut s = String::from_str("[line ");
    push_decimal(&mut s, line as u128);
    s.append("] Error: ");
    s.append(message);
    s
}

impl UnexpectedTokenError {
    pub fn message(&self) -> (r: String)
        ensures
            r@ == unexpected_character_text(self.line as nat, self.token),
    {
        let mut s = line_error(self.line, "Unexpected character: ");
        s.push(self.token);
        assert(s@ =~= unexpected_character_text(self.line as nat, self.token));
        s
    }
}

} // verus!
