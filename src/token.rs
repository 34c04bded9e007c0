//! Tokens: their kinds, their values and the scanner's diagnostic for an
//! unexpected character.
pub mod token;
pub mod token_type;
pub mod unexpected_token_error;
