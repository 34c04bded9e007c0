//! The scanner under its other name.
use vstd::prelude::*;

verus! {

pub type Scanner<'a> = crate::tokenizer::Tokenizer<'a>;

} // verus!
