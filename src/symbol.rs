//! A name read from the source, with where it stands.
use vstd::prelude::*;

verus! {

pub struct Symbol<'a> {
    pub name: &'a str,
    pub line: usize,
    pub col: usize,
}

} // verus!
