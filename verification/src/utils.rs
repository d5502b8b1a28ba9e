//! Utility types.

use vstd::prelude::*;

verus! {

/// Context type for a token: the character it was made from and the place
/// where that character was read.
#[derive(Debug, Clone, Copy, PartialEq, Eq)]
pub struct Context {
    /// The character that was consumed.
    pub character: char,
    /// The `(line, column)` position at the time the character was consumed.
    pub position: (usize, usize),
}

impl Context {
    /// Pairs a character with the position it was consumed at.
    pub fn new(character: char, position: (usize, usize)) -> (context: Self)
        ensures
            context == (Context { character, position }),
    {
        Self { character, position }
    }
}

} // verus!
