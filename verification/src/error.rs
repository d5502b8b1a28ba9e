//! The conditions that end a scan.

use vstd::prelude::*;
use crate::utils::Context;

verus! {

/// The reason why a lexer stopped handing out tokens.
#[derive(Debug, Clone, Copy, PartialEq, Eq)]
pub enum Error {
    /// The whole text has been consumed.
    EndOfFile,
    /// A character was read that no token matches; the context holds that
    /// character and its position.
    Unexpected(Context),
}

/// The answer to a cursor that lies beyond the text.
#[derive(Debug, Clone, Copy, PartialEq, Eq)]
pub struct OutOfBounds {
    /// The cursor that was refused.
    pub cursor: usize,
    /// The number of characters of the text.
    pub length: usize,
}

} // verus!
