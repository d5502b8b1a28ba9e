//! Everything a user of the lexer needs, in one import. The error type goes
//! by the name `LexErr` here.

pub use crate::error::{Error as LexErr, OutOfBounds};
pub use crate::utils::Context;
pub use crate::{Lexer, TokenMatch, TokenTrait, TokenWrapper};
