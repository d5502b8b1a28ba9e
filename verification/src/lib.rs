//! A character based lexer: every character of a text is classified by a
//! caller-defined token type, and the lexer hands the tokens out one by one,
//! each together with the character and the position it was read at.
//!
//! A token type implements [`TokenTrait`]: it says which token, if any, a
//! character stands for. A [`Lexer`] over a text then pulls tokens with
//! `next`, passes over some of them with `next_ignored`, looks ahead with
//! `peek` and `poll`, and lets a backtracking parser save and restore its
//! cursor. What it hands out is the token itself, or any type that
//! implements [`TokenWrapper`] and so can keep the [`utils::Context`] of the
//! token, its character and position.
//!
//! The scan ends with an [`error::Error`]: at the end of the text, or at a
//! character that stands for no token. That error is latched, and every
//! later pull reports it again.
//!
//! The module [`state`] holds the mathematical model over which the lexer's
//! contracts are stated, [`laws`] what is proved of scanning in general, and
//! [`table`] the description of a token enum as data.
//!
//! A token type written under Verus gives its `==` a meaning in contracts
//! and proves that it is structural:
//!
//! ```ignore
//! pub enum Bit {
//!     Zero,
//!     One,
//! }
//!
//! impl PartialEq for Bit {
//!     fn eq(&self, other: &Self) -> (r: bool) {
//!         match (self, other) {
//!             (Bit::Zero, Bit::Zero) => true,
//!             (Bit::One, Bit::One) => true,
//!             _ => false,
//!         }
//!     }
//! }
//!
//! impl PartialEqSpecImpl for Bit {
//!     open spec fn obeys_eq_spec() -> bool {
//!         true
//!     }
//!
//!     open spec fn eq_spec(&self, other: &Self) -> bool {
//!         *self == *other
//!     }
//! }
//!
//! impl TokenTrait for Bit {
//!     open spec fn matched(c: char) -> Option<Self> {
//!         if c == '0' { Some(Bit::Zero) } else if c == '1' { Some(Bit::One) } else { None }
//!     }
//!
//!     proof fn eq_is_structural(a: &Self, b: &Self) {}
//!
//!     fn match_char(c: char) -> (token: Option<Self>) {
//!         if c == '0' { Some(Bit::Zero) } else if c == '1' { Some(Bit::One) } else { None }
//!     }
//! }
//!
//! proof {
//!     reveal_strlit("10");
//! }
//! let mut lexer: Lexer<Bit, Bit> = Lexer::new("10");
//! let first = lexer.next();
//! assert(first == Some(Bit::One));
//! ```

pub mod error;
pub mod laws;
pub mod prelude;
pub mod state;
pub mod table;
pub mod utils;
mod lexer;
mod traits;

pub use lexer::Lexer;
pub use traits::{TokenMatch, TokenTrait, TokenWrapper};
