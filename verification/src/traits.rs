//! The capabilities a lexer asks of the types it works with.

use vstd::prelude::*;
use vstd::std_specs::cmp::PartialEqSpec;
use crate::utils::Context;

verus! {

/// The main trait for tokens: a token type says which of its values, if any,
/// a single character stands for.
pub trait TokenTrait: Sized + PartialEq {
    /// The token that `c` stands for, as a mathematical function of `c`.
    spec fn matched(c: char) -> Option<Self>;

    /// Equality of tokens is structural, and `==` computes it.
    proof fn eq_is_structural(a: &Self, b: &Self)
        ensures
            Self::obeys_eq_spec(),
            a.eq_spec(b) <==> *a == *b,
    ;

    /// Returns the token that matches the given character.
    fn match_char(c: char) -> (token: Option<Self>)
        ensures
            token == Self::matched(c),
    ;
}

/// Trait for anything that wants to wrap a token together with its context.
pub trait TokenWrapper<T: TokenTrait>: Sized {
    /// The wrapper built from a token and its context.
    spec fn wrapped(token: T, context: Context) -> Self;

    /// Wraps the token and the context.
    fn wrap(token: T, context: Context) -> (wrapper: Self)
        ensures
            wrapper == Self::wrapped(token, context),
    ;
}

impl<T: TokenTrait> TokenWrapper<T> for T {
    open spec fn wrapped(token: T, context: Context) -> Self {
        token
    }

    fn wrap(token: T, _context: Context) -> (wrapper: Self) {
        token
    }
}

/// Trait for anything that can say of a token whether it is one of those it
/// stands for.
pub trait TokenMatch<T: TokenTrait> {
    /// Whether `t` is matched, as a mathematical function.
    spec fn matches(&self, t: &T) -> bool;

    /// Tests whether the token is matched.
    fn matches_token(&self, t: &T) -> (matched: bool)
        ensures
            matched == self.matches(t),
    ;
}

impl<T: TokenTrait> TokenMatch<T> for T {
    open spec fn matches(&self, t: &T) -> bool {
        *self == *t
    }

    fn matches_token(&self, t: &T) -> (matched: bool) {
        proof {
            T::eq_is_structural(self, t);
        }
        self == t
    }
}

impl<T: TokenTrait> TokenMatch<T> for Vec<T> {
    open spec fn matches(&self, t: &T) -> bool {
        self@.contains(*t)
    }

    fn matches_token(&self, t: &T) -> (matched: bool) {
        let mut i: usize = 0;
        while i < self.len()
            invariant
                i <= self.len(),
                forall|j: int| 0 <= j < i ==> self@[j] != *t,
            decreases self.len() - i,
        {
            proof {
                T::eq_is_structural(&self[i as int], t);
            }
            if &self[i] == t {
                return true;
            }
            i += 1;
        }
        false
    }
}

} // verus!
