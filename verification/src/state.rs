//! The mathematical model of a lexer: its state, and what one scan attempt
//! makes of it. The contracts of the lexer's methods are stated over this
//! model.

use vstd::prelude::*;
use crate::error::Error;
use crate::traits::{TokenMatch, TokenTrait, TokenWrapper};
use crate::utils::Context;

verus! {

/// The position after the character `c` has been consumed at `position`:
/// the column moves on by one, and a line feed starts the next line at
/// column zero, so that a line feed is itself reported at column zero of the
/// line it opens.
pub open spec fn advance(position: (usize, usize), c: char) -> (usize, usize) {
    if c == '\n' {
        ((position.0 + 1) as usize, 0)
    } else {
        (position.0, (position.1 + 1) as usize)
    }
}

/// The position after all of `chars` have been consumed in turn, starting at
/// `position`.
pub open spec fn advance_over(position: (usize, usize), chars: Seq<char>) -> (usize, usize)
    decreases chars.len(),
{
    if chars.len() == 0 {
        position
    } else {
        advance_over(advance(position, chars.first()), chars.drop_first())
    }
}

/// The test that keeps, of a stream of tokens, those that `m` does not
/// match.
pub open spec fn kept_by<T: TokenTrait, M: TokenMatch<T>>(m: M) -> spec_fn((T, Context)) -> bool {
    |item: (T, Context)| !m.matches(&item.0)
}

/// The state of a lexer, as its callers can observe it.
pub struct LexState {
    /// The text that is being tokenized, as its characters.
    pub text: Seq<char>,
    /// The number of characters before the cursor; zero means that the
    /// cursor stands before the first character.
    pub cursor: nat,
    /// The `(line, column)` position that has been counted so far.
    pub position: (usize, usize),
    /// The condition that ended the scan, once there is one.
    pub error: Option<Error>,
}

impl LexState {
    /// The state of a lexer that has just been made for `text`.
    pub open spec fn initial(text: Seq<char>) -> LexState {
        LexState { text, cursor: 0, position: (1, 0), error: None }
    }

    /// The same state with the cursor moved to `cursor`. Neither the
    /// position nor a latched error is touched.
    pub open spec fn with_cursor(self, cursor: nat) -> LexState {
        LexState { cursor, ..self }
    }

    /// The state after the next `n` characters have been consumed with
    /// nothing latched: the cursor stands `n` characters further, and the
    /// position has been counted over them.
    pub open spec fn consumed(self, n: nat) -> LexState {
        LexState {
            cursor: self.cursor + n,
            position: advance_over(
                self.position,
                self.text.subrange(self.cursor as int, self.cursor as int + n),
            ),
            ..self
        }
    }

    /// The token that the character `k` places after the cursor stands for,
    /// with the context in which a scan that started here reads it.
    pub open spec fn token_at<T: TokenTrait>(self, k: int) -> (T, Context)
        recommends
            0 <= k,
            self.cursor + k < self.text.len(),
            T::matched(self.text[self.cursor + k]) is Some,
    {
        (T::matched(self.text[self.cursor + k]).unwrap(), self.consumed(k as nat).context())
    }

    /// Whether the next scan attempt reads a character.
    pub open spec fn reads(self) -> bool {
        self.error is None && self.cursor < self.text.len()
    }

    /// The number of characters that scanning can still consume.
    pub open spec fn remaining(self) -> nat {
        if self.reads() {
            (self.text.len() - self.cursor) as nat
        } else {
            0
        }
    }

    /// One more scan attempt stays within the machine's integers.
    pub open spec fn can_scan(self) -> bool {
        self.error is None ==> {
            &&& self.cursor < usize::MAX
            &&& self.cursor < self.text.len() ==> {
                &&& self.position.1 < usize::MAX
                &&& self.text[self.cursor as int] == '\n' ==> self.position.0 < usize::MAX
            }
        }
    }

    /// The scans of a pull that ignores the tokens matched by `m` all stay
    /// within the machine's integers: those that yield the ignored tokens,
    /// and the one after them.
    pub open spec fn can_poll<T: TokenTrait, M: TokenMatch<T>>(self, m: M) -> bool
        decreases self.remaining(),
    {
        &&& self.can_scan()
        &&& match self.scanned::<T>() {
            Some((token, _)) => m.matches(&token) ==> self.after_scan::<T>().can_poll::<T, M>(m),
            None => true,
        }
    }

    /// The scans of pulling until the scan ends all stay within the
    /// machine's integers.
    pub open spec fn can_drain<T: TokenTrait>(self) -> bool
        decreases self.remaining(),
    {
        &&& self.can_scan()
        &&& self.scanned::<T>() is Some ==> self.after_scan::<T>().can_drain::<T>()
    }

    /// Scanning the rest of the text stays within the machine's integers,
    /// whatever the characters are. This is enough for every pull, and a
    /// lexer can test it.
    pub open spec fn has_room(self) -> bool {
        self.error is None ==> {
            &&& self.cursor + self.remaining() < usize::MAX
            &&& self.position.0 + self.remaining() <= usize::MAX
            &&& self.position.1 + self.remaining() <= usize::MAX
        }
    }

    /// The context of the character that the next scan attempt reads.
    pub open spec fn context(self) -> Context
        recommends
            self.reads(),
    {
        let character = self.text[self.cursor as int];
        Context { character, position: advance(self.position, character) }
    }

    /// What one scan attempt yields: the token for the character at the
    /// cursor together with that character, or nothing where an error is
    /// latched, the text is exhausted or the character matches no token.
    pub open spec fn scanned<T: TokenTrait>(self) -> Option<(T, char)> {
        if self.reads() {
            match T::matched(self.context().character) {
                Some(token) => Some((token, self.context().character)),
                None => None,
            }
        } else {
            None
        }
    }

    /// The state after one scan attempt. A latched error leaves the state as
    /// it is. Otherwise the cursor moves on by one; past the end of the text
    /// the end of file is latched, and a character that matches no token is
    /// latched with its context.
    pub open spec fn after_scan<T: TokenTrait>(self) -> LexState {
        if self.error is Some {
            self
        } else if self.cursor < self.text.len() {
            LexState {
                cursor: self.cursor + 1,
                position: self.context().position,
                error: if T::matched(self.context().character) is Some {
                    None
                } else {
                    Some(Error::Unexpected(self.context()))
                },
                ..self
            }
        } else {
            LexState {
                cursor: self.cursor + 1,
                error: Some(Error::EndOfFile),
                ..self
            }
        }
    }

    /// The state after `n` scan attempts in a row.
    pub open spec fn after_scans<T: TokenTrait>(self, n: nat) -> LexState
        decreases n,
    {
        if n == 0 {
            self
        } else {
            self.after_scan::<T>().after_scans::<T>((n - 1) as nat)
        }
    }

    /// What a pull without a filter hands out: the scanned token, wrapped
    /// with the context of its character.
    pub open spec fn pulled<T: TokenTrait, W: TokenWrapper<T>>(self) -> Option<W> {
        match self.scanned::<T>() {
            Some((token, _)) => Some(W::wrapped(token, self.context())),
            None => None,
        }
    }

    /// The state after the longest run of scans that all yield tokens which
    /// `m` matches: the state from which the next scan yields a token to
    /// keep, or fails.
    pub open spec fn skipped<T: TokenTrait, M: TokenMatch<T>>(self, m: M) -> LexState
        decreases self.remaining(),
    {
        match self.scanned::<T>() {
            Some((token, _)) => if m.matches(&token) {
                self.after_scan::<T>().skipped::<T, M>(m)
            } else {
                self
            },
            None => self,
        }
    }

    /// The state from which the pull that ignores the tokens matched by `m`
    /// is left: one scan attempt after the ignored run.
    pub open spec fn after_poll<T: TokenTrait, M: TokenMatch<T>>(self, m: M) -> LexState {
        self.skipped::<T, M>(m).after_scan::<T>()
    }

    /// What a poll or a peek that ignores the tokens matched by `m` reports:
    /// the first token that `m` does not match, wrapped, or the error that
    /// ends the scan.
    pub open spec fn polled<T: TokenTrait, W: TokenWrapper<T>, M: TokenMatch<T>>(
        self,
        m: M,
    ) -> Result<W, Error> {
        let at = self.skipped::<T, M>(m);
        match at.pulled::<T, W>() {
            Some(wrapper) => Ok(wrapper),
            None => Err(at.after_scan::<T>().error.unwrap()),
        }
    }

    /// Every token that scanning yields until the scan ends, in order, each
    /// with the context of its character.
    pub open spec fn tokens<T: TokenTrait>(self) -> Seq<(T, Context)>
        decreases self.remaining(),
    {
        match self.scanned::<T>() {
            Some((token, _)) => seq![(token, self.context())] + self.after_scan::<T>().tokens::<T>(),
            None => Seq::empty(),
        }
    }

    /// Everything that pulling hands out until the scan ends, in order: the
    /// tokens, each wrapped with its context.
    pub open spec fn stream<T: TokenTrait, W: TokenWrapper<T>>(self) -> Seq<W> {
        self.tokens::<T>().map_values(|item: (T, Context)| W::wrapped(item.0, item.1))
    }

    /// Every token that pulling hands out until the scan ends where each
    /// pull ignores the tokens matched by `m`, in order, each with the
    /// context of its character.
    pub open spec fn kept_tokens<T: TokenTrait, M: TokenMatch<T>>(self, m: M) -> Seq<(T, Context)>
        decreases self.remaining(),
    {
        let at = self.skipped::<T, M>(m);
        match at.scanned::<T>() {
            Some((token, _)) => {
                proof {
                    skipped_consumes::<T, M>(self, m);
                }
                seq![(token, at.context())] + at.after_scan::<T>().kept_tokens::<T, M>(m)
            },
            None => Seq::empty(),
        }
    }

    /// The state in which pulling until the scan ends leaves the lexer.
    pub open spec fn drained<T: TokenTrait>(self) -> LexState
        decreases self.remaining(),
    {
        if self.scanned::<T>() is Some {
            self.after_scan::<T>().drained::<T>()
        } else {
            self.after_scan::<T>()
        }
    }
}

/// An ignored run only consumes: it leaves the text as it is and no more
/// characters to scan than there were.
pub proof fn skipped_consumes<T: TokenTrait, M: TokenMatch<T>>(s: LexState, m: M)
    ensures
        s.skipped::<T, M>(m).text == s.text,
        s.skipped::<T, M>(m).remaining() <= s.remaining(),
    decreases s.remaining(),
{
    match s.scanned::<T>() {
        Some((token, _)) => {
            if m.matches(&token) {
                skipped_consumes::<T, M>(s.after_scan::<T>(), m);
            }
        },
        None => {},
    }
}

} // verus!
