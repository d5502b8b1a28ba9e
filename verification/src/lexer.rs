//! The lexer itself.

use core::marker::PhantomData;
use vstd::prelude::*;
use vstd::string::StrSliceExecFns;
use crate::error::{Error, OutOfBounds};
use crate::laws::stream_unfolds;
use crate::state::LexState;
use crate::traits::{TokenMatch, TokenTrait, TokenWrapper};
use crate::utils::Context;

verus! {

/// The main lexer type.
///
/// `T` is the token type, which classifies single characters. `W` is what
/// the lexer hands out: a wrapper round a token and its context. Every token
/// type is a wrapper of itself, so a wrapper is not needed.
///
/// Errors are latched: once a scan has failed, every further pull reports
/// the same condition without reading the text again.
#[derive(Debug, PartialEq, Eq)]
pub struct Lexer<'l, T, W> where T: TokenTrait, W: TokenWrapper<T> {
    cursor: usize,
    content: &'l str,
    pos: (usize, usize),
    error: Option<Error>,
    pd: PhantomData<(T, W)>,
}

impl<'l, T, W> View for Lexer<'l, T, W> where T: TokenTrait, W: TokenWrapper<T> {
    type V = LexState;

    closed spec fn view(&self) -> LexState {
        LexState {
            text: self.content@,
            cursor: self.cursor as nat,
            position: self.pos,
            error: self.error,
        }
    }
}

impl<'l, T, W> Clone for Lexer<'l, T, W> where T: TokenTrait, W: TokenWrapper<T> {
    /// A second lexer in the same state, on the same text.
    fn clone(&self) -> (copy: Self)
        ensures
            copy@ == self@,
    {
        Self {
            content: self.content,
            cursor: self.cursor,
            pos: self.pos,
            error: self.error,
            pd: PhantomData,
        }
    }
}

impl<'l, T, W> Copy for Lexer<'l, T, W> where T: TokenTrait + Copy, W: TokenWrapper<T> + Copy {
}

/// The character that ends at the cursor, that is the last of the first
/// `cursor` characters, if the text has that many.
fn next_char<'l>(content: &'l str, cursor: usize) -> (c: Option<char>)
    requires
        cursor >= 1,
    ensures
        c == if cursor <= content@.len() {
            Some(content@[cursor - 1])
        } else {
            None
        },
{
    if cursor <= content.unicode_len() {
        Some(content.get_char(cursor - 1))
    } else {
        None
    }
}

impl<'l, T, W> Lexer<'l, T, W> where T: TokenTrait, W: TokenWrapper<T> {
    /// Creates a new lexer for the text that is to be tokenized: the cursor
    /// stands before the first character, the position is line one, column
    /// zero, and no error is latched.
    pub fn new(content: &'l str) -> (lexer: Self)
        ensures
            lexer@ == LexState::initial(content@),
    {
        Self { content, cursor: 0, pos: (1, 0), error: None, pd: PhantomData }
    }

    /// Returns the error that made the lexer stop handing out tokens, if it
    /// has stopped.
    pub fn get_error(&self) -> (error: Option<&Error>)
        ensures
            match error {
                Some(e) => self@.error == Some(*e),
                None => self@.error is None,
            },
    {
        self.error.as_ref()
    }

    /// Returns the current cursor position.
    pub fn get_cursor(&self) -> (cursor: usize)
        ensures
            cursor == self@.cursor,
    {
        self.cursor
    }

    /// Sets the new cursor position. Any value is taken; the position and a
    /// latched error stay as they are.
    pub fn set_cursor(&mut self, cursor: usize)
        ensures
            final(self)@ == old(self)@.with_cursor(cursor as nat),
    {
        self.cursor = cursor
    }

    /// Sets the new cursor position if it lies within the text, that is if
    /// it is at most the number of characters, and refuses it otherwise,
    /// leaving the lexer as it is.
    pub fn try_set_cursor(&mut self, cursor: usize) -> (set: Result<(), OutOfBounds>)
        ensures
            cursor <= old(self)@.text.len() ==> set is Ok && final(self)@ == old(self)@.with_cursor(
                cursor as nat,
            ),
            cursor > old(self)@.text.len() ==> final(self)@ == old(self)@ && set == Err::<
                (),
                OutOfBounds,
            >(OutOfBounds { cursor, length: old(self)@.text.len() as usize }),
    {
        let length = self.content.unicode_len();
        if cursor <= length {
            self.cursor = cursor;
            Ok(())
        } else {
            Err(OutOfBounds { cursor, length })
        }
    }

    /// Tests whether scanning the rest of the text stays within the
    /// machine's integers, whatever its characters are. Where it does, every
    /// pull may be called, now and after any number of pulls.
    pub fn has_room(&self) -> (room: bool)
        ensures
            room == self@.has_room(),
    {
        if self.error.is_some() {
            return true;
        }
        let length = self.content.unicode_len();
        let remaining = if self.cursor < length {
            length - self.cursor
        } else {
            0
        };
        self.cursor < usize::MAX - remaining && self.pos.0 <= usize::MAX - remaining && self.pos.1
            <= usize::MAX - remaining
    }

    /// One scan attempt.
    fn next_token(&mut self) -> (scanned: Option<(T, char)>)
        requires
            old(self)@.can_scan(),
        ensures
            scanned == old(self)@.scanned::<T>(),
            final(self)@ == old(self)@.after_scan::<T>(),
    {
        if self.error.is_none() {
            self.cursor += 1;
            if let Some(c) = next_char(self.content, self.cursor) {
                self.pos.1 += 1;
                if c == '\n' {
                    self.pos.0 += 1;
                    self.pos.1 = 0;
                }
                if let Some(t) = T::match_char(c) {
                    Some((t, c))
                } else {
                    self.error = Some(Error::Unexpected(Context::new(c, self.pos)));
                    None
                }
            } else {
                self.error = Some(Error::EndOfFile);
                None
            }
        } else {
            None
        }
    }

    /// Scans on until a token comes that `m` does not match, or the scan
    /// fails.
    fn next_kept<M>(&mut self, m: &M) -> (scanned: Option<(T, char)>) where M: TokenMatch<T>
        requires
            old(self)@.can_poll::<T, M>(*m),
        ensures
            scanned == old(self)@.skipped::<T, M>(*m).scanned::<T>(),
            final(self)@ == old(self)@.after_poll::<T, M>(*m),
    {
        loop
            invariant
                self@.can_poll::<T, M>(*m),
                self@.skipped::<T, M>(*m) == old(self)@.skipped::<T, M>(*m),
            decreases self@.remaining(),
        {
            match self.next_token() {
                None => {
                    return None;
                },
                Some((t, c)) => {
                    if !m.matches_token(&t) {
                        return Some((t, c));
                    }
                },
            }
        }
    }

    /// Like `next`, but tokens that `m` matches are passed over: `m` may be
    /// a single token or a vector of tokens. Hands out the first token that
    /// `m` does not match, or nothing once the scan has ended.
    pub fn next_ignored<M>(&mut self, m: M) -> (item: Option<W>) where M: TokenMatch<T>
        requires
            old(self)@.can_poll::<T, M>(m),
        ensures
            item == old(self)@.skipped::<T, M>(m).pulled::<T, W>(),
            final(self)@ == old(self)@.after_poll::<T, M>(m),
    {
        match self.next_kept(&m) {
            Some((t, c)) => Some(W::wrap(t, Context::new(c, self.pos))),
            None => None,
        }
    }

    /// Like `next_ignored`, but the end of the scan is reported as the error
    /// that ended it.
    pub fn poll<M>(&mut self, m: &M) -> (item: Result<W, Error>) where M: TokenMatch<T>
        requires
            old(self)@.can_poll::<T, M>(*m),
        ensures
            item == old(self)@.polled::<T, W, M>(*m),
            final(self)@ == old(self)@.after_poll::<T, M>(*m),
    {
        match self.next_kept(m) {
            Some((t, c)) => Ok(W::wrap(t, Context::new(c, self.pos))),
            None => Err(self.error.unwrap()),
        }
    }

    /// Reports what the next `poll` with the same `m` will report, and
    /// leaves the lexer as it is: the scan is made on a copy of the state.
    pub fn peek<M>(&self, m: &M) -> (item: Result<W, Error>) where M: TokenMatch<T>
        requires
            self@.can_poll::<T, M>(*m),
        ensures
            item == self@.polled::<T, W, M>(*m),
    {
        let mut probe: Lexer<'l, T, W> = Self {
            content: self.content,
            cursor: self.cursor,
            pos: self.pos,
            error: self.error,
            pd: PhantomData,
        };
        probe.poll(m)
    }

    /// Pulls until the scan ends and returns everything that was handed
    /// out, in order.
    pub fn collect(&mut self) -> (items: Vec<W>)
        requires
            old(self)@.can_drain::<T>(),
        ensures
            items@ == old(self)@.stream::<T, W>(),
            final(self)@ == old(self)@.drained::<T>(),
    {
        let mut items: Vec<W> = Vec::new();
        loop
            invariant
                self@.can_drain::<T>(),
                items@ + self@.stream::<T, W>() == old(self)@.stream::<T, W>(),
                self@.drained::<T>() == old(self)@.drained::<T>(),
            decreases self@.remaining(),
        {
            proof {
                stream_unfolds::<T, W>(self@);
            }
            match self.next() {
                Some(item) => {
                    items.push(item);
                },
                None => {
                    return items;
                },
            }
        }
    }

    /// Hands out the next token, wrapped with its context, or nothing once
    /// the scan has ended.
    pub fn next(&mut self) -> (item: Option<W>)
        requires
            old(self)@.can_scan(),
        ensures
            item == old(self)@.pulled::<T, W>(),
            final(self)@ == old(self)@.after_scan::<T>(),
    {
        match self.next_token() {
            Some((t, c)) => Some(W::wrap(t, Context::new(c, self.pos))),
            None => None,
        }
    }
}

} // verus!
