//! What holds of scanning in general, proved over the model of the lexer's
//! state.

use vstd::prelude::*;
use crate::error::Error;
use crate::state::{advance, advance_over, kept_by, skipped_consumes, LexState};
use crate::traits::{TokenMatch, TokenTrait, TokenWrapper};
use crate::utils::Context;

verus! {

/// Pulling everything is pulling once and then pulling everything that is
/// left: the stream starts with what one pull hands out, and is empty
/// exactly where that pull hands out nothing.
pub proof fn stream_unfolds<T: TokenTrait, W: TokenWrapper<T>>(s: LexState)
    ensures
        s.stream::<T, W>() == match s.pulled::<T, W>() {
            Some(wrapper) => seq![wrapper] + s.after_scan::<T>().stream::<T, W>(),
            None => Seq::empty(),
        },
{
    let wrap = |item: (T, Context)| W::wrapped(item.0, item.1);
    match s.scanned::<T>() {
        Some((token, _)) => {
            let rest = s.after_scan::<T>().tokens::<T>();
            assert((seq![(token, s.context())] + rest).map_values(wrap) =~= seq![
                W::wrapped(token, s.context()),
            ] + rest.map_values(wrap));
        },
        None => {
            assert(s.tokens::<T>().map_values(wrap) =~= Seq::<W>::empty());
        },
    }
}

/// Consuming one character and then `n` more is consuming `n + 1`.
proof fn consumed_step(s: LexState, n: nat)
    requires
        s.cursor + n + 1 <= s.text.len(),
    ensures
        s.consumed(1).consumed(n) == s.consumed(n + 1),
        s.consumed(1).position == advance(s.position, s.text[s.cursor as int]),
{
    let c = s.cursor as int;
    let one = s.text.subrange(c, c + 1);
    assert(one.drop_first() =~= Seq::<char>::empty());
    assert(advance_over(s.position, one) == advance_over(
        advance(s.position, one.first()),
        one.drop_first(),
    ));
    let all = s.text.subrange(c, c + n + 1);
    assert(all.drop_first() =~= s.text.subrange(c + 1, c + 1 + n));
    assert(advance_over(s.position, all) == advance_over(
        advance(s.position, all.first()),
        all.drop_first(),
    ));
}

/// As long as the characters match, each scan consumes one character and
/// yields its token: after `n` scans over `n` matching characters the state
/// is the one in which these characters are consumed, the stream of tokens
/// starts with their tokens, in order and each with the context of its
/// character, and goes on as it does from that state.
pub proof fn matched_run<T: TokenTrait>(s: LexState, n: nat)
    requires
        s.error is None,
        s.cursor + n <= s.text.len(),
        forall|i: int| s.cursor <= i < s.cursor + n ==> (#[trigger] T::matched(s.text[i])) is Some,
    ensures
        s.after_scans::<T>(n) == s.consumed(n),
        s.tokens::<T>() == Seq::new(n, |k: int| s.token_at::<T>(k)) + s.consumed(n).tokens::<T>(),
        s.drained::<T>() == s.consumed(n).drained::<T>(),
    decreases n,
{
    if n == 0 {
        assert(s.text.subrange(s.cursor as int, s.cursor as int + 0) =~= Seq::<char>::empty());
        assert(s.tokens::<T>() =~= Seq::new(0, |k: int| s.token_at::<T>(k)) + s.tokens::<T>());
    } else {
        let m = (n - 1) as nat;
        let next = s.after_scan::<T>();
        consumed_step(s, m);
        assert(T::matched(s.text[s.cursor as int]) is Some);
        assert(next == s.consumed(1));
        matched_run::<T>(next, m);
        assert forall|k: int| 0 <= k < m implies next.token_at::<T>(k) == s.token_at::<T>(k + 1) by {
            consumed_step(s, k as nat);
        }
        assert(s.token_at::<T>(0) == (s.scanned::<T>().unwrap().0, s.context()));
        assert(s.tokens::<T>() =~= Seq::new(n, |k: int| s.token_at::<T>(k)) + s.consumed(
            n,
        ).tokens::<T>());
    }
}

/// A text of matching characters yields one token for each character, and
/// then the end of the file. From a state with no error latched and the
/// cursor within the text, as that of a new lexer is, where every character
/// after the cursor matches a token: pulling until the scan ends hands out
/// as many items as there are characters left, the item for each character
/// being its token wrapped with its context, and leaves the end of the file
/// latched, with the cursor one past the text's length.
pub proof fn matched_text_ends_in_end_of_file<T: TokenTrait, W: TokenWrapper<T>>(s: LexState)
    requires
        s.error is None,
        s.cursor <= s.text.len(),
        forall|i: int| s.cursor <= i < s.text.len() ==> (#[trigger] T::matched(s.text[i])) is Some,
    ensures
        s.stream::<T, W>().len() == s.text.len() - s.cursor,
        forall|k: int|
            0 <= k < s.text.len() - s.cursor ==> #[trigger] s.stream::<T, W>()[k] == W::wrapped(
                s.token_at::<T>(k).0,
                s.token_at::<T>(k).1,
            ),
        s.drained::<T>() == (LexState {
            error: Some(Error::EndOfFile),
            cursor: s.text.len() + 1,
            ..s.consumed((s.text.len() - s.cursor) as nat)
        }),
{
    let n = (s.text.len() - s.cursor) as nat;
    matched_run::<T>(s, n);
    assert(s.consumed(n).tokens::<T>() =~= Seq::<(T, Context)>::empty());
    assert(s.tokens::<T>() =~= Seq::new(n, |k: int| s.token_at::<T>(k)));
}

/// A character that matches no token ends the scan, and is latched with its
/// context. From a state with no error latched, where the next `n`
/// characters match and the one after them does not: pulling until the scan
/// ends hands out the `n` items for the characters before it, and leaves
/// that character latched as unexpected, with the position counted up to and
/// over it and the cursor behind it. From there no pull hands out anything,
/// and a scan attempt changes nothing.
pub proof fn unmatched_character_is_latched<T: TokenTrait, W: TokenWrapper<T>>(s: LexState, n: nat)
    requires
        s.error is None,
        s.cursor + n < s.text.len(),
        forall|i: int| s.cursor <= i < s.cursor + n ==> (#[trigger] T::matched(s.text[i])) is Some,
        T::matched(s.text[s.cursor as int + n]) is None,
    ensures
        s.stream::<T, W>().len() == n,
        forall|k: int|
            0 <= k < n ==> #[trigger] s.stream::<T, W>()[k] == W::wrapped(
                s.token_at::<T>(k).0,
                s.token_at::<T>(k).1,
            ),
        s.drained::<T>() == (LexState {
            error: Some(Error::Unexpected(s.consumed(n).context())),
            cursor: s.cursor + n + 1,
            position: s.consumed(n).context().position,
            ..s
        }),
        s.consumed(n).context().character == s.text[s.cursor as int + n],
        s.consumed(n).context().position == advance_over(
            s.position,
            s.text.subrange(s.cursor as int, s.cursor as int + n + 1),
        ),
        s.drained::<T>().pulled::<T, W>() is None,
        s.drained::<T>().after_scan::<T>() == s.drained::<T>(),
{
    matched_run::<T>(s, n);
    assert(s.consumed(n).tokens::<T>() =~= Seq::<(T, Context)>::empty());
    assert(s.tokens::<T>() =~= Seq::new(n, |k: int| s.token_at::<T>(k)));
    position_of_last(s.position, s.text.subrange(s.cursor as int, s.cursor as int + n + 1));
    assert(s.text.subrange(s.cursor as int, s.cursor as int + n + 1).drop_last() =~= s.text.subrange(
        s.cursor as int,
        s.cursor as int + n,
    ));
}

/// Counting the position over some characters is counting it over all but
/// the last, and then over the last.
pub proof fn position_of_last(position: (usize, usize), chars: Seq<char>)
    requires
        chars.len() > 0,
    ensures
        advance_over(position, chars) == advance(
            advance_over(position, chars.drop_last()),
            chars.last(),
        ),
    decreases chars.len(),
{
    if chars.len() == 1 {
        assert(chars.drop_first() =~= Seq::<char>::empty());
        assert(chars.drop_last() =~= Seq::<char>::empty());
        assert(advance_over(advance(position, chars.first()), chars.drop_first()) == advance(
            position,
            chars.first(),
        ));
    } else {
        position_of_last(advance(position, chars.first()), chars.drop_first());
        assert(chars.drop_first().drop_last() =~= chars.drop_last().drop_first());
        assert(chars.drop_last().first() == chars.first());
    }
}

/// A latched error is final: no scan attempt yields anything or changes the
/// state, whatever is ignored, and a poll reports the latched error.
pub proof fn latched_error_is_final<T: TokenTrait, W: TokenWrapper<T>, M: TokenMatch<T>>(
    s: LexState,
    m: M,
    n: nat,
)
    requires
        s.error is Some,
    ensures
        s.scanned::<T>() is None,
        s.pulled::<T, W>() is None,
        s.after_scan::<T>() == s,
        s.after_scans::<T>(n) == s,
        s.skipped::<T, M>(m) == s,
        s.after_poll::<T, M>(m) == s,
        s.polled::<T, W, M>(m) == Err::<W, Error>(s.error.unwrap()),
        s.stream::<T, W>() == Seq::<W>::empty(),
        s.drained::<T>() == s,
    decreases n,
{
    if n > 0 {
        latched_error_is_final::<T, W, M>(s, m, (n - 1) as nat);
    }
    assert(s.stream::<T, W>() =~= Seq::<W>::empty());
}

/// Room for the rest of the text is room for every scan. A new lexer has it
/// unless its text has as many characters as the machine can count. Where a
/// state has it, the scans of every pull are within the machine's integers,
/// whatever is ignored, and the state still has it after a scan attempt,
/// after an ignored run and after a pull that ignores tokens.
pub proof fn room_is_kept<T: TokenTrait, M: TokenMatch<T>>(s: LexState, m: M)
    requires
        s.has_room(),
    ensures
        s.can_scan(),
        s.can_poll::<T, M>(m),
        s.can_drain::<T>(),
        s.after_scan::<T>().has_room(),
        s.skipped::<T, M>(m).has_room(),
        s.after_poll::<T, M>(m).has_room(),
        LexState::initial(s.text).has_room() <==> s.text.len() < usize::MAX,
    decreases s.remaining(),
{
    if s.scanned::<T>() is Some {
        room_is_kept::<T, M>(s.after_scan::<T>(), m);
    }
}

/// A peek foretells the pull. What a poll or a peek reports for a state is
/// what the pull that ignores the same tokens hands out from it: the same
/// item where there is one, and where there is none the error that this
/// pull latches, or finds latched.
pub proof fn peek_foretells_pull<T: TokenTrait, W: TokenWrapper<T>, M: TokenMatch<T>>(
    s: LexState,
    m: M,
)
    ensures
        match s.polled::<T, W, M>(m) {
            Ok(wrapper) => s.skipped::<T, M>(m).pulled::<T, W>() == Some(wrapper),
            Err(error) => s.skipped::<T, M>(m).pulled::<T, W>() is None && s.after_poll::<T, M>(
                m,
            ).error == Some(error),
        },
{
}

/// Scanning never clears an error and never changes the text.
pub proof fn scans_keep_text_and_error<T: TokenTrait>(s: LexState, n: nat)
    ensures
        s.after_scans::<T>(n).text == s.text,
        s.error is Some ==> s.after_scans::<T>(n) == s,
    decreases n,
{
    if n > 0 {
        scans_keep_text_and_error::<T>(s.after_scan::<T>(), (n - 1) as nat);
    }
}

/// What a scan yields depends on the text, on the cursor and on whether an
/// error is latched, and on nothing else: two states that agree in these
/// yield the same token, with or without an ignore filter, and leave the
/// cursor at the same place.
pub proof fn scan_depends_on_cursor<T: TokenTrait, M: TokenMatch<T>>(a: LexState, b: LexState, m: M)
    requires
        a.text == b.text,
        a.cursor == b.cursor,
        a.error is None <==> b.error is None,
    ensures
        a.scanned::<T>() == b.scanned::<T>(),
        a.skipped::<T, M>(m).scanned::<T>() == b.skipped::<T, M>(m).scanned::<T>(),
        a.skipped::<T, M>(m).cursor == b.skipped::<T, M>(m).cursor,
        a.after_poll::<T, M>(m).cursor == b.after_poll::<T, M>(m).cursor,
    decreases a.remaining(),
{
    match a.scanned::<T>() {
        Some((token, _)) => {
            if m.matches(&token) {
                scan_depends_on_cursor::<T, M>(a.after_scan::<T>(), b.after_scan::<T>(), m);
            }
        },
        None => {},
    }
}

/// Saving the cursor and restoring it later repeats the scan. Where `later`
/// is any state that the lexer reaches from `saved` on the same text, such
/// as the one after any number of scans, and no error was latched on the
/// way, the scan that follows the restoring of the saved cursor yields the
/// token and the character that the scan from `saved` yields, with or
/// without an ignore filter. The position is not restored with the cursor.
pub proof fn restored_cursor_repeats_scan<T: TokenTrait, M: TokenMatch<T>>(
    saved: LexState,
    later: LexState,
    m: M,
)
    requires
        later.text == saved.text,
        later.error is Some ==> saved.error is Some,
        saved.error is Some ==> later.error is Some,
    ensures
        later.with_cursor(saved.cursor).scanned::<T>() == saved.scanned::<T>(),
        later.with_cursor(saved.cursor).skipped::<T, M>(m).scanned::<T>() == saved.skipped::<T, M>(
            m,
        ).scanned::<T>(),
{
    scan_depends_on_cursor::<T, M>(later.with_cursor(saved.cursor), saved, m);
}

/// The same for the state after `n` scans: if none of them has latched an
/// error, restoring the cursor makes the next scan yield what the scan from
/// the saved state yields.
pub proof fn restored_cursor_repeats_scan_after<T: TokenTrait, M: TokenMatch<T>>(
    saved: LexState,
    n: nat,
    m: M,
)
    requires
        saved.after_scans::<T>(n).error is Some ==> saved.error is Some,
    ensures
        saved.after_scans::<T>(n).with_cursor(saved.cursor).scanned::<T>() == saved.scanned::<T>(),
        saved.after_scans::<T>(n).with_cursor(saved.cursor).skipped::<T, M>(m).scanned::<T>()
            == saved.skipped::<T, M>(m).scanned::<T>(),
{
    scans_keep_text_and_error::<T>(saved, n);
    restored_cursor_repeats_scan::<T, M>(saved, saved.after_scans::<T>(n), m);
}

/// Ignoring is filtering: what comes out of pulls that ignore the tokens
/// matched by `m` is the plain stream of tokens without those that `m`
/// matches. So none of them comes out, and the others come out unchanged and
/// in their order.
pub proof fn ignoring_filters_the_stream<T: TokenTrait, M: TokenMatch<T>>(s: LexState, m: M)
    ensures
        s.kept_tokens::<T, M>(m) == s.tokens::<T>().filter(kept_by::<T, M>(m)),
        forall|k: int|
            0 <= k < s.kept_tokens::<T, M>(m).len() ==> !m.matches(
                &(#[trigger] s.kept_tokens::<T, M>(m)[k]).0,
            ),
    decreases s.remaining(),
{
    let keep = kept_by::<T, M>(m);
    let at = s.skipped::<T, M>(m);
    ignoring_pulls_the_first_kept::<T, M>(s, m);
    skipped_consumes::<T, M>(s, m);
    if at.scanned::<T>() is Some {
        ignoring_filters_the_stream::<T, M>(at.after_scan::<T>(), m);
    }
    assert forall|k: int| 0 <= k < s.kept_tokens::<T, M>(m).len() implies !m.matches(
        &(#[trigger] s.kept_tokens::<T, M>(m)[k]).0,
    ) by {
        s.tokens::<T>().lemma_filter_pred(keep, k);
        assert(keep(s.tokens::<T>().filter(keep)[k]));
    }
}

/// One pull that ignores the tokens matched by `m` takes the first token of
/// the plain stream that `m` does not match. The token it yields is never
/// one that `m` matches, skipping the ignored tokens a second time changes
/// nothing, and the tokens that `m` does not match in the stream from the
/// state the pull leaves are the rest of those in the stream from here.
pub proof fn ignoring_pulls_the_first_kept<T: TokenTrait, M: TokenMatch<T>>(s: LexState, m: M)
    ensures
        s.skipped::<T, M>(m).skipped::<T, M>(m) == s.skipped::<T, M>(m),
        match s.skipped::<T, M>(m).scanned::<T>() {
            Some((token, _)) => !m.matches(&token),
            None => true,
        },
        s.tokens::<T>().filter(kept_by::<T, M>(m)) == match s.skipped::<T, M>(m).scanned::<T>() {
            Some((token, _)) => seq![(token, s.skipped::<T, M>(m).context())] + s.after_poll::<
                T,
                M,
            >(m).tokens::<T>().filter(kept_by::<T, M>(m)),
            None => Seq::empty(),
        },
    decreases s.remaining(),
{
    let keep = kept_by::<T, M>(m);
    match s.scanned::<T>() {
        Some((token, _)) => {
            let rest = s.after_scan::<T>().tokens::<T>();
            rest.lemma_filter_prepend((token, s.context()), keep);
            if m.matches(&token) {
                ignoring_pulls_the_first_kept::<T, M>(s.after_scan::<T>(), m);
                assert(s.tokens::<T>().filter(keep) =~= rest.filter(keep));
            }
        },
        None => {
            s.tokens::<T>().lemma_filter_len(keep);
            assert(s.tokens::<T>().filter(keep) =~= Seq::<(T, Context)>::empty());
        },
    }
}

} // verus!
