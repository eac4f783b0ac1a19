//! An agent that runs by itself: what of its output is shown, and what each request
//! asks of it.

use crate::encoding::{byte_len, byte_length, law_prefix_is_longest, prefix_length, prefix_within};
use crate::events::{AgentEvent, AgentEventView};
use crate::order::{item_contents, lemma_item_contents_push};
use crate::text::{append_text, find, lemma_find_from, occurs_at, slice, to_chars, to_text};
use vstd::prelude::*;

verus! {

broadcast use lemma_item_contents_push;

/// What an agent writes to end a relay. An agent that runs by itself has no relay, and
/// this is never shown.
#[verifier::allow_in_spec]
pub fn stop_token() -> &'static str
    returns
        "[CODESWARM:STOP]",
{
    "[CODESWARM:STOP]"
}

/// The bytes of the longest start of the token that is not the token: at least as much of
/// an answer is held back.
pub const HELD_BACK: usize = 15;

proof fn lemma_token()
    ensures
        stop_token()@.len() == 16,
        stop_token()@[0] == '[',
        forall|i: int| 1 <= i < 16 ==> #[trigger] stop_token()@[i] != '[',
{
    reveal_strlit("[CODESWARM:STOP]");
}

/// Whether a text ends with the token.
pub open spec fn ends_in_token(text: Seq<char>) -> bool {
    let token = stop_token()@;
    text.len() >= token.len() && text.skip(text.len() - token.len()) == token
}

/// What is kept of an answer behind what was kept before it. It is read character by
/// character, and a token that is complete is dropped.
pub open spec fn kept_behind(start: Seq<char>, answer: Seq<char>) -> Seq<char>
    decreases answer.len(),
{
    if answer.len() == 0 {
        start
    } else {
        let next = kept_behind(start, answer.drop_last()).push(answer.last());
        if ends_in_token(next) {
            next.take(next.len() - stop_token()@.len())
        } else {
            next
        }
    }
}

/// What is kept of an answer: all of it but the token, also where dropping one token
/// makes up another.
pub open spec fn kept_of(answer: Seq<char>) -> Seq<char> {
    kept_behind(Seq::empty(), answer)
}

/// How much of what is kept stood before the first token that was dropped.
pub open spec fn before_token(answer: Seq<char>) -> int
    decreases answer.len(),
{
    if answer.len() == 0 {
        -1
    } else {
        let before = before_token(answer.drop_last());
        let next = kept_of(answer.drop_last()).push(answer.last());
        let place = next.len() - stop_token()@.len();
        if !ends_in_token(next) {
            before
        } else if 0 <= before <= place {
            before
        } else {
            place
        }
    }
}

/// How many characters at the end of a text begin the token.
pub open spec fn begun(text: Seq<char>) -> int
    decreases text.len(),
{
    if text.len() == 0 {
        0
    } else if text.last() == '[' {
        1
    } else {
        let n = begun(text.drop_last());
        if 0 < n < stop_token()@.len() && stop_token()@[n] == text.last() {
            n + 1
        } else {
            0
        }
    }
}

/// Up to where a text can no longer become part of a token: behind it stand only
/// beginnings of the token, one behind the other.
pub open spec fn settled(text: Seq<char>) -> int
    decreases text.len(),
{
    let n = begun(text);
    if 0 < n <= text.len() {
        settled(text.take(text.len() - n))
    } else {
        text.len() as int
    }
}

/// A text, unless it is empty.
pub open spec fn if_any(text: Seq<char>) -> Seq<Seq<char>> {
    if text.len() > 0 {
        seq![text]
    } else {
        Seq::empty()
    }
}

/// How many characters of what is kept are shown at once: all but an end that could be the
/// start of the token.
pub open spec fn showable(kept: Seq<char>) -> int {
    let most = if byte_len(kept) > HELD_BACK {
        prefix_within(kept, byte_len(kept) - HELD_BACK)
    } else {
        0
    };
    if most < settled(kept) {
        most
    } else {
        settled(kept)
    }
}

/// How many characters of what is kept are shown for having stood before a token.
pub open spec fn cut_off(answer: Seq<char>) -> int {
    let place = before_token(answer);
    let most = settled(kept_of(answer));
    if place < 0 {
        0
    } else if place < most {
        place
    } else {
        most
    }
}

/// How many characters of what is kept are shown in all.
pub open spec fn shown_length(answer: Seq<char>) -> int {
    if cut_off(answer) < showable(kept_of(answer)) {
        showable(kept_of(answer))
    } else {
        cut_off(answer)
    }
}

/// What of an answer is shown, and what of it is held back.
pub open spec fn shown_of(answer: Seq<char>) -> (Seq<Seq<char>>, Seq<char>) {
    let kept = kept_of(answer);
    let first = cut_off(answer);
    let all = shown_length(answer);
    (if_any(kept.take(first)) + if_any(kept.subrange(first, all)), kept.skip(all))
}

/// Texts as events of a slot.
pub open spec fn as_events(slot: usize, texts: Seq<Seq<char>>) -> Seq<AgentEventView> {
    Seq::new(texts.len(), |i: int| AgentEventView::Text { slot, text: texts[i] })
}

/// The events that are shown for an event, and what is held back afterwards.
pub open spec fn visible_events(event: AgentEventView, held: Seq<char>) -> (
    Seq<AgentEventView>,
    Seq<char>,
) {
    match event {
        AgentEventView::Text { slot, text } => {
            let (texts, left) = shown_of(held + text);
            (as_events(slot, texts), left)
        },
        AgentEventView::TurnComplete { slot } => (
            as_events(slot, if_any(kept_of(held))).push(event),
            Seq::empty(),
        ),
        _ => (seq![event], held),
    }
}

/// Texts in a row.
pub open spec fn in_a_row(texts: Seq<Seq<char>>) -> Seq<char>
    decreases texts.len(),
{
    if texts.len() == 0 {
        Seq::empty()
    } else {
        texts[0] + in_a_row(texts.drop_first())
    }
}

/// What was shown and what is held back after the first chunks of an answer.
pub open spec fn after_chunks(chunks: Seq<Seq<char>>, n: int) -> (Seq<char>, Seq<char>)
    decreases n,
{
    if n <= 0 {
        (Seq::empty(), Seq::empty())
    } else {
        let (shown, held) = after_chunks(chunks, n - 1);
        let (texts, left) = shown_of(held + chunks[n - 1]);
        (shown + in_a_row(texts), left)
    }
}

/// What a turn shows of an answer that comes in chunks.
pub open spec fn shown_in_all(chunks: Seq<Seq<char>>) -> Seq<char> {
    let (shown, held) = after_chunks(chunks, chunks.len() as int);
    shown + kept_of(held)
}

// What is kept.

proof fn lemma_kept_has_no_token(start: Seq<char>, answer: Seq<char>)
    requires
        find(start, stop_token()@) is None,
    ensures
        find(kept_behind(start, answer), stop_token()@) is None,
    decreases answer.len(),
{
    let token = stop_token()@;
    lemma_token();
    if answer.len() > 0 {
        let before = kept_behind(start, answer.drop_last());
        lemma_kept_has_no_token(start, answer.drop_last());
        let kept = kept_behind(start, answer);
        lemma_find_from(before, token, 0);
        lemma_find_from(kept, token, 0);
        if let Some(k) = find(kept, token) {
            let next = before.push(answer.last());
            assert(kept =~= next.take(kept.len() as int));
            assert(kept.subrange(k, k + 16) =~= next.subrange(k, k + 16));
            if k + 16 <= before.len() {
                assert(before.subrange(k, k + 16) =~= next.subrange(k, k + 16));
                assert(occurs_at(before, token, k));
            } else {
                assert(next.skip(next.len() - 16) =~= next.subrange(k, k + 16));
            }
        }
    }
}

/// Whatever an agent writes, what is kept of it does not hold the token.
pub proof fn law_what_is_kept_has_no_token(answer: Seq<char>)
    ensures
        find(kept_of(answer), stop_token()@) is None,
{
    lemma_token();
    lemma_find_from(Seq::<char>::empty(), stop_token()@, 0);
    lemma_kept_has_no_token(Seq::empty(), answer);
}

/// An answer without the token is kept whole.
pub proof fn law_plain_answers_are_kept(answer: Seq<char>)
    requires
        find(answer, stop_token()@) is None,
    ensures
        kept_of(answer) == answer,
    decreases answer.len(),
{
    let token = stop_token()@;
    lemma_token();
    if answer.len() > 0 {
        let rest = answer.drop_last();
        lemma_find_from(answer, token, 0);
        lemma_find_from(rest, token, 0);
        if let Some(k) = find(rest, token) {
            assert(rest.subrange(k, k + 16) =~= answer.subrange(k, k + 16));
            assert(occurs_at(answer, token, k));
        }
        law_plain_answers_are_kept(rest);
        assert(rest.push(answer.last()) =~= answer);
        if ends_in_token(answer) {
            assert(answer.subrange(answer.len() - 16, answer.len() as int) =~= answer.skip(
                answer.len() - 16,
            ));
            assert(occurs_at(answer, token, answer.len() - 16));
        }
    } else {
        assert(kept_of(answer) =~= answer);
    }
}

proof fn lemma_kept_in_two(start: Seq<char>, first: Seq<char>, second: Seq<char>)
    ensures
        kept_behind(start, first + second) == kept_behind(kept_behind(start, first), second),
    decreases second.len(),
{
    if second.len() == 0 {
        assert(first + second =~= first);
    } else {
        lemma_kept_in_two(start, first, second.drop_last());
        assert((first + second).drop_last() =~= first + second.drop_last());
        assert((first + second).last() == second.last());
    }
}

proof fn lemma_token_is_dropped(start: Seq<char>, n: int)
    requires
        0 <= n <= 16,
    ensures
        kept_behind(start, stop_token()@.take(n)) == (if n < 16 {
            start + stop_token()@.take(n)
        } else {
            start
        }),
    decreases n,
{
    let token = stop_token()@;
    lemma_token();
    if n > 0 {
        lemma_token_is_dropped(start, n - 1);
        let part = token.take(n);
        assert(part.drop_last() =~= token.take(n - 1));
        let next = start + token.take(n - 1);
        assert(next.push(token[n - 1]) =~= start + part);
        let whole = start + part;
        if n < 16 {
            if ends_in_token(whole) {
                assert(whole.skip(whole.len() - 16)[16 - n] == whole[whole.len() - n]);
                assert(whole[whole.len() - n] == token[0]);
                assert(token[16 - n] != '[');
            }
        } else {
            assert(part =~= token);
            assert(whole.skip(whole.len() - 16) =~= token);
            assert(whole.take(whole.len() - 16) =~= start);
        }
    } else {
        assert(token.take(0) =~= Seq::empty());
        assert(start + token.take(0) =~= start);
    }
}

/// The token is cut out wherever it stands: what is kept is what would be kept of the
/// answer without it.
pub proof fn law_the_token_is_cut_out(before: Seq<char>, after: Seq<char>)
    ensures
        kept_of(before + stop_token()@ + after) == kept_of(before + after),
{
    let token = stop_token()@;
    lemma_token();
    lemma_kept_in_two(Seq::empty(), before + token, after);
    lemma_kept_in_two(Seq::empty(), before, token);
    lemma_kept_in_two(Seq::empty(), before, after);
    assert(token.take(16) =~= token);
    lemma_token_is_dropped(kept_of(before), 16);
}

// What can still become part of a token.

proof fn lemma_begun(text: Seq<char>)
    ensures
        0 <= begun(text) <= 16,
        begun(text) <= text.len(),
        text.skip(text.len() - begun(text)) == stop_token()@.take(begun(text)),
    decreases text.len(),
{
    lemma_token();
    let token = stop_token()@;
    if text.len() > 0 {
        lemma_begun(text.drop_last());
        let n = begun(text);
        if n > 1 {
            assert(text.skip(text.len() - n) =~= text.drop_last().skip(
                text.len() - 1 - (n - 1),
            ).push(text.last()));
            assert(token.take(n) =~= token.take(n - 1).push(token[n - 1]));
        } else if n == 1 {
            assert(text.skip(text.len() - 1) =~= token.take(1));
        } else {
            assert(text.skip(text.len() as int) =~= token.take(0));
        }
    } else {
        assert(text.skip(0) =~= stop_token()@.take(0));
    }
}

proof fn lemma_settled_within(text: Seq<char>)
    ensures
        0 <= settled(text) <= text.len(),
    decreases text.len(),
{
    lemma_begun(text);
    let n = begun(text);
    if n > 0 {
        lemma_settled_within(text.take(text.len() - n));
    }
}

proof fn lemma_begun_behind(first: Seq<char>, second: Seq<char>)
    ensures
        begun(second) > 0 ==> begun(first + second) == begun(second),
        0 < begun(first + second) <= second.len() ==> begun(second) == begun(first + second),
    decreases second.len(),
{
    if second.len() > 0 {
        let both = first + second;
        assert(both.drop_last() =~= first + second.drop_last());
        assert(both.last() == second.last());
        lemma_begun_behind(first, second.drop_last());
    }
}

proof fn lemma_settled_behind(first: Seq<char>, second: Seq<char>)
    requires
        settled(first + second) >= first.len(),
    ensures
        settled(first + second) == first.len() + settled(second),
    decreases second.len(),
{
    let both = first + second;
    lemma_begun(both);
    lemma_begun(second);
    lemma_begun_behind(first, second);
    let n = begun(both);
    if n > 0 {
        lemma_settled_within(both.take(both.len() - n));
        assert(n <= second.len());
        assert(both.take(both.len() - n) =~= first + second.take(second.len() - n));
        lemma_settled_behind(first, second.take(second.len() - n));
    }
}

proof fn lemma_token_is_begun(text: Seq<char>, i: int)
    requires
        ends_in_token(text),
        1 <= i <= 16,
    ensures
        begun(text.take(text.len() - 16 + i)) == i,
    decreases i,
{
    let token = stop_token()@;
    lemma_token();
    let part = text.take(text.len() - 16 + i);
    assert(part.last() == text.skip(text.len() - 16)[i - 1]);
    if i > 1 {
        lemma_token_is_begun(text, i - 1);
        assert(part.drop_last() =~= text.take(text.len() - 16 + (i - 1)));
    }
}

/// One character more leaves alone what was settled.
proof fn lemma_settled_stays(first: Seq<char>, second: Seq<char>, c: char)
    requires
        settled(first + second) >= first.len(),
    ensures
        ({
            let next = kept_behind(first + second, seq![c]);
            &&& next == first + kept_behind(second, seq![c])
            &&& settled(next) >= first.len()
        }),
{
    let token = stop_token()@;
    lemma_token();
    let both = first + second;
    let more = both.push(c);
    reveal_with_fuel(kept_behind, 2);
    assert(seq![c].drop_last() =~= Seq::empty());
    assert(more =~= first + second.push(c));
    lemma_begun(both);
    lemma_begun(more);
    assert(more.drop_last() =~= both);
    if ends_in_token(more) {
        lemma_token_is_begun(more, 15);
        assert(more.take(more.len() - 1) =~= both);
        let rest = both.take(both.len() - 15);
        lemma_settled_within(rest);
        assert(settled(both) == settled(rest));
        assert(second.len() >= 15);
        assert(second.push(c).skip(second.len() + 1 - 16) =~= more.skip(more.len() - 16));
        assert(more.take(more.len() - 16) =~= rest);
        assert(first + second.push(c).take(second.len() + 1 - 16) =~= rest);
    } else {
        if ends_in_token(second.push(c)) {
            assert(second.push(c).skip(second.len() + 1 - 16) =~= more.skip(more.len() - 16));
        }
        let n = begun(more);
        if n > 1 {
            assert(more.take(more.len() - n) =~= both.take(both.len() - (n - 1)));
        } else if n == 1 {
            assert(more.take(more.len() - 1) =~= both);
        }
    }
}

proof fn lemma_settled_stays_kept(first: Seq<char>, second: Seq<char>, answer: Seq<char>)
    requires
        settled(first + second) >= first.len(),
    ensures
        kept_behind(first + second, answer) == first + kept_behind(second, answer),
        settled(kept_behind(first + second, answer)) >= first.len(),
    decreases answer.len(),
{
    if answer.len() > 0 {
        let rest = answer.drop_last();
        let c = answer.last();
        lemma_settled_stays_kept(first, second, rest);
        assert(answer =~= rest + seq![c]);
        lemma_kept_in_two(first + second, rest, seq![c]);
        lemma_kept_in_two(second, rest, seq![c]);
        lemma_settled_stays(first, kept_behind(second, rest), c);
    }
}

proof fn lemma_before_token(answer: Seq<char>)
    ensures
        -1 <= before_token(answer) <= kept_of(answer).len(),
    decreases answer.len(),
{
    if answer.len() > 0 {
        lemma_before_token(answer.drop_last());
    }
}

proof fn lemma_shown_length(answer: Seq<char>)
    ensures
        0 <= cut_off(answer) <= shown_length(answer) <= settled(kept_of(answer)),
        settled(kept_of(answer)) <= kept_of(answer).len(),
{
    let kept = kept_of(answer);
    lemma_settled_within(kept);
    lemma_before_token(answer);
    if byte_len(kept) > HELD_BACK {
        law_prefix_is_longest(kept, byte_len(kept) - HELD_BACK);
    }
}

proof fn lemma_pieces_in_a_row(a: Seq<char>, b: Seq<char>)
    ensures
        in_a_row(if_any(a) + if_any(b)) == a + b,
{
    reveal_with_fuel(in_a_row, 3);
    let texts = if_any(a) + if_any(b);
    if a.len() > 0 && b.len() > 0 {
        assert(texts.drop_first() =~= seq![b]);
        assert(seq![b].drop_first() =~= Seq::empty());
        assert(in_a_row(seq![b]) =~= b);
    } else if a.len() > 0 {
        assert(texts.drop_first() =~= Seq::empty());
        assert(in_a_row(texts) =~= a + b);
    } else if b.len() > 0 {
        assert(texts.drop_first() =~= Seq::empty());
        assert(in_a_row(texts) =~= a + b);
    } else {
        assert(in_a_row(texts) =~= a + b);
    }
}

proof fn lemma_shown_and_held(answer: Seq<char>)
    ensures
        in_a_row(shown_of(answer).0) == kept_of(answer).take(shown_length(answer)),
        in_a_row(shown_of(answer).0) + shown_of(answer).1 == kept_of(answer),
{
    let kept = kept_of(answer);
    let first = cut_off(answer);
    let all = shown_length(answer);
    lemma_shown_length(answer);
    lemma_pieces_in_a_row(kept.take(first), kept.subrange(first, all));
    assert(kept.take(first) + kept.subrange(first, all) =~= kept.take(all));
    assert(kept.take(all) + kept.skip(all) =~= kept);
}

/// What is shown of an answer and what is held back make up what is kept of it.
pub proof fn law_nothing_kept_is_lost(answer: Seq<char>)
    ensures
        in_a_row(shown_of(answer).0) + shown_of(answer).1 == kept_of(answer),
{
    lemma_shown_and_held(answer);
}

proof fn lemma_one_more(texts: Seq<Seq<char>>, n: int)
    requires
        0 <= n < texts.len(),
    ensures
        in_a_row(texts.take(n + 1)) == in_a_row(texts.take(n)) + texts[n],
    decreases n,
{
    reveal_with_fuel(in_a_row, 2);
    if n == 0 {
        assert(texts.take(1).drop_first() =~= Seq::empty());
        assert(texts.take(0) =~= Seq::empty());
        assert(in_a_row(texts.take(1)) =~= in_a_row(texts.take(0)) + texts[0]);
    } else {
        let rest = texts.drop_first();
        lemma_one_more(rest, n - 1);
        assert(texts.take(n + 1).drop_first() =~= rest.take(n));
        assert(texts.take(n).drop_first() =~= rest.take(n - 1));
        assert(in_a_row(texts.take(n + 1)) =~= in_a_row(texts.take(n)) + texts[n]);
    }
}

proof fn lemma_chunks(chunks: Seq<Seq<char>>, n: int)
    requires
        0 <= n <= chunks.len(),
    ensures
        ({
            let (shown, held) = after_chunks(chunks, n);
            &&& shown + held == kept_of(in_a_row(chunks.take(n)))
            &&& settled(shown + held) >= shown.len()
        }),
    decreases n,
{
    let (shown, held) = after_chunks(chunks, n);
    if n == 0 {
        assert(chunks.take(0) =~= Seq::empty());
        assert(shown + held =~= Seq::empty());
    } else {
        lemma_chunks(chunks, n - 1);
        lemma_one_more(chunks, n - 1);
        let (before, kept) = after_chunks(chunks, n - 1);
        let start = in_a_row(chunks.take(n - 1));
        let chunk = chunks[n - 1];
        lemma_kept_in_two(Seq::empty(), start, chunk);
        lemma_settled_stays_kept(before, kept, chunk);
        lemma_held_is_kept(start, before, kept);
        lemma_kept_in_two(Seq::empty(), kept, chunk);
        let answer = kept + chunk;
        assert(kept_of(answer) == kept_behind(kept, chunk));
        lemma_shown_and_held(answer);
        lemma_shown_length(answer);
        lemma_settled_behind(before, kept_of(answer));
        assert(shown + held =~= before + kept_of(answer));
    }
}

/// What is held back of what is kept would be kept by itself.
proof fn lemma_held_is_kept(answer: Seq<char>, shown: Seq<char>, held: Seq<char>)
    requires
        shown + held == kept_of(answer),
    ensures
        kept_of(held) == held,
{
    let token = stop_token()@;
    lemma_token();
    law_what_is_kept_has_no_token(answer);
    let kept = shown + held;
    lemma_find_from(kept, token, 0);
    lemma_find_from(held, token, 0);
    if let Some(k) = find(held, token) {
        assert(held.subrange(k, k + 16) =~= kept.subrange(shown.len() + k, shown.len() + k + 16));
        assert(occurs_at(kept, token, shown.len() + k));
    }
    law_plain_answers_are_kept(held);
}

/// A turn shows what is kept of its answer, in whatever chunks it comes.
pub proof fn law_a_turn_shows_what_is_kept(chunks: Seq<Seq<char>>)
    ensures
        shown_in_all(chunks) == kept_of(in_a_row(chunks)),
{
    let n = chunks.len() as int;
    lemma_chunks(chunks, n);
    assert(chunks.take(n) =~= chunks);
    let (shown, held) = after_chunks(chunks, n);
    lemma_held_is_kept(in_a_row(chunks), shown, held);
}

/// The token is never shown: whatever an agent writes, and in whatever chunks, all that a
/// turn shows does not hold it.
pub proof fn law_the_token_is_never_shown(chunks: Seq<Seq<char>>)
    ensures
        find(shown_in_all(chunks), stop_token()@) is None,
{
    law_a_turn_shows_what_is_kept(chunks);
    law_what_is_kept_has_no_token(in_a_row(chunks));
}

/// An answer without the token is shown whole, in whatever chunks it comes.
pub proof fn law_answers_in_chunks_are_shown_whole(chunks: Seq<Seq<char>>)
    requires
        find(in_a_row(chunks), stop_token()@) is None,
    ensures
        shown_in_all(chunks) == in_a_row(chunks),
{
    law_a_turn_shows_what_is_kept(chunks);
    law_plain_answers_are_kept(in_a_row(chunks));
}

/// The token is hidden in whatever pieces it comes: a turn shows what it would show of the
/// answer without it.
pub proof fn law_a_token_in_pieces_is_hidden(
    chunks: Seq<Seq<char>>,
    before: Seq<char>,
    after: Seq<char>,
)
    requires
        in_a_row(chunks) == before + stop_token()@ + after,
    ensures
        shown_in_all(chunks) == kept_of(before + after),
        find(before + after, stop_token()@) is None ==> shown_in_all(chunks) == before + after,
{
    law_a_turn_shows_what_is_kept(chunks);
    law_the_token_is_cut_out(before, after);
    if find(before + after, stop_token()@) is None {
        law_plain_answers_are_kept(before + after);
    }
}

fn has_token_at_end(chars: &Vec<char>, token: &Vec<char>) -> (yes: bool)
    requires
        token@ == stop_token()@,
        token@.len() == 16,
    ensures
        yes == ends_in_token(chars@),
{
    if chars.len() < token.len() {
        return false;
    }
    let start: usize = chars.len() - token.len();
    let mut i: usize = 0;
    while i < token.len()
        invariant
            i <= token.len(),
            token@ == stop_token()@,
            token@.len() == 16,
            start + 16 == chars.len(),
            forall|k: int| 0 <= k < i ==> chars@[start + k] == #[trigger] token@[k],
        decreases token.len() - i,
    {
        if chars[start + i] != token[i] {
            assert(chars@.skip(start as int)[i as int] != token@[i as int]);
            return false;
        }
        i = i + 1;
    }
    assert(chars@.skip(start as int) =~= token@);
    true
}

fn keep(answer: &Vec<char>) -> (kept: (Vec<char>, Option<usize>))
    ensures
        kept.0@ == kept_of(answer@),
        before_token(answer@) == (match kept.1 {
            Some(place) => place as int,
            None => -1,
        }),
{
    let token = to_chars(stop_token());
    let mut kept: Vec<char> = Vec::new();
    let mut place: Option<usize> = None;
    let mut i: usize = 0;
    proof {
        lemma_token();
        assert(answer@.take(0) =~= Seq::empty());
        assert(kept@ =~= Seq::empty());
    }
    while i < answer.len()
        invariant
            i <= answer@.len(),
            token@ == stop_token()@,
            token@.len() == 16,
            kept@ == kept_of(answer@.take(i as int)),
            before_token(answer@.take(i as int)) == (match place {
                Some(place) => place as int,
                None => -1,
            }),
        decreases answer@.len() - i,
    {
        assert(answer@.take(i + 1).drop_last() =~= answer@.take(i as int));
        kept.push(answer[i]);
        if has_token_at_end(&kept, &token) {
            let left: usize = kept.len() - token.len();
            let shorter = slice(&kept, 0, left);
            assert(shorter@ =~= kept@.take(left as int));
            kept = shorter;
            place = match place {
                Some(before) => if before <= left {
                    Some(before)
                } else {
                    Some(left)
                },
                None => Some(left),
            };
        }
        i = i + 1;
    }
    assert(answer@.take(i as int) =~= answer@);
    (kept, place)
}

fn begun_length(chars: &Vec<char>, end: usize) -> (n: usize)
    requires
        end <= chars.len(),
    ensures
        n == begun(chars@.take(end as int)),
{
    let token = to_chars(stop_token());
    let mut n: usize = 0;
    let mut i: usize = 0;
    proof {
        lemma_token();
        assert(chars@.take(0) =~= Seq::empty());
    }
    while i < end
        invariant
            i <= end <= chars@.len(),
            n <= i,
            token@ == stop_token()@,
            token@.len() == 16,
            n == begun(chars@.take(i as int)),
        decreases end - i,
    {
        assert(chars@.take(i + 1).drop_last() =~= chars@.take(i as int));
        assert(chars@.take(i + 1).last() == chars@[i as int]);
        n = if chars[i] == '[' {
            1
        } else if 0 < n && n < token.len() && token[n] == chars[i] {
            n + 1
        } else {
            0
        };
        i = i + 1;
    }
    n
}

fn settled_length(chars: &Vec<char>) -> (end: usize)
    ensures
        end == settled(chars@),
{
    let mut end: usize = chars.len();
    assert(chars@.take(end as int) =~= chars@);
    loop
        invariant
            end <= chars@.len(),
            settled(chars@) == settled(chars@.take(end as int)),
        decreases end,
    {
        let n: usize = begun_length(chars, end);
        proof {
            lemma_begun(chars@.take(end as int));
        }
        if n == 0 {
            return end;
        }
        assert(chars@.take(end as int).take(end - n) =~= chars@.take(end - n));
        end = end - n;
    }
}

fn push_text(events: &mut Vec<AgentEvent>, slot: usize, text: &Vec<char>)
    ensures
        item_contents(final(events)@) == item_contents(old(events)@) + as_events(
            slot,
            if_any(text@),
        ),
{
    let ghost before = item_contents(events@);
    if text.len() > 0 {
        events.push(AgentEvent::Text { slot, text: to_text(text) });
    }
    assert(item_contents(events@) =~= before + as_events(slot, if_any(text@)));
}

fn show_answer(events: &mut Vec<AgentEvent>, slot: usize, answer: &Vec<char>) -> (left: Vec<char>)
    ensures
        item_contents(final(events)@) == item_contents(old(events)@) + as_events(
            slot,
            shown_of(answer@).0,
        ),
        left@ == shown_of(answer@).1,
{
    let ghost start = item_contents(events@);
    let (kept, place) = keep(answer);
    let most: usize = settled_length(&kept);
    let first: usize = match place {
        Some(place) => if place < most {
            place
        } else {
            most
        },
        None => 0,
    };
    let text = to_text(&kept);
    let bytes: usize = byte_length(text.as_str());
    let within: usize = if bytes > HELD_BACK {
        prefix_length(&kept, bytes - HELD_BACK)
    } else {
        0
    };
    let ready: usize = if within < most {
        within
    } else {
        most
    };
    let all: usize = if first < ready {
        ready
    } else {
        first
    };
    proof {
        lemma_shown_length(answer@);
    }
    let cut = slice(&kept, 0, first);
    let more = slice(&kept, first, all);
    let left = slice(&kept, all, kept.len());
    proof {
        assert(cut@ =~= kept@.take(first as int));
        assert(more@ =~= kept@.subrange(first as int, all as int));
        assert(left@ =~= kept@.skip(all as int));
    }
    push_text(events, slot, &cut);
    push_text(events, slot, &more);
    assert(start + as_events(slot, if_any(cut@)) + as_events(slot, if_any(more@)) =~= start
        + as_events(slot, if_any(cut@) + if_any(more@)));
    left
}

/// The events that are shown for an event of an agent that runs by itself. The token is
/// hidden even where it comes in pieces; `response_tail` holds back what could be the
/// start of it.
pub fn sanitize_direct_event(event: AgentEvent, response_tail: &mut String) -> (visible: Vec<
    AgentEvent,
>)
    ensures
        (item_contents(visible@), final(response_tail)@) == visible_events(
            event@,
            old(response_tail)@,
        ),
{
    let mut visible: Vec<AgentEvent> = Vec::new();
    assert(item_contents(visible@) =~= Seq::empty());
    match event {
        AgentEvent::Text { slot, text } => {
            let mut answer = to_chars(response_tail.as_str());
            append_text(&mut answer, text.as_str());
            let left = show_answer(&mut visible, slot, &answer);
            *response_tail = to_text(&left);
            assert(item_contents(visible@) =~= as_events(slot, shown_of(answer@).0));
        },
        AgentEvent::TurnComplete { slot } => {
            let (text, _) = keep(&to_chars(response_tail.as_str()));
            *response_tail = String::new();
            push_text(&mut visible, slot, &text);
            assert(item_contents(visible@) =~= as_events(slot, if_any(text@)));
            visible.push(AgentEvent::TurnComplete { slot });
        },
        other => {
            visible.push(other);
            assert(item_contents(visible@) =~= seq![other@]);
        },
    }
    visible
}

} // verus!
