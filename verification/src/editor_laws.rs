//! What holds of every prompt editor: which submissions it shows again, and what it offers
//! to complete a word with.

use crate::editor::{
    beginning_with, candidates_in, completing, completion_score, earlier, later, law_text_is_kept,
    matches_for, points_of, prompt_text, recalling, remembering, scored, token_of, word_start,
    EditorView, Scored, ScoredView, MAX_PROMPT_HISTORY,
};
use crate::order::{law_ranked_is_ordered, law_ranked_keeps_items, ranked, Ranked};
use crate::path_index::{count_of, stands_in_order};
use crate::text::{
    begins_with, find_char, find_last, is_blank, is_space, lemma_find_char, lower, starts_with,
};
use vstd::prelude::*;

verus! {

// History.

/// Going up from a draft shows the newest submission, and from a submission the one before
/// it; going down shows the one after it, and a blank draft behind the newest.
pub proof fn law_submissions_are_shown_again_in_order(editor: EditorView, k: usize)
    requires
        k < editor.history.len() <= usize::MAX,
    ensures
        editor.position is None ==> earlier(editor) == Some((editor.history.len() - 1) as usize),
        prompt_text(recalling(editor, k)) == editor.history[k as int],
        recalling(editor, k).history == editor.history,
        k > 0 ==> earlier(recalling(editor, k)) == Some((k - 1) as usize),
        k == 0 ==> earlier(recalling(editor, k)) is None,
        k + 1 < editor.history.len() ==> prompt_text(later(recalling(editor, k), k))
            == editor.history[k + 1],
        k + 1 == editor.history.len() ==> prompt_text(later(recalling(editor, k), k)).len() == 0,
{
    law_text_is_kept(editor, editor.history[k as int]);
    let shown = recalling(editor, k);
    if k + 1 < editor.history.len() {
        law_text_is_kept(shown, editor.history[k + 1]);
    } else {
        law_text_is_kept(shown, Seq::empty());
    }
}

/// A submission is remembered behind the others, and as many of those as there is room for
/// stay, in their order; a blank one is not remembered.
pub proof fn law_older_submissions_stay(editor: EditorView, prompt: Seq<char>)
    requires
        editor.history.len() <= MAX_PROMPT_HISTORY,
    ensures
        ({
            let after = remembering(editor, prompt).history;
            &&& is_blank(prompt) ==> after == editor.history
            &&& !is_blank(prompt) ==> after.len() > 0 && after.last() == prompt
            &&& !is_blank(prompt) && editor.history.len() < MAX_PROMPT_HISTORY && (
            editor.history.len() == 0 || editor.history.last() != prompt) ==> after
                == editor.history.push(prompt)
            &&& !is_blank(prompt) && editor.history.len() == MAX_PROMPT_HISTORY
                && editor.history.last() != prompt ==> after == editor.history.drop_first().push(
                prompt,
            )
        }),
{
    let longer = editor.history.push(prompt);
    if editor.history.len() == MAX_PROMPT_HISTORY {
        assert(longer.skip(1) =~= editor.history.drop_first().push(prompt));
    }
}

// Completion.

proof fn lemma_beginning_with(token: Seq<char>, candidates: Seq<Seq<char>>, candidate: Seq<char>)
    ensures
        beginning_with(token, candidates).contains(candidate) <==> candidates.contains(candidate)
            && starts_with(candidate, token),
    decreases candidates.len(),
{
    let after = beginning_with(token, candidates);
    if candidates.len() > 0 {
        let rest = candidates.drop_last();
        let before = beginning_with(token, rest);
        lemma_beginning_with(token, rest, candidate);
        if candidates.contains(candidate) && starts_with(candidate, token) {
            let k = choose|k: int| 0 <= k < candidates.len() && candidates[k] == candidate;
            if k < rest.len() {
                assert(rest[k] == candidate);
                assert(before.contains(candidate));
                let i = choose|i: int| 0 <= i < before.len() && before[i] == candidate;
                assert(after[i] == candidate);
            } else {
                assert(after.last() == candidate);
            }
        }
        if after.contains(candidate) {
            let i = choose|i: int| 0 <= i < after.len() && after[i] == candidate;
            if i < before.len() {
                assert(before[i] == candidate);
                assert(before.contains(candidate));
                let k = choose|k: int| 0 <= k < rest.len() && rest[k] == candidate;
                assert(candidates[k] == candidate);
            } else {
                assert(candidates[candidates.len() - 1] == candidate);
            }
        }
    }
}

proof fn lemma_points(query: Seq<char>, text: Seq<char>, from: int, previous: Option<int>)
    requires
        0 <= from <= text.len(),
    ensures
        points_of(query, text, from, previous) is Some <==> exists|places: Seq<int>| #[trigger]
            stands_in_order(query, text, places, from),
        points_of(query, text, from, previous) matches Some(points) ==> query.len() <= points <= 3
            * query.len(),
    decreases query.len(),
{
    if query.len() == 0 {
        assert(stands_in_order(query, text, Seq::<int>::empty(), from));
    } else {
        let rest = text.skip(from);
        lemma_find_char(rest, query[0]);
        let k = from + find_char(rest, query[0]);
        if k < text.len() {
            let behind = query.drop_first();
            lemma_points(behind, text, k + 1, Some(k));
            assert(text[k] == rest[k - from]);
            if points_of(query, text, from, previous) is Some {
                let later = choose|places: Seq<int>| #[trigger]
                    stands_in_order(behind, text, places, k + 1);
                let places = seq![k] + later;
                assert forall|i: int| 0 <= i < places.len() implies from <= #[trigger] places[i]
                    < text.len() && text[places[i]] == query[i] by {
                    if i > 0 {
                        assert(places[i] == later[i - 1]);
                        assert(query[i] == behind[i - 1]);
                    }
                }
                assert forall|i: int, j: int| 0 <= i < j < places.len() implies #[trigger] places[i]
                    < #[trigger] places[j] by {
                    assert(places[j] == later[j - 1]);
                    if i > 0 {
                        assert(places[i] == later[i - 1]);
                    }
                }
                assert(stands_in_order(query, text, places, from));
            }
            if exists|places: Seq<int>| #[trigger] stands_in_order(query, text, places, from) {
                let places = choose|places: Seq<int>| #[trigger]
                    stands_in_order(query, text, places, from);
                assert(rest[places[0] - from] == query[0]);
                let later = places.drop_first();
                assert forall|i: int| 0 <= i < later.len() implies k + 1 <= #[trigger] later[i]
                    < text.len() && text[later[i]] == behind[i] by {
                    assert(later[i] == places[i + 1]);
                    assert(places[0] < places[i + 1]);
                }
                assert forall|i: int, j: int| 0 <= i < j < later.len() implies #[trigger] later[i]
                    < #[trigger] later[j] by {
                    assert(later[i] == places[i + 1] && later[j] == places[j + 1]);
                }
                assert(stands_in_order(behind, text, later, k + 1));
            }
        } else if exists|places: Seq<int>| #[trigger] stands_in_order(query, text, places, from) {
            let places = choose|places: Seq<int>| #[trigger]
                stands_in_order(query, text, places, from);
            assert(rest[places[0] - from] == query[0]);
        }
    }
}

proof fn lemma_scored(query: Seq<char>, candidates: Seq<Seq<char>>)
    requires
        3 * query.len() <= u128::MAX,
    ensures
        forall|s: ScoredView|
            #[trigger] scored(query, candidates).contains(s) <==> candidates.contains(s.candidate)
                && completion_score(query, s.candidate) == Some(s.score as int),
    decreases candidates.len(),
{
    let after = scored(query, candidates);
    if candidates.len() > 0 {
        let rest = candidates.drop_last();
        let before = scored(query, rest);
        let last = candidates.last();
        lemma_scored(query, rest);
        lemma_points(lower(query), lower(last), 0, None);
        assert forall|s: ScoredView| #[trigger] after.contains(s) <==> candidates.contains(
            s.candidate,
        ) && completion_score(query, s.candidate) == Some(s.score as int) by {
            if after.contains(s) {
                let i = choose|i: int| 0 <= i < after.len() && after[i] == s;
                if i < before.len() {
                    assert(before[i] == s);
                    assert(before.contains(s));
                    let k = choose|k: int| 0 <= k < rest.len() && rest[k] == s.candidate;
                    assert(candidates[k] == s.candidate);
                } else {
                    assert(candidates[candidates.len() - 1] == s.candidate);
                }
            }
            if candidates.contains(s.candidate) && completion_score(query, s.candidate) == Some(
                s.score as int,
            ) {
                let k = choose|k: int| 0 <= k < candidates.len() && candidates[k] == s.candidate;
                if k < rest.len() {
                    assert(rest[k] == s.candidate);
                    assert(before.contains(s));
                    let i = choose|i: int| 0 <= i < before.len() && before[i] == s;
                    assert(after[i] == s);
                } else {
                    assert(after.last() == s);
                }
            }
        }
    }
}

/// A command is completed with every candidate that begins with what was typed, and with no
/// other.
pub proof fn law_commands_are_completed_by_their_beginning(
    token: Seq<char>,
    candidates: Seq<Seq<char>>,
    candidate: Seq<char>,
)
    requires
        begins_with(token, '/'),
    ensures
        matches_for(token, candidates).contains(candidate) <==> candidates.contains(candidate)
            && starts_with(candidate, token),
{
    lemma_beginning_with(token, candidates, candidate);
}

/// A path is completed with every candidate that holds the characters of what was typed, in
/// order, and the candidates that fit better come first.
pub proof fn law_better_completions_come_first(
    token: Seq<char>,
    candidates: Seq<Seq<char>>,
    candidate: Seq<char>,
    i: int,
    j: int,
)
    requires
        begins_with(token, '@'),
        token.len() >= 4,
        3 * token.len() <= u128::MAX,
        0 <= i < j < matches_for(token, candidates).len(),
    ensures
        matches_for(token, candidates).contains(candidate) <==> candidates.contains(candidate)
            && exists|places: Seq<int>| #[trigger]
            stands_in_order(lower(token), lower(candidate), places, 0),
        completion_score(token, matches_for(token, candidates)[i]) matches Some(better)
            && completion_score(token, matches_for(token, candidates)[j]) matches Some(worse)
            && better >= worse,
{
    let found = scored(token, candidates);
    let list = ranked::<Scored>(found);
    lemma_scored(token, candidates);
    lemma_points(lower(token), lower(candidate), 0, None);
    law_ranked_is_ordered::<Scored>(found);
    law_ranked_keeps_items::<Scored>(found);
    broadcast use vstd::seq_lib::group_to_multiset_ensures;

    assert forall|s: ScoredView| #[trigger] list.contains(s) <==> found.contains(s) by {
        assert(list.to_multiset().count(s) == found.to_multiset().count(s));
    }
    let names = candidates_in(list);
    if names.contains(candidate) {
        let k = choose|k: int| 0 <= k < names.len() && names[k] == candidate;
        assert(list.contains(list[k]));
        assert(found.contains(list[k]));
    }
    if candidates.contains(candidate) && completion_score(token, candidate) is Some {
        let s = ScoredView {
            score: completion_score(token, candidate)->0 as u128,
            candidate,
        };
        assert(found.contains(s));
        assert(list.contains(s));
        let k = choose|k: int| 0 <= k < list.len() && list[k] == s;
        assert(names[k] == candidate);
    }
    assert(list.contains(list[i]) && list.contains(list[j]));
    assert(found.contains(list[i]) && found.contains(list[j]));
    assert(!Scored::ranks_before(list[j], list[i]));
}

/// Completing puts one of the candidates in place of the word before the cursor, and leaves
/// the rest of the line and the other lines as they are. Doing it again goes on to the next
/// candidate, and from the last to the first.
pub proof fn law_completion_replaces_the_word(editor: EditorView)
    requires
        editor.cursor.0 < editor.lines.len(),
        editor.cursor.1 <= editor.lines[editor.cursor.0 as int].len(),
        editor.index matches Some(k) ==> k < editor.matches.len(),
        editor.matches.len() < usize::MAX,
        completing(editor).1 is Completion,
    ensures
        ({
            let (row, col) = editor.cursor;
            let (start, token) = token_of(editor)->0;
            let (after, action) = completing(editor);
            let value = action->value;
            let index = action->index;
            let line = editor.lines[row as int];
            &&& after.lines.len() == editor.lines.len()
            &&& after.lines[row as int] == line.take(start) + value + line.skip(col as int)
            &&& forall|i: int|
                0 <= i < editor.lines.len() && i != row ==> #[trigger] after.lines[i]
                    == editor.lines[i]
            &&& after.matches.contains(value)
            &&& index < after.matches.len() ==> after.matches[index as int] == value
            &&& editor.matches.len() > 0 ==> after.matches == editor.matches
            &&& editor.matches.len() == 0 ==> after.matches == matches_for(token, editor.candidates)
            &&& editor.index is None ==> index == 0
            &&& editor.index matches Some(last) ==> (last + 1 < after.matches.len() ==> index == last
                + 1) && (last + 1 == after.matches.len() ==> index == 0)
        }),
{
    let (after, action) = completing(editor);
    let n = after.matches.len() as int;
    let k: int = match editor.index {
        Some(last) => (last + 1) % n,
        None => 0,
    };
    assert(0 <= k < n);
    assert(after.matches[k] == action->value);
    match editor.index {
        Some(last) => {
            if last + 1 < n {
                assert((last + 1) % n == last + 1) by (nonlinear_arith)
                    requires
                        0 <= last,
                        last + 1 < n,
                ;
            } else if last + 1 == n {
                assert((last + 1) % n == 0) by (nonlinear_arith)
                    requires
                        last + 1 == n,
                        n > 0,
                ;
            }
        },
        None => {},
    }
}

proof fn lemma_word_start(line: Seq<char>, end: int)
    requires
        0 <= end <= line.len(),
    ensures
        0 <= word_start(line, end) <= end,
        word_start(line, end) > 0 ==> is_space(line[word_start(line, end) - 1]),
        forall|i: int| word_start(line, end) <= i < end ==> !is_space(#[trigger] line[i]),
    decreases end,
{
    if end > 0 && !is_space(line[end - 1]) {
        lemma_word_start(line, end - 1);
    }
}

/// The word that is completed is the one right before the cursor: a command, or a path that
/// is not quoted, begins behind white space and holds none.
pub proof fn law_the_word_before_the_cursor_is_completed(editor: EditorView)
    requires
        editor.cursor.0 < editor.lines.len(),
        editor.cursor.1 <= editor.lines[editor.cursor.0 as int].len(),
        token_of(editor) is Some,
        !starts_with((token_of(editor)->0).1, seq!['@', '"']),
    ensures
        ({
            let (start, token) = token_of(editor)->0;
            let written = editor.lines[editor.cursor.0 as int].take(editor.cursor.1 as int);
            &&& 0 <= start <= written.len()
            &&& token == written.skip(start)
            &&& begins_with(token, '/') || begins_with(token, '@')
            &&& start > 0 ==> is_space(written[start - 1])
            &&& forall|i: int| 0 <= i < token.len() ==> !is_space(#[trigger] token[i])
        }),
{
    let written = editor.lines[editor.cursor.0 as int].take(editor.cursor.1 as int);
    let (start, token) = token_of(editor)->0;
    let quote = seq!['@', '"'];
    lemma_word_start(written, written.len() as int);
    match find_last(written, quote) {
        Some(k) if count_of(written.skip(k + 2), '"') % 2 == 0 => {
            crate::text::lemma_find_last(written, quote);
            assert(token.subrange(0, 2) =~= written.subrange(k, k + 2));
            assert(false);
        },
        _ => {
            assert forall|i: int| 0 <= i < token.len() implies !is_space(#[trigger] token[i]) by {
                assert(token[i] == written[start + i]);
            }
        },
    }
}

} // verus!
