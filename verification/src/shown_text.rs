//! What the rows of a conversation show of its text: expanded blocks show all of it, word
//! for word, and say whose it is.

use crate::layout::{
    attributed, body_texts, first_written, header_rows, ink, ink_of_all, kind_label, last_piece,
    last_two, law_wrapping_keeps_the_text, lay_block, lay_out, lemma_ink_all_concat,
    lemma_ink_concat, lemma_ink_words, pieces, preview_of, rows_for, thought_parts, wrap_line,
    wrap_lines, wrap_words, wrapped, BlockKind, BlockView, RowView,
};
use crate::text::{
    find_char, is_blank, is_space, join, lemma_find_char, lemma_find_from, lemma_word_length, lines,
    occurs_at, split_once, squeeze, strip_return, trim_start, truncate_end, word_length, words,
};
use vstd::prelude::*;

verus! {

// Attribution.

/// Whether a text holds nothing but white space.
pub open spec fn all_space(s: Seq<char>) -> bool {
    forall|i: int| 0 <= i < s.len() ==> is_space(#[trigger] s[i])
}

proof fn lemma_trimmed_gap(s: Seq<char>)
    ensures
        exists|k: int|
            0 <= k <= s.len() && trim_start(s) == s.skip(k) && all_space(#[trigger] s.take(k)),
        trim_start(s).len() > 0 ==> !is_space(trim_start(s)[0]),
    decreases s.len(),
{
    if s.len() > 0 && is_space(s[0]) {
        let rest = s.drop_first();
        lemma_trimmed_gap(rest);
        let k = choose|k: int|
            0 <= k <= rest.len() && trim_start(rest) == rest.skip(k) && all_space(
                #[trigger] rest.take(k),
            );
        assert(rest.skip(k) =~= s.skip(k + 1));
        assert(all_space(s.take(k + 1))) by {
            assert forall|i: int| 0 <= i < k + 1 implies is_space(#[trigger] s.take(k + 1)[i]) by {
                if i > 0 {
                    assert(rest.take(k)[i - 1] == s[i]);
                }
            }
        }
    } else {
        assert(s.skip(0) =~= s);
        assert(all_space(s.take(0)));
    }
}

/// The parts of an attributed message are all there is of it: the speaker up to the first
/// `": "`, the stamp between the brackets behind that, and the text behind the white space
/// that follows.
pub proof fn law_an_attributed_message_is_its_parts(source: Seq<char>)
    ensures
        attributed(source) matches Some((who, stamp, body)) ==> {
            &&& exists|gap: Seq<char>| #[trigger]
                all_space(gap) && source == who + ": ["@ + stamp + "]"@ + gap + body
            &&& !stamp.contains(']')
            &&& body.len() > 0 ==> !is_space(body[0])
            &&& forall|i: int| 0 <= i < who.len() ==> !#[trigger] occurs_at(source, ": "@, i)
        },
{
    reveal_strlit(": ");
    reveal_strlit(": [");
    reveal_strlit("]");
    lemma_find_from(source, ": "@, 0);
    match split_once(source, ": "@) {
        Some((who, rest)) => {
            let end = find_char(rest, ']');
            lemma_find_char(rest, ']');
            if rest.len() > 0 && rest[0] == '[' && end < rest.len() {
                let tail = rest.skip(end + 1);
                let stamp = rest.subrange(1, end);
                lemma_trimmed_gap(tail);
                let k = choose|k: int|
                    0 <= k <= tail.len() && trim_start(tail) == tail.skip(k) && all_space(
                        #[trigger] tail.take(k),
                    );
                let gap = tail.take(k);
                let body = trim_start(tail);
                assert(gap + body =~= tail);
                assert(rest =~= seq!['['] + stamp + seq![']'] + tail);
                let at = who.len() as int;
                assert(source.subrange(at, at + 2) =~= ": "@);
                assert(source =~= who + source.subrange(at, at + 2) + rest);
                assert(source =~= who + ": ["@ + stamp + "]"@ + gap + body);
                assert(all_space(gap));
                if stamp.contains(']') {
                    let i = choose|i: int| 0 <= i < stamp.len() && stamp[i] == ']';
                    assert(rest[i + 1] == ']');
                }
            }
        },
        None => {},
    }
}

/// A message of the form `speaker: [stamp] text` is read as that speaker, that stamp and
/// that text.
pub proof fn law_attributed_messages_are_recognised(
    who: Seq<char>,
    stamp: Seq<char>,
    body: Seq<char>,
)
    requires
        forall|i: int| 0 <= i < who.len() ==> !#[trigger] occurs_at(who + ": "@, ": "@, i),
        !stamp.contains(']'),
        body.len() > 0 ==> !is_space(body[0]),
    ensures
        attributed(who + ": ["@ + stamp + "] "@ + body) == Some((who, stamp, body)),
{
    reveal_strlit(": ");
    reveal_strlit(": [");
    reveal_strlit("] ");
    let source = who + ": ["@ + stamp + "] "@ + body;
    let at = who.len() as int;
    lemma_find_from(source, ": "@, 0);
    assert(source.subrange(at, at + 2) =~= ": "@);
    assert(occurs_at(source, ": "@, at));
    let first = crate::text::find(source, ": "@)->0;
    if first < at {
        let head = who + ": "@;
        assert(source.subrange(first, first + 2) =~= head.subrange(first, first + 2));
        assert(occurs_at(head, ": "@, first));
    }
    assert(source.take(at) =~= who);
    let rest = source.skip(at + 2);
    assert(rest =~= seq!['['] + stamp + seq![']', ' '] + body);
    lemma_find_char(rest, ']');
    let end = stamp.len() as int + 1;
    assert(rest[end] == ']');
    assert forall|i: int| 0 <= i < end implies rest[i] != ']' by {
        if i > 0 {
            assert(rest[i] == stamp[i - 1]);
        }
    }
    assert(find_char(rest, ']') == end);
    assert(rest.subrange(1, end) =~= stamp);
    let tail = rest.skip(end + 1);
    assert(tail =~= seq![' '] + body);
    assert(tail.drop_first() =~= body);
    assert(trim_start(body) == body);
}

// Words.

/// The words of the parts, one part after another.
pub open spec fn words_of_all(parts: Seq<Seq<char>>) -> Seq<Seq<char>>
    decreases parts.len(),
{
    if parts.len() == 0 {
        Seq::empty()
    } else {
        words_of_all(parts.drop_last()) + words(parts.last())
    }
}

/// Whether each of the words is one: some characters, and no white space among them.
spec fn all_words(list: Seq<Seq<char>>) -> bool {
    forall|i: int| 0 <= i < list.len() ==> is_word(#[trigger] list[i])
}

pub open spec fn is_word(word: Seq<char>) -> bool {
    word.len() > 0 && forall|i: int| 0 <= i < word.len() ==> !is_space(#[trigger] word[i])
}

proof fn lemma_word_ends(s: Seq<char>, k: int)
    requires
        0 <= k <= s.len(),
        forall|j: int| 0 <= j < k ==> !is_space(#[trigger] s[j]),
        k < s.len() ==> is_space(s[k]),
    ensures
        word_length(s) == k,
{
    lemma_word_length(s);
    let found = word_length(s);
    if found < k {
        assert(is_space(s[found]));
    }
    if k < found {
        assert(!is_space(s[k]));
    }
}

pub proof fn lemma_words_apart(a: Seq<char>, space: char, b: Seq<char>)
    requires
        is_space(space),
    ensures
        words(a.push(space) + b) == words(a) + words(b),
    decreases a.len(),
{
    let s = a.push(space) + b;
    if a.len() == 0 {
        assert(s.drop_first() =~= b);
        assert(words(a) + words(b) =~= words(b));
    } else if is_space(a[0]) {
        assert(s.drop_first() =~= a.drop_first().push(space) + b);
        lemma_words_apart(a.drop_first(), space, b);
    } else {
        lemma_word_length(a);
        let k = word_length(a);
        assert forall|j: int| 0 <= j < k implies !is_space(#[trigger] s[j]) by {
            assert(a[j] == s[j]);
        }
        lemma_word_ends(s, k);
        assert(s.take(k) =~= a.take(k));
        assert(s.skip(k) =~= a.skip(k).push(space) + b);
        lemma_words_apart(a.skip(k), space, b);
        assert(seq![a.take(k)] + (words(a.skip(k)) + words(b)) =~= words(a) + words(b));
    }
}

pub proof fn lemma_words_of_a_word(word: Seq<char>)
    requires
        is_word(word),
    ensures
        words(word) == seq![word],
{
    lemma_word_ends(word, word.len() as int);
    assert(word.take(word.len() as int) =~= word);
    assert(words(word.skip(word.len() as int)) =~= Seq::<Seq<char>>::empty());
    assert(words(word) =~= seq![word]);
}

proof fn lemma_words_are_words(s: Seq<char>)
    ensures
        all_words(words(s)),
    decreases s.len(),
{
    lemma_word_length(s);
    let k = word_length(s);
    if s.len() > 0 {
        if is_space(s[0]) {
            lemma_words_are_words(s.drop_first());
        } else {
            lemma_words_are_words(s.skip(k));
            assert(is_word(s.take(k))) by {
                assert forall|i: int| 0 <= i < k implies !is_space(#[trigger] s.take(k)[i]) by {
                    assert(!is_space(s[i]));
                }
            }
        }
    }
}

proof fn lemma_words_of_all_concat(a: Seq<Seq<char>>, b: Seq<Seq<char>>)
    ensures
        words_of_all(a + b) == words_of_all(a) + words_of_all(b),
    decreases b.len(),
{
    if b.len() == 0 {
        assert(a + b =~= a);
        assert(words_of_all(a) + words_of_all(b) =~= words_of_all(a));
    } else {
        assert((a + b).drop_last() =~= a + b.drop_last());
        lemma_words_of_all_concat(a, b.drop_last());
        assert(words_of_all(a) + words_of_all(b) =~= words_of_all(a + b));
    }
}

proof fn lemma_words_of_one(part: Seq<char>)
    ensures
        words_of_all(seq![part]) == words(part),
{
    assert(seq![part].drop_last() =~= Seq::<Seq<char>>::empty());
    assert(words_of_all(Seq::<Seq<char>>::empty()) + words(part) =~= words(part));
}

spec fn none_wider(list: Seq<Seq<char>>, width: int) -> bool {
    forall|i: int| 0 <= i < list.len() ==> (#[trigger] list[i]).len() <= width
}

proof fn lemma_wrap_words_keeps_words(rest: Seq<Seq<char>>, row: Seq<char>, width: int)
    requires
        all_words(rest),
        none_wider(rest, width),
    ensures
        words_of_all(wrap_words(rest, row, width)) == words(row) + rest,
    decreases rest.len(),
{
    let out = wrap_words(rest, row, width);
    if rest.len() == 0 {
        lemma_words_of_one(row);
        assert(words(row) + rest =~= words(row));
    } else {
        let word = rest[0];
        let tail = rest.drop_first();
        assert(all_words(tail)) by {
            assert forall|i: int| 0 <= i < tail.len() implies is_word(#[trigger] tail[i]) by {
                assert(tail[i] == rest[i + 1]);
            }
        }
        assert(none_wider(tail, width)) by {
            assert forall|i: int| 0 <= i < tail.len() implies (#[trigger] tail[i]).len() <= width by {
                assert(tail[i] == rest[i + 1]);
            }
        }
        lemma_words_of_a_word(word);
        if row.len() > 0 && row.len() + 1 + word.len() <= width {
            lemma_wrap_words_keeps_words(tail, row.push(' ') + word, width);
            lemma_words_apart(row, ' ', word);
        } else {
            let done: Seq<Seq<char>> = if row.len() > 0 {
                seq![row]
            } else {
                Seq::empty()
            };
            lemma_wrap_words_keeps_words(tail, word, width);
            lemma_words_of_all_concat(done, wrap_words(tail, word, width));
            lemma_words_of_one(row);
        }
        assert(words(row) + (seq![word] + tail) =~= words(row) + rest);
    }
}

proof fn lemma_wrap_lines_keeps_words(all: Seq<Seq<char>>, width: int)
    requires
        none_wider(words_of_all(all), width),
    ensures
        words_of_all(wrap_lines(all, width)) == words_of_all(all),
    decreases all.len(),
{
    if all.len() > 0 {
        let above = words_of_all(all.drop_last());
        let line = all.last();
        let own = words(line);
        assert(none_wider(above, width)) by {
            assert forall|i: int| 0 <= i < above.len() implies (#[trigger] above[i]).len() <= width by {
                assert(above[i] == words_of_all(all)[i]);
            }
        }
        assert(none_wider(own, width)) by {
            assert forall|i: int| 0 <= i < own.len() implies (#[trigger] own[i]).len() <= width by {
                assert(own[i] == words_of_all(all)[above.len() + i]);
            }
        }
        lemma_wrap_lines_keeps_words(all.drop_last(), width);
        lemma_words_of_all_concat(wrap_lines(all.drop_last(), width), wrap_line(line, width));
        if line.len() == 0 {
            lemma_words_of_one(Seq::<char>::empty());
        } else {
            lemma_words_are_words(line);
            lemma_wrap_words_keeps_words(own, Seq::empty(), width);
            assert(words(Seq::<char>::empty()) + own =~= own);
        }
    }
}

proof fn lemma_words_of_lines(s: Seq<char>)
    ensures
        words_of_all(lines(s)) == words(s),
    decreases s.len(),
{
    lemma_find_char(s, '\n');
    let k = find_char(s, '\n');
    if s.len() == 0 {
    } else if k < s.len() {
        let line = s.take(k);
        let rest = s.skip(k + 1);
        lemma_words_of_lines(rest);
        lemma_words_of_all_concat(seq![strip_return(line)], lines(rest));
        lemma_words_of_one(strip_return(line));
        assert(s =~= line.push('\n') + rest);
        lemma_words_apart(line, '\n', rest);
        if line.len() > 0 && line.last() == '\r' {
            assert(line =~= line.drop_last().push('\r') + Seq::<char>::empty());
            lemma_words_apart(line.drop_last(), '\r', Seq::empty());
            assert(words(line) =~= words(line.drop_last()));
        }
    } else {
        lemma_words_of_one(s);
    }
}

/// Wrapping keeps the words: where none is wider than a row, the words of the rows are the
/// words of the text, in their order.
pub proof fn law_wrapping_keeps_the_words(s: Seq<char>, width: int)
    requires
        forall|i: int| 0 <= i < words(s).len() ==> (#[trigger] words(s)[i]).len() <= width,
    ensures
        words_of_all(wrapped(s, width)) == words(s),
{
    lemma_words_of_lines(s);
    lemma_wrap_lines_keeps_words(lines(s), width);
    let extra: Seq<Seq<char>> = if s.len() == 0 || s.last() == '\n' {
        seq![Seq::empty()]
    } else {
        Seq::empty()
    };
    lemma_words_of_all_concat(wrap_lines(lines(s), width), extra);
    lemma_words_of_one(Seq::<char>::empty());
    assert(words_of_all(extra) =~= Seq::<Seq<char>>::empty());
    assert(words(s) + words_of_all(extra) =~= words(s));
}

/// A line end always starts a new row: the rows of two paragraphs are those of the first
/// and then those of the second.
pub proof fn law_line_ends_start_a_new_row(first: Seq<char>, second: Seq<char>, width: int)
    requires
        first.len() > 0 ==> first.last() != '\r',
    ensures
        wrapped(first.push('\n') + second, width) == wrapped(first, width) + wrapped(second, width),
    decreases first.len(),
{
    let s = first.push('\n') + second;
    let k = find_char(first, '\n');
    lemma_find_char(first, '\n');
    lemma_find_char(s, '\n');
    assert(s[first.len() as int] == '\n');
    if k < first.len() {
        assert forall|j: int| 0 <= j < k implies s[j] != '\n' by {
            assert(s[j] == first[j]);
        }
        assert(s[k] == first[k]);
        assert(find_char(s, '\n') == k);
        let rest = first.skip(k + 1);
        assert(s.take(k) =~= first.take(k));
        assert(s.skip(k + 1) =~= rest.push('\n') + second);
        law_line_ends_start_a_new_row(rest, second, width);
        let line = strip_return(first.take(k));
        lemma_wrap_first(line, lines(rest), width);
        lemma_wrap_first(line, lines(rest.push('\n') + second), width);
        let (one, two) = (rest.push('\n') + second, s);
        if second.len() > 0 {
            assert(one.last() == second.last() && two.last() == second.last());
        } else {
            assert(one.last() == '\n' && two.last() == '\n');
        }
        assert(wrapped(s, width) =~= wrap_line(line, width) + wrapped(one, width));
        if rest.len() > 0 {
            assert(first.last() == rest.last());
        } else {
            assert(first.last() == '\n');
        }
        assert(wrapped(first, width) =~= wrap_line(line, width) + wrapped(rest, width));
        assert(wrapped(s, width) =~= wrapped(first, width) + wrapped(second, width));
    } else {
        assert forall|j: int| 0 <= j < first.len() implies s[j] != '\n' by {
            assert(s[j] == first[j]);
        }
        assert(find_char(s, '\n') == first.len());
        assert(s.take(first.len() as int) =~= first);
        assert(s.skip(first.len() as int + 1) =~= second);
        assert(strip_return(first) == first);
        lemma_wrap_first(first, lines(second), width);
        if second.len() > 0 {
            assert(s.last() == second.last());
        } else {
            assert(s.last() == '\n');
        }
        assert(wrapped(s, width) =~= wrap_line(first, width) + wrapped(second, width));
        if first.len() == 0 {
            assert(first =~= Seq::<char>::empty());
            assert(wrap_lines(lines(first), width) =~= Seq::<Seq<char>>::empty());
            assert(wrapped(first, width) =~= wrap_line(first, width));
        } else {
            assert(first.last() == first[first.len() - 1]);
            assert(seq![first].drop_last() =~= Seq::<Seq<char>>::empty());
            assert(wrap_lines(seq![first].drop_last(), width) =~= Seq::<Seq<char>>::empty());
            assert(wrapped(first, width) =~= wrap_line(first, width));
        }
    }
}

proof fn lemma_wrap_first(line: Seq<char>, rest: Seq<Seq<char>>, width: int)
    ensures
        wrap_lines(seq![line] + rest, width) == wrap_line(line, width) + wrap_lines(rest, width),
    decreases rest.len(),
{
    let all = seq![line] + rest;
    if rest.len() == 0 {
        assert(all.drop_last() =~= Seq::<Seq<char>>::empty());
        assert(wrap_lines(all.drop_last(), width) =~= Seq::<Seq<char>>::empty());
        assert(wrap_lines(all, width) =~= wrap_line(line, width) + wrap_lines(rest, width));
    } else {
        assert(all.drop_last() =~= seq![line] + rest.drop_last());
        lemma_wrap_first(line, rest.drop_last(), width);
        assert(wrap_lines(all, width) =~= wrap_line(line, width) + wrap_lines(rest, width));
    }
}

// Filled rows.

/// Whether no row but the last has room for the first word of the row below it.
spec fn filled(rows: Seq<Seq<char>>, width: int) -> bool {
    forall|i: int, j: int|
        0 <= i && j == i + 1 && j < rows.len() ==> (#[trigger] rows[i]).len() + 1 + word_length(
            #[trigger] rows[j],
        ) > width
}

proof fn lemma_pieces(word: Seq<char>, width: int)
    requires
        width >= 1,
        forall|i: int| 0 <= i < word.len() ==> !is_space(#[trigger] word[i]),
    ensures
        forall|i: int|
            0 <= i < pieces(word, width).len() ==> (#[trigger] pieces(word, width)[i]).len()
                == width && word_length(pieces(word, width)[i]) == width,
        forall|i: int|
            0 <= i < last_piece(word, width).len() ==> !is_space(
                #[trigger] last_piece(word, width)[i],
            ),
        last_piece(word, width).len() < width,
        word.len() >= width ==> pieces(word, width).len() > 0,
    decreases word.len(),
{
    if width <= word.len() {
        let rest = word.skip(width);
        assert forall|i: int| 0 <= i < rest.len() implies !is_space(#[trigger] rest[i]) by {
            assert(rest[i] == word[width + i]);
        }
        lemma_pieces(rest, width);
        let first = word.take(width);
        assert forall|i: int| 0 <= i < first.len() implies !is_space(#[trigger] first[i]) by {
            assert(first[i] == word[i]);
        }
        lemma_word_ends(first, width);
        let all = pieces(word, width);
        assert forall|i: int| 0 <= i < all.len() implies (#[trigger] all[i]).len() == width
            && word_length(all[i]) == width by {
            if i > 0 {
                assert(all[i] == pieces(rest, width)[i - 1]);
            }
        }
    }
}

proof fn lemma_rows_are_filled(rest: Seq<Seq<char>>, row: Seq<char>, width: int)
    requires
        all_words(rest),
        width >= 1,
        row.len() <= width,
        row.len() > 0 ==> !is_space(row[0]),
    ensures
        filled(wrap_words(rest, row, width), width),
        row.len() > 0 ==> wrap_words(rest, row, width).len() > 0 && word_length(
            wrap_words(rest, row, width)[0],
        ) == word_length(row),
        row.len() == 0 && rest.len() > 0 ==> wrap_words(rest, row, width).len() > 0 && word_length(
            wrap_words(rest, row, width)[0],
        ) == (if rest[0].len() < width {
            rest[0].len() as int
        } else {
            width
        }),
    decreases rest.len(),
{
    let out = wrap_words(rest, row, width);
    if rest.len() > 0 {
        let word = rest[0];
        let tail = rest.drop_first();
        assert(is_word(word));
        assert(all_words(tail)) by {
            assert forall|i: int| 0 <= i < tail.len() implies is_word(#[trigger] tail[i]) by {
                assert(tail[i] == rest[i + 1]);
            }
        }
        lemma_word_ends(word, word.len() as int);
        if row.len() > 0 && row.len() + 1 + word.len() <= width {
            let longer = row.push(' ') + word;
            lemma_word_length(row);
            let k = word_length(row);
            assert forall|j: int| 0 <= j < k implies !is_space(#[trigger] longer[j]) by {
                assert(longer[j] == row[j]);
            }
            lemma_word_ends(longer, k);
            assert(longer[0] == row[0]);
            lemma_rows_are_filled(tail, longer, width);
        } else {
            let done: Seq<Seq<char>> = if row.len() > 0 {
                seq![row]
            } else {
                Seq::empty()
            };
            if word.len() > width {
                let cut = pieces(word, width);
                let last = last_piece(word, width);
                lemma_pieces(word, width);
                lemma_rows_are_filled(tail, last, width);
                let next = wrap_words(tail, last, width);
                assert(out == done + cut + next);
                assert forall|i: int, j: int|
                    0 <= i && j == i + 1 && j < out.len() implies (#[trigger] out[i]).len() + 1
                    + word_length(#[trigger] out[j]) > width by {
                    let d = done.len() as int;
                    let c = cut.len() as int;
                    lemma_word_length(out[j]);
                    if i < d {
                        assert(out[j] == cut[0]);
                    } else if i < d + c {
                        assert(out[i] == cut[i - d]);
                    } else {
                        assert(out[i] == next[i - d - c] && out[j] == next[j - d - c]);
                    }
                }
                if row.len() > 0 {
                    assert(out[0] == row);
                } else {
                    assert(out[0] == cut[0]);
                }
            } else {
                lemma_rows_are_filled(tail, word, width);
                let next = wrap_words(tail, word, width);
                assert(out == done + next);
                assert forall|i: int, j: int|
                    0 <= i && j == i + 1 && j < out.len() implies (#[trigger] out[i]).len() + 1
                    + word_length(#[trigger] out[j]) > width by {
                    let d = done.len() as int;
                    if i < d {
                        assert(out[i] == row && out[j] == next[0]);
                    } else {
                        assert(out[i] == next[i - d] && out[j] == next[j - d]);
                    }
                }
                if row.len() > 0 {
                    assert(out[0] == row);
                } else {
                    assert(out[0] == next[0]);
                }
            }
        }
    }
}

/// Rows are filled: a line goes on in a new row only where the next word has no room in the
/// row above.
pub proof fn law_rows_are_filled(line: Seq<char>, width: int, i: int)
    requires
        width >= 1,
        !line.contains('\n'),
        0 <= i < wrapped(line, width).len() - 1,
    ensures
        wrapped(line, width)[i].len() + 1 + word_length(wrapped(line, width)[i + 1]) > width,
{
    lemma_find_char(line, '\n');
    let k = find_char(line, '\n');
    if k < line.len() {
        assert(line[k] == '\n');
    }
    if line.len() > 0 {
        assert(line.last() == line[line.len() - 1]);
        assert(seq![line].drop_last() =~= Seq::<Seq<char>>::empty());
        assert(wrap_lines(seq![line].drop_last(), width) =~= Seq::<Seq<char>>::empty());
        assert(wrapped(line, width) =~= wrap_line(line, width));
        lemma_words_are_words(line);
        lemma_rows_are_filled(words(line), Seq::empty(), width);
        let rows = wrapped(line, width);
        assert(rows[i].len() + 1 + word_length(rows[i + 1]) > width);
    } else {
        assert(wrap_lines(lines(line), width) =~= Seq::<Seq<char>>::empty());
    }
}

// Previews.

proof fn lemma_ink_join(parts: Seq<Seq<char>>, separator: Seq<char>)
    requires
        all_space(separator),
    ensures
        ink(join(parts, separator)) == ink_of_all(parts),
    decreases parts.len(),
{
    if parts.len() == 1 {
        assert(parts.drop_last() =~= Seq::<Seq<char>>::empty());
        assert(ink_of_all(parts.drop_last()) =~= Seq::<char>::empty());
        assert(ink_of_all(parts) =~= ink(parts[0]));
    } else if parts.len() > 1 {
        let rest = parts.drop_last();
        lemma_ink_join(rest, separator);
        lemma_ink_concat(join(rest, separator) + separator, parts.last());
        lemma_ink_concat(join(rest, separator), separator);
        lemma_ink_gap(separator);
        assert(ink(join(rest, separator)) + ink(separator) =~= ink_of_all(rest));
    }
}

proof fn lemma_ink_squeeze(s: Seq<char>)
    ensures
        ink(squeeze(s)) == ink(s),
{
    assert(all_space(seq![' ']));
    lemma_ink_join(words(s), seq![' ']);
    lemma_ink_words(s);
}

/// Whether a text is, but for white space, the end of another.
pub open spec fn shows_the_end(shown: Seq<char>, whole: Seq<char>) -> bool {
    ink(shown).len() <= ink(whole).len() && ink(whole).skip(
        ink(whole).len() - ink(shown).len(),
    ) == ink(shown)
}

proof fn lemma_last_two_end(text: Seq<char>, width: int)
    requires
        width >= 1,
    ensures
        shows_the_end(join(last_two(wrapped(squeeze(text), width)), "\n"@), text),
{
    let rows = wrapped(squeeze(text), width);
    let kept = last_two(rows);
    let above = rows.take(rows.len() - kept.len());
    reveal_strlit("\n");
    assert(all_space("\n"@));
    lemma_ink_join(kept, "\n"@);
    assert(rows =~= above + kept);
    lemma_ink_all_concat(above, kept);
    law_wrapping_keeps_the_text(squeeze(text), width);
    lemma_ink_squeeze(text);
    let whole = ink(text);
    assert(whole == ink_of_all(above) + ink_of_all(kept));
    assert(whole.skip(whole.len() - ink_of_all(kept).len()) =~= ink_of_all(kept));
}

/// A thought that is folded up shows where it has got to: the end of it, and whose it is
/// where it says so.
pub proof fn law_folded_thoughts_show_their_end(source: Seq<char>, width: int)
    requires
        width >= 1,
    ensures
        match thought_parts(source) {
            Some((speaker, stamp, body)) => exists|end: Seq<char>| #[trigger]
                shows_the_end(end, body) && preview_of(BlockKind::Thought, source, width) == speaker
                    + ": "@ + stamp + " "@ + end,
            None => shows_the_end(preview_of(BlockKind::Thought, source, width), source),
        },
{
    match thought_parts(source) {
        Some((speaker, stamp, body)) => {
            lemma_last_two_end(body, width);
            let end = join(last_two(wrapped(squeeze(body), width)), "\n"@);
            assert(shows_the_end(end, body));
        },
        None => {
            lemma_last_two_end(source, width);
        },
    }
}

proof fn lemma_first_written(all: Seq<Seq<char>>, i: int)
    requires
        0 <= i < all.len(),
        !is_blank(all[i]),
        forall|j: int| 0 <= j < i ==> is_blank(#[trigger] all[j]),
    ensures
        first_written(all) == Some(all[i]),
    decreases all.len(),
{
    if i > 0 {
        assert(is_blank(all[0]));
        let rest = all.drop_first();
        assert forall|j: int| 0 <= j < i - 1 implies is_blank(#[trigger] rest[j]) by {
            assert(rest[j] == all[j + 1]);
        }
        lemma_first_written(rest, i - 1);
        assert(rest[i - 1] == all[i]);
    }
}

/// What a person, an agent or CodeSwarm says shows its first written line when it is folded
/// up, behind the name of its kind, whole where there is room.
pub proof fn law_folded_messages_show_their_first_line(
    kind: BlockKind,
    source: Seq<char>,
    width: int,
    i: int,
)
    requires
        kind == BlockKind::Human || kind == BlockKind::Agent || kind == BlockKind::Notice,
        0 <= i < lines(source).len(),
        !is_blank(lines(source)[i]),
        forall|j: int| 0 <= j < i ==> is_blank(#[trigger] lines(source)[j]),
    ensures
        ({
            let whole = kind_label(kind) + " · "@ + squeeze(lines(source)[i]);
            &&& whole.len() <= width ==> preview_of(kind, source, width) == whole
            &&& 0 < width < whole.len() ==> preview_of(kind, source, width) == whole.take(
                width - 1,
            ).push('…')
        }),
{
    lemma_first_written(lines(source), i);
}

// Rows.

/// The texts of the rows.
pub open spec fn texts(rows: Seq<RowView>) -> Seq<Seq<char>> {
    Seq::new(rows.len(), |i: int| rows[i].text)
}

/// The rows that a block adds below the conversation above it.
pub open spec fn added_rows(above: Seq<BlockView>, block: BlockView, width: int) -> Seq<RowView> {
    lay_out(above.push(block), width).rows.skip(lay_out(above, width).rows.len() as int)
}

/// Whether the rows are all of one block.
pub open spec fn rows_of(rows: Seq<RowView>, block: BlockView) -> bool {
    forall|i: int|
        0 <= i < rows.len() ==> (#[trigger] rows[i]).block_id == block.id && rows[i].kind
            == block.kind
}

proof fn lemma_ink_gap(gap: Seq<char>)
    requires
        all_space(gap),
    ensures
        ink(gap) == Seq::<char>::empty(),
    decreases gap.len(),
{
    if gap.len() > 0 {
        assert(is_space(gap[gap.len() - 1]));
        assert(all_space(gap.drop_last())) by {
            assert forall|i: int| 0 <= i < gap.len() - 1 implies is_space(
                #[trigger] gap.drop_last()[i],
            ) by {
                assert(gap.drop_last()[i] == gap[i]);
            }
        }
        lemma_ink_gap(gap.drop_last());
    }
}

proof fn lemma_ink_of_parts(source: Seq<char>)
    requires
        attributed(source) is Some,
    ensures
        ({
            let (who, stamp, body) = attributed(source)->0;
            ink(source) == ink(who + ": ["@ + stamp + "]"@) + ink(body)
        }),
{
    law_an_attributed_message_is_its_parts(source);
    let (who, stamp, body) = attributed(source)->0;
    let gap = choose|gap: Seq<char>| #[trigger]
        all_space(gap) && source == who + ": ["@ + stamp + "]"@ + gap + body;
    let head = who + ": ["@ + stamp + "]"@;
    lemma_ink_concat(head + gap, body);
    lemma_ink_concat(head, gap);
    lemma_ink_gap(gap);
    assert(ink(head) + ink(gap) =~= ink(head));
}

/// An expanded block shows all of its text: what a person or CodeSwarm says, and what does
/// not say whose it is, stands in the block's rows, character for character but for white
/// space.
pub proof fn law_expanded_blocks_show_all_their_text(
    above: Seq<BlockView>,
    block: BlockView,
    width: int,
)
    requires
        !block.collapsed,
        block.kind == BlockKind::Human || block.kind == BlockKind::Notice || ((block.kind
            == BlockKind::Agent || block.kind == BlockKind::Thought || block.kind
            == BlockKind::Diff) && attributed(block.source) is None),
    ensures
        ink_of_all(texts(added_rows(above, block, width))) == ink(block.source),
        rows_of(added_rows(above, block, width), block),
        added_rows(above, block, width).len() > 0 ==> added_rows(above, block, width)[0].first_in_block,
{
    assert(above.push(block).drop_last() =~= above);
    reveal(lay_block);
    law_wrapping_keeps_the_text(block.source, width);
    let own = wrapped(block.source, width);
    assert(added_rows(above, block, width) =~= rows_for(own, block.id, block.kind, true));
    assert(texts(added_rows(above, block, width)) =~= own);
}

/// An expanded block that says whose it is shows that in a header, unless the rows above it
/// end in the same speaker's turn, and all the rest of its text in its own rows below.
/// A header is apart from what stands above it.
pub proof fn law_expanded_blocks_show_whose_they_are(
    above: Seq<BlockView>,
    block: BlockView,
    width: int,
)
    requires
        !block.collapsed,
        block.kind == BlockKind::Agent || block.kind == BlockKind::Thought || block.kind
            == BlockKind::Diff,
        attributed(block.source) is Some,
    ensures
        ({
            let (who, stamp, body) = attributed(block.source)->0;
            let header = who + ": ["@ + stamp + "]"@;
            let rows = lay_out(above, width).rows;
            let added = added_rows(above, block, width);
            exists|h: int|
                {
                    &&& 0 <= h <= added.len()
                    &&& ink(block.source) == ink(header) + ink_of_all(
                        texts(#[trigger] added.skip(h)),
                    )
                    &&& rows_of(added.skip(h), block)
                    &&& h == 0 <==> lay_out(above, width).speaker == Some(who)
                    &&& h > 0 ==> added[h - 1].text == truncate_end(header, width) && added[h
                        - 1].first_in_block && added[h - 1].block_id == block.id
                    &&& h > 1 ==> h == 2 && added[0].text.len() == 0
                    &&& h == 1 ==> rows.len() == 0 || rows.last().text.len() == 0
                }
        }),
{
    let (who, stamp, body) = attributed(block.source)->0;
    let laid = lay_out(above, width);
    let own = wrapped(body, width);
    let header = if laid.speaker == Some(who) {
        Seq::empty()
    } else {
        header_rows(laid.rows, block.id, who, stamp, width)
    };
    let added = added_rows(above, block, width);
    let h = header.len() as int;
    lemma_added(above, block, width);
    law_wrapping_keeps_the_text(body, width);
    lemma_ink_of_parts(block.source);
    assert(added.skip(h) =~= rows_for(own, block.id, block.kind, false));
    assert(texts(added.skip(h)) =~= own);
    assert(rows_of(added.skip(h), block));
}

proof fn lemma_added(above: Seq<BlockView>, block: BlockView, width: int)
    requires
        !block.collapsed,
        block.kind == BlockKind::Agent || block.kind == BlockKind::Thought || block.kind
            == BlockKind::Diff,
        attributed(block.source) is Some,
    ensures
        ({
            let (who, stamp, body) = attributed(block.source)->0;
            let laid = lay_out(above, width);
            let header = if laid.speaker == Some(who) {
                Seq::empty()
            } else {
                header_rows(laid.rows, block.id, who, stamp, width)
            };
            added_rows(above, block, width) == header + rows_for(
                wrapped(body, width),
                block.id,
                block.kind,
                false,
            )
        }),
{
    assert(above.push(block).drop_last() =~= above);
    reveal(lay_block);
    let (who, stamp, body) = attributed(block.source)->0;
    let laid = lay_out(above, width);
    let header = if laid.speaker == Some(who) {
        Seq::empty()
    } else {
        header_rows(laid.rows, block.id, who, stamp, width)
    };
    assert(added_rows(above, block, width) =~= header + rows_for(
        wrapped(body, width),
        block.id,
        block.kind,
        false,
    ));
}

/// Whose turn the rows end in: nobody's after a person spoke, that of the speaker of the
/// last block that says whose it is, and nothing that has no speaker ends a turn.
pub proof fn law_turns_last_until_another_speaks(
    above: Seq<BlockView>,
    block: BlockView,
    width: int,
)
    ensures
        ({
            let before = lay_out(above, width).speaker;
            let after = lay_out(above.push(block), width).speaker;
            &&& block.kind == BlockKind::Human ==> after is None
            &&& block.kind == BlockKind::Notice || block.kind == BlockKind::Terminal || block.kind
                == BlockKind::Activity ==> after == before
            &&& !block.collapsed && (block.kind == BlockKind::Agent || block.kind
                == BlockKind::Thought || block.kind == BlockKind::Tool || block.kind
                == BlockKind::Diff) ==> (attributed(block.source) matches Some((who, stamp, body))
                ==> after == Some(who))
        }),
{
    assert(above.push(block).drop_last() =~= above);
    reveal(lay_block);
}

/// An expanded tool call has a row for each line of its text, and a line is only cut where
/// it is wider than the row.
pub proof fn law_tool_calls_keep_their_lines(above: Seq<BlockView>, block: BlockView, width: int)
    requires
        !block.collapsed,
        block.kind == BlockKind::Tool,
        attributed(block.source) is Some,
        width >= 1,
    ensures
        ({
            let all = lines((attributed(block.source)->0).2);
            let added = added_rows(above, block, width);
            let own = added.skip(added.len() - all.len());
            &&& all.len() <= added.len() <= all.len() + 2
            &&& rows_of(own, block)
            &&& forall|i: int|
                0 <= i < all.len() ==> if (#[trigger] all[i]).len() <= width {
                    own[i].text == all[i]
                } else {
                    own[i].text.len() == width && own[i].text.drop_last() == all[i].take(width - 1)
                        && own[i].text.last() == '…'
                }
        }),
{
    assert(above.push(block).drop_last() =~= above);
    reveal(lay_block);
    let (who, stamp, body) = attributed(block.source)->0;
    let laid = lay_out(above, width);
    let own = body_texts(block.kind, false, body, width);
    let header = if laid.speaker == Some(who) {
        Seq::empty()
    } else {
        header_rows(laid.rows, block.id, who, stamp, width)
    };
    let added = added_rows(above, block, width);
    assert(added =~= header + rows_for(own, block.id, block.kind, false));
    let all = lines(body);
    assert(added.skip(added.len() - all.len()) =~= rows_for(own, block.id, block.kind, false));
    assert forall|i: int| 0 <= i < all.len() implies if (#[trigger] all[i]).len() <= width {
        own[i] == all[i]
    } else {
        own[i].len() == width && own[i].drop_last() == all[i].take(width - 1) && own[i].last()
            == '…'
    } by {
        if all[i].len() > width {
            assert(all[i].take(width - 1).push('…').drop_last() =~= all[i].take(width - 1));
        }
    }
}

/// What a terminal prints, what a tool does, and a tool call that does not say whose it is
/// take no row.
pub proof fn law_tool_noise_takes_no_row(above: Seq<BlockView>, block: BlockView, width: int)
    requires
        block.kind == BlockKind::Terminal || block.kind == BlockKind::Activity || (block.kind
            == BlockKind::Tool && attributed(block.source) is None),
    ensures
        lay_out(above.push(block), width).rows == lay_out(above, width).rows,
{
    assert(above.push(block).drop_last() =~= above);
    reveal(lay_block);
}

} // verus!
