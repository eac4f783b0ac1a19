//! What holds of every laid out conversation: rows fit their width, collapsed blocks stay
//! small, rows that stand stay where they are, and the export holds what was said.

use crate::layout::{
    activity, attributed, body_texts, excerpt, first_line, first_written, fitted, has_speaker,
    head_preview, header_rows, kind_label, last_piece, last_two, law_wrapped_rows_fit, lay_block,
    lay_out, pieces, presented, preview_of, takes_no_row, thought_parts, tool_preview,
    with_attribution, wrap_lines, wrap_words, wrapped, BlockKind, BlockView, Laid, RowView,
};
use crate::text::{
    find, find_char, find_last, is_space, join, lemma_find_char, lemma_find_from, lemma_word_length,
    lines, occurs_at, split, split_once, squeeze, trim, trim_end, trim_start, trim_start_char,
    truncate_end, truncate_start, word_length, words,
};
use crate::transcript::{exported, heading, moved, window};
use vstd::prelude::*;

verus! {

/// The rows of a conversation do not depend on what follows: with more blocks below them
/// they stay as they are.
pub proof fn law_rows_above_stay(blocks: Seq<BlockView>, more: Seq<BlockView>, width: int)
    ensures
        ({
            let rows = lay_out(blocks, width).rows;
            let longer = lay_out(blocks + more, width).rows;
            longer.len() >= rows.len() && longer.take(rows.len() as int) == rows
        }),
    decreases more.len(),
{
    let rows = lay_out(blocks, width).rows;
    if more.len() == 0 {
        assert(blocks + more =~= blocks);
        assert(rows.take(rows.len() as int) =~= rows);
    } else {
        law_rows_above_stay(blocks, more.drop_last(), width);
        assert((blocks + more).drop_last() =~= blocks + more.drop_last());
        let before = lay_out(blocks + more.drop_last(), width);
        reveal(lay_block);
        let longer = lay_block(before, more.last(), width).rows;
        assert(longer.take(before.rows.len() as int) =~= before.rows);
        assert(longer.take(rows.len() as int) =~= before.rows.take(rows.len() as int));
    }
}

// Line breaks.

/// Whether a text stands on one line.
pub open spec fn on_one_line(s: Seq<char>) -> bool {
    forall|i: int| 0 <= i < s.len() ==> #[trigger] s[i] != '\n'
}

spec fn all_on_one_line(parts: Seq<Seq<char>>) -> bool {
    forall|i: int| 0 <= i < parts.len() ==> on_one_line(#[trigger] parts[i])
}

/// How many line ends a text has.
spec fn breaks(s: Seq<char>) -> int
    decreases s.len(),
{
    if s.len() == 0 {
        0
    } else {
        breaks(s.drop_last()) + if s.last() == '\n' {
            1int
        } else {
            0
        }
    }
}

proof fn lemma_breaks_concat(a: Seq<char>, b: Seq<char>)
    ensures
        breaks(a + b) == breaks(a) + breaks(b),
        breaks(b) >= 0,
    decreases b.len(),
{
    if b.len() == 0 {
        assert(a + b =~= a);
    } else {
        lemma_breaks_concat(a, b.drop_last());
        assert((a + b).drop_last() =~= a + b.drop_last());
        assert((a + b).last() == b.last());
    }
}

proof fn lemma_no_breaks(s: Seq<char>)
    ensures
        on_one_line(s) <==> breaks(s) == 0,
        breaks(s) >= 0,
    decreases s.len(),
{
    if s.len() > 0 {
        let rest = s.drop_last();
        lemma_no_breaks(rest);
        if on_one_line(s) {
            assert forall|i: int| 0 <= i < rest.len() implies #[trigger] rest[i] != '\n' by {
                assert(rest[i] == s[i]);
            }
            assert(s[s.len() - 1] != '\n');
        } else if s.last() != '\n' {
            let i = choose|i: int| 0 <= i < s.len() && s[i] == '\n';
            assert(rest[i] == '\n');
        }
    }
}

proof fn lemma_breaks_suffix(s: Seq<char>, k: int)
    requires
        0 <= k <= s.len(),
    ensures
        breaks(s.skip(k)) <= breaks(s),
{
    assert(s.take(k) + s.skip(k) =~= s);
    lemma_breaks_concat(s.take(k), s.skip(k));
    lemma_no_breaks(s.take(k));
}

proof fn lemma_split_count(s: Seq<char>)
    ensures
        split(s, '\n').len() == breaks(s) + 1,
    decreases s.len(),
{
    let k = find_char(s, '\n');
    lemma_find_char(s, '\n');
    if k < s.len() {
        let rest = s.skip(k + 1);
        lemma_split_count(rest);
        lemma_no_breaks(s.take(k));
        assert(s =~= s.take(k) + (seq!['\n'] + rest));
        lemma_breaks_concat(s.take(k), seq!['\n'] + rest);
        lemma_breaks_concat(seq!['\n'], rest);
        assert(breaks(seq!['\n']) == 1) by {
            assert(seq!['\n'].drop_last() =~= Seq::<char>::empty());
            assert(breaks(Seq::<char>::empty()) == 0);
        }
    } else {
        lemma_no_breaks(s);
    }
}

proof fn lemma_trim_start(s: Seq<char>)
    ensures
        exists|k: int| 0 <= k <= s.len() && trim_start(s) == #[trigger] s.skip(k),
    decreases s.len(),
{
    if s.len() > 0 && is_space(s[0]) {
        lemma_trim_start(s.drop_first());
        let k = choose|k: int|
            0 <= k <= s.drop_first().len() && trim_start(s.drop_first())
                == #[trigger] s.drop_first().skip(k);
        assert(s.drop_first().skip(k) =~= s.skip(k + 1));
    } else {
        assert(s.skip(0) =~= s);
    }
}

// Wrapped text stands on one line for each row.

proof fn lemma_words_on_one_line(s: Seq<char>)
    ensures
        all_on_one_line(words(s)),
    decreases s.len(),
{
    lemma_word_length(s);
    let k = word_length(s);
    if s.len() > 0 {
        if is_space(s[0]) {
            lemma_words_on_one_line(s.drop_first());
        } else {
            lemma_words_on_one_line(s.skip(k));
            let first = s.take(k);
            assert(on_one_line(first)) by {
                assert forall|i: int| 0 <= i < first.len() implies #[trigger] first[i] != '\n' by {
                    assert(!is_space(s[i]));
                }
            }
        }
    }
}

proof fn lemma_pieces_on_one_line(word: Seq<char>, width: int)
    requires
        on_one_line(word),
    ensures
        all_on_one_line(pieces(word, width)),
        on_one_line(last_piece(word, width)),
    decreases word.len(),
{
    if 1 <= width <= word.len() {
        lemma_pieces_on_one_line(word.skip(width), width);
        assert(on_one_line(word.take(width)));
    }
}

proof fn lemma_wrap_words_on_one_line(rest: Seq<Seq<char>>, row: Seq<char>, width: int)
    requires
        all_on_one_line(rest),
        on_one_line(row),
    ensures
        all_on_one_line(wrap_words(rest, row, width)),
    decreases rest.len(),
{
    if rest.len() > 0 {
        let word = rest[0];
        lemma_pieces_on_one_line(word, width);
        assert(all_on_one_line(rest.drop_first()));
        if row.len() > 0 && row.len() + 1 + word.len() <= width {
            assert(on_one_line(row.push(' ') + word));
            lemma_wrap_words_on_one_line(rest.drop_first(), row.push(' ') + word, width);
        } else if word.len() > width {
            lemma_wrap_words_on_one_line(rest.drop_first(), last_piece(word, width), width);
        } else {
            lemma_wrap_words_on_one_line(rest.drop_first(), word, width);
        }
    }
}

proof fn lemma_wrap_lines_on_one_line(all: Seq<Seq<char>>, width: int)
    ensures
        all_on_one_line(wrap_lines(all, width)),
    decreases all.len(),
{
    if all.len() > 0 {
        lemma_wrap_lines_on_one_line(all.drop_last(), width);
        lemma_words_on_one_line(all.last());
        lemma_wrap_words_on_one_line(words(all.last()), Seq::empty(), width);
    }
}

proof fn lemma_wrapped_on_one_line(s: Seq<char>, width: int)
    ensures
        all_on_one_line(wrapped(s, width)),
{
    lemma_wrap_lines_on_one_line(lines(s), width);
}

proof fn lemma_join_on_one_line(parts: Seq<Seq<char>>, separator: Seq<char>)
    requires
        all_on_one_line(parts),
        on_one_line(separator),
    ensures
        on_one_line(join(parts, separator)),
    decreases parts.len(),
{
    if parts.len() > 1 {
        assert(all_on_one_line(parts.drop_last()));
        lemma_join_on_one_line(parts.drop_last(), separator);
    }
}

proof fn lemma_squeeze_on_one_line(s: Seq<char>)
    ensures
        on_one_line(squeeze(s)),
{
    lemma_words_on_one_line(s);
    lemma_join_on_one_line(words(s), seq![' ']);
}

// A short line fills one row.

/// How wide a row gets that takes all the words.
spec fn needed(rest: Seq<Seq<char>>, row: Seq<char>) -> int
    decreases rest.len(),
{
    if rest.len() == 0 {
        row.len() as int
    } else if row.len() > 0 {
        needed(rest.drop_first(), row.push(' ') + rest[0])
    } else {
        needed(rest.drop_first(), rest[0])
    }
}

proof fn lemma_needed_grows(rest: Seq<Seq<char>>, row: Seq<char>)
    ensures
        needed(rest, row) >= row.len(),
    decreases rest.len(),
{
    if rest.len() > 0 {
        if row.len() > 0 {
            lemma_needed_grows(rest.drop_first(), row.push(' ') + rest[0]);
        } else {
            lemma_needed_grows(rest.drop_first(), rest[0]);
        }
    }
}

proof fn lemma_one_row(rest: Seq<Seq<char>>, row: Seq<char>, width: int)
    requires
        needed(rest, row) <= width,
    ensures
        wrap_words(rest, row, width).len() <= 1,
    decreases rest.len(),
{
    if rest.len() > 0 {
        let next = if row.len() > 0 {
            row.push(' ') + rest[0]
        } else {
            rest[0]
        };
        lemma_needed_grows(rest.drop_first(), next);
        lemma_one_row(rest.drop_first(), next, width);
    }
}

proof fn lemma_needed_by_words(s: Seq<char>, row: Seq<char>)
    ensures
        row.len() == 0 ==> needed(words(s), row) <= s.len(),
        row.len() > 0 && (s.len() == 0 || is_space(s[0])) ==> needed(words(s), row) <= row.len()
            + s.len(),
        needed(words(s), row) <= row.len() + 1 + s.len(),
    decreases s.len(),
{
    lemma_word_length(s);
    let k = word_length(s);
    if s.len() == 0 {
        assert(words(s).len() == 0);
    } else if is_space(s[0]) {
        lemma_needed_by_words(s.drop_first(), row);
    } else {
        let word = s.take(k);
        let after = s.skip(k);
        let next = if row.len() > 0 {
            row.push(' ') + word
        } else {
            word
        };
        assert(words(s) =~= seq![word] + words(after));
        assert((seq![word] + words(after)).drop_first() =~= words(after));
        lemma_needed_by_words(after, next);
        assert(after.len() > 0 ==> after[0] == s[k]);
        assert(needed(words(s), row) == needed(words(after), next));
    }
}

proof fn lemma_short_lines_fill_one_row(s: Seq<char>, width: int)
    requires
        on_one_line(s),
        s.len() <= width,
    ensures
        wrapped(s, width).len() <= 1,
{
    lemma_find_char(s, '\n');
    if s.len() == 0 {
        assert(lines(s).len() == 0);
        assert(wrap_lines(lines(s), width).len() == 0);
    } else {
        assert(find_char(s, '\n') == s.len());
        assert(lines(s) =~= seq![s]);
        assert(seq![s].drop_last() =~= Seq::<Seq<char>>::empty());
        assert(wrap_lines(Seq::<Seq<char>>::empty(), width).len() == 0);
        assert(s[s.len() - 1] != '\n');
        lemma_needed_by_words(s, Seq::empty());
        lemma_one_row(words(s), Seq::empty(), width);
    }
}

// Attribution.

proof fn lemma_same_speaker(source: Seq<char>, speaker: Seq<char>, body: Seq<char>, rest: Seq<char>)
    requires
        split_once(source, ": "@) == Some((speaker, body)),
    ensures
        split_once(speaker + ": "@ + rest, ": "@) == Some((speaker, rest)),
{
    reveal_strlit(": ");
    let mark = ": "@;
    let text = speaker + mark + rest;
    let k = speaker.len() as int;
    lemma_find_from(source, mark, 0);
    lemma_find_from(text, mark, 0);
    assert(text.subrange(k, k + 2) =~= mark);
    assert(occurs_at(text, mark, k));
    let first = find(text, mark)->0;
    assert(find(text, mark) is Some && first <= k);
    if first < k {
        assert forall|i: int| 0 <= i < k + 2 implies source[i] == text[i] by {
            if i < k {
                assert(source.take(k)[i] == source[i]);
            } else {
                assert(source.subrange(k, k + 2)[i - k] == source[i]);
            }
        }
        assert(source.subrange(first, first + 2) =~= text.subrange(first, first + 2));
        assert(occurs_at(source, mark, first));
    }
    assert(text.take(k) =~= speaker);
    assert(text.skip(k + 2) =~= rest);
}

proof fn lemma_trim_space(s: Seq<char>)
    ensures
        trim_start(seq![' '] + s) == trim_start(s),
{
    assert((seq![' '] + s).drop_first() =~= s);
}

/// A preview keeps the attribution of its source, and nothing else of it.
proof fn lemma_attributed_again(source: Seq<char>, preview: Seq<char>)
    requires
        attributed(source) is Some,
    ensures
        attributed(with_attribution(source, preview)) matches Some((who, stamp, body)) && body
            == trim_start(preview),
{
    reveal_strlit(": ");
    reveal_strlit(": [");
    reveal_strlit("] ");
    let (speaker, body) = split_once(source, ": "@)->0;
    let end = find_char(body, ']');
    lemma_find_char(body, ']');
    let stamp = body.subrange(1, end);
    let rest = seq!['['] + stamp + "] "@ + preview;
    let shown = with_attribution(source, preview);
    assert(": ["@ =~= ": "@ + seq!['[']);
    assert(shown =~= speaker + ": "@ + rest);
    lemma_same_speaker(source, speaker, body, rest);
    lemma_find_char(rest, ']');
    let close = stamp.len() as int + 1;
    assert(rest[close] == ']');
    assert forall|i: int| 0 <= i < close implies rest[i] != ']' by {
        if i > 0 {
            assert(rest[i] == body[i]);
        }
    }
    assert(find_char(rest, ']') == close);
    assert(rest.skip(close + 1) =~= seq![' '] + preview);
    lemma_trim_space(preview);
}

proof fn lemma_attributed_suffix(s: Seq<char>)
    requires
        attributed(s) is Some,
    ensures
        exists|k: int| 0 <= k <= s.len() && (attributed(s)->0).2 == #[trigger] s.skip(k),
{
    reveal_strlit(": ");
    lemma_find_from(s, ": "@, 0);
    let (speaker, body) = split_once(s, ": "@)->0;
    let end = find_char(body, ']');
    lemma_find_char(body, ']');
    let tail = body.skip(end + 1);
    lemma_trim_start(tail);
    let k = choose|k: int| 0 <= k <= tail.len() && trim_start(tail) == #[trigger] tail.skip(k);
    let at = speaker.len() + 2 + end + 1 + k;
    assert(tail.skip(k) =~= s.skip(at));
}

/// What a block shows.
pub open spec fn display_of(block: BlockView, width: int) -> Seq<char> {
    if block.collapsed {
        preview_of(block.kind, block.source, width)
    } else {
        block.source
    }
}

/// What a block shows below the header of its speaker.
pub open spec fn shown_body(block: BlockView, width: int) -> Seq<char> {
    let display = display_of(block, width);
    match attributed(display) {
        Some((who, stamp, body)) if has_speaker(block.kind) => body,
        _ => display,
    }
}

/// The rows that a block fills below the header of its speaker.
pub open spec fn own_texts(block: BlockView, width: int) -> Seq<Seq<char>> {
    if takes_no_row(block.kind, block.source) {
        Seq::empty()
    } else {
        body_texts(block.kind, block.collapsed, shown_body(block, width), width)
    }
}

/// The header that a block begins with, if any.
pub open spec fn header_of(above: Laid, block: BlockView, width: int) -> Seq<RowView> {
    let speaker = if block.kind == BlockKind::Human {
        None
    } else {
        above.speaker
    };
    match attributed(display_of(block, width)) {
        Some((who, stamp, body)) if !takes_no_row(block.kind, block.source) && has_speaker(
            block.kind,
        ) && speaker != Some(who) => header_rows(
            above.rows,
            block.id,
            who,
            stamp,
            width,
        ),
        _ => Seq::empty(),
    }
}

proof fn lemma_rows_of_block(above: Laid, block: BlockView, width: int)
    ensures
        lay_block(above, block, width).rows.len() == above.rows.len() + header_of(
            above,
            block,
            width,
        ).len() + own_texts(block, width).len(),
        header_of(above, block, width).len() <= 2,
        forall|i: int|
            above.rows.len() <= i < lay_block(above, block, width).rows.len() ==> ((
            #[trigger] lay_block(above, block, width).rows[i]).text == if i < above.rows.len()
                + header_of(above, block, width).len() {
                header_of(above, block, width)[i - above.rows.len()].text
            } else {
                own_texts(block, width)[i - above.rows.len() - header_of(above, block, width).len()]
            }),
        forall|i: int|
            0 <= i < above.rows.len() ==> #[trigger] lay_block(above, block, width).rows[i]
                == above.rows[i],
{
    reveal(lay_block);
}

// Collapsed blocks.

/// Whether a text is one line that fits a width.
spec fn short(s: Seq<char>, width: int) -> bool {
    on_one_line(s) && s.len() <= width
}

proof fn lemma_short_suffix(s: Seq<char>, k: int, width: int)
    requires
        short(s, width),
        0 <= k <= s.len(),
    ensures
        short(s.skip(k), width),
{
}

proof fn lemma_short_trimmed(s: Seq<char>, width: int)
    requires
        short(s, width),
    ensures
        short(trim_start(s), width),
{
    lemma_trim_start(s);
    let k = choose|k: int| 0 <= k <= s.len() && trim_start(s) == #[trigger] s.skip(k);
    lemma_short_suffix(s, k, width);
}

proof fn lemma_truncated_is_short(s: Seq<char>, width: int)
    requires
        on_one_line(s),
        width >= 1,
    ensures
        short(truncate_end(s, width), width),
        short(truncate_start(s, width), width),
{
}

proof fn lemma_trim_end_on_one_line(s: Seq<char>)
    requires
        on_one_line(s),
    ensures
        on_one_line(trim_end(s)),
    decreases s.len(),
{
    if s.len() > 0 && is_space(s.last()) {
        assert(on_one_line(s.drop_last()));
        lemma_trim_end_on_one_line(s.drop_last());
    }
}

proof fn lemma_fitted_is_short(prefix: Seq<char>, content: Seq<char>, cut: bool, width: int)
    requires
        short(prefix, width),
        width >= 1,
    ensures
        short(fitted(prefix, content, cut, width, 1), width),
    decreases content.len(),
{
    let rows = wrapped(prefix + excerpt(content, cut), width);
    lemma_wrapped_on_one_line(prefix + excerpt(content, cut), width);
    law_wrapped_rows_fit(prefix + excerpt(content, cut), width);
    if content.len() == 0 {
        assert(prefix + excerpt(content, cut) =~= prefix);
        lemma_short_lines_fill_one_row(prefix, width);
    }
    if rows.len() <= 1 {
        assert(short(join(rows, "\n"@), width));
    } else {
        lemma_fitted_is_short(prefix, content.drop_last(), true, width);
    }
}

proof fn lemma_head_preview_is_short(source: Seq<char>, width: int)
    requires
        width >= 1,
    ensures
        short(head_preview("Diff"@, source, width, 1), width),
{
    reveal_strlit("Diff");
    reveal_strlit(" · ");
    let prefix = "Diff"@ + " · "@;
    assert(on_one_line(prefix));
    if source.len() == 0 || prefix.len() >= width {
        lemma_trim_end_on_one_line(prefix);
        lemma_truncated_is_short(trim_end(prefix), width);
    } else {
        let area = if width * 1 > usize::MAX {
            usize::MAX as int
        } else {
            width * 1
        };
        let budget = if area > prefix.len() {
            area - prefix.len()
        } else {
            0
        };
        lemma_fitted_is_short(
            prefix,
            if source.len() > budget {
                source.take(budget)
            } else {
                source
            },
            source.len() > budget,
            width,
        );
    }
}

proof fn lemma_label_on_one_line(kind: BlockKind)
    ensures
        on_one_line(kind_label(kind) + " · "@),
{
    reveal_strlit("You");
    reveal_strlit("Agent response");
    reveal_strlit("Thought");
    reveal_strlit("Tool");
    reveal_strlit("Terminal");
    reveal_strlit("Diff");
    reveal_strlit("CodeSwarm");
    reveal_strlit(" · ");
}

proof fn lemma_first_line_on_one_line(kind: BlockKind, source: Seq<char>)
    ensures
        on_one_line(first_line(kind, source)),
{
    reveal_strlit("(empty)");
    match first_written(lines(presented(kind, source))) {
        Some(line) => lemma_squeeze_on_one_line(line),
        None => {},
    }
}

/// What a collapsed block that is no thought shows is one line that fits.
proof fn lemma_collapsed_body_is_short(block: BlockView, width: int)
    requires
        block.collapsed,
        block.kind != BlockKind::Thought,
        width >= 1,
    ensures
        short(shown_body(block, width), width),
{
    let source = block.source;
    let display = display_of(block, width);
    if block.kind == BlockKind::Tool || block.kind == BlockKind::Diff {
        let act = activity(block.kind, source);
        let preview = if block.kind == BlockKind::Tool {
            tool_preview(act, width)
        } else {
            head_preview("Diff"@, act, width, 1)
        };
        if block.kind == BlockKind::Tool {
            lemma_tool_preview_is_short(act, width);
        } else {
            lemma_head_preview_is_short(act, width);
        }
        assert(display == with_attribution(source, preview));
        if attributed(source) is Some {
            lemma_attributed_again(source, preview);
            lemma_short_trimmed(preview, width);
        } else {
            lemma_shown_suffix_is_short(block, width);
        }
    } else {
        let prefix = kind_label(block.kind) + " · "@;
        lemma_label_on_one_line(block.kind);
        lemma_first_line_on_one_line(block.kind, source);
        let line = first_line(block.kind, source);
        assert(on_one_line(prefix + line));
        lemma_truncated_is_short(prefix + line, width);
        lemma_shown_suffix_is_short(block, width);
    }
}

proof fn lemma_tool_preview_is_short(source: Seq<char>, width: int)
    requires
        width >= 1,
    ensures
        short(tool_preview(source, width), width),
{
    let latest = match find_last(source, "\n🔧"@) {
        Some(k) => source.skip(k + 2),
        None => source,
    };
    let call = trim_start_char(latest, '🔧');
    lemma_squeeze_on_one_line(call);
    lemma_truncated_is_short(squeeze(call), width);
}

proof fn lemma_shown_suffix_is_short(block: BlockView, width: int)
    requires
        short(display_of(block, width), width),
    ensures
        short(shown_body(block, width), width),
{
    let display = display_of(block, width);
    if attributed(display) is Some {
        lemma_attributed_suffix(display);
        let k = choose|k: int|
            0 <= k <= display.len() && (attributed(display)->0).2 == #[trigger] display.skip(k);
        lemma_short_suffix(display, k, width);
    }
}

// Collapsed thoughts.

proof fn lemma_last_two_rows(text: Seq<char>, width: int)
    requires
        width >= 1,
    ensures
        ({
            let tail = join(last_two(wrapped(squeeze(text), width)), "\n"@);
            breaks(tail) <= 1 && parts_fit(tail, width)
        }),
{
    reveal_strlit("\n");
    let all = wrapped(squeeze(text), width);
    let rows = last_two(all);
    let tail = join(rows, "\n"@);
    lemma_wrapped_on_one_line(squeeze(text), width);
    law_wrapped_rows_fit(squeeze(text), width);
    assert("\n"@ =~= seq!['\n']);
    if rows.len() == 2 {
        let first = rows[0];
        let second = rows[1];
        assert(first == all[all.len() - 2] && second == all[all.len() - 1]);
        assert(rows.drop_last() =~= seq![first]);
        assert(join(rows.drop_last(), "\n"@) == first);
        assert(tail =~= first + (seq!['\n'] + second));
        lemma_no_breaks(first);
        lemma_no_breaks(second);
        lemma_breaks_concat(first, seq!['\n'] + second);
        lemma_breaks_concat(seq!['\n'], second);
        assert(seq!['\n'].drop_last() =~= Seq::<char>::empty());
        assert(breaks(Seq::<char>::empty()) == 0);
        lemma_find_char(tail, '\n');
        lemma_find_char(second, '\n');
        assert(tail[first.len() as int] == '\n');
        assert forall|i: int| 0 <= i < first.len() implies tail[i] != '\n' by {
            assert(tail[i] == first[i]);
        }
        assert(find_char(tail, '\n') == first.len());
        assert(tail.take(first.len() as int) =~= first);
        assert(tail.skip(first.len() as int + 1) =~= second);
        assert(split(second, '\n') =~= seq![second]);
    } else {
        if rows.len() == 1 {
            assert(rows[0] == all[all.len() - 1]);
        }
        lemma_no_breaks(tail);
        lemma_find_char(tail, '\n');
        assert(split(tail, '\n') =~= seq![tail]);
    }
}

/// Whether every line of a text fits a width.
spec fn parts_fit(s: Seq<char>, width: int) -> bool {
    forall|i: int| 0 <= i < split(s, '\n').len() ==> (#[trigger] split(s, '\n')[i]).len() <= width
}

proof fn lemma_shorter_parts_fit(s: Seq<char>, k: int, width: int)
    requires
        parts_fit(s, width),
        0 <= k <= s.len(),
    ensures
        parts_fit(s.skip(k), width),
    decreases k,
{
    if k == 0 {
        assert(s.skip(0) =~= s);
    } else {
        let rest = s.drop_first();
        let at = find_char(s, '\n');
        lemma_find_char(s, '\n');
        lemma_find_char(rest, '\n');
        assert(parts_fit(rest, width)) by {
            if at == 0 {
                assert(rest =~= s.skip(1));
                assert(split(s, '\n') =~= seq![s.take(0)] + split(rest, '\n'));
                assert forall|i: int| 0 <= i < split(rest, '\n').len() implies (
                #[trigger] split(rest, '\n')[i]).len() <= width by {
                    assert(split(s, '\n')[i + 1] == split(rest, '\n')[i]);
                }
            } else if at < s.len() {
                assert(rest.skip(at) =~= s.skip(at + 1));
                assert(split(s, '\n') =~= seq![s.take(at)] + split(s.skip(at + 1), '\n'));
                assert(split(rest, '\n') =~= seq![rest.take(at - 1)] + split(s.skip(at + 1), '\n'));
                assert(split(s, '\n')[0].len() == at);
                assert forall|i: int| 0 <= i < split(rest, '\n').len() implies (
                #[trigger] split(rest, '\n')[i]).len() <= width by {
                    if i > 0 {
                        assert(split(s, '\n')[i] == split(rest, '\n')[i]);
                    }
                }
            } else {
                assert(split(s, '\n') =~= seq![s]);
                assert(split(s, '\n')[0].len() == s.len());
                assert(split(rest, '\n') =~= seq![rest]);
            }
        }
        lemma_shorter_parts_fit(rest, k - 1, width);
        assert(rest.skip(k - 1) =~= s.skip(k));
    }
}

/// Whether the time stamp of a thought, if it has one, is on one line.
pub open spec fn stamp_on_one_line(source: Seq<char>) -> bool {
    thought_parts(source) matches Some((speaker, stamp, body)) ==> on_one_line(stamp)
}

/// Whether the time stamp of a thought, if it has one, ends with the only `]` in it.
pub open spec fn stamp_is_closed_once(source: Seq<char>) -> bool {
    thought_parts(source) matches Some((speaker, stamp, body)) ==> find_char(stamp, ']')
        == stamp.len() - 1
}

/// What a collapsed thought shows below its header is a suffix of its time stamp and its
/// last rows, and of the last rows alone where the time stamp is closed once.
proof fn lemma_thought_body(block: BlockView, width: int)
    requires
        block.collapsed,
        block.kind == BlockKind::Thought,
        width >= 1,
    ensures
        stamp_on_one_line(block.source) ==> breaks(shown_body(block, width)) <= 1,
        stamp_is_closed_once(block.source) ==> parts_fit(shown_body(block, width), width),
{
    let source = block.source;
    let display = display_of(block, width);
    match thought_parts(source) {
        Some((speaker, stamp, text)) => {
            reveal_strlit("] ");
            reveal_strlit(" ");
            let (who, body) = split_once(source, ": "@)->0;
            let end = find(body, "] "@)->0;
            lemma_find_from(body, "] "@, 0);
            let tail = join(last_two(wrapped(squeeze(text), width)), "\n"@);
            lemma_last_two_rows(text, width);
            let rest = stamp + " "@ + tail;
            assert(display =~= speaker + ": "@ + rest);
            lemma_same_speaker(source, speaker, body, rest);
            assert(body.subrange(end, end + 2)[0] == body[end]);
            assert(body[end] == ']');
            assert(end >= 1);
            assert(stamp[0] == '[' && stamp[end] == ']');
            assert(rest[0] == '[' && rest[end] == ']');
            lemma_find_char(rest, ']');
            lemma_find_char(stamp, ']');
            let close = find_char(rest, ']');
            assert(close <= end);
            let after = rest.skip(close + 1);
            assert(shown_body(block, width) == trim_start(after));
            lemma_trim_start(after);
            let k = choose|k: int|
                0 <= k <= after.len() && trim_start(after) == #[trigger] after.skip(k);
            if on_one_line(stamp) {
                assert(after.skip(k) =~= rest.skip(close + 1 + k));
                lemma_breaks_suffix(rest, close + 1 + k);
                lemma_no_breaks(stamp);
                assert(on_one_line(" "@));
                lemma_no_breaks(" "@);
                lemma_breaks_concat(stamp, " "@);
                lemma_breaks_concat(stamp + " "@, tail);
            }
            if find_char(stamp, ']') == stamp.len() - 1 {
                assert forall|i: int| 0 <= i < end implies rest[i] != ']' by {
                    assert(rest[i] == stamp[i]);
                }
                assert(close == end);
                assert(after =~= seq![' '] + tail);
                lemma_trim_space(tail);
                lemma_trim_start(tail);
                let j = choose|j: int|
                    0 <= j <= tail.len() && trim_start(tail) == #[trigger] tail.skip(j);
                lemma_shorter_parts_fit(tail, j, width);
            }
        },
        None => {
            lemma_last_two_rows(source, width);
            if attributed(display) is Some {
                lemma_attributed_suffix(display);
                let k = choose|k: int|
                    0 <= k <= display.len() && (attributed(display)->0).2
                        == #[trigger] display.skip(k);
                lemma_breaks_suffix(display, k);
                lemma_shorter_parts_fit(display, k, width);
            }
        },
    }
}

/// At any width a collapsed thought fills at most two rows below the header of its agent,
/// and every other collapsed block at most one, however long it is.
pub proof fn law_collapsed_blocks_stay_small(above: Laid, block: BlockView, width: int)
    requires
        block.collapsed,
        width >= 1,
        block.kind == BlockKind::Thought ==> stamp_on_one_line(block.source),
    ensures
        own_texts(block, width).len() <= (if block.kind == BlockKind::Thought {
            2int
        } else {
            1
        }),
        lay_block(above, block, width).rows.len() == above.rows.len() + header_of(
            above,
            block,
            width,
        ).len() + own_texts(block, width).len(),
        header_of(above, block, width).len() <= 2,
{
    lemma_rows_of_block(above, block, width);
    if block.kind == BlockKind::Thought {
        lemma_thought_body(block, width);
        lemma_split_count(shown_body(block, width));
    } else if !takes_no_row(block.kind, block.source) {
        lemma_collapsed_body_is_short(block, width);
        lemma_short_lines_fill_one_row(shown_body(block, width), width);
    }
}

proof fn lemma_own_texts_fit(block: BlockView, width: int)
    requires
        width >= 1,
        block.kind == BlockKind::Thought && block.collapsed ==> stamp_is_closed_once(block.source),
    ensures
        forall|i: int|
            0 <= i < own_texts(block, width).len() ==> (#[trigger] own_texts(block, width)[i]).len()
                <= width,
{
    let body = shown_body(block, width);
    if block.kind == BlockKind::Thought && block.collapsed {
        lemma_thought_body(block, width);
    } else {
        law_wrapped_rows_fit(body, width);
    }
}

/// No row of a conversation is wider than the width that it was laid out for.
pub proof fn law_rows_fit(blocks: Seq<BlockView>, width: int)
    requires
        width >= 1,
        forall|i: int|
            0 <= i < blocks.len() && blocks[i].kind == BlockKind::Thought && blocks[i].collapsed
                ==> stamp_is_closed_once((#[trigger] blocks[i]).source),
    ensures
        forall|i: int|
            0 <= i < lay_out(blocks, width).rows.len() ==> (#[trigger] lay_out(
                blocks,
                width,
            ).rows[i]).text.len() <= width,
    decreases blocks.len(),
{
    if blocks.len() > 0 {
        let rest = blocks.drop_last();
        let block = blocks.last();
        assert forall|i: int|
            0 <= i < rest.len() && rest[i].kind == BlockKind::Thought && rest[i].collapsed implies
            stamp_is_closed_once((#[trigger] rest[i]).source) by {
            assert(rest[i] == blocks[i]);
        }
        law_rows_fit(rest, width);
        let above = lay_out(rest, width);
        lemma_rows_of_block(above, block, width);
        assert(block == blocks[blocks.len() - 1]);
        lemma_own_texts_fit(block, width);
    }
}

// The export.

/// What the export shows of a block.
pub open spec fn exported_block(block: BlockView) -> Seq<char> {
    "## "@ + heading(block.kind) + "\n\n"@ + trim(block.source) + "\n\n"@
}

/// The export holds every block that says something, collapsed or not, whether or not it
/// has rows on the screen.
pub proof fn law_the_export_holds_every_block(blocks: Seq<BlockView>, i: int)
    requires
        0 <= i < blocks.len(),
        trim(blocks[i].source).len() > 0,
    ensures
        exists|k: int| #[trigger] occurs_at(exported(blocks), exported_block(blocks[i]), k),
    decreases blocks.len(),
{
    let above = exported(blocks.drop_last());
    let last = blocks.last();
    let whole = exported(blocks);
    let part = exported_block(blocks[i]);
    if i == blocks.len() - 1 {
        assert(whole =~= above + part);
        assert(whole.subrange(above.len() as int, (above.len() + part.len()) as int) =~= part);
        assert(occurs_at(whole, part, above.len() as int));
    } else {
        assert(blocks.drop_last()[i] == blocks[i]);
        law_the_export_holds_every_block(blocks.drop_last(), i);
        let k = choose|k: int| #[trigger] occurs_at(above, part, k);
        assert(whole.subrange(k, k + part.len()) =~= above.subrange(k, k + part.len()));
        assert(occurs_at(whole, part, k));
    }
}

/// What is collapsed does not matter to the export.
pub proof fn law_collapsing_keeps_the_export(blocks: Seq<BlockView>, others: Seq<BlockView>)
    requires
        blocks.len() == others.len(),
        forall|i: int|
            0 <= i < blocks.len() ==> (#[trigger] blocks[i]).kind == others[i].kind
                && blocks[i].source == others[i].source,
    ensures
        exported(blocks) == exported(others),
    decreases blocks.len(),
{
    if blocks.len() > 0 {
        let rest = blocks.drop_last();
        assert forall|i: int| 0 <= i < rest.len() implies (#[trigger] rest[i]).kind
            == others.drop_last()[i].kind && rest[i].source == others.drop_last()[i].source by {
            assert(rest[i] == blocks[i]);
        }
        law_collapsing_keeps_the_export(rest, others.drop_last());
        assert(blocks[blocks.len() - 1].kind == others[blocks.len() - 1].kind);
    }
}

/// The export goes on below with every block that is added, and what it held stays.
pub proof fn law_the_export_grows_at_its_end(blocks: Seq<BlockView>, block: BlockView)
    ensures
        trim(block.source).len() > 0 ==> exported(blocks.push(block)) == exported(blocks)
            + exported_block(block),
        trim(block.source).len() == 0 ==> exported(blocks.push(block)) == exported(blocks),
{
    assert(blocks.push(block).drop_last() =~= blocks);
    assert(blocks.push(block).last() == block);
    if trim(block.source).len() > 0 {
        assert(exported(blocks.push(block)) =~= exported(blocks) + exported_block(block));
    }
}

// The viewport and the order of blocks.

/// A viewport shows the rows from its first one on, one after another, as many as there are
/// up to its last one.
pub proof fn law_viewports_show_rows_in_order(rows: Seq<RowView>, first: int, last: int, i: int)
    requires
        0 <= first <= last,
        0 <= i < window(rows, first, last).len(),
    ensures
        window(rows, first, last)[i] == rows[first + i],
        first + i < last,
        last <= rows.len() ==> window(rows, first, last).len() == last - first,
        first <= rows.len() < last ==> window(rows, first, last).len() == rows.len() - first,
{
}

/// A block that is moved up stands in its new place, and the others keep their order.
pub proof fn law_moved_blocks_leave_the_others_in_order(blocks: Seq<BlockView>, from: int, to: int, i: int)
    requires
        0 <= to <= from < blocks.len(),
        0 <= i < blocks.len(),
    ensures
        moved(blocks, from, to).len() == blocks.len(),
        moved(blocks, from, to)[to] == blocks[from],
        i < to || i > from ==> moved(blocks, from, to)[i] == blocks[i],
        to < i <= from ==> moved(blocks, from, to)[i] == blocks[i - 1],
{
}

} // verus!
