//! What holds of every drawn row: markup colors the text and hides nothing but its own marks,
//! and each column of a diff has the lines that are its own.

use crate::app::AppView;
use crate::layout::{BlockKind, RowView};
use crate::markdown::{
    emphasized, first_emphasis, inline_text, is_fence, item_marker, law_links_stay_visible,
    lemma_text_of_concat, lemma_text_of_one, styled_line, text_of,
};
use crate::screen::{columns_of, lines_of, openable_detail, row_line, row_mark};
use crate::style::{in_bold, piece, Color, Style};
use crate::text::{
    begins_with, find, lemma_find_char, lemma_find_from, occurs_at, starts_with, trim_start,
};
use vstd::prelude::*;

verus! {

/// Whether a text has no mark of emphasis.
pub open spec fn unmarked(text: Seq<char>) -> bool {
    forall|i: int| 0 <= i < text.len() ==> #[trigger] text[i] != '*' && text[i] != '`'
}

proof fn lemma_no_emphasis(text: Seq<char>)
    requires
        unmarked(text),
    ensures
        first_emphasis(text) is None,
{
    reveal_strlit("*");
    reveal_strlit("`");
    lemma_find_from(text, "*"@, 0);
    lemma_find_from(text, "`"@, 0);
    match find(text, "*"@) {
        Some(k) => {
            assert(text.subrange(k, k + 1)[0] == text[k]);
        },
        None => {},
    }
    match find(text, "`"@) {
        Some(k) => {
            assert(text.subrange(k, k + 1)[0] == text[k]);
        },
        None => {},
    }
}

proof fn lemma_unmarked_is_kept(base: Style, text: Seq<char>)
    requires
        unmarked(text),
    ensures
        text_of(emphasized(base, text)) == text,
{
    if text.len() > 0 {
        lemma_no_emphasis(text);
        law_links_stay_visible(base, text);
    } else {
        assert(text_of(emphasized(base, text)) =~= text);
    }
}

proof fn lemma_item_marker(written: Seq<char>)
    ensures
        item_marker(written) matches Some(length) ==> 0 < length <= written.len(),
{
    reveal_strlit("> ");
    reveal_strlit("- ");
    reveal_strlit("* ");
    lemma_find_char(written, '.');
}

proof fn lemma_trim_start_is_end(s: Seq<char>)
    ensures
        trim_start(s).len() <= s.len(),
        s.skip(s.len() - trim_start(s).len()) == trim_start(s),
    decreases s.len(),
{
    if s.len() > 0 && crate::text::is_space(s[0]) {
        let rest = s.drop_first();
        lemma_trim_start_is_end(rest);
        let k = rest.len() - trim_start(rest).len();
        assert(rest.skip(k) =~= s.skip(k + 1));
    } else {
        assert(s.skip(0) =~= s);
    }
}

/// A line without marks of emphasis is shown character for character, whatever is colored in
/// it; so is every line of code, and every fence.
pub proof fn law_unmarked_lines_are_shown_whole(kind: BlockKind, text: Seq<char>, in_code: bool)
    requires
        unmarked(text) || in_code || is_fence(text),
    ensures
        text_of(styled_line(kind, text, in_code).0) == text,
        styled_line(kind, text, in_code).1 == (in_code != is_fence(text)),
{
    if is_fence(text) || in_code {
        lemma_text_of_one(styled_line(kind, text, in_code).0[0]);
        assert(styled_line(kind, text, in_code).0 =~= seq![styled_line(kind, text, in_code).0[0]]);
    } else {
        let base = crate::markdown::line_style(kind, text);
        let written = trim_start(text);
        let leading = text.len() - written.len();
        lemma_item_marker(written);
        lemma_trim_start_is_end(text);
        match item_marker(written) {
            None => {
                lemma_unmarked_is_kept(base, text);
            },
            Some(length) => {
                let before = if leading > 0 {
                    seq![piece(text.take(leading), base)]
                } else {
                    Seq::empty()
                };
                let style = if starts_with(written, "> "@) {
                    in_bold(crate::style::with_fg(base, Color::Cyan))
                } else {
                    in_bold(crate::style::with_fg(base, Color::LightYellow))
                };
                let mark = piece(text.subrange(leading, leading + length), style);
                let rest = text.skip(leading + length);
                assert(unmarked(rest)) by {
                    assert forall|i: int| 0 <= i < rest.len() implies #[trigger] rest[i] != '*'
                        && rest[i] != '`' by {
                        assert(rest[i] == text[leading + length + i]);
                    }
                }
                lemma_unmarked_is_kept(base, rest);
                lemma_text_of_concat(before.push(mark), emphasized(base, rest));
                assert(before.push(mark) =~= before + seq![mark]);
                lemma_text_of_concat(before, seq![mark]);
                lemma_text_of_one(mark);
                if leading > 0 {
                    lemma_text_of_one(piece(text.take(leading), base));
                } else {
                    assert(text_of(before) =~= Seq::<char>::empty());
                }
                assert(text_of(before) =~= text.take(leading));
                assert(text.take(leading) + mark.text + rest =~= text);
            },
        }
    }
}

/// What stands between two double stars is shown in bold and without them, what stands
/// before them as it is, and the rest of the line follows.
pub proof fn law_strong_text_is_bold(base: Style, before: Seq<char>, inner: Seq<char>, rest: Seq<char>)
    requires
        unmarked(before),
        before.len() > 0,
        unmarked(inner),
    ensures
        emphasized(base, before + "**"@ + inner + "**"@ + rest) == inline_text(base, before).push(
            piece(inner, in_bold(base)),
        ) + emphasized(base, rest),
{
    reveal_strlit("**");
    reveal_strlit("*");
    reveal_strlit("`");
    let text = before + "**"@ + inner + "**"@ + rest;
    let at = before.len() as int;
    lemma_find_from(text, "**"@, 0);
    lemma_find_from(text, "*"@, 0);
    lemma_find_from(text, "`"@, 0);
    assert(text.subrange(at, at + 2) =~= "**"@);
    assert(text.subrange(at, at + 1) =~= "*"@);
    assert(occurs_at(text, "**"@, at));
    assert(occurs_at(text, "*"@, at));
    assert forall|j: int| 0 <= j < at implies !occurs_at(text, "*"@, j) && !occurs_at(
        text,
        "**"@,
        j,
    ) && !occurs_at(text, "`"@, j) by {
        assert(text[j] == before[j]);
        if occurs_at(text, "*"@, j) {
            assert(text.subrange(j, j + 1)[0] == text[j]);
        }
        if occurs_at(text, "**"@, j) {
            assert(text.subrange(j, j + 2)[0] == text[j]);
        }
        if occurs_at(text, "`"@, j) {
            assert(text.subrange(j, j + 1)[0] == text[j]);
        }
    }
    assert(find(text, "*"@) == Some(at));
    assert(find(text, "**"@) == Some(at));
    if find(text, "`"@) == Some(at) {
        assert(text.subrange(at, at + 1)[0] == text[at]);
    }
    assert(first_emphasis(text) == Some((at, "**"@)));
    assert(text.take(at) =~= before);
    let tail = text.skip(at + 2);
    assert(tail =~= inner + "**"@ + rest);
    lemma_find_from(tail, "**"@, 0);
    let k = inner.len() as int;
    assert(tail.subrange(k, k + 2) =~= "**"@);
    assert(occurs_at(tail, "**"@, k));
    assert forall|j: int| 0 <= j < k implies !occurs_at(tail, "**"@, j) by {
        assert(tail[j] == inner[j]);
        if occurs_at(tail, "**"@, j) {
            assert(tail.subrange(j, j + 2)[0] == tail[j]);
        }
    }
    assert(find(tail, "**"@) == Some(k));
    assert(text.subrange(at + 2, at + 2 + k) =~= inner);
    assert(text.skip(at + 2 + k + 2) =~= rest);
}

/// Every row has one line, and a row that names nobody and has no marks is drawn behind its
/// marker, character for character.
pub proof fn law_rows_are_drawn_whole(app: AppView, row: RowView, width: int, in_code: bool)
    requires
        unmarked(row.text),
        !row.first_in_block || (row.kind != BlockKind::Agent && row.kind != BlockKind::Thought),
        openable_detail(app) != Some(row.block_id),
    ensures
        text_of(row_line(app, row, width, in_code).0) == row_mark(row) + row.text,
{
    let code = in_code && !row.first_in_block;
    law_unmarked_lines_are_shown_whole(row.kind, row.text, code);
    let mark = piece(row_mark(row), crate::markdown::mark_style(row.kind, row.text));
    lemma_text_of_concat(seq![mark], styled_line(row.kind, row.text, code).0);
    lemma_text_of_one(mark);
}

/// There is one line for each row, in their order, and a row's line does not depend on the
/// rows below it.
pub proof fn law_rows_are_drawn_in_order(app: AppView, rows: Seq<RowView>, width: int, n: int)
    requires
        0 < n <= rows.len(),
    ensures
        lines_of(app, rows, width, n).0.len() == n,
        lines_of(app, rows, width, n).0.drop_last() == lines_of(app, rows, width, n - 1).0,
        lines_of(app, rows, width, n).0.last() == row_line(
            app,
            rows[n - 1],
            width,
            lines_of(app, rows, width, n - 1).1,
        ).0,
    decreases n,
{
    if n > 1 {
        law_rows_are_drawn_in_order(app, rows, width, n - 1);
    }
    let above = lines_of(app, rows, width, n - 1).0;
    assert(lines_of(app, rows, width, n).0.drop_last() =~= above);
}

/// Side by side, what was taken out of a diff stands on the left alone, what was put in on
/// the right alone, and everything else on both sides. Taken out is red, put in is green.
pub proof fn law_columns_have_their_own_lines(row: RowView)
    ensures
        ({
            let (left, right) = (text_of(columns_of(row).0), text_of(columns_of(row).1));
            let removed = row.kind == BlockKind::Diff && begins_with(row.text, '-') && !starts_with(
                row.text,
                "---"@,
            );
            let inserted = row.kind == BlockKind::Diff && begins_with(row.text, '+')
                && !starts_with(row.text, "+++"@);
            &&& removed ==> left == row.text && right.len() == 0 && columns_of(row).0[0].style.fg
                == Some(Color::Red)
            &&& inserted ==> left.len() == 0 && right == row.text && columns_of(row).1[0].style.fg
                == Some(Color::Green)
            &&& !removed && !inserted ==> left == row.text && right == row.text
        }),
{
    let (left, right) = columns_of(row);
    assert(left =~= seq![left[0]] && right =~= seq![right[0]]);
    lemma_text_of_one(left[0]);
    lemma_text_of_one(right[0]);
}

} // verus!
