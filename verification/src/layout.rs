//! How one conversation block becomes terminal rows: wrapping, the previews of
//! collapsed blocks, and the rows of a whole conversation at a given width.

use crate::text::{
    append_chars, append_text, begins_with, contents, find, find_char, find_last, index_of,
    is_blank, join, joined, last_index_of, lemma_contents_push, lines, optional, position_of,
    same_chars, slice, split, split_at_char, split_at_first, split_lines, split_once, split_words,
    squeeze, squeezed, to_chars, to_text, trim_end, trim_start, trim_start_char, trimmed,
    trimmed_end, trimmed_start, trimmed_start_char, truncate_end, truncate_start, truncated,
    truncated_start, words,
};
use vstd::prelude::*;

verus! {

/// The renderer's stable, presentation-neutral vocabulary.
#[derive(Clone, Copy, Debug, Eq, Ord, PartialEq, PartialOrd, Structural)]
pub enum BlockKind {
    Human,
    Agent,
    Thought,
    Tool,
    Terminal,
    /// What a tool does, apart from a diff: it is exported, and takes no row.
    Activity,
    Diff,
    Notice,
}

/// A logical transcript item. The source is retained for copy and export even
/// when its rendered detail is collapsed.
#[derive(Clone, Debug, Eq, PartialEq)]
pub struct TranscriptBlock {
    pub id: u64,
    pub kind: BlockKind,
    pub source: String,
    pub collapsed: bool,
}

/// What a transcript block holds.
pub struct BlockView {
    pub id: u64,
    pub kind: BlockKind,
    pub source: Seq<char>,
    pub collapsed: bool,
}

impl View for TranscriptBlock {
    type V = BlockView;

    open spec fn view(&self) -> BlockView {
        BlockView { id: self.id, kind: self.kind, source: self.source@, collapsed: self.collapsed }
    }
}

/// A rendered terminal row. Rows borrow nothing, so a terminal renderer can
/// keep a frame while the transcript changes.
#[derive(Clone, Debug, Eq, PartialEq)]
pub struct RenderRow {
    pub block_id: u64,
    pub kind: BlockKind,
    pub first_in_block: bool,
    pub text: String,
}

/// What a rendered row holds.
pub struct RowView {
    pub block_id: u64,
    pub kind: BlockKind,
    pub first_in_block: bool,
    pub text: Seq<char>,
}

impl View for RenderRow {
    type V = RowView;

    open spec fn view(&self) -> RowView {
        RowView {
            block_id: self.block_id,
            kind: self.kind,
            first_in_block: self.first_in_block,
            text: self.text@,
        }
    }
}

impl RenderRow {
    /// A copy of the row with the same contents.
    pub fn copy(&self) -> (row: RenderRow)
        ensures
            row@ == self@,
    {
        RenderRow {
            block_id: self.block_id,
            kind: self.kind,
            first_in_block: self.first_in_block,
            text: self.text.clone(),
        }
    }
}

/// The contents of a list of rows.
pub open spec fn row_contents(rows: Seq<RenderRow>) -> Seq<RowView> {
    Seq::new(rows.len(), |i: int| rows[i]@)
}

pub broadcast proof fn lemma_row_contents_push(rows: Seq<RenderRow>, row: RenderRow)
    ensures
        #[trigger] row_contents(rows.push(row)) == row_contents(rows).push(row@),
{
    assert(row_contents(rows.push(row)) =~= row_contents(rows).push(row@));
}

// Wrapping.

/// The full pieces of `width` characters at the start of a word.
pub open spec fn pieces(word: Seq<char>, width: int) -> Seq<Seq<char>>
    decreases word.len(),
{
    if 1 <= width <= word.len() {
        seq![word.take(width)] + pieces(word.skip(width), width)
    } else {
        Seq::empty()
    }
}

/// What is left of a word after its full pieces of `width` characters.
pub open spec fn last_piece(word: Seq<char>, width: int) -> Seq<char>
    decreases word.len(),
{
    if 1 <= width <= word.len() {
        last_piece(word.skip(width), width)
    } else {
        word
    }
}

/// The rows that `row`, continued by the words, fills: a word joins the row where
/// it fits behind one space, else it starts a new row; a word wider than a row is cut.
pub open spec fn wrap_words(rest: Seq<Seq<char>>, row: Seq<char>, width: int) -> Seq<Seq<char>>
    decreases rest.len(),
{
    if rest.len() == 0 {
        if row.len() > 0 {
            seq![row]
        } else {
            Seq::empty()
        }
    } else {
        let word = rest[0];
        if row.len() > 0 && row.len() + 1 + word.len() <= width {
            wrap_words(rest.drop_first(), row.push(' ') + word, width)
        } else {
            let done: Seq<Seq<char>> = if row.len() > 0 {
                seq![row]
            } else {
                Seq::empty()
            };
            if word.len() > width {
                done + pieces(word, width) + wrap_words(
                    rest.drop_first(),
                    last_piece(word, width),
                    width,
                )
            } else {
                done + wrap_words(rest.drop_first(), word, width)
            }
        }
    }
}

/// The rows of one line; an empty line keeps its row.
pub open spec fn wrap_line(line: Seq<char>, width: int) -> Seq<Seq<char>> {
    if line.len() == 0 {
        seq![Seq::empty()]
    } else {
        wrap_words(words(line), Seq::empty(), width)
    }
}

/// The rows of the lines, one line after another.
pub open spec fn wrap_lines(all: Seq<Seq<char>>, width: int) -> Seq<Seq<char>>
    decreases all.len(),
{
    if all.len() == 0 {
        Seq::empty()
    } else {
        wrap_lines(all.drop_last(), width) + wrap_line(all.last(), width)
    }
}

/// The rows of a text at a width. An empty text, and one that ends with a line
/// end, has an empty row at its end.
pub open spec fn wrapped(s: Seq<char>, width: int) -> Seq<Seq<char>> {
    wrap_lines(lines(s), width) + if s.len() == 0 || s.last() == '\n' {
        seq![Seq::empty()]
    } else {
        Seq::empty()
    }
}

spec fn all_fit(rows: Seq<Seq<char>>, width: int) -> bool {
    forall|i: int| 0 <= i < rows.len() ==> (#[trigger] rows[i]).len() <= width
}

proof fn lemma_pieces_fit(word: Seq<char>, width: int)
    requires
        width >= 1,
    ensures
        all_fit(pieces(word, width), width),
        last_piece(word, width).len() < width,
    decreases word.len(),
{
    if width <= word.len() {
        lemma_pieces_fit(word.skip(width), width);
    }
}

proof fn lemma_wrap_words_fit(rest: Seq<Seq<char>>, row: Seq<char>, width: int)
    requires
        width >= 1,
        row.len() <= width,
    ensures
        all_fit(wrap_words(rest, row, width), width),
    decreases rest.len(),
{
    if rest.len() > 0 {
        let word = rest[0];
        lemma_pieces_fit(word, width);
        if row.len() > 0 && row.len() + 1 + word.len() <= width {
            lemma_wrap_words_fit(rest.drop_first(), row.push(' ') + word, width);
        } else if word.len() > width {
            lemma_wrap_words_fit(rest.drop_first(), last_piece(word, width), width);
        } else {
            lemma_wrap_words_fit(rest.drop_first(), word, width);
        }
    }
}

proof fn lemma_wrap_lines_fit(all: Seq<Seq<char>>, width: int)
    requires
        width >= 1,
    ensures
        all_fit(wrap_lines(all, width), width),
    decreases all.len(),
{
    if all.len() > 0 {
        lemma_wrap_lines_fit(all.drop_last(), width);
        lemma_wrap_words_fit(words(all.last()), Seq::empty(), width);
    }
}

/// No wrapped row is wider than the width it was wrapped for.
pub proof fn law_wrapped_rows_fit(s: Seq<char>, width: int)
    requires
        width >= 1,
    ensures
        forall|i: int| 0 <= i < wrapped(s, width).len() ==> (#[trigger] wrapped(s, width)[i]).len() <= width,
{
    lemma_wrap_lines_fit(lines(s), width);
}

/// The characters of a text other than white space, in order.
pub open spec fn ink(s: Seq<char>) -> Seq<char>
    decreases s.len(),
{
    if s.len() == 0 {
        Seq::empty()
    } else if crate::text::is_space(s.last()) {
        ink(s.drop_last())
    } else {
        ink(s.drop_last()).push(s.last())
    }
}

/// The inks of the parts, one after another.
pub open spec fn ink_of_all(parts: Seq<Seq<char>>) -> Seq<char>
    decreases parts.len(),
{
    if parts.len() == 0 {
        Seq::empty()
    } else {
        ink_of_all(parts.drop_last()) + ink(parts.last())
    }
}

pub proof fn lemma_ink_concat(a: Seq<char>, b: Seq<char>)
    ensures
        ink(a + b) == ink(a) + ink(b),
    decreases b.len(),
{
    if b.len() == 0 {
        assert(a + b =~= a);
        assert(ink(a) + ink(b) =~= ink(a));
    } else {
        assert((a + b).drop_last() =~= a + b.drop_last());
        lemma_ink_concat(a, b.drop_last());
        assert(ink(a) + ink(b.drop_last()).push(b.last()) =~= (ink(a) + ink(b.drop_last())).push(
            b.last(),
        ));
    }
}

pub proof fn lemma_ink_all_concat(a: Seq<Seq<char>>, b: Seq<Seq<char>>)
    ensures
        ink_of_all(a + b) == ink_of_all(a) + ink_of_all(b),
    decreases b.len(),
{
    if b.len() == 0 {
        assert(a + b =~= a);
        assert(ink_of_all(a) + ink_of_all(b) =~= ink_of_all(a));
    } else {
        assert((a + b).drop_last() =~= a + b.drop_last());
        lemma_ink_all_concat(a, b.drop_last());
        assert(ink_of_all(a) + (ink_of_all(b.drop_last()) + ink(b.last())) =~= (ink_of_all(a)
            + ink_of_all(b.drop_last())) + ink(b.last()));
    }
}

proof fn lemma_ink_single(a: Seq<char>)
    ensures
        ink_of_all(seq![a]) == ink(a),
{
    assert(seq![a].drop_last() =~= Seq::<Seq<char>>::empty());
    assert(ink_of_all(Seq::<Seq<char>>::empty()) + ink(a) =~= ink(a));
}

proof fn lemma_ink_space(c: char)
    requires
        crate::text::is_space(c),
    ensures
        ink(seq![c]) == Seq::<char>::empty(),
{
    reveal_with_fuel(ink, 2);
    assert(seq![c].drop_last() =~= Seq::<char>::empty());
}

proof fn lemma_ink_pieces(word: Seq<char>, width: int)
    ensures
        ink_of_all(pieces(word, width)) + ink(last_piece(word, width)) == ink(word),
    decreases word.len(),
{
    if 1 <= width <= word.len() {
        lemma_ink_pieces(word.skip(width), width);
        lemma_ink_all_concat(seq![word.take(width)], pieces(word.skip(width), width));
        lemma_ink_single(word.take(width));
        lemma_ink_concat(word.take(width), word.skip(width));
        assert(word.take(width) + word.skip(width) =~= word);
        let first = ink(word.take(width));
        let others = ink_of_all(pieces(word.skip(width), width));
        let end = ink(last_piece(word.skip(width), width));
        assert(first + others + end =~= first + (others + end));
    } else {
        assert(ink_of_all(pieces(word, width)) + ink(word) =~= ink(word));
    }
}

proof fn lemma_ink_first(parts: Seq<Seq<char>>)
    requires
        parts.len() > 0,
    ensures
        ink_of_all(parts) == ink(parts[0]) + ink_of_all(parts.drop_first()),
{
    assert(parts =~= seq![parts[0]] + parts.drop_first());
    lemma_ink_all_concat(seq![parts[0]], parts.drop_first());
    lemma_ink_single(parts[0]);
}

proof fn lemma_ink_wrap_words(rest: Seq<Seq<char>>, row: Seq<char>, width: int)
    ensures
        ink_of_all(wrap_words(rest, row, width)) == ink(row) + ink_of_all(rest),
    decreases rest.len(),
{
    let out = wrap_words(rest, row, width);
    if rest.len() == 0 {
        lemma_ink_single(row);
        assert(ink(row) + ink_of_all(rest) =~= ink(row));
    } else {
        let word = rest[0];
        let tail = rest.drop_first();
        lemma_ink_first(rest);
        if row.len() > 0 && row.len() + 1 + word.len() <= width {
            lemma_ink_wrap_words(tail, row.push(' ') + word, width);
            lemma_ink_concat(row.push(' '), word);
            assert(row.push(' ').drop_last() =~= row);
            assert(ink(row.push(' ')) == ink(row));
            assert(ink(row) + ink(word) + ink_of_all(tail) =~= ink(row) + (ink(word) + ink_of_all(
                tail,
            )));
        } else {
            let done: Seq<Seq<char>> = if row.len() > 0 {
                seq![row]
            } else {
                Seq::empty()
            };
            lemma_ink_single(row);
            assert(ink_of_all(done) =~= ink(row));
            if word.len() > width {
                let next = wrap_words(tail, last_piece(word, width), width);
                lemma_ink_wrap_words(tail, last_piece(word, width), width);
                lemma_ink_pieces(word, width);
                lemma_ink_all_concat(done, pieces(word, width));
                lemma_ink_all_concat(done + pieces(word, width), next);
                let p = ink_of_all(pieces(word, width));
                let l = ink(last_piece(word, width));
                assert(ink(row) + p + (l + ink_of_all(tail)) =~= ink(row) + ((p + l) + ink_of_all(
                    tail,
                )));
            } else {
                lemma_ink_wrap_words(tail, word, width);
                lemma_ink_all_concat(done, wrap_words(tail, word, width));
            }
        }
    }
}

pub proof fn lemma_ink_words(s: Seq<char>)
    ensures
        ink_of_all(words(s)) == ink(s),
    decreases s.len(),
{
    crate::text::lemma_word_length(s);
    let k = crate::text::word_length(s);
    if s.len() == 0 {
    } else if crate::text::is_space(s[0]) {
        lemma_ink_words(s.drop_first());
        assert(s =~= seq![s[0]] + s.drop_first());
        lemma_ink_concat(seq![s[0]], s.drop_first());
        lemma_ink_space(s[0]);
        assert(ink(seq![s[0]]) + ink(s.drop_first()) =~= ink(s.drop_first()));
    } else {
        lemma_ink_words(s.skip(k));
        lemma_ink_all_concat(seq![s.take(k)], words(s.skip(k)));
        lemma_ink_single(s.take(k));
        assert(s =~= s.take(k) + s.skip(k));
        lemma_ink_concat(s.take(k), s.skip(k));
    }
}

proof fn lemma_ink_wrap_lines(all: Seq<Seq<char>>, width: int)
    ensures
        ink_of_all(wrap_lines(all, width)) == ink_of_all(all),
    decreases all.len(),
{
    if all.len() > 0 {
        lemma_ink_wrap_lines(all.drop_last(), width);
        let line = all.last();
        lemma_ink_all_concat(wrap_lines(all.drop_last(), width), wrap_line(line, width));
        if line.len() == 0 {
            lemma_ink_single(Seq::<char>::empty());
            assert(line =~= Seq::<char>::empty());
        } else {
            lemma_ink_wrap_words(words(line), Seq::empty(), width);
            lemma_ink_words(line);
            assert(ink(Seq::<char>::empty()) + ink_of_all(words(line)) =~= ink(line));
        }
    }
}

proof fn lemma_ink_strip(line: Seq<char>)
    ensures
        ink(crate::text::strip_return(line)) == ink(line),
{
}

proof fn lemma_ink_lines(s: Seq<char>)
    ensures
        ink_of_all(lines(s)) == ink(s),
    decreases s.len(),
{
    crate::text::lemma_find_char(s, '\n');
    let k = find_char(s, '\n');
    if s.len() == 0 {
    } else if k < s.len() {
        lemma_ink_lines(s.skip(k + 1));
        let first = crate::text::strip_return(s.take(k));
        lemma_ink_all_concat(seq![first], lines(s.skip(k + 1)));
        lemma_ink_single(first);
        lemma_ink_strip(s.take(k));
        assert(s =~= s.take(k) + (seq!['\n'] + s.skip(k + 1)));
        lemma_ink_concat(s.take(k), seq!['\n'] + s.skip(k + 1));
        lemma_ink_concat(seq!['\n'], s.skip(k + 1));
        lemma_ink_space('\n');
        assert(ink(seq!['\n']) + ink(s.skip(k + 1)) =~= ink(s.skip(k + 1)));
    } else {
        lemma_ink_single(s);
    }
}

/// Wrapping loses nothing, adds nothing and reorders nothing but white space.
pub proof fn law_wrapping_keeps_the_text(s: Seq<char>, width: int)
    ensures
        ink_of_all(wrapped(s, width)) == ink(s),
{
    lemma_ink_wrap_lines(lines(s), width);
    lemma_ink_lines(s);
    let extra: Seq<Seq<char>> = if s.len() == 0 || s.last() == '\n' {
        seq![Seq::empty()]
    } else {
        Seq::empty()
    };
    lemma_ink_all_concat(wrap_lines(lines(s), width), extra);
    lemma_ink_single(Seq::<char>::empty());
    assert(ink_of_all(extra) =~= Seq::<char>::empty());
    assert(ink(s) + ink_of_all(extra) =~= ink(s));
}

fn wrap_line_into(rows: &mut Vec<Vec<char>>, line: &Vec<char>, width: usize)
    ensures
        contents(final(rows)@) == contents(old(rows)@) + wrap_line(line@, width as int),
{
    broadcast use lemma_contents_push;

    let ghost before = contents(rows@);
    if line.len() == 0 {
        rows.push(Vec::new());
        assert(contents(rows@) =~= before + wrap_line(line@, width as int));
        return;
    }
    let parts = split_words(line);
    let ghost all = contents(parts@);
    let ghost goal = before + wrap_words(all, Seq::empty(), width as int);
    let mut row: Vec<char> = Vec::new();
    let mut i: usize = 0;
    assert(all.skip(0) =~= all);
    assert(row@ =~= Seq::<char>::empty());
    while i < parts.len()
        invariant
            i <= parts@.len(),
            all == contents(parts@),
            contents(rows@) + wrap_words(all.skip(i as int), row@, width as int) == goal,
        decreases parts@.len() - i,
    {
        let word = &parts[i];
        let ghost rest = all.skip(i as int);
        let ghost shown = contents(rows@);
        let ghost start = row@;
        proof {
            assert(rest[0] == word@);
            assert(rest.drop_first() =~= all.skip(i + 1));
        }
        if row.len() > 0 && row.len() < width && word.len() < width - row.len() {
            row.push(' ');
            append_chars(&mut row, word);
        } else {
            if row.len() > 0 {
                rows.push(row);
                row = Vec::new();
            }
            let ghost done: Seq<Seq<char>> = if start.len() > 0 {
                seq![start]
            } else {
                Seq::empty()
            };
            assert(contents(rows@) =~= shown + done);
            if word.len() > width {
                let mut from: usize = 0;
                assert(word@.skip(0) =~= word@);
                assert(contents(rows@) + pieces(word@, width as int) =~= shown + done + pieces(
                    word@,
                    width as int,
                ));
                while width >= 1 && word.len() - from >= width
                    invariant
                        from <= word@.len(),
                        word@.len() <= usize::MAX,
                        contents(rows@) + pieces(word@.skip(from as int), width as int) == shown + done
                            + pieces(word@, width as int),
                        last_piece(word@.skip(from as int), width as int) == last_piece(
                            word@,
                            width as int,
                        ),
                    decreases word@.len() - from,
                {
                    let piece = slice(word, from, from + width);
                    let ghost here = contents(rows@);
                    proof {
                        let tail = word@.skip(from as int);
                        assert(piece@ =~= tail.take(width as int));
                        assert(tail.skip(width as int) =~= word@.skip(from + width));
                        assert(here + (seq![piece@] + pieces(tail.skip(width as int), width as int))
                            =~= here.push(piece@) + pieces(word@.skip(from + width), width as int));
                    }
                    rows.push(piece);
                    from = from + width;
                }
                row = slice(word, from, word.len());
                proof {
                    assert(row@ =~= word@.skip(from as int));
                    assert(pieces(row@, width as int) =~= Seq::<Seq<char>>::empty());
                    assert(contents(rows@) =~= shown + done + pieces(word@, width as int));
                    assert(shown + wrap_words(rest, start, width as int) =~= contents(rows@)
                        + wrap_words(all.skip(i + 1), row@, width as int));
                }
            } else {
                row = slice(word, 0, word.len());
                proof {
                    assert(row@ =~= word@);
                    assert(shown + wrap_words(rest, start, width as int) =~= contents(rows@)
                        + wrap_words(all.skip(i + 1), row@, width as int));
                }
            }
        }
        i = i + 1;
    }
    assert(all.skip(i as int) =~= Seq::<Seq<char>>::empty());
    if row.len() > 0 {
        let ghost shown = contents(rows@);
        assert(shown + seq![row@] =~= shown.push(row@));
        rows.push(row);
    } else {
        assert(contents(rows@) + Seq::<Seq<char>>::empty() =~= contents(rows@));
    }
}

/// The rows of a text at a width.
pub fn wrap(source: &Vec<char>, width: usize) -> (rows: Vec<Vec<char>>)
    ensures
        contents(rows@) == wrapped(source@, width as int),
{
    broadcast use lemma_contents_push;

    let all = split_lines(source);
    let ghost parts = contents(all@);
    let mut rows: Vec<Vec<char>> = Vec::new();
    let mut i: usize = 0;
    assert(contents(rows@) =~= wrap_lines(parts.take(0), width as int));
    while i < all.len()
        invariant
            i <= all@.len(),
            parts == contents(all@),
            contents(rows@) == wrap_lines(parts.take(i as int), width as int),
        decreases all@.len() - i,
    {
        wrap_line_into(&mut rows, &all[i], width);
        assert(parts.take(i + 1).drop_last() =~= parts.take(i as int));
        i = i + 1;
    }
    assert(parts.take(i as int) =~= parts);
    let ghost shown = contents(rows@);
    if source.len() == 0 || source[source.len() - 1] == '\n' {
        let empty: Vec<char> = Vec::new();
        assert(empty@ =~= Seq::<char>::empty());
        assert(shown.push(empty@) =~= shown + seq![Seq::<char>::empty()]);
        rows.push(empty);
    } else {
        assert(shown + Seq::<Seq<char>>::empty() =~= shown);
    }
    rows
}

// Attribution and previews.

/// The speaker, the time stamp and the text of `speaker: [stamp] text`.
pub open spec fn attributed(s: Seq<char>) -> Option<(Seq<char>, Seq<char>, Seq<char>)> {
    match split_once(s, ": "@) {
        Some((speaker, body)) => {
            let end = find_char(body, ']');
            if begins_with(body, '[') && end < body.len() {
                Some((speaker, body.subrange(1, end), trim_start(body.skip(end + 1))))
            } else {
                None
            }
        },
        None => None,
    }
}

/// The parts of an attributed message.
pub fn attributed_message(source: &Vec<char>) -> (parts: Option<(Vec<char>, Vec<char>, Vec<char>)>)
    ensures
        match parts {
            Some((speaker, stamp, body)) => attributed(source@) == Some((speaker@, stamp@, body@)),
            None => attributed(source@) is None,
        },
{
    match split_at_first(source, ": ") {
        Some((speaker, body)) => {
            assert(body@.skip(0) =~= body@);
            let end: usize = position_of(&body, ']', 0);
            if body.len() > 0 && body[0] == '[' && end < body.len() {
                let stamp = slice(&body, 1, end);
                let rest = slice(&body, end + 1, body.len());
                assert(rest@ =~= body@.skip(end + 1));
                Some((speaker, stamp, trimmed_start(&rest)))
            } else {
                None
            }
        },
        None => None,
    }
}

/// The speaker, the bracketed time stamp and the text of a thought.
pub open spec fn thought_parts(s: Seq<char>) -> Option<(Seq<char>, Seq<char>, Seq<char>)> {
    match split_once(s, ": "@) {
        Some((speaker, body)) => match find(body, "] "@) {
            Some(end) => if begins_with(body, '[') {
                Some((speaker, body.take(end + 1), body.skip(end + 2)))
            } else {
                None
            },
            None => None,
        },
        None => None,
    }
}

fn split_thought(source: &Vec<char>) -> (parts: Option<(Vec<char>, Vec<char>, Vec<char>)>)
    ensures
        match parts {
            Some((speaker, stamp, body)) => thought_parts(source@) == Some((speaker@, stamp@, body@)),
            None => thought_parts(source@) is None,
        },
{
    proof {
        reveal_strlit("] ");
    }
    match split_at_first(source, ": ") {
        Some((speaker, body)) => match index_of(&body, &to_chars("] ")) {
            Some(end) => if body.len() > 0 && body[0] == '[' {
                let stamp = slice(&body, 0, end + 1);
                let rest = slice(&body, end + 2, body.len());
                assert(stamp@ =~= body@.take(end + 1));
                assert(rest@ =~= body@.skip(end + 2));
                Some((speaker, stamp, rest))
            } else {
                None
            },
            None => None,
        },
        None => None,
    }
}

/// The last two of the rows.
pub open spec fn last_two(rows: Seq<Seq<char>>) -> Seq<Seq<char>> {
    rows.skip(if rows.len() > 2 {
        rows.len() - 2
    } else {
        0
    })
}

/// A width of at least one cell.
pub open spec fn at_least_one(width: int) -> int {
    if width < 1 {
        1
    } else {
        width
    }
}

/// The preview of a collapsed thought: its last two rows, paragraph breaks left
/// out, behind its attribution.
pub open spec fn thought_preview(source: Seq<char>, width: int) -> Seq<char> {
    match thought_parts(source) {
        Some((speaker, stamp, body)) => speaker + ": "@ + stamp + " "@ + join(
            last_two(wrapped(squeeze(body), at_least_one(width))),
            "\n"@,
        ),
        None => join(last_two(wrapped(squeeze(source), at_least_one(width))), "\n"@),
    }
}

fn last_rows(text: &Vec<char>, width: usize) -> (tail: Vec<char>)
    ensures
        tail@ == join(last_two(wrapped(squeeze(text@), at_least_one(width as int))), "\n"@),
{
    broadcast use lemma_contents_push;

    let rows = wrap(
        &squeezed(text),
        if width < 1 {
            1
        } else {
            width
        },
    );
    let start: usize = if rows.len() > 2 {
        rows.len() - 2
    } else {
        0
    };
    let mut tail: Vec<Vec<char>> = Vec::new();
    let mut i: usize = start;
    assert(contents(tail@) =~= contents(rows@).subrange(start as int, start as int));
    while i < rows.len()
        invariant
            start <= i <= rows@.len(),
            contents(tail@) == contents(rows@).subrange(start as int, i as int),
        decreases rows@.len() - i,
    {
        tail.push(slice(&rows[i], 0, rows[i].len()));
        proof {
            let last = tail@.last()@;
            assert(last =~= rows@[i as int]@);
            assert(contents(rows@).subrange(start as int, i + 1) =~= contents(rows@).subrange(
                start as int,
                i as int,
            ).push(last));
        }
        i = i + 1;
    }
    assert(contents(tail@) =~= last_two(contents(rows@)));
    joined(&tail, "\n")
}

fn collapsed_thought_preview(source: &Vec<char>, width: usize) -> (preview: Vec<char>)
    ensures
        preview@ == thought_preview(source@, width as int),
{
    match split_thought(source) {
        Some((speaker, stamp, body)) => {
            let tail = last_rows(&body, width);
            let mut preview = speaker;
            append_text(&mut preview, ": ");
            append_chars(&mut preview, &stamp);
            append_text(&mut preview, " ");
            append_chars(&mut preview, &tail);
            preview
        },
        None => last_rows(source, width),
    }
}

/// The text behind the speaker's name, for the kinds that carry one.
pub open spec fn presented(kind: BlockKind, source: Seq<char>) -> Seq<char> {
    if kind == BlockKind::Tool || kind == BlockKind::Terminal || kind == BlockKind::Activity || kind
        == BlockKind::Diff {
        match split_once(source, ": "@) {
            Some((speaker, activity)) => activity,
            None => source,
        }
    } else {
        source
    }
}

fn presentation_source(kind: BlockKind, source: &Vec<char>) -> (shown: Vec<char>)
    ensures
        shown@ == presented(kind, source@),
{
    if kind == BlockKind::Tool || kind == BlockKind::Terminal || kind == BlockKind::Activity || kind
        == BlockKind::Diff {
        match split_at_first(source, ": ") {
            Some((speaker, activity)) => {
                return activity;
            },
            None => {},
        }
    }
    let shown = slice(source, 0, source.len());
    assert(shown@ =~= source@);
    shown
}

/// The end of the newest tool call, on one row.
pub open spec fn tool_preview(source: Seq<char>, width: int) -> Seq<char> {
    let latest = match find_last(source, "\n🔧"@) {
        Some(k) => source.skip(k + 2),
        None => source,
    };
    truncate_start(squeeze(trim_start_char(latest, '🔧')), width)
}

fn rolling_tool_preview(source: &Vec<char>, width: usize) -> (preview: Vec<char>)
    ensures
        preview@ == tool_preview(source@, width as int),
{
    proof {
        reveal_strlit("\n🔧");
    }
    let start: usize = match last_index_of(source, &to_chars("\n🔧")) {
        Some(k) => k + 2,
        None => 0,
    };
    let latest = slice(source, start, source.len());
    proof {
        match find_last(source@, "\n🔧"@) {
            Some(k) => {
                assert(latest@ =~= source@.skip(k + 2));
            },
            None => {
                assert(latest@ =~= source@);
            },
        }
    }
    truncated_start(&squeezed(&trimmed_start_char(&latest, '🔧')), width)
}

/// The content with an ellipsis in place of its last character where it was cut.
pub open spec fn excerpt(content: Seq<char>, cut: bool) -> Seq<char> {
    if cut && content.len() > 0 {
        content.drop_last().push('…')
    } else {
        content
    }
}

/// The longest start of the content that fills at most `max_lines` rows behind
/// the prefix.
pub open spec fn fitted(
    prefix: Seq<char>,
    content: Seq<char>,
    cut: bool,
    width: int,
    max_lines: int,
) -> Seq<char>
    decreases content.len(),
{
    let rows = wrapped(prefix + excerpt(content, cut), width);
    if rows.len() <= max_lines || content.len() == 0 {
        join(rows, "\n"@)
    } else {
        fitted(prefix, content.drop_last(), true, width, max_lines)
    }
}

/// The start of a detail, behind its label, on at most `max_lines` rows.
pub open spec fn head_preview(label: Seq<char>, source: Seq<char>, width: int, max_lines: int) -> Seq<
    char,
> {
    let prefix = label + " · "@;
    if source.len() == 0 || prefix.len() >= width {
        truncate_end(trim_end(prefix), width)
    } else {
        let area = if width * max_lines > usize::MAX {
            usize::MAX as int
        } else {
            width * max_lines
        };
        let budget = if area > prefix.len() {
            area - prefix.len()
        } else {
            0
        };
        fitted(
            prefix,
            if source.len() > budget {
                source.take(budget)
            } else {
                source
            },
            source.len() > budget,
            width,
            max_lines,
        )
    }
}

fn bounded_head_preview(label: &str, source: &Vec<char>, width: usize, max_lines: usize) -> (preview:
    Vec<char>)
    ensures
        preview@ == head_preview(label@, source@, width as int, max_lines as int),
{
    let mut prefix = to_chars(label);
    append_text(&mut prefix, " · ");
    if source.len() == 0 || prefix.len() >= width {
        return truncated(&trimmed_end(&prefix), width);
    }
    let area: usize = match width.checked_mul(max_lines) {
        Some(product) => product,
        None => usize::MAX,
    };
    let budget: usize = if area > prefix.len() {
        area - prefix.len()
    } else {
        0
    };
    let mut cut: bool = source.len() > budget;
    let mut content = slice(
        source,
        0,
        if source.len() > budget {
            budget
        } else {
            source.len()
        },
    );
    let ghost goal = head_preview(label@, source@, width as int, max_lines as int);
    proof {
        if source@.len() > budget {
            assert(content@ =~= source@.take(budget as int));
        } else {
            assert(content@ =~= source@);
        }
    }
    loop
        invariant
            goal == head_preview(label@, source@, width as int, max_lines as int),
            goal == fitted(prefix@, content@, cut, width as int, max_lines as int),
        decreases content@.len(),
    {
        let mut candidate = slice(&prefix, 0, prefix.len());
        assert(candidate@ =~= prefix@);
        if cut && content.len() > 0 {
            let head = slice(&content, 0, content.len() - 1);
            assert(head@ =~= content@.drop_last());
            append_chars(&mut candidate, &head);
            candidate.push('…');
        } else {
            append_chars(&mut candidate, &content);
        }
        assert(candidate@ =~= prefix@ + excerpt(content@, cut));
        let rows = wrap(&candidate, width);
        if rows.len() <= max_lines || content.len() == 0 {
            return joined(&rows, "\n");
        }
        content.pop();
        cut = true;
    }
}

/// The first of the lines that holds more than white space.
pub open spec fn first_written(all: Seq<Seq<char>>) -> Option<Seq<char>>
    decreases all.len(),
{
    if all.len() == 0 {
        None
    } else if !is_blank(all[0]) {
        Some(all[0])
    } else {
        first_written(all.drop_first())
    }
}

/// The words of the first line that holds any, or a stand-in.
pub open spec fn first_line(kind: BlockKind, source: Seq<char>) -> Seq<char> {
    match first_written(lines(presented(kind, source))) {
        Some(line) => squeeze(line),
        None => "(empty)"@,
    }
}

fn first_line_preview(kind: BlockKind, source: &Vec<char>) -> (preview: Vec<char>)
    ensures
        preview@ == first_line(kind, source@),
{
    let all = split_lines(&presentation_source(kind, source));
    let ghost parts = contents(all@);
    let mut i: usize = 0;
    assert(parts.skip(0) =~= parts);
    while i < all.len()
        invariant
            i <= all@.len(),
            parts == contents(all@),
            parts == lines(presented(kind, source@)),
            first_written(parts) == first_written(parts.skip(i as int)),
        decreases all@.len() - i,
    {
        assert(parts.skip(i as int)[0] == all@[i as int]@);
        if trimmed(&all[i]).len() > 0 {
            return squeezed(&all[i]);
        }
        assert(parts.skip(i as int).drop_first() =~= parts.skip(i + 1));
        i = i + 1;
    }
    to_chars("(empty)")
}

/// The name of a kind of block.
pub open spec fn kind_label(kind: BlockKind) -> Seq<char> {
    match kind {
        BlockKind::Human => "You"@,
        BlockKind::Agent => "Agent response"@,
        BlockKind::Thought => "Thought"@,
        BlockKind::Tool => "Tool"@,
        BlockKind::Terminal => "Terminal"@,
        BlockKind::Activity => "Tool"@,
        BlockKind::Diff => "Diff"@,
        BlockKind::Notice => "CodeSwarm"@,
    }
}

pub fn label(kind: BlockKind) -> (name: &'static str)
    ensures
        name@ == kind_label(kind),
{
    match kind {
        BlockKind::Human => "You",
        BlockKind::Agent => "Agent response",
        BlockKind::Thought => "Thought",
        BlockKind::Tool => "Tool",
        BlockKind::Terminal => "Terminal",
        BlockKind::Activity => "Tool",
        BlockKind::Diff => "Diff",
        BlockKind::Notice => "CodeSwarm",
    }
}

/// The source of an activity behind its attribution.
pub open spec fn activity(kind: BlockKind, source: Seq<char>) -> Seq<char> {
    match attributed(source) {
        Some((speaker, stamp, body)) => body,
        None => presented(kind, source),
    }
}

/// A preview behind the attribution that its source carries.
pub open spec fn with_attribution(source: Seq<char>, preview: Seq<char>) -> Seq<char> {
    match attributed(source) {
        Some((speaker, stamp, body)) => speaker + ": ["@ + stamp + "] "@ + preview,
        None => preview,
    }
}

/// What stands for a collapsed block.
pub open spec fn preview_of(kind: BlockKind, source: Seq<char>, width: int) -> Seq<char> {
    match kind {
        BlockKind::Thought => thought_preview(source, width),
        BlockKind::Tool => with_attribution(source, tool_preview(activity(kind, source), width)),
        BlockKind::Diff => with_attribution(
            source,
            head_preview("Diff"@, activity(kind, source), width, 1),
        ),
        _ => truncate_end(kind_label(kind) + " · "@ + first_line(kind, source), width),
    }
}

fn collapsed_activity_preview(kind: BlockKind, source: &Vec<char>, width: usize) -> (preview: Vec<char>)
    requires
        kind == BlockKind::Tool || kind == BlockKind::Diff,
    ensures
        preview@ == preview_of(kind, source@, width as int),
{
    match attributed_message(source) {
        Some((speaker, stamp, body)) => {
            let shown = if kind == BlockKind::Tool {
                rolling_tool_preview(&body, width)
            } else {
                bounded_head_preview("Diff", &body, width, 1)
            };
            let mut preview = speaker;
            append_text(&mut preview, ": [");
            append_chars(&mut preview, &stamp);
            append_text(&mut preview, "] ");
            append_chars(&mut preview, &shown);
            preview
        },
        None => {
            let body = presentation_source(kind, source);
            if kind == BlockKind::Tool {
                rolling_tool_preview(&body, width)
            } else {
                bounded_head_preview("Diff", &body, width, 1)
            }
        },
    }
}

/// Compact stand-in for a collapsed block.
pub fn collapsed_preview(kind: BlockKind, source: &Vec<char>, width: usize) -> (preview: Vec<char>)
    ensures
        preview@ == preview_of(kind, source@, width as int),
{
    match kind {
        BlockKind::Thought => collapsed_thought_preview(source, width),
        BlockKind::Tool => collapsed_activity_preview(kind, source, width),
        BlockKind::Diff => collapsed_activity_preview(kind, source, width),
        _ => {
            let mut prefix = to_chars(label(kind));
            append_text(&mut prefix, " · ");
            append_chars(&mut prefix, &first_line_preview(kind, source));
            truncated(&prefix, width)
        },
    }
}

// Rows of blocks.

/// Whether blocks of the kind belong to a speaker.
pub open spec fn has_speaker(kind: BlockKind) -> bool {
    kind == BlockKind::Agent || kind == BlockKind::Thought || kind == BlockKind::Tool || kind
        == BlockKind::Diff
}

/// One row for each text.
pub open spec fn rows_for(texts: Seq<Seq<char>>, id: u64, kind: BlockKind, mark_first: bool) -> Seq<
    RowView,
> {
    Seq::new(
        texts.len(),
        |i: int|
            RowView { block_id: id, kind, first_in_block: mark_first && i == 0, text: texts[i] },
    )
}

/// The lines, each cut to the width.
pub open spec fn cut_lines(all: Seq<Seq<char>>, width: int) -> Seq<Seq<char>> {
    Seq::new(all.len(), |i: int| truncate_end(all[i], width))
}

/// The texts that a block's body fills its rows with.
pub open spec fn body_texts(kind: BlockKind, collapsed: bool, body: Seq<char>, width: int) -> Seq<
    Seq<char>,
> {
    if kind == BlockKind::Thought && collapsed {
        split(body, '\n')
    } else if kind == BlockKind::Tool && !collapsed {
        cut_lines(lines(body), width)
    } else {
        wrapped(body, width)
    }
}

/// The header of a new speaker: a separating empty row where there is something
/// above it, and a row that names the speaker and the time.
pub open spec fn header_rows(
    above: Seq<RowView>,
    id: u64,
    speaker: Seq<char>,
    stamp: Seq<char>,
    width: int,
) -> Seq<RowView> {
    let name = RowView {
        block_id: id,
        kind: BlockKind::Agent,
        first_in_block: true,
        text: truncate_end(speaker + ": ["@ + stamp + "]"@, width),
    };
    if above.len() > 0 && above.last().text.len() > 0 {
        seq![
            RowView {
                block_id: id,
                kind: BlockKind::Agent,
                first_in_block: false,
                text: Seq::empty(),
            },
            name,
        ]
    } else {
        seq![name]
    }
}

/// Rows that have been laid out, and the speaker whose turn they end in.
pub struct Laid {
    pub rows: Seq<RowView>,
    pub speaker: Option<Seq<char>>,
}

/// Whether a block takes no row: what a terminal prints, what a tool does, and a tool call
/// that does not say who made it and when.
pub open spec fn takes_no_row(kind: BlockKind, source: Seq<char>) -> bool {
    kind == BlockKind::Terminal || kind == BlockKind::Activity || (kind == BlockKind::Tool
        && attributed(source) is None)
}

/// The rows with one more block laid out below them.
#[verifier::opaque]
pub open spec fn lay_block(above: Laid, block: BlockView, width: int) -> Laid {
    let speaker = if block.kind == BlockKind::Human {
        None
    } else {
        above.speaker
    };
    let display = if block.collapsed {
        preview_of(block.kind, block.source, width)
    } else {
        block.source
    };
    if takes_no_row(block.kind, block.source) {
        Laid { rows: above.rows, speaker }
    } else {
        match attributed(display) {
            Some((who, stamp, body)) if has_speaker(block.kind) => {
                let header = if speaker == Some(who) {
                    Seq::empty()
                } else {
                    header_rows(above.rows, block.id, who, stamp, width)
                };
                Laid {
                    rows: above.rows + header + rows_for(
                        body_texts(block.kind, block.collapsed, body, width),
                        block.id,
                        block.kind,
                        false,
                    ),
                    speaker: Some(who),
                }
            },
            _ => Laid {
                rows: above.rows + rows_for(
                    body_texts(block.kind, block.collapsed, display, width),
                    block.id,
                    block.kind,
                    true,
                ),
                speaker: if has_speaker(block.kind) {
                    None
                } else {
                    speaker
                },
            },
        }
    }
}

/// The whole conversation laid out at a width.
pub open spec fn lay_out(blocks: Seq<BlockView>, width: int) -> Laid
    decreases blocks.len(),
{
    if blocks.len() == 0 {
        Laid { rows: Seq::empty(), speaker: None }
    } else {
        lay_block(lay_out(blocks.drop_last(), width), blocks.last(), width)
    }
}

fn body_rows(kind: BlockKind, collapsed: bool, body: &Vec<char>, width: usize) -> (texts: Vec<Vec<char>>)
    ensures
        contents(texts@) == body_texts(kind, collapsed, body@, width as int),
{
    broadcast use lemma_contents_push;

    if kind == BlockKind::Thought && collapsed {
        split_at_char(body, '\n')
    } else if kind == BlockKind::Tool && !collapsed {
        let all = split_lines(body);
        let ghost parts = contents(all@);
        let mut texts: Vec<Vec<char>> = Vec::new();
        let mut i: usize = 0;
        assert(contents(texts@) =~= cut_lines(parts, width as int).take(0));
        while i < all.len()
            invariant
                i <= all@.len(),
                parts == contents(all@),
                contents(texts@) == cut_lines(parts, width as int).take(i as int),
            decreases all@.len() - i,
        {
            texts.push(truncated(&all[i], width));
            assert(cut_lines(parts, width as int).take(i + 1) =~= cut_lines(parts, width as int).take(
                i as int,
            ).push(texts@.last()@));
            i = i + 1;
        }
        assert(cut_lines(parts, width as int).take(i as int) =~= cut_lines(parts, width as int));
        texts
    } else {
        wrap(body, width)
    }
}

fn append_rows(rows: &mut Vec<RenderRow>, texts: &Vec<Vec<char>>, id: u64, kind: BlockKind, mark_first: bool)
    ensures
        row_contents(final(rows)@) == row_contents(old(rows)@) + rows_for(
            contents(texts@),
            id,
            kind,
            mark_first,
        ),
{
    broadcast use lemma_row_contents_push;

    let ghost before = row_contents(rows@);
    let ghost added = rows_for(contents(texts@), id, kind, mark_first);
    let mut i: usize = 0;
    assert(row_contents(rows@) =~= before + added.take(0));
    while i < texts.len()
        invariant
            i <= texts@.len(),
            added == rows_for(contents(texts@), id, kind, mark_first),
            row_contents(rows@) == before + added.take(i as int),
        decreases texts@.len() - i,
    {
        rows.push(
            RenderRow {
                block_id: id,
                kind,
                first_in_block: mark_first && i == 0,
                text: to_text(&texts[i]),
            },
        );
        assert(before + added.take(i + 1) =~= (before + added.take(i as int)).push(
            added[i as int],
        ));
        i = i + 1;
    }
    assert(added.take(i as int) =~= added);
}

/// Lays one block out below the rows, and gives the speaker whose turn they then end in.
pub fn lay_one(rows: &mut Vec<RenderRow>, speaker: Option<String>, block: &TranscriptBlock, width: usize)
    -> (next: Option<String>)
    ensures
        (Laid { rows: row_contents(final(rows)@), speaker: optional(next) }) == lay_block(
            Laid { rows: row_contents(old(rows)@), speaker: optional(speaker) },
            block@,
            width as int,
        ),
{
    broadcast use lemma_row_contents_push;

    reveal(lay_block);
    let ghost above = row_contents(rows@);
    let current: Option<String> = if block.kind == BlockKind::Human {
        None
    } else {
        speaker
    };
    let source = to_chars(block.source.as_str());
    if block.kind == BlockKind::Terminal || block.kind == BlockKind::Activity || (block.kind
        == BlockKind::Tool && attributed_message(&source).is_none()) {
        return current;
    }
    let display = if block.collapsed {
        collapsed_preview(block.kind, &source, width)
    } else {
        source
    };
    let speaks: bool = block.kind == BlockKind::Agent || block.kind == BlockKind::Thought || block.kind
        == BlockKind::Tool || block.kind == BlockKind::Diff;
    if speaks {
        if let Some((who, stamp, body)) = attributed_message(&display) {
            let continues: bool = match &current {
                Some(name) => same_chars(&to_chars(name.as_str()), &who),
                None => false,
            };
            let ghost header = if continues {
                Seq::<RowView>::empty()
            } else {
                header_rows(above, block.id, who@, stamp@, width as int)
            };
            if !continues {
                if rows.len() > 0 && !rows[rows.len() - 1].text.as_str().is_empty() {
                    rows.push(
                        RenderRow {
                            block_id: block.id,
                            kind: BlockKind::Agent,
                            first_in_block: false,
                            text: String::new(),
                        },
                    );
                }
                let mut name = slice(&who, 0, who.len());
                assert(name@ =~= who@);
                append_text(&mut name, ": [");
                append_chars(&mut name, &stamp);
                append_text(&mut name, "]");
                rows.push(
                    RenderRow {
                        block_id: block.id,
                        kind: BlockKind::Agent,
                        first_in_block: true,
                        text: to_text(&truncated(&name, width)),
                    },
                );
            }
            assert(row_contents(rows@) =~= above + header);
            let texts = body_rows(block.kind, block.collapsed, &body, width);
            append_rows(rows, &texts, block.id, block.kind, false);
            return Some(to_text(&who));
        }
    }
    let texts = body_rows(block.kind, block.collapsed, &display, width);
    append_rows(rows, &texts, block.id, block.kind, true);
    if speaks {
        None
    } else {
        current
    }
}

} // verus!
