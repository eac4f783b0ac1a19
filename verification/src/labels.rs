//! Labels that fit into a given width.

use crate::text::{
    append_chars, append_text, contents, lines, optional, same, slice, split, split_at_char,
    split_lines, to_chars, to_text,
};
use vstd::prelude::*;

verus! {

/// The terminal cells that a text takes up.
pub uninterp spec fn cells(text: Seq<char>) -> nat;

/// `ratatui::text::Span::width` gives the terminal cells that a text takes up; the
/// number depends on the characters of the text alone.
#[verifier::external_body]
pub(crate) fn cell_width(value: &str) -> (width: usize)
    ensures
        width == cells(value@),
{
    ratatui::text::Span::raw(value).width()
}

/// A text cut to a number of characters, with an ellipsis for what is left out.
pub open spec fn compact(value: Seq<char>, width: int) -> Seq<char> {
    let budget = if width > 1 {
        width
    } else {
        1
    };
    if value.len() <= budget {
        value
    } else if budget > 1 {
        value.take(budget - 1).push('…')
    } else {
        value.take(1)
    }
}

/// A compact label is never longer than the room for it, and a text that fits is
/// shown whole.
pub proof fn law_compact_labels_fit(value: Seq<char>, width: int)
    requires
        width >= 1,
    ensures
        compact(value, width).len() <= width,
        value.len() <= width ==> compact(value, width) == value,
{
}

fn compact_chars(value: &Vec<char>, width: usize) -> (label: Vec<char>)
    ensures
        label@ == compact(value@, width as int),
{
    let budget: usize = if width > 1 {
        width
    } else {
        1
    };
    if value.len() <= budget {
        let label = slice(value, 0, value.len());
        assert(label@ =~= value@);
        label
    } else if budget > 1 {
        let mut label = slice(value, 0, budget - 1);
        assert(label@ =~= value@.take(budget - 1));
        label.push('…');
        label
    } else {
        let label = slice(value, 0, 1);
        assert(label@ =~= value@.take(1));
        label
    }
}

/// A text cut to a number of characters, with an ellipsis for what is left out.
pub fn compact_label(value: &str, width: usize) -> (label: String)
    ensures
        label@ == compact(value@, width as int),
{
    to_text(&compact_chars(&to_chars(value), width))
}

/// The last line of a prompt, cut to a width.
pub open spec fn prompt_line(value: Seq<char>, width: int) -> Seq<char> {
    let all = lines(value);
    let line = if all.len() == 0 {
        Seq::empty()
    } else {
        all.last()
    };
    if width <= 2 {
        Seq::empty()
    } else {
        "> "@ + compact(line, width - 2)
    }
}

/// The last line of a prompt, cut to a width.
pub fn compact_prompt(value: &str, width: usize) -> (prompt: String)
    ensures
        prompt@ == prompt_line(value@, width as int),
{
    if width <= 2 {
        return String::new();
    }
    let all = split_lines(&to_chars(value));
    assert(contents(all@).len() == all@.len());
    let mut prompt = to_chars("> ");
    if all.len() > 0 {
        append_chars(&mut prompt, &compact_chars(&all[all.len() - 1], width - 2));
    } else {
        assert(compact(Seq::<char>::empty(), width - 2) =~= Seq::empty());
        assert(prompt@ + Seq::<char>::empty() =~= prompt@);
    }
    to_text(&prompt)
}

/// How many leading characters fit into a budget of cells.
pub open spec fn fitting(value: Seq<char>, used: int, budget: int) -> int
    decreases value.len(),
{
    if value.len() == 0 || used + cells(seq![value[0]]) > budget {
        0
    } else {
        1 + fitting(value.drop_first(), used + cells(seq![value[0]]), budget)
    }
}

/// A text cut to a number of terminal cells, with an ellipsis for what is left out.
pub open spec fn cell_label(value: Seq<char>, width: int) -> Seq<char> {
    let room = width - cells(seq!['…']);
    let budget = if room > 0 {
        room
    } else {
        0
    };
    if width <= 0 {
        Seq::empty()
    } else if cells(value) <= width {
        value
    } else {
        value.take(fitting(value, 0, budget)).push('…')
    }
}

proof fn lemma_fitting(value: Seq<char>, used: int, budget: int)
    ensures
        0 <= fitting(value, used, budget) <= value.len(),
    decreases value.len(),
{
    if value.len() > 0 {
        lemma_fitting(value.drop_first(), used + cells(seq![value[0]]), budget);
    }
}

fn char_width(c: char) -> (width: usize)
    ensures
        width == cells(seq![c]),
{
    let mut text = String::new();
    text.push(c);
    assert(text@ =~= seq![c]);
    cell_width(text.as_str())
}

/// A text cut to a number of terminal cells, with an ellipsis for what is left out.
pub fn compact_cell_label(value: &str, width: usize) -> (label: String)
    ensures
        label@ == cell_label(value@, width as int),
{
    if width == 0 {
        return String::new();
    }
    if cell_width(value) <= width {
        return value.to_owned();
    }
    let ellipsis: usize = char_width('…');
    let budget: usize = if ellipsis < width {
        width - ellipsis
    } else {
        0
    };
    let chars = to_chars(value);
    let mut used: usize = 0;
    let mut i: usize = 0;
    let mut next: usize = if chars.len() > 0 {
        char_width(chars[0])
    } else {
        0
    };
    assert(chars@.skip(0) =~= chars@);
    proof {
        lemma_fitting(chars@, 0, budget as int);
    }
    while i < chars.len() && next <= budget - used
        invariant
            i <= chars@.len(),
            used <= budget,
            i < chars@.len() ==> next == cells(seq![chars@[i as int]]),
            fitting(chars@, 0, budget as int) == i + fitting(
                chars@.skip(i as int),
                used as int,
                budget as int,
            ),
        decreases chars@.len() - i,
    {
        assert(chars@.skip(i as int).drop_first() =~= chars@.skip(i + 1));
        assert(chars@.skip(i as int)[0] == chars@[i as int]);
        used = used + next;
        i = i + 1;
        if i < chars.len() {
            next = char_width(chars[i]);
        }
    }
    proof {
        if i < chars@.len() {
            assert(chars@.skip(i as int)[0] == chars@[i as int]);
        }
    }
    let mut label = slice(&chars, 0, i);
    assert(label@ =~= chars@.take(i as int));
    label.push('…');
    to_text(&label)
}

/// A collapsed row with the hint that it can be opened.
pub open spec fn openable(value: Seq<char>, width: int) -> Seq<char> {
    let hint = " · Ctrl+O open"@;
    let room = width - cells(hint);
    cell_label(
        cell_label(
            value,
            if room > 0 {
                room
            } else {
                0
            },
        ) + hint,
        width,
    )
}

/// A collapsed row with the hint that it can be opened.
pub fn actionable_detail_preview(value: &str, width: usize) -> (preview: String)
    ensures
        preview@ == openable(value@, width as int),
{
    let hint = " · Ctrl+O open";
    let hint_width: usize = cell_width(hint);
    let room: usize = if hint_width < width {
        width - hint_width
    } else {
        0
    };
    let mut text = to_chars(compact_cell_label(value, room).as_str());
    append_text(&mut text, hint);
    compact_cell_label(to_text(&text).as_str(), width)
}

/// The last of the components that names an entry: empty components and single dots
/// name none.
pub open spec fn last_name(parts: Seq<Seq<char>>) -> Option<Seq<char>>
    decreases parts.len(),
{
    if parts.len() == 0 || parts.last() == ".."@ {
        None
    } else if parts.last().len() == 0 || parts.last() == "."@ {
        last_name(parts.drop_last())
    } else {
        Some(parts.last())
    }
}

/// The name of the entry that a path leads to.
pub open spec fn entry_name(path: Seq<char>) -> Option<Seq<char>> {
    last_name(split(path, '/'))
}

/// The name of the entry that a path leads to, if the path names one.
pub fn file_name(path: &str) -> (name: Option<String>)
    ensures
        optional(name) == entry_name(path@),
{
    let parts = split_at_char(&to_chars(path), '/');
    let mut end: usize = parts.len();
    assert(contents(parts@).take(end as int) =~= contents(parts@));
    while end > 0
        invariant
            end <= parts@.len(),
            contents(parts@) == split(path@, '/'),
            last_name(contents(parts@)) == last_name(contents(parts@).take(end as int)),
        decreases end,
    {
        let part = &parts[end - 1];
        let ghost upper = contents(parts@).take(end as int);
        assert(upper.last() == part@);
        assert(upper.drop_last() =~= contents(parts@).take(end - 1));
        let text = to_text(part);
        if same(text.as_str(), "..") {
            return None;
        }
        if part.len() > 0 && !same(text.as_str(), ".") {
            return Some(text);
        }
        end = end - 1;
    }
    None
}

/// A workspace path cut to a number of terminal cells.
pub open spec fn workspace_label(path: Seq<char>, width: int) -> Seq<char> {
    let tail = match entry_name(path) {
        Some(name) => name,
        None => path,
    };
    if width <= 0 || path.len() == 0 {
        Seq::empty()
    } else if cells(path) <= width {
        path
    } else if cells("…/"@ + tail) <= width {
        "…/"@ + tail
    } else {
        cell_label(tail, width)
    }
}

/// A workspace path cut to a number of terminal cells.
pub fn compact_workspace_path(path: &str, width: usize) -> (label: String)
    ensures
        label@ == workspace_label(path@, width as int),
{
    let chars = to_chars(path);
    if width == 0 || chars.len() == 0 {
        return String::new();
    }
    if cell_width(path) <= width {
        return path.to_owned();
    }
    let tail = match file_name(path) {
        Some(name) => name,
        None => path.to_owned(),
    };
    let mut shortened = to_chars("…/");
    append_text(&mut shortened, tail.as_str());
    let text = to_text(&shortened);
    if cell_width(text.as_str()) <= width {
        text
    } else {
        compact_cell_label(tail.as_str(), width)
    }
}

} // verus!
