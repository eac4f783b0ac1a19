//! The prompt editor: a multiline text area with submission history and completion.

use crate::encoding::{char_bytes, width_in_bytes};
use crate::order::{
    comes_before, item_contents, lemma_item_contents_push, lemma_text_order, rank, ranked,
    text_before, Ranked,
};
use crate::path_index::{count_of, occurrences};
use crate::text::{
    append_chars, append_text, begins_with, blank, contents, find_char, find_last, has_first,
    has_prefix, is_blank, is_space, join, joined_text, last_index_of, law_splitting_loses_nothing,
    lower, position_of, same, slice, slice_to_string, space, split, split_at_char, starts_with,
    strings, to_chars, to_lower_chars, to_text,
};
use ratatui::widgets::{Block, Borders, Padding};
use tui_textarea::{Input as AreaInput, Key as AreaKey, TextArea, WrapMode};
use vstd::prelude::*;

verus! {

/// A key, apart from its modifiers.
#[derive(Clone, Copy, Debug, Eq, PartialEq, Structural)]
pub enum Key {
    Char(char),
    F(u8),
    Backspace,
    Enter,
    Left,
    Right,
    Up,
    Down,
    Tab,
    Delete,
    Home,
    End,
    PageUp,
    PageDown,
    Esc,
    Null,
}

/// A key press.
#[derive(Clone, Copy, Debug, Eq, PartialEq, Structural)]
pub struct Input {
    pub key: Key,
    pub ctrl: bool,
    pub alt: bool,
    pub shift: bool,
}

/// A `tui_textarea::TextArea`, the widget that holds the text.
#[verifier::external_body]
#[derive(Debug)]
pub struct Area {
    pub widget: TextArea<'static>,
}

/// The lines of a text area.
pub uninterp spec fn area_lines(area: Area) -> Seq<Seq<char>>;

/// The cursor of a text area: its line, and the characters before it on that line.
pub uninterp spec fn area_cursor(area: Area) -> (usize, usize);

/// The hint that was last given to a text area.
pub uninterp spec fn area_hint(area: Area) -> Seq<char>;

/// Whether a selection was begun in a text area.
pub uninterp spec fn area_selecting(area: Area) -> bool;

/// The rows that a text area takes at a width.
pub uninterp spec fn area_rows(area: Area, width: u16) -> u16;

/// What a key press makes of a text area as it is, with its undo history, what was cut in
/// it and how it was last rendered: the lines, the cursor, whether a selection is begun, and
/// whether the press counts as a modification.
pub uninterp spec fn area_pressed(area: Area, input: Input) -> (
    Seq<Seq<char>>,
    (usize, usize),
    bool,
    bool,
);

/// How a text area is laid out: whether a line stands above it, how many cells are left
/// free at its left, whether its words wrap, and the fewest and the most rows it prefers.
pub uninterp spec fn area_shape(area: Area) -> (bool, u16, bool, u16, u16);

/// A text area has a line, and its cursor stands on one of its lines.
pub open spec fn area_ok(area: Area) -> bool {
    let (row, col) = area_cursor(area);
    row < area_lines(area).len() && col <= area_lines(area)[row as int].len()
}

/// Whether a key press ends a line where the cursor is.
pub open spec fn breaks_line(input: Input) -> bool {
    ||| input.key == Key::Enter
    ||| (input.key == Key::Char('\n') || input.key == Key::Char('\r')) && !input.ctrl && !input.alt
    ||| input.key == Key::Char('m') && input.ctrl && !input.alt
}

/// Whether a key press removes the character before the cursor.
pub open spec fn erases(input: Input) -> bool {
    ||| input.key == Key::Backspace && !input.ctrl && !input.alt
    ||| input.key == Key::Char('h') && input.ctrl && !input.alt
}

/// Whether a key only moves the cursor, or does nothing, whatever is held with it.
pub open spec fn only_moves(key: Key) -> bool {
    key == Key::Left || key == Key::Right || key == Key::Up || key == Key::Down || key == Key::Home
        || key == Key::End || key == Key::PageUp || key == Key::PageDown || does_nothing(key)
}

/// Whether a key does nothing to a text area.
pub open spec fn does_nothing(key: Key) -> bool {
    key == Key::Esc || key == Key::Null || key is F
}

/// What writing does to lines in which nothing is selected: the lines, the cursor, and
/// whether they changed. Other key presses are none of writing.
pub open spec fn written(lines: Seq<Seq<char>>, cursor: (usize, usize), input: Input) -> Option<
    (Seq<Seq<char>>, (usize, usize), bool),
> {
    let (row, col) = cursor;
    let line = lines[row as int];
    if breaks_line(input) {
        Some(
            (
                lines.take(row as int) + seq![line.take(col as int), line.skip(col as int)]
                    + lines.skip(row + 1),
                ((row + 1) as usize, 0usize),
                true,
            ),
        )
    } else if input.key is Char && !input.ctrl && !input.alt {
        Some(
            (
                lines.update(
                    row as int,
                    line.take(col as int).push(input.key->Char_0) + line.skip(col as int),
                ),
                (row, (col + 1) as usize),
                true,
            ),
        )
    } else if erases(input) {
        if col > 0 {
            Some(
                (
                    lines.update(row as int, line.take(col - 1) + line.skip(col as int)),
                    (row, (col - 1) as usize),
                    true,
                ),
            )
        } else if row > 0 {
            Some(
                (
                    lines.take(row - 1).push(lines[row - 1] + line) + lines.skip(row + 1),
                    ((row - 1) as usize, lines[row - 1].len() as usize),
                    true,
                ),
            )
        } else {
            Some((lines, cursor, false))
        }
    } else {
        None
    }
}

/// What is known of every answer of a text area: the cursor stands on a line. A press that
/// modifies nothing leaves the text, unless it removed a selection. Where nothing is
/// selected, what is written is there. Keys that move leave the text, and a selection
/// begins only with Shift.
pub open spec fn heeds(
    lines: Seq<Seq<char>>,
    cursor: (usize, usize),
    selecting: bool,
    input: Input,
    answer: (Seq<Seq<char>>, (usize, usize), bool, bool),
) -> bool {
    let (after, place, still, modified) = answer;
    &&& place.0 < after.len() && place.1 <= after[place.0 as int].len()
    &&& !selecting && !modified ==> after == lines
    &&& !selecting ==> match written(lines, cursor, input) {
        Some((text, at, changed)) => answer == (text, at, false, changed),
        None => true,
    }
    &&& only_moves(input.key) ==> !modified && after == lines
    &&& does_nothing(input.key) ==> place == cursor
    &&& !input.shift && still ==> selecting
}

/// `tui_textarea::TextArea::input` applies a key press and says whether it modified the
/// text. What it makes of the area is named by `area_pressed`; of that, `heeds` states what
/// holds of every press: what typing, ending a line and erasing do where nothing is
/// selected, that moving keeps the text, and that a selection begins only with Shift. Where
/// the cursor moves to, and what the other shortcuts do, is not stated beyond the name.
#[verifier::external_body]
fn press(area: &mut Area, input: Input) -> (modified: bool)
    requires
        area_ok(*old(area)),
    ensures
        (
            area_lines(*final(area)),
            area_cursor(*final(area)),
            area_selecting(*final(area)),
            modified,
        ) == area_pressed(*old(area), input),
        heeds(
            area_lines(*old(area)),
            area_cursor(*old(area)),
            area_selecting(*old(area)),
            input,
            (
                area_lines(*final(area)),
                area_cursor(*final(area)),
                area_selecting(*final(area)),
                modified,
            ),
        ),
        area_hint(*final(area)) == area_hint(*old(area)),
        area_shape(*final(area)) == area_shape(*old(area)),
{
    let key = match input.key {
        Key::Char(c) => AreaKey::Char(c), Key::F(n) => AreaKey::F(n),
        Key::Backspace => AreaKey::Backspace, Key::Enter => AreaKey::Enter,
        Key::Left => AreaKey::Left, Key::Right => AreaKey::Right,
        Key::Up => AreaKey::Up, Key::Down => AreaKey::Down,
        Key::Tab => AreaKey::Tab, Key::Delete => AreaKey::Delete,
        Key::Home => AreaKey::Home, Key::End => AreaKey::End,
        Key::PageUp => AreaKey::PageUp, Key::PageDown => AreaKey::PageDown,
        Key::Esc => AreaKey::Esc, Key::Null => AreaKey::Null,
    };
    area.widget.input(AreaInput { key, ctrl: input.ctrl, alt: input.alt, shift: input.shift })
}

/// `tui_textarea::TextArea::default` is a text area with one empty line and no selection,
/// without a frame, that does not wrap and may take any number of rows.
#[verifier::external_body]
fn new_area() -> (area: Area)
    ensures
        area_lines(area) == seq![Seq::<char>::empty()],
        area_cursor(area) == (0usize, 0usize),
        !area_selecting(area),
        area_shape(area) == (false, 0u16, false, 1u16, u16::MAX),
{
    Area { widget: TextArea::default() }
}

/// `tui_textarea::TextArea::set_lines` replaces the text, moves the cursor and ends a
/// selection; the hint of the area stays.
#[verifier::external_body]
fn set_area_lines(area: &mut Area, lines: Vec<String>, cursor: (usize, usize))
    requires
        cursor.0 < lines@.len(),
        cursor.1 <= lines@[cursor.0 as int]@.len(),
    ensures
        area_lines(*final(area)) == strings(lines@),
        area_cursor(*final(area)) == cursor,
        area_hint(*final(area)) == area_hint(*old(area)),
        area_shape(*final(area)) == area_shape(*old(area)),
        !area_selecting(*final(area)),
{
    area.widget.set_lines(lines, cursor)
}

/// `tui_textarea::TextArea::lines` gives the lines of the area.
#[verifier::external_body]
fn read_lines(area: &Area) -> (lines: Vec<String>)
    ensures
        strings(lines@) == area_lines(*area),
{
    area.widget.lines().to_vec()
}

/// `tui_textarea::TextArea::cursor` gives the line of the cursor and the characters
/// before it.
#[verifier::external_body]
fn read_cursor(area: &Area) -> (cursor: (usize, usize))
    ensures
        cursor == area_cursor(*area),
{
    area.widget.cursor()
}

/// `tui_textarea::TextArea::set_placeholder_text` changes what is shown in an empty
/// area, and leaves the text, the cursor and the selection.
#[verifier::external_body]
fn set_area_hint(area: &mut Area, hint: &str)
    ensures
        area_hint(*final(area)) == hint@,
        area_lines(*final(area)) == area_lines(*old(area)),
        area_cursor(*final(area)) == area_cursor(*old(area)),
        area_selecting(*final(area)) == area_selecting(*old(area)),
        area_shape(*final(area)) == area_shape(*old(area)),
{
    area.widget.set_placeholder_text(hint)
}

/// `tui_textarea::TextArea::measure` gives the rows that the area would take at a
/// width; the area stays as it is.
#[verifier::external_body]
fn measure_rows(area: &mut Area, width: u16) -> (rows: u16)
    ensures
        rows == area_rows(*old(area), width),
        area_hint(*final(area)) == area_hint(*old(area)),
        area_lines(*final(area)) == area_lines(*old(area)),
        area_cursor(*final(area)) == area_cursor(*old(area)),
        area_selecting(*final(area)) == area_selecting(*old(area)),
        area_shape(*final(area)) == area_shape(*old(area)),
{
    area.widget.measure(width).preferred_rows
}

/// What setting how an area is laid out leaves: its text, cursor, selection and hint.
pub open spec fn same_text(before: Area, after: Area) -> bool {
    area_lines(after) == area_lines(before) && area_cursor(after) == area_cursor(before)
        && area_selecting(after) == area_selecting(before) && area_hint(after) == area_hint(before)
}

/// `tui_textarea::TextArea::set_block` frames the area: here with a line above it and some
/// cells free at its left.
#[verifier::external_body]
fn set_area_frame(area: &mut Area, left: u16)
    ensures
        same_text(*old(area), *final(area)),
        area_shape(*final(area)) == (
            true,
            left,
            area_shape(*old(area)).2,
            area_shape(*old(area)).3,
            area_shape(*old(area)).4,
        ),
{
    area.widget.set_block(Block::default().borders(Borders::TOP).padding(Padding::left(left)))
}

/// `tui_textarea::TextArea::set_wrap_mode` lets the words of the area wrap.
#[verifier::external_body]
fn set_area_wrap(area: &mut Area)
    ensures
        same_text(*old(area), *final(area)),
        area_shape(*final(area)) == (
            area_shape(*old(area)).0,
            area_shape(*old(area)).1,
            true,
            area_shape(*old(area)).3,
            area_shape(*old(area)).4,
        ),
{
    area.widget.set_wrap_mode(WrapMode::Word)
}

/// `tui_textarea::TextArea::set_min_rows` sets the fewest rows that the area prefers. The
/// most rows stay where they are no fewer.
#[verifier::external_body]
fn set_area_min(area: &mut Area, rows: u16)
    requires
        1 <= rows <= area_shape(*old(area)).4,
    ensures
        same_text(*old(area), *final(area)),
        area_shape(*final(area)) == (
            area_shape(*old(area)).0,
            area_shape(*old(area)).1,
            area_shape(*old(area)).2,
            rows,
            area_shape(*old(area)).4,
        ),
{
    area.widget.set_min_rows(rows)
}

/// `tui_textarea::TextArea::set_max_rows` sets the most rows that the area prefers, where
/// they are no fewer than the fewest.
#[verifier::external_body]
fn set_area_max(area: &mut Area, rows: u16)
    requires
        1 <= rows,
        area_shape(*old(area)).3 <= rows,
    ensures
        same_text(*old(area), *final(area)),
        area_shape(*final(area)) == (
            area_shape(*old(area)).0,
            area_shape(*old(area)).1,
            area_shape(*old(area)).2,
            area_shape(*old(area)).3,
            rows,
        ),
{
    area.widget.set_max_rows(rows)
}

/// The most submissions that are remembered.
pub const MAX_PROMPT_HISTORY: usize = 50;

/// The result of handling one key press.
#[derive(Clone, Debug, Eq, PartialEq)]
pub enum PromptAction {
    /// The key was not consumed by the editor.
    Ignored,
    /// The editor content or cursor changed.
    Changed,
    /// A non-empty prompt was submitted. The editor is cleared afterwards.
    Submit(String),
    /// A completion was applied. `index` and `total` let a caller display a
    /// lightweight completion status without rebuilding the prompt widget.
    Completion { value: String, index: usize, total: usize },
}

pub enum ActionView {
    Ignored,
    Changed,
    Submit(Seq<char>),
    Completion { value: Seq<char>, index: usize, total: usize },
}

impl View for PromptAction {
    type V = ActionView;

    open spec fn view(&self) -> ActionView {
        match self {
            PromptAction::Ignored => ActionView::Ignored,
            PromptAction::Changed => ActionView::Changed,
            PromptAction::Submit(prompt) => ActionView::Submit(prompt@),
            PromptAction::Completion { value, index, total } => ActionView::Completion {
                value: value@,
                index: *index,
                total: *total,
            },
        }
    }
}

/// A multiline prompt editor backed by `tui-textarea`.
///
/// The text area owns cursor movement, insertion and deletion, wrapped rendering,
/// undo and redo. Submission history and completion are kept around it.
#[derive(Debug)]
pub struct PromptEditor {
    textarea: Area,
    history: Vec<String>,
    history_position: Option<usize>,
    completion_candidates: Vec<String>,
    completion_matches: Vec<String>,
    completion_index: Option<usize>,
}

#[verifier::ext_equal]
pub struct EditorView {
    pub lines: Seq<Seq<char>>,
    /// The line of the cursor, and the characters before it.
    pub cursor: (usize, usize),
    /// Whether a selection was begun.
    pub selecting: bool,
    /// What is shown while there is no text.
    pub hint: Seq<char>,
    /// The submissions that are remembered, oldest first.
    pub history: Seq<Seq<char>>,
    /// Which submission is shown again.
    pub position: Option<usize>,
    pub candidates: Seq<Seq<char>>,
    /// The candidates that are being cycled through.
    pub matches: Seq<Seq<char>>,
    pub index: Option<usize>,
}

impl View for PromptEditor {
    type V = EditorView;

    closed spec fn view(&self) -> EditorView {
        EditorView {
            lines: area_lines(self.textarea),
            cursor: area_cursor(self.textarea),
            selecting: area_selecting(self.textarea),
            hint: area_hint(self.textarea),
            history: strings(self.history@),
            position: self.history_position,
            candidates: strings(self.completion_candidates@),
            matches: strings(self.completion_matches@),
            index: self.completion_index,
        }
    }
}

/// The editor has a line, its cursor stands on one, the history is bounded and what
/// is shown of it exists.
pub open spec fn editor_ok(editor: EditorView) -> bool {
    &&& editor.cursor.0 < editor.lines.len()
    &&& editor.cursor.1 <= editor.lines[editor.cursor.0 as int].len()
    &&& editor.history.len() <= MAX_PROMPT_HISTORY
    &&& editor.position matches Some(p) ==> p < editor.history.len()
    &&& editor.index matches Some(k) ==> k < editor.matches.len()
}

/// The complete prompt.
pub open spec fn prompt_text(editor: EditorView) -> Seq<char> {
    join(editor.lines, "\n"@)
}

/// The editor with other text, the cursor at its end.
pub open spec fn with_text(editor: EditorView, text: Seq<char>) -> EditorView {
    let all = split(text, '\n');
    EditorView {
        lines: all,
        cursor: ((all.len() - 1) as usize, all.last().len() as usize),
        selecting: false,
        position: None,
        matches: Seq::empty(),
        index: None,
        ..editor
    }
}

/// The history with one more submission, as far as there is room.
pub open spec fn bounded(history: Seq<Seq<char>>) -> Seq<Seq<char>> {
    if history.len() > MAX_PROMPT_HISTORY {
        history.skip(history.len() - MAX_PROMPT_HISTORY)
    } else {
        history
    }
}

/// The editor after a submission was remembered: a blank one is not, and one that
/// repeats the last is kept once.
pub open spec fn remembering(editor: EditorView, prompt: Seq<char>) -> EditorView {
    if is_blank(prompt) {
        editor
    } else if editor.history.len() > 0 && editor.history.last() == prompt {
        EditorView { position: None, ..editor }
    } else {
        EditorView { history: bounded(editor.history.push(prompt)), position: None, ..editor }
    }
}

/// The submission before the one that is shown.
pub open spec fn earlier(editor: EditorView) -> Option<usize> {
    let from = match editor.position {
        Some(p) => p as int,
        None => editor.history.len() as int,
    };
    if from == 0 {
        None
    } else {
        Some((from - 1) as usize)
    }
}

/// The editor showing a submission again.
pub open spec fn recalling(editor: EditorView, k: usize) -> EditorView {
    EditorView { position: Some(k), ..with_text(editor, editor.history[k as int]) }
}

/// The editor showing the submission after the one that is shown, or a blank draft.
pub open spec fn later(editor: EditorView, shown: usize) -> EditorView {
    if shown + 1 < editor.history.len() {
        recalling(editor, (shown + 1) as usize)
    } else {
        with_text(editor, Seq::empty())
    }
}

/// Where the last word before `end` begins.
pub open spec fn word_start(line: Seq<char>, end: int) -> int
    decreases end,
{
    if end <= 0 || is_space(line[end - 1]) {
        end
    } else {
        word_start(line, end - 1)
    }
}

/// Where the token before the cursor begins. A quoted path stays together until its
/// closing quote.
pub open spec fn token_start(written: Seq<char>) -> int {
    match find_last(written, seq!['@', '"']) {
        Some(k) if count_of(written.skip(k + 2), '"') % 2 == 0 => k,
        _ => word_start(written, written.len() as int),
    }
}

/// The command or path before the cursor, with where it begins.
pub open spec fn token_of(editor: EditorView) -> Option<(int, Seq<char>)> {
    let written = editor.lines[editor.cursor.0 as int].take(editor.cursor.1 as int);
    let start = token_start(written);
    let token = written.skip(start);
    if begins_with(token, '/') || begins_with(token, '@') {
        Some((start, token))
    } else {
        None
    }
}

/// The points of a query whose characters occur in a text in order, each at its first
/// place from `cursor` on: three for one right behind the previous one, two at the
/// start of a path component, one elsewhere.
pub open spec fn points_of(
    query: Seq<char>,
    text: Seq<char>,
    cursor: int,
    previous: Option<int>,
) -> Option<int>
    decreases query.len(),
{
    if query.len() == 0 {
        Some(0)
    } else {
        let k = cursor + find_char(text.skip(cursor), query[0]);
        if k >= text.len() {
            None
        } else {
            let points: int = if previous == Some(k - 1) && char_bytes(text[k - 1]) == 1 {
                3
            } else if k == 0 || text[k - 1] == '/' {
                2
            } else {
                1
            };
            match points_of(query.drop_first(), text, k + 1, Some(k)) {
                Some(rest) => Some(points + rest),
                None => None,
            }
        }
    }
}

/// How well a token fits a candidate, without regard to ASCII case.
pub open spec fn completion_score(query: Seq<char>, candidate: Seq<char>) -> Option<int> {
    points_of(lower(query), lower(candidate), 0, None)
}

/// A candidate with its score.
pub struct Scored {
    pub score: u128,
    pub candidate: String,
}

pub struct ScoredView {
    pub score: u128,
    pub candidate: Seq<char>,
}

impl View for Scored {
    type V = ScoredView;

    open spec fn view(&self) -> ScoredView {
        ScoredView { score: self.score, candidate: self.candidate@ }
    }
}

impl Ranked for Scored {
    /// Better scores first, then by text.
    open spec fn ranks_before(left: ScoredView, right: ScoredView) -> bool {
        left.score > right.score || (left.score == right.score && text_before(
            left.candidate,
            right.candidate,
        ))
    }

    fn before(&self, other: &Self) -> (yes: bool) {
        if self.score != other.score {
            return self.score > other.score;
        }
        comes_before(&to_chars(self.candidate.as_str()), &to_chars(other.candidate.as_str()))
    }

    proof fn lemma_ranking(a: ScoredView, b: ScoredView, c: ScoredView) {
        lemma_text_order(a.candidate, b.candidate, c.candidate);
    }
}

/// The candidates that a query fits, with their scores.
pub open spec fn scored(query: Seq<char>, candidates: Seq<Seq<char>>) -> Seq<ScoredView>
    decreases candidates.len(),
{
    if candidates.len() == 0 {
        Seq::empty()
    } else {
        match completion_score(query, candidates.last()) {
            Some(score) => scored(query, candidates.drop_last()).push(
                ScoredView { score: score as u128, candidate: candidates.last() },
            ),
            None => scored(query, candidates.drop_last()),
        }
    }
}

/// The candidates of a scored list.
pub open spec fn candidates_in(list: Seq<ScoredView>) -> Seq<Seq<char>> {
    Seq::new(list.len(), |i: int| list[i].candidate)
}

/// The candidates that begin with a token.
pub open spec fn beginning_with(token: Seq<char>, candidates: Seq<Seq<char>>) -> Seq<Seq<char>>
    decreases candidates.len(),
{
    if candidates.len() == 0 {
        Seq::empty()
    } else if starts_with(candidates.last(), token) {
        beginning_with(token, candidates.drop_last()).push(candidates.last())
    } else {
        beginning_with(token, candidates.drop_last())
    }
}

/// The candidates for a token. Commands are completed at once; a path is looked for
/// once three of its characters are there, which keeps a bare `@` from cycling through
/// a whole repository.
pub open spec fn matches_for(token: Seq<char>, candidates: Seq<Seq<char>>) -> Seq<Seq<char>> {
    if begins_with(token, '@') {
        if token.len() < 4 {
            Seq::empty()
        } else {
            candidates_in(ranked::<Scored>(scored(token, candidates)))
        }
    } else {
        beginning_with(token, candidates)
    }
}

/// The editor with the text from `start` up to the cursor replaced.
pub open spec fn with_token(editor: EditorView, start: int, token: Seq<char>) -> EditorView {
    let (row, col) = editor.cursor;
    let line = editor.lines[row as int];
    EditorView {
        lines: editor.lines.update(row as int, line.take(start) + token + line.skip(col as int)),
        cursor: (row, (start + token.len()) as usize),
        selecting: false,
        ..editor
    }
}

/// What completing does: the editor afterwards, and the action.
pub open spec fn completing(editor: EditorView) -> (EditorView, ActionView) {
    match token_of(editor) {
        None => (
            EditorView { matches: Seq::empty(), index: None, ..editor },
            ActionView::Ignored,
        ),
        Some((start, token)) => {
            let matches = if editor.matches.len() == 0 {
                matches_for(token, editor.candidates)
            } else {
                editor.matches
            };
            if matches.len() == 0 {
                (editor, ActionView::Ignored)
            } else {
                let k: int = match editor.index {
                    Some(last) => (last + 1) % (matches.len() as int),
                    None => 0,
                };
                (
                    EditorView {
                        matches,
                        index: Some(k as usize),
                        ..with_token(editor, start, matches[k])
                    },
                    ActionView::Completion {
                        value: matches[k],
                        index: k as usize,
                        total: matches.len() as usize,
                    },
                )
            }
        },
    }
}

/// A completion is one of those that there are.
pub open spec fn numbered(action: ActionView) -> bool {
    action matches ActionView::Completion { value, index, total } ==> index < total
}

/// A key without modifiers.
pub open spec fn plain(input: Input) -> bool {
    !input.ctrl && !input.alt && !input.shift
}

/// Whether the cursor stands behind the last character.
pub open spec fn at_end(editor: EditorView) -> bool {
    let (row, col) = editor.cursor;
    row + 1 == editor.lines.len() && col == editor.lines[row as int].len()
}

/// What a key press that the editor handles itself does; `None` where the text area
/// is asked.
pub open spec fn own_response(editor: EditorView, input: Input) -> Option<(EditorView, ActionView)> {
    if input.key == Key::Enter && plain(input) {
        let prompt = prompt_text(editor);
        if is_blank(prompt) {
            Some((editor, ActionView::Ignored))
        } else {
            Some(
                (
                    with_text(remembering(editor, prompt), Seq::empty()),
                    ActionView::Submit(prompt),
                ),
            )
        }
    } else if input.key == Key::Tab && plain(input) {
        Some(completing(editor))
    } else if input.key == Key::Up && plain(input) && editor.lines.len() == 1 && earlier(editor) is Some {
        Some((recalling(editor, earlier(editor).unwrap()), ActionView::Changed))
    } else if input.key == Key::Down && plain(input) && editor.lines.len() == 1 && at_end(editor)
        && editor.position is Some {
        Some((later(editor, editor.position.unwrap()), ActionView::Changed))
    } else {
        None
    }
}

/// What the editor makes of the text area's answer: whether the text was modified, and
/// whether the cursor moved.
pub open spec fn after_edit(editor: EditorView, modified: bool, moved: bool) -> (
    EditorView,
    ActionView,
) {
    if modified {
        (
            EditorView { position: None, matches: Seq::empty(), index: None, ..editor },
            ActionView::Changed,
        )
    } else if moved {
        (editor, ActionView::Changed)
    } else {
        (editor, ActionView::Ignored)
    }
}

/// What the editor makes of the lines, the cursor and the selection that a key press left,
/// and of whether it modified the text.
pub open spec fn answered(
    editor: EditorView,
    answer: (Seq<Seq<char>>, (usize, usize), bool, bool),
) -> (EditorView, ActionView) {
    after_edit(
        EditorView { lines: answer.0, cursor: answer.1, selecting: answer.2, ..editor },
        answer.3,
        answer.1 != editor.cursor,
    )
}

/// What an editor makes of a key press: what it handles itself, or what the text area
/// answers.
pub open spec fn responded(editor: PromptEditor, input: Input) -> (EditorView, ActionView) {
    match own_response(editor@, input) {
        Some(response) => response,
        None => answered(editor@, editor.pressed(input)),
    }
}

/// What is known of the text area's answer, where it is asked.
pub open spec fn heard(editor: PromptEditor, input: Input) -> bool {
    own_response(editor@, input) is None ==> heeds(
        editor@.lines,
        editor@.cursor,
        editor@.selecting,
        input,
        editor.pressed(input),
    )
}

/// A character that is typed stands before the cursor, Enter with Shift or Ctrl ends the
/// line there, and removing what was typed gives back the lines.
pub proof fn law_typing_and_erasing(editor: EditorView, c: char, shift: bool, ctrl: bool)
    requires
        editor_ok(editor),
        editor.lines.len() < usize::MAX,
        editor.lines[editor.cursor.0 as int].len() < usize::MAX,
    ensures
        ({
            let (row, col) = editor.cursor;
            let line = editor.lines[row as int];
            let key = Input { key: Key::Char(c), ctrl: false, alt: false, shift };
            let enter = Input { key: Key::Enter, ctrl, alt: false, shift };
            let back = Input { key: Key::Backspace, ctrl: false, alt: false, shift: false };
            let (typed, behind, _) = written(editor.lines, editor.cursor, key)->0;
            let (split, below, _) = written(editor.lines, editor.cursor, enter)->0;
            &&& c != '\n' && c != '\r' ==> {
                &&& typed[row as int] == line.take(col as int).push(c) + line.skip(col as int)
                &&& typed.len() == editor.lines.len()
                &&& behind == (row, (col + 1) as usize)
                &&& written(typed, behind, back) == Some((editor.lines, editor.cursor, true))
            }
            &&& split.len() == editor.lines.len() + 1
            &&& split[row as int] == line.take(col as int)
            &&& split[row + 1] == line.skip(col as int)
            &&& below == ((row + 1) as usize, 0usize)
            &&& written(split, below, back) == Some((editor.lines, editor.cursor, true))
        }),
{
    let (row, col) = editor.cursor;
    let line = editor.lines[row as int];
    let key = Input { key: Key::Char(c), ctrl: false, alt: false, shift };
    let enter = Input { key: Key::Enter, ctrl, alt: false, shift };
    let (typed, behind, _) = written(editor.lines, editor.cursor, key)->0;
    let (split, below, _) = written(editor.lines, editor.cursor, enter)->0;
    if c != '\n' && c != '\r' {
        let longer = typed[row as int];
        assert(longer.take(col as int) =~= line.take(col as int));
        assert(longer.skip(col + 1) =~= line.skip(col as int));
        assert(longer.take(col as int) + longer.skip(col + 1) =~= line);
        assert(typed.update(row as int, line) =~= editor.lines);
    }
    assert(split[row as int] =~= line.take(col as int));
    assert(split[row + 1] =~= line.skip(col as int));
    assert(line.take(col as int) + line.skip(col as int) =~= line);
    assert(split.take(row as int).push(line) + split.skip(row + 2) =~= editor.lines);
}

/// Text that is put into the editor is read back as it was, newlines and all.
pub proof fn law_text_is_kept(editor: EditorView, text: Seq<char>)
    ensures
        prompt_text(with_text(editor, text)) == text,
{
    law_splitting_loses_nothing(text, '\n');
    reveal_strlit("\n");
    assert("\n"@ =~= seq!['\n']);
}

/// A submitted prompt is handed over whole, leaves a blank editor, and is what the
/// history shows first.
pub proof fn law_submission_is_remembered(editor: EditorView)
    requires
        editor_ok(editor),
        !is_blank(prompt_text(editor)),
    ensures
        ({
            let enter = Input { key: Key::Enter, ctrl: false, alt: false, shift: false };
            let up = Input { key: Key::Up, ctrl: false, alt: false, shift: false };
            own_response(editor, enter) matches Some((after, action)) && action
                == ActionView::Submit(prompt_text(editor)) && prompt_text(after) == Seq::<
                char,
            >::empty() && after.history.len() > 0 && after.history.last() == prompt_text(editor)
                && (own_response(after, up) matches Some((again, shown)) && prompt_text(again)
                == prompt_text(editor))
        }),
{
    let prompt = prompt_text(editor);
    let kept = remembering(editor, prompt);
    let after = with_text(kept, Seq::empty());
    law_text_is_kept(kept, Seq::empty());
    assert(kept.history.last() == prompt);
    let k = (after.history.len() - 1) as usize;
    law_text_is_kept(after, after.history[k as int]);
    assert(split(Seq::<char>::empty(), '\n').len() == 1) by {
        assert(find_char(Seq::<char>::empty(), '\n') == 0);
    }
}

/// The history is bounded and never repeats its last entry.
pub proof fn law_history_is_bounded(editor: EditorView, prompt: Seq<char>)
    requires
        editor_ok(editor),
    ensures
        remembering(editor, prompt).history.len() <= MAX_PROMPT_HISTORY,
        remembering(remembering(editor, prompt), prompt).history == remembering(
            editor,
            prompt,
        ).history,
{
}

fn score(query: &Vec<char>, text: &Vec<char>) -> (points: Option<u128>)
    ensures
        match points {
            Some(n) => points_of(query@, text@, 0, None) == Some(n as int) && n <= 3 * query@.len(),
            None => points_of(query@, text@, 0, None) is None,
        },
{
    let mut cursor: usize = 0;
    let mut previous: Option<usize> = None;
    let mut total: u128 = 0;
    let mut i: usize = 0;
    let ghost goal = points_of(query@, text@, 0, None);
    assert(query@.skip(0) =~= query@);
    while i < query.len()
        invariant
            i <= query@.len(),
            cursor <= text@.len(),
            total <= 3 * i,
            previous matches Some(p) ==> p < cursor,
            goal == points_of(query@, text@, 0, None),
            goal == (match points_of(
                query@.skip(i as int),
                text@,
                cursor as int,
                match previous {
                    Some(p) => Some(p as int),
                    None => None,
                },
            ) {
                Some(rest) => Some(total + rest),
                None => None,
            }),
        decreases query@.len() - i,
    {
        let ghost rest = query@.skip(i as int);
        assert(rest[0] == query@[i as int]);
        assert(rest.drop_first() =~= query@.skip(i + 1));
        let k: usize = position_of(text, query[i], cursor);
        if k >= text.len() {
            return None;
        }
        let close = match previous {
            Some(p) => p + 1 == k && width_in_bytes(text[p]) == 1,
            None => false,
        };
        if close {
            total = total + 3;
        } else if k == 0 || text[k - 1] == '/' {
            total = total + 2;
        } else {
            total = total + 1;
        }
        previous = Some(k);
        cursor = k + 1;
        i = i + 1;
    }
    assert(query@.skip(i as int).len() == 0);
    Some(total)
}

/// How well a token fits a candidate, without regard to ASCII case.
pub fn fuzzy_completion_score(query: &str, candidate: &str) -> (points: Option<u128>)
    ensures
        match points {
            Some(n) => completion_score(query@, candidate@) == Some(n as int),
            None => completion_score(query@, candidate@) is None,
        },
{
    score(&to_lower_chars(&to_chars(query)), &to_lower_chars(&to_chars(candidate)))
}

fn matching(token: &str, candidates: &Vec<String>) -> (matches: Vec<String>)
    ensures
        strings(matches@) == matches_for(token@, strings(candidates@)),
{
    broadcast use {crate::text::lemma_strings_push, lemma_item_contents_push};

    let mut matches: Vec<String> = Vec::new();
    let ghost all = strings(candidates@);
    assert(strings(matches@) =~= Seq::empty());
    assert(all.take(0) =~= Seq::empty());
    if has_first(token, '@') {
        if token.unicode_len() < 4 {
            return matches;
        }
        let mut found: Vec<Scored> = Vec::new();
        let mut i: usize = 0;
        assert(item_contents(found@) =~= Seq::empty());
        while i < candidates.len()
            invariant
                i <= candidates@.len(),
                all == strings(candidates@),
                item_contents(found@) == scored(token@, all.take(i as int)),
            decreases candidates@.len() - i,
        {
            assert(all.take(i + 1).drop_last() =~= all.take(i as int));
            assert(all.take(i + 1).last() == candidates@[i as int]@);
            if let Some(score) = fuzzy_completion_score(token, candidates[i].as_str()) {
                found.push(Scored { score, candidate: candidates[i].clone() });
            }
            i = i + 1;
        }
        assert(all.take(i as int) =~= all);
        let best = rank(found);
        let ghost list = item_contents(best@);
        let mut j: usize = 0;
        while j < best.len()
            invariant
                j <= best@.len(),
                list == item_contents(best@),
                matches@.len() == j,
                forall|k: int| 0 <= k < j ==> (#[trigger] matches@[k])@ == list[k].candidate,
            decreases best@.len() - j,
        {
            matches.push(best[j].candidate.clone());
            j = j + 1;
        }
        assert(strings(matches@) =~= candidates_in(list));
        return matches;
    }
    let mut i: usize = 0;
    while i < candidates.len()
        invariant
            i <= candidates@.len(),
            all == strings(candidates@),
            strings(matches@) == beginning_with(token@, all.take(i as int)),
        decreases candidates@.len() - i,
    {
        assert(all.take(i + 1).drop_last() =~= all.take(i as int));
        assert(all.take(i + 1).last() == candidates@[i as int]@);
        if has_prefix(candidates[i].as_str(), token) {
            matches.push(candidates[i].clone());
        }
        i = i + 1;
    }
    assert(all.take(i as int) =~= all);
    matches
}

proof fn lemma_word_start(line: Seq<char>, end: int)
    requires
        0 <= end,
    ensures
        0 <= word_start(line, end) <= end,
    decreases end,
{
    if end > 0 && !is_space(line[end - 1]) {
        lemma_word_start(line, end - 1);
    }
}

fn start_of_token(written: &Vec<char>) -> (start: usize)
    ensures
        start == token_start(written@),
        start <= written@.len(),
{
    let mut quoted: Vec<char> = Vec::new();
    quoted.push('@');
    quoted.push('"');
    assert(quoted@ =~= seq!['@', '"']);
    proof {
        lemma_word_start(written@, written@.len() as int);
    }
    if let Some(k) = last_index_of(written, &quoted) {
        let inside = slice(written, k + 2, written.len());
        assert(inside@ =~= written@.skip(k + 2));
        if occurrences(&inside, '"') % 2 == 0 {
            return k;
        }
    }
    let mut start: usize = written.len();
    while start > 0 && !space(written[start - 1])
        invariant
            start <= written@.len(),
            word_start(written@, written@.len() as int) == word_start(written@, start as int),
        decreases start,
    {
        start = start - 1;
    }
    start
}

impl PromptEditor {
    /// The editor has a line with its cursor on it, and its history is bounded.
    pub open spec fn wf(&self) -> bool {
        editor_ok(self@)
    }

    /// The rows that the text area takes at a width.
    pub closed spec fn rows(&self, width: u16) -> u16 {
        area_rows(self.textarea, width)
    }

    /// What the text area makes of a key press.
    pub closed spec fn pressed(&self, input: Input) -> (
        Seq<Seq<char>>,
        (usize, usize),
        bool,
        bool,
    ) {
        area_pressed(self.textarea, input)
    }

    /// How the text area is laid out.
    pub closed spec fn shape(&self) -> (bool, u16, bool, u16, u16) {
        area_shape(self.textarea)
    }

    /// An editor around a text area whose drawing options are set; its text is cleared.
    pub fn with_area(area: Area) -> (editor: Self)
        ensures
            editor.wf(),
            editor.shape() == area_shape(area),
            editor@ == (EditorView {
                lines: seq![Seq::empty()],
                cursor: (0usize, 0usize),
                selecting: false,
                hint: area_hint(area),
                history: Seq::empty(),
                position: None,
                candidates: Seq::empty(),
                matches: Seq::empty(),
                index: None,
            }),
    {
        let mut textarea = area;
        let mut lines: Vec<String> = Vec::new();
        lines.push(String::new());
        assert(strings(lines@) =~= seq![Seq::<char>::empty()]);
        set_area_lines(&mut textarea, lines, (0, 0));
        let editor = PromptEditor {
            textarea,
            history: Vec::new(),
            history_position: None,
            completion_candidates: Vec::new(),
            completion_matches: Vec::new(),
            completion_index: None,
        };
        assert(strings(Seq::<String>::empty()) =~= Seq::<Seq<char>>::empty());
        editor
    }

    /// An editor initialized with text. Newlines are preserved.
    pub fn from_text(text: &str) -> (editor: Self)
        ensures
            editor.wf(),
            editor@ == with_text(editor@, text@),
            editor@.history.len() == 0,
            editor@.candidates.len() == 0,
            editor@.hint == "How can I help you today?"@,
    {
        let mut editor = PromptEditor::default();
        editor.set_text(text);
        editor
    }

    /// The text area, to be drawn.
    pub fn area(&self) -> (area: &Area)
        ensures
            area_lines(*area) == self@.lines,
            area_cursor(*area) == self@.cursor,
            area_hint(*area) == self@.hint,
    {
        &self.textarea
    }

    /// The complete prompt, including embedded newlines.
    pub fn text(&self) -> (text: String)
        ensures
            text@ == prompt_text(self@),
    {
        joined_text(&read_lines(&self.textarea), "\n")
    }

    /// The cursor as a zero-based `(line, character)` pair.
    pub fn cursor(&self) -> (cursor: (usize, usize))
        ensures
            cursor == self@.cursor,
    {
        read_cursor(&self.textarea)
    }

    /// The logical lines currently in the editor.
    pub fn lines(&self) -> (lines: Vec<String>)
        ensures
            strings(lines@) == self@.lines,
    {
        read_lines(&self.textarea)
    }

    pub fn is_empty(&self) -> (empty: bool)
        ensures
            empty == (self@.lines == seq![Seq::<char>::empty()]),
    {
        let lines = read_lines(&self.textarea);
        let ghost all = strings(lines@);
        let empty = lines.len() == 1 && lines[0].as_str().unicode_len() == 0;
        proof {
            if empty {
                assert(all[0] =~= Seq::<char>::empty());
                assert(all =~= seq![Seq::<char>::empty()]);
            } else if all == seq![Seq::<char>::empty()] {
                assert(all.len() == 1);
                assert(all[0].len() == 0);
                assert(lines@[0]@ == all[0]);
            }
        }
        empty
    }

    /// Replaces the editor content and places the cursor at its end.
    pub fn set_text(&mut self, text: &str)
        ensures
            final(self)@ == with_text(old(self)@, text@),
            old(self)@.history.len() <= MAX_PROMPT_HISTORY ==> final(self).wf(),
    {
        let parts = split_at_char(&to_chars(text), '\n');
        let ghost all = split(text@, '\n');
        let mut lines: Vec<String> = Vec::new();
        let mut i: usize = 0;
        while i < parts.len()
            invariant
                i <= parts@.len(),
                contents(parts@) == all,
                lines@.len() == i,
                forall|j: int| 0 <= j < i ==> (#[trigger] lines@[j])@ == all[j],
            decreases parts@.len() - i,
        {
            lines.push(to_text(&parts[i]));
            assert(contents(parts@)[i as int] == parts@[i as int]@);
            i = i + 1;
        }
        assert(contents(parts@).len() == parts@.len());
        assert(strings(lines@) =~= all);
        let row: usize = lines.len() - 1;
        let col: usize = parts[row].len();
        assert(contents(parts@)[row as int] == parts@[row as int]@);
        set_area_lines(&mut self.textarea, lines, (row, col));
        self.history_position = None;
        self.reset_completion();
    }

    /// Changes the empty-composer hint without disturbing the current draft.
    pub fn set_placeholder(&mut self, text: &str)
        ensures
            final(self)@ == (EditorView { hint: text@, ..old(self)@ }),
            final(self).shape() == old(self).shape(),
    {
        set_area_hint(&mut self.textarea, text);
    }

    /// Clears the editor and returns it to its initial cursor position.
    pub fn clear(&mut self)
        ensures
            final(self)@ == with_text(old(self)@, Seq::empty()),
            old(self)@.history.len() <= MAX_PROMPT_HISTORY ==> final(self).wf(),
    {
        proof {
            reveal_strlit("");
            assert(""@ =~= Seq::<char>::empty());
        }
        self.set_text("");
    }

    /// Sets the completion candidates. Their order is preserved when Tab cycles through
    /// matching commands.
    pub fn set_completion_candidates(&mut self, candidates: Vec<String>)
        requires
            old(self).wf(),
        ensures
            final(self).wf(),
            final(self)@ == (EditorView {
                candidates: strings(candidates@),
                matches: Seq::empty(),
                index: None,
                ..old(self)@
            }),
    {
        self.completion_candidates = candidates;
        self.reset_completion();
    }

    /// The candidates that are being cycled through.
    pub fn completion_matches(&self) -> (matches: &Vec<String>)
        ensures
            strings(matches@) == self@.matches,
    {
        &self.completion_matches
    }

    /// The complete candidate vocabulary used for Tab completion.
    pub fn completion_candidates(&self) -> (candidates: &Vec<String>)
        ensures
            strings(candidates@) == self@.candidates,
    {
        &self.completion_candidates
    }

    fn reset_completion(&mut self)
        ensures
            final(self)@ == (EditorView { matches: Seq::empty(), index: None, ..old(self)@ }),
    {
        self.completion_matches = Vec::new();
        self.completion_index = None;
        assert(strings(Seq::<String>::empty()) =~= Seq::<Seq<char>>::empty());
    }

    /// Records a successful submission in the bounded history.
    pub fn remember(&mut self, prompt: &str)
        requires
            old(self).wf(),
        ensures
            final(self).wf(),
            final(self)@ == remembering(old(self)@, prompt@),
    {
        broadcast use crate::text::lemma_strings_push;

        if blank(prompt) {
            return;
        }
        let count: usize = self.history.len();
        let repeated = count > 0 && same(self.history[count - 1].as_str(), prompt);
        assert(count > 0 ==> strings(self.history@).last() == self.history@[count - 1]@);
        self.history_position = None;
        if repeated {
            return;
        }
        self.history.push(prompt.to_owned());
        if self.history.len() > MAX_PROMPT_HISTORY {
            let ghost full = self.history@;
            self.history.remove(0);
            assert(strings(self.history@) =~= strings(full).skip(1));
        }
    }

    pub fn history(&self) -> (history: &Vec<String>)
        ensures
            strings(history@) == self@.history,
    {
        &self.history
    }

    /// Moves to the previous submitted prompt.
    pub fn history_previous(&mut self) -> (moved: bool)
        requires
            old(self).wf(),
        ensures
            final(self).wf(),
            moved == (earlier(old(self)@) is Some),
            !moved ==> *final(self) == *old(self),
            final(self)@ == (match earlier(old(self)@) {
                Some(k) => recalling(old(self)@, k),
                None => old(self)@,
            }),
    {
        let from: usize = match self.history_position {
            Some(p) => p,
            None => self.history.len(),
        };
        if from == 0 {
            return false;
        }
        let prompt = self.history[from - 1].clone();
        assert(prompt@ == self@.history[from - 1]);
        self.set_text(prompt.as_str());
        self.history_position = Some(from - 1);
        true
    }

    /// Moves to the next submitted prompt, or to a blank draft after the newest.
    pub fn history_next(&mut self) -> (moved: bool)
        requires
            old(self).wf(),
        ensures
            final(self).wf(),
            moved == (old(self)@.position is Some),
            !moved ==> *final(self) == *old(self),
            final(self)@ == (match old(self)@.position {
                Some(shown) => later(old(self)@, shown),
                None => old(self)@,
            }),
    {
        let current: usize = match self.history_position {
            Some(current) => current,
            None => {
                return false;
            },
        };
        if current + 1 < self.history.len() {
            let prompt = self.history[current + 1].clone();
            assert(prompt@ == self@.history[current + 1]);
            self.set_text(prompt.as_str());
            self.history_position = Some(current + 1);
        } else {
            self.clear();
        }
        true
    }

    /// Whether the cursor stands behind the last character.
    fn cursor_at_end(&self) -> (yes: bool)
        requires
            self.wf(),
        ensures
            yes == at_end(self@),
    {
        let (row, col) = self.cursor();
        let lines = read_lines(&self.textarea);
        assert(self@.lines[row as int] == lines@[row as int]@);
        row == lines.len() - 1 && col == lines[row].as_str().unicode_len()
    }

    /// The command or path before the cursor, with where it begins.
    pub fn completion_prefix(&self) -> (token: Option<(usize, String)>)
        requires
            self.wf(),
        ensures
            match token {
                Some((start, text)) => token_of(self@) == Some((start as int, text@)) && start
                    <= self@.cursor.1,
                None => token_of(self@) is None,
            },
    {
        let (row, col) = self.cursor();
        let lines = read_lines(&self.textarea);
        assert(self@.lines[row as int] == lines@[row as int]@);
        let line = to_chars(lines[row].as_str());
        let written = slice(&line, 0, col);
        assert(written@ =~= self@.lines[row as int].take(col as int));
        let start: usize = start_of_token(&written);
        let token = slice_to_string(&written, start, written.len());
        assert(token@ =~= written@.skip(start as int));
        if has_first(token.as_str(), '/') || has_first(token.as_str(), '@') {
            Some((start, token))
        } else {
            None
        }
    }

    fn replace_token(&mut self, start: usize, replacement: &str)
        requires
            old(self).wf(),
            start <= old(self)@.cursor.1,
        ensures
            final(self).wf(),
            final(self)@ == with_token(old(self)@, start as int, replacement@),
    {
        let (row, col) = self.cursor();
        let mut lines = read_lines(&self.textarea);
        let ghost before = strings(lines@);
        assert(self@.lines[row as int] == lines@[row as int]@);
        let line = to_chars(lines[row].as_str());
        let mut text = slice(&line, 0, start);
        assert(text@ =~= line@.take(start as int));
        append_text(&mut text, replacement);
        let cursor: usize = text.len();
        append_chars(&mut text, &slice(&line, col, line.len()));
        assert(line@.subrange(col as int, line@.len() as int) =~= line@.skip(col as int));
        lines.set(row, to_text(&text));
        assert(strings(lines@) =~= before.update(row as int, text@));
        set_area_lines(&mut self.textarea, lines, (row, cursor));
    }

    /// Cycles through the completions of the token before the cursor.
    pub fn complete(&mut self) -> (action: PromptAction)
        requires
            old(self).wf(),
        ensures
            final(self).wf(),
            (final(self)@, action@) == completing(old(self)@),
            numbered(action@),
    {
        let (start, token) = match self.completion_prefix() {
            Some(found) => found,
            None => {
                self.reset_completion();
                return PromptAction::Ignored;
            },
        };
        let ghost before = self@;
        if self.completion_matches.len() == 0 {
            self.completion_matches = matching(token.as_str(), &self.completion_candidates);
        }
        let total: usize = self.completion_matches.len();
        if total == 0 {
            assert(self@ =~= before);
            return PromptAction::Ignored;
        }
        let index: usize = match self.completion_index {
            Some(last) => (last + 1) % total,
            None => 0,
        };
        let candidate = self.completion_matches[index].clone();
        assert(candidate@ == strings(self.completion_matches@)[index as int]);
        self.replace_token(start, candidate.as_str());
        self.completion_index = Some(index);
        PromptAction::Completion { value: candidate, index, total }
    }

    /// Replaces the token before the cursor.
    pub fn replace_current_token(&mut self, replacement: &str) -> (replaced: bool)
        requires
            old(self).wf(),
        ensures
            final(self).wf(),
            match token_of(old(self)@) {
                Some((start, token)) => replaced && final(self)@ == (EditorView {
                    matches: Seq::empty(),
                    index: None,
                    ..with_token(old(self)@, start, replacement@)
                }),
                None => !replaced && final(self)@ == old(self)@,
            },
    {
        match self.completion_prefix() {
            Some((start, token)) => {
                self.replace_token(start, replacement);
                self.reset_completion();
                true
            },
            None => false,
        }
    }

    /// Takes note of the text area's answer to a key press.
    pub fn note_edit(&mut self, modified: bool, moved: bool) -> (action: PromptAction)
        requires
            old(self).wf(),
        ensures
            final(self).wf(),
            (final(self)@, action@) == after_edit(old(self)@, modified, moved),
    {
        if modified {
            self.history_position = None;
            self.reset_completion();
            PromptAction::Changed
        } else if moved {
            PromptAction::Changed
        } else {
            PromptAction::Ignored
        }
    }

    /// Applies one key press. Plain Enter submits; Shift+Enter (or Ctrl+Enter) inserts a
    /// newline. Tab cycles completions, and Up and Down walk through the history.
    pub fn handle_input(&mut self, input: Input) -> (action: PromptAction)
        requires
            old(self).wf(),
        ensures
            final(self).wf(),
            (final(self)@, action@) == responded(*old(self), input),
            heard(*old(self), input),
            numbered(action@),
    {
        let plain = !input.ctrl && !input.alt && !input.shift;
        if input.key == Key::Enter && plain {
            let prompt = self.text();
            if blank(prompt.as_str()) {
                return PromptAction::Ignored;
            }
            self.remember(prompt.as_str());
            self.clear();
            return PromptAction::Submit(prompt);
        }
        if input.key == Key::Tab && plain {
            return self.complete();
        }
        let lines = read_lines(&self.textarea);
        assert(strings(lines@).len() == lines@.len());
        if input.key == Key::Up && plain && lines.len() == 1 && self.history_previous() {
            return PromptAction::Changed;
        }
        if input.key == Key::Down && plain && lines.len() == 1 && self.cursor_at_end()
            && self.history_next() {
            return PromptAction::Changed;
        }
        let before = self.cursor();
        let modified = press(&mut self.textarea, input);
        let after = self.cursor();
        self.note_edit(modified, before.0 != after.0 || before.1 != after.1)
    }

    /// The outer height that the editor prefers at a width. It is bounded, so that a
    /// pasted prompt cannot take the whole pane.
    pub fn preferred_height(&mut self, width: u16) -> (height: u16)
        ensures
            final(self)@ == old(self)@,
            height == bounded_height(old(self).rows(width)),
    {
        let rows: u16 = measure_rows(&mut self.textarea, width);
        if rows < 2 {
            2
        } else if rows > 8 {
            8
        } else {
            rows
        }
    }
}

/// A height between two rows and eight.
pub open spec fn bounded_height(rows: u16) -> u16 {
    if rows < 2 {
        2
    } else if rows > 8 {
        8
    } else {
        rows
    }
}

impl Default for PromptEditor {
    fn default() -> (editor: Self)
        ensures
            editor.wf(),
            editor.shape() == (true, 1u16, true, 1u16, 8u16),
            editor@ == (EditorView {
                lines: seq![Seq::empty()],
                cursor: (0usize, 0usize),
                selecting: false,
                hint: "How can I help you today?"@,
                history: Seq::empty(),
                position: None,
                candidates: Seq::empty(),
                matches: Seq::empty(),
                index: None,
            }),
    {
        let mut area = new_area();
        set_area_frame(&mut area, 1);
        set_area_wrap(&mut area);
        set_area_min(&mut area, 1);
        set_area_max(&mut area, 8);
        let mut editor = PromptEditor::with_area(area);
        editor.set_placeholder("How can I help you today?");
        editor
    }
}

} // verus!
