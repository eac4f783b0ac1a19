//! Styles for transcript rows: block kinds, diffs, Markdown, links and source references.

use crate::layout::BlockKind;
use crate::order::{item_contents, lemma_item_contents_push};
use crate::path_index::{count_of, occurrences};
use crate::style::{
    accent, colored, in_bold, piece, thought_text, underlined, with_fg, Color, Piece, PieceView,
    Style, PRIMARY_TEXT,
};
use crate::text::{
    all_digits, begins_with, digit, find, find_char, find_last, has_first, has_prefix, index_of,
    is_digit, last_index_of, lower, position_of, same, slice, slice_to_string, starts_with,
    to_chars, to_lower_chars, to_text, trim, trim_start, trimmed_start, trimmed_text,
};
use vstd::prelude::*;

verus! {

/// The style of a kind of block.
pub open spec fn kind_style(kind: BlockKind) -> Style {
    match kind {
        BlockKind::Human => in_bold(colored(accent())),
        BlockKind::Agent => colored(PRIMARY_TEXT),
        BlockKind::Thought => Style { italic: true, ..colored(thought_text()) },
        BlockKind::Tool => colored(Color::Gray),
        BlockKind::Terminal => colored(Color::Gray),
        BlockKind::Activity => colored(Color::Gray),
        BlockKind::Diff => colored(Color::Magenta),
        BlockKind::Notice => colored(thought_text()),
    }
}

/// The style of a row, which depends on its text in a diff.
pub open spec fn text_style(kind: BlockKind, text: Seq<char>) -> Style {
    if kind != BlockKind::Diff {
        kind_style(kind)
    } else if begins_with(text, '+') && !starts_with(text, "+++"@) {
        colored(Color::Green)
    } else if begins_with(text, '-') && !starts_with(text, "---"@) {
        colored(Color::Red)
    } else if starts_with(text, "@@"@) {
        colored(Color::Cyan)
    } else {
        kind_style(kind)
    }
}

/// The style of the marker before a block.
pub open spec fn mark_style(kind: BlockKind, text: Seq<char>) -> Style {
    match kind {
        BlockKind::Tool => in_bold(colored(Color::Yellow)),
        BlockKind::Notice => in_bold(colored(accent())),
        _ => in_bold(text_style(kind, text)),
    }
}

/// The style of a Markdown line.
pub open spec fn line_style(kind: BlockKind, text: Seq<char>) -> Style {
    let base = kind_style(kind);
    let written = trim(text);
    if begins_with(written, '#') {
        in_bold(with_fg(base, Color::Cyan))
    } else if starts_with(written, "```"@) {
        with_fg(base, Color::Gray)
    } else if written == "---"@ || written == "___"@ || written == "***"@ {
        with_fg(base, Color::DarkGray)
    } else if count_of(written, '|') >= 2 {
        with_fg(base, Color::LightBlue)
    } else {
        base
    }
}

/// The style of a kind of block.
pub fn block_style(kind: BlockKind) -> (style: Style)
    ensures
        style == kind_style(kind),
{
    match kind {
        BlockKind::Human => Style::color(accent()).bold(),
        BlockKind::Agent => Style::color(PRIMARY_TEXT),
        BlockKind::Thought => {
            let mut style = Style::color(thought_text());
            style.italic = true;
            style
        },
        BlockKind::Tool => Style::color(Color::Gray),
        BlockKind::Terminal => Style::color(Color::Gray),
        BlockKind::Activity => Style::color(Color::Gray),
        BlockKind::Diff => Style::color(Color::Magenta),
        BlockKind::Notice => Style::color(thought_text()),
    }
}

/// The style of a row, which depends on its text in a diff.
pub fn row_style(kind: BlockKind, text: &str) -> (style: Style)
    ensures
        style == text_style(kind, text@),
{
    if kind != BlockKind::Diff {
        block_style(kind)
    } else if has_first(text, '+') && !has_prefix(text, "+++") {
        Style::color(Color::Green)
    } else if has_first(text, '-') && !has_prefix(text, "---") {
        Style::color(Color::Red)
    } else if has_prefix(text, "@@") {
        Style::color(Color::Cyan)
    } else {
        block_style(kind)
    }
}

/// The style of the marker before a block.
pub fn marker_style(kind: BlockKind, text: &str) -> (style: Style)
    ensures
        style == mark_style(kind, text@),
{
    match kind {
        BlockKind::Tool => Style::color(Color::Yellow).bold(),
        BlockKind::Notice => Style::color(accent()).bold(),
        _ => row_style(kind, text).bold(),
    }
}

/// The style of a Markdown line.
pub fn markdown_style(kind: BlockKind, text: &str) -> (style: Style)
    ensures
        style == line_style(kind, text@),
{
    let base = block_style(kind);
    let trimmed = trimmed_text(text);
    let written = trimmed.as_str();
    if has_first(written, '#') {
        base.fg(Color::Cyan).bold()
    } else if has_prefix(written, "```") {
        base.fg(Color::Gray)
    } else if same(written, "---") || same(written, "___") || same(written, "***") {
        base.fg(Color::DarkGray)
    } else if occurrences(&to_chars(written), '|') >= 2 {
        base.fg(Color::LightBlue)
    } else {
        base
    }
}

// Source references.

/// Whether a character can be part of a path.
pub open spec fn is_path_char(c: char) -> bool {
    crate::text::is_ascii_letter(c) || is_digit(c) || c == '/' || c == '.' || c == '_' || c == '-'
        || c == ':' || c == '~'
}

/// Whether a character can be part of a path.
pub fn is_file_token_character(c: char) -> (yes: bool)
    ensures
        yes == is_path_char(c),
{
    ('a' <= c && c <= 'z') || ('A' <= c && c <= 'Z') || digit(c) || c == '/' || c == '.' || c == '_'
        || c == '-' || c == ':' || c == '~'
}

/// Whether a suffix names lines: digits and hyphens, with a digit among them.
pub open spec fn is_line_suffix(suffix: Seq<char>) -> bool {
    &&& exists|i: int| 0 <= i < suffix.len() && is_digit(#[trigger] suffix[i])
    &&& forall|i: int| 0 <= i < suffix.len() ==> is_digit(#[trigger] suffix[i]) || suffix[i] == '-'
}

/// A token without the lines that it names.
pub open spec fn path_of(token: Seq<char>) -> Seq<char> {
    match find_last(token, seq![':']) {
        Some(k) if is_line_suffix(token.skip(k + 1)) => token.take(k),
        _ => token,
    }
}

/// What follows the last occurrence of a character.
pub open spec fn behind_last(s: Seq<char>, c: char) -> Option<Seq<char>> {
    match find_last(s, seq![c]) {
        Some(k) => Some(s.skip(k + 1)),
        None => None,
    }
}

/// Whether an extension is one of source files.
pub open spec fn is_source_extension(e: Seq<char>) -> bool {
    e == "bash"@ || e == "c"@ || e == "cc"@ || e == "cpp"@ || e == "css"@ || e == "go"@ || e
        == "h"@ || e == "hpp"@ || e == "html"@ || e == "ini"@ || e == "java"@ || e == "js"@ || e
        == "json"@ || e == "jsx"@ || e == "kotlin"@ || e == "kt"@ || e == "md"@ || e == "php"@ || e
        == "py"@ || e == "pyi"@ || e == "rb"@ || e == "rs"@ || e == "sh"@ || e == "sql"@ || e
        == "swift"@ || e == "toml"@ || e == "ts"@ || e == "tsx"@ || e == "xml"@ || e == "yaml"@ || e
        == "yml"@
}

/// Whether a token refers to a source file, with or without lines.
pub open spec fn is_reference(token: Seq<char>) -> bool {
    let path = path_of(token);
    let name = match behind_last(path, '/') {
        Some(last) => last,
        None => path,
    };
    let special = name == "Dockerfile"@ || name == "Makefile"@ || name == "Justfile"@ || name
        == "Procfile"@ || name == ".env"@ || starts_with(name, ".env."@);
    path.len() > 0 && (special || match behind_last(name, '.') {
        Some(extension) => is_source_extension(lower(extension)),
        None => false,
    })
}

/// Where the token that begins at a place ends.
pub open spec fn token_end(text: Seq<char>, i: int) -> int
    decreases text.len() - i,
{
    if 0 <= i < text.len() && is_path_char(text[i]) {
        token_end(text, i + 1)
    } else {
        i
    }
}

proof fn lemma_token_end(text: Seq<char>, i: int)
    requires
        0 <= i <= text.len(),
    ensures
        i <= token_end(text, i) <= text.len(),
        i < text.len() && is_path_char(text[i]) ==> i < token_end(text, i),
    decreases text.len() - i,
{
    if i < text.len() && is_path_char(text[i]) {
        lemma_token_end(text, i + 1);
    }
}

/// The source references in a text from a place on, as ranges.
pub open spec fn references(text: Seq<char>, i: int) -> Seq<(int, int)>
    decreases text.len() - i,
    when 0 <= i
    via references_decreases
{
    if i >= text.len() {
        Seq::empty()
    } else if is_path_char(text[i]) {
        let end = token_end(text, i);
        if is_reference(text.subrange(i, end)) {
            seq![(i, end)] + references(text, end)
        } else {
            references(text, end)
        }
    } else {
        references(text, i + 1)
    }
}

#[via_fn]
proof fn references_decreases(text: Seq<char>, i: int) {
    if i < text.len() {
        lemma_token_end(text, i);
    }
}

/// The text from a place on in pieces, with ranges marked.
pub open spec fn marked(
    base: Style,
    text: Seq<char>,
    from: int,
    ranges: Seq<(int, int)>,
) -> Seq<PieceView>
    decreases ranges.len(),
{
    if ranges.len() == 0 {
        if from < text.len() {
            seq![piece(text.skip(from), base)]
        } else {
            Seq::empty()
        }
    } else {
        let (start, end) = ranges[0];
        let before = if start > from {
            seq![piece(text.subrange(from, start), base)]
        } else {
            Seq::empty()
        };
        before.push(piece(text.subrange(start, end), link_style(base))) + marked(
            base,
            text,
            end,
            ranges.drop_first(),
        )
    }
}

/// The style of links and references.
pub open spec fn link_style(base: Style) -> Style {
    underlined(with_fg(base, Color::LightCyan))
}

/// A text with its source references marked.
pub open spec fn with_references(base: Style, text: Seq<char>) -> Seq<PieceView> {
    let ranges = references(text, 0);
    if ranges.len() == 0 {
        seq![piece(text, base)]
    } else {
        marked(base, text, 0, ranges)
    }
}

/// A text, from a place on, with its links and source references marked.
pub open spec fn with_links(base: Style, text: Seq<char>) -> Seq<PieceView>
    decreases text.len(),
{
    let rest = if text.len() > 0 {
        with_references(base, text)
    } else {
        Seq::empty()
    };
    match find(text, seq!['[']) {
        None => rest,
        Some(open) => match find(text.skip(open + 1), "]("@) {
            None => rest,
            Some(k) => {
                let close = open + 1 + k;
                match find(text.skip(close + 2), seq![')']) {
                    None => rest,
                    Some(e) => {
                        let end = close + 2 + e + 1;
                        if !(0 <= open && open < end <= text.len()) {
                            rest
                        } else {
                            let before = if open > 0 {
                                with_references(base, text.take(open))
                            } else {
                                Seq::empty()
                            };
                            before.push(piece(text.subrange(open, end), link_style(base)))
                                + with_links(base, text.skip(end))
                        }
                    },
                }
            },
        },
    }
}

/// Prose with its links and source references marked.
pub open spec fn inline_text(base: Style, text: Seq<char>) -> Seq<PieceView> {
    if text.len() == 0 {
        seq![piece(text, base)]
    } else {
        with_links(base, text)
    }
}

/// The text of some pieces.
pub open spec fn text_of(pieces: Seq<PieceView>) -> Seq<char>
    decreases pieces.len(),
{
    if pieces.len() == 0 {
        Seq::empty()
    } else {
        text_of(pieces.drop_last()) + pieces.last().text
    }
}

pub proof fn lemma_text_of_concat(a: Seq<PieceView>, b: Seq<PieceView>)
    ensures
        text_of(a + b) == text_of(a) + text_of(b),
    decreases b.len(),
{
    if b.len() == 0 {
        assert(a + b =~= a);
        assert(text_of(a) + text_of(b) =~= text_of(a));
    } else {
        assert((a + b).drop_last() =~= a + b.drop_last());
        lemma_text_of_concat(a, b.drop_last());
        assert(text_of(a + b) =~= text_of(a) + text_of(b));
    }
}

pub proof fn lemma_text_of_one(one: PieceView)
    ensures
        text_of(seq![one]) == one.text,
{
    reveal_with_fuel(text_of, 2);
    assert(seq![one].drop_last() =~= Seq::empty());
    assert(Seq::<char>::empty() + one.text =~= one.text);
}

/// Ranges that stand in a text in order, from a place on.
pub open spec fn in_order(ranges: Seq<(int, int)>, from: int, len: int) -> bool
    decreases ranges.len(),
{
    ranges.len() == 0 || (from <= ranges[0].0 < ranges[0].1 <= len && in_order(
        ranges.drop_first(),
        ranges[0].1,
        len,
    ))
}

proof fn lemma_in_order_earlier(ranges: Seq<(int, int)>, from: int, earlier: int, len: int)
    requires
        in_order(ranges, from, len),
        earlier <= from,
    ensures
        in_order(ranges, earlier, len),
{
}

proof fn lemma_references_in_order(text: Seq<char>, i: int)
    requires
        0 <= i,
    ensures
        in_order(references(text, i), i, text.len() as int),
    decreases text.len() - i,
{
    if i < text.len() {
        lemma_token_end(text, i);
        if is_path_char(text[i]) {
            let end = token_end(text, i);
            lemma_references_in_order(text, end);
            if is_reference(text.subrange(i, end)) {
                let ranges = references(text, i);
                assert(ranges[0] == (i, end));
                assert(ranges.drop_first() =~= references(text, end));
            } else {
                lemma_in_order_earlier(references(text, end), end, i, text.len() as int);
            }
        } else {
            lemma_references_in_order(text, i + 1);
            lemma_in_order_earlier(references(text, i + 1), i + 1, i, text.len() as int);
        }
    }
}

proof fn lemma_marked_keeps(base: Style, text: Seq<char>, from: int, ranges: Seq<(int, int)>)
    requires
        0 <= from <= text.len(),
        in_order(ranges, from, text.len() as int),
    ensures
        text_of(marked(base, text, from, ranges)) == text.skip(from),
    decreases ranges.len(),
{
    if ranges.len() == 0 {
        if from < text.len() {
            lemma_text_of_one(piece(text.skip(from), base));
        } else {
            assert(text.skip(from) =~= Seq::empty());
        }
    } else {
        let (start, end) = ranges[0];
        lemma_marked_keeps(base, text, end, ranges.drop_first());
        let before = if start > from {
            seq![piece(text.subrange(from, start), base)]
        } else {
            Seq::empty()
        };
        let own = piece(text.subrange(start, end), link_style(base));
        let head = before.push(own);
        if start > from {
            lemma_text_of_one(piece(text.subrange(from, start), base));
        }
        assert(head.drop_last() =~= before);
        assert(text_of(head) == text_of(before) + own.text);
        lemma_text_of_concat(head, marked(base, text, end, ranges.drop_first()));
        assert(text_of(before) =~= text.subrange(from, start));
        assert(text.subrange(from, start) + text.subrange(start, end) + text.skip(end)
            =~= text.skip(from));
    }
}

proof fn lemma_references_keep(base: Style, text: Seq<char>)
    ensures
        text_of(with_references(base, text)) == text,
{
    lemma_references_in_order(text, 0);
    lemma_text_of_one(piece(text, base));
    if references(text, 0).len() > 0 {
        lemma_marked_keeps(base, text, 0, references(text, 0));
        assert(text.skip(0) =~= text);
    }
}

/// Marking links and source references hides nothing of a text: the complete token
/// stays visible.
pub proof fn law_links_stay_visible(base: Style, text: Seq<char>)
    ensures
        text_of(inline_text(base, text)) == text,
    decreases text.len(),
{
    lemma_text_of_one(piece(text, base));
    if text.len() > 0 {
        lemma_references_keep(base, text);
        lemma_links_keep(base, text);
    }
}

proof fn lemma_links_keep(base: Style, text: Seq<char>)
    ensures
        text_of(with_links(base, text)) == text,
    decreases text.len(),
{
    lemma_references_keep(base, text);
    assert(text.len() == 0 ==> text =~= Seq::empty());
    match find(text, seq!['[']) {
        None => {},
        Some(open) => match find(text.skip(open + 1), "]("@) {
            None => {},
            Some(k) => {
                let close = open + 1 + k;
                match find(text.skip(close + 2), seq![')']) {
                    None => {},
                    Some(e) => {
                        let end = close + 2 + e + 1;
                        if 0 <= open && open < end <= text.len() {
                            let before = if open > 0 {
                                with_references(base, text.take(open))
                            } else {
                                Seq::empty()
                            };
                            lemma_references_keep(base, text.take(open));
                            let own = piece(text.subrange(open, end), link_style(base));
                            let head = before.push(own);
                            assert(head.drop_last() =~= before);
                            lemma_links_keep(base, text.skip(end));
                            lemma_text_of_concat(head, with_links(base, text.skip(end)));
                            assert(text_of(before) =~= text.take(open));
                            assert(text.take(open) + text.subrange(open, end) + text.skip(end)
                                =~= text);
                        }
                    },
                }
            },
        },
    }
}

fn known_extension(extension: &str) -> (yes: bool)
    ensures
        yes == is_source_extension(extension@),
{
    let e = extension;
    same(e, "bash") || same(e, "c") || same(e, "cc") || same(e, "cpp") || same(e, "css") || same(
        e,
        "go",
    ) || same(e, "h") || same(e, "hpp") || same(e, "html") || same(e, "ini") || same(e, "java")
        || same(e, "js") || same(e, "json") || same(e, "jsx") || same(e, "kotlin") || same(e, "kt")
        || same(e, "md") || same(e, "php") || same(e, "py") || same(e, "pyi") || same(e, "rb")
        || same(e, "rs") || same(e, "sh") || same(e, "sql") || same(e, "swift") || same(e, "toml")
        || same(e, "ts") || same(e, "tsx") || same(e, "xml") || same(e, "yaml") || same(e, "yml")
}

fn after_last(chars: &Vec<char>, c: char) -> (rest: Option<Vec<char>>)
    ensures
        match rest {
            Some(part) => behind_last(chars@, c) == Some(part@),
            None => behind_last(chars@, c) is None,
        },
{
    let mut pattern: Vec<char> = Vec::new();
    pattern.push(c);
    assert(pattern@ =~= seq![c]);
    match last_index_of(chars, &pattern) {
        Some(k) => {
            let part = slice(chars, k + 1, chars.len());
            assert(part@ =~= chars@.skip(k + 1));
            Some(part)
        },
        None => None,
    }
}

fn names_lines(suffix: &Vec<char>) -> (yes: bool)
    ensures
        yes == is_line_suffix(suffix@),
{
    let mut any = false;
    let mut i: usize = 0;
    while i < suffix.len()
        invariant
            i <= suffix@.len(),
            any == exists|j: int| 0 <= j < i && is_digit(#[trigger] suffix@[j]),
            forall|j: int| 0 <= j < i ==> is_digit(#[trigger] suffix@[j]) || suffix@[j] == '-',
        decreases suffix@.len() - i,
    {
        if digit(suffix[i]) {
            any = true;
        } else if suffix[i] != '-' {
            return false;
        }
        i = i + 1;
    }
    any
}

fn refers(token: &Vec<char>) -> (yes: bool)
    ensures
        yes == is_reference(token@),
{
    let mut colon: Vec<char> = Vec::new();
    colon.push(':');
    assert(colon@ =~= seq![':']);
    let end: usize = match last_index_of(token, &colon) {
        Some(k) => {
            let suffix = slice(token, k + 1, token.len());
            assert(suffix@ =~= token@.skip(k + 1));
            if names_lines(&suffix) {
                k
            } else {
                token.len()
            }
        },
        None => token.len(),
    };
    let path = slice(token, 0, end);
    assert(path@ =~= path_of(token@));
    if path.len() == 0 {
        return false;
    }
    let name = match after_last(&path, '/') {
        Some(last) => last,
        None => slice(&path, 0, path.len()),
    };
    assert(path@.subrange(0, path@.len() as int) =~= path@);
    let text = to_text(&name);
    let called = text.as_str();
    if same(called, "Dockerfile") || same(called, "Makefile") || same(called, "Justfile") || same(
        called,
        "Procfile",
    ) || same(called, ".env") || has_prefix(called, ".env.") {
        return true;
    }
    match after_last(&name, '.') {
        Some(extension) => known_extension(to_text(&to_lower_chars(&extension)).as_str()),
        None => false,
    }
}

/// A text with its source references marked. A reference keeps the lines that it names.
pub fn file_reference_spans(base: Style, text: &str) -> (pieces: Vec<Piece>)
    ensures
        item_contents(pieces@) == with_references(base, text@),
{
    references_in(base, &to_chars(text))
}

fn references_in(base: Style, chars: &Vec<char>) -> (pieces: Vec<Piece>)
    ensures
        item_contents(pieces@) == with_references(base, chars@),
{
    broadcast use lemma_item_contents_push;

    let mut pieces: Vec<Piece> = Vec::new();
    assert(item_contents(pieces@) =~= Seq::empty());
    let mut from: usize = 0;
    let mut i: usize = 0;
    let mut any = false;
    let ghost all = references(chars@, 0);
    proof {
        lemma_references_in_order(chars@, 0);
        assert(item_contents(pieces@) + marked(base, chars@, 0, all) =~= marked(
            base,
            chars@,
            0,
            all,
        ));
    }
    while i < chars.len()
        invariant
            from <= i <= chars@.len(),
            all == references(chars@, 0),
            any == (references(chars@, i as int) != all),
            any || (from == 0 && references(chars@, i as int) == all && pieces@.len() == 0),
            all.len() >= references(chars@, i as int).len(),
            any ==> all.len() > 0,
            item_contents(pieces@) + marked(
                base,
                chars@,
                from as int,
                references(chars@, i as int),
            ) == marked(base, chars@, 0, all),
        decreases chars@.len() - i,
    {
        if is_file_token_character(chars[i]) {
            proof {
                lemma_token_end(chars@, i as int);
            }
            let mut end: usize = i;
            while end < chars.len() && is_file_token_character(chars[end])
                invariant
                    i <= end <= chars@.len(),
                    token_end(chars@, i as int) == token_end(chars@, end as int),
                decreases chars@.len() - end,
            {
                end = end + 1;
            }
            assert(end == token_end(chars@, i as int));
            let token = slice(chars, i, end);
            if refers(&token) {
                let ghost ranges = references(chars@, i as int);
                let ghost rest = references(chars@, end as int);
                let ghost before = item_contents(pieces@);
                assert(ranges[0] == (i as int, end as int));
                assert(ranges.drop_first() =~= rest);
                if i > from {
                    pieces.push(Piece::new(slice_to_string(chars, from, i).as_str(), base));
                }
                let link = base.fg(Color::LightCyan).underline();
                pieces.push(Piece::new(to_text(&token).as_str(), link));
                proof {
                    let lead = if i > from {
                        seq![piece(chars@.subrange(from as int, i as int), base)]
                    } else {
                        Seq::empty()
                    };
                    let own = piece(chars@.subrange(i as int, end as int), link_style(base));
                    assert(item_contents(pieces@) =~= before + lead.push(own));
                    assert(before + (lead.push(own) + marked(base, chars@, end as int, rest))
                        =~= before + lead.push(own) + marked(base, chars@, end as int, rest));
                    assert(rest.len() < ranges.len());
                }
                from = end;
                any = true;
            }
            i = end;
        } else {
            i = i + 1;
        }
    }
    assert(references(chars@, i as int) =~= Seq::empty());
    if !any {
        pieces.push(Piece::new(to_text(chars).as_str(), base));
        assert(item_contents(pieces@) =~= seq![piece(chars@, base)]);
        return pieces;
    }
    if from < chars.len() {
        let ghost before = item_contents(pieces@);
        pieces.push(Piece::new(slice_to_string(chars, from, chars.len()).as_str(), base));
        assert(chars@.subrange(from as int, chars@.len() as int) =~= chars@.skip(from as int));
        assert(item_contents(pieces@) =~= before + seq![piece(chars@.skip(from as int), base)]);
    } else {
        assert(item_contents(pieces@) + Seq::<PieceView>::empty() =~= item_contents(pieces@));
    }
    pieces
}

fn add_all(pieces: &mut Vec<Piece>, more: Vec<Piece>)
    ensures
        item_contents(final(pieces)@) == item_contents(old(pieces)@) + item_contents(more@),
{
    let mut rest = more;
    let ghost a = pieces@;
    let ghost b = rest@;
    pieces.append(&mut rest);
    assert(item_contents(a + b) =~= item_contents(a) + item_contents(b));
}

proof fn lemma_found_inside(s: Seq<char>, pattern: Seq<char>)
    ensures
        find(s, pattern) matches Some(k) ==> 0 <= k && k + pattern.len() <= s.len(),
{
    crate::text::lemma_find_from(s, pattern, 0);
}

/// The place of a text within the characters from a place on.
fn place_behind(chars: &Vec<char>, pattern: &str, from: usize) -> (place: Option<usize>)
    requires
        from <= chars@.len(),
    ensures
        match place {
            Some(k) => find(chars@.skip(from as int), pattern@) == Some(k - from) && from <= k
                && k + pattern@.len() <= chars.len(),
            None => find(chars@.skip(from as int), pattern@) is None,
        },
{
    let rest = slice(chars, from, chars.len());
    assert(rest@ =~= chars@.skip(from as int));
    proof {
        lemma_found_inside(rest@, pattern@);
    }
    match index_of(&rest, &to_chars(pattern)) {
        Some(k) => Some(from + k),
        None => None,
    }
}

fn links_in(base: Style, chars: &Vec<char>) -> (pieces: Vec<Piece>)
    ensures
        item_contents(pieces@) == with_links(base, chars@),
{
    broadcast use lemma_item_contents_push;

    let mut pieces: Vec<Piece> = Vec::new();
    let mut from: usize = 0;
    assert(item_contents(pieces@) =~= Seq::empty());
    assert(chars@.skip(0) =~= chars@);
    assert(item_contents(pieces@) + with_links(base, chars@) =~= with_links(base, chars@));
    proof {
        reveal_strlit("[");
        reveal_strlit("](");
        reveal_strlit(")");
        assert("["@ =~= seq!['[']);
        assert(")"@ =~= seq![')']);
    }
    loop
        invariant_except_break
            from <= chars@.len(),
            "["@ == seq!['['],
            "]("@.len() == 2,
            ")"@ == seq![')'],
            item_contents(pieces@) + with_links(base, chars@.skip(from as int)) == with_links(
                base,
                chars@,
            ),
        ensures
            from <= chars@.len(),
            item_contents(pieces@) + (if from < chars@.len() {
                with_references(base, chars@.skip(from as int))
            } else {
                Seq::empty()
            }) == with_links(base, chars@),
        decreases chars@.len() - from,
    {
        let ghost text = chars@.skip(from as int);
        let open: usize = match place_behind(chars, "[", from) {
            Some(open) => open,
            None => {
                break;
            },
        };
        assert(text.skip(open - from + 1) =~= chars@.skip(open + 1));
        let close: usize = match place_behind(chars, "](", open + 1) {
            Some(close) => close,
            None => {
                break;
            },
        };
        assert(text.skip(close - from + 2) =~= chars@.skip(close + 2));
        let last: usize = match place_behind(chars, ")", close + 2) {
            Some(last) => last,
            None => {
                break;
            },
        };
        let end: usize = last + 1;
        let ghost before = item_contents(pieces@);
        let ghost lead = if open > from {
            with_references(base, text.take(open - from))
        } else {
            Seq::empty()
        };
        if open > from {
            let plain = slice(chars, from, open);
            assert(plain@ =~= text.take(open - from));
            add_all(&mut pieces, references_in(base, &plain));
        }
        assert(item_contents(pieces@) =~= before + lead);
        let link = base.fg(Color::LightCyan).underline();
        pieces.push(Piece::new(slice_to_string(chars, open, end).as_str(), link));
        proof {
            let own = piece(chars@.subrange(open as int, end as int), link_style(base));
            assert(text.subrange(open - from, end - from) =~= chars@.subrange(
                open as int,
                end as int,
            ));
            assert(text.skip(end - from) =~= chars@.skip(end as int));
            assert(item_contents(pieces@) =~= (before + lead).push(own));
            assert(with_links(base, text) == lead.push(own) + with_links(
                base,
                chars@.skip(end as int),
            ));
            assert(item_contents(pieces@) + with_links(base, chars@.skip(end as int)) =~= before
                + with_links(base, text));
        }
        from = end;
    }
    if from < chars.len() {
        let rest = slice(chars, from, chars.len());
        assert(rest@ =~= chars@.skip(from as int));
        add_all(&mut pieces, references_in(base, &rest));
    } else {
        assert(item_contents(pieces@) + Seq::<PieceView>::empty() =~= item_contents(pieces@));
    }
    pieces
}

/// Prose with its links and source references marked.
pub fn inline_text_spans(base: Style, text: &str) -> (pieces: Vec<Piece>)
    ensures
        item_contents(pieces@) == inline_text(base, text@),
{
    prose(base, &to_chars(text))
}

fn prose(base: Style, chars: &Vec<char>) -> (pieces: Vec<Piece>)
    ensures
        item_contents(pieces@) == inline_text(base, chars@),
{
    if chars.len() == 0 {
        let mut pieces: Vec<Piece> = Vec::new();
        pieces.push(Piece::new(to_text(chars).as_str(), base));
        assert(item_contents(pieces@) =~= seq![piece(chars@, base)]);
        return pieces;
    }
    links_in(base, chars)
}

// Markdown.

/// The emphasis that comes first in a text: where it begins, and what marks it.
pub open spec fn first_emphasis(text: Seq<char>) -> Option<(int, Seq<char>)> {
    let strong = find(text, "**"@);
    let star = find(text, "*"@);
    let code = find(text, "`"@);
    match (star, code) {
        (None, None) => None,
        (None, Some(c)) => Some((c, "`"@)),
        (Some(s), code_at) => if code_at is Some && code_at.unwrap() < s {
            Some((code_at.unwrap(), "`"@))
        } else if strong == Some(s) {
            Some((s, "**"@))
        } else {
            Some((s, "*"@))
        },
    }
}

/// The style of an emphasis.
pub open spec fn emphasis_style(base: Style, mark: Seq<char>) -> Style {
    if mark == "**"@ {
        in_bold(base)
    } else if mark == "*"@ {
        Style { italic: true, ..base }
    } else {
        with_fg(base, Color::LightYellow)
    }
}

/// A text with its emphasis, links and source references marked. The marks of closed
/// emphasis are not shown; one that is not closed is text.
pub open spec fn emphasized(base: Style, text: Seq<char>) -> Seq<PieceView>
    decreases text.len(),
{
    if text.len() == 0 {
        Seq::empty()
    } else {
        match first_emphasis(text) {
            None => inline_text(base, text),
            Some((start, mark)) => {
                let before = if start > 0 {
                    inline_text(base, text.take(start))
                } else {
                    Seq::empty()
                };
                let inner = start + mark.len();
                match find(text.skip(inner), mark) {
                    None => before + inline_text(base, text.skip(start)),
                    Some(k) => {
                        let end = inner + k;
                        let rest = text.skip(end + mark.len());
                        if !(rest.len() < text.len()) {
                            before
                        } else {
                            before.push(
                                piece(text.subrange(inner, end), emphasis_style(base, mark)),
                            ) + emphasized(base, rest)
                        }
                    },
                }
            },
        }
    }
}

/// How long the marker of a quote or a list item is.
pub open spec fn item_marker(written: Seq<char>) -> Option<int> {
    let dot = find_char(written, '.');
    if starts_with(written, "> "@) || starts_with(written, "- "@) || starts_with(written, "* "@) {
        Some(2)
    } else if 0 < dot && dot + 1 < written.len() && all_digits(written.take(dot)) && written[dot + 1]
        == ' ' {
        Some(dot + 2)
    } else {
        None
    }
}

/// A Markdown line with its styles, outside of code.
pub open spec fn prose_line(kind: BlockKind, text: Seq<char>) -> Seq<PieceView> {
    let base = line_style(kind, text);
    let written = trim_start(text);
    let leading = text.len() - written.len();
    match item_marker(written) {
        None => emphasized(base, text),
        Some(length) => {
            let before = if leading > 0 {
                seq![piece(text.take(leading), base)]
            } else {
                Seq::empty()
            };
            let style = if starts_with(written, "> "@) {
                in_bold(with_fg(base, Color::Cyan))
            } else {
                in_bold(with_fg(base, Color::LightYellow))
            };
            before.push(piece(text.subrange(leading, leading + length), style)) + emphasized(
                base,
                text.skip(leading + length),
            )
        },
    }
}

/// Whether a line is a fence around code.
pub open spec fn is_fence(text: Seq<char>) -> bool {
    starts_with(trim_start(text), "```"@)
}

/// A transcript line with its styles, and whether the next line is code.
pub open spec fn styled_line(kind: BlockKind, text: Seq<char>, in_code: bool) -> (
    Seq<PieceView>,
    bool,
) {
    if is_fence(text) {
        (seq![piece(text, colored(Color::Gray))], !in_code)
    } else if in_code {
        (seq![piece(text, colored(Color::LightCyan))], true)
    } else {
        (prose_line(kind, text), false)
    }
}

/// Code is shown as it is written: between fences no Markdown is read.
pub proof fn law_code_is_shown_as_written(kind: BlockKind, text: Seq<char>)
    requires
        !is_fence(text),
    ensures
        styled_line(kind, text, true).0.len() == 1,
        styled_line(kind, text, true).0[0].text == text,
        styled_line(kind, text, true).1,
{
}

fn first_mark(chars: &Vec<char>) -> (mark: Option<(usize, &'static str)>)
    ensures
        match mark {
            Some((start, text)) => first_emphasis(chars@) == Some((start as int, text@)) && start
                + text@.len() <= chars@.len() && (text@ == "**"@ || text@ == "*"@ || text@ == "`"@)
                && text@.len() > 0,
            None => first_emphasis(chars@) is None,
        },
{
    assert(chars@.skip(0) =~= chars@);
    proof {
        reveal_strlit("**");
        reveal_strlit("*");
        reveal_strlit("`");
    }
    let strong = place_behind(chars, "**", 0);
    let star = place_behind(chars, "*", 0);
    let code = place_behind(chars, "`", 0);
    match star {
        None => match code {
            None => None,
            Some(c) => Some((c, "`")),
        },
        Some(s) => {
            let earlier = match code {
                Some(c) => c < s,
                None => false,
            };
            if earlier {
                return Some((code.unwrap(), "`"));
            }
            let doubled = match strong {
                Some(d) => d == s,
                None => false,
            };
            if doubled {
                Some((s, "**"))
            } else {
                Some((s, "*"))
            }
        },
    }
}

fn emphasis(base: Style, chars: &Vec<char>) -> (pieces: Vec<Piece>)
    ensures
        item_contents(pieces@) == emphasized(base, chars@),
{
    broadcast use lemma_item_contents_push;

    let mut pieces: Vec<Piece> = Vec::new();
    let mut rest = slice(chars, 0, chars.len());
    assert(rest@ =~= chars@);
    assert(item_contents(pieces@) =~= Seq::empty());
    assert(item_contents(pieces@) + emphasized(base, rest@) =~= emphasized(base, chars@));
    while rest.len() > 0
        invariant
            item_contents(pieces@) + emphasized(base, rest@) == emphasized(base, chars@),
        decreases rest@.len(),
    {
        let ghost before = item_contents(pieces@);
        let ghost text = rest@;
        let (start, mark) = match first_mark(&rest) {
            Some(found) => found,
            None => {
                add_all(&mut pieces, prose(base, &rest));
                return pieces;
            },
        };
        let ghost lead = if start > 0 {
            inline_text(base, text.take(start as int))
        } else {
            Seq::empty()
        };
        if start > 0 {
            let plain = slice(&rest, 0, start);
            assert(plain@ =~= text.take(start as int));
            add_all(&mut pieces, prose(base, &plain));
        }
        assert(item_contents(pieces@) =~= before + lead);
        let inner: usize = start + to_chars(mark).len();
        match place_behind(&rest, mark, inner) {
            None => {
                let open = slice(&rest, start, rest.len());
                assert(open@ =~= text.skip(start as int));
                add_all(&mut pieces, prose(base, &open));
                assert(item_contents(pieces@) =~= before + (lead + inline_text(base, open@)));
                return pieces;
            },
            Some(end) => {
                let style = if same(mark, "**") {
                    base.bold()
                } else if same(mark, "*") {
                    let mut style = base;
                    style.italic = true;
                    style
                } else {
                    base.fg(Color::LightYellow)
                };
                pieces.push(Piece::new(slice_to_string(&rest, inner, end).as_str(), style));
                let next: usize = end + to_chars(mark).len();
                let tail = slice(&rest, next, rest.len());
                proof {
                    let own = piece(
                        text.subrange(inner as int, end as int),
                        emphasis_style(base, mark@),
                    );
                    assert(tail@ =~= text.skip(next as int));
                    assert(item_contents(pieces@) =~= (before + lead).push(own));
                    assert(emphasized(base, text) == lead.push(own) + emphasized(base, tail@));
                    assert(item_contents(pieces@) + emphasized(base, tail@) =~= before
                        + emphasized(base, text));
                }
                rest = tail;
            },
        }
    }
    assert(item_contents(pieces@) + Seq::<PieceView>::empty() =~= item_contents(pieces@));
    pieces
}

proof fn lemma_trim_start(s: Seq<char>)
    ensures
        trim_start(s).len() <= s.len(),
        trim_start(s) == s.skip(s.len() - trim_start(s).len()),
    decreases s.len(),
{
    if s.len() > 0 && crate::text::is_space(s[0]) {
        lemma_trim_start(s.drop_first());
        let k = s.drop_first().len() - trim_start(s.drop_first()).len();
        assert(s.drop_first().skip(k) =~= s.skip(k + 1));
    } else {
        assert(s.skip(0) =~= s);
    }
}

fn marker_length(written: &Vec<char>) -> (length: Option<usize>)
    ensures
        match length {
            Some(n) => item_marker(written@) == Some(n as int) && n <= written@.len(),
            None => item_marker(written@) is None,
        },
{
    let text = to_text(written);
    let line = text.as_str();
    proof {
        reveal_strlit("> ");
        reveal_strlit("- ");
        reveal_strlit("* ");
    }
    if has_prefix(line, "> ") || has_prefix(line, "- ") || has_prefix(line, "* ") {
        return Some(2);
    }
    let dot: usize = position_of(written, '.', 0);
    assert(written@.skip(0) =~= written@);
    if dot == 0 || dot >= written.len() || dot + 1 >= written.len() || written[dot + 1] != ' ' {
        return None;
    }
    let mut i: usize = 0;
    while i < dot
        invariant
            i <= dot < written@.len(),
            forall|j: int| 0 <= j < i ==> is_digit(#[trigger] written@[j]),
            dot == find_char(written@, '.'),
            item_marker(written@) == (if all_digits(written@.take(dot as int)) {
                Some(dot + 2)
            } else {
                None::<int>
            }),
        decreases dot - i,
    {
        if !digit(written[i]) {
            assert(!is_digit(written@.take(dot as int)[i as int]));
            return None;
        }
        i = i + 1;
    }
    assert(all_digits(written@.take(dot as int)));
    Some(dot + 2)
}

fn prose_pieces(kind: BlockKind, text: &str) -> (pieces: Vec<Piece>)
    ensures
        item_contents(pieces@) == prose_line(kind, text@),
{
    broadcast use lemma_item_contents_push;

    let base = markdown_style(kind, text);
    let chars = to_chars(text);
    let written = trimmed_start(&chars);
    proof {
        lemma_trim_start(chars@);
    }
    let leading: usize = chars.len() - written.len();
    let length: usize = match marker_length(&written) {
        Some(length) => length,
        None => {
            return emphasis(base, &chars);
        },
    };
    let mut pieces: Vec<Piece> = Vec::new();
    assert(item_contents(pieces@) =~= Seq::empty());
    if leading > 0 {
        pieces.push(Piece::new(slice_to_string(&chars, 0, leading).as_str(), base));
        assert(chars@.subrange(0, leading as int) =~= chars@.take(leading as int));
        assert(item_contents(pieces@) =~= seq![piece(chars@.take(leading as int), base)]);
    }
    let style = if has_prefix(to_text(&written).as_str(), "> ") {
        base.fg(Color::Cyan).bold()
    } else {
        base.fg(Color::LightYellow).bold()
    };
    let end: usize = leading + length;
    pieces.push(Piece::new(slice_to_string(&chars, leading, end).as_str(), style));
    let rest = slice(&chars, end, chars.len());
    assert(rest@ =~= chars@.skip(end as int));
    add_all(&mut pieces, emphasis(base, &rest));
    pieces
}

/// A transcript line with its styles. `in_code` says whether the line is code, and
/// afterwards whether the next one is.
pub fn markdown_spans(kind: BlockKind, text: &str, in_code: &mut bool) -> (pieces: Vec<Piece>)
    ensures
        (item_contents(pieces@), *final(in_code)) == styled_line(kind, text@, *old(in_code)),
{
    let start = to_text(&trimmed_start(&to_chars(text)));
    let fence = has_prefix(start.as_str(), "```");
    if fence || *in_code {
        let color = if fence {
            Color::Gray
        } else {
            Color::LightCyan
        };
        let mut pieces: Vec<Piece> = Vec::new();
        pieces.push(Piece::new(text, Style::color(color)));
        assert(item_contents(pieces@) =~= seq![piece(text@, colored(color))]);
        if fence {
            *in_code = !*in_code;
        }
        return pieces;
    }
    prose_pieces(kind, text)
}

} // verus!
