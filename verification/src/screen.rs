//! What the screen shows: how its rows are shared, the transcript as styled lines, the
//! scrollbar and the information row.

use crate::app::{App, AppView};
use crate::footer::{color_of, least, metrics_of, mode_label, FooterMetrics};
use crate::labels::{
    actionable_detail_preview, cell_label, compact_cell_label, compact_workspace_path, openable,
    workspace_label,
};
use crate::layout::{row_contents, BlockKind, RenderRow, RowView};
use crate::markdown::{
    line_style, mark_style, markdown_spans, markdown_style, marker_style, row_style, styled_line,
    text_style,
};
use crate::order::{item_contents, lemma_item_contents_push};
use crate::panels::{on_terminal, room, Area};
use crate::settings::Density;
use crate::style::{
    colored, in_bold, piece, plain_style, thought_text, Piece, PieceView, Style, StyledLine,
};
use crate::surface::{help_rows, permission_rows, picker_rows, queue_rows};
use crate::text::{
    append_chars, append_text, begins_with, find_char, has_first, has_prefix, position_of, slice,
    split_at_first, split_once, starts_with, to_chars, to_text, trim_start, trimmed_start,
};
use crate::transcript::place_of;
use vstd::prelude::*;

verus! {

broadcast use lemma_item_contents_push;

/// What fills the screen.
#[derive(Clone, Copy, Debug, Eq, PartialEq, Structural)]
pub enum Screen {
    /// The workspace directory of the agent store is edited.
    Directory,
    Store,
    Config,
    /// The fallback for a very small pane.
    Compact,
    Full,
}

/// What fills a screen of a size.
pub open spec fn screen_for(app: AppView, width: int, height: int) -> Screen {
    if app.store.visible && app.store.editing_directory {
        Screen::Directory
    } else if app.store.visible {
        Screen::Store
    } else if app.config.visible {
        Screen::Config
    } else if width < 36 || height < 7 {
        Screen::Compact
    } else {
        Screen::Full
    }
}

/// The heights of the parts below the transcript.
#[derive(Clone, Copy, Debug, Eq, PartialEq, Structural)]
pub struct Heights {
    pub queue: usize,
    pub permission: usize,
    pub help: usize,
    pub picker: usize,
    pub prompt: usize,
    pub status: usize,
}

/// The rows that panels may take: one row is for the information, two for the prompt
/// and one for the transcript, as far as there are so many.
pub open spec fn panel_room(total: int) -> int {
    let status: int = if total > 0 {
        1
    } else {
        0
    };
    let prompt = least(room(total, status), 2);
    let content: int = if total > status + prompt {
        1
    } else {
        0
    };
    room(total, status + prompt + content)
}

/// How the rows of a screen are shared. The permission request comes first, and of
/// what is left the queue, the help and the path picker take theirs in this order.
pub open spec fn shared_rows(app: AppView, total: int, preferred: int) -> Heights {
    let status: int = if total > 0 {
        1
    } else {
        0
    };
    let free = panel_room(total);
    let permission = least(permission_rows(app.permission), free);
    let queue = least(queue_rows(app.queue), free - permission);
    let help = least(help_rows(app), free - permission - queue);
    let picker = least(picker_rows(app.picker), free - permission - queue - help);
    let left = room(total, status + permission + queue + help + picker);
    let content: int = if left > least(room(total, status), 2) {
        1
    } else {
        0
    };
    let wanted = if app.settings.density == Density::Compact {
        least(preferred, 3)
    } else {
        preferred
    };
    Heights {
        queue: queue as usize,
        permission: permission as usize,
        help: help as usize,
        picker: picker as usize,
        prompt: least(wanted, room(left, content)) as usize,
        status: status as usize,
    }
}

/// The parts of a screen fit into it, the information row is always there, and a
/// screen of more than three rows leaves one for the transcript.
pub proof fn law_screen_parts_fit(app: AppView, total: int, preferred: int)
    requires
        0 <= total <= u16::MAX,
        0 <= preferred,
    ensures
        ({
            let rows = shared_rows(app, total, preferred);
            let taken = rows.queue + rows.permission + rows.help + rows.picker + rows.prompt
                + rows.status;
            &&& taken <= total
            &&& total > 0 ==> rows.status == 1
            &&& total > 3 ==> taken < total
            &&& total > 3 && preferred >= 2 ==> rows.prompt >= 2
        }),
{
}

impl App {
    /// What fills a screen of a size.
    pub fn screen(&self, width: u16, height: u16) -> (screen: Screen)
        ensures
            screen == screen_for(self@, width as int, height as int),
    {
        if self.store.visible() {
            if self.store.editing_directory() {
                Screen::Directory
            } else {
                Screen::Store
            }
        } else if self.config.visible {
            Screen::Config
        } else if width < 36 || height < 7 {
            Screen::Compact
        } else {
            Screen::Full
        }
    }

    /// How the rows of a screen are shared, when the prompt prefers so many.
    pub fn share_rows(&self, total: u16, preferred: u16) -> (heights: Heights)
        ensures
            heights == shared_rows(self@, total as int, preferred as int),
    {
        let total: usize = total as usize;
        let status: usize = if total > 0 {
            1
        } else {
            0
        };
        let minimum: usize = smaller(total - status, 2);
        let reserve: usize = if total > status + minimum {
            1
        } else {
            0
        };
        let mut free: usize = total - status - minimum - reserve;
        assert(free == panel_room(total as int));
        let permission: usize = smaller(self.permission_height() as usize, free);
        free = free - permission;
        let queue: usize = smaller(self.queue_height() as usize, free);
        free = free - queue;
        let help: usize = smaller(self.help_height() as usize, free);
        free = free - help;
        let picker: usize = smaller(self.path_picker_height() as usize, free);
        let left: usize = total - status - permission - queue - help - picker;
        let content: usize = if left > minimum {
            1
        } else {
            0
        };
        let wanted: usize = match self.settings.density {
            Density::Compact => smaller(preferred as usize, 3),
            Density::Comfortable => preferred as usize,
        };
        let below: usize = if left > content {
            left - content
        } else {
            0
        };
        Heights { queue, permission, help, picker, prompt: smaller(wanted, below), status }
    }

    /// How the rows of a screen are shared.
    pub fn screen_rows(&mut self, width: u16, height: u16) -> (heights: Heights)
        requires
            old(self).wf(),
        ensures
            final(self).wf(),
            final(self)@ == old(self)@,
            heights == shared_rows(
                old(self)@,
                height as int,
                crate::editor::bounded_height(old(self).prompt_editor.rows(width)) as int,
            ),
    {
        let preferred: u16 = self.prompt_editor.preferred_height(width);
        self.share_rows(height, preferred)
    }
}

fn smaller(a: usize, b: usize) -> (least_of: usize)
    ensures
        least_of == least(a as int, b as int),
{
    if a < b {
        a
    } else {
        b
    }
}

/// The parts of a very small pane.
#[derive(Clone, Copy, Debug, Eq, PartialEq, Structural)]
pub struct CompactParts {
    pub transcript: Option<Area>,
    pub prompt: Option<Area>,
    pub footer: Area,
    pub help: Option<Area>,
    pub picker: Option<Area>,
}

/// A part of a pane that stands right above its two lowest rows.
pub open spec fn above_prompt(area: Area, rows: int) -> Option<Area> {
    let height = least(rows, area.height - 2);
    if height > 0 {
        Some(
            Area {
                x: area.x,
                y: (area.y + area.height - 2 - height) as u16,
                width: area.width,
                height: height as u16,
            },
        )
    } else {
        None
    }
}

/// The parts of a very small pane. Help and path picker lie over the lower rows of the
/// transcript and never over the prompt.
pub open spec fn compact_layout(app: AppView, area: Area) -> CompactParts {
    if area.height > 1 {
        CompactParts {
            transcript: if area.height > 2 {
                Some(Area { height: (area.height - 2) as u16, ..area })
            } else {
                None
            },
            prompt: Some(Area { y: (area.y + area.height - 2) as u16, height: 1, ..area }),
            footer: Area { y: (area.y + area.height - 1) as u16, height: 1, ..area },
            help: above_prompt(area, help_rows(app)),
            picker: above_prompt(area, picker_rows(app.picker)),
        }
    } else {
        CompactParts {
            transcript: None,
            prompt: None,
            footer: area,
            help: None,
            picker: None,
        }
    }
}

/// In a very small pane nothing covers the prompt or the information row.
pub proof fn law_compact_prompt_stays_free(app: AppView, area: Area)
    requires
        on_terminal(area),
        area.height > 1,
    ensures
        ({
            let parts = compact_layout(app, area);
            let prompt = parts.prompt->0;
            &&& parts.prompt is Some
            &&& prompt.y + 1 == parts.footer.y
            &&& parts.transcript matches Some(part) ==> part.y + part.height == prompt.y
            &&& parts.help matches Some(part) ==> part.y + part.height == prompt.y && part.y
                >= area.y
            &&& parts.picker matches Some(part) ==> part.y + part.height == prompt.y && part.y
                >= area.y
        }),
{
}

fn part_above_prompt(area: Area, rows: u16) -> (part: Option<Area>)
    requires
        on_terminal(area),
        area.height > 1,
    ensures
        part == above_prompt(area, rows as int),
{
    let height: u16 = if rows < area.height - 2 {
        rows
    } else {
        area.height - 2
    };
    if height > 0 {
        Some(
            Area {
                x: area.x,
                y: area.y + (area.height - 2 - height),
                width: area.width,
                height,
            },
        )
    } else {
        None
    }
}

impl App {
    /// The parts of a very small pane.
    pub fn compact_parts(&self, area: Area) -> (parts: CompactParts)
        requires
            on_terminal(area),
        ensures
            parts == compact_layout(self@, area),
    {
        if area.height > 1 {
            let transcript = if area.height > 2 {
                Some(
                    Area { x: area.x, y: area.y, width: area.width, height: area.height - 2 },
                )
            } else {
                None
            };
            let prompt = Area {
                x: area.x,
                y: area.y + (area.height - 2),
                width: area.width,
                height: 1,
            };
            let footer = Area {
                x: area.x,
                y: area.y + (area.height - 1),
                width: area.width,
                height: 1,
            };
            CompactParts {
                transcript,
                prompt: Some(prompt),
                footer,
                help: part_above_prompt(area, self.help_height()),
                picker: part_above_prompt(area, self.path_picker_height()),
            }
        } else {
            CompactParts {
                transcript: None,
                prompt: None,
                footer: area,
                help: None,
                picker: None,
            }
        }
    }
}

/// The height of the scrollbar's thumb: the part of the rows that a track shows, and at
/// least one cell.
pub open spec fn thumb_rows(track: int, total: int) -> int {
    let share = track * track / (if total > 1 {
        total
    } else {
        1
    });
    least(
        if share > 1 {
            share
        } else {
            1
        },
        track,
    )
}

/// A product that stops at the largest machine number.
pub open spec fn bounded_product(a: int, b: int) -> int {
    if a * b <= usize::MAX {
        a * b
    } else {
        usize::MAX as int
    }
}

/// How far down the track the thumb begins.
pub open spec fn thumb_start(track: int, total: int, scroll: int, viewport: int) -> int {
    let most = room(total, viewport);
    if most == 0 {
        0
    } else {
        bounded_product(track - thumb_rows(track, total), scroll) / most
    }
}

/// While the scroll position is one of the transcript's, the thumb lies on the track.
pub proof fn law_thumb_stays_on_track(track: int, total: int, scroll: int, viewport: int)
    requires
        0 < track,
        0 <= total,
        0 <= viewport,
        0 <= scroll <= room(total, viewport),
    ensures
        1 <= thumb_rows(track, total) <= track,
        0 <= thumb_start(track, total, scroll, viewport),
        thumb_start(track, total, scroll, viewport) + thumb_rows(track, total) <= track,
{
    let most = room(total, viewport);
    let free = track - thumb_rows(track, total);
    if most > 0 {
        assert(0 <= free * scroll <= free * most) by (nonlinear_arith)
            requires
                0 <= free,
                0 <= scroll <= most,
        ;
        let product = bounded_product(free, scroll);
        assert(0 <= product / most <= free) by (nonlinear_arith)
            requires
                0 <= product <= free * most,
                most > 0,
                free >= 0,
        ;
    }
}

/// The thumb of the scrollbar: where it begins on the track, and how high it is.
pub fn scrollbar_thumb(track: u16, total: usize, scroll: usize, viewport: usize) -> (thumb: (
    usize,
    usize,
))
    requires
        0 < track,
    ensures
        thumb.0 == thumb_start(track as int, total as int, scroll as int, viewport as int),
        thumb.1 == thumb_rows(track as int, total as int),
{
    let height: usize = track as usize;
    let rows: usize = if total > 1 {
        total
    } else {
        1
    };
    assert(0 <= height * height <= 0xffff * 0xffff) by (nonlinear_arith)
        requires
            0 <= height <= 0xffff,
    ;
    let share: usize = height * height / rows;
    let thumb: usize = smaller(
        if share > 1 {
            share
        } else {
            1
        },
        height,
    );
    let most: usize = if total > viewport {
        total - viewport
    } else {
        0
    };
    let free: usize = height - thumb;
    let start: usize = if most == 0 {
        0
    } else {
        saturating_product(free, scroll) / most
    };
    (start, thumb)
}

fn saturating_product(a: usize, b: usize) -> (product: usize)
    ensures
        product == bounded_product(a as int, b as int),
{
    match a.checked_mul(b) {
        Some(product) => product,
        None => usize::MAX,
    }
}

/// Whether a cell of the track belongs to the thumb.
pub fn on_thumb(thumb: (usize, usize), offset: usize) -> (yes: bool)
    ensures
        yes == (thumb.0 <= offset < thumb.0 + thumb.1),
{
    offset >= thumb.0 && offset - thumb.0 < thumb.1
}

/// The marker before a block.
pub open spec fn block_marker(kind: BlockKind) -> Seq<char> {
    match kind {
        BlockKind::Human => "› "@,
        BlockKind::Agent => "● "@,
        BlockKind::Thought => "… "@,
        BlockKind::Tool => "◆ "@,
        BlockKind::Terminal => "◆ "@,
        BlockKind::Activity => "◆ "@,
        BlockKind::Diff => "± "@,
        BlockKind::Notice => "· "@,
    }
}

/// The marker of a row.
pub open spec fn row_mark(row: RowView) -> Seq<char> {
    if row.first_in_block {
        block_marker(row.kind)
    } else {
        "  "@
    }
}

/// The detail that can be opened: the focused one, while it is collapsed.
pub open spec fn openable_detail(app: AppView) -> Option<u64> {
    match app.focused_detail {
        Some(id) => match place_of(app.transcript, id) {
            Some(k) => if app.transcript[k].collapsed {
                Some(id)
            } else {
                None
            },
            None => None,
        },
        None => None,
    }
}

/// The text of a row. The rows of a detail that can be opened say how.
pub open spec fn row_text(app: AppView, row: RowView, width: int) -> Seq<char> {
    if openable_detail(app) == Some(row.block_id) && !(row.first_in_block && row.kind
        == BlockKind::Agent) && row.text.len() > 0 {
        openable(row.text, room(width, 2))
    } else {
        row.text
    }
}

/// The time in brackets at the start of a message, and what comes behind it.
pub open spec fn timed(body: Seq<char>) -> Option<(Seq<char>, Seq<char>)> {
    let end = find_char(body, ']');
    if begins_with(body, '[') && end < body.len() {
        Some((body.subrange(1, end), trim_start(body.skip(end + 1))))
    } else {
        None
    }
}

/// A row that names who speaks, and whether the next row is code.
pub open spec fn spoken_row(
    app: AppView,
    kind: BlockKind,
    mark: Seq<char>,
    speaker: Seq<char>,
    body: Seq<char>,
    in_code: bool,
) -> (Seq<PieceView>, bool) {
    let style = in_bold(colored(color_of(app, speaker)));
    let head = seq![piece(mark, style), piece(speaker, style)];
    match timed(body) {
        Some((time, content)) => {
            let timed_head = head.push(piece(" "@ + time, colored(thought_text())));
            if content.len() > 0 {
                let (rest, code) = styled_line(kind, "  "@ + content, in_code);
                (timed_head + rest, code)
            } else {
                (timed_head, in_code)
            }
        },
        None => {
            let (rest, code) = styled_line(kind, ": "@ + body, in_code);
            (head + rest, code)
        },
    }
}

/// Who speaks in a row, where it says so, and what.
pub open spec fn spoken(row: RowView, text: Seq<char>) -> Option<(Seq<char>, Seq<char>)> {
    if (row.kind == BlockKind::Agent || row.kind == BlockKind::Thought) && row.first_in_block {
        split_once(text, ": "@)
    } else {
        None
    }
}

/// A row of the transcript as a line, and whether the next row is code. A block never
/// begins as code.
pub open spec fn row_line(app: AppView, row: RowView, width: int, in_code: bool) -> (
    Seq<PieceView>,
    bool,
) {
    let text = row_text(app, row, width);
    let code = in_code && !row.first_in_block;
    match spoken(row, text) {
        Some((speaker, body)) => spoken_row(app, row.kind, row_mark(row), speaker, body, code),
        None => {
            let (rest, after) = styled_line(row.kind, text, code);
            (seq![piece(row_mark(row), mark_style(row.kind, text))] + rest, after)
        },
    }
}

/// The first rows of the transcript as lines, and whether the next row is code.
pub open spec fn lines_of(app: AppView, rows: Seq<RowView>, width: int, n: int) -> (
    Seq<Seq<PieceView>>,
    bool,
)
    decreases n,
{
    if n <= 0 {
        (Seq::empty(), false)
    } else {
        let (above, in_code) = lines_of(app, rows, width, n - 1);
        let (line, code) = row_line(app, rows[n - 1], width, in_code);
        (above.push(line), code)
    }
}

fn marker_for(kind: BlockKind) -> (mark: &'static str)
    ensures
        mark@ == block_marker(kind),
{
    match kind {
        BlockKind::Human => "› ",
        BlockKind::Agent => "● ",
        BlockKind::Thought => "… ",
        BlockKind::Tool => "◆ ",
        BlockKind::Terminal => "◆ ",
        BlockKind::Activity => "◆ ",
        BlockKind::Diff => "± ",
        BlockKind::Notice => "· ",
    }
}

fn put_behind(pieces: &mut Vec<Piece>, more: Vec<Piece>)
    ensures
        item_contents(final(pieces)@) == item_contents(old(pieces)@) + item_contents(more@),
{
    let mut rest = more;
    let ghost before = pieces@;
    pieces.append(&mut rest);
    assert(item_contents(pieces@) =~= item_contents(before) + item_contents(more@));
}

fn timed_body(body: &Vec<char>) -> (parts: Option<(String, String)>)
    ensures
        match parts {
            Some((time, content)) => timed(body@) == Some((time@, content@)),
            None => timed(body@) is None,
        },
{
    let end: usize = position_of(body, ']', 0);
    assert(body@.skip(0) =~= body@);
    if body.len() == 0 || body[0] != '[' || end >= body.len() {
        return None;
    }
    proof {
        crate::text::lemma_find_char(body@, ']');
    }
    let time = slice(body, 1, end);
    let behind = slice(body, end + 1, body.len());
    assert(behind@ =~= body@.skip(end + 1));
    let content = trimmed_start(&behind);
    Some((to_text(&time), to_text(&content)))
}

impl App {
    fn openable(&self) -> (id: Option<u64>)
        ensures
            id == openable_detail(self@),
    {
        match self.focused_detail {
            Some(id) => match self.transcript.is_collapsed(id) {
                Some(true) => Some(id),
                _ => None,
            },
            None => None,
        }
    }

    fn spoken_line(
        &self,
        kind: BlockKind,
        mark: &str,
        speaker: &str,
        body: &Vec<char>,
        in_code: &mut bool,
    ) -> (line: StyledLine)
        requires
            self.wf(),
        ensures
            (line@, *final(in_code)) == spoken_row(
                self@,
                kind,
                mark@,
                speaker@,
                body@,
                *old(in_code),
            ),
    {
        let style = Style::color(self.agent_color_for_name(speaker)).bold();
        let mut pieces: Vec<Piece> = Vec::new();
        pieces.push(Piece::new(mark, style));
        pieces.push(Piece::new(speaker, style));
        let ghost head = seq![piece(mark@, style), piece(speaker@, style)];
        assert(item_contents(pieces@) =~= head);
        match timed_body(body) {
            Some((time, content)) => {
                let mut shown = to_chars(" ");
                append_text(&mut shown, time.as_str());
                pieces.push(Piece::new(to_text(&shown).as_str(), Style::color(thought_text())));
                if content.as_str().unicode_len() > 0 {
                    let mut text = to_chars("  ");
                    append_text(&mut text, content.as_str());
                    put_behind(
                        &mut pieces,
                        markdown_spans(kind, to_text(&text).as_str(), in_code),
                    );
                }
            },
            None => {
                let mut text = to_chars(": ");
                append_chars(&mut text, body);
                put_behind(&mut pieces, markdown_spans(kind, to_text(&text).as_str(), in_code));
            },
        }
        StyledLine { pieces }
    }

    fn row_line(&self, row: &RenderRow, width: usize, in_code: &mut bool) -> (line: StyledLine)
        requires
            self.wf(),
        ensures
            (line@, *final(in_code)) == row_line(self@, row@, width as int, *old(in_code)),
    {
        let focused = match self.openable() {
            Some(id) => id == row.block_id,
            None => false,
        };
        let agent = match row.kind {
            BlockKind::Agent => true,
            _ => false,
        };
        let text = if focused && !(row.first_in_block && agent)
            && row.text.as_str().unicode_len() > 0 {
            let space: usize = if width > 2 {
                width - 2
            } else {
                0
            };
            actionable_detail_preview(row.text.as_str(), space)
        } else {
            row.text.clone()
        };
        assert(text@ == row_text(self@, row@, width as int));
        if row.first_in_block {
            *in_code = false;
        }
        let mark = if row.first_in_block {
            marker_for(row.kind)
        } else {
            "  "
        };
        let speaks = match row.kind {
            BlockKind::Agent => true,
            BlockKind::Thought => true,
            _ => false,
        };
        if speaks && row.first_in_block {
            match split_at_first(&to_chars(text.as_str()), ": ") {
                Some((speaker, body)) => {
                    return self.spoken_line(
                        row.kind,
                        mark,
                        to_text(&speaker).as_str(),
                        &body,
                        in_code,
                    );
                },
                None => {},
            }
        }
        let mut pieces: Vec<Piece> = Vec::new();
        pieces.push(Piece::new(mark, marker_style(row.kind, text.as_str())));
        assert(item_contents(pieces@) =~= seq![piece(mark@, mark_style(row.kind, text@))]);
        put_behind(&mut pieces, markdown_spans(row.kind, text.as_str(), in_code));
        StyledLine { pieces }
    }

    /// The visible rows of the transcript as lines, in an area of a width.
    pub fn transcript_lines(&self, rows: &Vec<RenderRow>, width: u16) -> (lines: Vec<StyledLine>)
        requires
            self.wf(),
        ensures
            item_contents(lines@) == lines_of(
                self@,
                row_contents(rows@),
                crate::surface::content_width(self@, width as int),
                rows@.len() as int,
            ).0,
    {
        let row_width: usize = self.transcript_content_width(width as usize);
        let mut lines: Vec<StyledLine> = Vec::new();
        let mut in_code = false;
        let mut i: usize = 0;
        assert(item_contents(lines@) =~= Seq::empty());
        while i < rows.len()
            invariant
                self.wf(),
                i <= rows.len(),
                (item_contents(lines@), in_code) == lines_of(
                    self@,
                    row_contents(rows@),
                    row_width as int,
                    i as int,
                ),
            decreases rows.len() - i,
        {
            assert(row_contents(rows@)[i as int] == rows@[i as int]@);
            let line = self.row_line(&rows[i], row_width, &mut in_code);
            lines.push(line);
            i = i + 1;
        }
        lines
    }
}

/// Whether the rows are shown as two columns.
pub open spec fn in_columns(rows: Seq<RowView>, split: bool) -> bool {
    split && exists|i: int| 0 <= i < rows.len() && (#[trigger] rows[i]).kind == BlockKind::Diff
}

/// Whether the rows are shown as two columns.
pub fn split_view(rows: &Vec<RenderRow>, split: bool) -> (columns: bool)
    ensures
        columns == in_columns(row_contents(rows@), split),
{
    if !split {
        return false;
    }
    let mut i: usize = 0;
    while i < rows.len()
        invariant
            split,
            i <= rows.len(),
            forall|k: int| 0 <= k < i ==> row_contents(rows@)[k].kind != BlockKind::Diff,
        decreases rows.len() - i,
    {
        assert(row_contents(rows@)[i as int] == rows@[i as int]@);
        match rows[i].kind {
            BlockKind::Diff => {
                return true;
            },
            _ => {},
        }
        i = i + 1;
    }
    false
}

/// A line that was taken out.
pub open spec fn is_removed(text: Seq<char>) -> bool {
    begins_with(text, '-') && !starts_with(text, "---"@)
}

/// A line that was put in.
pub open spec fn is_inserted(text: Seq<char>) -> bool {
    begins_with(text, '+') && !starts_with(text, "+++"@)
}

/// A row in the column of the original and in the column of the update. Each column
/// leaves out what only the other one has, and the rows stay side by side.
pub open spec fn columns_of(row: RowView) -> (Seq<PieceView>, Seq<PieceView>) {
    let nothing = seq![piece(Seq::empty(), plain_style())];
    if row.kind != BlockKind::Diff {
        let line = seq![piece(row.text, line_style(row.kind, Seq::empty()))];
        (line, line)
    } else {
        let line = seq![piece(row.text, text_style(row.kind, row.text))];
        if is_removed(row.text) {
            (line, nothing)
        } else if is_inserted(row.text) {
            (nothing, line)
        } else {
            (line, line)
        }
    }
}

/// The left column.
pub open spec fn original_column(rows: Seq<RowView>) -> Seq<Seq<PieceView>> {
    Seq::new(rows.len(), |i: int| columns_of(rows[i]).0)
}

/// The right column.
pub open spec fn updated_column(rows: Seq<RowView>) -> Seq<Seq<PieceView>> {
    Seq::new(rows.len(), |i: int| columns_of(rows[i]).1)
}

fn row_columns(row: &RenderRow) -> (columns: (StyledLine, StyledLine))
    ensures
        (columns.0@, columns.1@) == columns_of(row@),
{
    proof {
        reveal_strlit("");
        assert(""@ =~= Seq::empty());
    }
    let text = row.text.as_str();
    match row.kind {
        BlockKind::Diff => {},
        _ => {
            let style = markdown_style(row.kind, "");
            return (StyledLine::single(text, style), StyledLine::single(text, style));
        },
    }
    let style = row_style(row.kind, text);
    if has_first(text, '-') && !has_prefix(text, "---") {
        (StyledLine::single(text, style), StyledLine::single("", Style::plain()))
    } else if has_first(text, '+') && !has_prefix(text, "+++") {
        (StyledLine::single("", Style::plain()), StyledLine::single(text, style))
    } else {
        (StyledLine::single(text, style), StyledLine::single(text, style))
    }
}

/// The titles of the columns of a diff that is shown side by side.
pub fn diff_titles() -> (titles: (&'static str, &'static str))
    ensures
        titles.0@ == " Diff · original "@,
        titles.1@ == " Diff · updated "@,
{
    (" Diff · original ", " Diff · updated ")
}

/// The two columns of a split diff.
pub fn split_diff(rows: &Vec<RenderRow>) -> (columns: (Vec<StyledLine>, Vec<StyledLine>))
    ensures
        item_contents(columns.0@) == original_column(row_contents(rows@)),
        item_contents(columns.1@) == updated_column(row_contents(rows@)),
{
    let mut left: Vec<StyledLine> = Vec::new();
    let mut right: Vec<StyledLine> = Vec::new();
    let ghost original = original_column(row_contents(rows@));
    let ghost updated = updated_column(row_contents(rows@));
    let mut i: usize = 0;
    assert(item_contents(left@) =~= original.take(0));
    assert(item_contents(right@) =~= updated.take(0));
    while i < rows.len()
        invariant
            i <= rows.len(),
            original == original_column(row_contents(rows@)),
            updated == updated_column(row_contents(rows@)),
            item_contents(left@) == original.take(i as int),
            item_contents(right@) == updated.take(i as int),
        decreases rows.len() - i,
    {
        assert(row_contents(rows@)[i as int] == rows@[i as int]@);
        let (before, after) = row_columns(&rows[i]);
        left.push(before);
        right.push(after);
        assert(item_contents(left@) =~= original.take(i + 1));
        assert(item_contents(right@) =~= updated.take(i + 1));
        i = i + 1;
    }
    assert(original.take(i as int) =~= original);
    assert(updated.take(i as int) =~= updated);
    (left, right)
}

/// The workspace in the information row, where there is room for it.
pub open spec fn footer_path(app: AppView, metrics: FooterMetrics) -> Option<Seq<char>> {
    let path = workspace_label(app.workspace_root, room(metrics.path_width as int, 3));
    if metrics.path_width > 0 && path.len() > 0 {
        Some(" · "@ + path)
    } else {
        None
    }
}

/// Where the parts of the information row are drawn: the agents, the workspace and the
/// mode.
pub open spec fn footer_layout(area: Area, metrics: FooterMetrics) -> (Area, Area, Area) {
    let x = if area.width > 2 {
        area.x + 1
    } else {
        area.x as int
    };
    (
        Area { x: x as u16, y: area.y, width: metrics.agent_width as u16, height: 1 },
        Area {
            x: (x + metrics.agent_width) as u16,
            y: area.y,
            width: metrics.path_width as u16,
            height: 1,
        },
        Area {
            x: (x + room(area.width as int, 2) - metrics.right_width) as u16,
            y: area.y,
            width: metrics.right_width as u16,
            height: 1,
        },
    )
}

impl App {
    /// The workspace in the information row, where there is room for it.
    pub fn footer_path_label(&self, metrics: &FooterMetrics) -> (label: Option<String>)
        ensures
            match label {
                Some(text) => footer_path(self@, *metrics) == Some(text@),
                None => footer_path(self@, *metrics) is None,
            },
    {
        if metrics.path_width == 0 {
            return None;
        }
        let space: usize = if metrics.path_width > 3 {
            metrics.path_width - 3
        } else {
            0
        };
        let path = compact_workspace_path(self.workspace_root.as_str(), space);
        if path.as_str().unicode_len() == 0 {
            return None;
        }
        let mut label = to_chars(" · ");
        append_text(&mut label, path.as_str());
        Some(to_text(&label))
    }

    /// The mode in the information row.
    pub fn footer_mode_text(&self, metrics: &FooterMetrics) -> (text: String)
        ensures
            text@ == cell_label(mode_label(self@), metrics.right_width as int),
    {
        compact_cell_label(self.footer_mode_label().as_str(), metrics.right_width)
    }

    /// Where the parts of the information row are drawn.
    pub fn footer_areas(&self, area: Area, now: u64) -> (areas: (Area, Area, Area))
        requires
            self.wf(),
            on_terminal(area),
        ensures
            areas == footer_layout(area, metrics_of(self@, area.width, now)),
    {
        let metrics = self.footer_metrics(area.width, now);
        let inside: u16 = if area.width > 2 {
            area.width - 2
        } else {
            0
        };
        let x: u16 = if area.width > 2 {
            area.x + 1
        } else {
            area.x
        };
        proof {
            crate::footer::law_footer_parts_fill_the_row(self@, area.width, now);
        }
        (
            Area { x, y: area.y, width: metrics.agent_width as u16, height: 1 },
            Area {
                x: x + metrics.agent_width as u16,
                y: area.y,
                width: metrics.path_width as u16,
                height: 1,
            },
            Area {
                x: x + (inside - metrics.right_width as u16),
                y: area.y,
                width: metrics.right_width as u16,
                height: 1,
            },
        )
    }
}

} // verus!
