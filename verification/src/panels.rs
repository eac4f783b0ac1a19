//! The panels as styled lines: settings, the agent store, queue, permission prompt, path
//! picker and keyboard help.

use crate::app::{App, AppView};
use crate::config::CONFIG_SETTING_COUNT;
use crate::encoding::{
    byte_len, char_bytes, lemma_byte_len_concat, lemma_byte_len_first, width_in_bytes,
};
use crate::labels::{compact, compact_label};
use crate::markdown::text_of;
use crate::order::{item_contents, lemma_item_contents_push};
use crate::path_index::{MatchView, PathMatch};
use crate::permission::{PermissionPrompt, PermissionView};
use crate::picker::is_open;
use crate::queue::{QueuedPrompt, QueuedView};
use crate::settings::{notification_label, Density, ToolExpandPolicy};
use crate::store::{StoreAgent, StoreAgentView, StorePanel, StoreView};
use crate::style::{
    accent, colored, focused, in_bold, piece, plain_style, selected_style, underlined, with_fg,
    Color, Piece, PieceView, Style, StyledLine, PRIMARY_TEXT,
};
use crate::text::{append_decimal, append_text, decimal, to_chars, to_text};
use crate::theme::theme_label;
use vstd::prelude::*;

verus! {

broadcast use lemma_item_contents_push;

/// A rectangle of terminal cells.
#[derive(Clone, Copy, Debug, Eq, PartialEq, Structural)]
pub struct Area {
    pub x: u16,
    pub y: u16,
    pub width: u16,
    pub height: u16,
}

/// The area lies on a terminal.
pub open spec fn on_terminal(area: Area) -> bool {
    area.x + area.width <= u16::MAX && area.y + area.height <= u16::MAX
}

/// A number between two bounds.
pub open spec fn bounded(n: int, low: int, high: int) -> int {
    if n < low {
        low
    } else if n > high {
        high
    } else {
        n
    }
}

/// The area of a panel in the middle of an area: its size is bounded, and it never
/// leaves the area.
pub open spec fn centered(area: Area, low_w: int, high_w: int, low_h: int, high_h: int) -> Area {
    let width = bounded(area.width as int, low_w, high_w);
    let height = bounded(area.height as int, low_h, high_h);
    let gap_x = if area.width > width {
        area.width - width
    } else {
        0
    };
    let gap_y = if area.height > height {
        area.height - height
    } else {
        0
    };
    Area {
        x: (area.x + gap_x / 2) as u16,
        y: (area.y + gap_y / 2) as u16,
        width: if width < area.width {
            width as u16
        } else {
            area.width
        },
        height: if height < area.height {
            height as u16
        } else {
            area.height
        },
    }
}

/// A panel lies within its area.
pub proof fn law_panels_stay_inside(area: Area, low_w: int, high_w: int, low_h: int, high_h: int)
    requires
        on_terminal(area),
        0 <= low_w <= high_w <= u16::MAX,
        0 <= low_h <= high_h <= u16::MAX,
    ensures
        ({
            let panel = centered(area, low_w, high_w, low_h, high_h);
            area.x <= panel.x && panel.x + panel.width <= area.x + area.width && area.y <= panel.y
                && panel.y + panel.height <= area.y + area.height
        }),
{
}

fn clamp(n: u16, low: u16, high: u16) -> (bounded_n: u16)
    requires
        low <= high,
    ensures
        bounded_n == bounded(n as int, low as int, high as int),
{
    if n < low {
        low
    } else if n > high {
        high
    } else {
        n
    }
}

/// The area of a panel in the middle of an area.
pub fn modal(area: Area, low_w: u16, high_w: u16, low_h: u16, high_h: u16) -> (panel: Area)
    requires
        on_terminal(area),
        low_w <= high_w,
        low_h <= high_h,
    ensures
        panel == centered(area, low_w as int, high_w as int, low_h as int, high_h as int),
{
    let width: u16 = clamp(area.width, low_w, high_w);
    let height: u16 = clamp(area.height, low_h, high_h);
    let gap_x: u16 = if area.width > width {
        area.width - width
    } else {
        0
    };
    let gap_y: u16 = if area.height > height {
        area.height - height
    } else {
        0
    };
    Area {
        x: area.x + gap_x / 2,
        y: area.y + gap_y / 2,
        width: if width < area.width {
            width
        } else {
            area.width
        },
        height: if height < area.height {
            height
        } else {
            area.height
        },
    }
}

/// Where the configuration panel is drawn.
pub open spec fn config_area(area: Area) -> Area {
    centered(area, 36, 76, 10, 24)
}

/// Where the agent store is drawn.
pub open spec fn store_area(area: Area) -> Area {
    centered(area, 44, 88, 10, 22)
}

/// Where the workspace directory is edited.
pub open spec fn directory_area(area: Area) -> Area {
    centered(area, 32, 80, 4, 8)
}

/// A text filled up with spaces to a width.
pub open spec fn padded(text: Seq<char>, width: int) -> Seq<char>
    decreases width - text.len(),
{
    if text.len() >= width {
        text
    } else {
        padded(text.push(' '), width)
    }
}

fn pad(text: &str, width: usize) -> (filled: String)
    ensures
        filled@ == padded(text@, width as int),
{
    let mut chars = to_chars(text);
    let ghost start = chars@;
    while chars.len() < width
        invariant
            padded(start, width as int) == padded(chars@, width as int),
        decreases width - chars@.len(),
    {
        chars.push(' ');
    }
    to_text(&chars)
}

/// On or off.
pub open spec fn switch(on: bool) -> Seq<char> {
    if on {
        "On"@
    } else {
        "Off"@
    }
}

/// A setting as it is shown: its label, its value, and whether it is drawn as one that
/// can be changed in place.
pub open spec fn setting_row(app: AppView, row: int) -> (Seq<char>, Seq<char>, bool) {
    let settings = app.settings;
    if row == 0 {
        ("Follow output"@, switch(app.follow_tail), true)
    } else if row == 1 {
        ("Collapse details"@, switch(settings.collapse_details), true)
    } else if row == 2 {
        ("Notifications"@, notification_label(settings.notification_policy), true)
    } else if row == 3 {
        ("Mode"@, settings.mode, false)
    } else if row == 4 {
        ("Collaboration"@, settings.collaboration, false)
    } else if row == 5 {
        (
            "Diff view"@,
            if settings.diff_split {
                "Split"@
            } else {
                "Unified"@
            },
            true,
        )
    } else if row == 6 {
        (
            "Thoughts"@,
            if settings.show_thoughts {
                "Visible"@
            } else {
                "Collapsed"@
            },
            true,
        )
    } else if row == 7 {
        (
            "Tool details"@,
            match settings.tool_expand_policy {
                ToolExpandPolicy::Fail => "On failure"@,
                ToolExpandPolicy::Always => "Always"@,
                ToolExpandPolicy::Never => "Never"@,
            },
            true,
        )
    } else if row == 8 {
        (
            "Density"@,
            match settings.density {
                Density::Comfortable => "Comfortable"@,
                Density::Compact => "Compact"@,
            },
            true,
        )
    } else if row == 9 {
        (
            "Scrollbar"@,
            if settings.show_scrollbar {
                "Normal"@
            } else {
                "Hidden"@
            },
            true,
        )
    } else if row == 10 {
        ("Sounds"@, switch(settings.sounds), true)
    } else if row == 11 {
        ("Blink title"@, switch(settings.blink_title), true)
    } else if row == 13 {
        ("Theme"@, theme_label(settings.theme), true)
    } else {
        ("Roster"@, "Enter toggles agents"@, false)
    }
}

/// The label of a setting in a narrow panel.
pub open spec fn short_label(row: int) -> Seq<char> {
    if row == 0 {
        "Follow"@
    } else if row == 1 {
        "Details"@
    } else if row == 2 {
        "Notify"@
    } else if row == 3 {
        "Mode"@
    } else if row == 4 {
        "Collab"@
    } else if row == 5 {
        "Diff"@
    } else if row == 6 {
        "Thoughts"@
    } else if row == 7 {
        "Tools"@
    } else if row == 8 {
        "Density"@
    } else if row == 9 {
        "Scroll"@
    } else if row == 10 {
        "Sound"@
    } else if row == 11 {
        "Blink"@
    } else if row == 13 {
        "Theme"@
    } else {
        "Roster"@
    }
}

/// The marker of a row.
pub open spec fn row_marker(selected: bool) -> Seq<char> {
    if selected {
        "▶"@
    } else {
        " "@
    }
}

/// The box of a row.
pub open spec fn row_box(checked: bool) -> Seq<char> {
    if checked {
        "☑"@
    } else {
        "☐"@
    }
}

/// The style of a row.
pub open spec fn row_text_style(selected: bool) -> Style {
    if selected {
        focused()
    } else {
        colored(PRIMARY_TEXT)
    }
}

/// A room less what is taken from it.
pub open spec fn room(width: int, taken: int) -> int {
    if width > taken {
        width - taken
    } else {
        0
    }
}

/// The line of a setting in a panel of a width.
pub open spec fn setting_line(app: AppView, row: int, width: int) -> Seq<PieceView> {
    let narrow = width < 60;
    let selected = row == app.config.selected;
    let (label, value, mutable) = setting_row(app, row);
    let label_width: int = if narrow {
        11
    } else {
        20
    };
    let value_width = room(
        width,
        label_width + if narrow {
            7int
        } else {
            9
        },
    );
    seq![
        piece(" "@ + row_marker(selected) + " "@, row_text_style(selected)),
        piece(
            padded(
                if narrow {
                    short_label(row)
                } else {
                    label
                },
                label_width,
            ),
            row_text_style(selected),
        ),
        piece(
            compact(value, value_width),
            colored(
                if mutable && selected {
                    accent()
                } else {
                    Color::Gray
                },
            ),
        ),
    ]
}

/// The line of a roster row in a panel of a width.
pub open spec fn roster_line(
    agent: StoreAgentView,
    selected: bool,
    width: int,
) -> Seq<PieceView> {
    let name = if width < 60 {
        compact(agent.name, 18)
    } else {
        agent.name
    };
    seq![
        piece(
            " "@ + row_marker(selected) + " "@ + row_box(agent.selected) + " "@,
            row_text_style(selected),
        ),
        piece(padded(name, 20), row_text_style(selected)),
        piece(
            " "@ + (if agent.available {
                "ready"@
            } else {
                "missing"@
            }) + " · "@ + agent.adapter,
            colored(
                if agent.available {
                    Color::Green
                } else {
                    Color::Yellow
                },
            ),
        ),
    ]
}

/// A row of the configuration panel.
pub open spec fn config_line(app: AppView, row: int, width: int) -> Seq<PieceView> {
    if row < CONFIG_SETTING_COUNT {
        setting_line(app, row, width)
    } else {
        roster_line(
            app.config.agents[row - CONFIG_SETTING_COUNT],
            row == app.config.selected,
            width,
        )
    }
}

/// The rows of the configuration panel between two places.
pub open spec fn config_lines_between(app: AppView, start: int, end: int, width: int) -> Seq<
    Seq<PieceView>,
> {
    Seq::new(
        if start < end {
            (end - start) as nat
        } else {
            0
        },
        |i: int| config_line(app, start + i, width),
    )
}

/// How many rows a configuration panel of a height shows: the border takes two, and
/// the header and the pinned actions two each.
pub open spec fn config_capacity(height: int) -> int {
    if room(height, 6) > 1 {
        room(height, 6)
    } else {
        1
    }
}

/// The first row that is shown, so that the focused one is.
pub open spec fn first_shown(selected: int, capacity: int, last: int) -> int {
    let wanted = room(selected, capacity - 1);
    if wanted < last {
        wanted
    } else {
        last
    }
}

/// The lines of the configuration panel.
pub open spec fn config_panel(app: AppView, panel: Area) -> Seq<Seq<PieceView>> {
    let width = panel.width as int;
    let total = CONFIG_SETTING_COUNT + app.config.agents.len();
    let capacity = config_capacity(panel.height as int);
    let start = first_shown(app.config.selected as int, capacity, total - 1);
    let end = if start + capacity < total {
        start + capacity
    } else {
        total
    };
    let actions = if width < 60 {
        " Ctrl+S Save · Esc Discard"@
    } else {
        " Ctrl+S Save · Esc Discard · Enter Change · ↑/↓ Navigate · Alt+↑/↓ Reorder"@
    };
    let footer = actions + "  ("@ + decimal((app.config.selected + 1) as nat) + "/"@ + decimal(
        total as nat,
    ) + ")"@;
    seq![
        seq![piece("Configuration"@, in_bold(colored(PRIMARY_TEXT)))],
        seq![piece(Seq::empty(), plain_style())],
    ] + config_lines_between(app, start, end, width) + seq![
        seq![piece(Seq::empty(), plain_style())],
        seq![piece(footer, colored(Color::Gray))],
    ]
}

/// The focused row of the configuration panel is among those that are shown.
pub proof fn law_focused_setting_is_shown(app: AppView, panel: Area)
    requires
        app.config.selected < CONFIG_SETTING_COUNT + app.config.agents.len(),
    ensures
        ({
            let total = CONFIG_SETTING_COUNT + app.config.agents.len();
            let capacity = config_capacity(panel.height as int);
            let start = first_shown(app.config.selected as int, capacity, total - 1);
            start <= app.config.selected < start + capacity
        }),
{
}

fn switch_text(on: bool) -> (text: &'static str)
    ensures
        text@ == switch(on),
{
    if on {
        "On"
    } else {
        "Off"
    }
}

fn marker_text(selected: bool) -> (text: &'static str)
    ensures
        text@ == row_marker(selected),
{
    if selected {
        "▶"
    } else {
        " "
    }
}

fn box_text(checked: bool) -> (text: &'static str)
    ensures
        text@ == row_box(checked),
{
    if checked {
        "☑"
    } else {
        "☐"
    }
}

fn style_of_row(selected: bool) -> (style: Style)
    ensures
        style == row_text_style(selected),
{
    if selected {
        selected_style()
    } else {
        Style::color(PRIMARY_TEXT)
    }
}

fn short_label_text(row: usize) -> (label: &'static str)
    ensures
        label@ == short_label(row as int),
{
    if row == 0 {
        "Follow"
    } else if row == 1 {
        "Details"
    } else if row == 2 {
        "Notify"
    } else if row == 3 {
        "Mode"
    } else if row == 4 {
        "Collab"
    } else if row == 5 {
        "Diff"
    } else if row == 6 {
        "Thoughts"
    } else if row == 7 {
        "Tools"
    } else if row == 8 {
        "Density"
    } else if row == 9 {
        "Scroll"
    } else if row == 10 {
        "Sound"
    } else if row == 11 {
        "Blink"
    } else if row == 13 {
        "Theme"
    } else {
        "Roster"
    }
}

fn checked_row(marker: bool, checked: bool) -> (text: String)
    ensures
        text@ == " "@ + row_marker(marker) + " "@ + row_box(checked) + " "@,
{
    let mut text = to_chars(" ");
    append_text(&mut text, marker_text(marker));
    append_text(&mut text, " ");
    append_text(&mut text, box_text(checked));
    append_text(&mut text, " ");
    to_text(&text)
}

fn line_of_three(first: Piece, second: Piece, third: Piece) -> (line: StyledLine)
    ensures
        line@ == seq![first@, second@, third@],
{
    let mut pieces: Vec<Piece> = Vec::new();
    pieces.push(first);
    pieces.push(second);
    pieces.push(third);
    let line = StyledLine { pieces };
    assert(line@ =~= seq![first@, second@, third@]);
    line
}

fn roster_row(agent: &StoreAgent, selected: bool, width: u16) -> (line: StyledLine)
    ensures
        line@ == roster_line(agent@, selected, width as int),
{
    let style = style_of_row(selected);
    let name = if width < 60 {
        compact_label(agent.name.as_str(), 18)
    } else {
        agent.name.clone()
    };
    let mut state = to_chars(" ");
    if agent.available {
        append_text(&mut state, "ready");
    } else {
        append_text(&mut state, "missing");
    }
    append_text(&mut state, " · ");
    append_text(&mut state, agent.adapter.as_str());
    let color = if agent.available {
        Color::Green
    } else {
        Color::Yellow
    };
    line_of_three(
        Piece::new(checked_row(selected, agent.selected).as_str(), style),
        Piece::new(pad(name.as_str(), 20).as_str(), style),
        Piece::new(to_text(&state).as_str(), Style::color(color)),
    )
}

impl App {
    fn setting_text(&self, row: usize) -> (texts: (&'static str, String, bool))
        ensures
            (texts.0@, texts.1@, texts.2) == setting_row(self@, row as int),
    {
        let settings = &self.settings;
        if row == 0 {
            ("Follow output", switch_text(self.follow_tail).to_owned(), true)
        } else if row == 1 {
            ("Collapse details", switch_text(settings.collapse_details).to_owned(), true)
        } else if row == 2 {
            ("Notifications", settings.notification_policy.label().to_owned(), true)
        } else if row == 3 {
            ("Mode", settings.mode.clone(), false)
        } else if row == 4 {
            ("Collaboration", settings.collaboration.clone(), false)
        } else if row == 5 {
            let value = if settings.diff_split {
                "Split"
            } else {
                "Unified"
            };
            ("Diff view", value.to_owned(), true)
        } else if row == 6 {
            let value = if settings.show_thoughts {
                "Visible"
            } else {
                "Collapsed"
            };
            ("Thoughts", value.to_owned(), true)
        } else if row == 7 {
            let value = match settings.tool_expand_policy {
                ToolExpandPolicy::Fail => "On failure",
                ToolExpandPolicy::Always => "Always",
                ToolExpandPolicy::Never => "Never",
            };
            ("Tool details", value.to_owned(), true)
        } else if row == 8 {
            let value = match settings.density {
                Density::Comfortable => "Comfortable",
                Density::Compact => "Compact",
            };
            ("Density", value.to_owned(), true)
        } else if row == 9 {
            let value = if settings.show_scrollbar {
                "Normal"
            } else {
                "Hidden"
            };
            ("Scrollbar", value.to_owned(), true)
        } else if row == 10 {
            ("Sounds", switch_text(settings.sounds).to_owned(), true)
        } else if row == 11 {
            ("Blink title", switch_text(settings.blink_title).to_owned(), true)
        } else if row == 13 {
            ("Theme", settings.theme.label().to_owned(), true)
        } else {
            ("Roster", "Enter toggles agents".to_owned(), false)
        }
    }

    fn setting_row(&self, row: usize, width: u16) -> (line: StyledLine)
        ensures
            line@ == setting_line(self@, row as int, width as int),
    {
        let narrow = width < 60;
        let selected = row == self.config.selected;
        let (label, value, mutable) = self.setting_text(row);
        let label_width: usize = if narrow {
            11
        } else {
            20
        };
        let taken: usize = if narrow {
            label_width + 7
        } else {
            label_width + 9
        };
        let value_width: usize = if width as usize > taken {
            width as usize - taken
        } else {
            0
        };
        let shown = if narrow {
            short_label_text(row)
        } else {
            label
        };
        let mut marker = to_chars(" ");
        append_text(&mut marker, marker_text(selected));
        append_text(&mut marker, " ");
        let color = if mutable && selected {
            accent()
        } else {
            Color::Gray
        };
        let style = style_of_row(selected);
        line_of_three(
            Piece::new(to_text(&marker).as_str(), style),
            Piece::new(pad(shown, label_width).as_str(), style),
            Piece::new(compact_label(value.as_str(), value_width).as_str(), Style::color(color)),
        )
    }

    /// The lines of the configuration panel.
    pub fn config_lines(&self, panel: Area) -> (lines: Vec<StyledLine>)
        requires
            self.wf(),
            self@.config.visible,
        ensures
            item_contents(lines@) == config_panel(self@, panel),
    {
            let width: u16 = panel.width;
        let total: usize = CONFIG_SETTING_COUNT + self.config.agents.len();
        assert(self@.config.agents.len() == self.config.agents.len());
        let capacity: usize = if panel.height > 7 {
            (panel.height - 6) as usize
        } else {
            1
        };
        let selected: usize = self.config.selected;
        let wanted: usize = if selected > capacity - 1 {
            selected - (capacity - 1)
        } else {
            0
        };
        let start: usize = if wanted < total - 1 {
            wanted
        } else {
            total - 1
        };
        let end: usize = if capacity < total - start {
            start + capacity
        } else {
            total
        };
        let mut lines: Vec<StyledLine> = Vec::new();
        lines.push(StyledLine::single("Configuration", Style::color(PRIMARY_TEXT).bold()));
        lines.push(blank_line());
        let ghost head = seq![
            seq![piece("Configuration"@, in_bold(colored(PRIMARY_TEXT)))],
            seq![piece(Seq::empty(), plain_style())],
        ];
        assert(item_contents(lines@) =~= head);
        let mut row: usize = start;
        assert(config_lines_between(self@, start as int, start as int, width as int) =~= Seq::empty());
        assert(item_contents(lines@) =~= head + config_lines_between(
            self@,
            start as int,
            row as int,
            width as int,
        ));
        while row < end
            invariant
                self.wf(),
                start <= row <= end <= total,
                total == CONFIG_SETTING_COUNT + self.config.agents.len(),
                item_contents(lines@) == head + config_lines_between(
                    self@,
                    start as int,
                    row as int,
                    width as int,
                ),
            decreases end - row,
        {
            let line = if row < CONFIG_SETTING_COUNT {
                self.setting_row(row, width)
            } else {
                let index: usize = row - CONFIG_SETTING_COUNT;
                assert(self@.config.agents[index as int] == self.config.agents@[index as int]@);
                roster_row(&self.config.agents[index], row == self.config.selected, width)
            };
            let ghost before = item_contents(lines@);
            lines.push(line);
            proof {
                let shown = config_lines_between(
                    self@,
                    start as int,
                    row as int,
                    width as int,
                );
                let more = config_lines_between(self@, start as int, row + 1, width as int);
                assert(more =~= shown.push(config_line(self@, row as int, width as int)));
                assert(item_contents(lines@) =~= head + more);
            }
            row = row + 1;
        }
        let ghost before = item_contents(lines@);
        lines.push(blank_line());
        let mut footer = if width < 60 {
            to_chars(" Ctrl+S Save · Esc Discard")
        } else {
            to_chars(
                " Ctrl+S Save · Esc Discard · Enter Change · ↑/↓ Navigate · Alt+↑/↓ Reorder",
            )
        };
        append_text(&mut footer, "  (");
        append_count(&mut footer, selected);
        append_text(&mut footer, "/");
        append_decimal(&mut footer, total as u64);
        append_text(&mut footer, ")");
        lines.push(StyledLine::single(to_text(&footer).as_str(), Style::color(Color::Gray)));
        assert(item_contents(lines@) =~= config_panel(self@, panel));
        lines
    }
}

/// Appends a place counted from one.
fn append_count(text: &mut Vec<char>, place: usize)
    requires
        place < usize::MAX,
    ensures
        final(text)@ == old(text)@ + decimal((place + 1) as nat),
{
    append_decimal(text, (place + 1) as u64);
}

/// The area inside a border.
pub open spec fn within_border(area: Area) -> Area {
    Area {
        x: (area.x + 1) as u16,
        y: (area.y + 1) as u16,
        width: room(area.width as int, 2) as u16,
        height: room(area.height as int, 2) as u16,
    }
}

/// Where the configuration panel is drawn.
pub fn config_modal(area: Area) -> (panel: Area)
    requires
        on_terminal(area),
    ensures
        panel == config_area(area),
{
    modal(area, 36, 76, 10, 24)
}

/// Where the agent store is drawn.
pub fn store_modal(area: Area) -> (panel: Area)
    requires
        on_terminal(area),
    ensures
        panel == store_area(area),
{
    modal(area, 44, 88, 10, 22)
}

/// Where the workspace directory is edited.
pub fn directory_modal(area: Area) -> (panel: Area)
    requires
        on_terminal(area),
    ensures
        panel == directory_area(area),
{
    modal(area, 32, 80, 4, 8)
}

/// The area inside a border.
pub fn inner(area: Area) -> (inside: Area)
    requires
        area.x < u16::MAX,
        area.y < u16::MAX,
    ensures
        inside == within_border(area),
{
    Area {
        x: area.x + 1,
        y: area.y + 1,
        width: if area.width > 2 {
            area.width - 2
        } else {
            0
        },
        height: if area.height > 2 {
            area.height - 2
        } else {
            0
        },
    }
}

fn blank_line() -> (line: StyledLine)
    ensures
        line@ == seq![piece(Seq::empty(), plain_style())],
{
    proof {
        reveal_strlit("");
        assert(""@ =~= Seq::empty());
    }
    StyledLine::single("", Style::plain())
}

/// The line of a row of the agent store.
pub open spec fn store_line(
    agent: StoreAgentView,
    selected: bool,
    narrow: bool,
) -> Seq<PieceView> {
    let state = colored(
        if agent.available {
            Color::Green
        } else {
            Color::Yellow
        },
    );
    let mark = piece(
        " "@ + row_marker(selected) + " "@ + row_box(agent.selected) + " "@,
        row_text_style(selected),
    );
    if narrow {
        seq![
            mark,
            piece(padded(compact(agent.name, 18), 18), row_text_style(selected)),
            piece(
                if agent.available {
                    " ready"@
                } else {
                    " missing"@
                },
                state,
            ),
        ]
    } else {
        seq![
            mark,
            piece(padded(agent.name, 20), row_text_style(selected)),
            piece(
                " "@ + padded(
                    if agent.available {
                        "ready"@
                    } else {
                        "not found"@
                    },
                    9,
                ) + " "@ + agent.adapter,
                state,
            ),
        ]
    }
}

fn store_row(agent: &StoreAgent, selected: bool, narrow: bool) -> (line: StyledLine)
    ensures
        line@ == store_line(agent@, selected, narrow),
{
    let style = style_of_row(selected);
    let mark = Piece::new(checked_row(selected, agent.selected).as_str(), style);
    let color = if agent.available {
        Color::Green
    } else {
        Color::Yellow
    };
    if narrow {
        let name = pad(compact_label(agent.name.as_str(), 18).as_str(), 18);
        let state = if agent.available {
            " ready"
        } else {
            " missing"
        };
        line_of_three(
            mark,
            Piece::new(name.as_str(), style),
            Piece::new(state, Style::color(color)),
        )
    } else {
        let mut state = to_chars(" ");
        let availability = if agent.available {
            "ready"
        } else {
            "not found"
        };
        append_text(&mut state, pad(availability, 9).as_str());
        append_text(&mut state, " ");
        append_text(&mut state, agent.adapter.as_str());
        line_of_three(
            mark,
            Piece::new(pad(agent.name.as_str(), 20).as_str(), style),
            Piece::new(to_text(&state).as_str(), Style::color(color)),
        )
    }
}

/// The lines above the rows of the agent store.
pub open spec fn store_header(store: StoreView, narrow: bool) -> Seq<Seq<PieceView>> {
    let title = if narrow {
        "Agents"@
    } else {
        "Choose your agents"@
    };
    let keys = if narrow {
        "Ctrl+D dir · Ctrl+S save · Enter run"@
    } else {
        "Space select · Ctrl+D dir · Ctrl+S save · Enter launch · Esc quit"@
    };
    let directory = " "@ + (if narrow {
        "Dir: "@
    } else {
        "Workspace: "@
    }) + compact(
        store.directory,
        if narrow {
            24
        } else {
            64
        },
    );
    let top = seq![
        seq![piece(title, in_bold(colored(PRIMARY_TEXT)))],
        seq![piece(keys, colored(Color::Gray))],
        seq![piece(directory, colored(Color::Gray))],
    ];
    let gap = if narrow {
        Seq::empty()
    } else {
        seq![seq![piece(Seq::empty(), plain_style())]]
    };
    let status = if store.status.len() > 0 {
        seq![seq![piece(" "@ + store.status, colored(Color::Green))]]
    } else {
        Seq::empty()
    };
    top + gap + status
}

/// How many rows the agent store shows.
pub open spec fn store_capacity(height: int, header: int) -> int {
    if room(room(height, 2), header) > 1 {
        room(room(height, 2), header)
    } else {
        1
    }
}

/// The first row of the agent store that is shown.
pub open spec fn first_agent_shown(selected: int, capacity: int, count: int) -> int {
    first_shown(selected, capacity, room(count, capacity))
}

/// The rows of the agent store between two places.
pub open spec fn store_lines_between(
    store: StoreView,
    start: int,
    end: int,
    narrow: bool,
) -> Seq<Seq<PieceView>> {
    Seq::new(
        if start < end {
            (end - start) as nat
        } else {
            0
        },
        |i: int| store_line(store.agents[start + i], start + i == store.selected, narrow),
    )
}

/// The lines of the agent store.
pub open spec fn store_panel(store: StoreView, panel: Area) -> Seq<Seq<PieceView>> {
    let narrow = panel.width < 60;
    let header = store_header(store, narrow);
    let capacity = store_capacity(panel.height as int, header.len() as int);
    let count = store.agents.len() as int;
    let start = first_agent_shown(store.selected as int, capacity, count);
    let end = if start + capacity < count {
        start + capacity
    } else {
        count
    };
    header + store_lines_between(store, start, end, narrow)
}

/// The focused row of the agent store is among those that are shown.
pub proof fn law_focused_agent_is_shown(store: StoreView, panel: Area)
    requires
        store.selected < store.agents.len(),
    ensures
        ({
            let header = store_header(store, panel.width < 60);
            let capacity = store_capacity(panel.height as int, header.len() as int);
            let start = first_agent_shown(
                store.selected as int,
                capacity,
                store.agents.len() as int,
            );
            start <= store.selected < start + capacity
        }),
{
}

fn store_heading(store: &StorePanel, narrow: bool) -> (lines: Vec<StyledLine>)
    ensures
        item_contents(lines@) == store_header(store@, narrow),
        lines@.len() <= 5,
{
    let gray = Style::color(Color::Gray);
    let title = if narrow {
        "Agents"
    } else {
        "Choose your agents"
    };
    let keys = if narrow {
        "Ctrl+D dir · Ctrl+S save · Enter run"
    } else {
        "Space select · Ctrl+D dir · Ctrl+S save · Enter launch · Esc quit"
    };
    let mut directory = to_chars(" ");
    append_text(
        &mut directory,
        if narrow {
            "Dir: "
        } else {
            "Workspace: "
        },
    );
    let room: usize = if narrow {
        24
    } else {
        64
    };
    append_text(&mut directory, compact_label(store.directory(), room).as_str());
    let mut lines: Vec<StyledLine> = Vec::new();
    lines.push(StyledLine::single(title, Style::color(PRIMARY_TEXT).bold()));
    lines.push(StyledLine::single(keys, gray));
    lines.push(StyledLine::single(to_text(&directory).as_str(), gray));
    if !narrow {
        lines.push(blank_line());
    }
    if store.status().unicode_len() > 0 {
        let mut status = to_chars(" ");
        append_text(&mut status, store.status());
        lines.push(StyledLine::single(to_text(&status).as_str(), Style::color(Color::Green)));
    }
    assert(item_contents(lines@) =~= store_header(store@, narrow));
    lines
}

/// The lines of the agent store.
pub fn store_lines(store: &StorePanel, panel: Area) -> (lines: Vec<StyledLine>)
    requires
        store.wf(),
    ensures
        item_contents(lines@) == store_panel(store@, panel),
{
    let narrow = panel.width < 60;
    let mut lines = store_heading(store, narrow);
    let ghost header = item_contents(lines@);
    let inside: usize = if panel.height > 2 {
        (panel.height - 2) as usize
    } else {
        0
    };
    let capacity: usize = if inside > lines.len() && inside - lines.len() > 1 {
        inside - lines.len()
    } else {
        1
    };
    let agents = store.agents();
    let count: usize = agents.len();
    assert(store@.agents.len() == count);
    let selected: usize = store.selected();
    let wanted: usize = if selected > capacity - 1 {
        selected - (capacity - 1)
    } else {
        0
    };
    let last: usize = if count > capacity {
        count - capacity
    } else {
        0
    };
    let start: usize = if wanted < last {
        wanted
    } else {
        last
    };
    let end: usize = if capacity < count - start {
        start + capacity
    } else {
        count
    };
    let mut row: usize = start;
    assert(store_lines_between(store@, start as int, start as int, narrow) =~= Seq::empty());
    assert(header =~= header + store_lines_between(store@, start as int, row as int, narrow));
    while row < end
        invariant
            start <= row <= end <= count,
            agents@.len() == count,
            item_contents(agents@) == store@.agents,
            selected == store@.selected,
            item_contents(lines@) == header + store_lines_between(
                store@,
                start as int,
                row as int,
                narrow,
            ),
        decreases end - row,
    {
        assert(store@.agents[row as int] == agents@[row as int]@);
        let ghost before = lines@;
        lines.push(store_row(&agents[row], row == selected, narrow));
        proof {
            let shown = store_lines_between(store@, start as int, row as int, narrow);
            let more = store_lines_between(store@, start as int, row + 1, narrow);
            assert(more =~= shown.push(
                store_line(store@.agents[row as int], row == store@.selected, narrow),
            ));
            assert(item_contents(lines@) =~= header + more);
        }
        row = row + 1;
    }
    lines
}

/// Whom a waiting prompt is for.
pub open spec fn queue_target(target: Option<usize>) -> Seq<char> {
    match target {
        Some(slot) => "agent "@ + decimal(slot as nat),
        None => "next"@,
    }
}

/// The line of a waiting prompt.
pub open spec fn queue_line(queued: QueuedView, selected: bool) -> Seq<PieceView> {
    seq![
        piece(
            " "@ + row_marker(selected) + " "@ + (if queued.direct {
                "direct"@
            } else {
                "queued"@
            }) + " → "@ + queue_target(queued.target) + ": "@,
            row_text_style(selected),
        ),
        piece(queued.prompt, row_text_style(selected)),
    ]
}

/// How many waiting prompts are shown.
pub open spec fn queue_shown(count: nat) -> nat {
    if count < 6 {
        count
    } else {
        6
    }
}

/// The lines of the queue.
pub open spec fn queue_panel(app: AppView) -> Seq<Seq<PieceView>> {
    let queue = app.queue;
    seq![
        seq![
            piece(
                " queue ("@ + decimal(queue.prompts.len())
                    + ") · Alt+↑/↓ select · Ctrl+K cancel"@,
                colored(Color::Gray),
            ),
        ],
    ] + Seq::new(
        queue_shown(queue.prompts.len()),
        |i: int| queue_line(queue.prompts[i], queue.selected == Some(i as usize)),
    )
}

fn line_of_two(first: Piece, second: Piece) -> (line: StyledLine)
    ensures
        line@ == seq![first@, second@],
{
    let mut pieces: Vec<Piece> = Vec::new();
    pieces.push(first);
    pieces.push(second);
    let line = StyledLine { pieces };
    assert(line@ =~= seq![first@, second@]);
    line
}

fn queue_row(queued: &QueuedPrompt, selected: bool) -> (line: StyledLine)
    ensures
        line@ == queue_line(queued@, selected),
{
    let style = style_of_row(selected);
    let mut text = to_chars(" ");
    append_text(&mut text, marker_text(selected));
    append_text(&mut text, " ");
    append_text(
        &mut text,
        if queued.direct {
            "direct"
        } else {
            "queued"
        },
    );
    append_text(&mut text, " → ");
    let ghost before = text@;
    match queued.target {
        Some(slot) => {
            append_text(&mut text, "agent ");
            append_decimal(&mut text, slot as u64);
            assert(text@ =~= before + queue_target(queued.target));
        },
        None => {
            append_text(&mut text, "next");
        },
    }
    append_text(&mut text, ": ");
    line_of_two(
        Piece::new(to_text(&text).as_str(), style),
        Piece::new(queued.prompt.as_str(), style),
    )
}

impl App {
    /// The lines of the queue.
    pub fn queue_lines(&self) -> (lines: Vec<StyledLine>)
        ensures
            item_contents(lines@) == queue_panel(self@),
    {
            let prompts = self.queue.prompts();
        let count: usize = prompts.len();
        assert(self@.queue.prompts.len() == count);
        let shown: usize = if count < 6 {
            count
        } else {
            6
        };
        let mut text = to_chars(" queue (");
        append_decimal(&mut text, count as u64);
        append_text(&mut text, ") · Alt+↑/↓ select · Ctrl+K cancel");
        let mut lines: Vec<StyledLine> = Vec::new();
        lines.push(StyledLine::single(to_text(&text).as_str(), Style::color(Color::Gray)));
        let selected = self.queue.selected();
        let mut index: usize = 0;
        let ghost wanted = queue_panel(self@);
        while index < shown
            invariant
                index <= shown <= count,
                prompts@.len() == count,
                shown == queue_shown(count as nat),
                item_contents(prompts@) == self@.queue.prompts,
                selected == self@.queue.selected,
                wanted == queue_panel(self@),
                wanted.len() == shown + 1,
                item_contents(lines@) == wanted.take(index + 1),
            decreases shown - index,
        {
            let chosen = match selected {
                Some(place) => place == index,
                None => false,
            };
            assert(self@.queue.prompts[index as int] == prompts@[index as int]@);
            lines.push(queue_row(&prompts[index], chosen));
            assert(item_contents(lines@) =~= wanted.take(index + 2));
            index = index + 1;
        }
        assert(wanted.take(index + 1) =~= wanted);
        lines
    }
}

/// The lines of the keyboard help.
pub open spec fn help_panel() -> Seq<Seq<char>> {
    seq![
        " Help · Esc / F1 / ? close · /help toggles"@,
        " Scroll: wheel or PgUp/PgDn · Ctrl+↑/↓ fine · End follow tail"@,
        " Input: Enter send · Shift+Enter newline · Tab complete"@,
        " Turn: Ctrl+Enter direct · Ctrl+C cancel · Ctrl+K cancel queued"@,
        " Agents: /agents /add /to SLOT /reload /drop /promote /swap"@,
        " Session: /config /mode /collab /clear /export /diff /select /close"@,
    ]
}

/// The lines of the keyboard help.
pub fn keyboard_help_lines() -> (lines: Vec<&'static str>)
    ensures
        item_contents(lines@) == help_panel(),
{
    let lines = vec![
        " Help · Esc / F1 / ? close · /help toggles",
        " Scroll: wheel or PgUp/PgDn · Ctrl+↑/↓ fine · End follow tail",
        " Input: Enter send · Shift+Enter newline · Tab complete",
        " Turn: Ctrl+Enter direct · Ctrl+C cancel · Ctrl+K cancel queued",
        " Agents: /agents /add /to SLOT /reload /drop /promote /swap",
        " Session: /config /mode /collab /clear /export /diff /select /close",
    ];
    assert(item_contents(lines@) =~= help_panel());
    lines
}

/// The line of an option of a permission request.
pub open spec fn option_line(option: Seq<char>, index: int, selected: bool) -> Seq<PieceView> {
    seq![
        piece(
            " "@ + row_marker(selected) + " "@ + decimal((index + 1) as nat) + ". "@,
            row_text_style(selected),
        ),
        piece(option, row_text_style(selected)),
    ]
}

/// The lines of a permission request.
pub open spec fn permission_panel(request: PermissionView) -> Seq<Seq<PieceView>> {
    let title = seq![
        seq![
            piece(" permission: "@, in_bold(colored(Color::Yellow))),
            piece(request.title, colored(PRIMARY_TEXT)),
        ],
    ];
    if request.options.len() == 0 {
        title.push(seq![piece(" no options · Esc to cancel"@, colored(Color::Gray))])
    } else {
        title + Seq::new(
            request.options.len(),
            |i: int| option_line(request.options[i], i, i == request.selected),
        )
    }
}

fn option_row(option: &str, index: usize, selected: bool) -> (line: StyledLine)
    requires
        index < usize::MAX,
    ensures
        line@ == option_line(option@, index as int, selected),
{
    let style = style_of_row(selected);
    let mut text = to_chars(" ");
    append_text(&mut text, marker_text(selected));
    append_text(&mut text, " ");
    append_count(&mut text, index);
    append_text(&mut text, ". ");
    line_of_two(Piece::new(to_text(&text).as_str(), style), Piece::new(option, style))
}

/// The lines of a permission request.
pub fn permission_lines(request: &PermissionPrompt) -> (lines: Vec<StyledLine>)
    ensures
        item_contents(lines@) == permission_panel(request@),
{
    let mut lines: Vec<StyledLine> = Vec::new();
    lines.push(
        line_of_two(
            Piece::new(" permission: ", Style::color(Color::Yellow).bold()),
            Piece::new(request.asked(), Style::color(PRIMARY_TEXT)),
        ),
    );
    let count: usize = request.option_count();
    let ghost wanted = permission_panel(request@);
    assert(item_contents(lines@) =~= wanted.take(1));
    if count == 0 {
        lines.push(
            StyledLine::single(" no options · Esc to cancel", Style::color(Color::Gray)),
        );
        assert(item_contents(lines@) =~= wanted);
        return lines;
    }
    let selected: usize = request.selected_index();
    let mut index: usize = 0;
    while index < count
        invariant
            0 < count,
            index <= count,
            count == request@.options.len(),
            selected == request@.selected,
            wanted == permission_panel(request@),
            item_contents(lines@) == wanted.take(index + 1),
        decreases count - index,
    {
        lines.push(option_row(request.option(index), index, index == selected));
        assert(item_contents(lines@) =~= wanted.take(index + 2));
        index = index + 1;
    }
    assert(wanted.take(index + 1) =~= wanted);
    lines
}

/// The style of a path that is offered.
pub open spec fn path_style(selected: bool) -> Style {
    if selected {
        focused()
    } else {
        colored(accent())
    }
}

/// The style of the characters of a path that matched the query.
pub open spec fn matched_style(selected: bool) -> Style {
    if selected {
        underlined(path_style(true))
    } else {
        in_bold(with_fg(path_style(false), Color::Yellow))
    }
}

/// The style of a character of a path. Offsets are in bytes.
pub open spec fn style_at(path: Seq<char>, offsets: Seq<usize>, selected: bool, i: int) -> Style {
    if exists|k: int| 0 <= k < offsets.len() && #[trigger] offsets[k] == byte_len(path.take(i)) {
        matched_style(selected)
    } else {
        path_style(selected)
    }
}

/// The first characters of a path, those of one style in a row taken together.
pub open spec fn match_runs(
    path: Seq<char>,
    offsets: Seq<usize>,
    selected: bool,
    n: int,
) -> Seq<PieceView>
    decreases n,
{
    if n <= 0 {
        Seq::empty()
    } else {
        let before = match_runs(path, offsets, selected, n - 1);
        let style = style_at(path, offsets, selected, n - 1);
        if before.len() > 0 && before.last().style == style {
            before.drop_last().push(piece(before.last().text.push(path[n - 1]), style))
        } else {
            before.push(piece(seq![path[n - 1]], style))
        }
    }
}

/// Marking what matched leaves every character of the path in its place.
pub proof fn law_marked_paths_stay_whole(
    path: Seq<char>,
    offsets: Seq<usize>,
    selected: bool,
    n: int,
)
    requires
        0 <= n <= path.len(),
    ensures
        text_of(match_runs(path, offsets, selected, n)) == path.take(n),
    decreases n,
{
    if n > 0 {
        law_marked_paths_stay_whole(path, offsets, selected, n - 1);
        let before = match_runs(path, offsets, selected, n - 1);
        let runs = match_runs(path, offsets, selected, n);
        let style = style_at(path, offsets, selected, n - 1);
        assert(path.take(n) =~= path.take(n - 1).push(path[n - 1]));
        if before.len() > 0 && before.last().style == style {
            assert(runs.drop_last() =~= before.drop_last());
            assert(text_of(runs) =~= text_of(before).push(path[n - 1]));
        } else {
            assert(runs.drop_last() =~= before);
            assert(text_of(runs) =~= text_of(before).push(path[n - 1]));
        }
    } else {
        assert(path.take(n) =~= Seq::empty());
    }
}

fn among(offsets: &Vec<usize>, place: usize) -> (yes: bool)
    ensures
        yes == exists|k: int| 0 <= k < offsets@.len() && #[trigger] offsets@[k] == place,
{
    let mut i: usize = 0;
    while i < offsets.len()
        invariant
            i <= offsets.len(),
            forall|k: int| 0 <= k < i ==> offsets@[k] != place,
        decreases offsets.len() - i,
    {
        if offsets[i] == place {
            return true;
        }
        i = i + 1;
    }
    false
}

/// A path with the characters that matched the query marked.
pub fn path_match_spans(path: &str, offsets: &Vec<usize>, selected: bool) -> (pieces: Vec<Piece>)
    ensures
        item_contents(pieces@) == match_runs(path@, offsets@, selected, path@.len() as int),
{
    let base = if selected {
        selected_style()
    } else {
        Style::color(accent())
    };
    let matched = if selected {
        base.underline()
    } else {
        base.fg(Color::Yellow).bold()
    };
    let chars = to_chars(path);
    let mut pieces: Vec<Piece> = Vec::new();
    let mut segment: Vec<char> = Vec::new();
    let mut segment_style = base;
    let mut place: Option<usize> = Some(0);
    let mut i: usize = 0;
    assert(path@.take(0) =~= Seq::empty());
    while i < chars.len()
        invariant
            i <= chars.len(),
            chars@ == path@,
            base == path_style(selected),
            matched == matched_style(selected),
            match place {
                Some(at) => at == byte_len(path@.take(i as int)),
                None => byte_len(path@.take(i as int)) > usize::MAX,
            },
            i == 0 ==> segment@.len() == 0 && pieces@.len() == 0,
            i > 0 ==> segment@.len() > 0 && match_runs(path@, offsets@, selected, i as int)
                == item_contents(pieces@).push(piece(segment@, segment_style)),
        decreases chars.len() - i,
    {
        let marked = match place {
            Some(at) => among(offsets, at),
            None => false,
        };
        let style = if marked {
            matched
        } else {
            base
        };
        let ghost before = item_contents(pieces@);
        let ghost runs = match_runs(path@, offsets@, selected, i as int);
        assert(style == style_at(path@, offsets@, selected, i as int));
        if i > 0 && style != segment_style {
            pieces.push(Piece::new(to_text(&segment).as_str(), segment_style));
            segment = Vec::new();
        }
        segment_style = style;
        let ghost held = segment@;
        segment.push(chars[i]);
        proof {
            if i > 0 {
                assert(runs.last() == piece(runs.last().text, runs.last().style));
                assert(runs.drop_last() =~= before);
            }
            assert(held.len() == 0 ==> held.push(path@[i as int]) =~= seq![path@[i as int]]);
            assert(path@.take(i + 1) =~= path@.take(i as int).push(path@[i as int]));
            lemma_byte_len_push(path@.take(i as int), path@[i as int]);
        }
        place = match place {
            Some(at) => at.checked_add(width_in_bytes(chars[i])),
            None => None,
        };
        i = i + 1;
    }
    if chars.len() > 0 {
        pieces.push(Piece::new(to_text(&segment).as_str(), segment_style));
    }
    pieces
}

proof fn lemma_byte_len_push(text: Seq<char>, c: char)
    ensures
        byte_len(text.push(c)) == byte_len(text) + char_bytes(c),
        char_bytes(c) >= 1,
{
    lemma_byte_len_concat(text, seq![c]);
    lemma_byte_len_first(seq![c]);
    assert(text + seq![c] =~= text.push(c));
    assert(seq![c].drop_first() =~= Seq::empty());
}

/// A path as it is offered.
pub open spec fn offered_path(candidate: MatchView, width: int) -> Seq<char> {
    compact(
        candidate.path + (if candidate.directory {
            "/"@
        } else {
            Seq::empty()
        }),
        room(width, 6),
    )
}

/// The line of a path that is offered.
pub open spec fn path_line(candidate: MatchView, selected: bool, width: int) -> Seq<PieceView> {
    let path = offered_path(candidate, width);
    seq![piece(" "@ + row_marker(selected) + " "@, path_style(selected))] + match_runs(
        path,
        candidate.offsets,
        selected,
        path.len() as int,
    )
}

/// How many paths are shown.
pub open spec fn paths_shown(count: nat) -> nat {
    if count < 5 {
        count
    } else {
        5
    }
}

/// The lines of the path picker.
pub open spec fn picker_panel(app: AppView, width: int) -> Seq<Seq<PieceView>> {
    let picker = app.picker;
    if !is_open(picker) {
        Seq::empty()
    } else {
        seq![
            seq![
                piece(
                    " "@ + compact(picker.query, room(width, 36)) + " · "@ + decimal(
                        picker.matches.len(),
                    ) + " paths · Enter select · Esc close"@,
                    colored(Color::Gray),
                ),
            ],
        ] + Seq::new(
            paths_shown(picker.matches.len()),
            |i: int| path_line(picker.matches[i], i == picker.selection, width),
        )
    }
}

fn path_row(candidate: &PathMatch, selected: bool, width: u16) -> (line: StyledLine)
    ensures
        line@ == path_line(candidate@, selected, width as int),
{
    let style = if selected {
        selected_style()
    } else {
        Style::color(accent())
    };
    let mut path = to_chars(candidate.path.as_str());
    if candidate.directory {
        append_text(&mut path, "/");
    }
    assert(path@ =~= candidate@.path + (if candidate.directory {
        "/"@
    } else {
        Seq::empty()
    }));
    let space: usize = if width > 6 {
        (width - 6) as usize
    } else {
        0
    };
    let label = compact_label(to_text(&path).as_str(), space);
    let mut mark = to_chars(" ");
    append_text(&mut mark, marker_text(selected));
    append_text(&mut mark, " ");
    let mut spans = path_match_spans(label.as_str(), &candidate.offsets, selected);
    let ghost runs = item_contents(spans@);
    let mut pieces: Vec<Piece> = Vec::new();
    pieces.push(Piece::new(to_text(&mark).as_str(), style));
    let ghost lead = pieces@;
    let ghost rest = spans@;
    pieces.append(&mut spans);
    proof {
        assert(item_contents(pieces@) =~= item_contents(lead) + item_contents(rest));
        assert(item_contents(lead) =~= seq![
            piece(" "@ + row_marker(selected) + " "@, path_style(selected)),
        ]);
    }
    StyledLine { pieces }
}

impl App {
    /// The lines of the path picker in an area of a width.
    pub fn path_picker_lines(&self, width: u16) -> (lines: Vec<StyledLine>)
        ensures
            item_contents(lines@) == picker_panel(self@, width as int),
    {
            let mut lines: Vec<StyledLine> = Vec::new();
        let ghost wanted = picker_panel(self@, width as int);
        if !self.picker.visible() {
            assert(item_contents(lines@) =~= wanted);
            return lines;
        }
        let matches = self.picker.matches();
        let count: usize = matches.len();
        assert(self@.picker.matches.len() == count);
        let shown: usize = if count < 5 {
            count
        } else {
            5
        };
        let space: usize = if width > 36 {
            (width - 36) as usize
        } else {
            0
        };
        let mut text = to_chars(" ");
        append_text(&mut text, compact_label(self.picker.query(), space).as_str());
        append_text(&mut text, " · ");
        append_decimal(&mut text, count as u64);
        append_text(&mut text, " paths · Enter select · Esc close");
        lines.push(StyledLine::single(to_text(&text).as_str(), Style::color(Color::Gray)));
        let selection: usize = self.picker.selection();
        let mut index: usize = 0;
        assert(item_contents(lines@) =~= wanted.take(1));
        while index < shown
            invariant
                index <= shown <= count,
                matches@.len() == count,
                shown == paths_shown(count as nat),
                is_open(self@.picker),
                item_contents(matches@) == self@.picker.matches,
                selection == self@.picker.selection,
                wanted == picker_panel(self@, width as int),
                item_contents(lines@) == wanted.take(index + 1),
            decreases shown - index,
        {
            assert(self@.picker.matches[index as int] == matches@[index as int]@);
            lines.push(path_row(&matches[index], index == selection, width));
            assert(item_contents(lines@) =~= wanted.take(index + 2));
            index = index + 1;
        }
        assert(wanted.take(index + 1) =~= wanted);
        lines
    }
}

} // verus!
