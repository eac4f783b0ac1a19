//! The information row below the composer: agents, workspace and mode.

use crate::app::{App, AppView};
use crate::labels::{cell_width, cells};
use crate::order::{item_contents, lemma_item_contents_push};
use crate::roster::{
    name_of, recipient, record_of, shown_slots, shown_state, AgentState, RecordView, RosterView,
};
use crate::style::{colored, in_bold, piece, plain_style, Color, Piece, PieceView, Style, SEPARATOR};
use crate::text::{append_decimal, append_text, decimal, same, to_chars, to_text};
use crate::theme::{agent_color, agent_colors};
use vstd::prelude::*;
use vstd::utf8::encode_utf8;

verus! {

/// The widths of the information row.
#[derive(Clone, Copy, Debug, Eq, PartialEq, Structural)]
pub struct FooterMetrics {
    pub inner_width: u16,
    pub left_width: usize,
    pub right_width: usize,
    pub agent_width: usize,
    pub path_width: usize,
}

/// Action represented by a click on the information row.
#[derive(Clone, Copy, Debug, Eq, PartialEq, Structural)]
pub enum FooterAction {
    Ignored,
    SelectAgent(usize),
    OpenCollaboration,
    OpenMode,
}

/// The label of the mode.
pub open spec fn mode_label(app: AppView) -> Seq<char> {
    if app.mouse_selection_mode {
        " Select text · "@ + app.settings.mode + " "@
    } else {
        " "@ + app.settings.mode + " "@
    }
}

/// Seconds as minutes and seconds.
pub open spec fn elapsed_text(seconds: nat) -> Seq<char> {
    decimal(seconds / 60) + ":"@ + crate::app::two_digits(seconds % 60)
}

/// The whole seconds since a moment.
pub open spec fn seconds_since(started: u64, now: u64) -> nat {
    if now > started {
        ((now - started) / 1_000_000_000) as nat
    } else {
        0
    }
}

/// Whether an agent is the one that receives the next prompt.
pub open spec fn is_recipient(roster: RosterView, slot: usize, active: int) -> bool {
    recipient(roster) == Some(slot) || (active == 1 && recipient(roster) is None)
}

/// The marker of an agent.
pub open spec fn agent_marker(app: AppView, slot: usize, active: int) -> Seq<char> {
    match shown_state(record_of(app.roster.agents, slot)) {
        AgentState::Working => "●"@,
        AgentState::Starting => "◌"@,
        AgentState::Error => "!"@,
        _ => if app.settings.collaboration == "Manual routing"@ && is_recipient(
            app.roster,
            slot,
            active,
        ) {
            "⌖"@
        } else {
            "○"@
        },
    }
}

/// How many tools an agent called.
pub open spec fn tools_label(record: RecordView) -> Seq<char> {
    if record.tool_calls.len() == 0 {
        Seq::empty()
    } else {
        " · "@ + decimal(record.tool_calls.len()) + " "@ + (if record.tool_calls.len() == 1 {
            "tool"@
        } else {
            "tools"@
        })
    }
}

/// How long an agent's turn has run.
pub open spec fn timer_label(record: RecordView, now: u64) -> Seq<char> {
    match record.turn_started {
        Some(started) => " · "@ + elapsed_text(seconds_since(started, now)),
        None => Seq::empty(),
    }
}

/// The label of an agent.
pub open spec fn agent_label(app: AppView, slot: usize, active: int, now: u64) -> Seq<char> {
    let record = record_of(app.roster.agents, slot);
    let arrow = if is_recipient(app.roster, slot, active) && app.settings.collaboration
        != "Manual routing"@ {
        "→ "@
    } else {
        Seq::empty()
    };
    arrow + agent_marker(app, slot, active) + " "@ + name_of(app.roster.agents, slot)
        + timer_label(record, now) + tools_label(record)
}

/// The style of an agent's label: its color in bold, dimmed while it does not work.
pub open spec fn agent_style(app: AppView, slot: usize) -> Style {
    Style {
        dim: shown_state(record_of(app.roster.agents, slot)) != AgentState::Working,
        ..in_bold(colored(agent_colors()[slot as int % 4]))
    }
}

/// The labels of the first agents, with separators between them.
pub open spec fn agent_pieces(app: AppView, shown: Seq<usize>, count: int, now: u64) -> Seq<PieceView>
    decreases count,
{
    if count <= 0 {
        seq![piece(" "@, plain_style())]
    } else {
        let slot = shown[count - 1];
        let before = agent_pieces(app, shown, count - 1, now);
        let separated = if count > 1 {
            before.push(piece(" · "@, colored(SEPARATOR)))
        } else {
            before
        };
        separated.push(
            piece(agent_label(app, slot, shown.len() as int, now), agent_style(app, slot)),
        )
    }
}

/// The left part of the information row.
pub open spec fn agent_line(app: AppView, now: u64) -> Seq<PieceView> {
    let shown = shown_slots(app.roster.agents);
    if shown.len() == 0 {
        seq![piece(" shell "@, colored(Color::Gray))]
    } else {
        agent_pieces(app, shown, shown.len() as int, now).push(piece(" "@, plain_style()))
    }
}

/// The cells that some pieces take up.
pub open spec fn line_cells(line: Seq<PieceView>) -> nat
    decreases line.len(),
{
    if line.len() == 0 {
        0
    } else {
        line_cells(line.drop_last()) + cells(line.last().text)
    }
}

/// The smaller of two numbers.
pub open spec fn least(a: int, b: int) -> int {
    if a < b {
        a
    } else {
        b
    }
}

/// The widths of the information row at an outer width.
pub open spec fn metrics_of(app: AppView, outer_width: u16, now: u64) -> FooterMetrics {
    let inner: int = if outer_width > 2 {
        outer_width - 2
    } else {
        0
    };
    if inner == 0 {
        FooterMetrics {
            inner_width: 0,
            left_width: 0,
            right_width: 0,
            agent_width: 0,
            path_width: 0,
        }
    } else {
        let right = least(cells(mode_label(app)) as int, inner / 2);
        let left = inner - right;
        let agents = least(line_cells(agent_line(app, now)) as int, left);
        FooterMetrics {
            inner_width: inner as u16,
            left_width: left as usize,
            right_width: right as usize,
            agent_width: agents as usize,
            path_width: (left - agents) as usize,
        }
    }
}

/// The parts of the information row fill it exactly.
pub proof fn law_footer_parts_fill_the_row(app: AppView, outer_width: u16, now: u64)
    ensures
        ({
            let metrics = metrics_of(app, outer_width, now);
            metrics.agent_width + metrics.path_width == metrics.left_width && metrics.left_width
                + metrics.right_width == metrics.inner_width && metrics.right_width
                <= metrics.left_width
        }),
{
}

/// The agent whose label is at a place, from the agent at `k` on, where the label of
/// that agent begins at `cursor`.
pub open spec fn agent_at(
    app: AppView,
    shown: Seq<usize>,
    k: int,
    cursor: int,
    place: int,
    now: u64,
) -> Option<usize>
    decreases shown.len() - k,
{
    if k < 0 || k >= shown.len() {
        None
    } else {
        let start = if k > 0 {
            cursor + 3
        } else {
            cursor
        };
        let width = cells(agent_label(app, shown[k], shown.len() as int, now)) as int;
        if start <= place < start + width {
            Some(shown[k])
        } else {
            agent_at(app, shown, k + 1, start + width, place, now)
        }
    }
}

/// What a click on the information row does. Agent markers and names are forgiving
/// targets.
pub open spec fn click_at(app: AppView, column: u16, width: u16, now: u64) -> FooterAction {
    let metrics = metrics_of(app, width, now);
    let place = column - 1;
    if metrics.inner_width == 0 || column == 0 || column > metrics.inner_width {
        FooterAction::Ignored
    } else if metrics.right_width > 0 && place >= metrics.left_width {
        FooterAction::OpenMode
    } else if app.settings.collaboration == "Pair review"@ || place >= metrics.agent_width {
        FooterAction::Ignored
    } else {
        match agent_at(app, shown_slots(app.roster.agents), 0, 1, place, now) {
            Some(slot) => FooterAction::SelectAgent(slot),
            None => FooterAction::Ignored,
        }
    }
}

/// The remainder by which an agent without a slot is colored.
pub open spec fn name_number(bytes: Seq<u8>) -> int
    decreases bytes.len(),
{
    if bytes.len() == 0 {
        0
    } else {
        (name_number(bytes.drop_last()) * 31 + bytes.last()) % 4
    }
}

/// The color of an agent that has no slot.
pub open spec fn header_color(name: Seq<char>) -> Color {
    agent_colors()[name_number(encode_utf8(name))]
}

/// The color of an agent that has no slot: the same for the same name.
pub fn agent_header_color(name: &str) -> (color: Color)
    ensures
        color == header_color(name@),
{
    let bytes = name.as_bytes();
    let mut number: usize = 0;
    let mut i: usize = 0;
    assert(bytes@.take(0) =~= Seq::empty());
    while i < bytes.len()
        invariant
            i <= bytes@.len(),
            number < 4,
            number == name_number(bytes@.take(i as int)),
        decreases bytes@.len() - i,
    {
        assert(bytes@.take(i + 1).drop_last() =~= bytes@.take(i as int));
        number = (number * 31 + bytes[i] as usize) % 4;
        i = i + 1;
    }
    assert(bytes@.take(i as int) =~= bytes@);
    agent_color(number)
}

/// The color of a roster slot.
pub fn agent_slot_color(slot: usize) -> (color: Color)
    ensures
        color == agent_colors()[slot as int % 4],
{
    agent_color(slot)
}

/// The first slot, from `k` on, whose agent is called by a name.
pub open spec fn slot_called(app: AppView, slots: Seq<usize>, name: Seq<char>) -> Option<usize>
    decreases slots.len(),
{
    if slots.len() == 0 {
        None
    } else if name_of(app.roster.agents, slots[0]) == name {
        Some(slots[0])
    } else {
        slot_called(app, slots.drop_first(), name)
    }
}

/// The color of whoever is called by a name. Slot colors keep similarly named agents
/// apart; the others are colored by name.
pub open spec fn color_of(app: AppView, name: Seq<char>) -> Color {
    match slot_called(app, crate::roster::named_slots(app.roster.agents), name) {
        Some(slot) => agent_colors()[slot as int % 4],
        None => header_color(name),
    }
}

/// How long a turn has run.
pub fn format_turn_elapsed(started: u64, now: u64) -> (text: String)
    ensures
        text@ == elapsed_text(seconds_since(started, now)),
{
    let seconds: u64 = if now > started {
        (now - started) / 1_000_000_000
    } else {
        0
    };
    let mut text: Vec<char> = Vec::new();
    append_decimal(&mut text, seconds / 60);
    assert(text@ =~= decimal((seconds / 60) as nat));
    append_text(&mut text, ":");
    let rest: u64 = seconds % 60;
    let ghost before = text@;
    if rest < 10 {
        append_text(&mut text, "0");
    }
    append_decimal(&mut text, rest);
    assert(text@ =~= before + crate::app::two_digits(rest as nat));
    to_text(&text)
}

impl App {
    pub fn footer_mode_label(&self) -> (label: String)
        ensures
            label@ == mode_label(self@),
    {
        let mut label = if self.mouse_selection_mode {
            to_chars(" Select text · ")
        } else {
            to_chars(" ")
        };
        append_text(&mut label, self.settings.mode.as_str());
        append_text(&mut label, " ");
        to_text(&label)
    }

    /// The label of an agent, where `active_count` agents are shown.
    pub fn footer_agent_label(&self, slot: usize, active_count: usize, now: u64) -> (label: String)
        requires
            self.wf(),
        ensures
            label@ == agent_label(self@, slot, active_count as int, now),
    {
        let next = self.roster.next_agent_slot();
        let selected = match next {
            Some(other) => other == slot,
            None => active_count == 1,
        };
        let manual = same(self.settings.collaboration.as_str(), "Manual routing");
        let mut label: Vec<char> = Vec::new();
        if selected && !manual {
            append_text(&mut label, "→ ");
            assert(label@ =~= "→ "@);
        }
        let ghost arrow = label@;
        match self.roster.shown_state(slot) {
            AgentState::Working => append_text(&mut label, "●"),
            AgentState::Starting => append_text(&mut label, "◌"),
            AgentState::Error => append_text(&mut label, "!"),
            _ => if manual && selected {
                append_text(&mut label, "⌖");
            } else {
                append_text(&mut label, "○");
            },
        }
        append_text(&mut label, " ");
        append_text(&mut label, self.roster.agent_name(slot).as_str());
        let ghost named = label@;
        match self.roster.turn_started(slot) {
            Some(started) => {
                append_text(&mut label, " · ");
                append_text(&mut label, format_turn_elapsed(started, now).as_str());
            },
            None => {},
        }
        let ghost record = record_of(self@.roster.agents, slot);
        assert(label@ =~= named + timer_label(record, now));
        let ghost timed = label@;
        let count: usize = self.roster.tool_count(slot);
        if count > 0 {
            append_text(&mut label, " · ");
            append_decimal(&mut label, count as u64);
            append_text(&mut label, " ");
            if count == 1 {
                append_text(&mut label, "tool");
            } else {
                append_text(&mut label, "tools");
            }
        }
        assert(label@ =~= timed + tools_label(record));
        to_text(&label)
    }

    /// The left part of the information row.
    pub fn footer_agent_spans(&self, now: u64) -> (line: Vec<Piece>)
        requires
            self.wf(),
        ensures
            item_contents(line@) == agent_line(self@, now),
    {
        broadcast use lemma_item_contents_push;

        let shown = self.roster.shown_roster_slots();
        let mut line: Vec<Piece> = Vec::new();
        assert(item_contents(line@) =~= Seq::empty());
        if shown.len() == 0 {
            line.push(Piece::new(" shell ", Style::color(Color::Gray)));
            assert(item_contents(line@) =~= seq![piece(" shell "@, colored(Color::Gray))]);
            return line;
        }
        line.push(Piece::new(" ", Style::plain()));
        assert(item_contents(line@) =~= seq![piece(" "@, plain_style())]);
        let mut i: usize = 0;
        while i < shown.len()
            invariant
                self.wf(),
                i <= shown@.len(),
                shown@ == shown_slots(self@.roster.agents),
                item_contents(line@) == agent_pieces(self@, shown@, i as int, now),
            decreases shown@.len() - i,
        {
            if i > 0 {
                line.push(Piece::new(" · ", Style::color(SEPARATOR)));
            }
            let slot: usize = shown[i];
            let mut style = Style::color(agent_color(slot)).bold();
            style.dim = self.roster.shown_state(slot) != AgentState::Working;
            line.push(
                Piece::new(self.footer_agent_label(slot, shown.len(), now).as_str(), style),
            );
            i = i + 1;
        }
        line.push(Piece::new(" ", Style::plain()));
        line
    }

    /// The widths of the information row.
    pub fn footer_metrics(&self, outer_width: u16, now: u64) -> (metrics: FooterMetrics)
        requires
            self.wf(),
        ensures
            metrics == metrics_of(self@, outer_width, now),
    {
        if outer_width <= 2 {
            return FooterMetrics {
                inner_width: 0,
                left_width: 0,
                right_width: 0,
                agent_width: 0,
                path_width: 0,
            };
        }
        let inner: u16 = outer_width - 2;
        let half: usize = (inner / 2) as usize;
        let label: usize = cell_width(self.footer_mode_label().as_str());
        let right: usize = if label < half {
            label
        } else {
            half
        };
        let left: usize = inner as usize - right;
        let line = self.footer_agent_spans(now);
        let ghost all = item_contents(line@);
        let mut agents: usize = 0;
        let mut i: usize = 0;
        assert(all.take(0) =~= Seq::empty());
        while i < line.len()
            invariant
                i <= line@.len(),
                all == item_contents(line@),
                agents == least(line_cells(all.take(i as int)) as int, left as int),
                agents <= left,
            decreases line@.len() - i,
        {
            assert(all.take(i + 1).drop_last() =~= all.take(i as int));
            assert(all.take(i + 1).last() == line@[i as int]@);
            let width: usize = cell_width(line[i].text.as_str());
            agents = if width < left - agents {
                agents + width
            } else {
                left
            };
            i = i + 1;
        }
        assert(all.take(i as int) =~= all);
        FooterMetrics {
            inner_width: inner,
            left_width: left,
            right_width: right,
            agent_width: agents,
            path_width: left - agents,
        }
    }

    /// Resolves a click on the information row, using the geometry that it is drawn with.
    pub fn footer_action(&self, column: u16, width: u16, now: u64) -> (action: FooterAction)
        requires
            self.wf(),
        ensures
            action == click_at(self@, column, width, now),
    {
        let metrics = self.footer_metrics(width, now);
        if metrics.inner_width == 0 || column == 0 || column > metrics.inner_width {
            return FooterAction::Ignored;
        }
        let place: usize = (column - 1) as usize;
        if metrics.right_width > 0 && place >= metrics.left_width {
            return FooterAction::OpenMode;
        }
        if same(self.settings.collaboration.as_str(), "Pair review") || place
            >= metrics.agent_width {
            return FooterAction::Ignored;
        }
        let shown = self.roster.shown_roster_slots();
        let mut cursor: usize = 1;
        let mut i: usize = 0;
        while i < shown.len() && cursor <= place
            invariant
                self.wf(),
                i <= shown@.len(),
                place < u16::MAX,
                1 <= cursor <= usize::MAX - 3,
                shown@ == shown_slots(self@.roster.agents),
                agent_at(self@, shown@, 0, 1, place as int, now) == agent_at(
                    self@,
                    shown@,
                    i as int,
                    cursor as int,
                    place as int,
                    now,
                ),
                click_at(self@, column, width, now) == (match agent_at(
                    self@,
                    shown@,
                    0,
                    1,
                    place as int,
                    now,
                ) {
                    Some(slot) => FooterAction::SelectAgent(slot),
                    None => FooterAction::Ignored,
                }),
            decreases shown@.len() - i,
        {
            let start: usize = if i > 0 {
                cursor + 3
            } else {
                cursor
            };
            let label: usize = cell_width(
                self.footer_agent_label(shown[i], shown.len(), now).as_str(),
            );
            if start <= place && place - start < label {
                return FooterAction::SelectAgent(shown[i]);
            }
            // A label that ends behind the place also ends the search.
            if start > place {
                proof {
                    lemma_not_behind(self@, shown@, i as int, cursor as int, place as int, now);
                }
                return FooterAction::Ignored;
            }
            cursor = start + label;
            i = i + 1;
        }
        proof {
            lemma_not_behind(self@, shown@, i as int, cursor as int, place as int, now);
        }
        FooterAction::Ignored
    }

    /// The color of whoever is called by a name.
    pub fn agent_color_for_name(&self, name: &str) -> (color: Color)
        requires
            self.wf(),
        ensures
            color == color_of(self@, name@),
    {
        let slots = self.roster.named_roster_slots();
        let mut i: usize = 0;
        assert(slots@.skip(0) =~= slots@);
        while i < slots.len()
            invariant
                self.wf(),
                i <= slots@.len(),
                slots@ == crate::roster::named_slots(self@.roster.agents),
                slot_called(self@, slots@, name@) == slot_called(
                    self@,
                    slots@.skip(i as int),
                    name@,
                ),
            decreases slots@.len() - i,
        {
            assert(slots@.skip(i as int).drop_first() =~= slots@.skip(i + 1));
            assert(slots@.skip(i as int)[0] == slots@[i as int]);
            if same(self.roster.agent_name(slots[i]).as_str(), name) {
                return agent_color(slots[i]);
            }
            i = i + 1;
        }
        agent_header_color(name)
    }
}

proof fn lemma_not_behind(
    app: AppView,
    shown: Seq<usize>,
    k: int,
    cursor: int,
    place: int,
    now: u64,
)
    requires
        0 <= k,
        cursor > place || (k > 0 && cursor + 3 > place) || k >= shown.len(),
    ensures
        agent_at(app, shown, k, cursor, place, now) is None,
    decreases shown.len() - k,
{
    if k < shown.len() {
        let start = if k > 0 {
            cursor + 3
        } else {
            cursor
        };
        let width = cells(agent_label(app, shown[k], shown.len() as int, now)) as int;
        lemma_not_behind(app, shown, k + 1, start + width, place, now);
    }
}

} // verus!
