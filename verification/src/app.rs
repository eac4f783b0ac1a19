//! The state of the conversation surface, and how agent events change it.

use crate::config::{config_ok, ConfigPanel, ConfigView};
use crate::editor::{EditorView, PromptEditor};
use crate::events::{
    copy_commands, copy_modes, copy_optional, copy_strings, AgentCommand, AgentEvent,
    AgentEventView, HistoryContent, HistoryView, Mode, ModeView, PermissionRequest, RequestView,
    RosterUpdate, RosterUpdateView, TerminalEvent, TerminalView, ToolStatus, ToolUpdate, ToolView,
    UsageUpdate,
};
use crate::layout::{BlockKind, BlockView};
use crate::notice::{is_error, ready_status};
use crate::order::item_contents;
use crate::permission::{prompt_for, PermissionPrompt, PermissionView};
use crate::picker::{PathPicker, PickerView};
use crate::queue::{PromptQueue, QueueView};
use crate::roster::{
    all_commands, broken, can_promote, can_swap, completed, dropped, identified, in_state,
    known_models, name_of, promoted, record_of, reloaded, renamed, swapped, turn_begun,
    with_commands, with_record, with_tool, AgentState, RecordView, Roster, RosterView,
};
use crate::settings::{first_settings, Settings, SettingsView, ToolExpandPolicy};
use crate::slots::{held, in_slot_order, put, SlotTable};
use crate::store::{StorePanel, StoreView};
use crate::streams::{
    no_stream, open_block, tool_block, with_open_block, with_tool_block, StreamRecord, StreamView,
};
use crate::text::{
    append_decimal, append_text, blank, decimal, eq_ignore_case, has_prefix, is_blank, lines, lower,
    same_ignoring_case, split_lines, starts_with, strings, to_chars, to_lower_chars, to_text, trim,
    trim_start, trimmed_start, trimmed_text, optional,
};
use crate::transcript::{place_of, Transcript};
use vstd::prelude::*;

verus! {

/// When something happens: on a monotonic clock, in nanoseconds, and on the wall clock.
#[derive(Clone, Copy, Debug, Eq, PartialEq, Structural)]
pub struct Moment {
    pub now: u64,
    pub hour: u8,
    pub minute: u8,
}

/// The state of the conversation surface.
#[derive(Debug)]
pub struct App {
    pub transcript: Transcript,
    pub scroll_y: usize,
    pub follow_tail: bool,
    pub prompt: String,
    pub prompt_message: String,
    pub active_agent: String,
    pub status: String,
    pub settings: Settings,
    /// A permission policy that the agents are to be put into.
    pub requested_mode: Option<String>,
    pub permission: Option<PermissionPrompt>,
    pub config: ConfigPanel,
    pub title_flash: usize,
    pub title_blink: bool,
    pub terminal_focused: bool,
    pub mouse_selection_mode: bool,
    pub store: StorePanel,
    pub prompt_editor: PromptEditor,
    pub roster: Roster,
    pub queue: PromptQueue,
    pub keyboard_help: bool,
    pub streams: SlotTable<StreamRecord>,
    pub focused_detail: Option<u64>,
    pub picker: PathPicker,
    pub base_prompt_completions: Vec<String>,
    pub workspace_root: String,
    pub cancelling: bool,
}

pub struct AppView {
    pub transcript: Seq<BlockView>,
    pub scroll_y: usize,
    pub follow_tail: bool,
    pub prompt: Seq<char>,
    pub prompt_message: Seq<char>,
    pub active_agent: Seq<char>,
    pub status: Seq<char>,
    pub settings: SettingsView,
    pub requested_mode: Option<Seq<char>>,
    pub permission: Option<PermissionView>,
    pub config: ConfigView,
    pub title_flash: usize,
    pub title_blink: bool,
    pub terminal_focused: bool,
    pub mouse_selection_mode: bool,
    pub store: StoreView,
    pub editor: EditorView,
    pub roster: RosterView,
    pub queue: QueueView,
    pub keyboard_help: bool,
    pub streams: Seq<(usize, StreamView)>,
    pub focused_detail: Option<u64>,
    pub picker: PickerView,
    pub base_completions: Seq<Seq<char>>,
    pub workspace_root: Seq<char>,
    pub cancelling: bool,
}

/// The contents of an optional permission prompt.
pub open spec fn prompt_in(permission: Option<PermissionPrompt>) -> Option<PermissionView> {
    match permission {
        Some(value) => Some(value@),
        None => None,
    }
}

impl View for App {
    type V = AppView;

    open spec fn view(&self) -> AppView {
        AppView {
            transcript: self.transcript@,
            scroll_y: self.scroll_y,
            follow_tail: self.follow_tail,
            prompt: self.prompt@,
            prompt_message: self.prompt_message@,
            active_agent: self.active_agent@,
            status: self.status@,
            settings: self.settings@,
            requested_mode: optional(self.requested_mode),
            permission: prompt_in(self.permission),
            config: self.config@,
            title_flash: self.title_flash,
            title_blink: self.title_blink,
            terminal_focused: self.terminal_focused,
            mouse_selection_mode: self.mouse_selection_mode,
            store: self.store@,
            editor: self.prompt_editor@,
            roster: self.roster@,
            queue: self.queue@,
            keyboard_help: self.keyboard_help,
            streams: self.streams@,
            focused_detail: self.focused_detail,
            picker: self.picker@,
            base_completions: strings(self.base_prompt_completions@),
            workspace_root: self.workspace_root@,
            cancelling: self.cancelling,
        }
    }
}

/// The surface of a first launch.
pub open spec fn first_app() -> AppView {
    AppView {
        transcript: Seq::empty(),
        scroll_y: 0,
        follow_tail: true,
        prompt: Seq::empty(),
        prompt_message: "How can I help you today?"@,
        active_agent: "Initializing"@,
        status: "idle"@,
        settings: first_settings(),
        requested_mode: None,
        permission: None,
        config: ConfigView {
            visible: false,
            selected: 0,
            agents: Seq::empty(),
            roster_dirty: false,
            snapshot: None,
            collaboration_pending: false,
        },
        title_flash: 0,
        title_blink: false,
        terminal_focused: true,
        mouse_selection_mode: false,
        store: StoreView {
            visible: false,
            selected: 0,
            agents: Seq::empty(),
            status: Seq::empty(),
            directory: Seq::empty(),
            editing_directory: false,
        },
        editor: EditorView {
            lines: seq![Seq::empty()],
            cursor: (0usize, 0usize),
            selecting: false,
            hint: "How can I help you today?"@,
            history: Seq::empty(),
            position: None,
            candidates: Seq::empty(),
            matches: Seq::empty(),
            index: None,
        },
        roster: RosterView {
            agents: Seq::empty(),
            next_agent: None,
            selected_agent: None,
            failed_agent: None,
        },
        queue: QueueView { prompts: Seq::empty(), next_id: 0, selected: None },
        keyboard_help: false,
        streams: Seq::empty(),
        focused_detail: None,
        picker: PickerView {
            index: None,
            requests: Seq::empty(),
            query: Seq::empty(),
            matches: Seq::empty(),
            selection: 0,
        },
        base_completions: Seq::empty(),
        workspace_root: Seq::empty(),
        cancelling: false,
    }
}

impl Default for App {
    fn default() -> (app: Self)
        ensures
            app.wf(),
            app@ == first_app(),
    {
        let app = App {
            transcript: Transcript::default(),
            scroll_y: 0,
            follow_tail: true,
            prompt: String::new(),
            prompt_message: "How can I help you today?".to_owned(),
            active_agent: "Initializing".to_owned(),
            status: "idle".to_owned(),
            settings: Settings::default(),
            requested_mode: None,
            permission: None,
            config: ConfigPanel::new(),
            title_flash: 0,
            title_blink: false,
            terminal_focused: true,
            mouse_selection_mode: false,
            store: StorePanel::new(),
            prompt_editor: PromptEditor::default(),
            roster: Roster::new(),
            queue: PromptQueue::new(),
            keyboard_help: false,
            streams: SlotTable::new(),
            focused_detail: None,
            picker: PathPicker::new(),
            base_prompt_completions: Vec::new(),
            workspace_root: String::new(),
            cancelling: false,
        };
        assert(app@.base_completions =~= Seq::empty());
        assert(streams_ok(app.streams@)) by {
            reveal(streams_ok);
        }
        app
    }
}

/// The slots of the streams stand in order.
#[verifier::opaque]
pub open spec fn streams_ok(streams: Seq<(usize, StreamView)>) -> bool {
    in_slot_order(streams)
}

// Events.

/// The blocks with text added to the block with an identifier.
pub open spec fn extended(blocks: Seq<BlockView>, id: u64, text: Seq<char>) -> Seq<BlockView> {
    match place_of(blocks, id) {
        Some(k) => blocks.update(k, BlockView { source: blocks[k].source + text, ..blocks[k] }),
        None => blocks,
    }
}

/// The block that a turn's text of a kind goes to: the open one, or a new one behind
/// the others.
pub open spec fn block_for(app: AppView, slot: usize, kind: BlockKind) -> u64 {
    match open_block(held::<StreamRecord>(app.streams, slot), kind) {
        Some(id) => id,
        None => app.transcript.len() as u64,
    }
}

/// The surface after a chunk of an agent's text. The chunks of one turn are added to
/// one block per kind, which begins with an opening.
#[verifier::opaque]
pub open spec fn streamed(
    app: AppView,
    slot: usize,
    kind: BlockKind,
    opening: Seq<char>,
    collapsed: bool,
    text: Seq<char>,
) -> AppView {
    let stream = held::<StreamRecord>(app.streams, slot);
    let id = block_for(app, slot, kind);
    match open_block(stream, kind) {
        Some(open) => AppView { transcript: extended(app.transcript, id, text), ..app },
        None => AppView {
            transcript: extended(
                app.transcript.push(BlockView { id, kind, source: opening, collapsed }),
                id,
                text,
            ),
            streams: put(app.streams, slot, with_open_block(stream, kind, id)),
            ..app
        },
    }
}

/// A number with at least two digits.
pub open spec fn two_digits(n: nat) -> Seq<char> {
    if n < 10 {
        "0"@ + decimal(n)
    } else {
        decimal(n)
    }
}

/// How a message of an agent begins.
pub open spec fn message_opening(name: Seq<char>, moment: Moment) -> Seq<char> {
    name + ": ["@ + two_digits(moment.hour as nat) + ":"@ + two_digits(moment.minute as nat)
        + "] "@
}

/// The surface with an agent in front that is working.
pub open spec fn working(app: AppView, slot: usize) -> AppView {
    AppView {
        active_agent: name_of(app.roster.agents, slot),
        roster: in_state(app.roster, slot, AgentState::Working),
        ..app
    }
}

/// The surface in which an agent's turn runs.
pub open spec fn begun(app: AppView, slot: usize, moment: Moment) -> AppView {
    AppView { roster: turn_begun(app.roster, slot, moment.now), ..app }
}

/// Whether a text is a unified diff: it has a hunk and a file header.
pub open spec fn is_unified_diff(text: Seq<char>) -> bool {
    &&& exists|i: int| 0 <= i < lines(text).len() && starts_with(#[trigger] lines(text)[i], "@@"@)
    &&& exists|i: int|
        0 <= i < lines(text).len() && (starts_with(#[trigger] lines(text)[i], "--- "@)
            || starts_with(lines(text)[i], "+++ "@))
}

/// The kind of block that a tool call goes to: a diff is shown, and everything else is kept
/// for the export.
pub open spec fn tool_kind(update: ToolView) -> BlockKind {
    match update.detail {
        Some(detail) if is_unified_diff(detail) => BlockKind::Diff,
        _ => BlockKind::Activity,
    }
}

/// How the state of a tool call is shown.
pub open spec fn status_text(status: ToolStatus) -> Seq<char> {
    match status {
        ToolStatus::Pending => "pending"@,
        ToolStatus::Running => "running"@,
        ToolStatus::Completed => "completed"@,
        ToolStatus::Failed => "failed"@,
    }
}

/// What a tool call is shown as.
pub open spec fn tool_source(name: Seq<char>, update: ToolView) -> Seq<char> {
    let head = name + ": "@ + update.title + " · "@ + status_text(update.status);
    match update.detail {
        Some(detail) => head + "\n"@ + detail,
        None => head,
    }
}

/// Whether a tool call is collapsed. Ordinary tool calls always are; whether a diff is, is a
/// setting.
pub open spec fn tool_collapsed(settings: SettingsView, update: ToolView) -> bool {
    if tool_kind(update) == BlockKind::Activity {
        true
    } else {
        match settings.tool_expand_policy {
            ToolExpandPolicy::Always => false,
            ToolExpandPolicy::Never => true,
            ToolExpandPolicy::Fail => settings.collapse_details && update.status
                != ToolStatus::Failed,
        }
    }
}

/// The block that a tool call goes to: its own, as long as it exists, or a new one.
pub open spec fn tool_target(app: AppView, slot: usize, call: Seq<char>) -> Option<u64> {
    match tool_block(held::<StreamRecord>(app.streams, slot), call) {
        Some(id) if place_of(app.transcript, id) is Some => Some(id),
        _ => None,
    }
}

/// The surface that shows the state of a tool call; a diff is what can be opened next.
#[verifier::opaque]
pub open spec fn tool_shown(app: AppView, slot: usize, update: ToolView) -> AppView {
    let kind = tool_kind(update);
    let source = tool_source(name_of(app.roster.agents, slot), update);
    let collapsed = tool_collapsed(app.settings, update);
    let stream = held::<StreamRecord>(app.streams, slot);
    let shown = match tool_target(app, slot, update.id) {
        Some(id) => AppView {
            transcript: app.transcript.update(
                place_of(app.transcript, id).unwrap(),
                BlockView { id, kind, source, collapsed },
            ),
            ..app
        },
        None => {
            let id = app.transcript.len() as u64;
            AppView {
                transcript: app.transcript.push(BlockView { id, kind, source, collapsed }),
                streams: put(app.streams, slot, with_tool_block(stream, update.id, id)),
                ..app
            }
        },
    };
    AppView {
        focused_detail: if kind == BlockKind::Diff {
            Some(
                match tool_target(app, slot, update.id) {
                    Some(id) => id,
                    None => app.transcript.len() as u64,
                },
            )
        } else {
            app.focused_detail
        },
        ..shown
    }
}

/// Whether a tool call only waits.
pub open spec fn only_waits(update: ToolView) -> bool {
    starts_with(lower(trim_start(update.title)), "wait"@)
}

/// Whether a tool call says nothing.
pub open spec fn says_nothing(update: ToolView) -> bool {
    same_ignoring_case(trim(update.title), "tool call"@) && match update.detail {
        Some(detail) => is_blank(detail),
        None => true,
    }
}

/// The surface after the state of a tool call changed.
#[verifier::opaque]
pub open spec fn tool_updated(
    app: AppView,
    slot: usize,
    update: ToolView,
    moment: Moment,
) -> AppView {
    let started = begun(app, slot, moment);
    if only_waits(update) {
        AppView { status: "waiting"@, ..working(started, slot) }
    } else if says_nothing(update) {
        started
    } else {
        let record = record_of(started.roster.agents, slot);
        tool_shown(
            AppView {
                roster: with_record(
                    started.roster,
                    slot,
                    RecordView { tool_calls: with_tool(record.tool_calls, update.id), ..record },
                ),
                ..started
            },
            slot,
            update,
        )
    }
}

/// A number with its sign.
pub open spec fn signed(n: int) -> Seq<char> {
    if n < 0 {
        "-"@ + decimal((-n) as nat)
    } else {
        decimal(n as nat)
    }
}

/// What an agent's terminal is shown as.
pub open spec fn terminal_source(name: Seq<char>, event: TerminalView) -> Seq<char> {
    match event {
        TerminalView::Created { id, command } => name + ": "@ + command,
        TerminalView::Output { id, text } => name + ": "@ + text,
        TerminalView::Exited { id, code } => name + ": exited "@ + signed(code as int),
        TerminalView::Released { id } => name + ": terminal released"@,
    }
}

/// The surface without the question of an agent.
pub open spec fn unasked(app: AppView, slot: usize) -> AppView {
    match app.permission {
        Some(prompt) if prompt.slot == slot => AppView { permission: None, ..app },
        _ => app,
    }
}

/// The completions offer the commands that the agents advertise now.
pub open spec fn refreshed(app: AppView) -> AppView {
    AppView {
        editor: EditorView {
            candidates: with_commands(app.base_completions, all_commands(app.roster.agents)),
            matches: Seq::empty(),
            index: None,
            ..app.editor
        },
        ..app
    }
}

/// The surface after the roster changed.
#[verifier::opaque]
pub open spec fn roster_changed(app: AppView, update: RosterUpdateView) -> AppView {
    match update {
        RosterUpdateView::Added { slot, name, identity } => agent_added(app, slot, name, identity),
        RosterUpdateView::Reloaded { slot } => agent_reloading(app, slot),
        RosterUpdateView::Dropped { slot } => agent_gone(app, slot),
        RosterUpdateView::Promoted { from } => AppView {
            status: "new owner is active"@,
            ..owner_changed(app, from)
        },
        RosterUpdateView::Swapped { first, second } => AppView {
            status: "agents "@ + decimal(first as nat) + " and "@ + decimal(second as nat)
                + " swapped"@,
            ..places_changed(app, first, second)
        },
        RosterUpdateView::Rejected { action, detail } => AppView {
            status: "unable to "@ + action + ": "@ + detail,
            ..app
        },
    }
}

/// The surface after an agent was added.
pub open spec fn agent_added(
    app: AppView,
    slot: usize,
    name: Seq<char>,
    identity: Seq<char>,
) -> AppView {
    AppView {
        roster: identified(renamed(app.roster, slot, name), slot, identity),
        status: "agent "@ + decimal(slot as nat) + " added"@,
        ..app
    }
}

/// The surface while an agent starts anew.
pub open spec fn agent_reloading(app: AppView, slot: usize) -> AppView {
    AppView { roster: reloaded(app.roster, slot), status: "reloading agent"@, ..app }
}

/// The surface after an agent was dropped.
pub open spec fn agent_gone(app: AppView, slot: usize) -> AppView {
    AppView {
        status: "agent "@ + decimal(slot as nat) + " dropped"@,
        ..refreshed(AppView { roster: dropped(app.roster, slot), ..app })
    }
}

/// The surface after an agent became the owner; nothing happens where it cannot.
pub open spec fn owner_changed(app: AppView, slot: usize) -> AppView {
    if can_promote(app.roster, slot) {
        let moved = promoted(app.roster, slot);
        AppView {
            active_agent: name_of(moved.agents, 0),
            ..refreshed(AppView { roster: moved, ..app })
        }
    } else {
        app
    }
}

/// The surface after two agents changed places; nothing happens where they cannot.
pub open spec fn places_changed(app: AppView, first: usize, second: usize) -> AppView {
    if can_swap(app.roster, first, second) {
        let moved = swapped(app.roster, first, second);
        AppView {
            active_agent: name_of(moved.agents, first),
            ..refreshed(AppView { roster: moved, ..app })
        }
    } else {
        app
    }
}

/// The surface after an agent is ready.
#[verifier::opaque]
pub open spec fn agent_ready(app: AppView, slot: usize) -> AppView {
    AppView {
        active_agent: name_of(app.roster.agents, slot),
        roster: RosterView {
            failed_agent: if app.roster.failed_agent == Some(slot) {
                None
            } else {
                app.roster.failed_agent
            },
            ..in_state(app.roster, slot, AgentState::Ready)
        },
        status: ready_status(app.status),
        ..app
    }
}

/// The surface after a turn was completed: the turn passes on.
#[verifier::opaque]
pub open spec fn turn_completed(app: AppView, slot: usize) -> AppView {
    AppView {
        roster: completed(app.roster, slot),
        streams: put(app.streams, slot, no_stream()),
        status: "idle"@,
        ..unasked(app, slot)
    }
}

/// The surface after an agent failed.
#[verifier::opaque]
pub open spec fn agent_failed(
    app: AppView,
    slot: usize,
    started: bool,
    detail: Seq<char>,
) -> AppView {
    AppView {
        roster: broken(app.roster, slot),
        streams: put(
            app.streams,
            slot,
            StreamView { tools: held::<StreamRecord>(app.streams, slot).tools, ..no_stream() },
        ),
        active_agent: name_of(app.roster.agents, slot),
        status: if started {
            "crashed: "@ + detail + " · /reload or /drop"@
        } else {
            "failed to start: "@ + detail
        },
        ..unasked(app, slot)
    }
}

/// The surface that shows a part of an earlier conversation. Nothing runs.
#[verifier::opaque]
pub open spec fn history_shown(
    app: AppView,
    slot: usize,
    content: HistoryView,
    moment: Moment,
) -> AppView {
    let name = name_of(app.roster.agents, slot);
    match content {
        HistoryView::UserText(text) => streamed(
            app,
            slot,
            BlockKind::Human,
            name + ": "@,
            false,
            text,
        ),
        HistoryView::Text(text) => streamed(
            app,
            slot,
            BlockKind::Agent,
            message_opening(name, moment),
            false,
            text,
        ),
        HistoryView::Thought(text) => streamed(
            app,
            slot,
            BlockKind::Thought,
            message_opening(name, moment),
            !app.settings.show_thoughts,
            text,
        ),
        HistoryView::Tool(update) => tool_shown(app, slot, update),
    }
}

/// The surface after an agent's modes changed.
#[verifier::opaque]
pub open spec fn modes_changed(
    app: AppView,
    slot: usize,
    modes: Seq<ModeView>,
    current: Option<Seq<char>>,
) -> AppView {
    let record = record_of(app.roster.agents, slot);
    AppView {
        roster: with_record(
            app.roster,
            slot,
            RecordView { modes: Some((modes, current)), ..record },
        ),
        ..app
    }
}

/// The modes that an agent has offered.
pub open spec fn known_modes(app: AppView, slot: usize) -> Seq<ModeView> {
    match record_of(app.roster.agents, slot).modes {
        Some((modes, current)) => modes,
        None => Seq::empty(),
    }
}

/// The surface after an agent's models changed.
#[verifier::opaque]
pub open spec fn models_changed(
    app: AppView,
    slot: usize,
    models: Seq<Seq<char>>,
    current: Option<Seq<char>>,
) -> AppView {
    let record = record_of(app.roster.agents, slot);
    AppView {
        roster: with_record(
            app.roster,
            slot,
            RecordView { models: Some((models, current)), ..record },
        ),
        ..app
    }
}

/// The surface after an agent's commands changed.
#[verifier::opaque]
pub open spec fn commands_changed(app: AppView, slot: usize, commands: Seq<Seq<char>>) -> AppView {
    let record = record_of(app.roster.agents, slot);
    refreshed(
        AppView {
            roster: with_record(
                app.roster,
                slot,
                RecordView { commands: Some(commands), ..record },
            ),
            ..app
        },
    )
}

/// The surface after an agent's usage changed.
#[verifier::opaque]
pub open spec fn usage_changed(app: AppView, slot: usize, usage: UsageUpdate) -> AppView {
    let record = record_of(app.roster.agents, slot);
    AppView {
        roster: with_record(app.roster, slot, RecordView { usage: Some(usage), ..record }),
        ..app
    }
}

/// The surface after a chunk of what a person said to an agent.
#[verifier::opaque]
pub open spec fn person_said(app: AppView, slot: usize, text: Seq<char>, moment: Moment) -> AppView {
    let started = begun(app, slot, moment);
    let opening = name_of(started.roster.agents, slot) + ": "@;
    working(streamed(started, slot, BlockKind::Human, opening, false, text), slot)
}

/// The surface after a chunk of an agent's message.
#[verifier::opaque]
pub open spec fn agent_said(app: AppView, slot: usize, text: Seq<char>, moment: Moment) -> AppView {
    let started = begun(app, slot, moment);
    let opening = message_opening(name_of(started.roster.agents, slot), moment);
    AppView {
        status: "streaming"@,
        ..working(streamed(started, slot, BlockKind::Agent, opening, false, text), slot)
    }
}

/// The surface after a chunk of an agent's thoughts, which can be opened next.
#[verifier::opaque]
pub open spec fn agent_thought(
    app: AppView,
    slot: usize,
    text: Seq<char>,
    moment: Moment,
) -> AppView {
    let started = begun(app, slot, moment);
    let opening = message_opening(name_of(started.roster.agents, slot), moment);
    let collapsed = !app.settings.show_thoughts;
    AppView {
        status: "thinking"@,
        focused_detail: Some(block_for(started, slot, BlockKind::Thought)),
        ..working(streamed(started, slot, BlockKind::Thought, opening, collapsed, text), slot)
    }
}

/// The surface after an agent asked for permission.
#[verifier::opaque]
pub open spec fn permission_asked(
    app: AppView,
    slot: usize,
    request: RequestView,
    moment: Moment,
) -> AppView {
    AppView {
        status: "permission: "@ + request.title,
        permission: Some(prompt_for(slot, request)),
        ..working(begun(app, slot, moment), slot)
    }
}

/// The surface after something happened in an agent's terminal.
#[verifier::opaque]
pub open spec fn terminal_shown(
    app: AppView,
    slot: usize,
    event: TerminalView,
    moment: Moment,
) -> AppView {
    let started = begun(app, slot, moment);
    let source = terminal_source(name_of(started.roster.agents, slot), event);
    let id = app.transcript.len() as u64;
    AppView {
        transcript: app.transcript.push(
            BlockView { id, kind: BlockKind::Activity, source, collapsed: true },
        ),
        roster: in_state(started.roster, slot, AgentState::Working),
        ..started
    }
}

/// The surface after an event.
pub open spec fn after_event(app: AppView, event: AgentEventView, moment: Moment) -> AppView {
    match event {
        AgentEventView::RosterUpdated { update } => roster_changed(app, update),
        AgentEventView::Ready { slot, capabilities } => agent_ready(app, slot),
        AgentEventView::ModesReplaced { slot, modes, current_mode } => modes_changed(
            app,
            slot,
            modes,
            current_mode,
        ),
        AgentEventView::ModeUpdated { slot, current_mode } => modes_changed(
            app,
            slot,
            known_modes(app, slot),
            Some(current_mode),
        ),
        AgentEventView::ModelsReplaced { slot, config_id, models, current_model } =>
            models_changed(app, slot, models, current_model),
        AgentEventView::ModelUpdated { slot, current_model } => models_changed(
            app,
            slot,
            known_models(app.roster.agents, slot).0,
            Some(current_model),
        ),
        AgentEventView::CommandsReplaced { slot, commands } => commands_changed(
            app,
            slot,
            commands,
        ),
        AgentEventView::UsageUpdated { slot, usage } => usage_changed(app, slot, usage),
        AgentEventView::UserText { slot, text } => person_said(app, slot, text, moment),
        AgentEventView::Text { slot, text } => agent_said(app, slot, text, moment),
        AgentEventView::Thought { slot, text } => agent_thought(app, slot, text, moment),
        AgentEventView::Tool { slot, update } => tool_updated(app, slot, update, moment),
        AgentEventView::History { slot, content } => history_shown(app, slot, content, moment),
        AgentEventView::Permission { slot, request } => permission_asked(
            app,
            slot,
            request,
            moment,
        ),
        AgentEventView::Terminal { slot, event } => terminal_shown(app, slot, event, moment),
        AgentEventView::TurnStarted { slot } => working(begun(app, slot, moment), slot),
        AgentEventView::TurnComplete { slot } => turn_completed(app, slot),
        AgentEventView::Failed { slot, started, detail } => agent_failed(
            app,
            slot,
            started,
            detail,
        ),
        _ => app,
    }
}

fn append_two_digits(text: &mut Vec<char>, n: u8)
    ensures
        final(text)@ == old(text)@ + two_digits(n as nat),
{
    if n < 10 {
        append_text(text, "0");
    }
    append_decimal(text, n as u64);
    assert(n < 10 ==> text@ =~= old(text)@ + ("0"@ + decimal(n as nat)));
}

/// How a message of an agent begins.
pub fn agent_message_prefix(name: &str, moment: Moment) -> (opening: String)
    ensures
        opening@ == message_opening(name@, moment),
{
    let mut text = to_chars(name);
    append_text(&mut text, ": [");
    append_two_digits(&mut text, moment.hour);
    append_text(&mut text, ":");
    append_two_digits(&mut text, moment.minute);
    append_text(&mut text, "] ");
    to_text(&text)
}

/// Whether a text is a unified diff: it has a hunk and a file header.
pub fn looks_like_unified_diff(text: &str) -> (yes: bool)
    ensures
        yes == is_unified_diff(text@),
{
    let all = split_lines(&to_chars(text));
    let ghost parts = lines(text@);
    let mut has_hunk = false;
    let mut has_header = false;
    let mut i: usize = 0;
    while i < all.len()
        invariant
            i <= all@.len(),
            crate::text::contents(all@) == parts,
            has_hunk == exists|j: int| 0 <= j < i && starts_with(#[trigger] parts[j], "@@"@),
            has_header == exists|j: int|
                0 <= j < i && (starts_with(#[trigger] parts[j], "--- "@) || starts_with(
                    parts[j],
                    "+++ "@,
                )),
        decreases all@.len() - i,
    {
        let line = to_text(&all[i]);
        assert(parts[i as int] == all@[i as int]@);
        if has_prefix(line.as_str(), "@@") {
            has_hunk = true;
        }
        if has_prefix(line.as_str(), "--- ") || has_prefix(line.as_str(), "+++ ") {
            has_header = true;
        }
        i = i + 1;
    }
    assert(parts.len() == all@.len());
    has_hunk && has_header
}

fn kind_of_tool(update: &ToolUpdate) -> (kind: BlockKind)
    ensures
        kind == tool_kind(update@),
{
    match &update.detail {
        Some(detail) => if looks_like_unified_diff(detail.as_str()) {
            BlockKind::Diff
        } else {
            BlockKind::Activity
        },
        None => BlockKind::Activity,
    }
}

fn source_of_tool(name: &str, update: &ToolUpdate) -> (source: String)
    ensures
        source@ == tool_source(name@, update@),
{
    let mut text = to_chars(name);
    append_text(&mut text, ": ");
    append_text(&mut text, update.title.as_str());
    append_text(&mut text, " · ");
    match update.status {
        ToolStatus::Pending => append_text(&mut text, "pending"),
        ToolStatus::Running => append_text(&mut text, "running"),
        ToolStatus::Completed => append_text(&mut text, "completed"),
        ToolStatus::Failed => append_text(&mut text, "failed"),
    }
    match &update.detail {
        Some(detail) => {
            append_text(&mut text, "\n");
            append_text(&mut text, detail.as_str());
        },
        None => {},
    }
    to_text(&text)
}

fn source_of_terminal(name: &str, event: &TerminalEvent) -> (source: String)
    ensures
        source@ == terminal_source(name@, event@),
{
    let mut text = to_chars(name);
    match event {
        TerminalEvent::Created { id, command } => {
            append_text(&mut text, ": ");
            append_text(&mut text, command.as_str());
        },
        TerminalEvent::Output { id, text: output } => {
            append_text(&mut text, ": ");
            append_text(&mut text, output.as_str());
        },
        TerminalEvent::Exited { id, code } => {
            append_text(&mut text, ": exited ");
            let ghost before = text@;
            if *code < 0 {
                append_text(&mut text, "-");
                append_decimal(&mut text, (-(*code as i64)) as u64);
                assert(text@ =~= before + signed(*code as int));
            } else {
                append_decimal(&mut text, *code as u64);
            }
        },
        TerminalEvent::Released { id } => {
            append_text(&mut text, ": terminal released");
        },
    }
    to_text(&text)
}

impl App {
    /// The parts of the surface keep their invariants.
    pub open spec fn wf(&self) -> bool {
        &&& self.transcript.wf()
        &&& self.roster.wf()
        &&& self.prompt_editor.wf()
        &&& streams_ok(self.streams@)
        &&& self.store.wf()
        &&& self.queue.wf()
        &&& config_ok(self.config@)
    }

    fn stream_text(
        &mut self,
        slot: usize,
        kind: BlockKind,
        opening: &str,
        collapsed: bool,
        text: &str,
    ) -> (id: u64)
        requires
            old(self).wf(),
            kind == BlockKind::Human || kind == BlockKind::Agent || kind == BlockKind::Thought,
        ensures
            final(self).wf(),
            id == block_for(old(self)@, slot, kind),
            final(self)@ == streamed(old(self)@, slot, kind, opening@, collapsed, text@),
    {
        proof {
            reveal(streams_ok);
        }
        proof {
            reveal(streamed);
        }
        let open = match self.streams.get(slot) {
            Some(stream) => stream.open_block(kind),
            None => None,
        };
        let id: u64 = match open {
            Some(id) => id,
            None => {
                let id: u64 = self.transcript.append(kind, opening, collapsed);
                self.streams.slot(slot).set_open_block(kind, id);
                id
            },
        };
        self.transcript.extend(id, text);
        id
    }

    fn set_working(&mut self, slot: usize)
        requires
            old(self).wf(),
        ensures
            final(self).wf(),
            final(self)@ == working(old(self)@, slot),
    {
        self.active_agent = self.roster.agent_name(slot);
        self.roster.set_state(slot, AgentState::Working);
    }

    /// Puts an agent in front.
    fn name_active(&mut self, slot: usize)
        requires
            old(self).wf(),
        ensures
            final(self).wf(),
            final(self)@ == (AppView {
                active_agent: name_of(old(self)@.roster.agents, slot),
                ..old(self)@
            }),
    {
        self.active_agent = self.roster.agent_name(slot);
    }

    fn begin(&mut self, slot: usize, moment: Moment)
        requires
            old(self).wf(),
        ensures
            final(self).wf(),
            final(self)@ == begun(old(self)@, slot, moment),
    {
        self.roster.begin_turn(slot, moment.now);
    }

    /// Shows the state of a tool call.
    fn show_tool(&mut self, slot: usize, update: &ToolUpdate)
        requires
            old(self).wf(),
        ensures
            final(self).wf(),
            final(self)@ == tool_shown(old(self)@, slot, update@),
    {
        proof {
            reveal(streams_ok);
        }
        proof {
            reveal(tool_shown);
        }
        let kind = kind_of_tool(update);
        let name = self.roster.agent_name(slot);
        let source = source_of_tool(name.as_str(), update);
        let collapsed = if kind == BlockKind::Activity {
            true
        } else {
            match self.settings.tool_expand_policy {
                ToolExpandPolicy::Always => false,
                ToolExpandPolicy::Never => true,
                ToolExpandPolicy::Fail => self.settings.collapse_details && update.status
                    != ToolStatus::Failed,
            }
        };
        let known = match self.streams.get(slot) {
            Some(stream) => stream.tool_block(update.id.as_str()),
            None => None,
        };
        let replaced = match known {
            Some(id) => self.transcript.replace(id, kind, source.as_str(), collapsed),
            None => false,
        };
        let id: u64 = if replaced {
            known.unwrap()
        } else {
            let id: u64 = self.transcript.append(kind, source.as_str(), collapsed);
            self.streams.slot(slot).set_tool_block(update.id.as_str(), id);
            id
        };
        if kind == BlockKind::Diff {
            self.focused_detail = Some(id);
        }
    }

    /// Offers the commands that the agents advertise now.
    pub(crate) fn refresh_prompt_completions(&mut self)
        requires
            old(self).wf(),
        ensures
            final(self).wf(),
            final(self)@ == refreshed(old(self)@),
    {
        let base = crate::events::copy_strings(&self.base_prompt_completions);
        let candidates = self.roster.completions(base);
        self.prompt_editor.set_completion_candidates(candidates);
    }

    /// An agent starts anew.
    pub fn mark_agent_reloaded(&mut self, slot: usize)
        requires
            old(self).wf(),
        ensures
            final(self).wf(),
            final(self)@ == agent_reloading(old(self)@, slot),
    {
        self.roster.agent_reloaded(slot);
        self.status = "reloading agent".to_owned();
    }

    /// An agent was dropped.
    pub fn mark_agent_dropped(&mut self, slot: usize)
        requires
            old(self).wf(),
        ensures
            final(self).wf(),
            final(self)@ == agent_gone(old(self)@, slot),
    {
        self.roster.agent_dropped(slot);
        self.refresh_prompt_completions();
        let mut status = to_chars("agent ");
        append_decimal(&mut status, slot as u64);
        append_text(&mut status, " dropped");
        self.status = to_text(&status);
    }

    /// Moves the visible identity and per-agent state alongside a promoted roster member.
    pub fn promote_agent(&mut self, slot: usize) -> (done: bool)
        requires
            old(self).wf(),
        ensures
            final(self).wf(),
            done == can_promote(old(self)@.roster, slot),
            final(self)@ == owner_changed(old(self)@, slot),
    {
        if !self.roster.promote_agent(slot) {
            assert(self@ == old(self)@);
            return false;
        }
        let ghost moved = AppView { roster: promoted(old(self)@.roster, slot), ..old(self)@ };
        assert(self@ == moved);
        self.refresh_prompt_completions();
        self.name_active(0);
        true
    }

    /// Moves two visible roster identities and their per-agent state together.
    pub fn swap_agents(&mut self, first: usize, second: usize) -> (done: bool)
        requires
            old(self).wf(),
        ensures
            final(self).wf(),
            done == can_swap(old(self)@.roster, first, second),
            final(self)@ == places_changed(old(self)@, first, second),
    {
        if !self.roster.swap_agents(first, second) {
            assert(self@ == old(self)@);
            return false;
        }
        let ghost moved = AppView {
            roster: swapped(old(self)@.roster, first, second),
            ..old(self)@
        };
        assert(self@ == moved);
        self.refresh_prompt_completions();
        self.name_active(first);
        true
    }

    fn add_agent(&mut self, slot: usize, name: &str, identity: &str)
        requires
            old(self).wf(),
        ensures
            final(self).wf(),
            final(self)@ == agent_added(old(self)@, slot, name@, identity@),
    {
        self.roster.set_agent_name(slot, name.to_owned());
        self.roster.set_agent_identity(slot, identity.to_owned());
        let mut status = to_chars("agent ");
        append_decimal(&mut status, slot as u64);
        append_text(&mut status, " added");
        self.status = to_text(&status);
    }

    fn change_roster(&mut self, update: &RosterUpdate)
        requires
            old(self).wf(),
        ensures
            final(self).wf(),
            final(self)@ == roster_changed(old(self)@, update@),
    {
        proof {
            reveal(roster_changed);
        }
        match update {
            RosterUpdate::Added { slot, name, identity } => {
                self.add_agent(*slot, name.as_str(), identity.as_str());
            },
            RosterUpdate::Reloaded { slot } => {
                self.mark_agent_reloaded(*slot);
            },
            RosterUpdate::Dropped { slot } => {
                self.mark_agent_dropped(*slot);
            },
            RosterUpdate::Promoted { from } => {
                self.promote_agent(*from);
                self.say("new owner is active");
            },
            RosterUpdate::Swapped { first, second } => {
                self.swap_agents(*first, *second);
                let mut status = to_chars("agents ");
                append_decimal(&mut status, *first as u64);
                append_text(&mut status, " and ");
                append_decimal(&mut status, *second as u64);
                append_text(&mut status, " swapped");
                self.say(to_text(&status).as_str());
            },
            RosterUpdate::Rejected { action, detail } => {
                let mut status = to_chars("unable to ");
                append_text(&mut status, action.as_str());
                append_text(&mut status, ": ");
                append_text(&mut status, detail.as_str());
                self.say(to_text(&status).as_str());
            },
        }
    }

    /// Shows a status.
    pub(crate) fn say(&mut self, status: &str)
        requires
            old(self).wf(),
        ensures
            final(self).wf(),
            final(self)@ == (AppView { status: status@, ..old(self)@ }),
    {
        self.status = status.to_owned();
    }

    fn drop_question(&mut self, slot: usize)
        requires
            old(self).wf(),
        ensures
            final(self).wf(),
            final(self)@ == unasked(old(self)@, slot),
    {
        let asked = match &self.permission {
            Some(prompt) => prompt.asked_by() == slot,
            None => false,
        };
        if asked {
            self.permission = None;
        }
    }

    fn note_tool(&mut self, slot: usize, update: &ToolUpdate, moment: Moment)
        requires
            old(self).wf(),
        ensures
            final(self).wf(),
            final(self)@ == tool_updated(old(self)@, slot, update@, moment),
    {
        proof {
            reveal(tool_updated);
        }
        self.begin(slot, moment);
        let title = to_text(&to_lower_chars(&trimmed_start(&to_chars(update.title.as_str()))));
        if has_prefix(title.as_str(), "wait") {
            self.set_working(slot);
            self.status = "waiting".to_owned();
            return;
        }
        let silent = match &update.detail {
            Some(detail) => blank(detail.as_str()),
            None => true,
        };
        if eq_ignore_case(trimmed_text(update.title.as_str()).as_str(), "tool call") && silent {
            return;
        }
        self.roster.note_tool(slot, update.id.as_str());
        self.show_tool(slot, update);
    }

    fn show_history(&mut self, slot: usize, content: &HistoryContent, moment: Moment)
        requires
            old(self).wf(),
        ensures
            final(self).wf(),
            final(self)@ == history_shown(old(self)@, slot, content@, moment),
    {
        proof {
            reveal(history_shown);
        }
        let name = self.roster.agent_name(slot);
        match content {
            HistoryContent::UserText(text) => {
                let mut opening = to_chars(name.as_str());
                append_text(&mut opening, ": ");
                self.stream_text(
                    slot,
                    BlockKind::Human,
                    to_text(&opening).as_str(),
                    false,
                    text.as_str(),
                );
            },
            HistoryContent::Text(text) => {
                let opening = agent_message_prefix(name.as_str(), moment);
                self.stream_text(slot, BlockKind::Agent, opening.as_str(), false, text.as_str());
            },
            HistoryContent::Thought(text) => {
                let opening = agent_message_prefix(name.as_str(), moment);
                let collapsed = !self.settings.show_thoughts;
                self.stream_text(
                    slot,
                    BlockKind::Thought,
                    opening.as_str(),
                    collapsed,
                    text.as_str(),
                );
            },
            HistoryContent::Tool(update) => {
                self.show_tool(slot, update);
            },
        }
    }

    fn complete_turn(&mut self, slot: usize)
        requires
            old(self).wf(),
        ensures
            final(self).wf(),
            final(self)@ == turn_completed(old(self)@, slot),
    {
        proof {
            reveal(streams_ok);
        }
        proof {
            reveal(turn_completed);
        }
        self.drop_question(slot);
        *self.streams.slot(slot) = crate::slots::Blank::blank();
        self.roster.turn_completed(slot);
        self.say("idle");
    }

    fn fail_agent(&mut self, slot: usize, started: bool, detail: &str)
        requires
            old(self).wf(),
        ensures
            final(self).wf(),
            final(self)@ == agent_failed(old(self)@, slot, started, detail@),
    {
        proof {
            reveal(agent_failed);
        }
        self.drop_question(slot);
        self.name_active(slot);
        self.roster.agent_failed(slot);
        self.close_texts(slot);
        let mut status = if started {
            to_chars("crashed: ")
        } else {
            to_chars("failed to start: ")
        };
        append_text(&mut status, detail);
        if started {
            append_text(&mut status, " · /reload or /drop");
        }
        self.say(to_text(&status).as_str());
    }

    fn close_texts(&mut self, slot: usize)
        requires
            old(self).wf(),
        ensures
            final(self).wf(),
            final(self)@ == (AppView {
                streams: put(
                    old(self)@.streams,
                    slot,
                    StreamView {
                        tools: held::<StreamRecord>(old(self)@.streams, slot).tools,
                        ..no_stream()
                    },
                ),
                ..old(self)@
            }),
    {
        proof {
            reveal(streams_ok);
        }
        let stream = self.streams.slot(slot);
        stream.agent = None;
        stream.thought = None;
        stream.human = None;
    }

    fn ready_agent(&mut self, slot: usize)
        requires
            old(self).wf(),
        ensures
            final(self).wf(),
            final(self)@ == agent_ready(old(self)@, slot),
    {
        proof {
            reveal(agent_ready);
        }
        proof {
            reveal(in_state);
        }
        self.active_agent = self.roster.agent_name(slot);
        self.roster.set_state(slot, AgentState::Ready);
        let failed = match self.roster.last_failed() {
            Some(failed) => failed == slot,
            None => false,
        };
        if failed {
            self.roster.set_failed(None);
        }
        if !is_error(self.status.as_str()) {
            self.status = "ready".to_owned();
        }
    }

    fn set_modes(&mut self, slot: usize, modes: Vec<Mode>, current: Option<String>)
        requires
            old(self).wf(),
        ensures
            final(self).wf(),
            final(self)@ == modes_changed(
                old(self)@,
                slot,
                item_contents(modes@),
                optional(current),
            ),
    {
        proof {
            reveal(modes_changed);
        }
        self.roster.set_modes(slot, modes, current);
    }

    fn set_models(&mut self, slot: usize, models: Vec<String>, current: Option<String>)
        requires
            old(self).wf(),
        ensures
            final(self).wf(),
            final(self)@ == models_changed(
                old(self)@,
                slot,
                strings(models@),
                optional(current),
            ),
    {
        proof {
            reveal(models_changed);
        }
        self.roster.set_models(slot, models, current);
    }

    fn set_usage(&mut self, slot: usize, usage: UsageUpdate)
        requires
            old(self).wf(),
        ensures
            final(self).wf(),
            final(self)@ == usage_changed(old(self)@, slot, usage),
    {
        proof {
            reveal(usage_changed);
        }
        self.roster.set_usage(slot, usage);
    }

    fn set_commands(&mut self, slot: usize, commands: &Vec<AgentCommand>)
        requires
            old(self).wf(),
        ensures
            final(self).wf(),
            final(self)@ == commands_changed(old(self)@, slot, item_contents(commands@)),
    {
        proof {
            reveal(commands_changed);
        }
        self.roster.set_commands(slot, copy_commands(commands));
        self.refresh_prompt_completions();
    }

    fn hear_person(&mut self, slot: usize, text: &str, moment: Moment)
        requires
            old(self).wf(),
        ensures
            final(self).wf(),
            final(self)@ == person_said(old(self)@, slot, text@, moment),
    {
        proof {
            reveal(person_said);
        }
        self.begin(slot, moment);
        let mut opening = to_chars(self.roster.agent_name(slot).as_str());
        append_text(&mut opening, ": ");
        self.stream_text(slot, BlockKind::Human, to_text(&opening).as_str(), false, text);
        self.set_working(slot);
    }

    fn hear_agent(&mut self, slot: usize, text: &str, moment: Moment)
        requires
            old(self).wf(),
        ensures
            final(self).wf(),
            final(self)@ == agent_said(old(self)@, slot, text@, moment),
    {
        proof {
            reveal(agent_said);
        }
        self.begin(slot, moment);
        let opening = agent_message_prefix(self.roster.agent_name(slot).as_str(), moment);
        self.stream_text(slot, BlockKind::Agent, opening.as_str(), false, text);
        self.set_working(slot);
        self.say("streaming");
    }

    fn hear_thought(&mut self, slot: usize, text: &str, moment: Moment)
        requires
            old(self).wf(),
        ensures
            final(self).wf(),
            final(self)@ == agent_thought(old(self)@, slot, text@, moment),
    {
        proof {
            reveal(agent_thought);
        }
        self.begin(slot, moment);
        let opening = agent_message_prefix(self.roster.agent_name(slot).as_str(), moment);
        let collapsed = !self.settings.show_thoughts;
        let id: u64 = self.stream_text(
            slot,
            BlockKind::Thought,
            opening.as_str(),
            collapsed,
            text,
        );
        self.set_working(slot);
        self.say("thinking");
        self.focused_detail = Some(id);
    }

    fn ask_permission(&mut self, slot: usize, request: &PermissionRequest, moment: Moment)
        requires
            old(self).wf(),
        ensures
            final(self).wf(),
            final(self)@ == permission_asked(old(self)@, slot, request@, moment),
    {
        proof {
            reveal(permission_asked);
        }
        self.begin(slot, moment);
        self.set_working(slot);
        let mut status = to_chars("permission: ");
        append_text(&mut status, request.title.as_str());
        self.say(to_text(&status).as_str());
        self.permission = Some(PermissionPrompt::new(slot, request));
    }

    fn show_terminal(&mut self, slot: usize, event: &TerminalEvent, moment: Moment)
        requires
            old(self).wf(),
        ensures
            final(self).wf(),
            final(self)@ == terminal_shown(old(self)@, slot, event@, moment),
    {
        proof {
            reveal(terminal_shown);
        }
        self.begin(slot, moment);
        let source = source_of_terminal(self.roster.agent_name(slot).as_str(), event);
        self.transcript.append(BlockKind::Activity, source.as_str(), true);
        self.roster.set_state(slot, AgentState::Working);
    }

    /// Applies normalized agent state without exposing protocol-specific objects to the
    /// renderer. Text chunks are coalesced into one transcript block per active turn.
    pub fn apply_event(&mut self, event: &AgentEvent, moment: Moment)
        requires
            old(self).wf(),
        ensures
            final(self).wf(),
            final(self)@ == after_event(old(self)@, event@, moment),
    {
        match event {
            AgentEvent::RosterUpdated { update } => self.change_roster(update),
            AgentEvent::Ready { slot, capabilities } => self.ready_agent(*slot),
            AgentEvent::ModesReplaced { slot, modes, current_mode } => {
                self.set_modes(*slot, copy_modes(modes), copy_optional(current_mode));
            },
            AgentEvent::ModeUpdated { slot, current_mode } => {
                let modes = self.roster.modes(*slot);
                self.set_modes(*slot, modes, Some(current_mode.clone()));
            },
            AgentEvent::ModelsReplaced { slot, config_id, models, current_model } => {
                self.set_models(*slot, copy_strings(models), copy_optional(current_model));
            },
            AgentEvent::ModelUpdated { slot, current_model } => {
                let (models, current) = self.roster.models(*slot);
                self.set_models(*slot, models, Some(current_model.clone()));
            },
            AgentEvent::CommandsReplaced { slot, commands } => self.set_commands(*slot, commands),
            AgentEvent::UsageUpdated { slot, usage } => self.set_usage(*slot, *usage),
            AgentEvent::UserText { slot, text } => {
                self.hear_person(*slot, text.as_str(), moment);
            },
            AgentEvent::Text { slot, text } => self.hear_agent(*slot, text.as_str(), moment),
            AgentEvent::Thought { slot, text } => {
                self.hear_thought(*slot, text.as_str(), moment);
            },
            AgentEvent::Tool { slot, update } => self.note_tool(*slot, update, moment),
            AgentEvent::History { slot, content } => self.show_history(*slot, content, moment),
            AgentEvent::Permission { slot, request } => {
                self.ask_permission(*slot, request, moment);
            },
            AgentEvent::Terminal { slot, event } => self.show_terminal(*slot, event, moment),
            AgentEvent::TurnStarted { slot } => {
                self.begin(*slot, moment);
                self.set_working(*slot);
            },
            AgentEvent::TurnComplete { slot } => self.complete_turn(*slot),
            AgentEvent::Failed { slot, started, detail } => {
                self.fail_agent(*slot, *started, detail.as_str());
            },
            _ => {},
        }
    }
}

} // verus!
