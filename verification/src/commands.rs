//! The commands that a person types into the prompt.

use crate::app::{streams_ok, App, AppView};
use crate::config::{ConfigSnapshot, ConfigView, SnapshotView, CONFIG_SETTING_COUNT};
use crate::events::copy_optional;
use crate::roster::{advertises, all_commands};
use crate::settings::{known_mode, normalized_mode, SettingsView};
use crate::slots::SlotTable;
use crate::store::copy_agents;
use crate::text::{
    append_text, begins_with, behind_word, contents, has_first, join, joined, lower, optional,
    parse_number, parse_u64, same, slice_to_string, split_words, to_chars, to_lower, to_text, trim,
    trimmed, word_end, words,
};
use vstd::prelude::*;

verus! {

/// What a typed command asks the session to do.
#[derive(Clone, Debug, Eq, PartialEq)]
pub enum LocalCommand {
    Handled,
    Close,
    Cancel,
    Mode,
    Collaboration,
    Export,
    Add(String),
    Reload,
    Drop,
    DropSlot(usize),
    Promote(usize),
    Swap(usize, usize),
    SelectAgent(usize),
    SelectText,
    Diff,
    /// Repeat a request, or say what is repeated; with the text behind the command.
    Loop(String),
    /// Set, run, end or show the goal; with the text behind the command.
    Goal(String),
    /// Say what runs, and with whom.
    Status,
    /// Say what was observed of the last task.
    Summary,
    /// Browse the saved conversations.
    Sessions,
    /// Open the previous conversation.
    Resume,
}

pub enum LocalView {
    Handled,
    Close,
    Cancel,
    Mode,
    Collaboration,
    Export,
    Add(Seq<char>),
    Reload,
    Drop,
    DropSlot(usize),
    Promote(usize),
    Swap(usize, usize),
    SelectAgent(usize),
    SelectText,
    Diff,
    Loop(Seq<char>),
    Goal(Seq<char>),
    Status,
    Summary,
    Sessions,
    Resume,
}

impl View for LocalCommand {
    type V = LocalView;

    open spec fn view(&self) -> LocalView {
        match self {
            LocalCommand::Handled => LocalView::Handled,
            LocalCommand::Close => LocalView::Close,
            LocalCommand::Cancel => LocalView::Cancel,
            LocalCommand::Mode => LocalView::Mode,
            LocalCommand::Collaboration => LocalView::Collaboration,
            LocalCommand::Export => LocalView::Export,
            LocalCommand::Add(agent) => LocalView::Add(agent@),
            LocalCommand::Reload => LocalView::Reload,
            LocalCommand::Drop => LocalView::Drop,
            LocalCommand::DropSlot(slot) => LocalView::DropSlot(*slot),
            LocalCommand::Promote(slot) => LocalView::Promote(*slot),
            LocalCommand::Swap(first, second) => LocalView::Swap(*first, *second),
            LocalCommand::SelectAgent(slot) => LocalView::SelectAgent(*slot),
            LocalCommand::SelectText => LocalView::SelectText,
            LocalCommand::Diff => LocalView::Diff,
            LocalCommand::Loop(text) => LocalView::Loop(text@),
            LocalCommand::Goal(text) => LocalView::Goal(text@),
            LocalCommand::Status => LocalView::Status,
            LocalCommand::Summary => LocalView::Summary,
            LocalCommand::Sessions => LocalView::Sessions,
            LocalCommand::Resume => LocalView::Resume,
        }
    }
}

/// The surface with a status.
pub open spec fn saying(app: AppView, status: Seq<char>) -> AppView {
    AppView { status, ..app }
}

/// The configuration as it is, to be restored when changes are discarded.
pub open spec fn snapshot_of(app: AppView) -> SnapshotView {
    SnapshotView {
        follow_tail: app.follow_tail,
        settings: app.settings,
        agents: app.config.agents,
    }
}

/// The surface with the configuration panel open at a row. A panel that is already
/// open keeps what it restores.
#[verifier::opaque]
pub open spec fn config_opened(app: AppView, row: usize, status: Seq<char>) -> AppView {
    AppView {
        config: ConfigView {
            visible: true,
            selected: row,
            snapshot: if app.config.visible {
                app.config.snapshot
            } else {
                Some(snapshot_of(app))
            },
            ..app.config
        },
        status,
        ..app
    }
}

/// The slot that a text names.
pub open spec fn slot_in(text: Seq<char>) -> Option<usize> {
    match parse_number(text, usize::MAX as nat) {
        Some(n) => Some(n as usize),
        None => None,
    }
}

/// The slots that some texts name; other texts are passed over.
pub open spec fn slots_in(texts: Seq<Seq<char>>) -> Seq<usize>
    decreases texts.len(),
{
    if texts.len() == 0 {
        Seq::empty()
    } else {
        match slot_in(texts.last()) {
            Some(slot) => slots_in(texts.drop_last()).push(slot),
            None => slots_in(texts.drop_last()),
        }
    }
}

/// The surface in a mode, which the agents are asked to take on where it stands for a
/// policy.
#[verifier::opaque]
pub open spec fn mode_adopted(app: AppView, label: Seq<char>, policy: Option<Seq<char>>) -> AppView {
    AppView {
        settings: SettingsView { mode: label, mode_policy: policy, ..app.settings },
        requested_mode: policy,
        status: "mode set to "@ + label,
        ..app
    }
}

/// What `/mode` does.
pub open spec fn mode_command(app: AppView, argument: Seq<char>) -> (AppView, LocalView) {
    let name = lower(argument);
    if argument.len() == 0 {
        (config_opened(app, 3, "mode configuration"@), LocalView::Handled)
    } else if name == "chat"@ || name == "discuss"@ || name == "discussion"@ {
        (mode_adopted(app, "Chat"@, None), LocalView::Mode)
    } else {
        match known_mode(argument) {
            Some((id, label)) => (mode_adopted(app, label, Some(id)), LocalView::Mode),
            None => (saying(app, "Use /mode to choose a mode"@), LocalView::Handled),
        }
    }
}

/// The collaboration that a name stands for.
pub open spec fn known_collaboration(name: Seq<char>) -> Option<Seq<char>> {
    if lower(name) == "roster"@ {
        Some("Roster relay"@)
    } else if lower(name) == "manual"@ {
        Some("Manual routing"@)
    } else if lower(name) == "pair"@ {
        Some("Pair review"@)
    } else {
        None
    }
}

/// The surface in a collaboration.
#[verifier::opaque]
pub open spec fn collaboration_adopted(app: AppView, collaboration: Seq<char>) -> AppView {
    AppView {
        settings: SettingsView { collaboration, ..app.settings },
        status: "collaboration set to "@ + collaboration,
        ..app
    }
}

/// What `/collab` does.
pub open spec fn collaboration_command(app: AppView, argument: Seq<char>) -> (AppView, LocalView) {
    if argument.len() == 0 {
        (config_opened(app, 4, "collaboration configuration"@), LocalView::Handled)
    } else {
        match known_collaboration(argument) {
            Some(collaboration) => (
                collaboration_adopted(app, collaboration),
                LocalView::Collaboration,
            ),
            None => (
                saying(app, "Use /collab roster, /collab manual, or /collab pair"@),
                LocalView::Handled,
            ),
        }
    }
}

/// The surface with diffs in one or two columns.
#[verifier::opaque]
pub open spec fn diffs_shown(app: AppView, split: bool) -> AppView {
    AppView {
        settings: SettingsView { diff_split: split, ..app.settings },
        status: if split {
            "diff view set to split"@
        } else {
            "diff view set to unified"@
        },
        ..app
    }
}

/// What `/diff` does.
pub open spec fn diff_command(app: AppView, argument: Seq<char>) -> (AppView, LocalView) {
    let name = lower(argument);
    if name == "split"@ {
        (diffs_shown(app, true), LocalView::Diff)
    } else if name == "unified"@ || name == "inline"@ {
        (diffs_shown(app, false), LocalView::Diff)
    } else {
        (saying(app, "usage: /diff split or /diff unified"@), LocalView::Handled)
    }
}

/// What `/swap` does.
pub open spec fn swap_command(app: AppView, rest: Seq<Seq<char>>) -> (AppView, LocalView) {
    let slots = slots_in(rest);
    if slots.len() == 2 {
        (app, LocalView::Swap(slots[0], slots[1]))
    } else {
        (saying(app, "usage: /swap SLOT SLOT"@), LocalView::Handled)
    }
}

/// The surface without a conversation.
#[verifier::opaque]
pub open spec fn cleared(app: AppView) -> AppView {
    AppView {
        transcript: Seq::empty(),
        scroll_y: 0,
        streams: Seq::empty(),
        focused_detail: None,
        status: "conversation cleared"@,
        ..app
    }
}

/// The surface with the keyboard help turned on or off.
#[verifier::opaque]
pub open spec fn help_toggled(app: AppView) -> AppView {
    AppView {
        keyboard_help: !app.keyboard_help,
        status: if app.keyboard_help {
            "keyboard help hidden"@
        } else {
            "keyboard help shown"@
        },
        ..app
    }
}

/// What a command does; `None` where it is none of the local ones.
pub open spec fn known_command(
    app: AppView,
    command: Seq<char>,
    rest: Seq<Seq<char>>,
) -> Option<(AppView, LocalView)> {
    let argument = join(rest, " "@);
    if command == "/quit"@ || command == "/exit"@ || command == "/close"@ {
        Some((app, LocalView::Close))
    } else if command == "/cancel"@ {
        Some((app, LocalView::Cancel))
    } else if command == "/mode"@ {
        Some(mode_command(app, argument))
    } else if command == "/collab"@ || command == "/collaboration"@ {
        Some(collaboration_command(app, argument))
    } else if command == "/export"@ {
        Some((app, LocalView::Export))
    } else if command == "/agents"@ {
        Some(
            (config_opened(app, CONFIG_SETTING_COUNT, "roster settings"@), LocalView::Handled),
        )
    } else if command == "/add"@ {
        if argument.len() == 0 {
            Some(
                (
                    saying(app, "usage: /add AGENT, agy:COMMAND, or acp:COMMAND"@),
                    LocalView::Handled,
                ),
            )
        } else {
            Some((app, LocalView::Add(argument)))
        }
    } else if command == "/reload"@ {
        Some((app, LocalView::Reload))
    } else if command == "/drop"@ {
        match slot_in(argument) {
            Some(slot) => Some((app, LocalView::DropSlot(slot))),
            None => Some((app, LocalView::Drop)),
        }
    } else if command == "/promote"@ {
        match slot_in(argument) {
            Some(slot) => Some((app, LocalView::Promote(slot))),
            None => Some((app, LocalView::Handled)),
        }
    } else if command == "/swap"@ {
        Some(swap_command(app, rest))
    } else if command == "/to"@ || command == "/agent"@ {
        match slot_in(argument) {
            Some(slot) => Some((app, LocalView::SelectAgent(slot))),
            None => Some((saying(app, "usage: /to SLOT"@), LocalView::Handled)),
        }
    } else if command == "/select"@ {
        Some((app, LocalView::SelectText))
    } else if command == "/diff"@ {
        Some(diff_command(app, argument))
    } else if command == "/help"@ {
        Some((help_toggled(app), LocalView::Handled))
    } else if command == "/status"@ {
        Some((app, LocalView::Status))
    } else if command == "/summary"@ {
        Some((app, LocalView::Summary))
    } else if command == "/sessions"@ {
        Some((app, LocalView::Sessions))
    } else if command == "/resume"@ {
        Some((app, LocalView::Resume))
    } else if command == "/clear"@ {
        Some((cleared(app), LocalView::Handled))
    } else if command == "/config"@ || command == "/settings"@ {
        Some((config_opened(app, 0, "configuration"@), LocalView::Handled))
    } else {
        None
    }
}

/// What a typed line does as a command; `None` where it is for the agents. Commands
/// that agents advertise are theirs; any other line that begins with a slash is
/// unknown.
pub open spec fn typed(app: AppView, input: Seq<char>) -> Option<(AppView, LocalView)> {
    let parts = words(input);
    if parts.len() == 0 {
        None
    } else {
        let command = lower(parts[0]);
        match known_command(app, command, parts.drop_first()) {
            Some(done) => Some(done),
            None => if command == "/loop"@ {
                Some((app, LocalView::Loop(behind_word(trim(input)))))
            } else if command == "/goal"@ {
                Some((app, LocalView::Goal(behind_word(trim(input)))))
            } else if !begins_with(command, '/') || advertises(
                all_commands(app.roster.agents),
                command,
            ) {
                None
            } else {
                Some((saying(app, "unknown command: "@ + input), LocalView::Handled))
            },
        }
    }
}

/// A line that does not begin with a slash is never taken from the agents.
pub proof fn law_plain_text_is_for_the_agents(app: AppView, input: Seq<char>)
    requires
        words(input).len() > 0,
        !begins_with(lower(words(input)[0]), '/'),
    ensures
        typed(app, input) is None,
{
    reveal_strlit("/quit");
    reveal_strlit("/exit");
    reveal_strlit("/close");
    reveal_strlit("/cancel");
    reveal_strlit("/mode");
    reveal_strlit("/collab");
    reveal_strlit("/collaboration");
    reveal_strlit("/export");
    reveal_strlit("/agents");
    reveal_strlit("/agent");
    reveal_strlit("/add");
    reveal_strlit("/reload");
    reveal_strlit("/drop");
    reveal_strlit("/promote");
    reveal_strlit("/swap");
    reveal_strlit("/to");
    reveal_strlit("/select");
    reveal_strlit("/diff");
    reveal_strlit("/help");
    reveal_strlit("/clear");
    reveal_strlit("/config");
    reveal_strlit("/settings");
    reveal_strlit("/loop");
    reveal_strlit("/goal");
    reveal_strlit("/status");
    reveal_strlit("/summary");
    reveal_strlit("/sessions");
    reveal_strlit("/resume");
}

/// What stands behind the first word of a line.
fn text_behind_word(input: &str) -> (rest: String)
    ensures
        rest@ == behind_word(trim(input@)),
{
    let written = trimmed(&to_chars(input));
    let end = word_end(&written);
    let rest = slice_to_string(&written, end, written.len());
    assert(rest@ =~= behind_word(trim(input@)));
    rest
}

fn read_slot(text: &str) -> (slot: Option<usize>)
    ensures
        slot == slot_in(text@),
{
    match parse_u64(text, usize::MAX as u64) {
        Some(n) => Some(n as usize),
        None => None,
    }
}

fn read_slots(texts: &Vec<Vec<char>>) -> (slots: Vec<usize>)
    ensures
        slots@ == slots_in(contents(texts@)),
{
    let ghost all = contents(texts@);
    let mut slots: Vec<usize> = Vec::new();
    let mut i: usize = 0;
    assert(all.take(0) =~= Seq::empty());
    while i < texts.len()
        invariant
            i <= texts@.len(),
            all == contents(texts@),
            slots@ == slots_in(all.take(i as int)),
        decreases texts@.len() - i,
    {
        assert(all.take(i + 1).drop_last() =~= all.take(i as int));
        assert(all.take(i + 1).last() == texts@[i as int]@);
        if let Some(slot) = read_slot(to_text(&texts[i]).as_str()) {
            slots.push(slot);
        }
        i = i + 1;
    }
    assert(all.take(i as int) =~= all);
    slots
}

impl App {
    /// Opens the configuration panel at a row.
    pub(crate) fn open_config(&mut self, row: usize, status: &str)
        requires
            old(self).wf(),
            row <= CONFIG_SETTING_COUNT,
        ensures
            final(self).wf(),
            final(self)@ == config_opened(old(self)@, row, status@),
    {
        proof {
            reveal(config_opened);
        }
        if !self.config.visible {
            self.config.snapshot = Some(
                ConfigSnapshot {
                    follow_tail: self.follow_tail,
                    settings: self.settings.copy(),
                    agents: copy_agents(&self.config.agents),
                },
            );
        }
        self.config.visible = true;
        self.config.selected = row;
        self.status = status.to_owned();
    }

    /// Opens the configuration panel at the mode.
    pub fn open_mode_config(&mut self)
        requires
            old(self).wf(),
        ensures
            final(self).wf(),
            final(self)@ == config_opened(old(self)@, 3, "mode configuration"@),
    {
        self.open_config(3, "mode configuration");
    }

    /// Opens the configuration panel at the collaboration.
    pub fn open_collaboration_config(&mut self)
        requires
            old(self).wf(),
        ensures
            final(self).wf(),
            final(self)@ == config_opened(old(self)@, 4, "collaboration configuration"@),
    {
        self.open_config(4, "collaboration configuration");
    }

    fn adopt_mode(&mut self, label: &str, policy: Option<String>)
        requires
            old(self).wf(),
        ensures
            final(self).wf(),
            final(self)@ == mode_adopted(old(self)@, label@, optional(policy)),
    {
        proof {
            reveal(mode_adopted);
        }
        self.settings.mode = label.to_owned();
        self.settings.mode_policy = copy_optional(&policy);
        self.requested_mode = policy;
        let mut status = to_chars("mode set to ");
        append_text(&mut status, label);
        self.status = to_text(&status);
    }

    fn run_mode(&mut self, argument: &str) -> (done: LocalCommand)
        requires
            old(self).wf(),
        ensures
            final(self).wf(),
            (final(self)@, done@) == mode_command(old(self)@, argument@),
    {
        if argument.unicode_len() == 0 {
            self.open_mode_config();
            return LocalCommand::Handled;
        }
        let name = to_lower(argument);
        if same(name.as_str(), "chat") || same(name.as_str(), "discuss") || same(
            name.as_str(),
            "discussion",
        ) {
            self.adopt_mode("Chat", None);
            return LocalCommand::Mode;
        }
        match normalized_mode(argument) {
            Some((id, label)) => {
                self.adopt_mode(label, Some(id.to_owned()));
                LocalCommand::Mode
            },
            None => {
                self.say("Use /mode to choose a mode");
                LocalCommand::Handled
            },
        }
    }

    fn adopt_collaboration(&mut self, collaboration: &str)
        requires
            old(self).wf(),
        ensures
            final(self).wf(),
            final(self)@ == collaboration_adopted(old(self)@, collaboration@),
    {
        proof {
            reveal(collaboration_adopted);
        }
        self.settings.collaboration = collaboration.to_owned();
        let mut status = to_chars("collaboration set to ");
        append_text(&mut status, collaboration);
        self.status = to_text(&status);
    }

    fn run_collaboration(&mut self, argument: &str) -> (done: LocalCommand)
        requires
            old(self).wf(),
        ensures
            final(self).wf(),
            (final(self)@, done@) == collaboration_command(old(self)@, argument@),
    {
        if argument.unicode_len() == 0 {
            self.open_collaboration_config();
            return LocalCommand::Handled;
        }
        let name = to_lower(argument);
        if same(name.as_str(), "roster") {
            self.adopt_collaboration("Roster relay");
            LocalCommand::Collaboration
        } else if same(name.as_str(), "manual") {
            self.adopt_collaboration("Manual routing");
            LocalCommand::Collaboration
        } else if same(name.as_str(), "pair") {
            self.adopt_collaboration("Pair review");
            LocalCommand::Collaboration
        } else {
            self.say("Use /collab roster, /collab manual, or /collab pair");
            LocalCommand::Handled
        }
    }

    fn show_diffs(&mut self, split: bool)
        requires
            old(self).wf(),
        ensures
            final(self).wf(),
            final(self)@ == diffs_shown(old(self)@, split),
    {
        proof {
            reveal(diffs_shown);
        }
        self.settings.diff_split = split;
        let status = if split {
            "diff view set to split"
        } else {
            "diff view set to unified"
        };
        self.status = status.to_owned();
    }

    fn run_diff(&mut self, argument: &str) -> (done: LocalCommand)
        requires
            old(self).wf(),
        ensures
            final(self).wf(),
            (final(self)@, done@) == diff_command(old(self)@, argument@),
    {
        let name = to_lower(argument);
        if same(name.as_str(), "split") {
            self.show_diffs(true);
            LocalCommand::Diff
        } else if same(name.as_str(), "unified") || same(name.as_str(), "inline") {
            self.show_diffs(false);
            LocalCommand::Diff
        } else {
            self.say("usage: /diff split or /diff unified");
            LocalCommand::Handled
        }
    }

    fn run_swap(&mut self, rest: &Vec<Vec<char>>) -> (done: LocalCommand)
        requires
            old(self).wf(),
        ensures
            final(self).wf(),
            (final(self)@, done@) == swap_command(old(self)@, contents(rest@)),
    {
        let slots = read_slots(rest);
        if slots.len() == 2 {
            LocalCommand::Swap(slots[0], slots[1])
        } else {
            self.say("usage: /swap SLOT SLOT");
            LocalCommand::Handled
        }
    }

    fn run_clear(&mut self)
        requires
            old(self).wf(),
        ensures
            final(self).wf(),
            final(self)@ == cleared(old(self)@),
    {
        proof {
            reveal(cleared);
            reveal(streams_ok);
        }
        self.transcript.clear();
        self.scroll_y = 0;
        self.streams = SlotTable::new();
        self.focused_detail = None;
        self.status = "conversation cleared".to_owned();
    }

    fn run_help(&mut self)
        requires
            old(self).wf(),
        ensures
            final(self).wf(),
            final(self)@ == help_toggled(old(self)@),
    {
        proof {
            reveal(help_toggled);
        }
        self.status = if self.keyboard_help {
            "keyboard help hidden".to_owned()
        } else {
            "keyboard help shown".to_owned()
        };
        self.keyboard_help = !self.keyboard_help;
    }

    fn run_known(&mut self, command: &str, rest: &Vec<Vec<char>>) -> (done: Option<LocalCommand>)
        requires
            old(self).wf(),
        ensures
            final(self).wf(),
            match done {
                Some(command_done) => known_command(old(self)@, command@, contents(rest@)) == Some(
                    (final(self)@, command_done@),
                ),
                None => known_command(old(self)@, command@, contents(rest@)) is None
                    && final(self)@ == old(self)@,
            },
    {
        let argument = to_text(&joined(rest, " "));
        let text = argument.as_str();
        if same(command, "/quit") || same(command, "/exit") || same(command, "/close") {
            return Some(LocalCommand::Close);
        }
        if same(command, "/cancel") {
            return Some(LocalCommand::Cancel);
        }
        if same(command, "/mode") {
            return Some(self.run_mode(text));
        }
        if same(command, "/collab") || same(command, "/collaboration") {
            return Some(self.run_collaboration(text));
        }
        if same(command, "/export") {
            return Some(LocalCommand::Export);
        }
        if same(command, "/agents") {
            self.open_config(CONFIG_SETTING_COUNT, "roster settings");
            return Some(LocalCommand::Handled);
        }
        if same(command, "/add") {
            if text.unicode_len() == 0 {
                self.say("usage: /add AGENT, agy:COMMAND, or acp:COMMAND");
                return Some(LocalCommand::Handled);
            }
            return Some(LocalCommand::Add(argument));
        }
        if same(command, "/reload") {
            return Some(LocalCommand::Reload);
        }
        if same(command, "/drop") {
            return match read_slot(text) {
                Some(slot) => Some(LocalCommand::DropSlot(slot)),
                None => Some(LocalCommand::Drop),
            };
        }
        if same(command, "/promote") {
            return match read_slot(text) {
                Some(slot) => Some(LocalCommand::Promote(slot)),
                None => Some(LocalCommand::Handled),
            };
        }
        if same(command, "/swap") {
            return Some(self.run_swap(rest));
        }
        if same(command, "/to") || same(command, "/agent") {
            return match read_slot(text) {
                Some(slot) => Some(LocalCommand::SelectAgent(slot)),
                None => {
                    self.say("usage: /to SLOT");
                    Some(LocalCommand::Handled)
                },
            };
        }
        if same(command, "/select") {
            return Some(LocalCommand::SelectText);
        }
        if same(command, "/diff") {
            return Some(self.run_diff(text));
        }
        if same(command, "/help") {
            self.run_help();
            return Some(LocalCommand::Handled);
        }
        if same(command, "/status") {
            return Some(LocalCommand::Status);
        }
        if same(command, "/summary") {
            return Some(LocalCommand::Summary);
        }
        if same(command, "/sessions") {
            return Some(LocalCommand::Sessions);
        }
        if same(command, "/resume") {
            return Some(LocalCommand::Resume);
        }
        if same(command, "/clear") {
            self.run_clear();
            return Some(LocalCommand::Handled);
        }
        if same(command, "/config") || same(command, "/settings") {
            self.open_config(0, "configuration");
            return Some(LocalCommand::Handled);
        }
        None
    }

    /// Handles a typed line as a command; `None` where it is for the agents.
    pub fn handle_local_command(&mut self, input: &str) -> (done: Option<LocalCommand>)
        requires
            old(self).wf(),
        ensures
            final(self).wf(),
            match done {
                Some(command) => typed(old(self)@, input@) == Some((final(self)@, command@)),
                None => typed(old(self)@, input@) is None && final(self)@ == old(self)@,
            },
    {
        let mut parts = split_words(&to_chars(input));
        assert(contents(parts@).len() == parts@.len());
        if parts.len() == 0 {
            return None;
        }
        let ghost before = parts@;
        let first = parts.remove(0);
        proof {
            assert(contents(before).drop_first() =~= contents(parts@));
            assert(contents(before)[0] == first@);
        }
        let command = to_lower(to_text(&first).as_str());
        if let Some(done) = self.run_known(command.as_str(), &parts) {
            return Some(done);
        }
        if same(command.as_str(), "/loop") {
            return Some(LocalCommand::Loop(text_behind_word(input)));
        }
        if same(command.as_str(), "/goal") {
            return Some(LocalCommand::Goal(text_behind_word(input)));
        }
        if !has_first(command.as_str(), '/') || self.roster.is_agent_command(command.as_str()) {
            return None;
        }
        let mut status = to_chars("unknown command: ");
        append_text(&mut status, input);
        self.say(to_text(&status).as_str());
        Some(LocalCommand::Handled)
    }
}

} // verus!
