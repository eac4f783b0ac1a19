//! The rest of the conversation surface: what can be asked of it and set, the prompt,
//! scrolling, the queue and the panels.

use crate::app::{App, AppView};
use crate::config::{countable, ConfigView, CONFIG_SETTING_COUNT};
use crate::editor::{
    heard, prompt_text, remembering, responded, token_of, with_text, with_token, ActionView,
    EditorView, Input, Key, PromptAction, PromptEditor,
};
use crate::events::{copy_modes, copy_optional, AgentCommand, Mode, UsageUpdate};
use crate::labels::compact;
use crate::layout::{at_least_one, lay_out, BlockKind, BlockView};
use crate::order::item_contents;
use crate::path_index::{inserted, insertion_text, IndexRequest, PathIndexUpdate, PathMatch};
use crate::permission::{
    permission_response, PermissionAction, PermissionActionView, PermissionKey, PermissionView,
};
use crate::picker::{
    dismissed, for_workspace, is_open, looking_for, rescanned, updated_all, PickerView,
};
use crate::queue::{can_queue, moved_selection, place_of, queued, without, QueueView, QueuedPrompt};
use crate::roster::{
    active_slots, agent_statuses, all_commands, any_starting, at_rest, called, current_modes,
    each_once, failed_slot, first_given, given_names, identified, name_of, named_slots, recipient,
    record_of, removed, renamed, RosterView,
};
use crate::settings::{
    density_name, density_setting, known_mode, normalized_mode, notification_setting, tool_name,
    tool_setting, Density, NotificationPolicy, SettingsView, ToolExpandPolicy,
};
use crate::store::{
    chosen_identities, selected_identities, store_response, StoreAction, StoreActionView,
    StoreAgent, StoreKey, StoreView,
};
use crate::text::{
    append_text, blank, control, is_blank, is_control, join, optional, same, strings,
    to_chars, to_text,
};
use crate::theme::Theme;
use crate::transcript::exported;
use vstd::prelude::*;

verus! {

/// The generation of the index that a picker belongs to.
pub open spec fn index_generation(picker: PickerView) -> Option<u64> {
    match picker.index {
        Some(index) => Some(index.generation),
        None => None,
    }
}

impl App {
    /// The empty-composer hint.
    pub fn prompt_message(&self) -> (message: &str)
        ensures
            message@ == self@.prompt_message,
    {
        self.prompt_message.as_str()
    }

    pub fn config_visible(&self) -> (visible: bool)
        ensures
            visible == self@.config.visible,
    {
        self.config.visible
    }

    pub fn config_agents(&self) -> (agents: &Vec<StoreAgent>)
        ensures
            item_contents(agents@) == self@.config.agents,
    {
        &self.config.agents
    }

    pub fn config_roster_dirty(&self) -> (dirty: bool)
        ensures
            dirty == self@.config.roster_dirty,
    {
        self.config.roster_dirty
    }

    /// The selected catalog identities in their current order.
    pub fn config_roster_identities(&self) -> (identities: Vec<String>)
        ensures
            strings(identities@) == chosen_identities(self@.config.agents),
    {
        selected_identities(&self.config.agents)
    }

    pub fn store_directory(&self) -> (directory: &str)
        ensures
            directory@ == self@.store.directory,
    {
        self.store.directory()
    }

    pub fn store_editing_directory(&self) -> (editing: bool)
        ensures
            editing == self@.store.editing_directory,
    {
        self.store.editing_directory()
    }

    pub fn store_visible(&self) -> (visible: bool)
        ensures
            visible == self@.store.visible,
    {
        self.store.visible()
    }

    pub fn store_agents(&self) -> (agents: &Vec<StoreAgent>)
        ensures
            item_contents(agents@) == self@.store.agents,
    {
        self.store.agents()
    }

    pub fn collapse_details(&self) -> (collapsed: bool)
        ensures
            collapsed == self@.settings.collapse_details,
    {
        self.settings.collapse_details
    }

    pub fn notifications_enabled(&self) -> (enabled: bool)
        ensures
            enabled == (self@.settings.notification_policy != NotificationPolicy::Never),
    {
        self.settings.notification_policy != NotificationPolicy::Never
    }

    pub fn notification_policy(&self) -> (policy: NotificationPolicy)
        ensures
            policy == self@.settings.notification_policy,
    {
        self.settings.notification_policy
    }

    pub fn sounds_enabled(&self) -> (enabled: bool)
        ensures
            enabled == self@.settings.sounds,
    {
        self.settings.sounds
    }

    pub fn blink_title_enabled(&self) -> (enabled: bool)
        ensures
            enabled == self@.settings.blink_title,
    {
        self.settings.blink_title
    }

    pub fn terminal_alert_active(&self) -> (active: bool)
        ensures
            active == (self@.title_flash > 0),
    {
        self.title_flash > 0
    }

    pub fn terminal_title_blink(&self) -> (blink: bool)
        ensures
            blink == self@.title_blink,
    {
        self.title_blink
    }

    pub fn terminal_focused(&self) -> (focused: bool)
        ensures
            focused == self@.terminal_focused,
    {
        self.terminal_focused
    }

    pub fn thoughts_enabled(&self) -> (enabled: bool)
        ensures
            enabled == self@.settings.show_thoughts,
    {
        self.settings.show_thoughts
    }

    pub fn tools_expanded(&self) -> (expanded: bool)
        ensures
            expanded == (self@.settings.tool_expand_policy == ToolExpandPolicy::Always),
    {
        self.settings.tool_expand_policy == ToolExpandPolicy::Always
    }

    pub fn tool_expand_policy(&self) -> (name: &'static str)
        ensures
            name@ == tool_name(self@.settings.tool_expand_policy),
    {
        self.settings.tool_expand_policy.as_str()
    }

    pub fn density(&self) -> (name: &'static str)
        ensures
            name@ == density_name(self@.settings.density),
    {
        self.settings.density.as_str()
    }

    pub fn scrollbar_visible(&self) -> (visible: bool)
        ensures
            visible == self@.settings.show_scrollbar,
    {
        self.settings.show_scrollbar
    }

    pub fn diff_split(&self) -> (split: bool)
        ensures
            split == self@.settings.diff_split,
    {
        self.settings.diff_split
    }

    pub fn mode(&self) -> (mode: &str)
        ensures
            mode@ == self@.settings.mode,
    {
        self.settings.mode.as_str()
    }

    pub fn collaboration(&self) -> (collaboration: &str)
        ensures
            collaboration@ == self@.settings.collaboration,
    {
        self.settings.collaboration.as_str()
    }

    pub fn export_markdown(&self) -> (text: String)
        ensures
            text@ == exported(self@.transcript),
    {
        self.transcript.markdown()
    }

    pub fn agent_count(&self) -> (count: usize)
        ensures
            count == named_slots(self@.roster.agents).len(),
    {
        self.roster.agent_count()
    }

    /// The names that the agents were given, without numbers.
    pub fn raw_agent_names(&self) -> (names: Vec<String>)
        ensures
            strings(names@) == given_names(self@.roster.agents),
    {
        self.roster.raw_agent_names()
    }

    pub fn active_roster_slots(&self) -> (slots: Vec<usize>)
        ensures
            slots@ == active_slots(self@.roster.agents),
    {
        self.roster.active_roster_slots()
    }

    /// A bounded, stable roster label for the status line.
    pub fn roster_summary(&self) -> (summary: String)
        requires
            self.wf(),
        ensures
            summary@ == compact(join(called(self@.roster.agents), " · "@), 42),
    {
        self.roster.roster_summary()
    }

    /// The agents with what they are doing.
    pub fn active_agents_summary(&self) -> (summary: String)
        requires
            self.wf(),
        ensures
            summary@ == compact(join(agent_statuses(self@.roster.agents), "   "@), 80),
    {
        self.roster.active_agents_summary()
    }

    pub fn failed_agent(&self) -> (slot: Option<usize>)
        requires
            self.wf(),
        ensures
            slot == failed_slot(self@.roster),
    {
        self.roster.failed_agent()
    }

    /// The commands that the agents advertise, each once, in the order of the slots.
    pub fn agent_commands(&self) -> (commands: Vec<AgentCommand>)
        ensures
            item_contents(commands@) == each_once(all_commands(self@.roster.agents)),
    {
        self.roster.agent_commands()
    }

    /// Who receives the next prompt.
    pub fn next_agent_slot(&self) -> (slot: Option<usize>)
        ensures
            slot == recipient(self@.roster),
    {
        self.roster.next_agent_slot()
    }

    pub fn path_picker_visible(&self) -> (visible: bool)
        ensures
            visible == is_open(self@.picker),
    {
        self.picker.visible()
    }

    pub fn path_matches(&self) -> (matches: &Vec<PathMatch>)
        ensures
            item_contents(matches@) == self@.picker.matches,
    {
        self.picker.matches()
    }

    pub fn path_selection(&self) -> (selection: usize)
        ensures
            selection == self@.picker.selection,
    {
        self.picker.selection()
    }

    pub fn queued_prompts(&self) -> (prompts: &Vec<QueuedPrompt>)
        ensures
            item_contents(prompts@) == self@.queue.prompts,
    {
        self.queue.prompts()
    }

    pub fn queued_count(&self) -> (count: usize)
        ensures
            count == self@.queue.prompts.len(),
    {
        self.queue.len()
    }

    pub fn selected_queue_index(&self) -> (index: Option<usize>)
        ensures
            index == self@.queue.selected,
    {
        self.queue.selected()
    }

    pub fn keyboard_help_visible(&self) -> (visible: bool)
        ensures
            visible == self@.keyboard_help,
    {
        self.keyboard_help
    }

    pub fn cancellation_pending(&self) -> (pending: bool)
        ensures
            pending == self@.cancelling,
    {
        self.cancelling
    }
}

impl App {
    pub fn set_collapse_details(&mut self, collapsed: bool)
        requires
            old(self).wf(),
        ensures
            final(self).wf(),
            final(self)@ == (AppView {
                settings: SettingsView { collapse_details: collapsed, ..old(self)@.settings },
                ..old(self)@
            }),
    {
        self.settings.collapse_details = collapsed;
    }

    pub fn set_notification_policy(&mut self, policy: &str)
        requires
            old(self).wf(),
        ensures
            final(self).wf(),
            final(self)@ == (AppView {
                settings: SettingsView { notification_policy: notification_setting(policy@), ..old(self)@.settings },
                ..old(self)@
            }),
    {
        self.settings.notification_policy = NotificationPolicy::from_setting(policy);
    }

    pub fn set_sounds_enabled(&mut self, enabled: bool)
        requires
            old(self).wf(),
        ensures
            final(self).wf(),
            final(self)@ == (AppView {
                settings: SettingsView { sounds: enabled, ..old(self)@.settings },
                ..old(self)@
            }),
    {
        self.settings.sounds = enabled;
    }

    pub fn set_thoughts_enabled(&mut self, enabled: bool)
        requires
            old(self).wf(),
        ensures
            final(self).wf(),
            final(self)@ == (AppView {
                settings: SettingsView { show_thoughts: enabled, ..old(self)@.settings },
                ..old(self)@
            }),
    {
        self.settings.show_thoughts = enabled;
    }

    pub fn set_tool_expand_policy(&mut self, policy: &str)
        requires
            old(self).wf(),
        ensures
            final(self).wf(),
            final(self)@ == (AppView {
                settings: SettingsView { tool_expand_policy: tool_setting(policy@), ..old(self)@.settings },
                ..old(self)@
            }),
    {
        self.settings.tool_expand_policy = ToolExpandPolicy::from_setting(policy);
    }

    pub fn set_density(&mut self, density: &str)
        requires
            old(self).wf(),
        ensures
            final(self).wf(),
            final(self)@ == (AppView {
                settings: SettingsView { density: density_setting(density@), ..old(self)@.settings },
                ..old(self)@
            }),
    {
        self.settings.density = Density::from_setting(density);
    }

    pub fn set_scrollbar_visible(&mut self, visible: bool)
        requires
            old(self).wf(),
        ensures
            final(self).wf(),
            final(self)@ == (AppView {
                settings: SettingsView { show_scrollbar: visible, ..old(self)@.settings },
                ..old(self)@
            }),
    {
        self.settings.show_scrollbar = visible;
    }

    pub fn set_diff_split(&mut self, split: bool)
        requires
            old(self).wf(),
        ensures
            final(self).wf(),
            final(self)@ == (AppView {
                settings: SettingsView { diff_split: split, ..old(self)@.settings },
                ..old(self)@
            }),
    {
        self.settings.diff_split = split;
    }

    pub fn set_collaboration(&mut self, collaboration: &str)
        requires
            old(self).wf(),
        ensures
            final(self).wf(),
            final(self)@ == (AppView {
                settings: SettingsView { collaboration: collaboration@, ..old(self)@.settings },
                ..old(self)@
            }),
    {
        self.settings.collaboration = collaboration.to_owned();
    }

    /// Tracks terminal focus separately from the notification preference.
    pub fn set_terminal_focused(&mut self, focused: bool)
        requires
            old(self).wf(),
        ensures
            final(self).wf(),
            final(self)@ == (AppView { terminal_focused: focused, ..old(self)@ }),
    {
        self.terminal_focused = focused;
    }

    pub fn set_mouse_selection_mode(&mut self, enabled: bool)
        requires
            old(self).wf(),
        ensures
            final(self).wf(),
            final(self)@ == (AppView { mouse_selection_mode: enabled, ..old(self)@ }),
    {
        self.mouse_selection_mode = enabled;
    }

    pub fn clear_terminal_alerts(&mut self)
        requires
            old(self).wf(),
        ensures
            final(self).wf(),
            final(self)@ == (AppView { title_flash: 0, title_blink: false, ..old(self)@ }),
    {
        self.title_flash = 0;
        self.title_blink = false;
    }

    pub fn mark_config_roster_saved(&mut self)
        requires
            old(self).wf(),
        ensures
            final(self).wf(),
            final(self)@ == (AppView { config: ConfigView { roster_dirty: false, ..old(self)@.config }, ..old(self)@ }),
    {
        self.config.roster_dirty = false;
    }

    pub fn set_header(&mut self, active_agent: &str, status: &str)
        requires
            old(self).wf(),
        ensures
            final(self).wf(),
            final(self)@ == (AppView { active_agent: active_agent@, status: status@, ..old(self)@ }),
    {
        self.active_agent = active_agent.to_owned();
        self.status = status.to_owned();
    }

    pub fn set_agent_name(&mut self, slot: usize, name: &str)
        requires
            old(self).wf(),
        ensures
            final(self).wf(),
            final(self)@ == (AppView { roster: renamed(old(self)@.roster, slot, name@), ..old(self)@ }),
    {
        self.roster.set_agent_name(slot, name.to_owned());
    }

    pub fn set_agent_identity(&mut self, slot: usize, identity: &str)
        requires
            old(self).wf(),
        ensures
            final(self).wf(),
            final(self)@ == (AppView { roster: identified(old(self)@.roster, slot, identity@), ..old(self)@ }),
    {
        self.roster.set_agent_identity(slot, identity.to_owned());
    }

    /// Selects the roster member that will receive the next prompt.
    pub fn set_selected_agent(&mut self, slot: Option<usize>)
        requires
            old(self).wf(),
        ensures
            final(self).wf(),
            final(self)@ == (AppView { roster: RosterView { selected_agent: slot, ..old(self)@.roster }, ..old(self)@ }),
    {
        self.roster.set_selected(slot);
    }

    pub fn set_store_directory(&mut self, directory: &str)
        requires
            old(self).wf(),
        ensures
            final(self).wf(),
            final(self)@ == (AppView { store: StoreView { directory: directory@, ..old(self)@.store }, ..old(self)@ }),
    {
        self.store.set_directory(directory);
    }

    pub fn set_store_status(&mut self, status: &str)
        requires
            old(self).wf(),
        ensures
            final(self).wf(),
            final(self)@ == (AppView { store: StoreView { status: status@, ..old(self)@.store }, ..old(self)@ }),
    {
        self.store.set_status(status);
    }

    pub fn dismiss_path_picker(&mut self)
        requires
            old(self).wf(),
        ensures
            final(self).wf(),
            final(self)@ == (AppView { picker: dismissed(old(self)@.picker), ..old(self)@ }),
    {
        self.picker.dismiss();
    }

    /// Takes in messages of the background index. Stale ones are ignored.
    pub fn poll_path_index(&mut self, updates: Vec<PathIndexUpdate>)
        requires
            old(self).wf(),
        ensures
            final(self).wf(),
            final(self)@ == (AppView { picker: updated_all(
                old(self)@.picker,
                index_generation(old(self)@.picker),
                item_contents(updates@),
            ), ..old(self)@ }),
    {
        self.picker.update_all(updates);
    }

    pub fn request_turn_cancellation(&mut self)
        requires
            old(self).wf(),
        ensures
            final(self).wf(),
            final(self)@ == (AppView { cancelling: true, ..old(self)@ }),
    {
        self.cancelling = true;
    }
}

// Notifications and the terminal title.

/// Whether an event may be surfaced outside the terminal.
pub open spec fn may_notify(app: AppView) -> bool {
    match app.settings.notification_policy {
        NotificationPolicy::Never => false,
        NotificationPolicy::Blur => !app.terminal_focused,
        NotificationPolicy::Always => true,
    }
}

/// The surface with one more or one less reason for attention. Reasons are counted, so
/// that overlapping ones cannot clear each other.
pub open spec fn alerted(app: AppView, flash: bool) -> AppView {
    if flash {
        AppView {
            title_flash: if app.title_flash < usize::MAX {
                (app.title_flash + 1) as usize
            } else {
                usize::MAX
            },
            ..app
        }
    } else {
        let left: usize = if app.title_flash > 0 {
            (app.title_flash - 1) as usize
        } else {
            0
        };
        AppView {
            title_flash: left,
            title_blink: if left == 0 {
                false
            } else {
                app.title_blink
            },
            ..app
        }
    }
}

/// An attention that is raised and handled leaves the others as they were.
pub proof fn law_alerts_are_counted(app: AppView)
    requires
        app.title_flash < usize::MAX,
    ensures
        alerted(alerted(app, true), false).title_flash == app.title_flash,
        alerted(app, true).title_flash > 0,
{
}

/// A text without its control characters.
pub open spec fn printable(text: Seq<char>) -> Seq<char>
    decreases text.len(),
{
    if text.len() == 0 {
        Seq::empty()
    } else if is_control(text.last()) {
        printable(text.drop_last())
    } else {
        printable(text.drop_last()).push(text.last())
    }
}

/// The title of the terminal.
pub open spec fn title_of(app: AppView) -> Seq<char> {
    let agent = printable(app.active_agent);
    let title = if is_blank(agent) {
        "CodeSwarm"@
    } else {
        agent + " · CodeSwarm"@
    };
    if app.title_blink {
        "👉 "@ + title
    } else {
        "✈ "@ + title
    }
}

/// What is left of a text has no control character.
pub proof fn law_printable_has_no_control(text: Seq<char>)
    ensures
        forall|i: int| 0 <= i < printable(text).len() ==> !is_control(#[trigger] printable(text)[i]),
    decreases text.len(),
{
    if text.len() > 0 {
        let rest = printable(text.drop_last());
        law_printable_has_no_control(text.drop_last());
        assert forall|i: int| 0 <= i < printable(text).len() implies !is_control(
            #[trigger] printable(text)[i],
        ) by {
            if i < rest.len() {
                assert(printable(text)[i] == rest[i]);
            }
        }
    }
}

impl App {
    /// Whether an event may be surfaced outside the terminal.
    pub fn should_notify_system(&self) -> (yes: bool)
        ensures
            yes == may_notify(self@),
    {
        match self.settings.notification_policy {
            NotificationPolicy::Never => false,
            NotificationPolicy::Blur => !self.terminal_focused,
            NotificationPolicy::Always => true,
        }
    }

    pub fn set_notifications_enabled(&mut self, enabled: bool)
        requires
            old(self).wf(),
        ensures
            final(self).wf(),
            final(self)@ == (AppView {
                settings: SettingsView {
                    notification_policy: if enabled {
                        NotificationPolicy::Blur
                    } else {
                        NotificationPolicy::Never
                    },
                    ..old(self)@.settings
                },
                ..old(self)@
            }),
    {
        let policy = if enabled {
            NotificationPolicy::Blur
        } else {
            NotificationPolicy::Never
        };
        self.settings.notification_policy = policy;
    }

    pub fn set_tools_expanded(&mut self, expanded: bool)
        requires
            old(self).wf(),
        ensures
            final(self).wf(),
            final(self)@ == (AppView {
                settings: SettingsView {
                    tool_expand_policy: if expanded {
                        ToolExpandPolicy::Always
                    } else {
                        ToolExpandPolicy::Fail
                    },
                    ..old(self)@.settings
                },
                ..old(self)@
            }),
    {
        let policy = if expanded {
            ToolExpandPolicy::Always
        } else {
            ToolExpandPolicy::Fail
        };
        self.settings.tool_expand_policy = policy;
    }

    pub fn set_blink_title_enabled(&mut self, enabled: bool)
        requires
            old(self).wf(),
        ensures
            final(self).wf(),
            final(self)@ == (AppView {
                settings: SettingsView { blink_title: enabled, ..old(self)@.settings },
                title_blink: enabled && old(self)@.title_blink,
                ..old(self)@
            }),
    {
        self.settings.blink_title = enabled;
        self.title_blink = enabled && self.title_blink;
    }

    /// Marks the terminal title as needing attention until the person handles the pending
    /// prompt.
    pub fn terminal_alert(&mut self, flash: bool)
        requires
            old(self).wf(),
        ensures
            final(self).wf(),
            final(self)@ == alerted(old(self)@, flash),
    {
        let count: usize = if flash {
            if self.title_flash < usize::MAX {
                self.title_flash + 1
            } else {
                usize::MAX
            }
        } else if self.title_flash > 0 {
            self.title_flash - 1
        } else {
            0
        };
        let blink = if !flash && count == 0 {
            false
        } else {
            self.title_blink
        };
        self.title_flash = count;
        self.title_blink = blink;
    }

    pub fn toggle_terminal_title_blink(&mut self)
        requires
            old(self).wf(),
        ensures
            final(self).wf(),
            final(self)@ == (AppView {
                title_blink: old(self)@.settings.blink_title && old(self)@.title_flash > 0
                    && !old(self)@.title_blink,
                ..old(self)@
            }),
    {
        self.title_blink = self.settings.blink_title && self.title_flash > 0 && !self.title_blink;
    }

    /// A sanitized terminal title. Agent names can originate in configuration files, so
    /// control characters must never reach the title escape sequence.
    pub fn terminal_title(&self) -> (title: String)
        ensures
            title@ == title_of(self@),
    {
        let name = to_chars(self.active_agent.as_str());
        let mut agent: Vec<char> = Vec::new();
        let mut i: usize = 0;
        assert(name@.take(0) =~= Seq::empty());
        while i < name.len()
            invariant
                i <= name@.len(),
                agent@ == printable(name@.take(i as int)),
            decreases name@.len() - i,
        {
            assert(name@.take(i + 1).drop_last() =~= name@.take(i as int));
            if !control(name[i]) {
                agent.push(name[i]);
            }
            i = i + 1;
        }
        assert(name@.take(i as int) =~= name@);
        let mut title = if self.title_blink {
            to_chars("👉 ")
        } else {
            to_chars("✈ ")
        };
        let ghost mark = title@;
        let text = to_text(&agent);
        if blank(text.as_str()) {
            append_text(&mut title, "CodeSwarm");
        } else {
            append_text(&mut title, text.as_str());
            append_text(&mut title, " · CodeSwarm");
            assert(title@ =~= mark + (text@ + " · CodeSwarm"@));
        }
        to_text(&title)
    }
}

// Modes.

impl App {
    pub fn mode_policy(&self) -> (policy: Option<&str>)
        ensures
            match policy {
                Some(text) => self@.settings.mode_policy == Some(text@),
                None => self@.settings.mode_policy is None,
            },
    {
        match &self.settings.mode_policy {
            Some(policy) => Some(policy.as_str()),
            None => None,
        }
    }

    pub fn set_mode(&mut self, mode: &str)
        requires
            old(self).wf(),
        ensures
            final(self).wf(),
            final(self)@ == (AppView {
                settings: SettingsView {
                    mode: mode@,
                    mode_policy: match known_mode(mode@) {
                        Some((id, label)) => Some(id),
                        None => None,
                    },
                    ..old(self)@.settings
                },
                ..old(self)@
            }),
    {
        let policy = match normalized_mode(mode) {
            Some((id, label)) => Some(id.to_owned()),
            None => None,
        };
        self.settings.mode = mode.to_owned();
        self.settings.mode_policy = policy;
    }

    pub fn take_requested_mode(&mut self) -> (mode: Option<String>)
        requires
            old(self).wf(),
        ensures
            final(self).wf(),
            optional(mode) == old(self)@.requested_mode,
            final(self)@ == (AppView { requested_mode: None, ..old(self)@ }),
    {
        self.requested_mode.take()
    }

    /// The policy that the agents are in. `shared` is the one that the modes of those that
    /// take part have in common; where none has told its modes there is no policy.
    pub fn current_mode_policy(&self, shared: &Option<String>) -> (policy: Option<String>)
        ensures
            optional(policy) == (if current_modes(self@.roster.agents).len() == 0 {
                None
            } else {
                optional(*shared)
            }),
    {
        if self.roster.current_modes().len() == 0 {
            None
        } else {
            copy_optional(shared)
        }
    }

    pub fn take_config_collaboration_changed(&mut self) -> (changed: bool)
        requires
            old(self).wf(),
        ensures
            final(self).wf(),
            changed == old(self)@.config.collaboration_pending,
            final(self)@ == (AppView {
                config: ConfigView { collaboration_pending: false, ..old(self)@.config },
                ..old(self)@
            }),
    {
        let changed = self.config.collaboration_pending;
        self.config.collaboration_pending = false;
        changed
    }

    /// The modes that can be chosen: those that the agents share, once all the agents
    /// that take part have started.
    pub fn mode_options(&self, shared: &Vec<Mode>) -> (modes: Vec<Mode>)
        ensures
            item_contents(modes@) == (if any_starting(self@.roster.agents) {
                Seq::empty()
            } else {
                item_contents(shared@)
            }),
    {
        if self.roster.any_starting() {
            let none: Vec<Mode> = Vec::new();
            assert(item_contents(none@) =~= Seq::empty());
            none
        } else {
            copy_modes(shared)
        }
    }
}

// Agents.

impl App {
    pub fn agent_identity(&self, slot: usize) -> (identity: Option<&str>)
        requires
            self.wf(),
        ensures
            match identity {
                Some(text) => record_of(self@.roster.agents, slot).identity == Some(text@),
                None => record_of(self@.roster.agents, slot).identity is None,
            },
    {
        self.roster.agent_identity(slot)
    }

    pub fn agent_name(&self, slot: usize) -> (name: String)
        requires
            self.wf(),
        ensures
            name@ == name_of(self@.roster.agents, slot),
    {
        self.roster.agent_name(slot)
    }

    pub fn agent_usage(&self, slot: usize) -> (usage: Option<UsageUpdate>)
        requires
            self.wf(),
        ensures
            usage == record_of(self@.roster.agents, slot).usage,
    {
        self.roster.agent_usage(slot)
    }

    /// Context usage of the agent in front.
    pub fn active_agent_usage(&self) -> (usage: Option<UsageUpdate>)
        requires
            self.wf(),
        ensures
            usage == (match first_given(self@.roster.agents, self@.active_agent) {
                Some(slot) => record_of(self@.roster.agents, slot).usage,
                None => None,
            }),
    {
        match self.roster.slot_given(self.active_agent.as_str()) {
            Some(slot) => self.roster.agent_usage(slot),
            None => None,
        }
    }

    /// Removes a roster entry that failed before its agent became visible.
    pub fn remove_agent(&mut self, slot: usize) -> (found: bool)
        requires
            old(self).wf(),
        ensures
            final(self).wf(),
            found == (record_of(old(self)@.roster.agents, slot).name is Some),
            final(self)@ == crate::app::refreshed(
                AppView { roster: removed(old(self)@.roster, slot), ..old(self)@ },
            ),
    {
        let found = self.roster.remove_agent(slot);
        self.refresh_prompt_completions();
        found
    }

    /// A cancelled turn has settled: nothing runs any more.
    pub fn finish_turn_cancellation(&mut self)
        requires
            old(self).wf(),
        ensures
            final(self).wf(),
            final(self)@ == (AppView {
                cancelling: false,
                roster: RosterView {
                    agents: at_rest(old(self)@.roster.agents),
                    ..old(self)@.roster
                },
                status: "cancelled"@,
                ..old(self)@
            }),
    {
        self.cancelling = false;
        self.roster.end_all_turns();
        self.status = "cancelled".to_owned();
    }

    /// The colors that the surface is drawn in.
    pub fn theme(&self) -> (theme: Theme)
        ensures
            theme == self@.settings.theme,
    {
        self.settings.theme
    }

    pub fn record_human_message(&mut self, prompt: &str, direct: bool)
        requires
            old(self).wf(),
        ensures
            final(self).wf(),
            final(self)@ == (AppView {
                transcript: old(self)@.transcript.push(
                    BlockView {
                        id: old(self)@.transcript.len() as u64,
                        kind: BlockKind::Human,
                        source: (if direct {
                            "You → direct: "@
                        } else {
                            "You: "@
                        }) + prompt@,
                        collapsed: false,
                    },
                ),
                ..old(self)@
            }),
    {
        let mut source = if direct {
            to_chars("You → direct: ")
        } else {
            to_chars("You: ")
        };
        append_text(&mut source, prompt);
        self.transcript.append(BlockKind::Human, to_text(&source).as_str(), false);
    }
}

// The prompt.

/// The surface whose editor shows the prompt.
pub open spec fn synced(app: AppView) -> AppView {
    if prompt_text(app.editor) == app.prompt {
        app
    } else {
        AppView { editor: with_text(app.editor, app.prompt), ..app }
    }
}

/// Whether an editor shows the prompt of a surface: the surface's own editor does, where
/// the prompt is its text.
pub open spec fn prompt_shown(app: App, editor: PromptEditor) -> bool {
    &&& editor@ == synced(app@).editor
    &&& prompt_text(app@.editor) == app@.prompt ==> editor == app.prompt_editor
}

/// What a surface makes of a key press on an editor that shows its prompt.
pub open spec fn input_taken(app: AppView, editor: PromptEditor, input: Input) -> (
    AppView,
    ActionView,
) {
    let (after, action) = responded(editor, input);
    (with_editor(synced(app), after), action)
}

/// The token that the picker follows.
pub open spec fn picker_token(editor: EditorView) -> Seq<char> {
    match token_of(editor) {
        Some((start, token)) => token,
        None => Seq::empty(),
    }
}

/// The surface after its editor changed.
pub open spec fn with_editor(app: AppView, editor: EditorView) -> AppView {
    AppView {
        editor,
        prompt: prompt_text(editor),
        picker: looking_for(app.picker, picker_token(editor)),
        ..app
    }
}

impl App {
    /// Sets the empty-composer hint while preserving an in-progress prompt.
    pub fn set_prompt_message(&mut self, message: &str)
        requires
            old(self).wf(),
        ensures
            final(self).wf(),
            final(self)@ == (AppView {
                prompt_message: message@,
                editor: EditorView { hint: message@, ..old(self)@.editor },
                ..old(self)@
            }),
    {
        self.prompt_message = message.to_owned();
        self.prompt_editor.set_placeholder(message);
    }

    /// Lets the editor show the prompt.
    pub fn sync_prompt_editor(&mut self)
        requires
            old(self).wf(),
        ensures
            final(self).wf(),
            final(self)@ == synced(old(self)@),
            prompt_shown(*old(self), final(self).prompt_editor),
    {
        let shown = self.prompt_editor.text();
        if !same(shown.as_str(), self.prompt.as_str()) {
            self.prompt_editor.set_text(self.prompt.as_str());
        }
    }

    fn follow_editor(&mut self)
        requires
            old(self).wf(),
        ensures
            final(self).wf(),
            final(self)@ == with_editor(old(self)@, old(self)@.editor),
    {
        self.prompt = self.prompt_editor.text();
        let token = match self.prompt_editor.completion_prefix() {
            Some((start, token)) => token,
            None => String::new(),
        };
        self.picker.look_for(token.as_str());
    }

    /// Applies one key press to the prompt editor and mirrors its complete text into the
    /// prompt.
    pub fn handle_prompt_input(&mut self, input: Input) -> (action: PromptAction)
        requires
            old(self).wf(),
        ensures
            final(self).wf(),
            exists|editor: PromptEditor| #[trigger]
                prompt_shown(*old(self), editor) && heard(editor, input) && (
                final(self)@,
                action@,
            ) == input_taken(old(self)@, editor, input),
            crate::editor::numbered(action@),
    {
        self.sync_prompt_editor();
        let ghost editor = self.prompt_editor;
        let action = self.prompt_editor.handle_input(input);
        self.follow_editor();
        assert(prompt_shown(*old(self), editor));
        action
    }

    /// Removes the current prompt, preserving editor history.
    pub fn take_prompt(&mut self) -> (prompt: String)
        requires
            old(self).wf(),
        ensures
            final(self).wf(),
            prompt@ == old(self)@.prompt,
            final(self)@ == (AppView {
                prompt: Seq::empty(),
                editor: with_text(synced(old(self)@).editor, Seq::empty()),
                ..old(self)@
            }),
    {
        self.sync_prompt_editor();
        let mut prompt = String::new();
        std::mem::swap(&mut prompt, &mut self.prompt);
        self.prompt_editor.clear();
        prompt
    }

    /// Installs the local command vocabulary used by Tab completion.
    pub fn set_prompt_completions(&mut self, candidates: Vec<String>)
        requires
            old(self).wf(),
        ensures
            final(self).wf(),
            final(self)@ == crate::app::refreshed(
                AppView { base_completions: strings(candidates@), ..old(self)@ },
            ),
    {
        self.base_prompt_completions = candidates;
        self.refresh_prompt_completions();
    }

    /// Remembers earlier submissions, oldest first.
    pub fn load_prompt_history(&mut self, entries: &Vec<String>)
        requires
            old(self).wf(),
        ensures
            final(self).wf(),
            final(self)@ == (AppView {
                editor: remembering_all(old(self)@.editor, strings(entries@)),
                ..old(self)@
            }),
    {
        let ghost all = strings(entries@);
        let mut i: usize = 0;
        assert(all.take(0) =~= Seq::empty());
        while i < entries.len()
            invariant
                self.wf(),
                i <= entries@.len(),
                all == strings(entries@),
                self@ == (AppView {
                    editor: remembering_all(old(self)@.editor, all.take(i as int)),
                    ..old(self)@
                }),
            decreases entries@.len() - i,
        {
            assert(all.take(i + 1).drop_last() =~= all.take(i as int));
            assert(all.take(i + 1).last() == entries@[i as int]@);
            self.prompt_editor.remember(entries[i].as_str());
            i = i + 1;
        }
        assert(all.take(i as int) =~= all);
    }
}

/// The editor after some submissions were remembered, in order.
pub open spec fn remembering_all(editor: EditorView, entries: Seq<Seq<char>>) -> EditorView
    decreases entries.len(),
{
    if entries.len() == 0 {
        editor
    } else {
        remembering(remembering_all(editor, entries.drop_last()), entries.last())
    }
}

// The workspace and the path picker.

/// Result of a key handled by the workspace path picker.
#[derive(Clone, Debug, Eq, PartialEq)]
pub enum PathPickerAction {
    Ignored,
    Changed,
    Insert(String),
    Dismiss,
}

pub enum PickerActionView {
    Ignored,
    Changed,
    Insert(Seq<char>),
    Dismiss,
}

impl View for PathPickerAction {
    type V = PickerActionView;

    open spec fn view(&self) -> PickerActionView {
        match self {
            PathPickerAction::Ignored => PickerActionView::Ignored,
            PathPickerAction::Changed => PickerActionView::Changed,
            PathPickerAction::Insert(text) => PickerActionView::Insert(text@),
            PathPickerAction::Dismiss => PickerActionView::Dismiss,
        }
    }
}

/// The selection of the picker one step up or down, within what was found.
pub open spec fn picker_step(picker: PickerView, down: bool) -> usize {
    let last = picker.matches.len() - 1;
    if down {
        if picker.selection < last {
            (picker.selection + 1) as usize
        } else if last > 0 {
            last as usize
        } else {
            0
        }
    } else if picker.selection > 0 {
        (picker.selection - 1) as usize
    } else {
        0
    }
}

/// The surface after a step in the picker, and the action.
pub open spec fn picker_stepped(app: AppView, down: bool) -> (AppView, PickerActionView) {
    let next = picker_step(app.picker, down);
    (
        AppView { picker: PickerView { selection: next, ..app.picker }, ..app },
        if next != app.picker.selection {
            PickerActionView::Changed
        } else {
            PickerActionView::Ignored
        },
    )
}

/// The surface after the selected path was put in place of the token before the cursor,
/// and the action.
pub open spec fn picker_chosen(app: AppView) -> (AppView, PickerActionView) {
    let k = app.picker.selection as int;
    if k < app.picker.matches.len() {
        let value = inserted(app.picker.matches[k].path, app.picker.matches[k].directory);
        match token_of(app.editor) {
            Some((start, token)) => {
                let editor = EditorView {
                    matches: Seq::empty(),
                    index: None,
                    ..with_token(app.editor, start, value)
                };
                (
                    AppView {
                        editor,
                        prompt: prompt_text(editor),
                        picker: dismissed(app.picker),
                        ..app
                    },
                    PickerActionView::Insert(value),
                )
            },
            None => (app, PickerActionView::Ignored),
        }
    } else {
        (app, PickerActionView::Ignored)
    }
}

/// What a key does to the picker: the surface afterwards, and the action.
pub open spec fn picker_response(app: AppView, key: Key) -> (AppView, PickerActionView) {
    if !is_open(app.picker) {
        (app, PickerActionView::Ignored)
    } else if key == Key::Up {
        picker_stepped(app, false)
    } else if key == Key::Down {
        picker_stepped(app, true)
    } else if key == Key::Enter {
        picker_chosen(app)
    } else if key == Key::Esc {
        (AppView { picker: dismissed(app.picker), ..app }, PickerActionView::Dismiss)
    } else {
        (app, PickerActionView::Ignored)
    }
}

/// The rows that the picker takes: a header, two borders and at most five candidates.
pub open spec fn picker_rows(picker: PickerView) -> int {
    if !is_open(picker) {
        0
    } else if picker.matches.len() < 5 {
        picker.matches.len() as int + 3
    } else {
        8
    }
}

impl App {
    /// Starts a lazy workspace index for path references.
    pub fn set_workspace_root(&mut self, root: &str)
        requires
            old(self).wf(),
        ensures
            final(self).wf(),
            final(self)@ == (AppView {
                workspace_root: root@,
                picker: for_workspace(old(self)@.picker),
                ..old(self)@
            }),
    {
        self.workspace_root = root.to_owned();
        self.picker.set_workspace();
    }

    /// Requests a fresh index after the workspace changes. Existing matches remain visible
    /// until replacement results arrive.
    pub fn refresh_workspace_root(&mut self, root: &str)
        requires
            old(self).wf(),
        ensures
            final(self).wf(),
            final(self)@ == (AppView {
                workspace_root: root@,
                picker: rescanned(old(self)@.picker),
                ..old(self)@
            }),
    {
        self.workspace_root = root.to_owned();
        self.picker.rescan();
    }

    /// Takes the questions that the background index is to be asked.
    pub fn take_index_requests(&mut self) -> (requests: Vec<IndexRequest>)
        requires
            old(self).wf(),
        ensures
            final(self).wf(),
            item_contents(requests@) == old(self)@.picker.requests,
            final(self)@ == (AppView {
                picker: PickerView { requests: Seq::empty(), ..old(self)@.picker },
                ..old(self)@
            }),
    {
        self.picker.take_requests()
    }

    /// Height needed for the picker, capped so that it cannot take the whole pane.
    pub fn path_picker_height(&self) -> (height: u16)
        ensures
            height == picker_rows(self@.picker),
    {
        if !self.picker.visible() {
            0
        } else {
            let count: usize = self.picker.matches().len();
            assert(count == self@.picker.matches.len());
            if count < 5 {
                (count + 3) as u16
            } else {
                8
            }
        }
    }

    fn step_picker(&mut self, down: bool) -> (action: PathPickerAction)
        requires
            old(self).wf(),
        ensures
            final(self).wf(),
            (final(self)@, action@) == picker_stepped(old(self)@, down),
    {
        let count: usize = self.picker.matches().len();
        assert(count == self@.picker.matches.len());
        let at: usize = self.picker.selection();
        let next: usize = if down {
            if count > 0 && at < count - 1 {
                at + 1
            } else if count > 1 {
                count - 1
            } else {
                0
            }
        } else if at > 0 {
            at - 1
        } else {
            0
        };
        self.picker.set_selection(next);
        if next != at {
            PathPickerAction::Changed
        } else {
            PathPickerAction::Ignored
        }
    }

    fn choose_path(&mut self) -> (action: PathPickerAction)
        requires
            old(self).wf(),
        ensures
            final(self).wf(),
            (final(self)@, action@) == picker_chosen(old(self)@),
    {
        let at: usize = self.picker.selection();
        let matches = self.picker.matches();
        assert(item_contents(matches@).len() == matches@.len());
        if at >= matches.len() {
            return PathPickerAction::Ignored;
        }
        assert(item_contents(matches@)[at as int] == matches@[at as int]@);
        let value = insertion_text(matches[at].path.as_str(), matches[at].directory);
        if !self.prompt_editor.replace_current_token(value.as_str()) {
            assert(self@ == old(self)@);
            return PathPickerAction::Ignored;
        }
        self.prompt = self.prompt_editor.text();
        self.picker.dismiss();
        PathPickerAction::Insert(value)
    }

    /// Handles navigation in the path picker.
    pub fn handle_path_picker_key(&mut self, key: Key) -> (action: PathPickerAction)
        requires
            old(self).wf(),
        ensures
            final(self).wf(),
            (final(self)@, action@) == picker_response(old(self)@, key),
    {
        if !self.picker.visible() {
            return PathPickerAction::Ignored;
        }
        match key {
            Key::Up => self.step_picker(false),
            Key::Down => self.step_picker(true),
            Key::Enter => self.choose_path(),
            Key::Esc => {
                self.dismiss_path_picker();
                PathPickerAction::Dismiss
            },
            _ => PathPickerAction::Ignored,
        }
    }
}

// The store and the configuration panel.

/// The surface after a key press while the workspace directory is edited, and the action.
pub open spec fn directory_edited(
    app: AppView,
    editor: EditorView,
    action: ActionView,
) -> (AppView, StoreActionView) {
    match action {
        ActionView::Submit(directory) => (
            AppView {
                editor,
                store: StoreView { directory, editing_directory: false, ..app.store },
                ..app
            },
            StoreActionView::Directory(directory),
        ),
        ActionView::Ignored => (AppView { editor, ..app }, StoreActionView::Ignored),
        _ => (AppView { editor, ..app }, StoreActionView::Changed),
    }
}

impl App {
    /// Installs the catalog rows shown by the configuration panel.
    pub fn set_config_agents(&mut self, agents: Vec<StoreAgent>)
        requires
            old(self).wf(),
            countable(item_contents(agents@)),
        ensures
            final(self).wf(),
            final(self)@ == (AppView {
                config: ConfigView {
                    agents: item_contents(agents@),
                    roster_dirty: false,
                    selected: if old(self)@.config.selected < CONFIG_SETTING_COUNT + agents@.len() {
                        old(self)@.config.selected
                    } else {
                        (CONFIG_SETTING_COUNT + agents@.len() - 1) as usize
                    },
                    ..old(self)@.config
                },
                ..old(self)@
            }),
    {
        assert(item_contents(agents@).len() == agents@.len());
        let last: usize = CONFIG_SETTING_COUNT + agents.len() - 1;
        let selected: usize = if self.config.selected < last {
            self.config.selected
        } else {
            last
        };
        self.config.agents = agents;
        self.config.roster_dirty = false;
        self.config.selected = selected;
    }

    pub fn show_store(&mut self, agents: Vec<StoreAgent>)
        requires
            old(self).wf(),
        ensures
            final(self).wf(),
            final(self)@ == (AppView {
                store: StoreView {
                    visible: true,
                    selected: 0,
                    agents: item_contents(agents@),
                    status: Seq::empty(),
                    directory: old(self)@.store.directory,
                    editing_directory: false,
                },
                ..old(self)@
            }),
    {
        self.store.show(agents);
    }

    pub fn begin_store_directory_edit(&mut self)
        requires
            old(self).wf(),
        ensures
            final(self).wf(),
            final(self)@ == (AppView {
                store: StoreView { editing_directory: true, ..old(self)@.store },
                editor: with_text(old(self)@.editor, old(self)@.store.directory),
                ..old(self)@
            }),
    {
        self.store.set_editing(true);
        self.prompt_editor.set_text(self.store.directory());
    }

    pub fn cancel_store_directory_edit(&mut self)
        requires
            old(self).wf(),
        ensures
            final(self).wf(),
            final(self)@ == (AppView {
                store: StoreView { editing_directory: false, ..old(self)@.store },
                editor: with_text(old(self)@.editor, Seq::empty()),
                ..old(self)@
            }),
    {
        self.store.set_editing(false);
        self.prompt_editor.clear();
    }

    fn accept_directory(&mut self, directory: &str)
        requires
            old(self).wf(),
        ensures
            final(self).wf(),
            final(self)@ == (AppView {
                store: StoreView {
                    directory: directory@,
                    editing_directory: false,
                    ..old(self)@.store
                },
                ..old(self)@
            }),
    {
        self.store.set_directory(directory);
        self.store.set_editing(false);
    }

    /// Applies a key press while the workspace directory is edited.
    pub fn handle_store_directory_input(&mut self, input: Input) -> (action: StoreAction)
        requires
            old(self).wf(),
        ensures
            final(self).wf(),
            if !old(self)@.store.editing_directory {
                final(self)@ == old(self)@ && action@ == StoreActionView::Ignored
            } else {
                let (editor, response) = responded(old(self).prompt_editor, input);
                heard(old(self).prompt_editor, input) && (final(self)@, action@)
                    == directory_edited(old(self)@, editor, response)
            },
    {
        if !self.store.editing_directory() {
            return StoreAction::Ignored;
        }
        let response = self.prompt_editor.handle_input(input);
        let ghost answer = response@;
        let ghost editor = self@.editor;
        let action = match response {
            PromptAction::Submit(directory) => {
                self.accept_directory(directory.as_str());
                StoreAction::Directory(directory)
            },
            PromptAction::Ignored => StoreAction::Ignored,
            _ => StoreAction::Changed,
        };
        assert((self@, action@) == directory_edited(old(self)@, editor, answer));
        action
    }

    pub fn handle_store_key(&mut self, key: StoreKey) -> (action: StoreAction)
        requires
            old(self).wf(),
        ensures
            final(self).wf(),
            (final(self)@.store, action@) == store_response(old(self)@.store, key),
            final(self)@ == (AppView { store: final(self)@.store, ..old(self)@ }),
    {
        self.store.handle_key(key)
    }
}

// The queue.

impl App {
    /// Adds a prompt to the local queue while another turn is active.
    pub fn queue_prompt(&mut self, prompt: &str, target: Option<usize>, direct: bool) -> (id:
        Option<u64>)
        requires
            old(self).wf(),
        ensures
            final(self).wf(),
            match id {
                Some(id) => can_queue(old(self)@.queue, prompt@) && id == old(self)@.queue.next_id
                    && final(self)@ == (AppView {
                    queue: queued(old(self)@.queue, prompt@, target, direct),
                    ..old(self)@
                }),
                None => !can_queue(old(self)@.queue, prompt@) && final(self)@ == old(self)@,
            },
    {
        self.queue.queue_prompt(prompt.to_owned(), target, direct)
    }

    /// The prompt that has waited longest.
    pub fn next_queued_prompt(&self) -> (prompt: Option<&QueuedPrompt>)
        ensures
            match prompt {
                Some(first) => self@.queue.prompts.len() > 0 && first@ == self@.queue.prompts[0],
                None => self@.queue.prompts.len() == 0,
            },
    {
        self.queue.front()
    }

    pub fn remove_queued_prompt(&mut self, id: u64) -> (taken: Option<QueuedPrompt>)
        requires
            old(self).wf(),
        ensures
            final(self).wf(),
            match (taken, place_of(old(self)@.queue.prompts, id)) {
                (Some(prompt), Some(k)) => prompt@ == old(self)@.queue.prompts[k] && final(self)@
                    == (AppView { queue: without(old(self)@.queue, k), ..old(self)@ }),
                (None, None) => final(self)@ == old(self)@,
                _ => false,
            },
    {
        self.queue.remove(id)
    }

    pub fn cancel_selected_queued(&mut self) -> (taken: Option<QueuedPrompt>)
        requires
            old(self).wf(),
        ensures
            final(self).wf(),
            match old(self)@.queue.selected {
                Some(k) => match (
                    taken,
                    place_of(old(self)@.queue.prompts, old(self)@.queue.prompts[k as int].id),
                ) {
                    (Some(prompt), Some(at)) => prompt@ == old(self)@.queue.prompts[at]
                        && final(self)@ == (AppView {
                        queue: without(old(self)@.queue, at),
                        ..old(self)@
                    }),
                    (None, None) => final(self)@ == old(self)@,
                    _ => false,
                },
                None => taken is None && final(self)@ == old(self)@,
            },
    {
        let selected: usize = match self.queue.selected() {
            Some(selected) => selected,
            None => {
                return None;
            },
        };
        proof {
            self.queue.law_queues_are_bounded();
        }
        let prompts = self.queue.prompts();
        assert(item_contents(prompts@).len() == prompts@.len());
        assert(item_contents(prompts@)[selected as int] == prompts@[selected as int]@);
        let id: u64 = prompts[selected].id;
        self.queue.remove(id)
    }

    pub fn move_queue_selection(&mut self, delta: isize) -> (index: Option<usize>)
        requires
            old(self).wf(),
        ensures
            final(self).wf(),
            index == moved_selection(old(self)@.queue, delta as int),
            final(self)@ == (AppView {
                queue: QueueView {
                    selected: if index is Some {
                        index
                    } else {
                        old(self)@.queue.selected
                    },
                    ..old(self)@.queue
                },
                ..old(self)@
            }),
    {
        self.queue.move_selection(delta)
    }
}

// Scrolling and heights.

/// The width that is left for the transcript beside the scrollbar.
pub open spec fn content_width(app: AppView, width: int) -> int {
    if app.settings.show_scrollbar && width > 0 {
        width - 1
    } else {
        width
    }
}

/// The rows of the transcript at an outer width.
pub open spec fn total_rows(app: AppView, width: int) -> int {
    lay_out(app.transcript, at_least_one(content_width(app, width))).rows.len() as int
}

/// The first row of the last page.
pub open spec fn last_scroll(app: AppView, width: int, height: int) -> int {
    if total_rows(app, width) > height {
        total_rows(app, width) - height
    } else {
        0
    }
}

/// The surface scrolled by a number of rows, within the transcript. At its end it
/// follows the output again.
pub open spec fn scrolled(app: AppView, delta: int, width: int, height: int) -> AppView {
    let last = last_scroll(app, width, height);
    let wanted = app.scroll_y + delta;
    let scroll = if wanted < 0 {
        0
    } else if wanted > last {
        last
    } else {
        wanted
    };
    AppView { scroll_y: scroll as usize, follow_tail: scroll == last, ..app }
}

/// The surface following its output.
pub open spec fn following(app: AppView, width: int, height: int) -> AppView {
    AppView { scroll_y: last_scroll(app, width, height) as usize, follow_tail: true, ..app }
}

/// Scrolling down far enough follows the output.
pub proof fn law_scrolling_to_the_end_follows(app: AppView, delta: int, width: int, height: int)
    requires
        app.scroll_y + delta >= last_scroll(app, width, height),
        height >= 0,
    ensures
        scrolled(app, delta, width, height) == following(app, width, height),
{
}

/// The rows that the prompt asks for.
pub open spec fn prompt_rows(app: AppView) -> int {
    let most: int = if app.settings.density == Density::Compact {
        3
    } else {
        8
    };
    let wanted = app.editor.lines.len() as int + 1;
    if wanted < 2 {
        2
    } else if wanted > most {
        most
    } else {
        wanted
    }
}

/// The rows that the queue takes.
pub open spec fn queue_rows(queue: QueueView) -> int {
    if queue.prompts.len() == 0 {
        0
    } else if queue.prompts.len() < 6 {
        queue.prompts.len() as int + 3
    } else {
        9
    }
}

/// The rows that a permission prompt takes.
pub open spec fn permission_rows(permission: Option<PermissionView>) -> int {
    match permission {
        Some(prompt) => if prompt.options.len() == 0 {
            4
        } else if prompt.options.len() < 9 {
            prompt.options.len() as int + 3
        } else {
            12
        },
        None => 0,
    }
}

/// The rows that the keyboard help takes.
pub open spec fn help_rows(app: AppView) -> int {
    if app.keyboard_help {
        8
    } else {
        0
    }
}

/// The rows that are left for the transcript.
pub open spec fn rows_left(app: AppView, terminal_height: int) -> int {
    let taken = prompt_rows(app) + 2 + queue_rows(app.queue) + permission_rows(app.permission)
        + help_rows(app) + picker_rows(app.picker);
    if terminal_height > taken {
        terminal_height - taken
    } else {
        0
    }
}

impl App {
    /// The width that is left for the transcript beside the scrollbar.
    pub fn transcript_content_width(&self, outer_width: usize) -> (width: usize)
        ensures
            width == content_width(self@, outer_width as int),
    {
        if self.settings.show_scrollbar && outer_width > 0 {
            outer_width - 1
        } else {
            outer_width
        }
    }

    fn last_scroll(&mut self, width: usize, height: usize) -> (last: usize)
        requires
            old(self).wf(),
        ensures
            final(self).wf(),
            final(self)@ == old(self)@,
            last == last_scroll(old(self)@, width as int, height as int),
    {
        let inner: usize = self.transcript_content_width(width);
        let rows: usize = self.transcript.row_count(inner);
        if rows > height {
            rows - height
        } else {
            0
        }
    }

    pub fn scroll_by(&mut self, delta: isize, width: usize, height: usize)
        requires
            old(self).wf(),
        ensures
            final(self).wf(),
            final(self)@ == scrolled(old(self)@, delta as int, width as int, height as int),
    {
        let last: usize = self.last_scroll(width, height);
        let wanted: i128 = self.scroll_y as i128 + delta as i128;
        let scroll: usize = if wanted < 0 {
            0
        } else if wanted > last as i128 {
            last
        } else {
            wanted as usize
        };
        self.scroll_y = scroll;
        self.follow_tail = scroll == last;
    }

    pub fn follow_tail(&mut self, width: usize, height: usize)
        requires
            old(self).wf(),
        ensures
            final(self).wf(),
            final(self)@ == following(old(self)@, width as int, height as int),
    {
        let last: usize = self.last_scroll(width, height);
        self.scroll_y = last;
        self.follow_tail = true;
    }

    /// Opens or closes the detail in focus; says whether it is collapsed now.
    pub fn toggle_focused_detail(&mut self) -> (collapsed: Option<bool>)
        requires
            old(self).wf(),
        ensures
            final(self).wf(),
            ({
                let place = match old(self)@.focused_detail {
                    Some(id) => crate::transcript::place_of(old(self)@.transcript, id),
                    None => None,
                };
                match place {
                    Some(k) => {
                        let block = old(self)@.transcript[k];
                        collapsed == Some(!block.collapsed) && final(self)@ == (AppView {
                            transcript: old(self)@.transcript.update(
                                k,
                                BlockView { collapsed: !block.collapsed, ..block },
                            ),
                            ..old(self)@
                        })
                    },
                    None => collapsed is None && final(self)@ == old(self)@,
                }
            }),
    {
        match self.focused_detail {
            Some(id) => self.transcript.toggle_collapsed(id),
            None => None,
        }
    }

    pub fn toggle_keyboard_help(&mut self) -> (shown: bool)
        requires
            old(self).wf(),
        ensures
            final(self).wf(),
            shown == !old(self)@.keyboard_help,
            final(self)@ == (AppView { keyboard_help: shown, ..old(self)@ }),
    {
        self.keyboard_help = !self.keyboard_help;
        self.keyboard_help
    }

    fn prompt_height_hint(&self) -> (rows: usize)
        ensures
            rows == prompt_rows(self@),
    {
        let most: usize = if self.settings.density == Density::Compact {
            3
        } else {
            8
        };
        let lines = self.prompt_editor.lines();
        let count: usize = lines.len();
        assert(strings(lines@).len() == count);
        if count < 1 {
            2
        } else if count >= most {
            most
        } else {
            count + 1
        }
    }

    pub fn queue_height(&self) -> (rows: u16)
        ensures
            rows == queue_rows(self@.queue),
    {
        let count: usize = self.queue.len();
        if count == 0 {
            0
        } else if count < 6 {
            (count + 3) as u16
        } else {
            9
        }
    }

    pub fn permission_height(&self) -> (rows: u16)
        ensures
            rows == permission_rows(self@.permission),
    {
        match &self.permission {
            Some(prompt) => {
                let count: usize = prompt.option_count();
                if count == 0 {
                    4
                } else if count < 9 {
                    (count + 3) as u16
                } else {
                    12
                }
            },
            None => 0,
        }
    }

    pub fn help_height(&self) -> (rows: u16)
        ensures
            rows == help_rows(self@),
    {
        if self.keyboard_help {
            8
        } else {
            0
        }
    }

    /// The rows that a terminal of a height leaves for the transcript. Input handlers use
    /// it, so that a panel cannot make End follow an off-screen row.
    pub fn content_height(&self, terminal_height: usize) -> (rows: usize)
        ensures
            rows == rows_left(self@, terminal_height as int),
    {
        let taken: usize = self.prompt_height_hint() + 2 + self.queue_height() as usize
            + self.permission_height() as usize + self.help_height() as usize
            + self.path_picker_height() as usize;
        if terminal_height > taken {
            terminal_height - taken
        } else {
            0
        }
    }
}

// Permissions.

/// The surface after a permission key, and the action.
pub open spec fn permission_handled(app: AppView, key: PermissionKey) -> (
    AppView,
    PermissionActionView,
) {
    match app.permission {
        Some(prompt) => {
            let (left, action) = permission_response(prompt, key);
            (
                AppView {
                    permission: left,
                    status: match action {
                        PermissionActionView::Answer {
                            slot,
                            request_id,
                            option_index,
                            option,
                            option_id,
                        } => "permission answered"@,
                        PermissionActionView::Cancel { slot, request_id } =>
                        "permission cancelled"@,
                        _ => app.status,
                    },
                    ..app
                },
                action,
            )
        },
        None => (app, PermissionActionView::Ignored),
    }
}

impl App {
    /// Handles navigation or a response for the focused permission request. A decision
    /// clears the pending prompt before it is returned, so that it cannot be submitted
    /// twice.
    pub fn handle_permission_key(&mut self, key: PermissionKey) -> (action: PermissionAction)
        requires
            old(self).wf(),
        ensures
            final(self).wf(),
            (final(self)@, action@) == permission_handled(old(self)@, key),
    {
        match self.permission.take() {
            Some(prompt) => {
                let (left, action) = prompt.respond(key);
                self.permission = left;
                let status = match &action {
                    PermissionAction::Answer {
                        slot,
                        request_id,
                        option_index,
                        option,
                        option_id,
                    } => "permission answered".to_owned(),
                    PermissionAction::Cancel { slot, request_id } =>
                    "permission cancelled".to_owned(),
                    _ => self.status.clone(),
                };
                self.status = status;
                action
            },
            None => PermissionAction::Ignored,
        }
    }
}

} // verus!
