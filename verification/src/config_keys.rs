//! How keys change the configuration.

use crate::app::{App, AppView};
use crate::commands::config_opened;
use crate::config::{
    config_ok, last_row, ConfigAction, ConfigKey, ConfigPanel, ConfigView, CONFIG_SETTING_COUNT,
};
use crate::config_models::{model_cycled, model_offered};
use crate::events::{copy_optional, Mode, ModeView};
use crate::order::item_contents;
use crate::settings::{
    collaboration_after, density_after, mode_after, next_collaboration, next_mode,
    notification_after, tool_after, Settings, SettingsView,
};
use crate::store::{exchange_rows, reordered, toggle_row, toggled};
use crate::text::{append_text, same, to_chars, to_text};
use crate::theme::theme_after;
use vstd::prelude::*;

verus! {

/// The settings after the one on a row was changed.
pub open spec fn setting_changed(
    settings: SettingsView,
    row: int,
    modes: Seq<ModeView>,
) -> SettingsView {
    if row == 1 {
        SettingsView { collapse_details: !settings.collapse_details, ..settings }
    } else if row == 2 {
        SettingsView {
            notification_policy: notification_after(settings.notification_policy),
            ..settings
        }
    } else if row == 3 {
        let (mode, mode_policy) = mode_after(settings.mode, modes);
        SettingsView { mode, mode_policy, ..settings }
    } else if row == 4 {
        SettingsView { collaboration: collaboration_after(settings.collaboration), ..settings }
    } else if row == 5 {
        SettingsView { diff_split: !settings.diff_split, ..settings }
    } else if row == 6 {
        SettingsView { show_thoughts: !settings.show_thoughts, ..settings }
    } else if row == 7 {
        SettingsView { tool_expand_policy: tool_after(settings.tool_expand_policy), ..settings }
    } else if row == 8 {
        SettingsView { density: density_after(settings.density), ..settings }
    } else if row == 9 {
        SettingsView { show_scrollbar: !settings.show_scrollbar, ..settings }
    } else if row == 10 {
        SettingsView { sounds: !settings.sounds, ..settings }
    } else if row == 11 {
        SettingsView { blink_title: !settings.blink_title, ..settings }
    } else if row == 13 {
        SettingsView { theme: theme_after(settings.theme), ..settings }
    } else {
        settings
    }
}

impl Settings {
    fn change(&mut self, row: usize, modes: &Vec<Mode>)
        ensures
            final(self)@ == setting_changed(old(self)@, row as int, item_contents(modes@)),
    {
        if row == 1 {
            self.collapse_details = !self.collapse_details;
        } else if row == 2 {
            self.notification_policy = self.notification_policy.next();
        } else if row == 3 {
            let (mode, policy) = next_mode(self.mode.as_str(), modes);
            self.mode = mode;
            self.mode_policy = policy;
        } else if row == 4 {
            self.collaboration = next_collaboration(self.collaboration.as_str());
        } else if row == 5 {
            self.diff_split = !self.diff_split;
        } else if row == 6 {
            self.show_thoughts = !self.show_thoughts;
        } else if row == 7 {
            self.tool_expand_policy = self.tool_expand_policy.next();
        } else if row == 8 {
            self.density = self.density.next();
        } else if row == 9 {
            self.show_scrollbar = !self.show_scrollbar;
        } else if row == 10 {
            self.sounds = !self.sounds;
        } else if row == 11 {
            self.blink_title = !self.blink_title;
        } else if row == 13 {
            self.theme = self.theme.next();
        }
    }
}

/// The surface after the setting on a row was changed.
#[verifier::opaque]
pub open spec fn configured(app: AppView, row: int, modes: Seq<ModeView>) -> AppView {
    let settings = setting_changed(app.settings, row, modes);
    AppView {
        follow_tail: if row == 0 {
            !app.follow_tail
        } else {
            app.follow_tail
        },
        settings,
        requested_mode: if row == 3 {
            settings.mode_policy
        } else {
            app.requested_mode
        },
        title_blink: if row == 11 && !settings.blink_title {
            false
        } else {
            app.title_blink
        },
        status: "configuration updated"@,
        ..app
    }
}

/// The surface with the focus of the panel on a row.
#[verifier::opaque]
pub open spec fn focused_row(app: AppView, row: usize) -> AppView {
    AppView { config: ConfigView { selected: row, ..app.config }, ..app }
}

/// Where a roster row moves to; `None` at the end of the roster.
pub open spec fn row_target(config: ConfigView, up: bool) -> Option<int> {
    let index = config.selected - CONFIG_SETTING_COUNT;
    if up {
        if index > 0 {
            Some(index - 1)
        } else {
            None
        }
    } else if index + 1 < config.agents.len() {
        Some(index + 1)
    } else {
        None
    }
}

/// The panel after the focused roster row moved.
pub open spec fn moved_row(config: ConfigView, up: bool) -> ConfigView {
    let index = config.selected - CONFIG_SETTING_COUNT;
    match row_target(config, up) {
        Some(target) => ConfigView {
            agents: reordered(config.agents, index, target),
            selected: (CONFIG_SETTING_COUNT + target) as usize,
            roster_dirty: true,
            ..config
        },
        None => config,
    }
}

/// The surface after the focused roster row moved.
#[verifier::opaque]
pub open spec fn row_moved(app: AppView, up: bool) -> AppView {
    AppView { config: moved_row(app.config, up), ..app }
}

/// The surface after the focused roster row was added or removed.
#[verifier::opaque]
pub open spec fn row_toggled(app: AppView) -> AppView {
    let index = app.config.selected - CONFIG_SETTING_COUNT;
    if index < app.config.agents.len() {
        let agent = app.config.agents[index];
        AppView {
            config: ConfigView {
                agents: app.config.agents.update(index, toggled(agent)),
                roster_dirty: true,
                ..app.config
            },
            status: agent.name + (if agent.selected {
                " removed from roster"@
            } else {
                " added to roster"@
            }),
            ..app
        }
    } else {
        app
    }
}

/// The surface after changes were discarded.
#[verifier::opaque]
pub open spec fn discarded(app: AppView) -> AppView {
    let closed = AppView {
        requested_mode: None,
        status: "changes discarded"@,
        config: ConfigView {
            visible: false,
            snapshot: None,
            collaboration_pending: false,
            ..app.config
        },
        ..app
    };
    match app.config.snapshot {
        Some(snapshot) => AppView {
            follow_tail: snapshot.follow_tail,
            settings: snapshot.settings,
            config: ConfigView {
                agents: snapshot.agents,
                roster_dirty: false,
                ..closed.config
            },
            ..closed
        },
        None => closed,
    }
}

/// The surface after changes were saved.
#[verifier::opaque]
pub open spec fn saved(app: AppView) -> AppView {
    AppView {
        config: ConfigView {
            visible: false,
            snapshot: None,
            collaboration_pending: match app.config.snapshot {
                Some(snapshot) => app.settings.collaboration != snapshot.settings.collaboration,
                None => false,
            },
            ..app.config
        },
        status: "configuration saved"@,
        ..app
    }
}

/// The surface with nothing pending of an earlier configuration.
#[verifier::opaque]
pub open spec fn nothing_pending(app: AppView) -> AppView {
    AppView { config: ConfigView { collaboration_pending: false, ..app.config }, ..app }
}

/// What asking the focused row for another model comes to.
pub open spec fn cycling(app: AppView, forward: bool) -> ConfigAction {
    if model_offered(app, forward) is Some {
        ConfigAction::Changed
    } else {
        ConfigAction::Ignored
    }
}

/// What a key does, where the agents share the given modes: the surface afterwards,
/// and the action.
pub open spec fn config_response(app: AppView, key: ConfigKey, modes: Seq<ModeView>) -> (
    AppView,
    ConfigAction,
) {
    let row = app.config.selected as int;
    if !app.config.visible {
        (nothing_pending(app), ConfigAction::Ignored)
    } else {
        match key {
            ConfigKey::Cancel => (discarded(app), ConfigAction::Cancel),
            ConfigKey::Save => (saved(app), ConfigAction::Save),
            ConfigKey::Up => (
                focused_row(
                    app,
                    if row > 0 {
                        (row - 1) as usize
                    } else {
                        0
                    },
                ),
                ConfigAction::Changed,
            ),
            ConfigKey::Down => (
                focused_row(
                    app,
                    if row < last_row(app.config) {
                        (row + 1) as usize
                    } else {
                        last_row(app.config) as usize
                    },
                ),
                ConfigAction::Changed,
            ),
            ConfigKey::MoveUp => if row >= CONFIG_SETTING_COUNT {
                (row_moved(app, true), ConfigAction::Changed)
            } else {
                (app, ConfigAction::Ignored)
            },
            ConfigKey::MoveDown => if row >= CONFIG_SETTING_COUNT {
                (row_moved(app, false), ConfigAction::Changed)
            } else {
                (app, ConfigAction::Ignored)
            },
            ConfigKey::Confirm => if row >= CONFIG_SETTING_COUNT {
                (row_toggled(app), ConfigAction::Changed)
            } else {
                (configured(app, row, modes), ConfigAction::Changed)
            },
            ConfigKey::ToggleSlot => if row >= CONFIG_SETTING_COUNT {
                (row_toggled(app), ConfigAction::Changed)
            } else {
                (app, ConfigAction::Ignored)
            },
            ConfigKey::PreviousValue => (model_cycled(app, false), cycling(app, false)),
            ConfigKey::NextValue => (model_cycled(app, true), cycling(app, true)),
        }
    }
}

/// The surface after some keys.
pub open spec fn after_keys(app: AppView, keys: Seq<ConfigKey>, modes: Seq<ModeView>) -> AppView
    decreases keys.len(),
{
    if keys.len() == 0 {
        app
    } else {
        config_response(after_keys(app, keys.drop_last(), modes), keys.last(), modes).0
    }
}

proof fn lemma_key_keeps_the_snapshot(app: AppView, key: ConfigKey, modes: Seq<ModeView>)
    requires
        app.config.visible,
        key != ConfigKey::Save,
        key != ConfigKey::Cancel,
    ensures
        config_response(app, key, modes).0.config.visible,
        config_response(app, key, modes).0.config.snapshot == app.config.snapshot,
{
    match key {
        ConfigKey::Up => {
            reveal(focused_row);
        },
        ConfigKey::Down => {
            reveal(focused_row);
        },
        ConfigKey::MoveUp => {
            reveal(row_moved);
        },
        ConfigKey::MoveDown => {
            reveal(row_moved);
        },
        ConfigKey::Confirm => {
            reveal(row_toggled);
            reveal(configured);
        },
        ConfigKey::ToggleSlot => {
            reveal(row_toggled);
        },
        ConfigKey::PreviousValue => {
            reveal(model_cycled);
        },
        ConfigKey::NextValue => {
            reveal(model_cycled);
        },
        _ => {},
    }
}

proof fn lemma_keys_keep_the_snapshot(app: AppView, keys: Seq<ConfigKey>, modes: Seq<ModeView>)
    requires
        app.config.visible,
        forall|i: int|
            0 <= i < keys.len() ==> #[trigger] keys[i] != ConfigKey::Save && keys[i]
                != ConfigKey::Cancel,
    ensures
        after_keys(app, keys, modes).config.visible,
        after_keys(app, keys, modes).config.snapshot == app.config.snapshot,
    decreases keys.len(),
{
    if keys.len() > 0 {
        let rest = keys.drop_last();
        assert forall|i: int| 0 <= i < rest.len() implies #[trigger] rest[i] != ConfigKey::Save
            && rest[i] != ConfigKey::Cancel by {
            assert(rest[i] == keys[i]);
        }
        lemma_keys_keep_the_snapshot(app, rest, modes);
        assert(keys.last() != ConfigKey::Save && keys.last() != ConfigKey::Cancel);
        lemma_key_keeps_the_snapshot(after_keys(app, rest, modes), keys.last(), modes);
    }
}

/// Discarding restores: whatever was changed since the panel was opened, the settings,
/// the roster rows and whether the output is followed are what they were.
pub proof fn law_discarding_restores(
    app: AppView,
    row: usize,
    status: Seq<char>,
    keys: Seq<ConfigKey>,
    modes: Seq<ModeView>,
)
    requires
        !app.config.visible,
        forall|i: int|
            0 <= i < keys.len() ==> #[trigger] keys[i] != ConfigKey::Save && keys[i]
                != ConfigKey::Cancel,
    ensures
        ({
            let changed = after_keys(config_opened(app, row, status), keys, modes);
            let (after, action) = config_response(changed, ConfigKey::Cancel, modes);
            action == ConfigAction::Cancel && after.settings == app.settings && after.follow_tail
                == app.follow_tail && after.config.agents == app.config.agents
                && !after.config.visible && after.requested_mode is None
                && !after.config.roster_dirty
        }),
{
    reveal(config_opened);
    let opened = config_opened(app, row, status);
    lemma_keys_keep_the_snapshot(opened, keys, modes);
    reveal(discarded);
}

impl ConfigPanel {
    fn move_row(&mut self, up: bool)
        requires
            config_ok(old(self)@),
            old(self)@.visible,
            old(self)@.selected >= CONFIG_SETTING_COUNT,
        ensures
            config_ok(final(self)@),
            final(self)@ == moved_row(old(self)@, up),
    {
        let index: usize = self.selected - CONFIG_SETTING_COUNT;
        let count: usize = self.agents.len();
        assert(self@.agents.len() == count);
        let target: usize = if up {
            if index == 0 {
                return;
            }
            index - 1
        } else {
            if count == 0 || index >= count - 1 {
                return;
            }
            index + 1
        };
        exchange_rows(&mut self.agents, index, target);
        self.selected = CONFIG_SETTING_COUNT + target;
        self.roster_dirty = true;
    }
}

impl App {
    fn configure(&mut self, row: usize, modes: &Vec<Mode>)
        requires
            old(self).wf(),
        ensures
            final(self).wf(),
            final(self)@ == configured(old(self)@, row as int, item_contents(modes@)),
    {
        proof {
            reveal(configured);
        }
        self.settings.change(row, modes);
        let follow = if row == 0 {
            !self.follow_tail
        } else {
            self.follow_tail
        };
        let requested = if row == 3 {
            copy_optional(&self.settings.mode_policy)
        } else {
            copy_optional(&self.requested_mode)
        };
        let blink = if row == 11 && !self.settings.blink_title {
            false
        } else {
            self.title_blink
        };
        self.follow_tail = follow;
        self.requested_mode = requested;
        self.title_blink = blink;
        self.status = "configuration updated".to_owned();
    }

    fn focus_row(&mut self, row: usize)
        requires
            old(self).wf(),
            row <= CONFIG_SETTING_COUNT || row - CONFIG_SETTING_COUNT
                < old(self)@.config.agents.len(),
        ensures
            final(self).wf(),
            final(self)@ == focused_row(old(self)@, row),
    {
        proof {
            reveal(focused_row);
        }
        self.config.selected = row;
    }

    fn move_row(&mut self, up: bool)
        requires
            old(self).wf(),
            old(self)@.config.visible,
            old(self)@.config.selected >= CONFIG_SETTING_COUNT,
        ensures
            final(self).wf(),
            final(self)@ == row_moved(old(self)@, up),
    {
        proof {
            reveal(row_moved);
        }
        self.config.move_row(up);
    }

    fn toggle_focused_row(&mut self)
        requires
            old(self).wf(),
            old(self)@.config.selected >= CONFIG_SETTING_COUNT,
        ensures
            final(self).wf(),
            final(self)@ == row_toggled(old(self)@),
    {
        proof {
            reveal(row_toggled);
        }
        let index: usize = self.config.selected - CONFIG_SETTING_COUNT;
        if index >= self.config.agents.len() {
            return;
        }
        let mut status = to_chars(self.config.agents[index].name.as_str());
        let selected = toggle_row(&mut self.config.agents, index);
        if selected {
            append_text(&mut status, " added to roster");
        } else {
            append_text(&mut status, " removed from roster");
        }
        self.config.roster_dirty = true;
        self.status = to_text(&status);
    }

    fn discard(&mut self)
        requires
            old(self).wf(),
        ensures
            final(self).wf(),
            final(self)@ == discarded(old(self)@),
    {
        proof {
            reveal(discarded);
        }
        self.requested_mode = None;
        self.status = "changes discarded".to_owned();
        self.config.visible = false;
        self.config.collaboration_pending = false;
        if let Some(snapshot) = self.config.snapshot.take() {
            self.follow_tail = snapshot.follow_tail;
            self.settings = snapshot.settings;
            self.config.agents = snapshot.agents;
            self.config.roster_dirty = false;
        }
    }

    fn save(&mut self)
        requires
            old(self).wf(),
        ensures
            final(self).wf(),
            final(self)@ == saved(old(self)@),
    {
        proof {
            reveal(saved);
        }
        let pending = match &self.config.snapshot {
            Some(snapshot) => !same(
                self.settings.collaboration.as_str(),
                snapshot.settings.collaboration.as_str(),
            ),
            None => false,
        };
        self.config.visible = false;
        self.config.collaboration_pending = pending;
        self.config.snapshot = None;
        self.status = "configuration saved".to_owned();
    }

    fn forget_pending(&mut self)
        requires
            old(self).wf(),
        ensures
            final(self).wf(),
            final(self)@ == nothing_pending(old(self)@),
    {
        proof {
            reveal(nothing_pending);
        }
        self.config.collaboration_pending = false;
    }

    /// Handles a key of the configuration panel. `modes` are the modes that the agents
    /// share.
    pub fn handle_config_key(&mut self, key: ConfigKey, modes: &Vec<Mode>) -> (action: ConfigAction)
        requires
            old(self).wf(),
        ensures
            final(self).wf(),
            (final(self)@, action) == config_response(old(self)@, key, item_contents(modes@)),
    {
        if !self.config.visible {
            self.forget_pending();
            return ConfigAction::Ignored;
        }
        let row: usize = self.config.selected;
        assert(self@.config.agents.len() == self.config.agents.len());
        match key {
            ConfigKey::Cancel => {
                self.discard();
                ConfigAction::Cancel
            },
            ConfigKey::Save => {
                self.save();
                ConfigAction::Save
            },
            ConfigKey::Up => {
                self.focus_row(
                    if row > 0 {
                        row - 1
                    } else {
                        0
                    },
                );
                ConfigAction::Changed
            },
            ConfigKey::Down => {
                let last: usize = CONFIG_SETTING_COUNT + self.config.agents.len() - 1;
                self.focus_row(
                    if row < last {
                        row + 1
                    } else {
                        last
                    },
                );
                ConfigAction::Changed
            },
            ConfigKey::MoveUp => {
                if row < CONFIG_SETTING_COUNT {
                    return ConfigAction::Ignored;
                }
                self.move_row(true);
                ConfigAction::Changed
            },
            ConfigKey::MoveDown => {
                if row < CONFIG_SETTING_COUNT {
                    return ConfigAction::Ignored;
                }
                self.move_row(false);
                ConfigAction::Changed
            },
            ConfigKey::Confirm => {
                if row >= CONFIG_SETTING_COUNT {
                    self.toggle_focused_row();
                } else {
                    self.configure(row, modes);
                }
                ConfigAction::Changed
            },
            ConfigKey::ToggleSlot => {
                if row < CONFIG_SETTING_COUNT {
                    return ConfigAction::Ignored;
                }
                self.toggle_focused_row();
                ConfigAction::Changed
            },
            ConfigKey::PreviousValue => if self.cycle_model(false) {
                ConfigAction::Changed
            } else {
                ConfigAction::Ignored
            },
            ConfigKey::NextValue => if self.cycle_model(true) {
                ConfigAction::Changed
            } else {
                ConfigAction::Ignored
            },
        }
    }
}

} // verus!
