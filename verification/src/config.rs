//! The in-session configuration panel.

use crate::order::item_contents;
use crate::settings::{Settings, SettingsView};
use crate::store::{StoreAgent, StoreAgentView};
use vstd::prelude::*;

verus! {

/// The rows above the roster rows.
pub const CONFIG_SETTING_COUNT: usize = 14;

#[derive(Clone, Copy, Debug, Eq, PartialEq, Structural)]
pub enum ConfigKey {
    Up,
    Down,
    PreviousValue,
    NextValue,
    ToggleSlot,
    MoveUp,
    MoveDown,
    Confirm,
    Save,
    Cancel,
}

#[derive(Clone, Copy, Debug, Eq, PartialEq, Structural)]
pub enum ConfigAction {
    Ignored,
    Changed,
    Save,
    Cancel,
}

/// What is restored when changes are discarded.
#[derive(Debug)]
pub struct ConfigSnapshot {
    pub follow_tail: bool,
    pub settings: Settings,
    pub agents: Vec<StoreAgent>,
}

pub struct SnapshotView {
    pub follow_tail: bool,
    pub settings: SettingsView,
    pub agents: Seq<StoreAgentView>,
}

impl View for ConfigSnapshot {
    type V = SnapshotView;

    open spec fn view(&self) -> SnapshotView {
        SnapshotView {
            follow_tail: self.follow_tail,
            settings: self.settings@,
            agents: item_contents(self.agents@),
        }
    }
}

/// The configuration panel: the settings, and below them the catalog rows, whose
/// selection stands for the next roster.
#[derive(Debug)]
pub struct ConfigPanel {
    pub visible: bool,
    pub selected: usize,
    pub agents: Vec<StoreAgent>,
    pub roster_dirty: bool,
    pub snapshot: Option<ConfigSnapshot>,
    pub collaboration_pending: bool,
}

pub struct ConfigView {
    pub visible: bool,
    pub selected: usize,
    pub agents: Seq<StoreAgentView>,
    pub roster_dirty: bool,
    pub snapshot: Option<SnapshotView>,
    pub collaboration_pending: bool,
}

/// The contents of an optional snapshot.
pub open spec fn snapshot_in(snapshot: Option<ConfigSnapshot>) -> Option<SnapshotView> {
    match snapshot {
        Some(value) => Some(value@),
        None => None,
    }
}

impl View for ConfigPanel {
    type V = ConfigView;

    open spec fn view(&self) -> ConfigView {
        ConfigView {
            visible: self.visible,
            selected: self.selected,
            agents: item_contents(self.agents@),
            roster_dirty: self.roster_dirty,
            snapshot: snapshot_in(self.snapshot),
            collaboration_pending: self.collaboration_pending,
        }
    }
}

/// The rows of a panel with this many roster rows can be counted.
pub open spec fn countable(agents: Seq<StoreAgentView>) -> bool {
    CONFIG_SETTING_COUNT + agents.len() <= usize::MAX
}

/// While the panel is shown its focus is on a row, or on the first place for a roster
/// row. Its rows can be counted.
pub open spec fn config_ok(config: ConfigView) -> bool {
    &&& config.visible ==> config.selected <= CONFIG_SETTING_COUNT || config.selected
        - CONFIG_SETTING_COUNT < config.agents.len()
    &&& countable(config.agents)
    &&& config.snapshot matches Some(snapshot) ==> countable(snapshot.agents)
}

/// The last row of the panel.
pub open spec fn last_row(config: ConfigView) -> int {
    CONFIG_SETTING_COUNT + config.agents.len() - 1
}

impl ConfigPanel {
    pub fn new() -> (config: Self)
        ensures
            config@ == (ConfigView {
                visible: false,
                selected: 0,
                agents: Seq::empty(),
                roster_dirty: false,
                snapshot: None,
                collaboration_pending: false,
            }),
    {
        let config = ConfigPanel {
            visible: false,
            selected: 0,
            agents: Vec::new(),
            roster_dirty: false,
            snapshot: None,
            collaboration_pending: false,
        };
        assert(config@.agents =~= Seq::empty());
        config
    }
}

} // verus!
