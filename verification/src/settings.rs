//! The choices that a person can make about the conversation surface.

use crate::events::{copy_optional, Mode, ModeView};
use crate::order::item_contents;
use crate::text::{eq_ignore_case, lower, optional, same, same_ignoring_case, to_lower};
use crate::theme::Theme;
use vstd::prelude::*;

verus! {

/// When completion and permission events may be forwarded to the operating system.
#[derive(Clone, Copy, Debug, Eq, PartialEq, Structural)]
pub enum NotificationPolicy {
    /// Never send a system notification or completion bell.
    Never,
    /// Notify only after the terminal reports that it is unfocused.
    Blur,
    /// Notify regardless of terminal focus.
    Always,
}

impl Default for NotificationPolicy {
    fn default() -> (policy: Self)
        ensures
            policy == NotificationPolicy::Blur,
    {
        NotificationPolicy::Blur
    }
}

/// The policy that a setting names; anything unknown is `Never`.
pub open spec fn notification_setting(value: Seq<char>) -> NotificationPolicy {
    if lower(value) == "always"@ {
        NotificationPolicy::Always
    } else if lower(value) == "blur"@ || lower(value) == "unfocused"@ {
        NotificationPolicy::Blur
    } else {
        NotificationPolicy::Never
    }
}

/// The setting that names a policy.
pub open spec fn notification_name(policy: NotificationPolicy) -> Seq<char> {
    match policy {
        NotificationPolicy::Never => "never"@,
        NotificationPolicy::Blur => "blur"@,
        NotificationPolicy::Always => "always"@,
    }
}

/// How a policy is shown.
pub open spec fn notification_label(policy: NotificationPolicy) -> Seq<char> {
    match policy {
        NotificationPolicy::Never => "Never"@,
        NotificationPolicy::Blur => "When unfocused"@,
        NotificationPolicy::Always => "Always"@,
    }
}

/// The policy after a policy, round and round.
pub open spec fn notification_after(policy: NotificationPolicy) -> NotificationPolicy {
    match policy {
        NotificationPolicy::Never => NotificationPolicy::Blur,
        NotificationPolicy::Blur => NotificationPolicy::Always,
        NotificationPolicy::Always => NotificationPolicy::Never,
    }
}

impl NotificationPolicy {
    pub fn from_setting(value: &str) -> (policy: Self)
        ensures
            policy == notification_setting(value@),
    {
        let low = to_lower(value);
        if same(low.as_str(), "always") {
            NotificationPolicy::Always
        } else if same(low.as_str(), "blur") || same(low.as_str(), "unfocused") {
            NotificationPolicy::Blur
        } else {
            NotificationPolicy::Never
        }
    }

    pub fn as_str(self) -> (name: &'static str)
        ensures
            name@ == notification_name(self),
    {
        match self {
            NotificationPolicy::Never => "never",
            NotificationPolicy::Blur => "blur",
            NotificationPolicy::Always => "always",
        }
    }

    pub fn label(self) -> (label: &'static str)
        ensures
            label@ == notification_label(self),
    {
        match self {
            NotificationPolicy::Never => "Never",
            NotificationPolicy::Blur => "When unfocused",
            NotificationPolicy::Always => "Always",
        }
    }

    pub fn next(self) -> (policy: Self)
        ensures
            policy == notification_after(self),
    {
        match self {
            NotificationPolicy::Never => NotificationPolicy::Blur,
            NotificationPolicy::Blur => NotificationPolicy::Always,
            NotificationPolicy::Always => NotificationPolicy::Never,
        }
    }
}

/// How much vertical space the conversation surface gives to editor text. The
/// setting is binary to stay predictable in a small pane.
#[derive(Clone, Copy, Debug, Eq, PartialEq, Structural)]
pub enum Density {
    Comfortable,
    Compact,
}

impl Default for Density {
    fn default() -> (density: Self)
        ensures
            density == Density::Comfortable,
    {
        Density::Comfortable
    }
}

/// The density that a setting names; anything unknown is `Comfortable`.
pub open spec fn density_setting(value: Seq<char>) -> Density {
    if same_ignoring_case(value, "compact"@) {
        Density::Compact
    } else {
        Density::Comfortable
    }
}

/// The setting that names a density.
pub open spec fn density_name(density: Density) -> Seq<char> {
    match density {
        Density::Comfortable => "comfortable"@,
        Density::Compact => "compact"@,
    }
}

/// The other density.
pub open spec fn density_after(density: Density) -> Density {
    match density {
        Density::Comfortable => Density::Compact,
        Density::Compact => Density::Comfortable,
    }
}

impl Density {
    pub fn from_setting(value: &str) -> (density: Self)
        ensures
            density == density_setting(value@),
    {
        if eq_ignore_case(value, "compact") {
            Density::Compact
        } else {
            Density::Comfortable
        }
    }

    pub fn as_str(self) -> (name: &'static str)
        ensures
            name@ == density_name(self),
    {
        match self {
            Density::Comfortable => "comfortable",
            Density::Compact => "compact",
        }
    }

    pub fn next(self) -> (density: Self)
        ensures
            density == density_after(self),
    {
        match self {
            Density::Comfortable => Density::Compact,
            Density::Compact => Density::Comfortable,
        }
    }
}

/// Policy for materializing tool output details.
#[derive(Clone, Copy, Debug, Eq, PartialEq, Structural)]
pub enum ToolExpandPolicy {
    /// Expand failed tools, subject to the global collapsed-details toggle.
    Fail,
    /// Expand every tool detail.
    Always,
    /// Keep every tool detail collapsed.
    Never,
}

impl Default for ToolExpandPolicy {
    fn default() -> (policy: Self)
        ensures
            policy == ToolExpandPolicy::Fail,
    {
        ToolExpandPolicy::Fail
    }
}

/// The policy that a setting names; anything unknown is `Fail`.
pub open spec fn tool_setting(value: Seq<char>) -> ToolExpandPolicy {
    if lower(value) == "always"@ {
        ToolExpandPolicy::Always
    } else if lower(value) == "never"@ {
        ToolExpandPolicy::Never
    } else {
        ToolExpandPolicy::Fail
    }
}

/// The setting that names a policy.
pub open spec fn tool_name(policy: ToolExpandPolicy) -> Seq<char> {
    match policy {
        ToolExpandPolicy::Fail => "fail"@,
        ToolExpandPolicy::Always => "always"@,
        ToolExpandPolicy::Never => "never"@,
    }
}

/// The policy after a policy, round and round.
pub open spec fn tool_after(policy: ToolExpandPolicy) -> ToolExpandPolicy {
    match policy {
        ToolExpandPolicy::Fail => ToolExpandPolicy::Always,
        ToolExpandPolicy::Always => ToolExpandPolicy::Never,
        ToolExpandPolicy::Never => ToolExpandPolicy::Fail,
    }
}

impl ToolExpandPolicy {
    pub fn from_setting(value: &str) -> (policy: Self)
        ensures
            policy == tool_setting(value@),
    {
        let low = to_lower(value);
        if same(low.as_str(), "always") {
            ToolExpandPolicy::Always
        } else if same(low.as_str(), "never") {
            ToolExpandPolicy::Never
        } else {
            ToolExpandPolicy::Fail
        }
    }

    pub fn as_str(self) -> (name: &'static str)
        ensures
            name@ == tool_name(self),
    {
        match self {
            ToolExpandPolicy::Fail => "fail",
            ToolExpandPolicy::Always => "always",
            ToolExpandPolicy::Never => "never",
        }
    }

    pub fn next(self) -> (policy: Self)
        ensures
            policy == tool_after(self),
    {
        match self {
            ToolExpandPolicy::Fail => ToolExpandPolicy::Always,
            ToolExpandPolicy::Always => ToolExpandPolicy::Never,
            ToolExpandPolicy::Never => ToolExpandPolicy::Fail,
        }
    }
}

proof fn lemma_lower_names()
    ensures
        lower("always"@) == "always"@,
        lower("blur"@) == "blur"@,
        lower("never"@) == "never"@,
        lower("fail"@) == "fail"@,
        lower("compact"@) == "compact"@,
        "always"@ != "blur"@,
        "always"@ != "never"@,
        "always"@ != "fail"@,
        "never"@ != "blur"@,
        "never"@ != "unfocused"@,
        "fail"@ != "never"@,
        lower("comfortable"@) != lower("compact"@),
{
    reveal_strlit("always");
    reveal_strlit("blur");
    reveal_strlit("never");
    reveal_strlit("fail");
    reveal_strlit("compact");
    reveal_strlit("comfortable");
    reveal_strlit("unfocused");
    assert(lower("always"@) =~= "always"@);
    assert(lower("blur"@) =~= "blur"@);
    assert(lower("never"@) =~= "never"@);
    assert(lower("fail"@) =~= "fail"@);
    assert(lower("compact"@) =~= "compact"@);
    assert("always"@.len() == 6 && "blur"@.len() == 4 && "never"@.len() == 5 && "fail"@.len() == 4
        && "unfocused"@.len() == 9);
    assert(lower("comfortable"@).len() == 11);
}

/// A setting that is written down is read back as it was.
pub proof fn law_settings_survive_saving(
    notifications: NotificationPolicy,
    density: Density,
    tools: ToolExpandPolicy,
)
    ensures
        notification_setting(notification_name(notifications)) == notifications,
        density_setting(density_name(density)) == density,
        tool_setting(tool_name(tools)) == tools,
{
    lemma_lower_names();
}

/// Going on through the choices of a setting passes all of them and comes round.
pub proof fn law_choices_come_round(
    notifications: NotificationPolicy,
    density: Density,
    tools: ToolExpandPolicy,
)
    ensures
        notification_after(notifications) != notifications,
        notification_after(notification_after(notifications)) != notifications,
        notification_after(notification_after(notification_after(notifications))) == notifications,
        notification_after(NotificationPolicy::Never) == NotificationPolicy::Blur,
        density_after(density) != density,
        density_after(density_after(density)) == density,
        tool_after(tools) != tools,
        tool_after(tool_after(tools)) != tools,
        tool_after(tool_after(tool_after(tools))) == tools,
        tool_after(ToolExpandPolicy::Fail) == ToolExpandPolicy::Always,
{
}

/// The permission policy that a mode's name stands for, and how it is shown.
pub open spec fn known_mode(value: Seq<char>) -> Option<(Seq<char>, Seq<char>)> {
    let name = lower(value);
    if name == "plan"@ || name == "readonly"@ || name == "planmode"@ {
        Some(("plan"@, "Plan"@))
    } else if name == "manual"@ || name == "ask"@ || name == "default"@ {
        Some(("default"@, "Manual"@))
    } else if name == "accept-edits"@ || name == "acceptedits"@ || name == "autoedit"@ {
        Some(("accept-edits"@, "Accept Edits"@))
    } else if name == "full-access"@ || name == "fullaccess"@ || name == "auto"@ || name
        == "autopilot"@ || name == "yolo"@ {
        Some(("full-access"@, "Auto pilot"@))
    } else {
        None
    }
}

/// The permission policy that a mode's name stands for, and how it is shown.
pub fn normalized_mode(value: &str) -> (mode: Option<(&'static str, &'static str)>)
    ensures
        match mode {
            Some((id, label)) => known_mode(value@) == Some((id@, label@)),
            None => known_mode(value@) is None,
        },
{
    let low = to_lower(value);
    let name = low.as_str();
    if same(name, "plan") || same(name, "readonly") || same(name, "planmode") {
        Some(("plan", "Plan"))
    } else if same(name, "manual") || same(name, "ask") || same(name, "default") {
        Some(("default", "Manual"))
    } else if same(name, "accept-edits") || same(name, "acceptedits") || same(name, "autoedit") {
        Some(("accept-edits", "Accept Edits"))
    } else if same(name, "full-access") || same(name, "fullaccess") || same(name, "auto") || same(
        name,
        "autopilot",
    ) || same(name, "yolo") {
        Some(("full-access", "Auto pilot"))
    } else {
        None
    }
}

/// Everything that can be set about a conversation, apart from whether it follows its
/// output.
#[derive(Debug)]
pub struct Settings {
    pub collapse_details: bool,
    pub notification_policy: NotificationPolicy,
    /// How the permission mode is shown.
    pub mode: String,
    /// The permission policy that it stands for, if it stands for one.
    pub mode_policy: Option<String>,
    pub collaboration: String,
    pub diff_split: bool,
    pub show_thoughts: bool,
    pub tool_expand_policy: ToolExpandPolicy,
    pub density: Density,
    pub show_scrollbar: bool,
    pub sounds: bool,
    pub blink_title: bool,
    pub theme: Theme,
}

pub struct SettingsView {
    pub collapse_details: bool,
    pub notification_policy: NotificationPolicy,
    pub mode: Seq<char>,
    pub mode_policy: Option<Seq<char>>,
    pub collaboration: Seq<char>,
    pub diff_split: bool,
    pub show_thoughts: bool,
    pub tool_expand_policy: ToolExpandPolicy,
    pub density: Density,
    pub show_scrollbar: bool,
    pub sounds: bool,
    pub blink_title: bool,
    pub theme: Theme,
}

impl View for Settings {
    type V = SettingsView;

    open spec fn view(&self) -> SettingsView {
        SettingsView {
            collapse_details: self.collapse_details,
            notification_policy: self.notification_policy,
            mode: self.mode@,
            mode_policy: optional(self.mode_policy),
            collaboration: self.collaboration@,
            diff_split: self.diff_split,
            show_thoughts: self.show_thoughts,
            tool_expand_policy: self.tool_expand_policy,
            density: self.density,
            show_scrollbar: self.show_scrollbar,
            sounds: self.sounds,
            blink_title: self.blink_title,
            theme: self.theme,
        }
    }
}

/// The settings of a first launch.
pub open spec fn first_settings() -> SettingsView {
    SettingsView {
        collapse_details: true,
        notification_policy: NotificationPolicy::Blur,
        mode: "Auto pilot"@,
        mode_policy: Some("full-access"@),
        collaboration: "Roster relay"@,
        diff_split: false,
        show_thoughts: false,
        tool_expand_policy: ToolExpandPolicy::Fail,
        density: Density::Comfortable,
        show_scrollbar: true,
        sounds: true,
        blink_title: true,
        theme: Theme::Terminal,
    }
}

impl Default for Settings {
    fn default() -> (settings: Self)
        ensures
            settings@ == first_settings(),
    {
        Settings {
            collapse_details: true,
            notification_policy: NotificationPolicy::Blur,
            mode: "Auto pilot".to_owned(),
            mode_policy: Some("full-access".to_owned()),
            collaboration: "Roster relay".to_owned(),
            diff_split: false,
            show_thoughts: false,
            tool_expand_policy: ToolExpandPolicy::Fail,
            density: Density::Comfortable,
            show_scrollbar: true,
            sounds: true,
            blink_title: true,
            theme: Theme::Terminal,
        }
    }
}

impl Settings {
    pub fn copy(&self) -> (settings: Settings)
        ensures
            settings@ == self@,
    {
        Settings {
            collapse_details: self.collapse_details,
            notification_policy: self.notification_policy,
            mode: self.mode.clone(),
            mode_policy: copy_optional(&self.mode_policy),
            collaboration: self.collaboration.clone(),
            diff_split: self.diff_split,
            show_thoughts: self.show_thoughts,
            tool_expand_policy: self.tool_expand_policy,
            density: self.density,
            show_scrollbar: self.show_scrollbar,
            sounds: self.sounds,
            blink_title: self.blink_title,
            theme: self.theme,
        }
    }
}

/// The place of the first mode with a label.
pub open spec fn place_of_label(modes: Seq<ModeView>, label: Seq<char>) -> Option<int>
    decreases modes.len(),
{
    if modes.len() == 0 {
        None
    } else if modes[0].label == label {
        Some(0)
    } else {
        match place_of_label(modes.drop_first(), label) {
            Some(k) => Some(k + 1),
            None => None,
        }
    }
}

/// The mode after a mode, with the policy that it stands for: the next one that the
/// agents share, or the next of the built-in ones where they share none.
pub open spec fn mode_after(mode: Seq<char>, modes: Seq<ModeView>) -> (Seq<char>, Option<Seq<char>>) {
    if modes.len() > 0 {
        let k: int = match place_of_label(modes, mode) {
            Some(at) => (at + 1) % (modes.len() as int),
            None => 0,
        };
        (modes[k].label, Some(modes[k].id))
    } else if mode == "Auto pilot"@ {
        ("Chat"@, None)
    } else if mode == "Chat"@ {
        ("Plan"@, Some("plan"@))
    } else if mode == "Plan"@ {
        ("Accept Edits"@, Some("accept-edits"@))
    } else {
        ("Auto pilot"@, Some("full-access"@))
    }
}

/// The mode after a mode, with the policy that it stands for.
pub fn next_mode(mode: &str, modes: &Vec<Mode>) -> (next: (String, Option<String>))
    ensures
        (next.0@, optional(next.1)) == mode_after(mode@, item_contents(modes@)),
{
    let ghost all = item_contents(modes@);
    if modes.len() > 0 {
        let mut k: usize = 0;
        assert(all.skip(0) =~= all);
        while k < modes.len() && !same(modes[k].label.as_str(), mode)
            invariant
                k <= modes@.len(),
                all == item_contents(modes@),
                place_of_label(all, mode@) == (match place_of_label(all.skip(k as int), mode@) {
                    Some(p) => Some(p + k),
                    None => None,
                }),
            decreases modes@.len() - k,
        {
            assert(all.skip(k as int).drop_first() =~= all.skip(k + 1));
            assert(all.skip(k as int)[0] == modes@[k as int]@);
            k = k + 1;
        }
        let next: usize = if k < modes.len() {
            assert(all.skip(k as int)[0] == modes@[k as int]@);
            (k + 1) % modes.len()
        } else {
            0
        };
        assert(all[next as int] == modes@[next as int]@);
        return (modes[next].label.clone(), Some(modes[next].id.clone()));
    }
    if same(mode, "Auto pilot") {
        ("Chat".to_owned(), None)
    } else if same(mode, "Chat") {
        ("Plan".to_owned(), Some("plan".to_owned()))
    } else if same(mode, "Plan") {
        ("Accept Edits".to_owned(), Some("accept-edits".to_owned()))
    } else {
        ("Auto pilot".to_owned(), Some("full-access".to_owned()))
    }
}

proof fn lemma_place_of_label(modes: Seq<ModeView>, k: int)
    requires
        0 <= k < modes.len(),
        forall|i: int, j: int|
            0 <= i < j < modes.len() ==> (#[trigger] modes[i]).label != (#[trigger] modes[j]).label,
    ensures
        place_of_label(modes, modes[k].label) == Some(k),
    decreases modes.len(),
{
    if k > 0 {
        let rest = modes.drop_first();
        assert(modes[0].label != modes[k].label);
        assert forall|i: int, j: int| 0 <= i < j < rest.len() implies (#[trigger] rest[i]).label != (
        #[trigger] rest[j]).label by {
            assert(modes[i + 1].label != modes[j + 1].label);
        }
        lemma_place_of_label(rest, k - 1);
        assert(rest[k - 1] == modes[k]);
    }
}

/// Going on from a mode that the agents share leads to the one behind it, and from the last
/// to the first; the policy is always that of the mode.
pub proof fn law_shared_modes_come_round(modes: Seq<ModeView>, k: int)
    requires
        0 <= k < modes.len(),
        forall|i: int, j: int|
            0 <= i < j < modes.len() ==> (#[trigger] modes[i]).label != (#[trigger] modes[j]).label,
    ensures
        ({
            let next = if k + 1 < modes.len() {
                k + 1
            } else {
                0
            };
            mode_after(modes[k].label, modes) == (modes[next].label, Some(modes[next].id))
        }),
{
    lemma_place_of_label(modes, k);
    if k + 1 < modes.len() {
        assert((k + 1) % (modes.len() as int) == k + 1) by (nonlinear_arith)
            requires
                0 <= k,
                k + 1 < modes.len(),
        ;
    } else {
        assert((k + 1) % (modes.len() as int) == 0) by (nonlinear_arith)
            requires
                k + 1 == modes.len(),
                k >= 0,
        ;
    }
}

/// The collaboration after a collaboration, round and round.
pub open spec fn collaboration_after(collaboration: Seq<char>) -> Seq<char> {
    if collaboration == "Roster relay"@ {
        "Manual routing"@
    } else if collaboration == "Manual routing"@ {
        "Pair review"@
    } else {
        "Roster relay"@
    }
}

/// The collaboration after a collaboration, round and round.
pub fn next_collaboration(collaboration: &str) -> (next: String)
    ensures
        next@ == collaboration_after(collaboration@),
{
    if same(collaboration, "Roster relay") {
        "Manual routing".to_owned()
    } else if same(collaboration, "Manual routing") {
        "Pair review".to_owned()
    } else {
        "Roster relay".to_owned()
    }
}

} // verus!
