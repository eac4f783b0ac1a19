//! Preferences that are kept between conversations, as a settings document holds them.

use crate::app::{App, AppView};
use crate::editor::EditorView;
use crate::json::{
    document, field, field_place, fields_of, fields_view, flag_in, json_view,
    law_set_values_are_found, lemma_fields_view, lemma_list_view, lemma_set_field, list_view,
    nested, parse_json, section, set_value, text_in, with_field, with_value, Json, JsonView,
};
use crate::launch::{RosterSlot, SlotView};
use crate::launcher::{saved_places, slot_in, slots_in};
use crate::order::item_contents;
use crate::settings::{
    density_name, density_setting, notification_name, notification_setting, tool_name, tool_setting,
    Density, NotificationPolicy, Settings, SettingsView, ToolExpandPolicy,
};
use crate::text::{blank, eq_ignore_case, is_blank, same_ignoring_case};
use crate::theme::{law_themes_survive_saving, theme_name, theme_setting, Theme};
use vstd::prelude::*;

verus! {

/// A value that was read, or the one that stands.
pub open spec fn read_or<T>(read: Option<T>, standing: T) -> T {
    match read {
        Some(value) => value,
        None => standing,
    }
}

/// The notification policy that a settings document asks for. The named policy comes
/// first, and of the two switches the newer one.
pub open spec fn preferred_notifications(
    standing: NotificationPolicy,
    value: JsonView,
) -> NotificationPolicy {
    match text_in(nested(value, "notifications"@, "system"@)) {
        Some(policy) => notification_setting(policy),
        None => {
            let switch = match flag_in(nested(value, "notifications"@, "enabled"@)) {
                Some(enabled) => Some(enabled),
                None => flag_in(nested(value, "notifications"@, "turn_over"@)),
            };
            match switch {
                Some(true) => NotificationPolicy::Blur,
                Some(false) => NotificationPolicy::Never,
                None => standing,
            }
        },
    }
}

/// The settings after a settings document was read. What it does not say stays.
pub open spec fn preferred_settings(settings: SettingsView, value: JsonView) -> SettingsView {
    SettingsView {
        collapse_details: read_or(
            flag_in(nested(value, "transcript"@, "collapse_details"@)),
            settings.collapse_details,
        ),
        notification_policy: preferred_notifications(settings.notification_policy, value),
        sounds: read_or(
            flag_in(nested(value, "notifications"@, "enable_sounds"@)),
            settings.sounds,
        ),
        blink_title: read_or(
            flag_in(nested(value, "notifications"@, "blink_title"@)),
            settings.blink_title,
        ),
        show_thoughts: read_or(
            flag_in(nested(value, "agent"@, "thoughts"@)),
            settings.show_thoughts,
        ),
        tool_expand_policy: match text_in(nested(value, "tools"@, "expand"@)) {
            Some(expand) => tool_setting(expand),
            None => settings.tool_expand_policy,
        },
        density: match text_in(nested(value, "ui"@, "density"@)) {
            Some(density) => density_setting(density),
            None => settings.density,
        },
        show_scrollbar: match text_in(nested(value, "ui"@, "scrollbar"@)) {
            Some(scrollbar) => !same_ignoring_case(scrollbar, "hidden"@),
            None => settings.show_scrollbar,
        },
        theme: match text_in(nested(value, "ui"@, "theme"@)) {
            Some(theme) => theme_setting(theme),
            None => settings.theme,
        },
        diff_split: match text_in(nested(value, "diff"@, "view"@)) {
            Some(view) => same_ignoring_case(view, "split"@),
            None => settings.diff_split,
        },
        ..settings
    }
}

/// The hint of an empty prompt that a settings document asks for.
pub open spec fn preferred_message(value: JsonView) -> Option<Seq<char>> {
    match text_in(nested(value, "ui"@, "prompt_message"@)) {
        Some(message) => if is_blank(message) {
            None
        } else {
            Some(message)
        },
        None => None,
    }
}

/// The application after a settings document was read.
pub open spec fn preferred(app: AppView, value: JsonView) -> AppView {
    let message = preferred_message(value);
    AppView {
        settings: preferred_settings(app.settings, value),
        follow_tail: read_or(flag_in(nested(value, "ui"@, "follow_output"@)), app.follow_tail),
        title_blink: app.title_blink && flag_in(nested(value, "notifications"@, "blink_title"@))
            != Some(false),
        prompt_message: read_or(message, app.prompt_message),
        editor: EditorView { hint: read_or(message, app.editor.hint), ..app.editor },
        ..app
    }
}

fn read_notifications(settings: &mut Settings, value: &Json)
    ensures
        final(settings)@ == (SettingsView {
            notification_policy: preferred_notifications(
                old(settings)@.notification_policy,
                value@,
            ),
            ..old(settings)@
        }),
{
    let policy = match value.text_at("notifications", "system") {
        Some(policy) => NotificationPolicy::from_setting(policy),
        None => {
            let switch = match value.flag_at("notifications", "enabled") {
                Some(enabled) => Some(enabled),
                None => value.flag_at("notifications", "turn_over"),
            };
            match switch {
                Some(true) => NotificationPolicy::Blur,
                Some(false) => NotificationPolicy::Never,
                None => settings.notification_policy,
            }
        },
    };
    settings.notification_policy = policy;
}

fn flag_or(read: Option<bool>, standing: bool) -> (flag: bool)
    ensures
        flag == read_or(read, standing),
{
    match read {
        Some(flag) => flag,
        None => standing,
    }
}

fn read_settings(settings: &mut Settings, value: &Json)
    ensures
        final(settings)@ == preferred_settings(old(settings)@, value@),
{
    settings.collapse_details = flag_or(
        value.flag_at("transcript", "collapse_details"),
        settings.collapse_details,
    );
    read_notifications(settings, value);
    settings.sounds = flag_or(value.flag_at("notifications", "enable_sounds"), settings.sounds);
    settings.blink_title = flag_or(
        value.flag_at("notifications", "blink_title"),
        settings.blink_title,
    );
    settings.show_thoughts = flag_or(value.flag_at("agent", "thoughts"), settings.show_thoughts);
    settings.tool_expand_policy = match value.text_at("tools", "expand") {
        Some(expand) => ToolExpandPolicy::from_setting(expand),
        None => settings.tool_expand_policy,
    };
    settings.density = match value.text_at("ui", "density") {
        Some(density) => Density::from_setting(density),
        None => settings.density,
    };
    settings.show_scrollbar = match value.text_at("ui", "scrollbar") {
        Some(scrollbar) => !eq_ignore_case(scrollbar, "hidden"),
        None => settings.show_scrollbar,
    };
    settings.theme = match value.text_at("ui", "theme") {
        Some(theme) => Theme::from_setting(theme),
        None => settings.theme,
    };
    settings.diff_split = match value.text_at("diff", "view") {
        Some(view) => eq_ignore_case(view, "split"),
        None => settings.diff_split,
    };
}

impl App {
    /// Takes the notification policy from a settings document.
    pub fn apply_notification_preferences(&mut self, value: &Json)
        requires
            old(self).wf(),
        ensures
            final(self).wf(),
            final(self)@ == (AppView {
                settings: SettingsView {
                    notification_policy: preferred_notifications(
                        old(self)@.settings.notification_policy,
                        value@,
                    ),
                    ..old(self)@.settings
                },
                ..old(self)@
            }),
    {
        read_notifications(&mut self.settings, value);
    }

    fn read_hint(&mut self, value: &Json)
        requires
            old(self).wf(),
        ensures
            final(self).wf(),
            final(self)@ == (AppView {
                prompt_message: read_or(preferred_message(value@), old(self)@.prompt_message),
                editor: EditorView {
                    hint: read_or(preferred_message(value@), old(self)@.editor.hint),
                    ..old(self)@.editor
                },
                ..old(self)@
            }),
    {
        match value.text_at("ui", "prompt_message") {
            Some(message) => {
                if !blank(message) {
                    self.set_prompt_message(message);
                }
            },
            None => {},
        }
    }

    fn read_switches(&mut self, value: &Json)
        requires
            old(self).wf(),
        ensures
            final(self).wf(),
            final(self)@ == (AppView {
                settings: preferred_settings(old(self)@.settings, value@),
                follow_tail: read_or(
                    flag_in(nested(value@, "ui"@, "follow_output"@)),
                    old(self)@.follow_tail,
                ),
                title_blink: old(self)@.title_blink && flag_in(
                    nested(value@, "notifications"@, "blink_title"@),
                ) != Some(false),
                ..old(self)@
            }),
    {
        let follow = flag_or(value.flag_at("ui", "follow_output"), self.follow_tail);
        let blink = self.title_blink && flag_or(value.flag_at("notifications", "blink_title"), true);
        self.follow_tail = follow;
        self.title_blink = blink;
        read_settings(&mut self.settings, value);
    }

    /// Takes the preferences from a settings document.
    pub fn apply_preferences(&mut self, value: &Json)
        requires
            old(self).wf(),
        ensures
            final(self).wf(),
            final(self)@ == preferred(old(self)@, value@),
    {
        self.read_hint(value);
        self.read_switches(value);
    }

    /// Takes the preferences from the text of a settings file. A text that is not JSON
    /// changes nothing.
    pub fn load_ui_preferences(&mut self, text: &str)
        requires
            old(self).wf(),
        ensures
            final(self).wf(),
            final(self)@ == (match document(text@) {
                Some(value) => preferred(old(self)@, value),
                None => old(self)@,
            }),
    {
        match parse_json(text) {
            Some(value) => {
                self.apply_preferences(&value);
            },
            None => {},
        }
    }
}

/// The fields of a settings document after the preferences were saved into it.
pub open spec fn saved_preferences(app: AppView, fields: Seq<(Seq<char>, JsonView)>) -> Seq<
    (Seq<char>, JsonView),
> {
    let settings = app.settings;
    let enabled = JsonView::Bool(settings.notification_policy != NotificationPolicy::Never);
    let scrollbar = if settings.show_scrollbar {
        "normal"@
    } else {
        "hidden"@
    };
    let view = if settings.diff_split {
        "split"@
    } else {
        "unified"@
    };
    let policy = JsonView::Text(notification_name(settings.notification_policy));
    let tools = JsonView::Text(tool_name(settings.tool_expand_policy));
    let all = with_value(fields, "ui"@, "follow_output"@, JsonView::Bool(app.follow_tail));
    let all = with_value(all, "ui"@, "prompt_message"@, JsonView::Text(app.prompt_message));
    let all = with_value(all, "ui"@, "density"@, JsonView::Text(density_name(settings.density)));
    let all = with_value(all, "ui"@, "scrollbar"@, JsonView::Text(scrollbar));
    let all = with_value(all, "ui"@, "theme"@, JsonView::Text(theme_name(settings.theme)));
    let all = with_value(
        all,
        "transcript"@,
        "collapse_details"@,
        JsonView::Bool(settings.collapse_details),
    );
    let all = with_value(all, "notifications"@, "system"@, policy);
    let all = with_value(all, "notifications"@, "enabled"@, enabled);
    let all = with_value(all, "notifications"@, "turn_over"@, enabled);
    let all = with_value(all, "notifications"@, "enable_sounds"@, JsonView::Bool(settings.sounds));
    let all = with_value(
        all,
        "notifications"@,
        "blink_title"@,
        JsonView::Bool(settings.blink_title),
    );
    let all = with_value(all, "agent"@, "thoughts"@, JsonView::Bool(settings.show_thoughts));
    let all = with_value(all, "tools"@, "expand"@, tools);
    with_value(all, "diff"@, "view"@, JsonView::Text(view))
}

fn set_text(fields: &mut Vec<(String, Json)>, name: &str, key: &str, text: &str)
    ensures
        fields_view(final(fields)@) == with_value(
            fields_view(old(fields)@),
            name@,
            key@,
            JsonView::Text(text@),
        ),
{
    set_value(fields, name, key, Json::Text(text.to_owned()));
}

fn set_flag(fields: &mut Vec<(String, Json)>, name: &str, key: &str, flag: bool)
    ensures
        fields_view(final(fields)@) == with_value(
            fields_view(old(fields)@),
            name@,
            key@,
            JsonView::Bool(flag),
        ),
{
    set_value(fields, name, key, Json::Bool(flag));
}

impl App {
    /// Saves the preferences into the fields of a settings document. Everything else in
    /// the document stays.
    pub fn save_ui_preferences(&self, fields: &mut Vec<(String, Json)>)
        ensures
            fields_view(final(fields)@) == saved_preferences(self@, fields_view(old(fields)@)),
    {
        let settings = &self.settings;
        let enabled = match settings.notification_policy {
            NotificationPolicy::Never => false,
            _ => true,
        };
        let scrollbar = if settings.show_scrollbar {
            "normal"
        } else {
            "hidden"
        };
        let view = if settings.diff_split {
            "split"
        } else {
            "unified"
        };
        set_flag(fields, "ui", "follow_output", self.follow_tail);
        set_text(fields, "ui", "prompt_message", self.prompt_message.as_str());
        set_text(fields, "ui", "density", settings.density.as_str());
        set_text(fields, "ui", "scrollbar", scrollbar);
        set_text(fields, "ui", "theme", settings.theme.as_str());
        set_flag(fields, "transcript", "collapse_details", settings.collapse_details);
        set_text(fields, "notifications", "system", settings.notification_policy.as_str());
        set_flag(fields, "notifications", "enabled", enabled);
        set_flag(fields, "notifications", "turn_over", enabled);
        set_flag(fields, "notifications", "enable_sounds", settings.sounds);
        set_flag(fields, "notifications", "blink_title", settings.blink_title);
        set_flag(fields, "agent", "thoughts", settings.show_thoughts);
        set_text(fields, "tools", "expand", settings.tool_expand_policy.as_str());
        set_text(fields, "diff", "view", view);
    }
}

/// What the preferences say is read back from the document that they were saved into.
pub open spec fn preferences_agree(read: AppView, saved: AppView) -> bool {
    &&& read.follow_tail == saved.follow_tail
    &&& read.settings.collapse_details == saved.settings.collapse_details
    &&& read.settings.notification_policy == saved.settings.notification_policy
    &&& read.settings.sounds == saved.settings.sounds
    &&& read.settings.blink_title == saved.settings.blink_title
    &&& read.settings.show_thoughts == saved.settings.show_thoughts
    &&& read.settings.tool_expand_policy == saved.settings.tool_expand_policy
    &&& read.settings.density == saved.settings.density
    &&& read.settings.show_scrollbar == saved.settings.show_scrollbar
    &&& read.settings.theme == saved.settings.theme
    &&& read.settings.diff_split == saved.settings.diff_split
    &&& !is_blank(saved.prompt_message) ==> read.prompt_message == saved.prompt_message
}

proof fn lemma_names_differ()
    ensures
        "ui"@ != "transcript"@,
        "ui"@ != "notifications"@,
        "ui"@ != "agent"@,
        "ui"@ != "tools"@,
        "ui"@ != "diff"@,
        "transcript"@ != "notifications"@,
        "transcript"@ != "agent"@,
        "transcript"@ != "tools"@,
        "transcript"@ != "diff"@,
        "notifications"@ != "agent"@,
        "notifications"@ != "tools"@,
        "notifications"@ != "diff"@,
        "agent"@ != "tools"@,
        "agent"@ != "diff"@,
        "tools"@ != "diff"@,
        "follow_output"@ != "prompt_message"@,
        "follow_output"@ != "density"@,
        "follow_output"@ != "scrollbar"@,
        "prompt_message"@ != "density"@,
        "prompt_message"@ != "scrollbar"@,
        "density"@ != "scrollbar"@,
        "theme"@ != "follow_output"@,
        "theme"@ != "prompt_message"@,
        "theme"@ != "density"@,
        "theme"@ != "scrollbar"@,
        "system"@ != "enabled"@,
        "system"@ != "turn_over"@,
        "system"@ != "enable_sounds"@,
        "system"@ != "blink_title"@,
        "enable_sounds"@ != "enabled"@,
        "enable_sounds"@ != "turn_over"@,
        "enable_sounds"@ != "blink_title"@,
        "blink_title"@ != "enabled"@,
        "blink_title"@ != "turn_over"@,
{
    reveal_strlit("ui");
    reveal_strlit("transcript");
    reveal_strlit("notifications");
    reveal_strlit("agent");
    reveal_strlit("tools");
    reveal_strlit("diff");
    reveal_strlit("follow_output");
    reveal_strlit("prompt_message");
    reveal_strlit("density");
    reveal_strlit("scrollbar");
    reveal_strlit("theme");
    reveal_strlit("system");
    reveal_strlit("enabled");
    reveal_strlit("turn_over");
    reveal_strlit("enable_sounds");
    reveal_strlit("blink_title");
    assert("ui"@.len() == 2);
    assert("transcript"@.len() == 10);
    assert("notifications"@.len() == 13);
    assert("agent"@.len() == 5);
    assert("tools"@.len() == 5);
    assert("diff"@.len() == 4);
    assert("follow_output"@.len() == 13);
    assert("prompt_message"@.len() == 14);
    assert("density"@.len() == 7);
    assert("scrollbar"@.len() == 9);
    assert("theme"@.len() == 5);
    assert("system"@.len() == 6);
    assert("enabled"@.len() == 7);
    assert("turn_over"@.len() == 9);
    assert("enable_sounds"@.len() == 13);
    assert("blink_title"@.len() == 11);
    assert("agent"@[0] == 'a' && "tools"@[0] == 't');
}

proof fn lemma_view_names()
    ensures
        !same_ignoring_case("normal"@, "hidden"@),
        same_ignoring_case("split"@, "split"@),
        !same_ignoring_case("unified"@, "split"@),
{
    reveal_strlit("normal");
    reveal_strlit("hidden");
    reveal_strlit("unified");
    reveal_strlit("split");
    assert(crate::text::lower("normal"@)[0] == 'n');
    assert(crate::text::lower("hidden"@)[0] == 'h');
    assert(crate::text::lower("unified"@).len() == 7);
    assert(crate::text::lower("split"@).len() == 5);
}

/// What was saved is read back, whatever else the document holds and whatever stood
/// before it was read. The one exception is a blank hint, which is not taken.
pub proof fn law_preferences_survive_saving(
    saved: AppView,
    standing: AppView,
    fields: Seq<(Seq<char>, JsonView)>,
)
    ensures
        preferences_agree(
            preferred(standing, JsonView::Object(saved_preferences(saved, fields))),
            saved,
        ),
{
    let settings = saved.settings;
    let enabled = JsonView::Bool(settings.notification_policy != NotificationPolicy::Never);
    let scrollbar = if settings.show_scrollbar {
        "normal"@
    } else {
        "hidden"@
    };
    let view = if settings.diff_split {
        "split"@
    } else {
        "unified"@
    };
    let policy = JsonView::Text(notification_name(settings.notification_policy));
    let tools = JsonView::Text(tool_name(settings.tool_expand_policy));
    let density = JsonView::Text(density_name(settings.density));
    lemma_names_differ();
    lemma_view_names();
    crate::settings::law_settings_survive_saving(
        settings.notification_policy,
        settings.density,
        settings.tool_expand_policy,
    );
    let a = with_value(fields, "ui"@, "follow_output"@, JsonView::Bool(saved.follow_tail));
    lemma_set_value(fields, "ui"@, "follow_output"@, JsonView::Bool(saved.follow_tail));
    let b = with_value(a, "ui"@, "prompt_message"@, JsonView::Text(saved.prompt_message));
    lemma_set_value(a, "ui"@, "prompt_message"@, JsonView::Text(saved.prompt_message));
    let c = with_value(b, "ui"@, "density"@, density);
    lemma_set_value(b, "ui"@, "density"@, density);
    let d = with_value(c, "ui"@, "scrollbar"@, JsonView::Text(scrollbar));
    lemma_set_value(c, "ui"@, "scrollbar"@, JsonView::Text(scrollbar));
    let theme = JsonView::Text(theme_name(settings.theme));
    law_themes_survive_saving(settings.theme);
    let t = with_value(d, "ui"@, "theme"@, theme);
    lemma_set_value(d, "ui"@, "theme"@, theme);
    let collapsed = JsonView::Bool(settings.collapse_details);
    let e = with_value(t, "transcript"@, "collapse_details"@, collapsed);
    lemma_set_value(t, "transcript"@, "collapse_details"@, collapsed);
    let f = with_value(e, "notifications"@, "system"@, policy);
    lemma_set_value(e, "notifications"@, "system"@, policy);
    let g = with_value(f, "notifications"@, "enabled"@, enabled);
    lemma_set_value(f, "notifications"@, "enabled"@, enabled);
    let h = with_value(g, "notifications"@, "turn_over"@, enabled);
    lemma_set_value(g, "notifications"@, "turn_over"@, enabled);
    let sounds = JsonView::Bool(settings.sounds);
    let i = with_value(h, "notifications"@, "enable_sounds"@, sounds);
    lemma_set_value(h, "notifications"@, "enable_sounds"@, sounds);
    let blink = JsonView::Bool(settings.blink_title);
    let j = with_value(i, "notifications"@, "blink_title"@, blink);
    lemma_set_value(i, "notifications"@, "blink_title"@, blink);
    let thoughts = JsonView::Bool(settings.show_thoughts);
    let k = with_value(j, "agent"@, "thoughts"@, thoughts);
    lemma_set_value(j, "agent"@, "thoughts"@, thoughts);
    let l = with_value(k, "tools"@, "expand"@, tools);
    lemma_set_value(k, "tools"@, "expand"@, tools);
    lemma_set_value(l, "diff"@, "view"@, JsonView::Text(view));
}

proof fn lemma_set_value(
    fields: Seq<(Seq<char>, JsonView)>,
    name: Seq<char>,
    key: Seq<char>,
    value: JsonView,
)
    ensures
        forall|other_name: Seq<char>, other_key: Seq<char>| #[trigger]
            nested(
                JsonView::Object(with_value(fields, name, key, value)),
                other_name,
                other_key,
            ) == (if other_name == name && other_key == key {
                Some(value)
            } else {
                nested(JsonView::Object(fields), other_name, other_key)
            }),
{
    assert forall|other_name: Seq<char>, other_key: Seq<char>| #[trigger]
        nested(
            JsonView::Object(with_value(fields, name, key, value)),
            other_name,
            other_key,
        ) == (if other_name == name && other_key == key {
            Some(value)
        } else {
            nested(JsonView::Object(fields), other_name, other_key)
        }) by {
        law_set_values_are_found(fields, name, key, value, other_name, other_key);
    }
}

/// A saved place as a settings document holds it.
pub open spec fn slot_json(slot: SlotView) -> JsonView {
    match slot.model {
        Some(model) => JsonView::Object(
            seq![("agent"@, JsonView::Text(slot.agent)), ("model"@, JsonView::Text(model))],
        ),
        None => JsonView::Object(seq![("agent"@, JsonView::Text(slot.agent))]),
    }
}

/// The fields of a settings document after a roster was saved into it.
pub open spec fn saved_slots_in(
    fields: Seq<(Seq<char>, JsonView)>,
    slots: Seq<SlotView>,
) -> Seq<(Seq<char>, JsonView)> {
    with_value(
        fields,
        "launcher"@,
        "roster"@,
        JsonView::List(Seq::new(slots.len(), |i: int| slot_json(slots[i]))),
    )
}

fn slot_value(slot: &RosterSlot) -> (value: Json)
    ensures
        value@ == slot_json(slot@),
{
    let mut fields: Vec<(String, Json)> = Vec::new();
    fields.push(("agent".to_owned(), Json::Text(slot.agent.clone())));
    match &slot.model {
        Some(model) => {
            fields.push(("model".to_owned(), Json::Text(model.clone())));
        },
        None => {},
    }
    proof {
        lemma_fields_view(fields@);
        assert(fields_view(fields@) =~= fields_of(slot_json(slot@)));
    }
    Json::Object(fields)
}

/// Saves a roster into the fields of a settings document.
pub fn save_roster_slots(fields: &mut Vec<(String, Json)>, slots: &Vec<RosterSlot>)
    ensures
        fields_view(final(fields)@) == saved_slots_in(
            fields_view(old(fields)@),
            item_contents(slots@),
        ),
{
    let mut items: Vec<Json> = Vec::new();
    let mut i: usize = 0;
    while i < slots.len()
        invariant
            i <= slots.len(),
            items.len() == i,
            forall|k: int| 0 <= k < i ==> json_view(#[trigger] items@[k]) == slot_json(slots@[k]@),
        decreases slots.len() - i,
    {
        items.push(slot_value(&slots[i]));
        i = i + 1;
    }
    proof {
        lemma_list_view(items@);
        assert(list_view(items@) =~= Seq::new(
            item_contents(slots@).len(),
            |i: int| slot_json(item_contents(slots@)[i]),
        ));
    }
    set_value(fields, "launcher", "roster", Json::List(items));
}

/// Whether a value of a settings document is a preference.
pub open spec fn is_preference(name: Seq<char>, key: Seq<char>) -> bool {
    ||| name == "ui"@ && (key == "follow_output"@ || key == "prompt_message"@ || key == "density"@
        || key == "scrollbar"@ || key == "theme"@)
    ||| name == "transcript"@ && key == "collapse_details"@
    ||| name == "notifications"@ && (key == "system"@ || key == "enabled"@ || key == "turn_over"@
        || key == "enable_sounds"@ || key == "blink_title"@)
    ||| name == "agent"@ && key == "thoughts"@
    ||| name == "tools"@ && key == "expand"@
    ||| name == "diff"@ && key == "view"@
}

/// Whether a section of a settings document holds preferences.
pub open spec fn holds_preferences(name: Seq<char>) -> bool {
    name == "ui"@ || name == "transcript"@ || name == "notifications"@ || name == "agent"@ || name
        == "tools"@ || name == "diff"@
}

proof fn lemma_others_stay(
    fields: Seq<(Seq<char>, JsonView)>,
    name: Seq<char>,
    key: Seq<char>,
    value: JsonView,
    other_name: Seq<char>,
    other_key: Seq<char>,
)
    ensures
        !(other_name == name && other_key == key) ==> nested(
            JsonView::Object(with_value(fields, name, key, value)),
            other_name,
            other_key,
        ) == nested(JsonView::Object(fields), other_name, other_key),
        other_name != name ==> field(
            JsonView::Object(with_value(fields, name, key, value)),
            other_name,
        ) == field(JsonView::Object(fields), other_name),
{
    law_set_values_are_found(fields, name, key, value, other_name, other_key);
    lemma_set_field(
        fields,
        name,
        JsonView::Object(with_field(section(fields, name), key, value)),
    );
}

/// Saving the preferences changes no other value of the settings document, and saving the
/// roster changes nothing but the roster.
pub proof fn law_saving_keeps_other_settings(
    app: AppView,
    slots: Seq<SlotView>,
    fields: Seq<(Seq<char>, JsonView)>,
    name: Seq<char>,
    key: Seq<char>,
)
    ensures
        !is_preference(name, key) ==> nested(
            JsonView::Object(saved_preferences(app, fields)),
            name,
            key,
        ) == nested(JsonView::Object(fields), name, key),
        !holds_preferences(name) ==> field(JsonView::Object(saved_preferences(app, fields)), name)
            == field(JsonView::Object(fields), name),
        !(name == "launcher"@ && key == "roster"@) ==> nested(
            JsonView::Object(saved_slots_in(fields, slots)),
            name,
            key,
        ) == nested(JsonView::Object(fields), name, key),
        name != "launcher"@ ==> field(JsonView::Object(saved_slots_in(fields, slots)), name)
            == field(JsonView::Object(fields), name),
{
    let settings = app.settings;
    let enabled = JsonView::Bool(settings.notification_policy != NotificationPolicy::Never);
    let scrollbar = JsonView::Text(
        if settings.show_scrollbar {
            "normal"@
        } else {
            "hidden"@
        },
    );
    let view = JsonView::Text(
        if settings.diff_split {
            "split"@
        } else {
            "unified"@
        },
    );
    let follow_output = JsonView::Bool(app.follow_tail);
    lemma_others_stay(fields, "ui"@, "follow_output"@, follow_output, name, key);
    let a = with_value(fields, "ui"@, "follow_output"@, follow_output);
    let prompt_message = JsonView::Text(app.prompt_message);
    lemma_others_stay(a, "ui"@, "prompt_message"@, prompt_message, name, key);
    let b = with_value(a, "ui"@, "prompt_message"@, prompt_message);
    let density = JsonView::Text(density_name(settings.density));
    lemma_others_stay(b, "ui"@, "density"@, density, name, key);
    let c = with_value(b, "ui"@, "density"@, density);
    lemma_others_stay(c, "ui"@, "scrollbar"@, scrollbar, name, key);
    let d = with_value(c, "ui"@, "scrollbar"@, scrollbar);
    let theme = JsonView::Text(theme_name(settings.theme));
    lemma_others_stay(d, "ui"@, "theme"@, theme, name, key);
    let t = with_value(d, "ui"@, "theme"@, theme);
    let collapse_details = JsonView::Bool(settings.collapse_details);
    lemma_others_stay(t, "transcript"@, "collapse_details"@, collapse_details, name, key);
    let e = with_value(t, "transcript"@, "collapse_details"@, collapse_details);
    let system = JsonView::Text(notification_name(settings.notification_policy));
    lemma_others_stay(e, "notifications"@, "system"@, system, name, key);
    let f = with_value(e, "notifications"@, "system"@, system);
    lemma_others_stay(f, "notifications"@, "enabled"@, enabled, name, key);
    let g = with_value(f, "notifications"@, "enabled"@, enabled);
    lemma_others_stay(g, "notifications"@, "turn_over"@, enabled, name, key);
    let h = with_value(g, "notifications"@, "turn_over"@, enabled);
    let enable_sounds = JsonView::Bool(settings.sounds);
    lemma_others_stay(h, "notifications"@, "enable_sounds"@, enable_sounds, name, key);
    let i = with_value(h, "notifications"@, "enable_sounds"@, enable_sounds);
    let blink_title = JsonView::Bool(settings.blink_title);
    lemma_others_stay(i, "notifications"@, "blink_title"@, blink_title, name, key);
    let j = with_value(i, "notifications"@, "blink_title"@, blink_title);
    let thoughts = JsonView::Bool(settings.show_thoughts);
    lemma_others_stay(j, "agent"@, "thoughts"@, thoughts, name, key);
    let k = with_value(j, "agent"@, "thoughts"@, thoughts);
    let expand = JsonView::Text(tool_name(settings.tool_expand_policy));
    lemma_others_stay(k, "tools"@, "expand"@, expand, name, key);
    let l = with_value(k, "tools"@, "expand"@, expand);
    lemma_others_stay(l, "diff"@, "view"@, view, name, key);
    lemma_others_stay(
        fields,
        "launcher"@,
        "roster"@,
        JsonView::List(Seq::new(slots.len(), |i: int| slot_json(slots[i]))),
        name,
        key,
    );
}

/// A saved roster is read back as it was saved.
pub proof fn law_saved_rosters_are_read_back(
    fields: Seq<(Seq<char>, JsonView)>,
    slots: Seq<SlotView>,
)
    ensures
        saved_places(Some(JsonView::Object(saved_slots_in(fields, slots)))) == slots,
{
    let items = Seq::new(slots.len(), |i: int| slot_json(slots[i]));
    law_set_values_are_found(
        fields,
        "launcher"@,
        "roster"@,
        JsonView::List(items),
        "launcher"@,
        "roster"@,
    );
    lemma_slots_read(items, slots, slots.len() as int);
    assert(slots.take(slots.len() as int) =~= slots);
}

proof fn lemma_slots_read(items: Seq<JsonView>, slots: Seq<SlotView>, n: int)
    requires
        0 <= n <= slots.len(),
        items.len() == slots.len(),
        forall|i: int| 0 <= i < slots.len() ==> #[trigger] items[i] == slot_json(slots[i]),
    ensures
        slots_in(items, n) == slots.take(n),
    decreases n,
{
    if n > 0 {
        lemma_slots_read(items, slots, n - 1);
        reveal_strlit("agent");
        reveal_strlit("model");
        assert("agent"@[0] == 'a' && "model"@[0] == 'm');
        let slot = slots[n - 1];
        let fields = fields_of(items[n - 1]);
        assert(fields[0].0 == "agent"@);
        assert(field_place(fields, "agent"@) == 0);
        reveal_with_fuel(field_place, 3);
        if slot.model is Some {
            assert(fields.drop_first()[0].0 == "model"@);
            assert(field_place(fields, "model"@) == 1);
        } else {
            assert(fields.drop_first().len() == 0);
            assert(field_place(fields, "model"@) == 1);
        }
        assert(slot_in(items[n - 1]) == Some(slot));
        assert(slots.take(n) =~= slots.take(n - 1).push(slot));
    } else {
        assert(slots.take(n) =~= Seq::empty());
    }
}

/// A switch for notifications that was read decides between being told when away and never
/// being told; the newer switch comes before the older one, and without either the policy
/// stands.
pub proof fn law_switches_decide_notifications(standing: NotificationPolicy, value: JsonView)
    requires
        text_in(nested(value, "notifications"@, "system"@)) is None,
    ensures
        ({
            let newer = flag_in(nested(value, "notifications"@, "enabled"@));
            let older = flag_in(nested(value, "notifications"@, "turn_over"@));
            let read = preferred_notifications(standing, value);
            &&& newer == Some(true) ==> read == NotificationPolicy::Blur
            &&& newer == Some(false) ==> read == NotificationPolicy::Never
            &&& newer is None && older == Some(true) ==> read == NotificationPolicy::Blur
            &&& newer is None && older == Some(false) ==> read == NotificationPolicy::Never
            &&& newer is None && older is None ==> read == standing
        }),
{
}

/// The hint of an empty prompt is the message that was written, unless it is blank.
pub proof fn law_written_messages_are_the_hint(value: JsonView, message: Seq<char>)
    requires
        text_in(nested(value, "ui"@, "prompt_message"@)) == Some(message),
    ensures
        !is_blank(message) ==> preferred_message(value) == Some(message),
        is_blank(message) ==> preferred_message(value) is None,
{
}

/// Each setting is read from its own place: a flag that was written is the one that is set,
/// and what was not written stays.
pub proof fn law_written_settings_are_read(settings: SettingsView, value: JsonView)
    ensures
        ({
            let after = preferred_settings(settings, value);
            let collapse = flag_in(nested(value, "transcript"@, "collapse_details"@));
            let sounds = flag_in(nested(value, "notifications"@, "enable_sounds"@));
            let blink = flag_in(nested(value, "notifications"@, "blink_title"@));
            let thoughts = flag_in(nested(value, "agent"@, "thoughts"@));
            &&& collapse is Some ==> after.collapse_details == collapse->0
            &&& collapse is None ==> after.collapse_details == settings.collapse_details
            &&& sounds is Some ==> after.sounds == sounds->0
            &&& sounds is None ==> after.sounds == settings.sounds
            &&& blink is Some ==> after.blink_title == blink->0
            &&& blink is None ==> after.blink_title == settings.blink_title
            &&& thoughts is Some ==> after.show_thoughts == thoughts->0
            &&& thoughts is None ==> after.show_thoughts == settings.show_thoughts
            &&& after.mode == settings.mode
        }),
{
}

} // verus!
