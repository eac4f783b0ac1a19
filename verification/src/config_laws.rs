//! What holds of every configuration: a row changes what it shows and nothing else, models
//! go to the agents of their rows, and the roster becomes the one that was chosen.

use crate::app::AppView;
use crate::config::{ConfigKey, CONFIG_SETTING_COUNT};
use crate::config_keys::{config_response, configured, focused_row, row_moved, row_toggled};
use crate::config_models::{
    asks_for_model, model_changes, model_cycled, model_offered, nth_live, row_slot,
};
use crate::controls::ControlView;
use crate::events::ModeView;
use crate::launch::SpecView;
use crate::panels::setting_row;
use crate::roster::{active_slots, RecordView};
use crate::roster_sync::{
    desired_agents, is_live, is_missing, live_count, missing_place, reconciled, roster_fault,
    undetected, ReconciliationView,
};
use crate::store::StoreAgentView;
use crate::text::same_ignoring_case;
use vstd::prelude::*;

verus! {

// Settings.

/// Confirming a row changes the setting that the row shows, and no other: every other row
/// shows what it showed, and the conversation, the roster and the queue stay.
pub proof fn law_a_row_changes_what_it_shows(
    app: AppView,
    row: int,
    other: int,
    modes: Seq<ModeView>,
)
    requires
        0 <= row < CONFIG_SETTING_COUNT,
        0 <= other < CONFIG_SETTING_COUNT,
        other != row,
    ensures
        ({
            let after = configured(app, row, modes);
            &&& setting_row(after, other) == setting_row(app, other)
            &&& setting_row(after, row).0 == setting_row(app, row).0
            &&& after.transcript == app.transcript
            &&& after.roster == app.roster
            &&& after.queue == app.queue
            &&& after.config == app.config
            &&& row == 3 ==> after.requested_mode == after.settings.mode_policy
            &&& row != 3 ==> after.requested_mode == app.requested_mode
                && after.settings.mode_policy == app.settings.mode_policy
        }),
{
    let after = configured(app, row, modes);
    lemma_other_settings_stay(app, row, other, modes);
    lemma_shows_the_same(app, after, other);
    lemma_labels_stay(app, after, row);
    reveal(configured);
}

/// Whether two surfaces agree in the setting of a row.
spec fn same_setting(a: AppView, b: AppView, row: int) -> bool {
    let (x, y) = (a.settings, b.settings);
    &&& row == 0 ==> a.follow_tail == b.follow_tail
    &&& row == 1 ==> x.collapse_details == y.collapse_details
    &&& row == 2 ==> x.notification_policy == y.notification_policy
    &&& row == 3 ==> x.mode == y.mode
    &&& row == 4 ==> x.collaboration == y.collaboration
    &&& row == 5 ==> x.diff_split == y.diff_split
    &&& row == 6 ==> x.show_thoughts == y.show_thoughts
    &&& row == 7 ==> x.tool_expand_policy == y.tool_expand_policy
    &&& row == 8 ==> x.density == y.density
    &&& row == 9 ==> x.show_scrollbar == y.show_scrollbar
    &&& row == 10 ==> x.sounds == y.sounds
    &&& row == 11 ==> x.blink_title == y.blink_title
    &&& row == 13 ==> x.theme == y.theme
}

proof fn lemma_other_settings_stay(app: AppView, row: int, other: int, modes: Seq<ModeView>)
    requires
        other != row,
    ensures
        same_setting(app, configured(app, row, modes), other),
{
    reveal(configured);
}

proof fn lemma_shows_the_same(a: AppView, b: AppView, row: int)
    requires
        0 <= row < CONFIG_SETTING_COUNT,
        same_setting(a, b, row),
    ensures
        setting_row(a, row) == setting_row(b, row),
{
}

proof fn lemma_labels_stay(a: AppView, b: AppView, row: int)
    ensures
        setting_row(a, row).0 == setting_row(b, row).0,
{
}

/// A setting that is confirmed shows another value than before.
pub proof fn law_a_confirmed_setting_shows_another_value(
    app: AppView,
    row: int,
    modes: Seq<ModeView>,
)
    requires
        0 <= row < 12,
        row != 3,
        row != 4,
    ensures
        setting_row(configured(app, row, modes), row).1 != setting_row(app, row).1,
{
    reveal(configured);
    lemma_values_differ();
}

proof fn lemma_values_differ()
    ensures
        "Split"@.len() == 5,
        "Unified"@.len() == 7,
        "Visible"@.len() == 7,
        "Collapsed"@.len() == 9,
        "On failure"@.len() == 10,
        "Always"@.len() == 6,
        "Never"@.len() == 5,
        "When unfocused"@.len() == 14,
        "Comfortable"@.len() == 11,
        "Compact"@.len() == 7,
        "Normal"@[0] == 'N',
        "Hidden"@[0] == 'H',
        "On"@.len() == 2,
        "Off"@.len() == 3,
{
    reveal_strlit("Split");
    reveal_strlit("Unified");
    reveal_strlit("Visible");
    reveal_strlit("Collapsed");
    reveal_strlit("On failure");
    reveal_strlit("Always");
    reveal_strlit("Never");
    reveal_strlit("When unfocused");
    reveal_strlit("Comfortable");
    reveal_strlit("Compact");
    reveal_strlit("Normal");
    reveal_strlit("Hidden");
    reveal_strlit("On");
    reveal_strlit("Off");
}

/// Adding and removing is for the focused row of the roster alone, and doing it twice undoes
/// it. A row that is moved changes places with its neighbour and keeps the focus.
pub proof fn law_roster_rows_are_changed_one_at_a_time(app: AppView, index: int)
    requires
        index == app.config.selected - CONFIG_SETTING_COUNT,
        0 <= index < app.config.agents.len(),
        CONFIG_SETTING_COUNT + app.config.agents.len() <= usize::MAX,
    ensures
        ({
            let once = row_toggled(app).config.agents;
            &&& once.len() == app.config.agents.len()
            &&& once[index].selected == !app.config.agents[index].selected
            &&& once[index].identity == app.config.agents[index].identity
            &&& forall|i: int|
                0 <= i < once.len() && i != index ==> #[trigger] once[i] == app.config.agents[i]
            &&& row_toggled(row_toggled(app)).config.agents == app.config.agents
        }),
        index + 1 < app.config.agents.len() ==> ({
            let down = row_moved(app, false).config;
            &&& down.selected == app.config.selected + 1
            &&& down.agents[index + 1] == app.config.agents[index]
            &&& down.agents[index] == app.config.agents[index + 1]
            &&& forall|i: int|
                0 <= i < down.agents.len() && i != index && i != index + 1
                    ==> #[trigger] down.agents[i] == app.config.agents[i]
            &&& row_moved(row_moved(app, false), true).config.agents == app.config.agents
        }),
{
    reveal(row_toggled);
    reveal(row_moved);
    assert(row_toggled(row_toggled(app)).config.agents =~= app.config.agents);
    if index + 1 < app.config.agents.len() {
        assert(row_moved(row_moved(app, false), true).config.agents =~= app.config.agents);
    }
}

/// The arrows move the focus by one row and stop at either end.
pub proof fn law_the_focus_moves_by_one_row(app: AppView, modes: Seq<ModeView>)
    requires
        app.config.visible,
        CONFIG_SETTING_COUNT + app.config.agents.len() <= usize::MAX,
        app.config.selected < CONFIG_SETTING_COUNT + app.config.agents.len(),
    ensures
        ({
            let last = CONFIG_SETTING_COUNT + app.config.agents.len() - 1;
            let down = config_response(app, ConfigKey::Down, modes).0;
            let up = config_response(app, ConfigKey::Up, modes).0;
            &&& down.config.selected == (if app.config.selected < last {
                app.config.selected + 1
            } else {
                last
            })
            &&& up.config.selected == (if app.config.selected > 0 {
                app.config.selected - 1
            } else {
                0
            })
            &&& down.settings == app.settings
            &&& down.config.agents == app.config.agents
            &&& up.settings == app.settings
        }),
{
    reveal(focused_row);
}

// Models.

proof fn lemma_nth_live(
    agents: Seq<(usize, RecordView)>,
    slots: Seq<usize>,
    identity: Seq<char>,
    n: int,
    from: int,
)
    requires
        0 <= from,
    ensures
        nth_live(agents, slots, identity, n, from) matches Some(slot) ==> slots.contains(slot)
            && is_live(agents, slot, identity),
    decreases slots.len() - from,
{
    if from < slots.len() {
        assert(slots.contains(slots[from]));
        lemma_nth_live(agents, slots, identity, n, from + 1);
        lemma_nth_live(agents, slots, identity, n - 1, from + 1);
    }
}

/// A row of the roster stands for a running agent of its own identity that takes part, and a
/// row that is not selected for none.
pub proof fn law_rows_stand_for_their_own_agents(
    agents: Seq<(usize, RecordView)>,
    rows: Seq<StoreAgentView>,
    index: int,
)
    requires
        0 <= index < rows.len(),
    ensures
        row_slot(agents, rows, index) matches Some(slot) ==> rows[index].selected
            && active_slots(agents).contains(slot) && is_live(agents, slot, rows[index].identity),
{
    lemma_nth_live(
        agents,
        active_slots(agents),
        rows[index].identity,
        crate::config_models::rows_of(rows, rows[index].identity, index),
        0,
    );
}

/// Whether a model is the one that was chosen for one of the first rows, and the slot that
/// of the row's agent.
pub open spec fn chosen_for_a_row(app: AppView, n: int, change: (usize, Seq<char>)) -> bool {
    exists|i: int|
        0 <= i < n && #[trigger] asks_for_model(app, i) && row_slot(
            app.roster.agents,
            app.config.agents,
            i,
        ) == Some(change.0) && app.config.agents[i].model == Some(change.1)
}

/// Each model that was chosen for a row is asked of the agent of that row, where the agent
/// takes it and does not use it already; nothing else is asked for.
pub proof fn law_models_go_to_the_agents_of_their_rows(
    app: AppView,
    n: int,
    change: (usize, Seq<char>),
)
    requires
        0 <= n <= app.config.agents.len(),
    ensures
        model_changes(app, n).contains(change) <==> chosen_for_a_row(app, n, change),
    decreases n,
{
    if n > 0 {
        law_models_go_to_the_agents_of_their_rows(app, n - 1, change);
        let before = model_changes(app, n - 1);
        let after = model_changes(app, n);
        if chosen_for_a_row(app, n, change) {
            let i = choose|i: int|
                0 <= i < n && #[trigger] asks_for_model(app, i) && row_slot(
                    app.roster.agents,
                    app.config.agents,
                    i,
                ) == Some(change.0) && app.config.agents[i].model == Some(change.1);
            if i < n - 1 {
                assert(chosen_for_a_row(app, n - 1, change));
                let k = choose|k: int| 0 <= k < before.len() && before[k] == change;
                assert(after[k] == change);
            } else {
                assert(after.last() == change);
            }
        }
        if after.contains(change) {
            let k = choose|k: int| 0 <= k < after.len() && after[k] == change;
            if k < before.len() {
                assert(before[k] == change);
                assert(before.contains(change));
            } else {
                assert(asks_for_model(app, n - 1));
            }
        }
    }
}

/// Going through the models changes the model of the focused row, to the one that is
/// offered, and leaves the other rows.
pub proof fn law_only_the_focused_row_changes_its_model(app: AppView, forward: bool, index: int)
    requires
        index == app.config.selected - CONFIG_SETTING_COUNT,
    ensures
        model_offered(app, forward) matches Some(model) ==> {
            let after = model_cycled(app, forward).config.agents;
            &&& 0 <= index < after.len() == app.config.agents.len()
            &&& after[index].model == Some(model)
            &&& after[index].identity == app.config.agents[index].identity
            &&& forall|i: int|
                0 <= i < after.len() && i != index ==> #[trigger] after[i] == app.config.agents[i]
        },
        model_offered(app, forward) is None ==> model_cycled(app, forward) == app,
{
    reveal(model_cycled);
}

// The roster.

proof fn lemma_missing_place(
    agents: Seq<(usize, RecordView)>,
    slots: Seq<usize>,
    desired: Seq<StoreAgentView>,
    from: int,
)
    requires
        0 <= from,
    ensures
        missing_place(agents, slots, desired, from) matches Some(i) ==> from <= i < desired.len()
            && is_missing(agents, slots, desired, i),
    decreases desired.len() - from,
{
    if from < desired.len() {
        lemma_missing_place(agents, slots, desired, from + 1);
    }
}

/// An agent that is added is one of those that were chosen, started with the command of its
/// row and under its identity.
pub proof fn law_missing_agents_join_as_configured(
    agents: Seq<(usize, RecordView)>,
    rows: Seq<StoreAgentView>,
    awaited: Option<Seq<char>>,
)
    ensures
        reconciled(agents, rows, awaited).0 matches ReconciliationView::Request { control, failure }
            ==> (control matches ControlView::Add { spec, identity } ==> exists|i: int|
            0 <= i < desired_agents(rows).len() && (#[trigger] desired_agents(rows)[i]).identity
                == identity && (spec == SpecView::Acp(desired_agents(rows)[i].command) || spec
                == SpecView::Agy(desired_agents(rows)[i].command)) && (spec is Agy
                <==> same_ignoring_case(desired_agents(rows)[i].adapter, "native"@))),
{
    let desired = desired_agents(rows);
    lemma_missing_place(agents, active_slots(agents), desired, 0);
    if desired.len() > 0 {
        assert(desired[0].identity == desired[0].identity);
    }
}

/// The chosen agents are the selected rows, in the order of the panel.
pub proof fn law_selected_rows_are_the_desired_agents(
    first: Seq<StoreAgentView>,
    second: Seq<StoreAgentView>,
    row: StoreAgentView,
)
    ensures
        desired_agents(first + second) == desired_agents(first) + desired_agents(second),
        row.selected ==> desired_agents(seq![row]) == seq![row],
        !row.selected ==> desired_agents(seq![row]).len() == 0,
    decreases second.len(),
{
    assert(seq![row].drop_last() =~= Seq::<StoreAgentView>::empty());
    assert(desired_agents(seq![row].drop_last()) =~= Seq::<StoreAgentView>::empty());
    assert(row.selected ==> desired_agents(seq![row]) =~= seq![row]);
    if second.len() == 0 {
        assert(first + second =~= first);
        assert(desired_agents(first) + desired_agents(second) =~= desired_agents(first));
    } else {
        let all = first + second;
        assert(all.drop_last() =~= first + second.drop_last());
        law_selected_rows_are_the_desired_agents(first, second.drop_last(), row);
        assert(desired_agents(all) =~= desired_agents(first) + desired_agents(second));
    }
}

/// A roster is taken exactly where an agent is selected and every selected one can be run.
pub proof fn law_only_rosters_that_can_run_are_taken(rows: Seq<StoreAgentView>, present: Seq<bool>)
    ensures
        roster_fault(rows, present) is None <==> desired_agents(rows).len() > 0 && forall|i: int|
            0 <= i < rows.len() && (#[trigger] rows[i]).selected ==> rows[i].available && i
                < present.len() && present[i],
{
    lemma_undetected(rows, present, 0);
}

proof fn lemma_undetected(rows: Seq<StoreAgentView>, present: Seq<bool>, from: int)
    requires
        0 <= from,
    ensures
        undetected(rows, present, from) is None <==> forall|i: int|
            from <= i < rows.len() && (#[trigger] rows[i]).selected ==> rows[i].available && i
                < present.len() && present[i],
    decreases rows.len() - from,
{
    if from < rows.len() {
        lemma_undetected(rows, present, from + 1);
    }
}

proof fn lemma_nth_live_place(
    agents: Seq<(usize, RecordView)>,
    slots: Seq<usize>,
    identity: Seq<char>,
    n: int,
    p: int,
    from: int,
)
    requires
        0 <= from <= p < slots.len(),
        is_live(agents, slots[p], identity),
        live_count(agents, slots, identity, p) - live_count(agents, slots, identity, from) == n,
    ensures
        nth_live(agents, slots, identity, n, from) == Some(slots[p]),
    decreases p - from,
{
    lemma_live_count(agents, slots, identity, from, p);
    if from < p {
        lemma_live_count(agents, slots, identity, from + 1, p);
        if is_live(agents, slots[from], identity) {
            lemma_nth_live_place(agents, slots, identity, n - 1, p, from + 1);
        } else {
            lemma_nth_live_place(agents, slots, identity, n, p, from + 1);
        }
    }
}

proof fn lemma_live_count(
    agents: Seq<(usize, RecordView)>,
    slots: Seq<usize>,
    identity: Seq<char>,
    m: int,
    n: int,
)
    requires
        0 <= m <= n,
    ensures
        live_count(agents, slots, identity, m) <= live_count(agents, slots, identity, n),
        m < n && is_live(agents, slots[m], identity) ==> live_count(agents, slots, identity, m)
            < live_count(agents, slots, identity, n),
    decreases n - m,
{
    if m < n {
        lemma_live_count(agents, slots, identity, m, n - 1);
    }
}

/// Where an agent is there more than once, its rows stand for its slots in their order: the
/// first row for the first of them, the second for the second, and so on.
pub proof fn law_repeated_rows_stand_for_their_own_slots(
    agents: Seq<(usize, RecordView)>,
    rows: Seq<StoreAgentView>,
    index: int,
    p: int,
)
    requires
        0 <= index < rows.len(),
        rows[index].selected,
        0 <= p < active_slots(agents).len(),
        is_live(agents, active_slots(agents)[p], rows[index].identity),
        live_count(agents, active_slots(agents), rows[index].identity, p)
            == crate::config_models::rows_of(rows, rows[index].identity, index),
    ensures
        row_slot(agents, rows, index) == Some(active_slots(agents)[p]),
{
    lemma_nth_live_place(
        agents,
        active_slots(agents),
        rows[index].identity,
        crate::config_models::rows_of(rows, rows[index].identity, index),
        p,
        0,
    );
}

} // verus!
