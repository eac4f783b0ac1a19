//! What holds of every panel: each row shows what it stands for, in order, and exactly the
//! row in focus is marked.

use crate::app::AppView;
use crate::config::CONFIG_SETTING_COUNT;
use crate::panels::{
    config_lines_between, option_line, padded, path_line, permission_panel, picker_panel,
    queue_panel, roster_line, row_box, row_marker, setting_line, short_label, store_header,
    store_line, store_lines_between,
};
use crate::permission::PermissionView;
use crate::picker::{dismissed, is_open};
use crate::store::{StoreAgentView, StoreView};
use crate::text::decimal;
use vstd::prelude::*;

verus! {

/// Whether the mark of a row begins with the sign of the row in focus.
pub open spec fn is_marked(mark: Seq<char>) -> bool {
    mark.len() > 1 && mark[1] == '▶'
}

proof fn lemma_marked(selected: bool, rest: Seq<char>)
    ensures
        is_marked(" "@ + row_marker(selected) + rest) <==> selected,
{
    reveal_strlit("▶");
    reveal_strlit(" ");
    let mark = " "@ + row_marker(selected) + rest;
    assert(mark[1] == row_marker(selected)[0]);
}

/// A question is put in its own words, with every option below it in its own words, in their
/// order and counted from one. The selected option is marked, and no other.
pub proof fn law_every_option_is_offered(request: PermissionView, i: int)
    requires
        0 <= i < request.options.len(),
    ensures
        ({
            let panel = permission_panel(request);
            &&& panel.len() == request.options.len() + 1
            &&& panel[0][1].text == request.title
            &&& panel[i + 1][1].text == request.options[i]
            &&& is_marked(panel[i + 1][0].text) <==> i == request.selected
            &&& exists|start: Seq<char>|
                panel[i + 1][0].text == #[trigger] (start + decimal((i + 1) as nat)) + ". "@
        }),
{
    let panel = permission_panel(request);
    let selected = i == request.selected;
    assert(panel[i + 1] == option_line(request.options[i], i, selected));
    let start = " "@ + row_marker(selected) + " "@;
    assert(panel[i + 1][0].text == (start + decimal((i + 1) as nat)) + ". "@);
    lemma_marked(selected, " "@ + decimal((i + 1) as nat) + ". "@);
    assert(panel[i + 1][0].text =~= " "@ + row_marker(selected) + (" "@ + decimal((i + 1) as nat)
        + ". "@));
}

/// The queue shows the prompts that wait, first come first, each in its own words, and says
/// how many there are. The selected one is marked, and no other.
pub proof fn law_waiting_prompts_are_shown_in_order(app: AppView, i: int)
    requires
        0 <= i < app.queue.prompts.len(),
        app.queue.prompts.len() <= usize::MAX,
        i < 6,
    ensures
        ({
            let panel = queue_panel(app);
            &&& panel.len() <= app.queue.prompts.len() + 1
            &&& i + 1 < panel.len()
            &&& panel[i + 1].last().text == app.queue.prompts[i].prompt
            &&& is_marked(panel[i + 1][0].text) <==> app.queue.selected == Some(i as usize)
        }),
{
    let panel = queue_panel(app);
    let queued = app.queue.prompts[i];
    let selected = app.queue.selected == Some(i as usize);
    assert(panel[i + 1] == crate::panels::queue_line(queued, selected));
    let rest = " "@ + (if queued.direct {
        "direct"@
    } else {
        "queued"@
    }) + " → "@ + crate::panels::queue_target(queued.target) + ": "@;
    lemma_marked(selected, rest);
    assert(panel[i + 1][0].text =~= " "@ + row_marker(selected) + rest);
}

/// The row of an agent shows its name, whether it is taken and whether it was detected; rows
/// that differ in these are told apart.
pub proof fn law_agent_rows_show_their_agent(agent: StoreAgentView, selected: bool, width: int)
    ensures
        is_marked(store_line(agent, selected, width < 60)[0].text) <==> selected,
        is_marked(roster_line(agent, selected, width)[0].text) <==> selected,
        width >= 60 ==> starts_as(store_line(agent, selected, false)[1].text, agent.name),
        width >= 60 ==> starts_as(roster_line(agent, selected, width)[1].text, agent.name),
        store_line(agent, selected, width < 60)[0].text != store_line(
            StoreAgentView { selected: !agent.selected, ..agent },
            selected,
            width < 60,
        )[0].text,
        roster_line(agent, selected, width)[0].text != roster_line(
            StoreAgentView { selected: !agent.selected, ..agent },
            selected,
            width,
        )[0].text,
        store_line(agent, selected, true)[2].text == (if agent.available {
            " ready"@
        } else {
            " missing"@
        }),
        roster_line(agent, selected, width)[2].text == " "@ + (if agent.available {
            "ready"@
        } else {
            "missing"@
        }) + " · "@ + agent.adapter,
{
    let other = StoreAgentView { selected: !agent.selected, ..agent };
    reveal_strlit("▶");
    reveal_strlit(" ");
    reveal_strlit("☑");
    reveal_strlit("☐");
    lemma_marked(selected, " "@ + row_box(agent.selected) + " "@);
    assert(" "@ + row_marker(selected) + " "@ + row_box(agent.selected) + " "@ =~= " "@
        + row_marker(selected) + (" "@ + row_box(agent.selected) + " "@));
    lemma_padded(agent.name, 20);
    let mark = " "@ + row_marker(selected) + " "@ + row_box(agent.selected) + " "@;
    let different = " "@ + row_marker(selected) + " "@ + row_box(other.selected) + " "@;
    assert(mark[3] == row_box(agent.selected)[0]);
    assert(different[3] == row_box(other.selected)[0]);
}

/// Whether a text begins with another.
pub open spec fn starts_as(text: Seq<char>, start: Seq<char>) -> bool {
    text.len() >= start.len() && text.take(start.len() as int) == start
}

proof fn lemma_padded(text: Seq<char>, width: int)
    ensures
        starts_as(padded(text, width), text),
        padded(text, width).len() == (if text.len() >= width {
            text.len() as int
        } else {
            width
        }),
        forall|i: int|
            text.len() <= i < padded(text, width).len() ==> #[trigger] padded(text, width)[i] == ' ',
    decreases width - text.len(),
{
    if text.len() < width {
        let longer = text.push(' ');
        lemma_padded(longer, width);
        let all = padded(longer, width);
        assert(all.take(longer.len() as int)[text.len() as int] == ' ');
        assert forall|i: int| 0 <= i < text.len() implies all[i] == text[i] by {
            assert(all.take(longer.len() as int)[i] == longer[i]);
        }
        assert(all.take(text.len() as int) =~= text);
    } else {
        assert(text.take(text.len() as int) =~= text);
    }
}

/// A text that is filled up begins with all of itself, has the width that was asked for, and
/// only spaces behind it; one that is too long stays as it is.
pub proof fn law_padding_only_adds_spaces(text: Seq<char>, width: int)
    ensures
        starts_as(padded(text, width), text),
        text.len() <= width ==> padded(text, width).len() == width,
        text.len() >= width ==> padded(text, width) == text,
        forall|i: int|
            text.len() <= i < padded(text, width).len() ==> #[trigger] padded(text, width)[i] == ' ',
{
    lemma_padded(text, width);
}

/// The rows of the store and of the configuration are drawn from the first to the last that
/// have room, none left out, and the one in focus is marked.
pub proof fn law_panel_rows_stand_in_their_order(
    app: AppView,
    store: StoreView,
    start: int,
    end: int,
    width: int,
    i: int,
)
    requires
        0 <= start,
        0 <= i < end - start,
        end <= store.agents.len(),
    ensures
        store_lines_between(store, start, end, width < 60).len() == end - start,
        store_lines_between(store, start, end, width < 60)[i] == store_line(
            store.agents[start + i],
            start + i == store.selected,
            width < 60,
        ),
        config_lines_between(app, start, end, width).len() == end - start,
        is_marked(config_lines_between(app, start, end, width)[i][0].text) <==> start + i
            == app.config.selected,
        start + i >= CONFIG_SETTING_COUNT ==> config_lines_between(app, start, end, width)[i]
            == roster_line(
            app.config.agents[start + i - CONFIG_SETTING_COUNT],
            start + i == app.config.selected,
            width,
        ),
{
    let selected = start + i == app.config.selected;
    if start + i < CONFIG_SETTING_COUNT {
        lemma_marked(selected, " "@);
        assert(config_lines_between(app, start, end, width)[i] == setting_line(
            app,
            start + i,
            width,
        ));
    } else {
        law_agent_rows_show_their_agent(
            app.config.agents[start + i - CONFIG_SETTING_COUNT],
            selected,
            width,
        );
    }
}

/// No two settings go by the same short label.
pub proof fn law_short_labels_are_told_apart(first: int, second: int)
    requires
        0 <= first < second < 14,
        first != 12 && second != 12,
    ensures
        short_label(first) != short_label(second),
{
    reveal_strlit("Follow");
    reveal_strlit("Details");
    reveal_strlit("Notify");
    reveal_strlit("Mode");
    reveal_strlit("Collab");
    reveal_strlit("Diff");
    reveal_strlit("Thoughts");
    reveal_strlit("Tools");
    reveal_strlit("Density");
    reveal_strlit("Scroll");
    reveal_strlit("Sound");
    reveal_strlit("Blink");
    reveal_strlit("Theme");
    let (a, b) = (short_label(first), short_label(second));
    assert(a.len() != b.len() || a[0] != b[0] || a[1] != b[1] || a[2] != b[2]);
}

/// The paths that were found are shown best first, as many as there is room for, and the
/// selected one is marked.
pub proof fn law_found_paths_stand_in_order(app: AppView, width: int, i: int)
    requires
        is_open(app.picker),
        0 <= i < app.picker.matches.len(),
        i < 5,
    ensures
        ({
            let panel = picker_panel(app, width);
            &&& panel.len() == 1 + (if app.picker.matches.len() < 5 {
                app.picker.matches.len() as int
            } else {
                5
            })
            &&& is_marked(panel[i + 1][0].text) <==> i == app.picker.selection
        }),
        !is_open(AppView { picker: dismissed(app.picker), ..app }.picker),
{
    let panel = picker_panel(app, width);
    let selected = i == app.picker.selection;
    assert(panel[i + 1] == path_line(app.picker.matches[i], selected, width));
    lemma_marked(selected, " "@);
}

/// The store says what was done last, below its keys, and nothing where nothing was done.
pub proof fn law_the_store_says_what_was_done(store: StoreView, narrow: bool)
    ensures
        store.status.len() > 0 ==> store_header(store, narrow).last()[0].text == " "@
            + store.status,
        store_header(store, narrow).len() == (if narrow {
            3int
        } else {
            4
        }) + (if store.status.len() > 0 {
            1int
        } else {
            0
        }),
{
}

} // verus!
