//! What holds of what is seen and of where things are kept: which screen is shown, what its
//! last row holds, how files are named and what passes through a conversation unchanged.

use crate::app::AppView;
use crate::direct::{kept_of, shown_of, visible_events};
use crate::events::AgentEventView;
use crate::footer::metrics_of;
use crate::goal::{goal_line, GoalView};
use crate::history::ArchiveState;
use crate::journal::{sessions_recorded, state_name, JournalStepView, JournalView};
use crate::json::{document, JsonView};
use crate::labels::{prompt_line, workspace_label};
use crate::notice::{banner_of, silent_agent};
use crate::panels::Area;
use crate::paths::{base_directory, below, candidate_in, path_part, state_in, CandidateView};
use crate::project::{dashed, export_file};
use crate::resume::{agents_or_none, names_in};
use crate::roster::name_of;
use crate::screen::{footer_layout, screen_for, Screen};
use crate::store::{chosen_identities, StoreAgentView};
use crate::text::{decimal, law_written_numbers_are_read_back, lines};
use vstd::prelude::*;

verus! {

// The screen.

/// A panel that is open is what is seen: the store before the configuration, and the
/// directory while it is edited. Without a panel a conversation is seen, whole where there is
/// room for it.
pub proof fn law_open_panels_are_seen(app: AppView, width: int, height: int)
    ensures
        app.store.visible && app.store.editing_directory <==> screen_for(app, width, height)
            == Screen::Directory,
        app.store.visible && !app.store.editing_directory <==> screen_for(app, width, height)
            == Screen::Store,
        !app.store.visible && app.config.visible <==> screen_for(app, width, height)
            == Screen::Config,
        screen_for(app, width, height) == Screen::Full ==> !app.store.visible
            && !app.config.visible,
        forall|wider: int, higher: int|
            wider >= width && higher >= height && #[trigger] screen_for(app, width, height)
                == Screen::Full ==> #[trigger] screen_for(app, wider, higher) == Screen::Full,
{
}

/// The parts of the last row stand side by side and fill it: the agents, behind them the
/// workspace, and the mode at the end. None covers another.
pub proof fn law_the_last_row_is_shared(app: AppView, area: Area, now: u64)
    requires
        area.width > 2,
        area.x + area.width <= u16::MAX,
    ensures
        ({
            let (agents, path, mode) = footer_layout(area, metrics_of(app, area.width, now));
            &&& agents.x == area.x + 1
            &&& path.x == agents.x + agents.width
            &&& mode.x == path.x + path.width
            &&& mode.x + mode.width == area.x + area.width - 1
            &&& agents.y == area.y && path.y == area.y && mode.y == area.y
        }),
{
    crate::footer::law_footer_parts_fill_the_row(app, area.width, now);
}

/// An agent that is silent is named above the prompt, and otherwise the status is there as
/// it is.
pub proof fn law_the_banner_names_the_silent_agent(app: AppView, now: u64)
    ensures
        silent_agent(app.roster.agents, now) is None ==> banner_of(app, now) == app.status,
        silent_agent(app.roster.agents, now) matches Some((slot, silence)) ==> {
            let name = name_of(app.roster.agents, slot);
            &&& banner_of(app, now).len() > name.len()
            &&& banner_of(app, now).take(name.len() as int) == name
        },
{
    reveal_strlit(" silent for ");
    if silent_agent(app.roster.agents, now) is Some {
        let (slot, silence) = silent_agent(app.roster.agents, now)->0;
        let name = name_of(app.roster.agents, slot);
        assert(banner_of(app, now).take(name.len() as int) =~= name);
    }
}

/// A prompt that is shown on one line shows its last line, behind its sign, whole where there
/// is room.
pub proof fn law_the_last_line_of_a_prompt_is_shown(value: Seq<char>, width: int)
    requires
        lines(value).len() > 0,
        lines(value).last().len() + 2 <= width,
        lines(value).last().len() > 0,
    ensures
        prompt_line(value, width) == "> "@ + lines(value).last(),
{
}

/// A workspace is named by its whole path where that has room, and by nothing where nothing
/// has.
pub proof fn law_workspaces_are_named_by_their_path(path: Seq<char>, width: int)
    ensures
        width > 0 && crate::labels::cells(path) <= width ==> workspace_label(path, width) == path,
        width <= 0 ==> workspace_label(path, width).len() == 0,
{
    if path.len() == 0 {
        assert(workspace_label(path, width) =~= path);
    }
}

// Files.

/// Each attempt to export a conversation has a name of its own, and so has each moment.
pub proof fn law_exports_do_not_overwrite_each_other(stamp: nat, first: nat, second: nat)
    requires
        1 <= first < second,
    ensures
        export_file(stamp, first) != export_file(stamp, second),
{
    law_written_numbers_are_read_back(first);
    law_written_numbers_are_read_back(second);
    reveal_strlit("codeswarm-conversation-");
    reveal_strlit(".md");
    reveal_strlit("-");
    let head = "codeswarm-conversation-"@ + decimal(stamp);
    let (a, b) = (export_file(stamp, first), export_file(stamp, second));
    assert(b =~= head + ("-"@ + decimal(second) + ".md"@));
    assert(b[head.len() as int] == '-');
    if first < 2 {
        assert(a =~= head + ".md"@);
        assert(a[head.len() as int] == '.');
    } else {
        assert(a =~= head + ("-"@ + decimal(first) + ".md"@));
        if a == b {
            let (p, q) = (decimal(first), decimal(second));
            assert(a.len() == head.len() + 1 + p.len() + 3);
            assert(b.len() == head.len() + 1 + q.len() + 3);
            assert forall|i: int| 0 <= i < p.len() implies p[i] == q[i] by {
                assert(a[head.len() + 1 + i] == p[i]);
                assert(b[head.len() + 1 + i] == q[i]);
            }
            assert(p =~= q);
        }
    }
}

/// The environment's own directory is used where it names one, and else the one below the
/// home directory; without either, what is kept lies below the workspace.
pub proof fn law_the_environment_names_its_directories(
    own: Seq<u8>,
    home: Option<Seq<u8>>,
    part: Seq<char>,
)
    ensures
        base_directory(Some(own), home, part) == Some(own),
        home is Some ==> base_directory(None, home, part) == Some(below(home->0, path_part(part))),
        home is None ==> base_directory(None, home, part) is None,
        state_in(Some(own), home) == below(own, path_part("codeswarm"@)),
{
}

/// A path below a directory begins with the directory and ends with the part below it, with
/// exactly one slash between them.
pub proof fn law_parts_lie_below_their_directory(base: Seq<u8>, part: Seq<u8>)
    requires
        base.len() > 0,
    ensures
        base.last() != 47 ==> below(base, part) == base + seq![47u8] + part,
        base.last() == 47 ==> below(base, part) == base + part,
        below(Seq::empty(), part) == part,
{
    assert(base.push(47) + part =~= base + seq![47u8] + part);
}

/// A file of metadata is taken for what it holds: an object as saved, anything else as
/// malformed, and only a file that is not there as missing.
pub proof fn law_only_objects_are_metadata(text: Seq<char>)
    ensures
        candidate_in(None) == CandidateView::Missing,
        candidate_in(Some(text)) != CandidateView::Missing,
        document(text) is Some && document(text)->0 is Object ==> candidate_in(Some(text))
            == CandidateView::Saved(document(text)->0),
        document(text) is None || !(document(text)->0 is Object) ==> candidate_in(Some(text))
            == CandidateView::Malformed,
{
}

/// A dashed path has no slash, and keeps every other character in its order.
pub proof fn law_dashed_paths_have_no_slash(path: Seq<char>)
    requires
        path.len() > 0,
        path[0] != '/',
    ensures
        dashed(path).len() == path.len(),
        !dashed(path).contains('/'),
        forall|i: int|
            0 <= i < path.len() ==> #[trigger] dashed(path)[i] == (if path[i] == '/' {
                '-'
            } else {
                path[i]
            }),
{
    assert(crate::text::trim_start_char(path, '/') == path);
    assert forall|i: int| 0 <= i < dashed(path).len() implies dashed(path)[i] != '/' by {}
}

// What passes through.

/// Of what an agent that runs by itself reports, only its text is looked at: every other
/// event passes as it is. Text is shown as the agent's own, and the end of a turn comes behind
/// everything that was held back.
pub proof fn law_other_events_pass_unchanged(event: AgentEventView, held: Seq<char>, slot: usize, i: int)
    ensures
        !(event is Text || event is TurnComplete) ==> visible_events(event, held).0 =~= seq![event]
            && visible_events(event, held).1 == held,
        event is TurnComplete ==> visible_events(event, held).0.last() == event && visible_events(
            event,
            held,
        ).1.len() == 0,
        event matches AgentEventView::Text { slot: from, text } ==> (0 <= i < visible_events(
            event,
            held,
        ).0.len() ==> (visible_events(event, held).0[i] matches AgentEventView::Text {
            slot: told,
            text: shown,
        } && told == from && shown == shown_of(held + text).0[i])),
        kept_of(held).len() > 0 ==> visible_events(AgentEventView::TurnComplete { slot }, held).0
            =~= seq![
            AgentEventView::Text { slot, text: kept_of(held) },
            AgentEventView::TurnComplete { slot },
        ],
{
}

/// What the agents report of their sessions is kept, field for field, and the names of the
/// roster are those that it holds; a report that is no object changes nothing.
pub proof fn law_reported_sessions_are_kept(
    journal: JournalView,
    more: Seq<(Seq<char>, JsonView)>,
)
    ensures
        ({
            let (after, steps) = sessions_recorded(journal, JsonView::Object(more));
            let agents = agents_or_none(JsonView::Object(after.metadata));
            &&& steps.len() > 0 && steps[0] == JournalStepView::AppendEvent
            &&& steps.contains(JournalStepView::Metadata)
            &&& steps.contains(JournalStepView::Roster(names_in(agents, agents.len() as int)))
            &&& steps.last() == JournalStepView::Checkpoint
            &&& after.titled == journal.titled
        }),
        sessions_recorded(journal, JsonView::Null).0 == journal,
{
    let (after, steps) = sessions_recorded(journal, JsonView::Object(more));
    let agents = agents_or_none(JsonView::Object(after.metadata));
    assert(steps[1] == JournalStepView::Metadata);
    assert(steps[2] == JournalStepView::Roster(names_in(agents, agents.len() as int)));
}

/// No two states of an archive are called the same.
pub proof fn law_archive_states_are_told_apart(first: ArchiveState, second: ArchiveState)
    ensures
        state_name(first) == state_name(second) <==> first == second,
{
    reveal_strlit("Idle");
    reveal_strlit("Active");
    reveal_strlit("Completed");
    reveal_strlit("Failed");
    let (a, b) = (state_name(first), state_name(second));
    assert(first != second ==> a[0] != b[0]);
}

/// A goal is shown in its own words, and whether it is reached can be told.
pub proof fn law_goals_are_shown_in_their_words(goal: GoalView)
    ensures
        ({
            let line = goal_line(Some(goal));
            &&& line.len() >= goal.objective.len()
            &&& line.skip(line.len() - goal.objective.len()) == goal.objective
            &&& line != goal_line(Some(GoalView { completed: !goal.completed, ..goal }))
        }),
{
    reveal_strlit("goal completed · ");
    reveal_strlit("goal active · ");
    let line = goal_line(Some(goal));
    let other = goal_line(Some(GoalView { completed: !goal.completed, ..goal }));
    assert(line.skip(line.len() - goal.objective.len()) =~= goal.objective);
    assert(line[5] != other[5]);
}

/// The chosen agents are those of the selected rows, in their order.
pub proof fn law_chosen_agents_are_those_of_selected_rows(
    agents: Seq<StoreAgentView>,
    row: StoreAgentView,
)
    ensures
        row.selected ==> chosen_identities(agents.push(row)) == chosen_identities(agents).push(
            row.identity,
        ),
        !row.selected ==> chosen_identities(agents.push(row)) == chosen_identities(agents),
{
    assert(agents.push(row).drop_last() =~= agents);
}

} // verus!
