//! What holds of every change that is reported: who joins, leaves or changes places, whose
//! question is withdrawn, and what the person can do about it afterwards.

use crate::app::{
    agent_failed, agent_ready, refreshed, roster_changed, turn_completed, AppView, Moment,
};
use crate::commands::{diff_command, diffs_shown, known_collaboration};
use crate::controls::route_after;
use crate::events::RosterUpdateView;
use crate::history::{events_shown, person_shown, replayed, SavedEventView};
use crate::json::JsonView;
use crate::layout::BlockKind;
use crate::panels::Area;
use crate::roster::{
    all_commands, can_promote, can_swap, identified, in_state, law_swapping_twice_restores,
    record_of, renamed, slashed, takes_part, with_commands, AgentState, RecordView,
};
use crate::roster_laws::{
    law_dropped_agents_take_no_part, law_named_agents_keep_their_state,
    law_promoted_agents_move_whole, law_reloaded_agents_stay_themselves, lemma_with_record,
    others_stay,
};
use crate::screen::{above_prompt, block_marker};
use crate::session::{windows_passed, EffectView, SessionView};
use crate::slots::in_slot_order;
use crate::style::Color;
use crate::text::{decimal, lower, trim};
use crate::theme::{agent_colors, palette, terminal_color};
use crate::transcript::heading;
use vstd::prelude::*;

verus! {

// The roster.

/// A reported change of the roster is shown of the agents it is about: who joined has the
/// name and the identity that were reported, who was dropped takes no part, who starts anew
/// is starting, who was promoted is the owner, and who changed places has everything of its
/// own. What was refused leaves the roster alone and says why.
pub proof fn law_changes_are_shown_of_their_agents(
    app: AppView,
    slot: usize,
    second: usize,
    name: Seq<char>,
    identity: Seq<char>,
)
    requires
        in_slot_order(app.roster.agents),
    ensures
        ({
            let after = roster_changed(app, RosterUpdateView::Added { slot, name, identity });
            &&& record_of(after.roster.agents, slot).name == Some(name)
            &&& record_of(after.roster.agents, slot).identity == Some(identity)
            &&& others_stay(app.roster, after.roster, slot)
            &&& after.transcript == app.transcript
        }),
        ({
            let after = roster_changed(app, RosterUpdateView::Dropped { slot });
            &&& !takes_part(record_of(after.roster.agents, slot))
            &&& record_of(after.roster.agents, slot).name == record_of(app.roster.agents, slot).name
            &&& others_stay(app.roster, after.roster, slot)
        }),
        ({
            let after = roster_changed(app, RosterUpdateView::Reloaded { slot });
            &&& record_of(after.roster.agents, slot).state == Some(AgentState::Starting)
            &&& others_stay(app.roster, after.roster, slot)
        }),
        can_swap(app.roster, slot, second) ==> ({
            let after = roster_changed(app, RosterUpdateView::Swapped { first: slot, second });
            &&& record_of(after.roster.agents, slot) == record_of(app.roster.agents, second)
            &&& record_of(after.roster.agents, second) == record_of(app.roster.agents, slot)
        }),
        roster_changed(
            app,
            RosterUpdateView::Rejected { action: name, detail: identity },
        ).roster == app.roster,
        roster_changed(app, RosterUpdateView::Rejected { action: name, detail: identity }).status
            == "unable to "@ + name + ": "@ + identity,
{
    reveal(roster_changed);
    reveal(renamed);
    reveal(identified);
    law_named_agents_keep_their_state(app.roster, slot, name);
    let was = record_of(app.roster.agents, slot);
    lemma_with_record(
        app.roster,
        slot,
        RecordView {
            name: Some(name),
            state: if was.state is None {
                Some(AgentState::Starting)
            } else {
                was.state
            },
            ..was
        },
    );
    let named = renamed(app.roster, slot, name);
    lemma_with_record(
        named,
        slot,
        RecordView { identity: Some(identity), ..record_of(named.agents, slot) },
    );
    law_dropped_agents_take_no_part(app.roster, slot);
    law_reloaded_agents_stay_themselves(app.roster, slot);
    if can_swap(app.roster, slot, second) {
        law_swapping_twice_restores(app.roster, slot, second);
    }
}

/// A promoted agent is in the first slot with everything of its own, and the owner before it
/// takes no part any more.
pub proof fn law_promoted_agents_own_the_conversation(app: AppView, slot: usize)
    requires
        in_slot_order(app.roster.agents),
        can_promote(app.roster, slot),
        slot < usize::MAX,
    ensures
        ({
            let after = roster_changed(app, RosterUpdateView::Promoted { from: slot });
            &&& record_of(after.roster.agents, 0) == record_of(app.roster.agents, slot)
            &&& !takes_part(record_of(after.roster.agents, slot))
        }),
{
    reveal(roster_changed);
    law_promoted_agents_move_whole(app.roster, slot, (slot + 1) as usize);
}

/// An agent that is ready is shown as ready and no longer as the one that failed; another one
/// that failed still is.
pub proof fn law_ready_agents_have_not_failed(app: AppView, slot: usize)
    requires
        in_slot_order(app.roster.agents),
    ensures
        ({
            let after = agent_ready(app, slot).roster;
            &&& record_of(after.agents, slot).state == Some(AgentState::Ready)
            &&& record_of(after.agents, slot).name == record_of(app.roster.agents, slot).name
            &&& others_stay(app.roster, after, slot)
            &&& after.failed_agent != Some(slot)
            &&& app.roster.failed_agent != Some(slot) ==> after.failed_agent
                == app.roster.failed_agent
        }),
{
    reveal(agent_ready);
    reveal(in_state);
    lemma_with_record(
        app.roster,
        slot,
        RecordView { state: Some(AgentState::Ready), ..record_of(app.roster.agents, slot) },
    );
}

/// The question of an agent is withdrawn when its turn ends or it fails, and the question of
/// another agent waits on.
pub proof fn law_questions_end_with_their_turn(
    app: AppView,
    slot: usize,
    started: bool,
    detail: Seq<char>,
)
    ensures
        app.permission is Some && app.permission->0.slot == slot ==> turn_completed(
            app,
            slot,
        ).permission is None && agent_failed(app, slot, started, detail).permission is None,
        app.permission is Some && app.permission->0.slot != slot ==> turn_completed(
            app,
            slot,
        ).permission == app.permission && agent_failed(app, slot, started, detail).permission
            == app.permission,
        app.permission is None ==> turn_completed(app, slot).permission is None,
{
    reveal(turn_completed);
    reveal(agent_failed);
}

proof fn lemma_with_commands(candidates: Seq<Seq<char>>, commands: Seq<Seq<char>>, i: int)
    ensures
        with_commands(candidates, commands).len() >= candidates.len(),
        with_commands(candidates, commands).take(candidates.len() as int) == candidates,
        0 <= i < commands.len() && trim(commands[i]).len() > 0 ==> with_commands(
            candidates,
            commands,
        ).contains(slashed(trim(commands[i]))),
    decreases commands.len(),
{
    if commands.len() == 0 {
        assert(candidates.take(candidates.len() as int) =~= candidates);
    } else {
        let before = with_commands(candidates, commands.drop_last());
        let after = with_commands(candidates, commands);
        lemma_with_commands(candidates, commands.drop_last(), i);
        assert(after.take(candidates.len() as int) =~= before.take(candidates.len() as int));
        if 0 <= i < commands.len() && trim(commands[i]).len() > 0 {
            let wanted = slashed(trim(commands[i]));
            if i < commands.len() - 1 {
                let k = choose|k: int| 0 <= k < before.len() && before[k] == wanted;
                assert(after[k] == wanted);
            } else if !before.contains(wanted) {
                assert(after.last() == wanted);
            }
        }
    }
}

/// Every command that an agent advertises can be completed, with a slash in front, behind the
/// commands that are always there.
pub proof fn law_advertised_commands_are_completed(app: AppView, i: int)
    ensures
        ({
            let commands = all_commands(app.roster.agents);
            let offered = refreshed(app).editor.candidates;
            &&& offered.len() >= app.base_completions.len()
            &&& offered.take(app.base_completions.len() as int) == app.base_completions
            &&& 0 <= i < commands.len() && trim(commands[i]).len() > 0 ==> offered.contains(
                slashed(trim(commands[i])),
            )
        }),
{
    lemma_with_commands(app.base_completions, all_commands(app.roster.agents), i);
}

/// The commands of an agent are among those of the roster.
pub proof fn law_commands_of_all_agents_count(
    agents: Seq<(usize, RecordView)>,
    slot: usize,
    record: RecordView,
)
    ensures
        record.commands is Some ==> all_commands(agents.push((slot, record))) == all_commands(agents)
            + record.commands->0,
        record.commands is None ==> all_commands(agents.push((slot, record))) == all_commands(
            agents,
        ),
{
    assert(agents.push((slot, record)).drop_last() =~= agents);
    assert(all_commands(agents) + Seq::<Seq<char>>::empty() =~= all_commands(agents));
}

// What the person asks for.

/// Diffs are shown as was asked: in two columns, or in one.
pub proof fn law_diffs_are_shown_as_asked(app: AppView, argument: Seq<char>)
    ensures
        ({
            let after = diff_command(app, argument).0;
            let name = lower(argument);
            &&& name == "split"@ ==> after.settings.diff_split
            &&& name == "unified"@ || name == "inline"@ ==> !after.settings.diff_split
            &&& name != "split"@ && name != "unified"@ && name != "inline"@ ==> after.settings
                == app.settings
            &&& after.transcript == app.transcript
        }),
{
    reveal(diffs_shown);
    reveal_strlit("split");
    reveal_strlit("unified");
    reveal_strlit("inline");
    assert("split"@[0] != "unified"@[0] && "split"@[0] != "inline"@[0]);
}

/// A selection holds for one message, and only manual routing keeps it.
pub proof fn law_only_manual_routing_keeps_the_selection(app: AppView, slot: usize)
    ensures
        app.settings.collaboration == "Manual routing"@ ==> route_after(app, Some(slot)) == Some(
            slot,
        ),
        app.settings.collaboration != "Manual routing"@ ==> route_after(app, Some(slot)) is None,
        route_after(app, None) is None,
{
}

/// When the time for selecting text is over the mouse scrolls again, and not before.
pub proof fn law_selecting_text_ends_in_time(session: SessionView, app: AppView, now: u64, end: u64)
    requires
        session.selection_until == Some(end),
        !app.config.visible,
    ensures
        ({
            let after = windows_passed(session, app, now, Seq::empty());
            &&& now >= end ==> !after.app.mouse_selection_mode && after.session.selection_until
                is None && after.effects.contains(EffectView::EnableMouse)
            &&& now < end ==> after.app.mouse_selection_mode == app.mouse_selection_mode
                && after.session.selection_until == Some(end) && after.effects.len() == 0
            &&& after.app.transcript == app.transcript && after.app.prompt == app.prompt
        }),
{
    reveal(windows_passed);
    let after = windows_passed(session, app, now, Seq::empty());
    if now >= end {
        assert(after.effects[0] == EffectView::EnableMouse);
    }
}

/// What a person said is shown again in a conversation that is taken up, in its place among
/// everything else.
pub proof fn law_what_was_said_is_shown_again(
    app: AppView,
    events: Seq<SavedEventView>,
    n: int,
    text: Seq<char>,
    direct: bool,
    moment: Moment,
)
    requires
        0 < n <= events.len(),
        events[n - 1] == (SavedEventView::Human { text, direct }),
    ensures
        ({
            let before = events_shown(app, events, n - 1, moment);
            let after = events_shown(app, events, n, moment);
            let said = after.transcript.last();
            &&& after.transcript.drop_last() == before.transcript
            &&& said.kind == BlockKind::Human
            &&& said.source.len() >= text.len()
            &&& said.source.skip(said.source.len() - text.len()) == text
        }),
{
    let before = events_shown(app, events, n - 1, moment);
    let after = person_shown(before, text, direct);
    assert(after.transcript.drop_last() =~= before.transcript);
    let source = after.transcript.last().source;
    assert(source.skip(source.len() - text.len()) =~= text);
}

// What is seen.

/// What stands above the prompt stands right above its two rows, as wide as the pane, and
/// inside it.
pub proof fn law_panels_stand_above_the_prompt(area: Area, rows: int)
    requires
        area.y + area.height <= u16::MAX,
        rows > 0,
        area.height > 2,
    ensures
        above_prompt(area, rows) matches Some(part) && part.y + part.height == area.y + area.height
            - 2 && part.y >= area.y && part.x == area.x && part.width == area.width && (
        part.height == rows || part.y == area.y),
{
}

/// People, agents, thoughts, diffs and notices are told apart by their marks, and by their
/// headings in an export; what a terminal or a tool shows is never taken for what somebody
/// said.
pub proof fn law_kinds_are_told_apart(first: BlockKind, second: BlockKind)
    requires
        first == BlockKind::Human || first == BlockKind::Agent || first == BlockKind::Thought
            || first == BlockKind::Diff || first == BlockKind::Notice,
        first != second,
    ensures
        block_marker(first) != block_marker(second),
        heading(first) != heading(second),
{
    reveal_strlit("› ");
    reveal_strlit("● ");
    reveal_strlit("… ");
    reveal_strlit("◆ ");
    reveal_strlit("± ");
    reveal_strlit("· ");
    reveal_strlit("User");
    reveal_strlit("Agent");
    reveal_strlit("Thought");
    reveal_strlit("Tool");
    reveal_strlit("Terminal");
    reveal_strlit("Diff");
    reveal_strlit("CodeSwarm");
    let (a, b) = (block_marker(first), block_marker(second));
    assert(a[0] != b[0]);
    let (p, q) = (heading(first), heading(second));
    assert(p[0] != q[0] || p[1] != q[1]);
}

/// The brightness of a color.
pub open spec fn brightness(color: Color) -> int {
    match color {
        Color::Rgb(red, green, blue) => red as int + green as int + blue as int,
        _ => 0,
    }
}

/// On a light canvas every text is much darker than the canvas, and on a dark one much
/// brighter.
pub proof fn law_text_can_be_read_on_its_canvas(color: Color)
    ensures
        palette(Color::Reset, true) matches Some((light, dark)) && brightness(light) > brightness(
            dark,
        ) && (palette(color, false) matches Some((text, bright)) ==> text is Rgb && bright is Rgb
            && brightness(text) + 250 <= brightness(light) && brightness(bright) >= brightness(dark)
            + 250),
{
}

/// The colors of agents are told apart on every canvas.
pub proof fn law_agent_colors_are_told_apart(first: int, second: int)
    requires
        0 <= first < second < 4,
    ensures
        agent_colors()[first] != agent_colors()[second],
        terminal_color(agent_colors()[first]) != terminal_color(agent_colors()[second]),
        palette(agent_colors()[first], false) is Some,
        palette(agent_colors()[first], false) != palette(agent_colors()[second], false),
{
}

/// A conversation that is taken up says how many records could not be read, and shows the
/// others all the same.
pub proof fn law_unreadable_records_are_counted(
    app: AppView,
    metadata: JsonView,
    events: Seq<SavedEventView>,
    warnings: usize,
    moment: Moment,
)
    requires
        warnings > 0,
    ensures
        replayed(app, metadata, events, warnings, moment) == (AppView {
            status: "history loaded with "@ + decimal(warnings as nat)
                + " unreadable journal record(s)"@,
            ..replayed(app, metadata, events, 0, moment)
        }),
{
}

/// Each name of a collaboration stands for its own, in any case.
pub proof fn law_collaborations_go_by_their_names(name: Seq<char>)
    ensures
        lower(name) == "roster"@ <==> known_collaboration(name) == Some("Roster relay"@),
        lower(name) == "manual"@ <==> known_collaboration(name) == Some("Manual routing"@),
        lower(name) == "pair"@ <==> known_collaboration(name) == Some("Pair review"@),
        lower(name) != "roster"@ && lower(name) != "manual"@ && lower(name) != "pair"@
            ==> known_collaboration(name) is None,
{
    reveal_strlit("roster");
    reveal_strlit("manual");
    reveal_strlit("pair");
    reveal_strlit("Roster relay");
    reveal_strlit("Manual routing");
    reveal_strlit("Pair review");
    assert("roster"@[0] == 'r' && "manual"@[0] == 'm' && "pair"@[0] == 'p');
    assert("Roster relay"@[0] == 'R' && "Manual routing"@[0] == 'M' && "Pair review"@[0] == 'P');
}

} // verus!
