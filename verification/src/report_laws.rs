//! What holds of every report of an agent: it is shown as it was made, and it changes nothing
//! of the other agents.

use crate::app::{
    after_event, agent_failed, agent_said, agent_thought, begun, commands_changed, message_opening,
    models_changed, permission_asked, person_said, streamed, tool_collapsed, tool_kind, tool_source,
    turn_completed, usage_changed, AppView, Moment,
};
use crate::event_laws::lemma_place;
use crate::events::{AgentEventView, RequestView, ToolStatus, ToolView, UsageUpdate};
use crate::layout::{BlockKind, BlockView};
use crate::roster::{in_state, name_of, record_of, turn_begun, AgentState, RecordView, RosterView};
use crate::roster_laws::{
    law_failed_agents_take_no_part, lemma_turn_over, lemma_with_record, others_stay,
};
use crate::settings::{SettingsView, ToolExpandPolicy};
use crate::slots::{held, in_slot_order};
use crate::streams::{open_block, StreamRecord};
use crate::transcript::{ids_in_order, place_of};
use vstd::prelude::*;

verus! {

// What is shown.

proof fn lemma_new_place(blocks: Seq<BlockView>, block: BlockView)
    requires
        forall|i: int| 0 <= i < blocks.len() ==> (#[trigger] blocks[i]).id != block.id,
    ensures
        place_of(blocks.push(block), block.id) == Some(blocks.len() as int),
    decreases blocks.len(),
{
    let all = blocks.push(block);
    if blocks.len() == 0 {
        assert(all[0] == block);
    } else {
        assert(all[0] == blocks[0]);
        assert(all.drop_first() =~= blocks.drop_first().push(block));
        let rest = blocks.drop_first();
        assert forall|i: int| 0 <= i < rest.len() implies (#[trigger] rest[i]).id != block.id by {
            assert(rest[i] == blocks[i + 1]);
        }
        lemma_new_place(rest, block);
    }
}

proof fn lemma_streamed(
    app: AppView,
    slot: usize,
    kind: BlockKind,
    opening: Seq<char>,
    collapsed: bool,
    text: Seq<char>,
)
    requires
        ids_in_order(app.transcript),
        app.transcript.len() <= u64::MAX,
    ensures
        ({
            let before = app.transcript;
            let after = streamed(app, slot, kind, opening, collapsed, text).transcript;
            match open_block(held::<StreamRecord>(app.streams, slot), kind) {
                None => {
                    &&& after.len() == before.len() + 1
                    &&& after.drop_last() == before
                    &&& after.last().kind == kind
                    &&& after.last().source == opening + text
                    &&& after.last().collapsed == collapsed
                },
                Some(id) => {
                    &&& after.len() == before.len()
                    &&& forall|i: int|
                        0 <= i < before.len() ==> if place_of(before, id) == Some(i) {
                            (#[trigger] after[i]).source == before[i].source + text
                                && after[i].kind == before[i].kind
                        } else {
                            after[i] == before[i]
                        }
                },
            }
        }),
{
    reveal(streamed);
    let before = app.transcript;
    match open_block(held::<StreamRecord>(app.streams, slot), kind) {
        None => {
            let id = before.len() as u64;
            let block = BlockView { id, kind, source: opening, collapsed };
            assert forall|i: int| 0 <= i < before.len() implies (#[trigger] before[i]).id != id by {}
            lemma_new_place(before, block);
            let after = streamed(app, slot, kind, opening, collapsed, text).transcript;
            assert(after.drop_last() =~= before);
        },
        Some(id) => {
            lemma_place(before, id);
        },
    }
}

/// Whether a conversation shows one more block, of a kind and below everything that it
/// showed before.
pub open spec fn shows_below(
    before: AppView,
    after: AppView,
    kind: BlockKind,
    source: Seq<char>,
) -> bool {
    &&& after.transcript.len() == before.transcript.len() + 1
    &&& after.transcript.drop_last() == before.transcript
    &&& after.transcript.last().kind == kind
    &&& after.transcript.last().source == source
}

/// What an agent says, thinks, or tells of a person is shown word for word, below everything
/// else, and an agent's own words say whose they are and from when. Thoughts are folded up
/// unless they are to be seen.
pub proof fn law_reports_are_shown_word_for_word(
    app: AppView,
    slot: usize,
    text: Seq<char>,
    moment: Moment,
)
    requires
        ids_in_order(app.transcript),
        app.transcript.len() <= u64::MAX,
    ensures
        ({
            let stream = held::<StreamRecord>(app.streams, slot);
            let name = name_of(turn_begun(app.roster, slot, moment.now).agents, slot);
            let said = after_event(app, AgentEventView::Text { slot, text }, moment);
            let thought = after_event(app, AgentEventView::Thought { slot, text }, moment);
            let told = after_event(app, AgentEventView::UserText { slot, text }, moment);
            &&& stream.agent is None ==> shows_below(
                app,
                said,
                BlockKind::Agent,
                message_opening(name, moment) + text,
            ) && !said.transcript.last().collapsed
            &&& stream.thought is None ==> shows_below(
                app,
                thought,
                BlockKind::Thought,
                message_opening(name, moment) + text,
            ) && thought.transcript.last().collapsed == !app.settings.show_thoughts
            &&& stream.human is None ==> shows_below(
                app,
                told,
                BlockKind::Human,
                name + ": "@ + text,
            ) && !told.transcript.last().collapsed
        }),
{
    reveal(agent_said);
    reveal(agent_thought);
    reveal(person_said);
    let started = begun(app, slot, moment);
    let name = name_of(started.roster.agents, slot);
    lemma_streamed(
        started,
        slot,
        BlockKind::Agent,
        message_opening(name, moment),
        false,
        text,
    );
    lemma_streamed(
        started,
        slot,
        BlockKind::Thought,
        message_opening(name, moment),
        !app.settings.show_thoughts,
        text,
    );
    lemma_streamed(started, slot, BlockKind::Human, name + ": "@, false, text);
}

/// More of a message is added to the end of the block that the turn has open for it, and
/// every other block stays as it is.
pub proof fn law_more_text_goes_to_the_open_block(
    app: AppView,
    slot: usize,
    text: Seq<char>,
    moment: Moment,
    i: int,
)
    requires
        ids_in_order(app.transcript),
        app.transcript.len() <= u64::MAX,
        0 <= i < app.transcript.len(),
        held::<StreamRecord>(app.streams, slot).agent is Some,
    ensures
        ({
            let id = held::<StreamRecord>(app.streams, slot).agent->0;
            let after = after_event(app, AgentEventView::Text { slot, text }, moment).transcript;
            &&& after.len() == app.transcript.len()
            &&& app.transcript[i].id == id ==> after[i].source == app.transcript[i].source + text
            &&& app.transcript[i].id != id ==> after[i] == app.transcript[i]
        }),
{
    reveal(agent_said);
    let started = begun(app, slot, moment);
    let opening = message_opening(name_of(started.roster.agents, slot), moment);
    lemma_streamed(started, slot, BlockKind::Agent, opening, false, text);
    let id = held::<StreamRecord>(app.streams, slot).agent->0;
    lemma_place(app.transcript, id);
    if app.transcript[i].id == id {
        lemma_found(app.transcript, id, i);
    }
}

proof fn lemma_found(blocks: Seq<BlockView>, id: u64, i: int)
    requires
        0 <= i < blocks.len(),
        blocks[i].id == id,
        forall|a: int, b: int|
            0 <= a < b < blocks.len() ==> (#[trigger] blocks[a]).id != (#[trigger] blocks[b]).id,
    ensures
        place_of(blocks, id) == Some(i),
    decreases blocks.len(),
{
    if i > 0 {
        assert(blocks[0].id != blocks[i].id);
        let rest = blocks.drop_first();
        assert forall|a: int, b: int| 0 <= a < b < rest.len() implies (#[trigger] rest[a]).id != (
        #[trigger] rest[b]).id by {
            assert(blocks[a + 1].id != blocks[b + 1].id);
        }
        assert(rest[i - 1] == blocks[i]);
        lemma_found(rest, id, i - 1);
    }
}

/// A diff is shown as the person chose: always, never, or where details are open or the tool
/// failed. Everything else that tools do stays folded up.
pub proof fn law_diffs_are_shown_as_chosen(settings: SettingsView, update: ToolView)
    ensures
        tool_kind(update) == BlockKind::Diff || tool_kind(update) == BlockKind::Activity,
        tool_kind(update) == BlockKind::Activity ==> tool_collapsed(settings, update),
        tool_kind(update) == BlockKind::Diff && settings.tool_expand_policy
            == ToolExpandPolicy::Always ==> !tool_collapsed(settings, update),
        tool_kind(update) == BlockKind::Diff && settings.tool_expand_policy
            == ToolExpandPolicy::Never ==> tool_collapsed(settings, update),
        tool_kind(update) == BlockKind::Diff && settings.tool_expand_policy
            == ToolExpandPolicy::Fail && update.status == ToolStatus::Failed ==> !tool_collapsed(
            settings,
            update,
        ),
        tool_kind(update) == BlockKind::Diff && settings.tool_expand_policy
            == ToolExpandPolicy::Fail && update.status != ToolStatus::Failed ==> tool_collapsed(
            settings,
            update,
        ) == settings.collapse_details,
        update.detail is None ==> tool_kind(update) == BlockKind::Activity,
{
}

/// What a tool did is written down with its title, and its detail word for word at the end.
pub proof fn law_tool_details_are_kept(name: Seq<char>, update: ToolView)
    ensures
        ({
            let source = tool_source(name, update);
            &&& source.len() >= name.len() + 2 + update.title.len()
            &&& source.take(name.len() as int) == name
            &&& source.subrange(
                name.len() as int + 2,
                name.len() as int + 2 + update.title.len() as int,
            ) == update.title
            &&& update.detail matches Some(detail) ==> source.len() >= detail.len() && source.skip(
                source.len() - detail.len(),
            ) == detail
        }),
{
    reveal_strlit(": ");
    let source = tool_source(name, update);
    assert(source.take(name.len() as int) =~= name);
    assert(source.subrange(
        name.len() as int + 2,
        name.len() as int + 2 + update.title.len() as int,
    ) =~= update.title);
    match update.detail {
        Some(detail) => {
            assert(source.skip(source.len() - detail.len()) =~= detail);
        },
        None => {},
    }
}

/// A question is put for the agent that asks, with all of its answers, and nothing is
/// answered in advance.
pub proof fn law_questions_are_put_as_asked(
    app: AppView,
    slot: usize,
    request: RequestView,
    moment: Moment,
)
    ensures
        after_event(
            app,
            AgentEventView::Permission { slot, request },
            moment,
        ).permission matches Some(prompt) && prompt.slot == slot && prompt.request_id == request.id
            && prompt.title == request.title && prompt.options == request.options
            && prompt.option_ids == request.option_ids && prompt.selected == 0,
{
    reveal(permission_asked);
}

// The other agents.

proof fn lemma_in_state(roster: RosterView, slot: usize, state: AgentState)
    requires
        in_slot_order(roster.agents),
    ensures
        others_stay(roster, in_state(roster, slot, state), slot),
        in_slot_order(in_state(roster, slot, state).agents),
        record_of(in_state(roster, slot, state).agents, slot) == (RecordView {
            state: Some(state),
            ..record_of(roster.agents, slot)
        }),
{
    reveal(in_state);
    lemma_with_record(
        roster,
        slot,
        RecordView { state: Some(state), ..record_of(roster.agents, slot) },
    );
}

proof fn lemma_begun(roster: RosterView, slot: usize, now: u64)
    requires
        in_slot_order(roster.agents),
    ensures
        others_stay(roster, turn_begun(roster, slot, now), slot),
        in_slot_order(turn_begun(roster, slot, now).agents),
{
    reveal(turn_begun);
    let was = record_of(roster.agents, slot);
    let record = RecordView {
        turn_started: if was.turn_started is None {
            Some(now)
        } else {
            was.turn_started
        },
        last_active: Some(now),
        ..was
    };
    lemma_with_record(roster, slot, record);
}

proof fn lemma_working(roster: RosterView, slot: usize, now: u64)
    requires
        in_slot_order(roster.agents),
    ensures
        others_stay(
            roster,
            in_state(turn_begun(roster, slot, now), slot, AgentState::Working),
            slot,
        ),
{
    lemma_begun(roster, slot, now);
    let middle = turn_begun(roster, slot, now);
    lemma_in_state(middle, slot, AgentState::Working);
    lemma_transitive(
        roster,
        middle,
        in_state(middle, slot, AgentState::Working),
        slot,
    );
}

proof fn lemma_transitive(first: RosterView, second: RosterView, third: RosterView, slot: usize)
    requires
        others_stay(first, second, slot),
        others_stay(second, third, slot),
    ensures
        others_stay(first, third, slot),
{
    assert forall|other: usize| other != slot implies #[trigger] record_of(third.agents, other)
        == record_of(first.agents, other) by {
        assert(record_of(second.agents, other) == record_of(first.agents, other));
    }
}

proof fn lemma_streamed_roster(
    app: AppView,
    slot: usize,
    kind: BlockKind,
    opening: Seq<char>,
    collapsed: bool,
    text: Seq<char>,
)
    ensures
        streamed(app, slot, kind, opening, collapsed, text).roster == app.roster,
{
    reveal(streamed);
}

proof fn lemma_said_roster(app: AppView, slot: usize, text: Seq<char>, moment: Moment)
    ensures
        agent_said(app, slot, text, moment).roster == in_state(
            turn_begun(app.roster, slot, moment.now),
            slot,
            AgentState::Working,
        ),
{
    reveal(agent_said);
    let started = begun(app, slot, moment);
    let opening = message_opening(name_of(started.roster.agents, slot), moment);
    lemma_streamed_roster(started, slot, BlockKind::Agent, opening, false, text);
}

proof fn lemma_thought_roster(app: AppView, slot: usize, text: Seq<char>, moment: Moment)
    ensures
        agent_thought(app, slot, text, moment).roster == in_state(
            turn_begun(app.roster, slot, moment.now),
            slot,
            AgentState::Working,
        ),
{
    reveal(agent_thought);
    let started = begun(app, slot, moment);
    let opening = message_opening(name_of(started.roster.agents, slot), moment);
    lemma_streamed_roster(
        started,
        slot,
        BlockKind::Thought,
        opening,
        !app.settings.show_thoughts,
        text,
    );
}

proof fn lemma_told_roster(app: AppView, slot: usize, text: Seq<char>, moment: Moment)
    ensures
        person_said(app, slot, text, moment).roster == in_state(
            turn_begun(app.roster, slot, moment.now),
            slot,
            AgentState::Working,
        ),
{
    reveal(person_said);
    let started = begun(app, slot, moment);
    let opening = name_of(started.roster.agents, slot) + ": "@;
    lemma_streamed_roster(started, slot, BlockKind::Human, opening, false, text);
}

proof fn lemma_asked_roster(app: AppView, slot: usize, request: RequestView, moment: Moment)
    ensures
        permission_asked(app, slot, request, moment).roster == in_state(
            turn_begun(app.roster, slot, moment.now),
            slot,
            AgentState::Working,
        ),
{
    reveal(permission_asked);
}

/// What an agent says or does while it works is its own: the other agents stay as they are.
pub proof fn law_working_agents_leave_the_others(
    app: AppView,
    slot: usize,
    text: Seq<char>,
    request: RequestView,
    moment: Moment,
)
    requires
        in_slot_order(app.roster.agents),
    ensures
        others_stay(
            app.roster,
            after_event(app, AgentEventView::Text { slot, text }, moment).roster,
            slot,
        ),
        others_stay(
            app.roster,
            after_event(app, AgentEventView::Thought { slot, text }, moment).roster,
            slot,
        ),
        others_stay(
            app.roster,
            after_event(app, AgentEventView::UserText { slot, text }, moment).roster,
            slot,
        ),
        others_stay(
            app.roster,
            after_event(app, AgentEventView::Permission { slot, request }, moment).roster,
            slot,
        ),
        others_stay(
            app.roster,
            after_event(app, AgentEventView::TurnStarted { slot }, moment).roster,
            slot,
        ),
{
    lemma_said_roster(app, slot, text, moment);
    lemma_thought_roster(app, slot, text, moment);
    lemma_told_roster(app, slot, text, moment);
    lemma_asked_roster(app, slot, request, moment);
    lemma_working(app.roster, slot, moment.now);
}

/// The end of a turn and a failure are about the agent that they happened to.
pub proof fn law_ended_turns_leave_the_others(
    app: AppView,
    slot: usize,
    started: bool,
    detail: Seq<char>,
    moment: Moment,
)
    requires
        in_slot_order(app.roster.agents),
    ensures
        others_stay(
            app.roster,
            after_event(app, AgentEventView::TurnComplete { slot }, moment).roster,
            slot,
        ),
        ({
            let after = after_event(app, AgentEventView::Failed { slot, started, detail }, moment);
            &&& others_stay(app.roster, after.roster, slot)
            &&& record_of(after.roster.agents, slot).state == Some(AgentState::Error)
            &&& after.roster.failed_agent == Some(slot)
        }),
{
    reveal(turn_completed);
    reveal(agent_failed);
    lemma_turn_over(app.roster, slot, AgentState::Ready);
    law_failed_agents_take_no_part(app.roster, slot);
}

/// What an agent tells of its modes, models, commands and usage is kept for that agent, as it
/// was told; the other agents stay as they are.
pub proof fn law_what_agents_tell_is_kept_for_them(
    app: AppView,
    slot: usize,
    config_id: Seq<char>,
    models: Seq<Seq<char>>,
    current_model: Option<Seq<char>>,
    commands: Seq<Seq<char>>,
    usage: UsageUpdate,
    moment: Moment,
)
    requires
        in_slot_order(app.roster.agents),
    ensures
        ({
            let event = AgentEventView::ModelsReplaced { slot, config_id, models, current_model };
            let after = after_event(app, event, moment).roster;
            &&& record_of(after.agents, slot).models == Some((models, current_model))
            &&& others_stay(app.roster, after, slot)
        }),
        ({
            let event = AgentEventView::CommandsReplaced { slot, commands };
            let after = after_event(app, event, moment).roster;
            &&& record_of(after.agents, slot).commands == Some(commands)
            &&& others_stay(app.roster, after, slot)
        }),
        ({
            let after = after_event(
                app,
                AgentEventView::UsageUpdated { slot, usage },
                moment,
            ).roster;
            &&& record_of(after.agents, slot).usage == Some(usage)
            &&& others_stay(app.roster, after, slot)
        }),
{
    reveal(models_changed);
    reveal(commands_changed);
    reveal(usage_changed);
    let record = record_of(app.roster.agents, slot);
    lemma_with_record(
        app.roster,
        slot,
        RecordView { models: Some((models, current_model)), ..record },
    );
    lemma_with_record(app.roster, slot, RecordView { commands: Some(commands), ..record });
    lemma_with_record(app.roster, slot, RecordView { usage: Some(usage), ..record });
}

} // verus!
