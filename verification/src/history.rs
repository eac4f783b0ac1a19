//! Saved conversations: showing them again, and what a journal records of a turn.

use crate::app::{after_event, agent_ready, App, AppView, Moment};
use crate::event_laws::law_history_runs_nothing;
use crate::events::{
    AgentCapabilities, AgentEvent, AgentEventView, HistoryContent, HistoryView,
};
use crate::json::{
    field, fields_view, json_view, lemma_fields_view, lemma_list_view, list_view, set_field,
    text_in, with_field, Json, JsonView,
};
use crate::layout::{BlockKind, BlockView};
use crate::order::item_contents;
use crate::resume::agents_or_none;
use crate::roster::{identified, in_state, record_of, renamed, AgentState, RecordView};
use crate::slots::{in_slot_order, law_put_then_lookup, put};
use crate::text::{append_decimal, append_text, decimal, to_chars, to_text};
use vstd::prelude::*;

verus! {

/// Something of a saved conversation.
#[derive(Clone, Debug, Eq, PartialEq)]
pub enum SavedEvent {
    Human { text: String, direct: bool },
    Agent(AgentEvent),
}

pub enum SavedEventView {
    Human { text: Seq<char>, direct: bool },
    Agent(AgentEventView),
}

impl View for SavedEvent {
    type V = SavedEventView;

    open spec fn view(&self) -> SavedEventView {
        match self {
            SavedEvent::Human { text, direct } => SavedEventView::Human {
                text: text@,
                direct: *direct,
            },
            SavedEvent::Agent(event) => SavedEventView::Agent(event@),
        }
    }
}

/// A saved conversation.
#[derive(Debug)]
pub struct SavedConversation {
    pub metadata: Json,
    pub events: Vec<SavedEvent>,
    /// How many records of the journal could not be read.
    pub warnings: usize,
}

/// An agent that is ready, with nothing known of what it can do.
pub open spec fn plainly_ready(slot: usize) -> AgentEventView {
    AgentEventView::Ready {
        slot,
        capabilities: AgentCapabilities {
            supports_cancel: false,
            supports_modes: false,
            supports_models: false,
            supports_terminals: false,
            supports_session_load: false,
        },
    }
}

/// What is applied to show a saved event again: what an agent said or did becomes history,
/// the end of a turn closes it, and everything else is left out.
pub open spec fn display_event(event: AgentEventView) -> Option<AgentEventView> {
    match event {
        AgentEventView::History { slot, content } => Some(event),
        AgentEventView::Text { slot, text } => Some(
            AgentEventView::History { slot, content: HistoryView::Text(text) },
        ),
        AgentEventView::UserText { slot, text } => Some(
            AgentEventView::History { slot, content: HistoryView::UserText(text) },
        ),
        AgentEventView::Thought { slot, text } => Some(
            AgentEventView::History { slot, content: HistoryView::Thought(text) },
        ),
        AgentEventView::Tool { slot, update } => Some(
            AgentEventView::History { slot, content: HistoryView::Tool(update) },
        ),
        AgentEventView::TurnComplete { slot } => Some(plainly_ready(slot)),
        AgentEventView::Failed { slot, started, detail } => Some(plainly_ready(slot)),
        AgentEventView::UsageLimitReached { slot, detail } => Some(plainly_ready(slot)),
        _ => None,
    }
}

/// The application after a saved event was shown again.
pub open spec fn shown_again(app: AppView, event: AgentEventView, moment: Moment) -> AppView {
    match display_event(event) {
        Some(shown) => after_event(app, shown, moment),
        None => app,
    }
}

fn displayed(event: &AgentEvent) -> (shown: Option<AgentEvent>)
    ensures
        match shown {
            Some(found) => display_event(event@) == Some(found@),
            None => display_event(event@) is None,
        },
{
    match event {
        AgentEvent::History { slot, content } => Some(
            AgentEvent::History { slot: *slot, content: content.copy() },
        ),
        AgentEvent::Text { slot, text } => Some(
            AgentEvent::History { slot: *slot, content: HistoryContent::Text(text.clone()) },
        ),
        AgentEvent::UserText { slot, text } => Some(
            AgentEvent::History { slot: *slot, content: HistoryContent::UserText(text.clone()) },
        ),
        AgentEvent::Thought { slot, text } => Some(
            AgentEvent::History { slot: *slot, content: HistoryContent::Thought(text.clone()) },
        ),
        AgentEvent::Tool { slot, update } => Some(
            AgentEvent::History { slot: *slot, content: HistoryContent::Tool(update.copy()) },
        ),
        AgentEvent::TurnComplete { slot } => Some(
            AgentEvent::Ready { slot: *slot, capabilities: AgentCapabilities::default() },
        ),
        AgentEvent::Failed { slot, .. } => Some(
            AgentEvent::Ready { slot: *slot, capabilities: AgentCapabilities::default() },
        ),
        AgentEvent::UsageLimitReached { slot, .. } => Some(
            AgentEvent::Ready { slot: *slot, capabilities: AgentCapabilities::default() },
        ),
        _ => None,
    }
}

/// Shows a saved event again, without the activity, permissions or cancellation of the
/// turn that it belonged to.
pub fn replay_display_event(app: &mut App, event: &AgentEvent, moment: Moment)
    requires
        old(app).wf(),
    ensures
        final(app).wf(),
        final(app)@ == shown_again(old(app)@, event@, moment),
{
    match displayed(event) {
        Some(shown) => app.apply_event(&shown, moment),
        None => {},
    }
}

/// How a saved agent is shown.
pub open spec fn saved_name(agent: JsonView) -> Seq<char> {
    match text_in(field(agent, "name"@)) {
        Some(name) => name,
        None => "Saved agent"@,
    }
}

/// The application with a saved agent in a slot.
pub open spec fn agent_seeded(app: AppView, agent: JsonView, slot: usize, moment: Moment) -> AppView {
    let named = AppView { roster: renamed(app.roster, slot, saved_name(agent)), ..app };
    let known = match text_in(field(agent, "identity"@)) {
        Some(identity) => AppView { roster: identified(named.roster, slot, identity), ..named },
        None => named,
    };
    after_event(known, plainly_ready(slot), moment)
}

/// The application with the first saved agents in their slots.
pub open spec fn agents_seeded(app: AppView, agents: Seq<JsonView>, n: int, moment: Moment) -> AppView
    decreases n,
{
    if n <= 0 {
        app
    } else {
        agent_seeded(
            agents_seeded(app, agents, n - 1, moment),
            agents[n - 1],
            (n - 1) as usize,
            moment,
        )
    }
}

/// The application with the roster of a saved conversation.
pub open spec fn seeded(app: AppView, metadata: JsonView, moment: Moment) -> AppView {
    let agents = agents_or_none(metadata);
    AppView {
        status: "saved history · providers disconnected · send a message to continue"@,
        ..agents_seeded(app, agents, agents.len() as int, moment)
    }
}

fn seed_agent(app: &mut App, agent: &Json, slot: usize, moment: Moment)
    requires
        old(app).wf(),
    ensures
        final(app).wf(),
        final(app)@ == agent_seeded(old(app)@, agent@, slot, moment),
{
    let name = match agent.text_field("name") {
        Some(name) => name,
        None => "Saved agent",
    };
    app.set_agent_name(slot, name);
    match agent.text_field("identity") {
        Some(identity) => app.set_agent_identity(slot, identity),
        None => {},
    }
    let ready = AgentEvent::Ready { slot, capabilities: AgentCapabilities::default() };
    app.apply_event(&ready, moment);
}

fn seed_agents(app: &mut App, agents: &Vec<Json>, moment: Moment)
    requires
        old(app).wf(),
    ensures
        final(app).wf(),
        final(app)@ == agents_seeded(
            old(app)@,
            list_view(agents@),
            agents@.len() as int,
            moment,
        ),
{
    let ghost all = list_view(agents@);
    let ghost start = app@;
    proof {
        lemma_list_view(agents@);
    }
    let mut slot: usize = 0;
    while slot < agents.len()
        invariant
            slot <= agents.len(),
            app.wf(),
            all == list_view(agents@),
            all == Seq::new(agents@.len(), |k: int| json_view(agents@[k])),
            app@ == agents_seeded(start, all, slot as int, moment),
        decreases agents.len() - slot,
    {
        assert(all[slot as int] == agents@[slot as int]@);
        seed_agent(app, &agents[slot], slot, moment);
        slot = slot + 1;
    }
}

/// Shows the roster of a saved conversation. It needs no handle of a provider.
pub fn seed_saved_roster(app: &mut App, metadata: &Json, moment: Moment)
    requires
        old(app).wf(),
    ensures
        final(app).wf(),
        final(app)@ == seeded(old(app)@, metadata@, moment),
{
    match metadata.get("agents") {
        Some(value) => match value.as_array() {
            Some(agents) => {
                proof {
                    lemma_list_view(agents@);
                }
                seed_agents(app, agents, moment);
            },
            None => {},
        },
        None => {},
    }
    app.status = "saved history · providers disconnected · send a message to continue".to_owned();
}

/// The application after what a person had said was shown again.
pub open spec fn person_shown(app: AppView, text: Seq<char>, direct: bool) -> AppView {
    AppView {
        transcript: app.transcript.push(
            BlockView {
                id: app.transcript.len() as u64,
                kind: BlockKind::Human,
                source: (if direct {
                    "You → direct: "@
                } else {
                    "You: "@
                }) + text,
                collapsed: false,
            },
        ),
        ..app
    }
}

/// The application after the first saved events were shown again.
pub open spec fn events_shown(
    app: AppView,
    events: Seq<SavedEventView>,
    n: int,
    moment: Moment,
) -> AppView
    decreases n,
{
    if n <= 0 {
        app
    } else {
        let before = events_shown(app, events, n - 1, moment);
        match events[n - 1] {
            SavedEventView::Human { text, direct } => person_shown(before, text, direct),
            SavedEventView::Agent(event) => shown_again(before, event, moment),
        }
    }
}

/// The application after a saved conversation was shown again.
pub open spec fn replayed(
    app: AppView,
    metadata: JsonView,
    events: Seq<SavedEventView>,
    warnings: usize,
    moment: Moment,
) -> AppView {
    let opened = seeded(app, metadata, moment);
    let shown = events_shown(opened, events, events.len() as int, moment);
    let closed = seeded(shown, metadata, moment);
    if warnings > 0 {
        AppView {
            status: "history loaded with "@ + decimal(warnings as nat)
                + " unreadable journal record(s)"@,
            ..closed
        }
    } else {
        closed
    }
}

/// Whether between two states of the surface no agent began to work, no question of an
/// agent was asked or answered, and no prompt was queued or sent.
pub open spec fn nothing_started(before: AppView, after: AppView) -> bool {
    &&& after.permission == before.permission
    &&& after.queue == before.queue
    &&& forall|slot: usize|
        {
            let earlier = record_of(before.roster.agents, slot);
            let record = #[trigger] record_of(after.roster.agents, slot);
            record.turn_started == earlier.turn_started && (record.state == Some(
                AgentState::Working,
            ) ==> earlier.state == Some(AgentState::Working))
        }
}

proof fn lemma_nothing_started(first: AppView, second: AppView, third: AppView)
    requires
        nothing_started(first, second),
        nothing_started(second, third),
    ensures
        nothing_started(first, third),
{
    assert forall|slot: usize|
        {
            let earlier = record_of(first.roster.agents, slot);
            let record = #[trigger] record_of(third.roster.agents, slot);
            record.turn_started == earlier.turn_started && (record.state == Some(
                AgentState::Working,
            ) ==> earlier.state == Some(AgentState::Working))
        } by {
        let between = record_of(second.roster.agents, slot);
        assert(between == record_of(second.roster.agents, slot));
    }
}

/// A record that is put in a slot starts nothing where it has the turn of the one before
/// it and does not begin to work.
proof fn lemma_put_starts_nothing(before: AppView, after: AppView, slot: usize, record: RecordView)
    requires
        in_slot_order(before.roster.agents),
        after.roster.agents == put(before.roster.agents, slot, record),
        after.permission == before.permission,
        after.queue == before.queue,
        record.turn_started == record_of(before.roster.agents, slot).turn_started,
        record.state == Some(AgentState::Working) ==> record_of(before.roster.agents, slot).state
            == Some(AgentState::Working),
    ensures
        nothing_started(before, after),
        in_slot_order(after.roster.agents),
{
    law_put_then_lookup(before.roster.agents, slot, record, slot);
    assert forall|other: usize|
        {
            let earlier = record_of(before.roster.agents, other);
            let found = #[trigger] record_of(after.roster.agents, other);
            found.turn_started == earlier.turn_started && (found.state == Some(
                AgentState::Working,
            ) ==> earlier.state == Some(AgentState::Working))
        } by {
        law_put_then_lookup(before.roster.agents, slot, record, other);
    }
}

proof fn lemma_ready_starts_nothing(app: AppView, slot: usize, moment: Moment)
    requires
        in_slot_order(app.roster.agents),
    ensures
        nothing_started(app, after_event(app, plainly_ready(slot), moment)),
        in_slot_order(after_event(app, plainly_ready(slot), moment).roster.agents),
{
    reveal(agent_ready);
    reveal(in_state);
    lemma_put_starts_nothing(
        app,
        after_event(app, plainly_ready(slot), moment),
        slot,
        RecordView { state: Some(AgentState::Ready), ..record_of(app.roster.agents, slot) },
    );
}

proof fn lemma_seeding_starts_nothing(app: AppView, agents: Seq<JsonView>, n: int, moment: Moment)
    requires
        in_slot_order(app.roster.agents),
    ensures
        nothing_started(app, agents_seeded(app, agents, n, moment)),
        in_slot_order(agents_seeded(app, agents, n, moment).roster.agents),
    decreases n,
{
    if n > 0 {
        lemma_seeding_starts_nothing(app, agents, n - 1, moment);
        let before = agents_seeded(app, agents, n - 1, moment);
        let agent = agents[n - 1];
        let slot = (n - 1) as usize;
        let named = AppView { roster: renamed(before.roster, slot, saved_name(agent)), ..before };
        let record = record_of(before.roster.agents, slot);
        reveal(renamed);
        lemma_put_starts_nothing(
            before,
            named,
            slot,
            RecordView {
                name: Some(saved_name(agent)),
                state: if record.state is None {
                    Some(AgentState::Starting)
                } else {
                    record.state
                },
                ..record
            },
        );
        lemma_nothing_started(app, before, named);
        match text_in(field(agent, "identity"@)) {
            Some(identity) => {
                let known = AppView { roster: identified(named.roster, slot, identity), ..named };
                reveal(identified);
                lemma_put_starts_nothing(
                    named,
                    known,
                    slot,
                    RecordView {
                        identity: Some(identity),
                        ..record_of(named.roster.agents, slot)
                    },
                );
                lemma_nothing_started(app, named, known);
                lemma_ready_starts_nothing(known, slot, moment);
                lemma_nothing_started(app, known, after_event(known, plainly_ready(slot), moment));
            },
            None => {
                lemma_ready_starts_nothing(named, slot, moment);
                lemma_nothing_started(app, named, after_event(named, plainly_ready(slot), moment));
            },
        }
    }
}

proof fn lemma_showing_starts_nothing(
    app: AppView,
    events: Seq<SavedEventView>,
    n: int,
    moment: Moment,
)
    requires
        in_slot_order(app.roster.agents),
    ensures
        nothing_started(app, events_shown(app, events, n, moment)),
        in_slot_order(events_shown(app, events, n, moment).roster.agents),
    decreases n,
{
    if n > 0 {
        lemma_showing_starts_nothing(app, events, n - 1, moment);
        let before = events_shown(app, events, n - 1, moment);
        let after = events_shown(app, events, n, moment);
        match events[n - 1] {
            SavedEventView::Human { text, direct } => {},
            SavedEventView::Agent(event) => match display_event(event) {
                Some(AgentEventView::History { slot, content }) => {
                    law_history_runs_nothing(before, slot, content, moment);
                },
                Some(AgentEventView::Ready { slot, capabilities }) => {
                    lemma_ready_starts_nothing(before, slot, moment);
                },
                _ => {},
            },
        }
        assert(nothing_started(before, after));
        lemma_nothing_started(app, before, after);
    }
}

/// Showing a saved conversation again starts nothing: no agent begins to work, no question
/// is asked or answered, and no prompt is queued or sent, whatever was saved.
pub proof fn law_replaying_starts_nothing(
    app: AppView,
    metadata: JsonView,
    events: Seq<SavedEventView>,
    warnings: usize,
    moment: Moment,
)
    requires
        in_slot_order(app.roster.agents),
    ensures
        nothing_started(app, replayed(app, metadata, events, warnings, moment)),
{
    let agents = agents_or_none(metadata);
    let opened = seeded(app, metadata, moment);
    let shown = events_shown(opened, events, events.len() as int, moment);
    let closed = seeded(shown, metadata, moment);
    lemma_seeding_starts_nothing(app, agents, agents.len() as int, moment);
    assert(nothing_started(app, opened));
    lemma_showing_starts_nothing(opened, events, events.len() as int, moment);
    lemma_nothing_started(app, opened, shown);
    lemma_seeding_starts_nothing(shown, agents, agents.len() as int, moment);
    assert(nothing_started(shown, closed));
    lemma_nothing_started(app, shown, closed);
}

/// Shows a saved conversation again.
pub fn replay_conversation(app: &mut App, conversation: &SavedConversation, moment: Moment)
    requires
        old(app).wf(),
    ensures
        final(app).wf(),
        final(app)@ == replayed(
            old(app)@,
            conversation.metadata@,
            item_contents(conversation.events@),
            conversation.warnings,
            moment,
        ),
{
    seed_saved_roster(app, &conversation.metadata, moment);
    let ghost opened = app@;
    let ghost all = item_contents(conversation.events@);
    let mut i: usize = 0;
    while i < conversation.events.len()
        invariant
            i <= conversation.events.len(),
            app.wf(),
            all == item_contents(conversation.events@),
            app@ == events_shown(opened, all, i as int, moment),
        decreases conversation.events.len() - i,
    {
        assert(all[i as int] == conversation.events@[i as int]@);
        match &conversation.events[i] {
            SavedEvent::Human { text, direct } => app.record_human_message(text.as_str(), *direct),
            SavedEvent::Agent(event) => replay_display_event(app, event, moment),
        }
        i = i + 1;
    }
    seed_saved_roster(app, &conversation.metadata, moment);
    if conversation.warnings > 0 {
        let mut status = to_chars("history loaded with ");
        append_decimal(&mut status, conversation.warnings as u64);
        append_text(&mut status, " unreadable journal record(s)");
        app.status = to_text(&status);
    }
}

/// How far a recorded conversation has come.
#[derive(Clone, Copy, Debug, Eq, PartialEq, Structural)]
pub enum ArchiveState {
    Idle,
    Active,
    Completed,
    Failed,
}

/// The state of a recorded conversation after an event, where the event changes it.
pub open spec fn state_after(event: AgentEventView) -> Option<ArchiveState> {
    match event {
        AgentEventView::TurnStarted { slot } => Some(ArchiveState::Active),
        AgentEventView::TurnComplete { slot } => Some(ArchiveState::Completed),
        AgentEventView::Failed { slot, started, detail } => Some(ArchiveState::Failed),
        AgentEventView::UsageLimitReached { slot, detail } => Some(ArchiveState::Failed),
        _ => None,
    }
}

/// The state of a recorded conversation after an event, where the event changes it. The
/// end of a turn is also when its summary is recorded.
pub fn archive_state(event: &AgentEvent) -> (state: Option<ArchiveState>)
    ensures
        state == state_after(event@),
{
    match event {
        AgentEvent::TurnStarted { .. } => Some(ArchiveState::Active),
        AgentEvent::TurnComplete { .. } => Some(ArchiveState::Completed),
        AgentEvent::Failed { .. } => Some(ArchiveState::Failed),
        AgentEvent::UsageLimitReached { .. } => Some(ArchiveState::Failed),
        _ => None,
    }
}

/// Fields with the first of other fields set in them.
pub open spec fn merged(
    fields: Seq<(Seq<char>, JsonView)>,
    more: Seq<(Seq<char>, JsonView)>,
    n: int,
) -> Seq<(Seq<char>, JsonView)>
    decreases n,
{
    if n <= 0 {
        fields
    } else {
        with_field(merged(fields, more, n - 1), more[n - 1].0, more[n - 1].1)
    }
}

/// Takes what an agent reports of its session into what is recorded of the conversation.
pub fn merge_metadata(fields: &mut Vec<(String, Json)>, update: Json)
    ensures
        fields_view(final(fields)@) == (match update@ {
            JsonView::Object(more) => merged(fields_view(old(fields)@), more, more.len() as int),
            _ => fields_view(old(fields)@),
        }),
{
    match update {
        Json::Object(more) => {
            let ghost start = fields_view(fields@);
            let ghost all = fields_view(more@);
            let ghost given = more@;
            proof {
                lemma_fields_view(more@);
            }
            let mut rest = more;
            let mut done: usize = 0;
            let count: usize = rest.len();
            while done < count
                invariant
                    done <= count,
                    count == given.len(),
                    rest@ == given.skip(done as int),
                    all == Seq::new(given.len(), |i: int| (given[i].0@, json_view(given[i].1))),
                    fields_view(fields@) == merged(start, all, done as int),
                decreases count - done,
            {
                let (key, value) = rest.remove(0);
                assert(rest@ =~= given.skip(done + 1));
                set_field(fields, key.as_str(), value);
                done = done + 1;
            }
        },
        _ => {},
    }
}

} // verus!
