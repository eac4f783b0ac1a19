//! The agents of a conversation by slot: their names, what they are doing and who
//! is next.

use crate::events::{
    copy_modes, copy_optional, copy_strings, AgentCommand, Mode, ModeView, UsageUpdate,
};
use crate::labels::{compact, compact_label};
use crate::notice::{silent_agent, SILENCE};
use crate::order::item_contents;
use crate::slots::{
    has_slot, held, in_slot_order, law_put_then_lookup, law_tables_are_their_slots, lemma_lookup,
    lemma_slots_before, lookup, put, slots_before, Blank, SlotTable,
};
use crate::text::{
    append_decimal, append_text, begins_with, contents, decimal, eq_ignore_case, has_first, join,
    joined, optional, same, same_ignoring_case, strings, to_chars, to_text, trim, trimmed_text,
};
use vstd::prelude::*;

verus! {

/// What an agent is doing.
#[derive(Clone, Copy, Debug, Eq, PartialEq, Structural)]
pub enum AgentState {
    Starting,
    Ready,
    Working,
    Error,
    Dropped,
}

/// How a state is shown.
pub open spec fn state_text(state: AgentState) -> Seq<char> {
    match state {
        AgentState::Starting => "starting"@,
        AgentState::Ready => "ready"@,
        AgentState::Working => "working"@,
        AgentState::Error => "error"@,
        AgentState::Dropped => "dropped"@,
    }
}

impl AgentState {
    pub fn as_str(self) -> (text: &'static str)
        ensures
            text@ == state_text(self),
    {
        match self {
            AgentState::Starting => "starting",
            AgentState::Ready => "ready",
            AgentState::Working => "working",
            AgentState::Error => "error",
            AgentState::Dropped => "dropped",
        }
    }
}

/// What is kept of the agent in a slot.
#[derive(Debug)]
pub struct AgentRecord {
    pub name: Option<String>,
    pub identity: Option<String>,
    pub state: Option<AgentState>,
    pub modes: Option<(Vec<Mode>, Option<String>)>,
    /// The models that the agent takes, and the one it uses.
    pub models: Option<(Vec<String>, Option<String>)>,
    pub commands: Option<Vec<AgentCommand>>,
    pub usage: Option<UsageUpdate>,
    /// When the running turn began, in nanoseconds.
    pub turn_started: Option<u64>,
    /// When the agent last reported something, in nanoseconds.
    pub last_active: Option<u64>,
    /// The distinct tool calls of the running turn.
    pub tool_calls: Vec<String>,
}

#[verifier::ext_equal]
pub struct RecordView {
    pub name: Option<Seq<char>>,
    pub identity: Option<Seq<char>>,
    pub state: Option<AgentState>,
    pub modes: Option<(Seq<ModeView>, Option<Seq<char>>)>,
    pub models: Option<(Seq<Seq<char>>, Option<Seq<char>>)>,
    pub commands: Option<Seq<Seq<char>>>,
    pub usage: Option<UsageUpdate>,
    pub turn_started: Option<u64>,
    pub last_active: Option<u64>,
    pub tool_calls: Seq<Seq<char>>,
}

impl View for AgentRecord {
    type V = RecordView;

    open spec fn view(&self) -> RecordView {
        RecordView {
            name: optional(self.name),
            identity: optional(self.identity),
            state: self.state,
            modes: match self.modes {
                Some((modes, current)) => Some((item_contents(modes@), optional(current))),
                None => None,
            },
            models: match self.models {
                Some((models, current)) => Some((strings(models@), optional(current))),
                None => None,
            },
            commands: match self.commands {
                Some(commands) => Some(item_contents(commands@)),
                None => None,
            },
            usage: self.usage,
            turn_started: self.turn_started,
            last_active: self.last_active,
            tool_calls: strings(self.tool_calls@),
        }
    }
}

/// Nothing known of a slot.
pub open spec fn no_record() -> RecordView {
    RecordView {
        name: None,
        identity: None,
        state: None,
        modes: None,
        models: None,
        commands: None,
        usage: None,
        turn_started: None,
        last_active: None,
        tool_calls: Seq::empty(),
    }
}

impl Blank for AgentRecord {
    open spec fn blank_view() -> RecordView {
        no_record()
    }

    fn blank() -> (value: Self) {
        let value = AgentRecord {
            name: None,
            identity: None,
            state: None,
            modes: None,
            models: None,
            commands: None,
            usage: None,
            turn_started: None,
            last_active: None,
            tool_calls: Vec::new(),
        };
        assert(strings(value.tool_calls@) =~= Seq::<Seq<char>>::empty());
        value
    }
}

/// The record of a slot.
pub open spec fn record_of(agents: Seq<(usize, RecordView)>, slot: usize) -> RecordView {
    held::<AgentRecord>(agents, slot)
}

/// The models that an agent takes, and the one it uses; none where it told none.
pub open spec fn known_models(agents: Seq<(usize, RecordView)>, slot: usize) -> (
    Seq<Seq<char>>,
    Option<Seq<char>>,
) {
    match record_of(agents, slot).models {
        Some(known) => known,
        None => (Seq::empty(), None),
    }
}

/// The slots that have a named agent.
pub open spec fn named_slots(agents: Seq<(usize, RecordView)>) -> Seq<usize>
    decreases agents.len(),
{
    if agents.len() == 0 {
        Seq::empty()
    } else if agents.last().1.name is Some {
        named_slots(agents.drop_last()).push(agents.last().0)
    } else {
        named_slots(agents.drop_last())
    }
}

/// Whether an agent takes part in the conversation.
pub open spec fn takes_part(record: RecordView) -> bool {
    record.name is Some && record.state != Some(AgentState::Dropped) && record.state != Some(
        AgentState::Error,
    )
}

/// The slots whose agents take part, in order. Dropped and failed slots keep their
/// numbers, but are not eligible for dispatch.
pub open spec fn active_slots(agents: Seq<(usize, RecordView)>) -> Seq<usize>
    decreases agents.len(),
{
    if agents.len() == 0 {
        Seq::empty()
    } else if takes_part(agents.last().1) {
        active_slots(agents.drop_last()).push(agents.last().0)
    } else {
        active_slots(agents.drop_last())
    }
}

/// The slots whose agents were not dropped.
pub open spec fn shown_slots(agents: Seq<(usize, RecordView)>) -> Seq<usize>
    decreases agents.len(),
{
    if agents.len() == 0 {
        Seq::empty()
    } else if agents.last().1.name is Some && agents.last().1.state != Some(AgentState::Dropped) {
        shown_slots(agents.drop_last()).push(agents.last().0)
    } else {
        shown_slots(agents.drop_last())
    }
}

/// The first of some slots that comes after a slot.
pub open spec fn first_after(slots: Seq<usize>, slot: usize) -> Option<usize>
    decreases slots.len(),
{
    if slots.len() == 0 {
        None
    } else if slots[0] > slot {
        Some(slots[0])
    } else {
        first_after(slots.drop_first(), slot)
    }
}

/// The slot whose turn it is after a slot: the next one that takes part, round and
/// round.
#[verifier::opaque]
pub open spec fn next_after(agents: Seq<(usize, RecordView)>, slot: usize) -> Option<usize> {
    let active = active_slots(agents);
    match first_after(active, slot) {
        Some(next) => Some(next),
        None => if active.len() > 0 {
            Some(active[0])
        } else {
            None
        },
    }
}

/// The slots that have an agent of a name.
pub open spec fn slots_named(agents: Seq<(usize, RecordView)>, name: Seq<char>) -> Seq<usize>
    decreases agents.len(),
{
    if agents.len() == 0 {
        Seq::empty()
    } else if agents.last().1.name == Some(name) {
        slots_named(agents.drop_last(), name).push(agents.last().0)
    } else {
        slots_named(agents.drop_last(), name)
    }
}

/// The place of a slot among some slots.
pub open spec fn place_in(slots: Seq<usize>, slot: usize) -> Option<int>
    decreases slots.len(),
{
    if slots.len() == 0 {
        None
    } else if slots[0] == slot {
        Some(0)
    } else {
        match place_in(slots.drop_first(), slot) {
            Some(k) => Some(k + 1),
            None => None,
        }
    }
}

/// The name that an agent was given, or one made from its slot.
pub open spec fn given_name(agents: Seq<(usize, RecordView)>, slot: usize) -> Seq<char> {
    match record_of(agents, slot).name {
        Some(name) => name,
        None => "Agent "@ + decimal(slot as nat),
    }
}

/// How an agent is called: agents of the same name are numbered.
#[verifier::opaque]
pub open spec fn name_of(agents: Seq<(usize, RecordView)>, slot: usize) -> Seq<char> {
    let name = given_name(agents, slot);
    let all = slots_named(agents, name);
    if all.len() <= 1 {
        name
    } else {
        name + " #"@ + decimal(
            match place_in(all, slot) {
                Some(k) => (k + 1) as nat,
                None => slot as nat,
            },
        )
    }
}

/// The first slot with a failed agent.
pub open spec fn first_failed(agents: Seq<(usize, RecordView)>) -> Option<usize>
    decreases agents.len(),
{
    if agents.len() == 0 {
        None
    } else if agents[0].1.state == Some(AgentState::Error) {
        Some(agents[0].0)
    } else {
        first_failed(agents.drop_first())
    }
}

/// All the commands that agents advertise, by slot.
pub open spec fn all_commands(agents: Seq<(usize, RecordView)>) -> Seq<Seq<char>>
    decreases agents.len(),
{
    if agents.len() == 0 {
        Seq::empty()
    } else {
        all_commands(agents.drop_last()) + (match agents.last().1.commands {
            Some(commands) => commands,
            None => Seq::empty(),
        })
    }
}

/// Each of the texts once, where it comes first.
pub open spec fn each_once(texts: Seq<Seq<char>>) -> Seq<Seq<char>>
    decreases texts.len(),
{
    if texts.len() == 0 {
        Seq::empty()
    } else {
        let before = each_once(texts.drop_last());
        if texts.drop_last().contains(texts.last()) {
            before
        } else {
            before.push(texts.last())
        }
    }
}

proof fn lemma_each_once(texts: Seq<Seq<char>>)
    ensures
        forall|text: Seq<char>| each_once(texts).contains(text) <==> texts.contains(text),
        each_once(texts).no_duplicates(),
    decreases texts.len(),
{
    if texts.len() > 0 {
        let rest = texts.drop_last();
        let before = each_once(rest);
        lemma_each_once(rest);
        assert forall|text: Seq<char>| each_once(texts).contains(text) <==> texts.contains(text) by {
            if texts.contains(text) {
                let i = choose|i: int| 0 <= i < texts.len() && texts[i] == text;
                if i < rest.len() {
                    assert(rest[i] == text);
                    assert(rest.contains(text));
                    assert(before.contains(text));
                    let k = choose|k: int| 0 <= k < before.len() && before[k] == text;
                    assert(each_once(texts)[k] == text);
                } else if !rest.contains(text) {
                    assert(each_once(texts)[before.len() as int] == text);
                } else {
                    assert(before.contains(text));
                }
            }
            if each_once(texts).contains(text) {
                let k = choose|k: int|
                    0 <= k < each_once(texts).len() && each_once(texts)[k] == text;
                if k < before.len() {
                    assert(before[k] == text);
                    assert(rest.contains(text));
                    let i = choose|i: int| 0 <= i < rest.len() && rest[i] == text;
                    assert(texts[i] == text);
                } else {
                    assert(texts[texts.len() - 1] == text);
                }
            }
        }
    }
}

/// The commands of a roster are named once each, none that an agent advertises is left
/// out, and none is made up.
pub proof fn law_commands_are_named_once(agents: Seq<(usize, RecordView)>, command: Seq<char>)
    ensures
        each_once(all_commands(agents)).no_duplicates(),
        each_once(all_commands(agents)).contains(command) <==> all_commands(agents).contains(
            command,
        ),
{
    lemma_each_once(all_commands(agents));
}

/// A command as it is typed: with a slash in front.
pub open spec fn slashed(name: Seq<char>) -> Seq<char> {
    if begins_with(name, '/') {
        name
    } else {
        seq!['/'] + name
    }
}

/// Whether one of the commands is the one that was typed.
pub open spec fn advertises(commands: Seq<Seq<char>>, command: Seq<char>) -> bool
    decreases commands.len(),
{
    commands.len() > 0 && (same_ignoring_case(slashed(trim(commands.last())), command)
        || advertises(commands.drop_last(), command))
}

/// The candidates with one more command, unless it is blank or already there.
pub open spec fn with_candidate(candidates: Seq<Seq<char>>, command: Seq<char>) -> Seq<Seq<char>> {
    let name = trim(command);
    if name.len() == 0 || candidates.contains(slashed(name)) {
        candidates
    } else {
        candidates.push(slashed(name))
    }
}

/// The candidates with all the commands, in order.
pub open spec fn with_commands(
    candidates: Seq<Seq<char>>,
    commands: Seq<Seq<char>>,
) -> Seq<Seq<char>>
    decreases commands.len(),
{
    if commands.len() == 0 {
        candidates
    } else {
        with_candidate(with_commands(candidates, commands.drop_last()), commands.last())
    }
}

/// Named agents have a state.
pub open spec fn named_have_states(agents: Seq<(usize, RecordView)>) -> bool {
    forall|i: int|
        0 <= i < agents.len() ==> ((#[trigger] agents[i]).1.name is Some ==> agents[i].1.state is Some)
}

proof fn lemma_record_keeps(agents: Seq<(usize, RecordView)>, slot: usize)
    requires
        in_slot_order(agents),
        named_have_states(agents),
    ensures
        record_of(agents, slot).name is Some ==> record_of(agents, slot).state is Some,
{
    lemma_lookup(agents, slot);
    lemma_slots_before(agents, slot);
    if has_slot(agents, slot) {
        assert(agents[slots_before(agents, slot)].1 == record_of(agents, slot));
    }
}

proof fn lemma_put_keeps(agents: Seq<(usize, RecordView)>, slot: usize, record: RecordView)
    requires
        in_slot_order(agents),
        named_have_states(agents),
        record.name is Some ==> record.state is Some,
    ensures
        in_slot_order(put(agents, slot, record)),
        named_have_states(put(agents, slot, record)),
{
    reveal(put);
    law_put_then_lookup(agents, slot, record, slot);
    lemma_slots_before(agents, slot);
    let after = put(agents, slot, record);
    let k = slots_before(agents, slot);
    assert forall|i: int| 0 <= i < after.len() implies ((#[trigger] after[i]).1.name is Some
        ==> after[i].1.state is Some) by {
        if has_slot(agents, slot) {
            if i != k {
                assert(after[i] == agents[i]);
            }
        } else if i < k {
            assert(after[i] == agents[i]);
        } else if i > k {
            assert(after[i] == agents[i - 1]);
        }
    }
}

/// The agents of a conversation and the routing between them.
#[derive(Debug)]
pub struct Roster {
    agents: SlotTable<AgentRecord>,
    next_agent: Option<usize>,
    selected_agent: Option<usize>,
    failed_agent: Option<usize>,
}

pub struct RosterView {
    pub agents: Seq<(usize, RecordView)>,
    /// Whose turn it is.
    pub next_agent: Option<usize>,
    /// Who was picked to receive the next prompt.
    pub selected_agent: Option<usize>,
    /// Who failed last.
    pub failed_agent: Option<usize>,
}

impl View for Roster {
    type V = RosterView;

    closed spec fn view(&self) -> RosterView {
        RosterView {
            agents: self.agents@,
            next_agent: self.next_agent,
            selected_agent: self.selected_agent,
            failed_agent: self.failed_agent,
        }
    }
}

/// The roster with another record in a slot.
pub open spec fn with_record(roster: RosterView, slot: usize, record: RecordView) -> RosterView {
    RosterView { agents: put(roster.agents, slot, record), ..roster }
}

/// The roster in which an agent is in another state.
#[verifier::opaque]
pub open spec fn in_state(roster: RosterView, slot: usize, state: AgentState) -> RosterView {
    with_record(
        roster,
        slot,
        RecordView { state: Some(state), ..record_of(roster.agents, slot) },
    )
}

/// The roster in which an agent has a name. A new agent starts, and the first one is next.
#[verifier::opaque]
pub open spec fn renamed(roster: RosterView, slot: usize, name: Seq<char>) -> RosterView {
    let record = record_of(roster.agents, slot);
    RosterView {
        next_agent: if roster.next_agent is None {
            Some(slot)
        } else {
            roster.next_agent
        },
        ..with_record(
            roster,
            slot,
            RecordView {
                name: Some(name),
                state: if record.state is None {
                    Some(AgentState::Starting)
                } else {
                    record.state
                },
                ..record
            },
        )
    }
}

/// The roster in which an agent has an identity.
#[verifier::opaque]
pub open spec fn identified(roster: RosterView, slot: usize, identity: Seq<char>) -> RosterView {
    with_record(
        roster,
        slot,
        RecordView { identity: Some(identity), ..record_of(roster.agents, slot) },
    )
}

/// The turn passes on where it was a slot's.
#[verifier::opaque]
pub open spec fn passed_on(roster: RosterView, slot: usize) -> RosterView {
    if roster.next_agent == Some(slot) {
        RosterView { next_agent: next_after(roster.agents, slot), ..roster }
    } else {
        roster
    }
}

/// The roster without an agent.
#[verifier::opaque]
pub open spec fn removed(roster: RosterView, slot: usize) -> RosterView {
    passed_on(with_record(roster, slot, no_record()), slot)
}

/// Whether an agent can become the owner.
pub open spec fn can_promote(roster: RosterView, slot: usize) -> bool {
    let record = record_of(roster.agents, slot);
    slot != 0 && record.name is Some && record.state != Some(AgentState::Dropped)
}

/// The roster in which an agent has become the owner: the first slot has its record,
/// and the slot keeps the name of the owner that was dropped.
#[verifier::opaque]
pub open spec fn promoted(roster: RosterView, slot: usize) -> RosterView {
    let owner = record_of(roster.agents, 0);
    let agent = record_of(roster.agents, slot);
    let moved = with_record(
        with_record(roster, 0, agent),
        slot,
        RecordView { name: owner.name, state: Some(AgentState::Dropped), ..no_record() },
    );
    RosterView {
        next_agent: if roster.next_agent == Some(slot) {
            Some(0)
        } else {
            roster.next_agent
        },
        ..moved
    }
}

/// The roster in which an agent starts anew.
#[verifier::opaque]
pub open spec fn reloaded(roster: RosterView, slot: usize) -> RosterView {
    RosterView {
        failed_agent: None,
        ..with_record(
            roster,
            slot,
            RecordView {
                state: Some(AgentState::Starting),
                turn_started: None,
                tool_calls: Seq::empty(),
                ..record_of(roster.agents, slot)
            },
        )
    }
}

/// The roster in which an agent was dropped: its name and identity stay.
#[verifier::opaque]
pub open spec fn dropped(roster: RosterView, slot: usize) -> RosterView {
    let record = record_of(roster.agents, slot);
    passed_on(
        RosterView {
            failed_agent: if roster.failed_agent == Some(slot) {
                None
            } else {
                roster.failed_agent
            },
            ..with_record(
                roster,
                slot,
                RecordView {
                    name: record.name,
                    identity: record.identity,
                    state: Some(AgentState::Dropped),
                    ..no_record()
                },
            )
        },
        slot,
    )
}

/// Whether two agents can change places.
pub open spec fn can_swap(roster: RosterView, first: usize, second: usize) -> bool {
    let a = record_of(roster.agents, first);
    let b = record_of(roster.agents, second);
    first != second && a.name is Some && b.name is Some && a.state != Some(AgentState::Dropped)
        && b.state != Some(AgentState::Dropped)
}

/// A slot after two slots changed places.
pub open spec fn exchanged(slot: Option<usize>, first: usize, second: usize) -> Option<usize> {
    if slot == Some(first) {
        Some(second)
    } else if slot == Some(second) {
        Some(first)
    } else {
        slot
    }
}

/// The roster in which two agents changed places, with everything that is theirs.
#[verifier::opaque]
pub open spec fn swapped(roster: RosterView, first: usize, second: usize) -> RosterView {
    let a = record_of(roster.agents, first);
    let b = record_of(roster.agents, second);
    RosterView {
        agents: put(put(roster.agents, first, b), second, a),
        next_agent: exchanged(roster.next_agent, first, second),
        selected_agent: exchanged(roster.selected_agent, first, second),
        failed_agent: exchanged(roster.failed_agent, first, second),
    }
}

/// The roster in which an agent's turn runs and reports something; a running turn keeps its
/// start.
#[verifier::opaque]
pub open spec fn turn_begun(roster: RosterView, slot: usize, now: u64) -> RosterView {
    let record = record_of(roster.agents, slot);
    RosterView {
        next_agent: Some(slot),
        ..with_record(
            roster,
            slot,
            RecordView {
                turn_started: if record.turn_started is None {
                    Some(now)
                } else {
                    record.turn_started
                },
                last_active: Some(now),
                ..record
            },
        )
    }
}

/// The roster in which an agent's turn is over.
#[verifier::opaque]
pub open spec fn turn_ended(roster: RosterView, slot: usize) -> RosterView {
    with_record(
        roster,
        slot,
        RecordView {
            turn_started: None,
            tool_calls: Seq::empty(),
            ..record_of(roster.agents, slot)
        },
    )
}

/// The roster after an agent failed: its turn is over, and passes on.
pub open spec fn broken(roster: RosterView, slot: usize) -> RosterView {
    RosterView {
        failed_agent: Some(slot),
        ..passed_on(in_state(turn_ended(roster, slot), slot, AgentState::Error), slot)
    }
}

/// The roster after an agent's turn was completed: the turn passes on.
pub open spec fn completed(roster: RosterView, slot: usize) -> RosterView {
    let ready = in_state(turn_ended(roster, slot), slot, AgentState::Ready);
    RosterView { next_agent: next_after(ready.agents, slot), ..ready }
}

/// The records in which no turn runs.
pub open spec fn at_rest(agents: Seq<(usize, RecordView)>) -> Seq<(usize, RecordView)> {
    Seq::new(
        agents.len(),
        |i: int|
            (
                agents[i].0,
                RecordView {
                    state: if agents[i].1.state == Some(AgentState::Working) {
                        Some(AgentState::Ready)
                    } else {
                        agents[i].1.state
                    },
                    turn_started: None,
                    tool_calls: Seq::empty(),
                    ..agents[i].1
                },
            ),
    )
}

/// The agent that failed and was not dealt with.
pub open spec fn failed_slot(roster: RosterView) -> Option<usize> {
    match roster.failed_agent {
        Some(slot) if record_of(roster.agents, slot).state == Some(AgentState::Error) => Some(slot),
        _ => first_failed(roster.agents),
    }
}

/// The tool calls with one more, counted once.
pub open spec fn with_tool(calls: Seq<Seq<char>>, id: Seq<char>) -> Seq<Seq<char>> {
    if calls.contains(id) {
        calls
    } else {
        calls.push(id)
    }
}

/// The names that the agents were given, by slot.
pub open spec fn given_names(agents: Seq<(usize, RecordView)>) -> Seq<Seq<char>>
    decreases agents.len(),
{
    if agents.len() == 0 {
        Seq::empty()
    } else {
        match agents.last().1.name {
            Some(name) => given_names(agents.drop_last()).push(name),
            None => given_names(agents.drop_last()),
        }
    }
}

/// How the agents are called, by slot.
pub open spec fn called(agents: Seq<(usize, RecordView)>) -> Seq<Seq<char>> {
    Seq::new(named_slots(agents).len(), |i: int| name_of(agents, named_slots(agents)[i]))
}

/// The state that is shown for an agent: one without a state is starting.
pub open spec fn shown_state(record: RecordView) -> AgentState {
    match record.state {
        Some(state) => state,
        None => AgentState::Starting,
    }
}

/// An agent with its state.
pub open spec fn agent_status(agents: Seq<(usize, RecordView)>, slot: usize) -> Seq<char> {
    let state = shown_state(record_of(agents, slot));
    (if state == AgentState::Working {
        "●"@
    } else {
        "○"@
    }) + " "@ + name_of(agents, slot) + " · "@ + state_text(state)
}

/// The agents with their states, by slot.
pub open spec fn agent_statuses(agents: Seq<(usize, RecordView)>) -> Seq<Seq<char>> {
    Seq::new(named_slots(agents).len(), |i: int| agent_status(agents, named_slots(agents)[i]))
}

/// The first slot whose agent was given a name.
pub open spec fn first_given(agents: Seq<(usize, RecordView)>, name: Seq<char>) -> Option<usize>
    decreases agents.len(),
{
    if agents.len() == 0 {
        None
    } else if agents[0].1.name == Some(name) {
        Some(agents[0].0)
    } else {
        first_given(agents.drop_first(), name)
    }
}

/// Whether an agent that takes part is still starting.
pub open spec fn any_starting(agents: Seq<(usize, RecordView)>) -> bool {
    exists|i: int|
        0 <= i < agents.len() && takes_part((#[trigger] agents[i]).1) && shown_state(agents[i].1)
            == AgentState::Starting
}

/// The modes that the agents offer, by slot, without those of dropped or failed agents.
pub open spec fn offered_modes(agents: Seq<(usize, RecordView)>) -> Seq<Seq<ModeView>>
    decreases agents.len(),
{
    if agents.len() == 0 {
        Seq::empty()
    } else {
        let record = agents.last().1;
        match record.modes {
            Some((modes, current)) if record.state != Some(AgentState::Dropped) && record.state
                != Some(AgentState::Error) => offered_modes(agents.drop_last()).push(modes),
            _ => offered_modes(agents.drop_last()),
        }
    }
}

/// The modes of the agents that take part, each with the one it is in.
pub open spec fn current_modes(agents: Seq<(usize, RecordView)>) -> Seq<
    (Seq<ModeView>, Option<Seq<char>>),
>
    decreases agents.len(),
{
    if agents.len() == 0 {
        Seq::empty()
    } else {
        let record = agents.last().1;
        match record.modes {
            Some(modes) if takes_part(record) => current_modes(agents.drop_last()).push(modes),
            _ => current_modes(agents.drop_last()),
        }
    }
}

/// When two agents change places each is followed by everything that is its own, the
/// others stay, and changing places again restores the roster.
pub proof fn law_swapping_twice_restores(roster: RosterView, first: usize, second: usize)
    requires
        in_slot_order(roster.agents),
        can_swap(roster, first, second),
    ensures
        record_of(swapped(roster, first, second).agents, first) == record_of(
            roster.agents,
            second,
        ),
        record_of(swapped(roster, first, second).agents, second) == record_of(
            roster.agents,
            first,
        ),
        forall|slot: usize|
            slot != first && slot != second ==> #[trigger] record_of(
                swapped(roster, first, second).agents,
                slot,
            ) == record_of(roster.agents, slot),
        swapped(swapped(roster, first, second), first, second) == roster,
{
    reveal(swapped);
    let a = record_of(roster.agents, first);
    let b = record_of(roster.agents, second);
    let once = swapped(roster, first, second);
    let half = put(roster.agents, first, b);
    law_put_then_lookup(roster.agents, first, b, first);
    law_put_then_lookup(half, second, a, first);
    law_put_then_lookup(half, second, a, second);
    let twice = swapped(once, first, second);
    let back = put(once.agents, first, a);
    law_put_then_lookup(once.agents, first, a, second);
    law_put_then_lookup(back, second, b, second);
    assert forall|slot: usize| #[trigger] lookup(once.agents, slot) == (if slot == first {
        Some(b)
    } else if slot == second {
        Some(a)
    } else {
        lookup(roster.agents, slot)
    }) by {
        law_put_then_lookup(roster.agents, first, b, slot);
        law_put_then_lookup(half, second, a, slot);
    }
    assert forall|slot: usize| #[trigger] lookup(twice.agents, slot) == lookup(
        roster.agents,
        slot,
    ) by {
        assert(lookup(once.agents, slot) == lookup(once.agents, slot));
        law_put_then_lookup(once.agents, first, a, slot);
        law_put_then_lookup(back, second, b, slot);
    }
    law_tables_are_their_slots(twice.agents, roster.agents);
}

pub proof fn lemma_active(agents: Seq<(usize, RecordView)>, slot: usize)
    requires
        in_slot_order(agents),
    ensures
        active_slots(agents).contains(slot) <==> takes_part(record_of(agents, slot)),
        forall|i: int, j: int|
            0 <= i < j < active_slots(agents).len() ==> active_slots(agents)[i] < active_slots(
                agents,
            )[j],
        forall|i: int|
            0 <= i < active_slots(agents).len() ==> agents.len() > 0 && #[trigger] active_slots(
                agents,
            )[i] <= agents.last().0,
    decreases agents.len(),
{
    lemma_lookup(agents, slot);
    if agents.len() > 0 {
        let rest = agents.drop_last();
        let last = agents.last();
        assert(in_slot_order(rest)) by {
            assert forall|i: int, j: int| 0 <= i < j < rest.len() implies (#[trigger] rest[i]).0 < (
            #[trigger] rest[j]).0 by {
                assert(agents[i].0 < agents[j].0);
            }
        }
        lemma_active(rest, slot);
        lemma_lookup(agents, slot);
        lemma_lookup(rest, slot);
        lemma_slots_before(agents, slot);
        lemma_slots_before(rest, slot);
        let before = active_slots(rest);
        let after = active_slots(agents);
        assert forall|i: int| 0 <= i < before.len() implies before[i] < last.0 by {
            assert(before[i] <= rest.last().0);
            assert(agents[rest.len() - 1].0 < agents[agents.len() - 1].0);
        }
        if last.0 == slot {
            if has_slot(rest, slot) {
                let k = slots_before(rest, slot);
                assert(agents[k].0 < agents[agents.len() - 1].0);
            }
            assert(!takes_part(record_of(rest, slot)));
            let k = slots_before(agents, slot);
            assert(agents[agents.len() - 1].0 == slot);
            assert(has_slot(agents, slot));
            if k < agents.len() - 1 {
                assert(agents[k].0 < agents[agents.len() - 1].0);
            }
            if takes_part(last.1) {
                assert(after[after.len() - 1] == slot);
            }
        } else {
            if has_slot(agents, slot) {
                let k = slots_before(agents, slot);
                assert(k != agents.len() - 1);
                assert(rest[k].0 == slot);
                assert(has_slot(rest, slot));
                let m = slots_before(rest, slot);
                if m < k {
                    assert(agents[m].0 < agents[k].0);
                } else if k < m {
                    assert(rest[k].0 < slot);
                }
                assert(record_of(rest, slot) == record_of(agents, slot));
            } else {
                if has_slot(rest, slot) {
                    assert(agents[slots_before(rest, slot)].0 == slot);
                }
            }
            if before.contains(slot) {
                let i = choose|i: int| 0 <= i < before.len() && before[i] == slot;
                assert(after[i] == slot);
            }
            if after.contains(slot) {
                let i = choose|i: int| 0 <= i < after.len() && after[i] == slot;
                assert(before[i] == slot);
            }
        }
    }
}

pub proof fn lemma_first_after(slots: Seq<usize>, slot: usize)
    ensures
        match first_after(slots, slot) {
            Some(next) => slots.contains(next) && next > slot,
            None => forall|i: int| 0 <= i < slots.len() ==> slots[i] <= slot,
        },
    decreases slots.len(),
{
    if slots.len() > 0 {
        if slots[0] <= slot {
            let rest = slots.drop_first();
            lemma_first_after(rest, slot);
            match first_after(rest, slot) {
                Some(next) => {
                    let i = choose|i: int| 0 <= i < rest.len() && rest[i] == next;
                    assert(slots[i + 1] == next);
                },
                None => {
                    assert forall|i: int| 0 <= i < slots.len() implies slots[i] <= slot by {
                        if i > 0 {
                            assert(rest[i - 1] == slots[i]);
                        }
                    }
                },
            }
        } else {
            assert(slots[0] == first_after(slots, slot).unwrap());
        }
    }
}

/// The turn goes only to agents that take part: neither a dropped nor a failed agent
/// is ever next.
pub proof fn law_only_active_agents_are_next(agents: Seq<(usize, RecordView)>, slot: usize)
    requires
        in_slot_order(agents),
    ensures
        match next_after(agents, slot) {
            Some(next) => takes_part(record_of(agents, next)),
            None => forall|other: usize| !takes_part(#[trigger] record_of(agents, other)),
        },
{
    reveal(next_after);
    let active = active_slots(agents);
    lemma_first_after(active, slot);
    match next_after(agents, slot) {
        Some(next) => {
            if first_after(active, slot) is None {
                assert(active[0] == next);
            }
            lemma_active(agents, next);
        },
        None => {
            assert forall|other: usize| !takes_part(#[trigger] record_of(agents, other)) by {
                lemma_active(agents, other);
                if takes_part(record_of(agents, other)) {
                    assert(active.contains(other));
                }
            }
        },
    }
}

fn is_among(commands: &Vec<AgentCommand>, command: &AgentCommand) -> (yes: bool)
    ensures
        yes == item_contents(commands@).contains(command@),
{
    let mut i: usize = 0;
    while i < commands.len()
        invariant
            i <= commands@.len(),
            forall|k: int| 0 <= k < i ==> (#[trigger] commands@[k])@ != command@,
        decreases commands@.len() - i,
    {
        if same(commands[i].name.as_str(), command.name.as_str()) {
            assert(item_contents(commands@)[i as int] == command@);
            return true;
        }
        i = i + 1;
    }
    assert forall|k: int| 0 <= k < commands@.len() implies item_contents(commands@)[k] != command@ by {
        assert(item_contents(commands@)[k] == commands@[k]@);
    }
    false
}

impl Roster {
    /// The slots stand in order, and named agents have a state.
    pub closed spec fn wf(&self) -> bool {
        in_slot_order(self.agents@) && named_have_states(self.agents@)
    }

    /// A roster's slots stand in order, each once.
    pub proof fn law_slots_are_in_order(&self)
        requires
            self.wf(),
        ensures
            in_slot_order(self@.agents),
            named_have_states(self@.agents),
    {
    }

    pub fn new() -> (roster: Self)
        ensures
            roster.wf(),
            roster@ == (RosterView {
                agents: Seq::empty(),
                next_agent: None,
                selected_agent: None,
                failed_agent: None,
            }),
    {
        Roster {
            agents: SlotTable::new(),
            next_agent: None,
            selected_agent: None,
            failed_agent: None,
        }
    }

    pub fn set_agent_name(&mut self, slot: usize, name: String)
        requires
            old(self).wf(),
        ensures
            final(self).wf(),
            final(self)@ == renamed(old(self)@, slot, name@),
    {
        proof {
            reveal(renamed);
        }
        let record = self.agents.slot(slot);
        record.name = Some(name);
        if record.state.is_none() {
            record.state = Some(AgentState::Starting);
        }
        if self.next_agent.is_none() {
            self.next_agent = Some(slot);
        }
        proof {
            let agents = old(self)@.agents;
            let before = record_of(agents, slot);
            lemma_put_keeps(
                agents,
                slot,
                RecordView {
                    name: Some(name@),
                    state: if before.state is None {
                        Some(AgentState::Starting)
                    } else {
                        before.state
                    },
                    ..before
                },
            );
        }
    }

    pub fn set_agent_identity(&mut self, slot: usize, identity: String)
        requires
            old(self).wf(),
        ensures
            final(self).wf(),
            final(self)@ == identified(old(self)@, slot, identity@),
    {
        proof {
            reveal(identified);
        }
        let record = self.agents.slot(slot);
        record.identity = Some(identity);
        proof {
            let agents = old(self)@.agents;
            lemma_record_keeps(agents, slot);
            lemma_put_keeps(
                agents,
                slot,
                RecordView { identity: Some(identity@), ..record_of(agents, slot) },
            );
        }
    }

    pub fn agent_identity(&self, slot: usize) -> (identity: Option<&str>)
        requires
            self.wf(),
        ensures
            match identity {
                Some(text) => record_of(self@.agents, slot).identity == Some(text@),
                None => record_of(self@.agents, slot).identity is None,
            },
    {
        match self.agents.get(slot) {
            Some(record) => match &record.identity {
                Some(identity) => Some(identity.as_str()),
                None => None,
            },
            None => None,
        }
    }

    /// The state of a slot's agent.
    pub fn state(&self, slot: usize) -> (state: Option<AgentState>)
        requires
            self.wf(),
        ensures
            state == record_of(self@.agents, slot).state,
    {
        match self.agents.get(slot) {
            Some(record) => record.state,
            None => None,
        }
    }

    /// Whether a slot has a named agent.
    pub fn has_agent(&self, slot: usize) -> (yes: bool)
        requires
            self.wf(),
        ensures
            yes == (record_of(self@.agents, slot).name is Some),
    {
        match self.agents.get(slot) {
            Some(record) => record.name.is_some(),
            None => false,
        }
    }

    /// The first agent that has fallen silent, and for how long.
    pub fn silent_agent(&self, now: u64) -> (silent: Option<(usize, u64)>)
        requires
            self.wf(),
        ensures
            silent == silent_agent(self@.agents, now),
    {
        let mut i: usize = 0;
        assert(self.agents@.skip(0) =~= self.agents@);
        while i < self.agents.len()
            invariant
                self.wf(),
                i <= self.agents@.len(),
                silent_agent(self@.agents, now) == silent_agent(
                    self.agents@.skip(i as int),
                    now,
                ),
            decreases self.agents@.len() - i,
        {
            let ghost rest = self.agents@.skip(i as int);
            assert(rest.drop_first() =~= self.agents@.skip(i + 1));
            let record = self.agents.value_at(i);
            assert(rest[0].1 == record@);
            if let Some(at) = record.last_active {
                if record.turn_started.is_some() && now >= at && now - at >= SILENCE {
                    return Some((self.agents.slot_at(i), now - at));
                }
            }
            i = i + 1;
        }
        None
    }

    /// When the turn of a slot's agent began.
    pub fn turn_started(&self, slot: usize) -> (started: Option<u64>)
        requires
            self.wf(),
        ensures
            started == record_of(self@.agents, slot).turn_started,
    {
        match self.agents.get(slot) {
            Some(record) => record.turn_started,
            None => None,
        }
    }

    /// How many tools a slot's agent called in its turn.
    pub fn tool_count(&self, slot: usize) -> (count: usize)
        requires
            self.wf(),
        ensures
            count == record_of(self@.agents, slot).tool_calls.len(),
    {
        match self.agents.get(slot) {
            Some(record) => record.tool_calls.len(),
            None => 0,
        }
    }

    pub fn agent_usage(&self, slot: usize) -> (usage: Option<UsageUpdate>)
        requires
            self.wf(),
        ensures
            usage == record_of(self@.agents, slot).usage,
    {
        match self.agents.get(slot) {
            Some(record) => record.usage,
            None => None,
        }
    }

    pub fn set_state(&mut self, slot: usize, state: AgentState)
        requires
            old(self).wf(),
        ensures
            final(self).wf(),
            final(self)@ == in_state(old(self)@, slot, state),
    {
        proof {
            reveal(in_state);
        }
        let record = self.agents.slot(slot);
        record.state = Some(state);
        proof {
            let agents = old(self)@.agents;
            lemma_put_keeps(
                agents,
                slot,
                RecordView { state: Some(state), ..record_of(agents, slot) },
            );
        }
    }

    /// The slots whose agents take part, in order.
    pub fn active_roster_slots(&self) -> (slots: Vec<usize>)
        ensures
            slots@ == active_slots(self@.agents),
    {
        let mut slots: Vec<usize> = Vec::new();
        let mut i: usize = 0;
        assert(self.agents@.take(0) =~= Seq::empty());
        while i < self.agents.len()
            invariant
                i <= self.agents@.len(),
                slots@ == active_slots(self.agents@.take(i as int)),
            decreases self.agents@.len() - i,
        {
            let record = self.agents.value_at(i);
            let ghost upper = self.agents@.take(i + 1);
            assert(upper.drop_last() =~= self.agents@.take(i as int));
            let away = match record.state {
                Some(AgentState::Dropped) => true,
                Some(AgentState::Error) => true,
                _ => false,
            };
            if record.name.is_some() && !away {
                slots.push(self.agents.slot_at(i));
            }
            i = i + 1;
        }
        assert(self.agents@.take(i as int) =~= self.agents@);
        slots
    }

    /// The slots whose agents were not dropped, in order.
    pub fn shown_roster_slots(&self) -> (slots: Vec<usize>)
        ensures
            slots@ == shown_slots(self@.agents),
    {
        let mut slots: Vec<usize> = Vec::new();
        let mut i: usize = 0;
        assert(self.agents@.take(0) =~= Seq::empty());
        while i < self.agents.len()
            invariant
                i <= self.agents@.len(),
                slots@ == shown_slots(self.agents@.take(i as int)),
            decreases self.agents@.len() - i,
        {
            let record = self.agents.value_at(i);
            let ghost upper = self.agents@.take(i + 1);
            assert(upper.drop_last() =~= self.agents@.take(i as int));
            let away = match record.state {
                Some(AgentState::Dropped) => true,
                _ => false,
            };
            if record.name.is_some() && !away {
                slots.push(self.agents.slot_at(i));
            }
            i = i + 1;
        }
        assert(self.agents@.take(i as int) =~= self.agents@);
        slots
    }

    /// The slots that have a named agent, in order.
    pub fn named_roster_slots(&self) -> (slots: Vec<usize>)
        ensures
            slots@ == named_slots(self@.agents),
    {
        let mut slots: Vec<usize> = Vec::new();
        let mut i: usize = 0;
        assert(self.agents@.take(0) =~= Seq::empty());
        while i < self.agents.len()
            invariant
                i <= self.agents@.len(),
                slots@ == named_slots(self.agents@.take(i as int)),
            decreases self.agents@.len() - i,
        {
            let record = self.agents.value_at(i);
            let ghost upper = self.agents@.take(i + 1);
            assert(upper.drop_last() =~= self.agents@.take(i as int));
            if record.name.is_some() {
                slots.push(self.agents.slot_at(i));
            }
            i = i + 1;
        }
        assert(self.agents@.take(i as int) =~= self.agents@);
        slots
    }

    /// The slot whose turn it is after a slot.
    pub fn next_roster_slot_after(&self, slot: usize) -> (next: Option<usize>)
        ensures
            next == next_after(self@.agents, slot),
    {
        proof {
            reveal(next_after);
        }
        let active = self.active_roster_slots();
        let mut i: usize = 0;
        assert(active@.skip(0) =~= active@);
        while i < active.len() && active[i] <= slot
            invariant
                i <= active@.len(),
                first_after(active@, slot) == first_after(active@.skip(i as int), slot),
            decreases active@.len() - i,
        {
            assert(active@.skip(i as int).drop_first() =~= active@.skip(i + 1));
            assert(active@.skip(i as int)[0] == active@[i as int]);
            i = i + 1;
        }
        if i < active.len() {
            assert(active@.skip(i as int)[0] == active@[i as int]);
            Some(active[i])
        } else if active.len() > 0 {
            Some(active[0])
        } else {
            None
        }
    }

    fn pass_on(&mut self, slot: usize)
        requires
            old(self).wf(),
        ensures
            final(self).wf(),
            final(self)@ == passed_on(old(self)@, slot),
    {
        proof {
            reveal(passed_on);
        }
        let current = match self.next_agent {
            Some(next) => next == slot,
            None => false,
        };
        if current {
            self.next_agent = self.next_roster_slot_after(slot);
        }
    }

    /// Removes an agent that failed before it became visible. Says whether there was one.
    pub fn remove_agent(&mut self, slot: usize) -> (found: bool)
        requires
            old(self).wf(),
        ensures
            final(self).wf(),
            final(self)@ == removed(old(self)@, slot),
            found == (record_of(old(self)@.agents, slot).name is Some),
    {
        proof {
            reveal(removed);
        }
        let found = self.has_agent(slot);
        *self.agents.slot(slot) = AgentRecord::blank();
        proof {
            lemma_put_keeps(old(self)@.agents, slot, no_record());
        }
        self.pass_on(slot);
        found
    }

    /// Moves a roster member, with everything that is its own, to the first slot.
    pub fn promote_agent(&mut self, slot: usize) -> (done: bool)
        requires
            old(self).wf(),
        ensures
            final(self).wf(),
            done == can_promote(old(self)@, slot),
            final(self)@ == (if done {
                promoted(old(self)@, slot)
            } else {
                old(self)@
            }),
    {
        proof {
            reveal(promoted);
        }
        let away = match self.state(slot) {
            Some(AgentState::Dropped) => true,
            _ => false,
        };
        if slot == 0 || !self.has_agent(slot) || away {
            return false;
        }
        let ghost agents = self@.agents;
        let ghost agent_view = record_of(agents, slot);
        let ghost owner_view = record_of(agents, 0);
        let mut agent = AgentRecord::blank();
        std::mem::swap(&mut agent, self.agents.slot(slot));
        let ghost one = self.agents@;
        let mut owner = AgentRecord::blank();
        std::mem::swap(&mut owner, self.agents.slot(0));
        let ghost two = self.agents@;
        *self.agents.slot(0) = agent;
        let ghost three = self.agents@;
        let record = self.agents.slot(slot);
        record.name = owner.name;
        record.state = Some(AgentState::Dropped);
        let moved = match self.next_agent {
            Some(next) => next == slot,
            None => false,
        };
        if moved {
            self.next_agent = Some(0);
        }
        proof {
            law_put_then_lookup(agents, slot, no_record(), 0);
            law_put_then_lookup(agents, slot, no_record(), slot);
            law_put_then_lookup(one, 0, no_record(), slot);
            law_put_then_lookup(two, 0, agent_view, slot);
            let left = RecordView {
                name: owner_view.name,
                state: Some(AgentState::Dropped),
                ..no_record()
            };
            assert(self.agents@ == put(three, slot, left));
            let goal = put(put(agents, 0, agent_view), slot, left);
            lemma_record_keeps(agents, slot);
            lemma_put_keeps(agents, 0, agent_view);
            lemma_put_keeps(put(agents, 0, agent_view), slot, left);
            law_put_then_lookup(three, slot, left, slot);
            assert forall|other: usize| #[trigger] lookup(self.agents@, other) == lookup(
                goal,
                other,
            ) by {
                law_put_then_lookup(agents, slot, no_record(), other);
                law_put_then_lookup(one, 0, no_record(), other);
                law_put_then_lookup(two, 0, agent_view, other);
                law_put_then_lookup(three, slot, left, other);
                law_put_then_lookup(agents, 0, agent_view, other);
                law_put_then_lookup(put(agents, 0, agent_view), slot, left, other);
            }
            law_tables_are_their_slots(self.agents@, goal);
        }
        true
    }

    /// Lets two roster members change places, with everything that is their own.
    pub fn swap_agents(&mut self, first: usize, second: usize) -> (done: bool)
        requires
            old(self).wf(),
        ensures
            final(self).wf(),
            done == can_swap(old(self)@, first, second),
            final(self)@ == (if done {
                swapped(old(self)@, first, second)
            } else {
                old(self)@
            }),
    {
        proof {
            reveal(swapped);
        }
        let first_away = match self.state(first) {
            Some(AgentState::Dropped) => true,
            _ => false,
        };
        let second_away = match self.state(second) {
            Some(AgentState::Dropped) => true,
            _ => false,
        };
        if first == second || !self.has_agent(first) || !self.has_agent(second) || first_away
            || second_away {
            return false;
        }
        let ghost agents = self@.agents;
        let ghost a = record_of(agents, first);
        let ghost b = record_of(agents, second);
        let mut record = AgentRecord::blank();
        std::mem::swap(&mut record, self.agents.slot(first));
        let ghost one = self.agents@;
        std::mem::swap(&mut record, self.agents.slot(second));
        let ghost two = self.agents@;
        *self.agents.slot(first) = record;
        proof {
            law_put_then_lookup(agents, first, no_record(), second);
            law_put_then_lookup(one, second, a, first);
            let goal = put(put(agents, first, b), second, a);
            lemma_record_keeps(agents, first);
            lemma_record_keeps(agents, second);
            lemma_put_keeps(agents, first, b);
            lemma_put_keeps(put(agents, first, b), second, a);
            law_put_then_lookup(two, first, b, first);
            assert forall|other: usize| #[trigger] lookup(self.agents@, other) == lookup(
                goal,
                other,
            ) by {
                law_put_then_lookup(agents, first, no_record(), other);
                law_put_then_lookup(one, second, a, other);
                law_put_then_lookup(two, first, b, other);
                law_put_then_lookup(agents, first, b, other);
                law_put_then_lookup(put(agents, first, b), second, a, other);
            }
            law_tables_are_their_slots(self.agents@, goal);
        }
        self.next_agent = exchange(self.next_agent, first, second);
        self.selected_agent = exchange(self.selected_agent, first, second);
        self.failed_agent = exchange(self.failed_agent, first, second);
        true
    }

    pub fn agent_reloaded(&mut self, slot: usize)
        requires
            old(self).wf(),
        ensures
            final(self).wf(),
            final(self)@ == reloaded(old(self)@, slot),
    {
        proof {
            reveal(reloaded);
        }
        self.failed_agent = None;
        let record = self.agents.slot(slot);
        record.turn_started = None;
        record.tool_calls = Vec::new();
        record.state = Some(AgentState::Starting);
        proof {
            let agents = old(self)@.agents;
            assert(strings(Seq::<String>::empty()) =~= Seq::<Seq<char>>::empty());
            lemma_put_keeps(
                agents,
                slot,
                RecordView {
                    state: Some(AgentState::Starting),
                    turn_started: None,
                    tool_calls: Seq::empty(),
                    ..record_of(agents, slot)
                },
            );
        }
    }

    pub fn agent_dropped(&mut self, slot: usize)
        requires
            old(self).wf(),
        ensures
            final(self).wf(),
            final(self)@ == dropped(old(self)@, slot),
    {
        proof {
            reveal(dropped);
        }
        let failed = match self.failed_agent {
            Some(failed) => failed == slot,
            None => false,
        };
        if failed {
            self.failed_agent = None;
        }
        let record = self.agents.slot(slot);
        record.state = Some(AgentState::Dropped);
        record.modes = None;
        record.models = None;
        record.commands = None;
        record.usage = None;
        record.turn_started = None;
        record.last_active = None;
        record.tool_calls = Vec::new();
        proof {
            let agents = old(self)@.agents;
            let before = record_of(agents, slot);
            assert(strings(Seq::<String>::empty()) =~= Seq::<Seq<char>>::empty());
            lemma_put_keeps(
                agents,
                slot,
                RecordView {
                    name: before.name,
                    identity: before.identity,
                    state: Some(AgentState::Dropped),
                    ..no_record()
                },
            );
        }
        self.pass_on(slot);
    }

    pub fn begin_turn(&mut self, slot: usize, now: u64)
        requires
            old(self).wf(),
        ensures
            final(self).wf(),
            final(self)@ == turn_begun(old(self)@, slot, now),
    {
        proof {
            reveal(turn_begun);
        }
        self.next_agent = Some(slot);
        let record = self.agents.slot(slot);
        if record.turn_started.is_none() {
            record.turn_started = Some(now);
        }
        record.last_active = Some(now);
        proof {
            let agents = old(self)@.agents;
            let before = record_of(agents, slot);
            lemma_record_keeps(agents, slot);
            lemma_put_keeps(
                agents,
                slot,
                RecordView {
                    turn_started: if before.turn_started is None {
                        Some(now)
                    } else {
                        before.turn_started
                    },
                    last_active: Some(now),
                    ..before
                },
            );
        }
    }

    pub fn end_turn(&mut self, slot: usize)
        requires
            old(self).wf(),
        ensures
            final(self).wf(),
            final(self)@ == turn_ended(old(self)@, slot),
    {
        proof {
            reveal(turn_ended);
        }
        let record = self.agents.slot(slot);
        record.turn_started = None;
        record.tool_calls = Vec::new();
        proof {
            let agents = old(self)@.agents;
            assert(strings(Seq::<String>::empty()) =~= Seq::<Seq<char>>::empty());
            lemma_record_keeps(agents, slot);
            lemma_put_keeps(
                agents,
                slot,
                RecordView {
                    turn_started: None,
                    tool_calls: Seq::empty(),
                    ..record_of(agents, slot)
                },
            );
        }
    }

    /// An agent failed: its turn is over, and passes on.
    pub fn agent_failed(&mut self, slot: usize)
        requires
            old(self).wf(),
        ensures
            final(self).wf(),
            final(self)@ == broken(old(self)@, slot),
    {
        self.end_turn(slot);
        self.set_state(slot, AgentState::Error);
        self.pass_on(slot);
        self.failed_agent = Some(slot);
    }

    /// An agent's turn is completed, and passes on.
    pub fn turn_completed(&mut self, slot: usize)
        requires
            old(self).wf(),
        ensures
            final(self).wf(),
            final(self)@ == completed(old(self)@, slot),
    {
        self.end_turn(slot);
        self.set_state(slot, AgentState::Ready);
        self.next_agent = self.next_roster_slot_after(slot);
    }

    /// Ends all the turns that run.
    pub fn end_all_turns(&mut self)
        requires
            old(self).wf(),
        ensures
            final(self).wf(),
            final(self)@ == (RosterView { agents: at_rest(old(self)@.agents), ..old(self)@ }),
    {
        let ghost before = self.agents@;
        let ghost goal = at_rest(before);
        let count: usize = self.agents.len();
        let mut i: usize = 0;
        while i < count
            invariant
                i <= count,
                count == before.len(),
                goal == at_rest(before),
                in_slot_order(before),
                named_have_states(before),
                self@ == (RosterView { agents: self.agents@, ..old(self)@ }),
                self.agents@ == goal.take(i as int) + before.skip(i as int),
                in_slot_order(self.agents@),
            decreases count - i,
        {
            let slot: usize = self.agents.slot_at(i);
            let ghost held = self.agents@;
            assert(held[i as int] == before[i as int]);
            proof {
                lemma_slots_before(held, slot);
                lemma_lookup(held, slot);
                assert(has_slot(held, slot));
                let k = slots_before(held, slot);
                if k < i {
                    assert(held[k].0 < held[i as int].0);
                } else if k > i {
                    assert(held[i as int].0 < slot);
                }
            }
            let record = self.agents.slot(slot);
            record.turn_started = None;
            record.tool_calls = Vec::new();
            let working = match record.state {
                Some(AgentState::Working) => true,
                _ => false,
            };
            if working {
                record.state = Some(AgentState::Ready);
            }
            proof {
                reveal(put);
                assert(strings(Seq::<String>::empty()) =~= Seq::<Seq<char>>::empty());
                assert(self.agents@ =~= held.update(i as int, goal[i as int]));
                assert(self.agents@ =~= goal.take(i + 1) + before.skip(i + 1));
            }
            i = i + 1;
        }
        proof {
            assert(self.agents@ =~= goal);
            assert(named_have_states(goal)) by {
                assert forall|k: int| 0 <= k < goal.len() implies ((
                #[trigger] goal[k]).1.name is Some ==> goal[k].1.state is Some) by {
                    assert(before[k].1.name is Some ==> before[k].1.state is Some);
                }
            }
        }
    }

    /// How an agent is called: agents of the same name are numbered.
    pub fn agent_name(&self, slot: usize) -> (called: String)
        requires
            self.wf(),
        ensures
            called@ == name_of(self@.agents, slot),
    {
        let name = match self.agents.get(slot) {
            Some(record) => match &record.name {
                Some(name) => name.clone(),
                None => unnamed(slot),
            },
            None => unnamed(slot),
        };
        reveal(name_of);
        assert(name@ == given_name(self@.agents, slot));
        let mut all: Vec<usize> = Vec::new();
        let mut i: usize = 0;
        assert(self.agents@.take(0) =~= Seq::empty());
        while i < self.agents.len()
            invariant
                i <= self.agents@.len(),
                all@ == slots_named(self.agents@.take(i as int), name@),
            decreases self.agents@.len() - i,
        {
            let record = self.agents.value_at(i);
            assert(self.agents@.take(i + 1).drop_last() =~= self.agents@.take(i as int));
            let found = match &record.name {
                Some(other) => *other == name,
                None => false,
            };
            if found {
                all.push(self.agents.slot_at(i));
            }
            i = i + 1;
        }
        assert(self.agents@.take(i as int) =~= self.agents@);
        if all.len() <= 1 {
            return name;
        }
        let mut place: usize = 0;
        assert(all@.skip(0) =~= all@);
        while place < all.len() && all[place] != slot
            invariant
                place <= all@.len(),
                place_in(all@, slot) == (match place_in(all@.skip(place as int), slot) {
                    Some(k) => Some(k + place),
                    None => None,
                }),
            decreases all@.len() - place,
        {
            assert(all@.skip(place as int).drop_first() =~= all@.skip(place + 1));
            assert(all@.skip(place as int)[0] == all@[place as int]);
            place = place + 1;
        }
        let number: usize = if place < all.len() {
            assert(all@.skip(place as int)[0] == all@[place as int]);
            place + 1
        } else {
            slot
        };
        let mut text = to_chars(name.as_str());
        append_text(&mut text, " #");
        append_decimal(&mut text, number as u64);
        to_text(&text)
    }

    /// How many agents the roster has.
    pub fn agent_count(&self) -> (count: usize)
        ensures
            count == named_slots(self@.agents).len(),
    {
        self.named_roster_slots().len()
    }

    /// The names that the agents were given, by slot.
    pub fn raw_agent_names(&self) -> (names: Vec<String>)
        ensures
            strings(names@) == given_names(self@.agents),
    {
        broadcast use crate::text::lemma_strings_push;

        let mut names: Vec<String> = Vec::new();
        let mut i: usize = 0;
        assert(self.agents@.take(0) =~= Seq::empty());
        assert(strings(names@) =~= Seq::empty());
        while i < self.agents.len()
            invariant
                i <= self.agents@.len(),
                strings(names@) == given_names(self.agents@.take(i as int)),
            decreases self.agents@.len() - i,
        {
            assert(self.agents@.take(i + 1).drop_last() =~= self.agents@.take(i as int));
            match &self.agents.value_at(i).name {
                Some(name) => {
                    names.push(name.clone());
                },
                None => {},
            }
            i = i + 1;
        }
        assert(self.agents@.take(i as int) =~= self.agents@);
        names
    }

    /// A bounded, stable roster label for the status line.
    pub fn roster_summary(&self) -> (summary: String)
        requires
            self.wf(),
        ensures
            summary@ == compact(join(called(self@.agents), " · "@), 42),
    {
        let slots = self.named_roster_slots();
        let mut names: Vec<Vec<char>> = Vec::new();
        let mut i: usize = 0;
        while i < slots.len()
            invariant
                self.wf(),
                i <= slots@.len(),
                slots@ == named_slots(self@.agents),
                names@.len() == i,
                forall|j: int| 0 <= j < i ==> (#[trigger] names@[j])@ == called(self@.agents)[j],
            decreases slots@.len() - i,
        {
            names.push(to_chars(self.agent_name(slots[i]).as_str()));
            i = i + 1;
        }
        assert(contents(names@) =~= called(self@.agents));
        compact_label(to_text(&joined(&names, " · ")).as_str(), 42)
    }

    /// The agents with what they are doing.
    pub fn active_agents_summary(&self) -> (summary: String)
        requires
            self.wf(),
        ensures
            summary@ == compact(join(agent_statuses(self@.agents), "   "@), 80),
    {
        let slots = self.named_roster_slots();
        let mut parts: Vec<Vec<char>> = Vec::new();
        let mut i: usize = 0;
        while i < slots.len()
            invariant
                self.wf(),
                i <= slots@.len(),
                slots@ == named_slots(self@.agents),
                parts@.len() == i,
                forall|j: int|
                    0 <= j < i ==> (#[trigger] parts@[j])@ == agent_statuses(self@.agents)[j],
            decreases slots@.len() - i,
        {
            let state = self.shown_state(slots[i]);
            let mut part = if state == AgentState::Working {
                to_chars("●")
            } else {
                to_chars("○")
            };
            append_text(&mut part, " ");
            append_text(&mut part, self.agent_name(slots[i]).as_str());
            append_text(&mut part, " · ");
            append_text(&mut part, state.as_str());
            parts.push(part);
            i = i + 1;
        }
        assert(contents(parts@) =~= agent_statuses(self@.agents));
        compact_label(to_text(&joined(&parts, "   ")).as_str(), 80)
    }

    /// The state that is shown for a slot's agent.
    pub fn shown_state(&self, slot: usize) -> (state: AgentState)
        requires
            self.wf(),
        ensures
            state == shown_state(record_of(self@.agents, slot)),
    {
        match self.state(slot) {
            Some(state) => state,
            None => AgentState::Starting,
        }
    }

    /// The agent that failed and was not dealt with.
    pub fn failed_agent(&self) -> (slot: Option<usize>)
        requires
            self.wf(),
        ensures
            slot == failed_slot(self@),
    {
        if let Some(slot) = self.failed_agent {
            let failed = match self.state(slot) {
                Some(AgentState::Error) => true,
                _ => false,
            };
            if failed {
                return Some(slot);
            }
        }
        let mut i: usize = 0;
        assert(self.agents@.skip(0) =~= self.agents@);
        while i < self.agents.len()
            invariant
                i <= self.agents@.len(),
                first_failed(self.agents@) == first_failed(self.agents@.skip(i as int)),
                failed_slot(self@) == first_failed(self.agents@),
            decreases self.agents@.len() - i,
        {
            assert(self.agents@.skip(i as int).drop_first() =~= self.agents@.skip(i + 1));
            assert(self.agents@.skip(i as int)[0] == self.agents@[i as int]);
            let failed = match self.agents.value_at(i).state {
                Some(AgentState::Error) => true,
                _ => false,
            };
            if failed {
                return Some(self.agents.slot_at(i));
            }
            i = i + 1;
        }
        None
    }

    /// The first slot whose agent was given a name.
    pub fn slot_given(&self, name: &str) -> (slot: Option<usize>)
        ensures
            slot == first_given(self@.agents, name@),
    {
        let mut i: usize = 0;
        assert(self.agents@.skip(0) =~= self.agents@);
        while i < self.agents.len()
            invariant
                i <= self.agents@.len(),
                first_given(self@.agents, name@) == first_given(
                    self.agents@.skip(i as int),
                    name@,
                ),
            decreases self.agents@.len() - i,
        {
            assert(self.agents@.skip(i as int).drop_first() =~= self.agents@.skip(i + 1));
            assert(self.agents@.skip(i as int)[0] == self.agents@[i as int]);
            let found = match &self.agents.value_at(i).name {
                Some(other) => same(other.as_str(), name),
                None => false,
            };
            if found {
                return Some(self.agents.slot_at(i));
            }
            i = i + 1;
        }
        None
    }

    pub fn set_failed(&mut self, slot: Option<usize>)
        requires
            old(self).wf(),
        ensures
            final(self).wf(),
            final(self)@ == (RosterView { failed_agent: slot, ..old(self)@ }),
    {
        self.failed_agent = slot;
    }

    pub fn set_selected(&mut self, slot: Option<usize>)
        requires
            old(self).wf(),
        ensures
            final(self).wf(),
            final(self)@ == (RosterView { selected_agent: slot, ..old(self)@ }),
    {
        self.selected_agent = slot;
    }

    /// Who failed last, if it was not forgotten.
    pub fn last_failed(&self) -> (slot: Option<usize>)
        ensures
            slot == self@.failed_agent,
    {
        self.failed_agent
    }

    /// Whose turn it is.
    pub fn next_agent(&self) -> (slot: Option<usize>)
        ensures
            slot == self@.next_agent,
    {
        self.next_agent
    }

    /// Who receives the next prompt: the agent that was picked, or whose turn it is.
    pub fn next_agent_slot(&self) -> (slot: Option<usize>)
        ensures
            slot == recipient(self@),
    {
        if self.selected_agent.is_some() {
            self.selected_agent
        } else {
            self.next_agent
        }
    }

    pub fn set_modes(&mut self, slot: usize, modes: Vec<Mode>, current: Option<String>)
        requires
            old(self).wf(),
        ensures
            final(self).wf(),
            final(self)@ == with_record(
                old(self)@,
                slot,
                RecordView {
                    modes: Some((item_contents(modes@), optional(current))),
                    ..record_of(old(self)@.agents, slot)
                },
            ),
    {
        let record = self.agents.slot(slot);
        record.modes = Some((modes, current));
        proof {
            let agents = old(self)@.agents;
            lemma_record_keeps(agents, slot);
            lemma_put_keeps(
                agents,
                slot,
                RecordView {
                    modes: Some((item_contents(modes@), optional(current))),
                    ..record_of(agents, slot)
                },
            );
        }
    }

    pub fn set_models(&mut self, slot: usize, models: Vec<String>, current: Option<String>)
        requires
            old(self).wf(),
        ensures
            final(self).wf(),
            final(self)@ == with_record(
                old(self)@,
                slot,
                RecordView {
                    models: Some((strings(models@), optional(current))),
                    ..record_of(old(self)@.agents, slot)
                },
            ),
    {
        let record = self.agents.slot(slot);
        record.models = Some((models, current));
        proof {
            let agents = old(self)@.agents;
            lemma_record_keeps(agents, slot);
            lemma_put_keeps(
                agents,
                slot,
                RecordView {
                    models: Some((strings(models@), optional(current))),
                    ..record_of(agents, slot)
                },
            );
        }
    }

    /// The models that a slot's agent takes, and the one it uses; none where it told none.
    pub fn models(&self, slot: usize) -> (known: (Vec<String>, Option<String>))
        requires
            self.wf(),
        ensures
            (strings(known.0@), optional(known.1)) == known_models(self@.agents, slot),
    {
        match self.agents.get(slot) {
            Some(record) => match &record.models {
                Some((models, current)) => {
                    return (copy_strings(models), copy_optional(current));
                },
                None => {},
            },
            None => {},
        }
        let none: Vec<String> = Vec::new();
        assert(strings(none@) =~= Seq::<Seq<char>>::empty());
        (none, None)
    }

    /// The modes that a slot's agent offers, none where it offered none.
    pub fn modes(&self, slot: usize) -> (modes: Vec<Mode>)
        requires
            self.wf(),
        ensures
            item_contents(modes@) == (match record_of(self@.agents, slot).modes {
                Some((modes, current)) => modes,
                None => Seq::empty(),
            }),
    {
        match self.agents.get(slot) {
            Some(record) => match &record.modes {
                Some((modes, current)) => {
                    return copy_modes(modes);
                },
                None => {},
            },
            None => {},
        }
        let none: Vec<Mode> = Vec::new();
        assert(item_contents(none@) =~= Seq::empty());
        none
    }

    pub fn set_commands(&mut self, slot: usize, commands: Vec<AgentCommand>)
        requires
            old(self).wf(),
        ensures
            final(self).wf(),
            final(self)@ == with_record(
                old(self)@,
                slot,
                RecordView {
                    commands: Some(item_contents(commands@)),
                    ..record_of(old(self)@.agents, slot)
                },
            ),
    {
        let record = self.agents.slot(slot);
        record.commands = Some(commands);
        proof {
            let agents = old(self)@.agents;
            lemma_record_keeps(agents, slot);
            lemma_put_keeps(
                agents,
                slot,
                RecordView {
                    commands: Some(item_contents(commands@)),
                    ..record_of(agents, slot)
                },
            );
        }
    }

    pub fn set_usage(&mut self, slot: usize, usage: UsageUpdate)
        requires
            old(self).wf(),
        ensures
            final(self).wf(),
            final(self)@ == with_record(
                old(self)@,
                slot,
                RecordView { usage: Some(usage), ..record_of(old(self)@.agents, slot) },
            ),
    {
        let record = self.agents.slot(slot);
        record.usage = Some(usage);
        proof {
            let agents = old(self)@.agents;
            lemma_record_keeps(agents, slot);
            lemma_put_keeps(
                agents,
                slot,
                RecordView { usage: Some(usage), ..record_of(agents, slot) },
            );
        }
    }

    /// Counts a tool call of an agent, each once.
    pub fn note_tool(&mut self, slot: usize, id: &str)
        requires
            old(self).wf(),
        ensures
            final(self).wf(),
            final(self)@ == with_record(
                old(self)@,
                slot,
                RecordView {
                    tool_calls: with_tool(record_of(old(self)@.agents, slot).tool_calls, id@),
                    ..record_of(old(self)@.agents, slot)
                },
            ),
    {
        broadcast use crate::text::lemma_strings_push;

        let record = self.agents.slot(slot);
        if !listed(&record.tool_calls, id) {
            record.tool_calls.push(id.to_owned());
        }
        proof {
            let agents = old(self)@.agents;
            lemma_record_keeps(agents, slot);
            lemma_put_keeps(
                agents,
                slot,
                RecordView {
                    tool_calls: with_tool(record_of(agents, slot).tool_calls, id@),
                    ..record_of(agents, slot)
                },
            );
        }
    }

    /// The commands that agents advertise, each once, in the order of the slots.
    pub fn agent_commands(&self) -> (commands: Vec<AgentCommand>)
        ensures
            item_contents(commands@) == each_once(all_commands(self@.agents)),
    {
        let all = self.advertised();
        let ghost names = item_contents(all@);
        let mut commands: Vec<AgentCommand> = Vec::new();
        let mut i: usize = 0;
        assert(names.take(0) =~= Seq::empty());
        assert(item_contents(commands@) =~= each_once(names.take(0)));
        while i < all.len()
            invariant
                i <= all@.len(),
                names == item_contents(all@),
                item_contents(commands@) == each_once(names.take(i as int)),
            decreases all@.len() - i,
        {
            assert(names.take(i + 1).drop_last() =~= names.take(i as int));
            assert(names.take(i + 1).last() == all@[i as int]@);
            proof {
                lemma_each_once(names.take(i as int));
            }
            let ghost held = commands@;
            if !is_among(&commands, &all[i]) {
                let copy = AgentCommand { name: all[i].name.clone() };
                commands.push(copy);
                assert(item_contents(commands@) =~= item_contents(held).push(copy@));
            }
            i = i + 1;
        }
        assert(names.take(i as int) =~= names);
        commands
    }

    /// All the commands that agents advertise, by slot.
    fn advertised(&self) -> (commands: Vec<AgentCommand>)
        ensures
            item_contents(commands@) == all_commands(self@.agents),
    {
        let mut commands: Vec<AgentCommand> = Vec::new();
        let mut i: usize = 0;
        assert(self.agents@.take(0) =~= Seq::empty());
        assert(item_contents(commands@) =~= Seq::empty());
        while i < self.agents.len()
            invariant
                i <= self.agents@.len(),
                item_contents(commands@) == all_commands(self.agents@.take(i as int)),
            decreases self.agents@.len() - i,
        {
            assert(self.agents@.take(i + 1).drop_last() =~= self.agents@.take(i as int));
            let ghost before = item_contents(commands@);
            match &self.agents.value_at(i).commands {
                Some(list) => {
                    let mut copy = crate::events::copy_commands(list);
                    let ghost more = copy@;
                    let ghost held = commands@;
                    commands.append(&mut copy);
                    assert(item_contents(held + more) =~= before + item_contents(more));
                },
                None => {
                    assert(before + Seq::<Seq<char>>::empty() =~= before);
                },
            }
            i = i + 1;
        }
        assert(self.agents@.take(i as int) =~= self.agents@);
        commands
    }

    /// Whether an agent advertises the command that was typed.
    pub fn is_agent_command(&self, command: &str) -> (yes: bool)
        ensures
            yes == advertises(all_commands(self@.agents), command@),
    {
        let commands = self.advertised();
        let mut yes = false;
        let mut i: usize = 0;
        let ghost all = item_contents(commands@);
        assert(all.take(0) =~= Seq::empty());
        while i < commands.len()
            invariant
                i <= commands@.len(),
                all == item_contents(commands@),
                yes == advertises(all.take(i as int), command@),
            decreases commands@.len() - i,
        {
            assert(all.take(i + 1).drop_last() =~= all.take(i as int));
            assert(all.take(i + 1).last() == commands@[i as int]@);
            let typed = with_slash(trimmed_text(commands[i].name.as_str()));
            if eq_ignore_case(typed.as_str(), command) {
                yes = true;
            }
            i = i + 1;
        }
        assert(all.take(i as int) =~= all);
        yes
    }

    /// The candidates for completion: a base list, and the commands of the agents.
    pub fn completions(&self, base: Vec<String>) -> (candidates: Vec<String>)
        ensures
            strings(candidates@) == with_commands(strings(base@), all_commands(self@.agents)),
    {
        broadcast use crate::text::lemma_strings_push;

        let commands = self.advertised();
        let ghost start = strings(base@);
        let ghost all = item_contents(commands@);
        let mut candidates = base;
        let mut i: usize = 0;
        assert(all.take(0) =~= Seq::empty());
        while i < commands.len()
            invariant
                i <= commands@.len(),
                all == item_contents(commands@),
                strings(candidates@) == with_commands(start, all.take(i as int)),
            decreases commands@.len() - i,
        {
            assert(all.take(i + 1).drop_last() =~= all.take(i as int));
            assert(all.take(i + 1).last() == commands@[i as int]@);
            let name = trimmed_text(commands[i].name.as_str());
            if name.as_str().unicode_len() > 0 {
                let typed = with_slash(name);
                if !listed(&candidates, typed.as_str()) {
                    candidates.push(typed);
                }
            }
            i = i + 1;
        }
        assert(all.take(i as int) =~= all);
        candidates
    }

    /// Whether an agent that takes part is still starting.
    pub fn any_starting(&self) -> (yes: bool)
        ensures
            yes == any_starting(self@.agents),
    {
        let mut i: usize = 0;
        while i < self.agents.len()
            invariant
                i <= self.agents@.len(),
                forall|j: int|
                    0 <= j < i ==> !(takes_part((#[trigger] self.agents@[j]).1) && shown_state(
                        self.agents@[j].1,
                    ) == AgentState::Starting),
            decreases self.agents@.len() - i,
        {
            let record = self.agents.value_at(i);
            let starting = match record.state {
                None => true,
                Some(AgentState::Starting) => true,
                _ => false,
            };
            if record.name.is_some() && starting {
                assert(takes_part(self.agents@[i as int].1));
                return true;
            }
            i = i + 1;
        }
        false
    }

    /// The modes of the agents that take part, by slot, each with the one it is in.
    pub fn current_modes(&self) -> (sets: Vec<(Vec<Mode>, Option<String>)>)
        ensures
            sets@.len() == current_modes(self@.agents).len(),
            forall|i: int|
                0 <= i < sets@.len() ==> (
                    item_contents((#[trigger] sets@[i]).0@),
                    optional(sets@[i].1),
                ) == current_modes(self@.agents)[i],
    {
        let mut sets: Vec<(Vec<Mode>, Option<String>)> = Vec::new();
        let mut i: usize = 0;
        assert(self.agents@.take(0) =~= Seq::empty());
        while i < self.agents.len()
            invariant
                i <= self.agents@.len(),
                sets@.len() == current_modes(self.agents@.take(i as int)).len(),
                forall|j: int|
                    0 <= j < sets@.len() ==> (
                        item_contents((#[trigger] sets@[j]).0@),
                        optional(sets@[j].1),
                    ) == current_modes(self.agents@.take(i as int))[j],
            decreases self.agents@.len() - i,
        {
            assert(self.agents@.take(i + 1).drop_last() =~= self.agents@.take(i as int));
            let record = self.agents.value_at(i);
            let away = match record.state {
                Some(AgentState::Dropped) => true,
                Some(AgentState::Error) => true,
                _ => false,
            };
            match &record.modes {
                Some((modes, current)) => {
                    if record.name.is_some() && !away {
                        sets.push((copy_modes(modes), copy_optional(current)));
                    }
                },
                None => {},
            }
            i = i + 1;
        }
        assert(self.agents@.take(i as int) =~= self.agents@);
        sets
    }

    /// The modes that the agents offer, by slot, without those of dropped or failed agents.
    pub fn offered_modes(&self) -> (sets: Vec<Vec<Mode>>)
        ensures
            sets@.len() == offered_modes(self@.agents).len(),
            forall|i: int|
                0 <= i < sets@.len() ==> item_contents((#[trigger] sets@[i])@) == offered_modes(
                    self@.agents,
                )[i],
    {
        let mut sets: Vec<Vec<Mode>> = Vec::new();
        let mut i: usize = 0;
        assert(self.agents@.take(0) =~= Seq::empty());
        while i < self.agents.len()
            invariant
                i <= self.agents@.len(),
                sets@.len() == offered_modes(self.agents@.take(i as int)).len(),
                forall|j: int|
                    0 <= j < sets@.len() ==> item_contents((#[trigger] sets@[j])@)
                        == offered_modes(self.agents@.take(i as int))[j],
            decreases self.agents@.len() - i,
        {
            assert(self.agents@.take(i + 1).drop_last() =~= self.agents@.take(i as int));
            let record = self.agents.value_at(i);
            let away = match record.state {
                Some(AgentState::Dropped) => true,
                Some(AgentState::Error) => true,
                _ => false,
            };
            match &record.modes {
                Some((modes, current)) => {
                    if !away {
                        sets.push(copy_modes(modes));
                    }
                },
                None => {},
            }
            i = i + 1;
        }
        assert(self.agents@.take(i as int) =~= self.agents@);
        sets
    }
}

/// Who receives the next prompt: the agent that was picked, or whose turn it is.
pub open spec fn recipient(roster: RosterView) -> Option<usize> {
    if roster.selected_agent is Some {
        roster.selected_agent
    } else {
        roster.next_agent
    }
}

fn unnamed(slot: usize) -> (name: String)
    ensures
        name@ == "Agent "@ + decimal(slot as nat),
{
    let mut text = to_chars("Agent ");
    append_decimal(&mut text, slot as u64);
    to_text(&text)
}

fn with_slash(name: String) -> (typed: String)
    ensures
        typed@ == slashed(name@),
{
    if has_first(name.as_str(), '/') {
        return name;
    }
    let mut text: Vec<char> = Vec::new();
    text.push('/');
    append_text(&mut text, name.as_str());
    assert(text@ =~= seq!['/'] + name@);
    to_text(&text)
}

/// Whether a list has a text.
pub fn listed(list: &Vec<String>, text: &str) -> (yes: bool)
    ensures
        yes == strings(list@).contains(text@),
{
    let mut i: usize = 0;
    while i < list.len()
        invariant
            i <= list@.len(),
            forall|j: int| 0 <= j < i ==> (#[trigger] list@[j])@ != text@,
        decreases list@.len() - i,
    {
        if same(list[i].as_str(), text) {
            assert(strings(list@)[i as int] == text@);
            return true;
        }
        i = i + 1;
    }
    proof {
        if strings(list@).contains(text@) {
            let k = choose|k: int| 0 <= k < strings(list@).len() && strings(list@)[k] == text@;
            assert(list@[k]@ == text@);
        }
    }
    false
}

fn exchange(slot: Option<usize>, first: usize, second: usize) -> (other: Option<usize>)
    ensures
        other == exchanged(slot, first, second),
{
    match slot {
        Some(value) => if value == first {
            Some(second)
        } else if value == second {
            Some(first)
        } else {
            slot
        },
        None => None,
    }
}

} // verus!
