//! What holds of every roster: whose turn comes next, how agents are told apart, and what a
//! change to one agent leaves of the others.

use crate::roster::{
    active_slots, agent_status, any_starting, at_rest, broken, can_promote, completed,
    current_modes, dropped, failed_slot, first_after, first_failed, first_given, in_state,
    lemma_active, lemma_first_after, name_of, next_after, no_record, offered_modes, passed_on,
    place_in, promoted, recipient, record_of, reloaded, removed, renamed, shown_state, slots_named,
    state_text, takes_part, turn_begun, turn_ended, with_record, AgentState, RecordView, RosterView,
};
use crate::slots::{
    has_slot, in_slot_order, law_put_then_lookup, lemma_lookup, lemma_slots_before, lookup,
    slots_before,
};
use crate::text::{decimal, law_written_numbers_are_read_back};
use vstd::prelude::*;

verus! {

// Turns.

spec fn ascending(slots: Seq<usize>) -> bool {
    forall|i: int, j: int| 0 <= i < j < slots.len() ==> #[trigger] slots[i] < #[trigger] slots[j]
}

proof fn lemma_first_after_is_least(slots: Seq<usize>, slot: usize)
    requires
        ascending(slots),
    ensures
        first_after(slots, slot) matches Some(next) ==> forall|i: int|
            0 <= i < slots.len() ==> #[trigger] slots[i] <= slot || next <= slots[i],
    decreases slots.len(),
{
    if slots.len() > 0 && slots[0] <= slot {
        let rest = slots.drop_first();
        assert(ascending(rest)) by {
            assert forall|i: int, j: int| 0 <= i < j < rest.len() implies #[trigger] rest[i]
                < #[trigger] rest[j] by {
                assert(slots[i + 1] < slots[j + 1]);
            }
        }
        lemma_first_after_is_least(rest, slot);
        if first_after(slots, slot) is Some {
            let next = first_after(slots, slot)->0;
            assert forall|i: int| 0 <= i < slots.len() implies #[trigger] slots[i] <= slot || next
                <= slots[i] by {
                if i > 0 {
                    assert(rest[i - 1] == slots[i]);
                }
            }
        }
    }
}

/// The turn goes round in the order of the slots: to the nearest agent behind that takes
/// part, or where there is none behind, to the first of all. Nobody who takes part is passed
/// over.
pub proof fn law_turns_go_round(agents: Seq<(usize, RecordView)>, slot: usize, other: usize)
    requires
        in_slot_order(agents),
        takes_part(record_of(agents, other)),
    ensures
        next_after(agents, slot) matches Some(next) && takes_part(record_of(agents, next)) && if next
            > slot {
            other <= slot || next <= other
        } else {
            next <= other <= slot
        },
{
    reveal(next_after);
    let active = active_slots(agents);
    lemma_active(agents, other);
    assert(active.contains(other));
    let k = choose|k: int| 0 <= k < active.len() && active[k] == other;
    lemma_first_after(active, slot);
    lemma_first_after_is_least(active, slot);
    let next = next_after(agents, slot)->0;
    assert(active.contains(next)) by {
        if first_after(active, slot) is None {
            assert(active[0] == next);
        }
    }
    lemma_active(agents, next);
    if first_after(active, slot) is None {
        if k > 0 {
            assert(active[0] < active[k]);
        }
    }
}

/// The next prompt is for the agent that was picked, and only where none was, for the one
/// whose turn it is.
pub proof fn law_a_picked_agent_receives_the_prompt(roster: RosterView, slot: usize)
    ensures
        recipient(RosterView { selected_agent: Some(slot), ..roster }) == Some(slot),
        recipient(RosterView { selected_agent: None, ..roster }) == roster.next_agent,
{
}

// Changes.

/// Whether every agent but one has the record that it had.
pub open spec fn others_stay(before: RosterView, after: RosterView, slot: usize) -> bool {
    forall|other: usize|
        other != slot ==> #[trigger] record_of(after.agents, other) == record_of(
            before.agents,
            other,
        )
}

pub proof fn lemma_with_record(roster: RosterView, slot: usize, record: RecordView)
    requires
        in_slot_order(roster.agents),
    ensures
        record_of(with_record(roster, slot, record).agents, slot) == record,
        others_stay(roster, with_record(roster, slot, record), slot),
        in_slot_order(with_record(roster, slot, record).agents),
{
    assert forall|other: usize| other != slot implies #[trigger] record_of(
        with_record(roster, slot, record).agents,
        other,
    ) == record_of(roster.agents, other) by {
        law_put_then_lookup(roster.agents, slot, record, other);
    }
    law_put_then_lookup(roster.agents, slot, record, slot);
}

pub proof fn lemma_passed_on(roster: RosterView, slot: usize)
    requires
        in_slot_order(roster.agents),
        !takes_part(record_of(roster.agents, slot)),
    ensures
        passed_on(roster, slot).agents == roster.agents,
        passed_on(roster, slot).next_agent != Some(slot),
        roster.next_agent != Some(slot) ==> passed_on(roster, slot) == roster,
        passed_on(roster, slot).selected_agent == roster.selected_agent,
        passed_on(roster, slot).failed_agent == roster.failed_agent,
{
    reveal(passed_on);
    crate::roster::law_only_active_agents_are_next(roster.agents, slot);
}

/// A dropped agent takes no part any more and its turn passes on, but it keeps its name and
/// its identity; nothing else changes for the others.
pub proof fn law_dropped_agents_take_no_part(roster: RosterView, slot: usize)
    requires
        in_slot_order(roster.agents),
    ensures
        ({
            let after = dropped(roster, slot);
            let (was, is) = (record_of(roster.agents, slot), record_of(after.agents, slot));
            &&& is.state == Some(AgentState::Dropped)
            &&& is.name == was.name
            &&& is.identity == was.identity
            &&& is.turn_started is None
            &&& is.tool_calls.len() == 0
            &&& !takes_part(is)
            &&& others_stay(roster, after, slot)
            &&& after.next_agent != Some(slot)
            &&& after.failed_agent != Some(slot)
            &&& roster.next_agent != Some(slot) ==> after.next_agent == roster.next_agent
            &&& after.selected_agent == roster.selected_agent
        }),
{
    reveal(dropped);
    let was = record_of(roster.agents, slot);
    let record = RecordView {
        name: was.name,
        identity: was.identity,
        state: Some(AgentState::Dropped),
        ..no_record()
    };
    let middle = RosterView {
        failed_agent: if roster.failed_agent == Some(slot) {
            None
        } else {
            roster.failed_agent
        },
        ..with_record(roster, slot, record)
    };
    lemma_with_record(roster, slot, record);
    lemma_passed_on(middle, slot);
}

/// An agent that starts anew is starting and has no turn, but is the same agent, with its
/// name, identity and model; the others stay as they are.
pub proof fn law_reloaded_agents_stay_themselves(roster: RosterView, slot: usize)
    requires
        in_slot_order(roster.agents),
    ensures
        ({
            let after = reloaded(roster, slot);
            let (was, is) = (record_of(roster.agents, slot), record_of(after.agents, slot));
            &&& is.state == Some(AgentState::Starting)
            &&& is.name == was.name
            &&& is.identity == was.identity
            &&& is.models == was.models
            &&& is.turn_started is None
            &&& is.tool_calls.len() == 0
            &&& others_stay(roster, after, slot)
            &&& after.next_agent == roster.next_agent
            &&& after.failed_agent is None
        }),
{
    reveal(reloaded);
    let record = RecordView {
        state: Some(AgentState::Starting),
        turn_started: None,
        tool_calls: Seq::empty(),
        ..record_of(roster.agents, slot)
    };
    lemma_with_record(roster, slot, record);
}

/// An agent that becomes the owner moves to the first slot with everything that is its own,
/// its turn too, and leaves a dropped slot under the name of the owner before it.
pub proof fn law_promoted_agents_move_whole(roster: RosterView, slot: usize, other: usize)
    requires
        in_slot_order(roster.agents),
        can_promote(roster, slot),
        other != 0,
        other != slot,
    ensures
        ({
            let after = promoted(roster, slot);
            &&& record_of(after.agents, 0) == record_of(roster.agents, slot)
            &&& record_of(after.agents, slot).state == Some(AgentState::Dropped)
            &&& record_of(after.agents, slot).name == record_of(roster.agents, 0).name
            &&& !takes_part(record_of(after.agents, slot))
            &&& record_of(after.agents, other) == record_of(roster.agents, other)
            &&& roster.next_agent == Some(slot) ==> after.next_agent == Some(0usize)
            &&& roster.next_agent != Some(slot) ==> after.next_agent == roster.next_agent
        }),
{
    reveal(promoted);
    let owner = record_of(roster.agents, 0);
    let agent = record_of(roster.agents, slot);
    let first = with_record(roster, 0, agent);
    let left = RecordView { name: owner.name, state: Some(AgentState::Dropped), ..no_record() };
    lemma_with_record(roster, 0, agent);
    lemma_with_record(first, slot, left);
    assert(record_of(with_record(first, slot, left).agents, 0) == record_of(first.agents, 0));
    assert(record_of(with_record(first, slot, left).agents, other) == record_of(
        first.agents,
        other,
    ));
    assert(record_of(first.agents, other) == record_of(roster.agents, other));
}

/// An agent that is gone leaves nothing behind, and its turn passes on.
pub proof fn law_removed_agents_are_gone(roster: RosterView, slot: usize)
    requires
        in_slot_order(roster.agents),
    ensures
        record_of(removed(roster, slot).agents, slot) == no_record(),
        others_stay(roster, removed(roster, slot), slot),
        removed(roster, slot).next_agent != Some(slot),
{
    reveal(removed);
    lemma_with_record(roster, slot, no_record());
    lemma_passed_on(with_record(roster, slot, no_record()), slot);
}

/// A new agent has the name that it was given and is starting; one that was there keeps its
/// state. The first agent of all is next.
pub proof fn law_named_agents_keep_their_state(roster: RosterView, slot: usize, name: Seq<char>)
    requires
        in_slot_order(roster.agents),
    ensures
        ({
            let after = renamed(roster, slot, name);
            let (was, is) = (record_of(roster.agents, slot), record_of(after.agents, slot));
            &&& is.name == Some(name)
            &&& was.state is Some ==> is.state == was.state
            &&& was.state is None ==> is.state == Some(AgentState::Starting)
            &&& is.identity == was.identity
            &&& others_stay(roster, after, slot)
            &&& after.next_agent == (if roster.next_agent is Some {
                roster.next_agent
            } else {
                Some(slot)
            })
        }),
{
    reveal(renamed);
    let was = record_of(roster.agents, slot);
    let record = RecordView {
        name: Some(name),
        state: if was.state is None {
            Some(AgentState::Starting)
        } else {
            was.state
        },
        ..was
    };
    lemma_with_record(roster, slot, record);
}

/// A turn that runs keeps its start whatever it reports, and it is the agent's turn; the
/// others are left alone.
pub proof fn law_running_turns_keep_their_start(
    roster: RosterView,
    slot: usize,
    now: u64,
    later: u64,
)
    requires
        in_slot_order(roster.agents),
    ensures
        ({
            let once = turn_begun(roster, slot, now);
            let twice = turn_begun(once, slot, later);
            let was = record_of(roster.agents, slot);
            &&& was.turn_started is None ==> record_of(once.agents, slot).turn_started == Some(now)
            &&& was.turn_started is Some ==> record_of(once.agents, slot).turn_started
                == was.turn_started
            &&& record_of(twice.agents, slot).turn_started == record_of(
                once.agents,
                slot,
            ).turn_started
            &&& record_of(twice.agents, slot).last_active == Some(later)
            &&& once.next_agent == Some(slot)
            &&& others_stay(roster, once, slot)
        }),
{
    reveal(turn_begun);
    let was = record_of(roster.agents, slot);
    let record = RecordView {
        turn_started: if was.turn_started is None {
            Some(now)
        } else {
            was.turn_started
        },
        last_active: Some(now),
        ..was
    };
    lemma_with_record(roster, slot, record);
    let once = turn_begun(roster, slot, now);
    lemma_with_record(once, slot, RecordView { last_active: Some(later), ..record });
}

pub proof fn lemma_turn_over(roster: RosterView, slot: usize, state: AgentState)
    requires
        in_slot_order(roster.agents),
    ensures
        ({
            let after = in_state(turn_ended(roster, slot), slot, state);
            let (was, is) = (record_of(roster.agents, slot), record_of(after.agents, slot));
            &&& is == RecordView {
                state: Some(state),
                turn_started: None,
                tool_calls: Seq::empty(),
                ..was
            }
            &&& others_stay(roster, after, slot)
            &&& in_slot_order(after.agents)
            &&& after.next_agent == roster.next_agent
            &&& after.selected_agent == roster.selected_agent
            &&& after.failed_agent == roster.failed_agent
        }),
{
    reveal(turn_ended);
    reveal(in_state);
    let was = record_of(roster.agents, slot);
    let over = RecordView { turn_started: None, tool_calls: Seq::empty(), ..was };
    lemma_with_record(roster, slot, over);
    let middle = turn_ended(roster, slot);
    lemma_with_record(middle, slot, RecordView { state: Some(state), ..over });
    assert forall|other: usize| other != slot implies #[trigger] record_of(
        in_state(middle, slot, state).agents,
        other,
    ) == record_of(roster.agents, other) by {
        assert(record_of(middle.agents, other) == record_of(roster.agents, other));
    }
}

/// An agent whose turn is completed is ready and has no turn, and another agent that takes
/// part is next, where there is one.
pub proof fn law_completed_turns_pass_on(roster: RosterView, slot: usize, other: usize)
    requires
        in_slot_order(roster.agents),
        other != slot,
        takes_part(record_of(roster.agents, other)),
    ensures
        ({
            let after = completed(roster, slot);
            let is = record_of(after.agents, slot);
            &&& is.state == Some(AgentState::Ready)
            &&& is.turn_started is None
            &&& is.tool_calls.len() == 0
            &&& is.name == record_of(roster.agents, slot).name
            &&& others_stay(roster, after, slot)
            &&& after.next_agent matches Some(next) && next != slot && takes_part(
                record_of(after.agents, next),
            )
        }),
{
    lemma_turn_over(roster, slot, AgentState::Ready);
    let ready = in_state(turn_ended(roster, slot), slot, AgentState::Ready);
    assert(record_of(ready.agents, other) == record_of(roster.agents, other));
    law_turns_go_round(ready.agents, slot, other);
}

/// An agent that failed is the failed one and takes no part any more; its turn is over and
/// passes on, and the others stay as they are.
pub proof fn law_failed_agents_take_no_part(roster: RosterView, slot: usize)
    requires
        in_slot_order(roster.agents),
    ensures
        ({
            let after = broken(roster, slot);
            let is = record_of(after.agents, slot);
            &&& is.state == Some(AgentState::Error)
            &&& is.turn_started is None
            &&& !takes_part(is)
            &&& is.name == record_of(roster.agents, slot).name
            &&& others_stay(roster, after, slot)
            &&& after.next_agent != Some(slot)
            &&& failed_slot(after) == Some(slot)
        }),
{
    lemma_turn_over(roster, slot, AgentState::Error);
    lemma_passed_on(in_state(turn_ended(roster, slot), slot, AgentState::Error), slot);
}

/// The agent that is called failed is one, and where none is called failed, none is.
pub proof fn law_only_failed_agents_are_called_failed(roster: RosterView, slot: usize)
    requires
        in_slot_order(roster.agents),
    ensures
        failed_slot(roster) matches Some(failed) ==> record_of(roster.agents, failed).state == Some(
            AgentState::Error,
        ),
        failed_slot(roster) is None ==> record_of(roster.agents, slot).state != Some(
            AgentState::Error,
        ),
{
    lemma_first_failed(roster.agents, slot);
}

proof fn lemma_first_failed(agents: Seq<(usize, RecordView)>, slot: usize)
    requires
        in_slot_order(agents),
    ensures
        first_failed(agents) matches Some(failed) ==> record_of(agents, failed).state == Some(
            AgentState::Error,
        ),
        first_failed(agents) is None ==> record_of(agents, slot).state != Some(AgentState::Error),
    decreases agents.len(),
{
    reveal(lookup);
    if agents.len() > 0 && agents[0].1.state != Some(AgentState::Error) {
        let rest = agents.drop_first();
        assert(in_slot_order(rest)) by {
            assert forall|i: int, j: int| 0 <= i < j < rest.len() implies (#[trigger] rest[i]).0 < (
            #[trigger] rest[j]).0 by {
                assert(agents[i + 1].0 < agents[j + 1].0);
            }
        }
        lemma_first_failed(rest, slot);
        if first_failed(rest) is Some {
            let failed = first_failed(rest)->0;
            lemma_lookup(rest, failed);
            lemma_lookup(agents, failed);
            lemma_slots_before(rest, failed);
            lemma_slots_before(agents, failed);
        }
    }
}

// Names.

proof fn lemma_slots_named(agents: Seq<(usize, RecordView)>, name: Seq<char>, slot: usize)
    requires
        in_slot_order(agents),
    ensures
        slots_named(agents, name).contains(slot) <==> exists|i: int|
            0 <= i < agents.len() && (#[trigger] agents[i]).0 == slot && agents[i].1.name == Some(
                name,
            ),
        slots_named(agents, name).no_duplicates(),
    decreases agents.len(),
{
    if agents.len() > 0 {
        let rest = agents.drop_last();
        let last = agents.last();
        assert(in_slot_order(rest)) by {
            assert forall|i: int, j: int| 0 <= i < j < rest.len() implies (#[trigger] rest[i]).0 < (
            #[trigger] rest[j]).0 by {
                assert(agents[i].0 < agents[j].0);
            }
        }
        lemma_slots_named(rest, name, slot);
        lemma_slots_named(rest, name, last.0);
        let before = slots_named(rest, name);
        let after = slots_named(agents, name);
        assert(agents[agents.len() - 1] == last);
        if before.contains(last.0) {
            let i = choose|i: int|
                0 <= i < rest.len() && (#[trigger] rest[i]).0 == last.0 && rest[i].1.name == Some(
                    name,
                );
            assert(agents[i].0 < agents[agents.len() - 1].0);
        }
        if before.contains(slot) {
            let i = choose|i: int|
                0 <= i < rest.len() && (#[trigger] rest[i]).0 == slot && rest[i].1.name == Some(
                    name,
                );
            assert(agents[i] == rest[i]);
            let k = choose|k: int| 0 <= k < before.len() && before[k] == slot;
            assert(after[k] == slot);
        }
        if last.1.name == Some(name) {
            assert(after == before.push(last.0));
            if last.0 == slot {
                assert(after.last() == slot);
            }
            if after.contains(slot) && last.0 != slot {
                let k = choose|k: int| 0 <= k < after.len() && after[k] == slot;
                assert(before[k] == slot);
            }
            assert(after.no_duplicates()) by {
                assert forall|i: int, j: int|
                    0 <= i < after.len() && 0 <= j < after.len() && i != j implies after[i]
                    != after[j] by {
                    if i == before.len() {
                        assert(before[j] == after[j]);
                        assert(before.contains(after[j]));
                    } else if j == before.len() {
                        assert(before[i] == after[i]);
                        assert(before.contains(after[i]));
                    } else {
                        assert(before[i] == after[i] && before[j] == after[j]);
                    }
                }
            }
        }
        if exists|i: int|
            0 <= i < agents.len() && (#[trigger] agents[i]).0 == slot && agents[i].1.name == Some(
                name,
            ) {
            let i = choose|i: int|
                0 <= i < agents.len() && (#[trigger] agents[i]).0 == slot && agents[i].1.name
                    == Some(name);
            if i < rest.len() {
                assert(rest[i] == agents[i]);
            }
        }
    }
}

proof fn lemma_place_in(slots: Seq<usize>, slot: usize)
    ensures
        place_in(slots, slot) matches Some(k) ==> 0 <= k < slots.len() && slots[k] == slot,
        slots.contains(slot) ==> place_in(slots, slot) is Some,
    decreases slots.len(),
{
    if slots.len() > 0 && slots[0] != slot {
        let rest = slots.drop_first();
        lemma_place_in(rest, slot);
        if slots.contains(slot) {
            let k = choose|k: int| 0 <= k < slots.len() && slots[k] == slot;
            assert(rest[k - 1] == slot);
        }
    }
}

proof fn lemma_decimal_tells_apart(a: nat, b: nat)
    requires
        decimal(a) == decimal(b),
    ensures
        a == b,
{
    law_written_numbers_are_read_back(a);
    law_written_numbers_are_read_back(b);
}

/// An agent whose name nobody shares is called by it. Agents of one name are told apart.
pub proof fn law_agents_are_told_apart(
    agents: Seq<(usize, RecordView)>,
    first: usize,
    second: usize,
)
    requires
        in_slot_order(agents),
        first != second,
        record_of(agents, first).name is Some,
        record_of(agents, second).name == record_of(agents, first).name,
    ensures
        name_of(agents, first) != name_of(agents, second),
{
    reveal(name_of);
    let name = record_of(agents, first).name->0;
    let all = slots_named(agents, name);
    lemma_holds(agents, first, name);
    lemma_holds(agents, second, name);
    lemma_slots_named(agents, name, first);
    lemma_slots_named(agents, name, second);
    lemma_place_in(all, first);
    lemma_place_in(all, second);
    let a = place_in(all, first)->0;
    let b = place_in(all, second)->0;
    assert(all.len() > 1);
    let head = name + " #"@;
    let (x, y) = (decimal((a + 1) as nat), decimal((b + 1) as nat));
    if head + x == head + y {
        assert((head + x).skip(head.len() as int) =~= x);
        assert((head + y).skip(head.len() as int) =~= y);
        lemma_decimal_tells_apart((a + 1) as nat, (b + 1) as nat);
    }
}

proof fn lemma_holds(agents: Seq<(usize, RecordView)>, slot: usize, name: Seq<char>)
    requires
        in_slot_order(agents),
        record_of(agents, slot).name == Some(name),
    ensures
        exists|i: int|
            0 <= i < agents.len() && (#[trigger] agents[i]).0 == slot && agents[i].1.name == Some(
                name,
            ),
{
    lemma_lookup(agents, slot);
    lemma_slots_before(agents, slot);
    let k = slots_before(agents, slot);
    assert(has_slot(agents, slot));
    assert(agents[k].0 == slot);
}

// What is shown of a roster.

/// When everything rests nobody works and no turn runs, but everybody is who they were: the
/// names, the identities, the models and the modes stay, and so do dropped and failed agents.
pub proof fn law_at_rest_nobody_works(agents: Seq<(usize, RecordView)>, i: int)
    requires
        0 <= i < agents.len(),
    ensures
        at_rest(agents).len() == agents.len(),
        ({
            let (was, is) = (agents[i], at_rest(agents)[i]);
            &&& is.0 == was.0
            &&& is.1.name == was.1.name && is.1.identity == was.1.identity
            &&& is.1.models == was.1.models && is.1.modes == was.1.modes
            &&& is.1.turn_started is None && is.1.tool_calls.len() == 0
            &&& is.1.state != Some(AgentState::Working)
            &&& was.1.state != Some(AgentState::Working) ==> is.1.state == was.1.state
            &&& takes_part(is.1) <==> takes_part(was.1)
        }),
{
}

/// The modes on offer are those of the agents that are neither dropped nor failed, each as
/// the agent told them, in the order of the slots.
pub proof fn law_modes_of_agents_that_left_are_not_offered(
    agents: Seq<(usize, RecordView)>,
    slot: usize,
    record: RecordView,
)
    ensures
        record.modes is None || record.state == Some(AgentState::Dropped) || record.state == Some(
            AgentState::Error,
        ) ==> offered_modes(agents.push((slot, record))) == offered_modes(agents),
        record.modes is Some && record.state != Some(AgentState::Dropped) && record.state != Some(
            AgentState::Error,
        ) ==> offered_modes(agents.push((slot, record))) == offered_modes(agents).push(
            (record.modes->0).0,
        ),
        record.modes is Some && takes_part(record) ==> current_modes(agents.push((slot, record)))
            == current_modes(agents).push(record.modes->0),
        record.modes is None || !takes_part(record) ==> current_modes(agents.push((slot, record)))
            == current_modes(agents),
{
    assert(agents.push((slot, record)).drop_last() =~= agents);
}

/// A roster is starting as long as one of its agents is, and an agent that left does not
/// keep it starting.
pub proof fn law_a_roster_starts_as_long_as_an_agent_does(
    agents: Seq<(usize, RecordView)>,
    i: int,
)
    ensures
        0 <= i < agents.len() && agents[i].1.name is Some && agents[i].1.state == Some(
            AgentState::Starting,
        ) ==> any_starting(agents),
        any_starting(agents) ==> exists|k: int|
            0 <= k < agents.len() && (#[trigger] agents[k]).1.name is Some && agents[k].1.state
                != Some(AgentState::Dropped) && agents[k].1.state != Some(AgentState::Error)
                && agents[k].1.state != Some(AgentState::Ready) && agents[k].1.state != Some(
                AgentState::Working,
            ),
{
    if any_starting(agents) {
        let k = choose|k: int|
            0 <= k < agents.len() && takes_part((#[trigger] agents[k]).1) && shown_state(
                agents[k].1,
            ) == AgentState::Starting;
        assert(agents[k].1.name is Some);
    }
}

/// A given name leads to the first slot that has it.
pub proof fn law_given_names_lead_to_their_slot(
    agents: Seq<(usize, RecordView)>,
    name: Seq<char>,
    k: int,
)
    requires
        0 <= k <= agents.len(),
        forall|i: int| 0 <= i < k ==> (#[trigger] agents[i]).1.name != Some(name),
        k < agents.len() ==> agents[k].1.name == Some(name),
    ensures
        k < agents.len() ==> first_given(agents, name) == Some(agents[k].0),
        k == agents.len() ==> first_given(agents, name) is None,
    decreases agents.len(),
{
    if k > 0 {
        assert(agents[0].1.name != Some(name));
        let rest = agents.drop_first();
        assert forall|i: int| 0 <= i < k - 1 implies (#[trigger] rest[i]).1.name != Some(name) by {
            assert(rest[i] == agents[i + 1]);
        }
        law_given_names_lead_to_their_slot(rest, name, k - 1);
    }
}

/// The line of an agent shows its own name and its own state: agents in different states are
/// told apart, and only one that works is marked as working.
pub proof fn law_states_are_shown_of_their_agent(agents: Seq<(usize, RecordView)>, slot: usize)
    ensures
        ({
            let line = agent_status(agents, slot);
            let state = shown_state(record_of(agents, slot));
            &&& line.len() > 0
            &&& line[0] == '●' <==> record_of(agents, slot).state == Some(AgentState::Working)
            &&& line.skip(1) == " "@ + name_of(agents, slot) + " · "@ + state_text(state)
        }),
{
    reveal_strlit("●");
    reveal_strlit("○");
    let line = agent_status(agents, slot);
    let state = shown_state(record_of(agents, slot));
    assert(line.skip(1) =~= " "@ + name_of(agents, slot) + " · "@ + state_text(state));
}

/// No two states read alike.
pub proof fn law_states_read_differently(first: AgentState, second: AgentState)
    ensures
        state_text(first) == state_text(second) <==> first == second,
{
    reveal_strlit("starting");
    reveal_strlit("ready");
    reveal_strlit("working");
    reveal_strlit("error");
    reveal_strlit("dropped");
    let (a, b) = (state_text(first), state_text(second));
    assert(first != second ==> a[0] != b[0]);
}

} // verus!
