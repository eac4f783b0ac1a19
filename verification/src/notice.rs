//! Notices that end by themselves, and agents that have fallen silent.

use crate::app::{App, AppView};
use crate::controls::{AdapterControl, ControlView};
use crate::footer::{elapsed_text, format_turn_elapsed, seconds_since};
use crate::roster::{active_slots, name_of, recipient, record_of, turn_begun, RecordView};
use crate::slots::{in_slot_order, law_put_then_lookup};
use crate::text::{append_text, has_prefix, same, starts_with, to_chars, to_text};
use vstd::prelude::*;

verus! {

/// How long a readiness notice is shown, in nanoseconds.
pub const READY_SHOWN: u64 = 3_000_000_000;

/// How long an error is shown, in nanoseconds.
pub const ERROR_SHOWN: u64 = 6_000_000_000;

/// How long an agent at work may report nothing before it counts as silent, in
/// nanoseconds.
pub const SILENCE: u64 = 120_000_000_000;

/// Whether a status tells of an error.
pub open spec fn tells_error(status: Seq<char>) -> bool {
    starts_with(status, "error: "@) || starts_with(status, "crashed: "@) || starts_with(
        status,
        "failed to start: "@,
    ) || starts_with(status, "unable to "@) || starts_with(status, "export failed: "@)
}

/// How long a status is shown; `None` where it does not end by itself.
pub open spec fn shown_for(status: Seq<char>) -> Option<u64> {
    if tells_error(status) {
        Some(ERROR_SHOWN)
    } else if status == "ready"@ {
        Some(READY_SHOWN)
    } else {
        None
    }
}

/// Whether a status that is shown since a moment has ended.
pub open spec fn has_ended(status: Seq<char>, since: u64, now: u64) -> bool {
    shown_for(status) matches Some(window) && now >= since && now - since >= window
}

/// Readiness is told, unless an error is shown.
pub open spec fn ready_status(status: Seq<char>) -> Seq<char> {
    if tells_error(status) {
        status
    } else {
        "ready"@
    }
}

/// How long an agent at work has reported nothing, where that is too long.
pub open spec fn silence_of(record: RecordView, now: u64) -> Option<u64> {
    match (record.turn_started, record.last_active) {
        (Some(_), Some(at)) if now >= at && now - at >= SILENCE => Some((now - at) as u64),
        _ => None,
    }
}

/// The first agent that has fallen silent, and for how long.
pub open spec fn silent_agent(agents: Seq<(usize, RecordView)>, now: u64) -> Option<(usize, u64)>
    decreases agents.len(),
{
    if agents.len() == 0 {
        None
    } else {
        match silence_of(agents[0].1, now) {
            Some(silence) => Some((agents[0].0, silence)),
            None => silent_agent(agents.drop_first(), now),
        }
    }
}

/// The agent that a request makes work: the one that a prompt names, or else the one that
/// receives the next prompt, or else the first.
pub open spec fn set_to_work(app: AppView, control: ControlView) -> Option<usize> {
    let slot = match control {
        ControlView::Queue { slot, prompt } => Some(slot),
        ControlView::Direct { slot, prompt } => Some(slot),
        ControlView::Prompt(prompt) => match recipient(app.roster) {
            Some(slot) => Some(slot),
            None => if active_slots(app.roster.agents).len() > 0 {
                Some(active_slots(app.roster.agents)[0])
            } else {
                None
            },
        },
        _ => None,
    };
    match slot {
        Some(slot) if record_of(app.roster.agents, slot).name is Some => Some(slot),
        _ => None,
    }
}

/// The surface after a request was sent. The time of a turn starts when its prompt is sent.
pub open spec fn request_timed(app: AppView, control: ControlView, now: u64) -> AppView {
    match set_to_work(app, control) {
        Some(slot) => AppView { roster: turn_begun(app.roster, slot, now), ..app },
        None => app,
    }
}

/// A turn is timed from the moment that its prompt was sent, and silence counts from then on.
pub proof fn law_turns_are_timed_from_their_prompt(app: AppView, control: ControlView, now: u64)
    requires
        in_slot_order(app.roster.agents),
        set_to_work(app, control) is Some,
        record_of(app.roster.agents, set_to_work(app, control)->0).turn_started is None,
    ensures
        ({
            let slot = set_to_work(app, control)->0;
            let record = record_of(request_timed(app, control, now).roster.agents, slot);
            record.turn_started == Some(now) && record.last_active == Some(now)
        }),
{
    reveal(turn_begun);
    let slot = set_to_work(app, control)->0;
    let record = record_of(app.roster.agents, slot);
    law_put_then_lookup(
        app.roster.agents,
        slot,
        RecordView { turn_started: Some(now), last_active: Some(now), ..record },
        slot,
    );
}

/// The line above the prompt: how long an agent has been silent and what can be done, or
/// else the status.
pub open spec fn banner_of(app: AppView, now: u64) -> Seq<char> {
    match silent_agent(app.roster.agents, now) {
        Some((slot, silence)) => name_of(app.roster.agents, slot) + " silent for "@ + elapsed_text(
            seconds_since(0, silence),
        ) + " · /cancel or /reload"@,
        None => app.status,
    }
}

/// An error is shown twice as long as readiness, and readiness does not take its place. A
/// notice is shown until its time is over, and ended from then on.
pub proof fn law_errors_come_before_readiness(status: Seq<char>, since: u64, now: u64)
    requires
        tells_error(status),
        since <= now,
    ensures
        ready_status(status) == status,
        has_ended(status, since, now) <==> now - since >= ERROR_SHOWN,
        has_ended("ready"@, since, now) <==> now - since >= READY_SHOWN,
{
    reveal_strlit("ready");
    reveal_strlit("error: ");
    reveal_strlit("crashed: ");
    reveal_strlit("failed to start: ");
    reveal_strlit("unable to ");
    reveal_strlit("export failed: ");
    assert("ready"@[0] == 'r');
    assert("error: "@[0] == 'e');
    assert("crashed: "@[0] == 'c');
    assert("failed to start: "@[0] == 'f');
    assert("unable to "@[0] == 'u');
    assert("export failed: "@[0] == 'e');
}

proof fn lemma_silent_agent(agents: Seq<(usize, RecordView)>, now: u64)
    ensures
        silent_agent(agents, now) matches Some((slot, silence)) ==> exists|i: int|
            0 <= i < agents.len() && agents[i].0 == slot && #[trigger] silence_of(agents[i].1, now)
                == Some(silence),
        silent_agent(agents, now) is None ==> forall|i: int|
            0 <= i < agents.len() ==> #[trigger] silence_of(agents[i].1, now) is None,
    decreases agents.len(),
{
    if agents.len() > 0 && silence_of(agents[0].1, now) is None {
        let rest = agents.drop_first();
        lemma_silent_agent(rest, now);
        assert forall|i: int| 0 <= i < agents.len() && silent_agent(agents, now) is None implies
            #[trigger] silence_of(agents[i].1, now) is None by {
            if i > 0 {
                assert(rest[i - 1] == agents[i]);
                assert(silence_of(rest[i - 1].1, now) is None);
            }
        }
        if let Some((slot, silence)) = silent_agent(agents, now) {
            let k = choose|k: int|
                0 <= k < rest.len() && rest[k].0 == slot && #[trigger] silence_of(rest[k].1, now)
                    == Some(silence);
            assert(rest[k] == agents[k + 1]);
            assert(silence_of(agents[k + 1].1, now) == Some(silence));
        }
    } else if agents.len() > 0 {
        assert(silence_of(agents[0].1, now) is Some);
    }
}

/// No agent is called silent whose turn is over, nor before it has reported nothing for two
/// minutes, and while none is called silent, none is.
pub proof fn law_only_silent_agents_are_called_silent(agents: Seq<(usize, RecordView)>, now: u64)
    ensures
        silent_agent(agents, now) matches Some((slot, silence)) ==> silence >= SILENCE && exists|
            i: int,
        |
            0 <= i < agents.len() && (#[trigger] agents[i]).0 == slot && agents[i].1.turn_started
                is Some && agents[i].1.last_active == Some((now - silence) as u64),
        silent_agent(agents, now) is None ==> forall|i: int|
            0 <= i < agents.len() && (#[trigger] agents[i]).1.turn_started is Some
                && agents[i].1.last_active is Some ==> now - agents[i].1.last_active->0 < SILENCE,
{
    lemma_silent_agent(agents, now);
    if let Some((slot, silence)) = silent_agent(agents, now) {
        let k = choose|k: int|
            0 <= k < agents.len() && agents[k].0 == slot && #[trigger] silence_of(agents[k].1, now)
                == Some(silence);
        assert(agents[k].0 == slot && agents[k].1.turn_started is Some);
    } else {
        assert forall|i: int|
            0 <= i < agents.len() && (#[trigger] agents[i]).1.turn_started is Some
                && agents[i].1.last_active is Some implies now - agents[i].1.last_active->0
            < SILENCE by {
            assert(silence_of(agents[i].1, now) is None);
        }
    }
}

/// Whether a status tells of an error.
pub fn is_error(status: &str) -> (yes: bool)
    ensures
        yes == tells_error(status@),
{
    has_prefix(status, "error: ") || has_prefix(status, "crashed: ") || has_prefix(
        status,
        "failed to start: ",
    ) || has_prefix(status, "unable to ") || has_prefix(status, "export failed: ")
}

/// Whether a status that is shown since a moment has ended.
pub fn notice_ended(status: &str, since: u64, now: u64) -> (yes: bool)
    ensures
        yes == has_ended(status@, since, now),
{
    let window: u64 = if is_error(status) {
        ERROR_SHOWN
    } else if same(status, "ready") {
        READY_SHOWN
    } else {
        return false;
    };
    now >= since && now - since >= window
}

impl App {
    /// The first agent that has reported nothing for two minutes while its turn runs, and
    /// for how long.
    pub fn inactive_agent(&self, now: u64) -> (silent: Option<(usize, u64)>)
        requires
            self.wf(),
        ensures
            silent == silent_agent(self@.roster.agents, now),
    {
        self.roster.silent_agent(now)
    }

    /// Notes that a request was sent to the agents.
    pub fn note_request(&mut self, control: &AdapterControl, now: u64)
        requires
            old(self).wf(),
        ensures
            final(self).wf(),
            final(self)@ == request_timed(old(self)@, control@, now),
    {
        let named = match control {
            AdapterControl::Queue { slot, prompt } => Some(*slot),
            AdapterControl::Direct { slot, prompt } => Some(*slot),
            AdapterControl::Prompt(prompt) => match self.next_agent_slot() {
                Some(slot) => Some(slot),
                None => {
                    let slots = self.active_roster_slots();
                    if slots.len() > 0 {
                        Some(slots[0])
                    } else {
                        None
                    }
                },
            },
            _ => None,
        };
        if let Some(slot) = named {
            if self.roster.has_agent(slot) {
                self.roster.begin_turn(slot, now);
            }
        }
    }

    /// The line above the prompt.
    pub fn banner(&self, now: u64) -> (line: String)
        requires
            self.wf(),
        ensures
            line@ == banner_of(self@, now),
    {
        match self.inactive_agent(now) {
            Some((slot, silence)) => {
                let mut line = to_chars(self.roster.agent_name(slot).as_str());
                append_text(&mut line, " silent for ");
                append_text(&mut line, format_turn_elapsed(0, silence).as_str());
                append_text(&mut line, " · /cancel or /reload");
                to_text(&line)
            },
            None => self.status.clone(),
        }
    }
}

} // verus!
