//! What was observed of a task: how its tools ended, and the last response.

use crate::events::{AgentEvent, AgentEventView, ToolStatus, ToolView};
use crate::project::{task_title, title_of};
use crate::text::{append_decimal, append_text, blank, decimal, is_blank, same, to_chars, to_text};
use vstd::prelude::*;

verus! {

/// A tool call of a task: who made it, which it was, and how it stands.
#[derive(Debug)]
struct ToolCall {
    slot: usize,
    id: String,
    status: ToolStatus,
}

#[verifier::ext_equal]
pub struct CallView {
    pub slot: usize,
    pub id: Seq<char>,
    pub status: ToolStatus,
}

impl View for ToolCall {
    type V = CallView;

    closed spec fn view(&self) -> CallView {
        CallView { slot: self.slot, id: self.id@, status: self.status }
    }
}

/// What was observed of a task.
#[derive(Debug)]
pub struct Outcomes {
    calls: Vec<ToolCall>,
    response: String,
}

#[verifier::ext_equal]
pub struct OutcomesView {
    pub calls: Seq<CallView>,
    pub response: Seq<char>,
}

impl View for Outcomes {
    type V = OutcomesView;

    closed spec fn view(&self) -> OutcomesView {
        OutcomesView {
            calls: Seq::new(self.calls@.len(), |i: int| self.calls@[i]@),
            response: self.response@,
        }
    }
}

/// Where a tool call stands, or the number of calls where it is new.
pub open spec fn call_place(calls: Seq<CallView>, slot: usize, id: Seq<char>, i: int) -> int
    decreases calls.len() - i,
{
    if i < 0 || i >= calls.len() || (calls[i].slot == slot && calls[i].id == id) {
        i
    } else {
        call_place(calls, slot, id, i + 1)
    }
}

/// The calls after one was reported. A call is there once, as it was reported last.
pub open spec fn with_call(calls: Seq<CallView>, call: CallView) -> Seq<CallView> {
    let at = call_place(calls, call.slot, call.id, 0);
    if at < calls.len() {
        calls.update(at, call)
    } else {
        calls.push(call)
    }
}

/// What was observed, after an event.
pub open spec fn after_outcome(outcomes: OutcomesView, event: AgentEventView) -> OutcomesView {
    match event {
        AgentEventView::Tool { slot, update } => OutcomesView {
            calls: with_call(
                outcomes.calls,
                CallView { slot, id: update.id, status: update.status },
            ),
            ..outcomes
        },
        AgentEventView::TurnStarted { slot } => OutcomesView {
            response: Seq::empty(),
            ..outcomes
        },
        AgentEventView::Text { slot, text } => OutcomesView {
            response: outcomes.response + text,
            ..outcomes
        },
        _ => outcomes,
    }
}

/// How many of the first `n` calls stand as given.
pub open spec fn count_calls(calls: Seq<CallView>, status: ToolStatus, n: int) -> nat
    decreases n,
{
    if n <= 0 {
        0
    } else {
        count_calls(calls, status, n - 1) + if calls[n - 1].status == status {
            1nat
        } else {
            0
        }
    }
}

/// The line that sums a task up.
pub open spec fn summary_line(outcomes: OutcomesView) -> Seq<char> {
    let calls = outcomes.calls;
    decimal(count_calls(calls, ToolStatus::Completed, calls.len() as int)) + " tools completed, "@
        + decimal(count_calls(calls, ToolStatus::Failed, calls.len() as int)) + " failed · "@ + (
    if is_blank(outcomes.response) {
        "no response"@
    } else {
        title_of(outcomes.response)
    })
}

proof fn lemma_call_place(calls: Seq<CallView>, slot: usize, id: Seq<char>, i: int)
    requires
        0 <= i <= calls.len(),
    ensures
        i <= call_place(calls, slot, id, i) <= calls.len(),
        call_place(calls, slot, id, i) < calls.len() ==> ({
            let call = calls[call_place(calls, slot, id, i)];
            call.slot == slot && call.id == id
        }),
        forall|k: int|
            i <= k < call_place(calls, slot, id, i) ==> !((#[trigger] calls[k]).slot == slot
                && calls[k].id == id),
    decreases calls.len() - i,
{
    if i < calls.len() && !(calls[i].slot == slot && calls[i].id == id) {
        lemma_call_place(calls, slot, id, i + 1);
    }
}

/// A tool call that is reported again is not counted again, and stands as it was reported
/// last.
pub proof fn law_tool_calls_are_counted_once(calls: Seq<CallView>, first: CallView, again: CallView)
    requires
        first.slot == again.slot,
        first.id == again.id,
    ensures
        with_call(with_call(calls, first), again) == with_call(calls, again),
        with_call(calls, again).contains(again),
{
    lemma_call_place(calls, first.slot, first.id, 0);
    let once = with_call(calls, first);
    lemma_call_place(once, again.slot, again.id, 0);
    let at = call_place(calls, first.slot, first.id, 0);
    let place = call_place(once, again.slot, again.id, 0);
    assert(once[at] == first);
    if place < at {
        assert(calls[place] == once[place]);
    }
    assert(place == at);
    assert(with_call(once, again) =~= with_call(calls, again));
    assert(with_call(calls, again)[at] == again);
}

impl Outcomes {
    pub fn new() -> (outcomes: Self)
        ensures
            outcomes@ == (OutcomesView { calls: Seq::empty(), response: Seq::empty() }),
    {
        let response = to_text(&Vec::new());
        assert(response@ =~= Seq::empty());
        let outcomes = Outcomes { calls: Vec::new(), response };
        assert(outcomes@.calls =~= Seq::empty());
        outcomes
    }

    fn place(&self, slot: usize, id: &str) -> (at: usize)
        ensures
            at == call_place(self@.calls, slot, id@, 0),
            at <= self@.calls.len(),
    {
        let mut i: usize = 0;
        while i < self.calls.len()
            invariant
                i <= self.calls@.len(),
                call_place(self@.calls, slot, id@, 0) == call_place(
                    self@.calls,
                    slot,
                    id@,
                    i as int,
                ),
            decreases self.calls@.len() - i,
        {
            assert(self@.calls[i as int] == self.calls@[i as int]@);
            if self.calls[i].slot == slot && same(self.calls[i].id.as_str(), id) {
                return i;
            }
            i = i + 1;
        }
        i
    }

    fn note_call(&mut self, slot: usize, id: &str, status: ToolStatus)
        ensures
            final(self)@ == (OutcomesView {
                calls: with_call(old(self)@.calls, CallView { slot, id: id@, status }),
                ..old(self)@
            }),
    {
        let at = self.place(slot, id);
        let call = ToolCall { slot, id: id.to_owned(), status };
        let ghost before = self@.calls;
        assert(call@ == CallView { slot, id: id@, status });
        if at < self.calls.len() {
            self.calls.set(at, call);
        } else {
            self.calls.push(call);
        }
        assert(self@.calls =~= with_call(before, call@));
    }

    /// Observes an event.
    pub fn observe(&mut self, event: &AgentEvent)
        ensures
            final(self)@ == after_outcome(old(self)@, event@),
    {
        match event {
            AgentEvent::Tool { slot, update } => {
                self.note_call(*slot, update.id.as_str(), update.status);
            },
            AgentEvent::TurnStarted { slot } => {
                let response = to_text(&Vec::new());
                assert(response@ =~= Seq::empty());
                self.response = response;
                assert(self@.calls =~= old(self)@.calls);
            },
            AgentEvent::Text { slot, text } => {
                let mut response = to_chars(self.response.as_str());
                append_text(&mut response, text.as_str());
                self.response = to_text(&response);
                assert(self@.calls =~= old(self)@.calls);
            },
            _ => {},
        }
    }

    /// The last response.
    pub fn response(&self) -> (response: &str)
        ensures
            response@ == self@.response,
    {
        self.response.as_str()
    }

    fn count(&self, status: ToolStatus) -> (count: usize)
        ensures
            count == count_calls(self@.calls, status, self@.calls.len() as int),
    {
        let mut count: usize = 0;
        let mut i: usize = 0;
        while i < self.calls.len()
            invariant
                count <= i <= self.calls@.len(),
                count == count_calls(self@.calls, status, i as int),
            decreases self.calls@.len() - i,
        {
            assert(self@.calls[i as int] == self.calls@[i as int]@);
            if self.calls[i].status == status {
                count = count + 1;
            }
            i = i + 1;
        }
        count
    }

    /// The line that sums a task up.
    pub fn summary(&self) -> (line: String)
        ensures
            line@ == summary_line(self@),
    {
        let mut line: Vec<char> = Vec::new();
        append_decimal(&mut line, self.count(ToolStatus::Completed) as u64);
        append_text(&mut line, " tools completed, ");
        append_decimal(&mut line, self.count(ToolStatus::Failed) as u64);
        append_text(&mut line, " failed · ");
        if blank(self.response.as_str()) {
            append_text(&mut line, "no response");
        } else {
            append_text(&mut line, task_title(self.response.as_str()).as_str());
        }
        assert(line@ =~= summary_line(self@));
        to_text(&line)
    }
}

/// The response of a turn is what was said in it, word for word and in order: it is empty
/// when the turn begins, grows by each text, and is left alone by everything else.
pub proof fn law_the_response_is_what_was_said(
    outcomes: OutcomesView,
    slot: usize,
    text: Seq<char>,
    event: AgentEventView,
)
    ensures
        after_outcome(outcomes, AgentEventView::TurnStarted { slot }).response == Seq::<
            char,
        >::empty(),
        after_outcome(outcomes, AgentEventView::Text { slot, text }).response == outcomes.response
            + text,
        !(event is Text || event is TurnStarted) ==> after_outcome(outcomes, event).response
            == outcomes.response,
        !(event is Tool) ==> after_outcome(outcomes, event).calls == outcomes.calls,
{
}

proof fn lemma_count_calls(first: Seq<CallView>, second: Seq<CallView>, status: ToolStatus, n: int)
    requires
        0 <= n <= first.len(),
        n <= second.len(),
        forall|i: int| 0 <= i < n ==> #[trigger] first[i] == second[i],
    ensures
        count_calls(first, status, n) == count_calls(second, status, n),
    decreases n,
{
    if n > 0 {
        lemma_count_calls(first, second, status, n - 1);
        assert(first[n - 1] == second[n - 1]);
    }
}

/// A tool call that was not seen before adds one to those that stand as it does, and
/// nothing to the others.
pub proof fn law_each_new_call_counts_once(
    outcomes: OutcomesView,
    slot: usize,
    update: ToolView,
    status: ToolStatus,
)
    requires
        forall|k: int|
            0 <= k < outcomes.calls.len() ==> !((#[trigger] outcomes.calls[k]).slot == slot
                && outcomes.calls[k].id == update.id),
    ensures
        ({
            let after = after_outcome(outcomes, AgentEventView::Tool { slot, update }).calls;
            count_calls(after, status, after.len() as int) == count_calls(
                outcomes.calls,
                status,
                outcomes.calls.len() as int,
            ) + if update.status == status {
                1nat
            } else {
                0nat
            }
        }),
{
    let after = after_outcome(outcomes, AgentEventView::Tool { slot, update }).calls;
    lemma_call_place(outcomes.calls, slot, update.id, 0);
    let at = call_place(outcomes.calls, slot, update.id, 0);
    if at < outcomes.calls.len() {
        assert(outcomes.calls[at].slot == slot);
    }
    assert(after == outcomes.calls.push(CallView { slot, id: update.id, status: update.status }));
    lemma_count_calls(after, outcomes.calls, status, outcomes.calls.len() as int);
}

} // verus!
