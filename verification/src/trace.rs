//! Deterministic scripted traces: two agents are compared by the normalized events
//! that they emitted.

use crate::events::{AgentEvent, AgentEventView, Same};
use crate::order::item_contents;
use vstd::prelude::*;

verus! {

/// A named trace of normalized events.
#[derive(Clone, Debug, Eq, PartialEq)]
pub struct ScriptedTrace {
    pub name: String,
    pub roster_size: usize,
    pub events: Vec<AgentEvent>,
}

impl ScriptedTrace {
    pub fn new(name: &str, roster_size: usize, events: Vec<AgentEvent>) -> (trace: Self)
        ensures
            trace.name@ == name@,
            trace.roster_size == roster_size,
            trace.events == events,
    {
        ScriptedTrace { name: name.to_owned(), roster_size, events }
    }

    /// The events of the trace.
    pub open spec fn script(&self) -> Seq<AgentEventView> {
        item_contents(self.events@)
    }
}

/// The first event mismatch, if two normalized traces are not identical.
#[derive(Clone, Debug, Eq, PartialEq)]
pub struct TraceDifference {
    pub index: usize,
    pub left: Option<AgentEvent>,
    pub right: Option<AgentEvent>,
}

/// What a difference holds.
pub struct DifferenceView {
    pub index: int,
    pub left: Option<AgentEventView>,
    pub right: Option<AgentEventView>,
}

/// The contents of an optional event.
pub open spec fn event_in(event: Option<AgentEvent>) -> Option<AgentEventView> {
    match event {
        Some(value) => Some(value@),
        None => None,
    }
}

impl View for TraceDifference {
    type V = DifferenceView;

    open spec fn view(&self) -> DifferenceView {
        DifferenceView {
            index: self.index as int,
            left: event_in(self.left),
            right: event_in(self.right),
        }
    }
}

/// Comparison result with both event and replay-state equality. A pair of
/// traces can reach equal state while still differing in protocol behaviour.
#[derive(Clone, Debug, Eq, PartialEq)]
pub struct TraceComparison {
    pub events_equal: bool,
    pub final_state_equal: bool,
    pub first_difference: Option<TraceDifference>,
}

impl TraceComparison {
    pub fn equivalent(&self) -> (yes: bool)
        ensures
            yes == is_equivalent(*self),
    {
        self.events_equal && self.final_state_equal
    }
}

/// The event at an index, if the trace is that long.
pub open spec fn event_at(events: Seq<AgentEventView>, index: int) -> Option<AgentEventView> {
    if 0 <= index < events.len() {
        Some(events[index])
    } else {
        None
    }
}

/// The first index at or after `from` at which two traces differ.
pub open spec fn differing_index(
    left: Seq<AgentEventView>,
    right: Seq<AgentEventView>,
    from: int,
) -> Option<int>
    decreases left.len() - from,
{
    if from < 0 || (from >= left.len() && from >= right.len()) {
        None
    } else if from >= left.len() || from >= right.len() || left[from] != right[from] {
        Some(from)
    } else {
        differing_index(left, right, from + 1)
    }
}

/// The first difference of two traces, with the events that stand there.
pub open spec fn difference(left: Seq<AgentEventView>, right: Seq<AgentEventView>) -> Option<
    DifferenceView,
> {
    match differing_index(left, right, 0) {
        Some(index) => Some(
            DifferenceView { index, left: event_at(left, index), right: event_at(right, index) },
        ),
        None => None,
    }
}

proof fn lemma_differing_index(left: Seq<AgentEventView>, right: Seq<AgentEventView>, from: int)
    requires
        0 <= from,
    ensures
        match differing_index(left, right, from) {
            Some(index) => from <= index && event_at(left, index) != event_at(right, index)
                && forall|i: int| from <= i < index ==> event_at(left, i) == event_at(right, i),
            None => forall|i: int| from <= i ==> event_at(left, i) == event_at(right, i),
        },
    decreases left.len() - from,
{
    if from < left.len() && from < right.len() && left[from] == right[from] {
        lemma_differing_index(left, right, from + 1);
    }
}

/// Traces without a difference are the same, and a difference is the first place
/// at which they disagree.
pub proof fn law_difference_is_the_first(left: Seq<AgentEventView>, right: Seq<AgentEventView>)
    ensures
        difference(left, right) is None <==> left == right,
        difference(left, right) matches Some(found) ==> found.left != found.right && forall|i: int|
            0 <= i < found.index ==> event_at(left, i) == event_at(right, i),
{
    lemma_differing_index(left, right, 0);
    if difference(left, right) is None {
        assert(left.len() == right.len()) by {
            assert(event_at(left, left.len() as int) == event_at(right, left.len() as int));
            assert(event_at(left, right.len() as int) == event_at(right, right.len() as int));
        }
        assert forall|i: int| 0 <= i < left.len() implies left[i] == right[i] by {
            assert(event_at(left, i) == event_at(right, i));
        }
        assert(left =~= right);
    }
}

/// What comparing two traces gives, given what the session states hold that they replay to.
pub open spec fn compared<V>(
    left: ScriptedTrace,
    right: ScriptedTrace,
    left_state: V,
    right_state: V,
    comparison: TraceComparison,
) -> bool {
    &&& comparison.events_equal == (left.script() == right.script())
    &&& comparison.final_state_equal == (left.roster_size == right.roster_size && left_state
        == right_state)
    &&& match comparison.first_difference {
        Some(found) => difference(left.script(), right.script()) == Some(found@),
        None => difference(left.script(), right.script()) is None,
    }
}

/// Whether a comparison finds two traces equivalent.
pub open spec fn is_equivalent(comparison: TraceComparison) -> bool {
    comparison.events_equal && comparison.final_state_equal
}

/// However traces are replayed, they are equivalent exactly when their events are equal and
/// their rosters are of one size. Their names do not matter, and traces that reach one state
/// by different events are not equivalent.
pub proof fn law_equivalent_traces_have_the_same_events<V>(
    left: ScriptedTrace,
    right: ScriptedTrace,
    replay: spec_fn(usize, Seq<AgentEventView>) -> V,
    comparison: TraceComparison,
)
    requires
        compared(
            left,
            right,
            replay(left.roster_size, left.script()),
            replay(right.roster_size, right.script()),
            comparison,
        ),
    ensures
        is_equivalent(comparison) <==> left.script() == right.script() && left.roster_size
            == right.roster_size,
{
}

/// Whether replaying depends on the roster's size and the events alone: what every state
/// that it gives holds is the outcome of the two.
pub open spec fn replays_to<S: View, F: Fn(usize, &Vec<AgentEvent>) -> S>(
    replay: F,
    outcome: spec_fn(usize, Seq<AgentEventView>) -> S::V,
) -> bool {
    forall|size: usize, events: &Vec<AgentEvent>, state: S| #[trigger]
        replay.ensures((size, events), state) ==> state@ == outcome(
            size,
            item_contents(events@),
        )
}

/// Compares two traces, also by the session states that `replay` gives for them. They are
/// equivalent exactly when their events are equal and their rosters are of one size.
pub fn compare_traces<S: Same, F: Fn(usize, &Vec<AgentEvent>) -> S>(
    left: &ScriptedTrace,
    right: &ScriptedTrace,
    replay: F,
) -> (comparison: TraceComparison)
    requires
        forall|size: usize, events: &Vec<AgentEvent>| #[trigger] replay.requires((size, events)),
        exists|outcome: spec_fn(usize, Seq<AgentEventView>) -> S::V| #[trigger]
            replays_to::<S, F>(replay, outcome),
    ensures
        forall|outcome: spec_fn(usize, Seq<AgentEventView>) -> S::V| #[trigger]
            replays_to::<S, F>(replay, outcome) ==> compared(
                *left,
                *right,
                outcome(left.roster_size, left.script()),
                outcome(right.roster_size, right.script()),
                comparison,
            ),
        is_equivalent(comparison) <==> left.script() == right.script() && left.roster_size
            == right.roster_size,
{
    let ghost l = left.script();
    let ghost r = right.script();
    proof {
        law_difference_is_the_first(l, r);
    }
    let mut index: usize = 0;
    while index < left.events.len() && index < right.events.len() && left.events[index].same(
        &right.events[index],
    )
        invariant
            index <= left.events@.len(),
            index <= right.events@.len(),
            l == left.script(),
            r == right.script(),
            differing_index(l, r, 0) == differing_index(l, r, index as int),
        decreases left.events@.len() - index,
    {
        assert(l[index as int] == left.events@[index as int]@);
        assert(r[index as int] == right.events@[index as int]@);
        index = index + 1;
    }
    proof {
        if index < left.events@.len() && index < right.events@.len() {
            assert(l[index as int] == left.events@[index as int]@);
            assert(r[index as int] == right.events@[index as int]@);
        }
    }
    let first_difference = if index == left.events.len() && index == right.events.len() {
        None
    } else {
        Some(
            TraceDifference {
                index,
                left: if index < left.events.len() {
                    Some(left.events[index].copy())
                } else {
                    None
                },
                right: if index < right.events.len() {
                    Some(right.events[index].copy())
                } else {
                    None
                },
            },
        )
    };
    let left_state = replay(left.roster_size, &left.events);
    let right_state = replay(right.roster_size, &right.events);
    TraceComparison {
        events_equal: first_difference.is_none(),
        final_state_equal: left.roster_size == right.roster_size && left_state.same(&right_state),
        first_difference,
    }
}

} // verus!
