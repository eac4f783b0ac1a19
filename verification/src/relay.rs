//! What the coordinator of the agents does with each request: between turns, during a
//! turn, and for an agent that runs by itself.

use crate::controls::{
    AdapterControl, AnswerView, CollaborationStrategy, ControlView, PermissionAnswer,
};
use crate::events::{AgentEvent, AgentEventView, RosterUpdate, RosterUpdateView};
use crate::launch::{AgentSpec, SpecView};
use crate::order::{item_contents, lemma_item_contents_push};
use crate::text::{append_decimal, append_text, decimal, to_chars, to_text};
use vstd::prelude::*;

verus! {

broadcast use lemma_item_contents_push;

/// What is done with a request that comes during a turn.
#[derive(Debug)]
pub enum TurnControl {
    /// The turn is to end.
    Cancel,
    /// An answer goes to the agent at once.
    Answer { slot: usize, request_id: String, answer: PermissionAnswer },
    /// The turn is to end, and everything with it.
    Stop,
    /// The request waits for the end of the turn.
    Defer(AdapterControl),
}

pub enum TurnControlView {
    Cancel,
    Answer { slot: usize, request_id: Seq<char>, answer: AnswerView },
    Stop,
    Defer(ControlView),
}

impl View for TurnControl {
    type V = TurnControlView;

    open spec fn view(&self) -> TurnControlView {
        match self {
            TurnControl::Cancel => TurnControlView::Cancel,
            TurnControl::Answer { slot, request_id, answer } => TurnControlView::Answer {
                slot: *slot,
                request_id: request_id@,
                answer: answer@,
            },
            TurnControl::Stop => TurnControlView::Stop,
            TurnControl::Defer(control) => TurnControlView::Defer(control@),
        }
    }
}

/// What is done with a request that comes during a turn. Without a request there will be
/// none any more.
pub open spec fn turn_control(control: Option<ControlView>) -> TurnControlView {
    match control {
        Some(ControlView::Cancel) => TurnControlView::Cancel,
        Some(ControlView::Permission { slot, request_id, answer }) => TurnControlView::Answer {
            slot,
            request_id,
            answer,
        },
        Some(ControlView::Stop) => TurnControlView::Stop,
        Some(other) => TurnControlView::Defer(other),
        None => TurnControlView::Stop,
    }
}

/// What is done with a request that comes during a turn.
pub fn during_turn(control: Option<AdapterControl>) -> (step: TurnControl)
    ensures
        step@ == turn_control(
            match control {
                Some(asked) => Some(asked@),
                None => None,
            },
        ),
{
    match control {
        Some(AdapterControl::Cancel) => TurnControl::Cancel,
        Some(AdapterControl::Permission { slot, request_id, answer }) => TurnControl::Answer {
            slot,
            request_id,
            answer,
        },
        Some(AdapterControl::Stop) => TurnControl::Stop,
        Some(other) => TurnControl::Defer(other),
        None => TurnControl::Stop,
    }
}

/// During a turn only an answer to the agent, a cancellation and the end of everything are
/// acted on: every other request waits, as it was made, and an answer reaches the agent and
/// the question that it is for.
pub proof fn law_other_requests_wait_for_the_turn(control: ControlView)
    ensures
        control is Prompt || control is Queue || control is Direct || control is SetModel
            || control is SetMode || control is SetStrategy || control is Reload || control is Drop
            || control is Swap || control is Add ==> turn_control(Some(control))
            == TurnControlView::Defer(control),
        control is Cancel ==> turn_control(Some(control)) is Cancel,
        control matches ControlView::Permission { slot, request_id, answer } ==> turn_control(
            Some(control),
        ) == (TurnControlView::Answer { slot, request_id, answer }),
{
}

/// Whether a request is met between two turns of a relay, without ending it.
pub open spec fn is_immediate(control: ControlView) -> bool {
    control is SetStrategy || control is SetMode
}

/// The first requests that are met between two turns.
pub open spec fn immediate(controls: Seq<ControlView>, n: int) -> Seq<ControlView>
    decreases n,
{
    if n <= 0 {
        Seq::empty()
    } else if is_immediate(controls[n - 1]) {
        immediate(controls, n - 1).push(controls[n - 1])
    } else {
        immediate(controls, n - 1)
    }
}

/// The first requests that end a relay, to be met after it.
pub open spec fn blocking(controls: Seq<ControlView>, n: int) -> Seq<ControlView>
    decreases n,
{
    if n <= 0 {
        Seq::empty()
    } else if is_immediate(controls[n - 1]) {
        blocking(controls, n - 1)
    } else {
        blocking(controls, n - 1).push(controls[n - 1])
    }
}

/// Requests that waited for a turn keep their order: those of two turns in a row are
/// those of the first and then those of the second.
pub proof fn law_deferred_requests_keep_their_order(
    first: Seq<ControlView>,
    second: Seq<ControlView>,
    n: int,
)
    requires
        0 <= n <= second.len(),
    ensures
        blocking(first + second, first.len() + n) == blocking(first, first.len() as int)
            + blocking(second, n),
        immediate(first + second, first.len() + n) == immediate(first, first.len() as int)
            + immediate(second, n),
    decreases n,
{
    if n > 0 {
        law_deferred_requests_keep_their_order(first, second, n - 1);
        assert((first + second)[first.len() + n - 1] == second[n - 1]);
        assert(blocking(first + second, first.len() + n) =~= blocking(first, first.len() as int)
            + blocking(second, n));
        assert(immediate(first + second, first.len() + n) =~= immediate(
            first,
            first.len() as int,
        ) + immediate(second, n));
    } else {
        lemma_prefix(first, second, first.len() as int);
        assert(blocking(first, first.len() as int) + blocking(second, 0) =~= blocking(
            first,
            first.len() as int,
        ));
        assert(immediate(first, first.len() as int) + immediate(second, 0) =~= immediate(
            first,
            first.len() as int,
        ));
    }
}

proof fn lemma_prefix(first: Seq<ControlView>, second: Seq<ControlView>, n: int)
    requires
        0 <= n <= first.len(),
    ensures
        blocking(first + second, n) == blocking(first, n),
        immediate(first + second, n) == immediate(first, n),
    decreases n,
{
    if n > 0 {
        lemma_prefix(first, second, n - 1);
        assert((first + second)[n - 1] == first[n - 1]);
    }
}

/// No request that waited for a turn is lost or met twice: those that are met at once
/// and those that end the relay are together the requests that waited.
pub proof fn law_no_deferred_request_is_lost(controls: Seq<ControlView>, n: int)
    requires
        0 <= n <= controls.len(),
    ensures
        immediate(controls, n).to_multiset().add(blocking(controls, n).to_multiset())
            == controls.take(n).to_multiset(),
        forall|i: int|
            0 <= i < immediate(controls, n).len() ==> is_immediate(
                #[trigger] immediate(controls, n)[i],
            ),
        forall|i: int|
            0 <= i < blocking(controls, n).len() ==> !is_immediate(
                #[trigger] blocking(controls, n)[i],
            ),
    decreases n,
{
    broadcast use vstd::seq_lib::group_to_multiset_ensures;

    if n > 0 {
        law_no_deferred_request_is_lost(controls, n - 1);
        assert(controls.take(n) =~= controls.take(n - 1).push(controls[n - 1]));
        assert(immediate(controls, n).to_multiset().add(blocking(controls, n).to_multiset())
            =~= controls.take(n).to_multiset());
    } else {
        assert(controls.take(n) =~= Seq::<ControlView>::empty());
        assert(immediate(controls, n).to_multiset().add(blocking(controls, n).to_multiset())
            =~= controls.take(n).to_multiset());
    }
}

/// A prompt that waited for a turn ends the relay, and so is asked next; a change of the
/// strategy or of the mode takes effect within the relay.
pub proof fn law_waiting_prompts_end_the_relay(controls: Seq<ControlView>, i: int)
    requires
        0 <= i < controls.len(),
    ensures
        controls[i] is Prompt || controls[i] is Queue || controls[i] is Direct || controls[i] is Add
            || controls[i] is Drop || controls[i] is Reload || controls[i] is Swap
            || controls[i] is SetModel ==> blocking(controls, controls.len() as int).contains(
            controls[i],
        ),
        controls[i] is SetStrategy || controls[i] is SetMode ==> immediate(
            controls,
            controls.len() as int,
        ).contains(controls[i]),
{
    lemma_kept(controls, i, controls.len() as int);
}

proof fn lemma_kept(controls: Seq<ControlView>, i: int, n: int)
    requires
        0 <= i < n <= controls.len(),
    ensures
        is_immediate(controls[i]) ==> immediate(controls, n).contains(controls[i]),
        !is_immediate(controls[i]) ==> blocking(controls, n).contains(controls[i]),
    decreases n,
{
    if i < n - 1 {
        lemma_kept(controls, i, n - 1);
        let (now, later) = (immediate(controls, n - 1), blocking(controls, n - 1));
        if is_immediate(controls[i]) {
            let k = choose|k: int| 0 <= k < now.len() && now[k] == controls[i];
            assert(immediate(controls, n)[k] == controls[i]);
        } else {
            let k = choose|k: int| 0 <= k < later.len() && later[k] == controls[i];
            assert(blocking(controls, n)[k] == controls[i]);
        }
    } else if is_immediate(controls[i]) {
        assert(immediate(controls, n).last() == controls[i]);
    } else {
        assert(blocking(controls, n).last() == controls[i]);
    }
}

/// The requests that waited for a turn: those that are met at once, and those that end
/// the relay.
pub fn after_turn(deferred: Vec<AdapterControl>) -> (parts: (
    Vec<AdapterControl>,
    Vec<AdapterControl>,
))
    ensures
        item_contents(parts.0@) == immediate(
            item_contents(deferred@),
            deferred@.len() as int,
        ),
        item_contents(parts.1@) == blocking(item_contents(deferred@), deferred@.len() as int),
{
    let ghost given = deferred@;
    let ghost all = item_contents(given);
    let mut at_once: Vec<AdapterControl> = Vec::new();
    let mut later: Vec<AdapterControl> = Vec::new();
    let mut rest = deferred;
    let count: usize = rest.len();
    let mut done: usize = 0;
    assert(item_contents(at_once@) =~= Seq::empty());
    assert(item_contents(later@) =~= Seq::empty());
    while done < count
        invariant
            done <= count,
            count == given.len(),
            all == item_contents(given),
            rest@ == given.skip(done as int),
            item_contents(at_once@) == immediate(all, done as int),
            item_contents(later@) == blocking(all, done as int),
        decreases count - done,
    {
        let control = rest.remove(0);
        assert(rest@ =~= given.skip(done + 1));
        assert(all[done as int] == control@);
        let now = match &control {
            AdapterControl::SetStrategy(_) => true,
            AdapterControl::SetMode(_) => true,
            _ => false,
        };
        if now {
            at_once.push(control);
        } else {
            later.push(control);
        }
        done = done + 1;
    }
    (at_once, later)
}

/// Whether a relay goes on with another turn: nothing ends it, the coordinator wants to
/// dispatch, and there is somebody else to dispatch to.
pub open spec fn goes_on(stopping: bool, waiting: int, dispatch: bool, active: int) -> bool {
    !stopping && waiting == 0 && dispatch && active != 1
}

/// An agent never answers itself, and what waits is met before another turn; otherwise a
/// relay of several agents runs as long as the coordinator dispatches.
pub proof fn law_relays_yield_to_what_waits(stopping: bool, waiting: int, dispatch: bool, active: int)
    ensures
        !goes_on(stopping, waiting, dispatch, 1),
        !goes_on(true, waiting, dispatch, active),
        waiting > 0 ==> !goes_on(stopping, waiting, dispatch, active),
        active > 1 ==> goes_on(false, 0, dispatch, active) == dispatch,
{
}

/// Whether a relay goes on with another turn. `waiting` is how many requests end it, and
/// `active` how many agents take part. One agent never reviews itself.
pub fn relay_goes_on(stopping: bool, waiting: usize, dispatch: bool, active: usize) -> (yes: bool)
    ensures
        yes == goes_on(stopping, waiting as int, dispatch, active as int),
{
    !stopping && waiting == 0 && dispatch && active != 1
}

/// What the coordinator does with a request between relays.
#[derive(Debug)]
pub enum RelayStep {
    /// Queue a prompt of the person for whoever is next, or for one agent, and let the
    /// relay run from a slot; what to say where the prompt is not taken.
    Ask { prompt: String, target: Option<usize>, start: usize, refusal: &'static str },
    /// Queue a prompt for one agent alone, and let it run.
    Direct { slot: usize, prompt: String, refusal: &'static str },
    Answer { slot: usize, request_id: String, answer: PermissionAnswer },
    Strategy(CollaborationStrategy),
    Mode(String),
    /// A change of the roster, with its name in case it is refused.
    Change { change: RosterChange, action: String },
    /// There is no turn to cancel.
    NothingToCancel,
    Stop,
}

/// A change of the roster.
#[derive(Debug)]
pub enum RosterChange {
    Model { slot: usize, model: String },
    Reload(usize),
    Drop(usize),
    Swap(usize, usize),
    Add { spec: AgentSpec, identity: String },
}

pub enum RelayStepView {
    Ask { prompt: Seq<char>, target: Option<usize>, start: usize, refusal: Seq<char> },
    Direct { slot: usize, prompt: Seq<char>, refusal: Seq<char> },
    Answer { slot: usize, request_id: Seq<char>, answer: AnswerView },
    Strategy(CollaborationStrategy),
    Mode(Seq<char>),
    Change { change: RosterChangeView, action: Seq<char> },
    NothingToCancel,
    Stop,
}

pub enum RosterChangeView {
    Model { slot: usize, model: Seq<char> },
    Reload(usize),
    Drop(usize),
    Swap(usize, usize),
    Add { spec: SpecView, identity: Seq<char> },
}

impl View for RosterChange {
    type V = RosterChangeView;

    open spec fn view(&self) -> RosterChangeView {
        match self {
            RosterChange::Model { slot, model } => RosterChangeView::Model {
                slot: *slot,
                model: model@,
            },
            RosterChange::Reload(slot) => RosterChangeView::Reload(*slot),
            RosterChange::Drop(slot) => RosterChangeView::Drop(*slot),
            RosterChange::Swap(first, second) => RosterChangeView::Swap(*first, *second),
            RosterChange::Add { spec, identity } => RosterChangeView::Add {
                spec: spec@,
                identity: identity@,
            },
        }
    }
}

impl View for RelayStep {
    type V = RelayStepView;

    open spec fn view(&self) -> RelayStepView {
        match self {
            RelayStep::Ask { prompt, target, start, refusal } => RelayStepView::Ask {
                prompt: prompt@,
                target: *target,
                start: *start,
                refusal: refusal@,
            },
            RelayStep::Direct { slot, prompt, refusal } => RelayStepView::Direct {
                slot: *slot,
                prompt: prompt@,
                refusal: refusal@,
            },
            RelayStep::Answer { slot, request_id, answer } => RelayStepView::Answer {
                slot: *slot,
                request_id: request_id@,
                answer: answer@,
            },
            RelayStep::Strategy(strategy) => RelayStepView::Strategy(*strategy),
            RelayStep::Mode(mode) => RelayStepView::Mode(mode@),
            RelayStep::Change { change, action } => RelayStepView::Change {
                change: change@,
                action: action@,
            },
            RelayStep::NothingToCancel => RelayStepView::NothingToCancel,
            RelayStep::Stop => RelayStepView::Stop,
        }
    }
}

/// The name of a change of the roster.
pub open spec fn change_name(change: RosterChangeView) -> Seq<char> {
    match change {
        RosterChangeView::Model { slot, model } => "set model for agent "@ + decimal(slot as nat),
        RosterChangeView::Reload(slot) => "reload agent "@ + decimal(slot as nat),
        RosterChangeView::Drop(slot) => "drop agent "@ + decimal(slot as nat),
        RosterChangeView::Swap(first, second) => "swap agents "@ + decimal(first as nat) + " and "@
            + decimal(second as nat),
        RosterChangeView::Add { spec, identity } => "add agent"@,
    }
}

pub open spec fn changing(change: RosterChangeView) -> RelayStepView {
    RelayStepView::Change { change, action: change_name(change) }
}

/// What the coordinator does with a request between relays. `first_active` is the first
/// agent that takes part, and `first_slot` the one that began.
pub open spec fn relay_step(
    control: Option<ControlView>,
    first_active: Option<usize>,
    first_slot: usize,
) -> RelayStepView {
    match control {
        Some(ControlView::Prompt(prompt)) => RelayStepView::Ask {
            prompt,
            target: None,
            start: match first_active {
                Some(slot) => slot,
                None => first_slot,
            },
            refusal: "unable to queue prompt for roster"@,
        },
        Some(ControlView::Queue { slot, prompt }) => RelayStepView::Ask {
            prompt,
            target: Some(slot),
            start: slot,
            refusal: "unable to queue prompt for selected agent"@,
        },
        Some(ControlView::Direct { slot, prompt }) => RelayStepView::Direct {
            slot,
            prompt,
            refusal: "unable to queue direct prompt"@,
        },
        Some(ControlView::Permission { slot, request_id, answer }) => RelayStepView::Answer {
            slot,
            request_id,
            answer,
        },
        Some(ControlView::SetStrategy(strategy)) => RelayStepView::Strategy(strategy),
        Some(ControlView::SetMode(mode)) => RelayStepView::Mode(mode),
        Some(ControlView::SetModel { slot, model }) => changing(
            RosterChangeView::Model { slot, model },
        ),
        Some(ControlView::Reload(slot)) => changing(RosterChangeView::Reload(slot)),
        Some(ControlView::Drop(slot)) => changing(RosterChangeView::Drop(slot)),
        Some(ControlView::Swap(first, second)) => changing(RosterChangeView::Swap(first, second)),
        Some(ControlView::Add { spec, identity }) => changing(
            RosterChangeView::Add { spec, identity },
        ),
        Some(ControlView::Cancel) => RelayStepView::NothingToCancel,
        Some(ControlView::Stop) => RelayStepView::Stop,
        None => RelayStepView::Stop,
    }
}

/// A prompt that was sent for one agent asks exactly that agent, whoever else takes part,
/// and a prompt for all begins with the first agent that takes part. The words of a prompt
/// stay as they are.
pub proof fn law_prompts_reach_the_agent_they_are_for(
    slot: usize,
    prompt: Seq<char>,
    first_active: Option<usize>,
    first_slot: usize,
)
    ensures
        relay_step(
            Some(ControlView::Queue { slot, prompt }),
            first_active,
            first_slot,
        ) matches RelayStepView::Ask { prompt: asked, target, start, .. } && asked == prompt
            && target == Some(slot) && start == slot,
        relay_step(
            Some(ControlView::Direct { slot, prompt }),
            first_active,
            first_slot,
        ) matches RelayStepView::Direct { slot: asks, prompt: asked, .. } && asked == prompt
            && asks == slot,
        relay_step(
            Some(ControlView::Prompt(prompt)),
            Some(slot),
            first_slot,
        ) matches RelayStepView::Ask { prompt: asked, target, start, .. } && asked == prompt
            && target is None && start == slot,
        relay_step(
            Some(ControlView::Prompt(prompt)),
            None,
            first_slot,
        ) matches RelayStepView::Ask { prompt: asked, target, start, .. } && asked == prompt
            && target is None && start == first_slot,
{
}

/// A request that is about one agent, or two, is met for that agent and no other.
pub proof fn law_requests_are_met_for_their_agent(
    slot: usize,
    second: usize,
    text: Seq<char>,
    answer: AnswerView,
    first_active: Option<usize>,
    first_slot: usize,
)
    ensures
        relay_step(
            Some(ControlView::Permission { slot, request_id: text, answer }),
            first_active,
            first_slot,
        ) == (RelayStepView::Answer { slot, request_id: text, answer }),
        relay_step(
            Some(ControlView::SetModel { slot, model: text }),
            first_active,
            first_slot,
        ) matches RelayStepView::Change { change, .. } && change == (RosterChangeView::Model {
            slot,
            model: text,
        }),
        relay_step(
            Some(ControlView::Reload(slot)),
            first_active,
            first_slot,
        ) matches RelayStepView::Change { change, .. } && change == RosterChangeView::Reload(slot),
        relay_step(
            Some(ControlView::Drop(slot)),
            first_active,
            first_slot,
        ) matches RelayStepView::Change { change, .. } && change == RosterChangeView::Drop(slot),
        relay_step(
            Some(ControlView::Swap(slot, second)),
            first_active,
            first_slot,
        ) matches RelayStepView::Change { change, .. } && change == RosterChangeView::Swap(
            slot,
            second,
        ),
{
}

/// The coordinator stops when it is told to, or when nobody is left to tell it anything,
/// and for no other reason.
pub proof fn law_only_a_request_to_stop_stops(
    control: Option<ControlView>,
    first_active: Option<usize>,
    first_slot: usize,
)
    ensures
        relay_step(control, first_active, first_slot) is Stop <==> (control is None || control
            == Some(ControlView::Stop)),
        turn_control(control) is Stop <==> (control is None || control == Some(ControlView::Stop)),
{
}

fn numbered(text: &str, slot: usize) -> (name: String)
    ensures
        name@ == text@ + decimal(slot as nat),
{
    let mut name = to_chars(text);
    append_decimal(&mut name, slot as u64);
    to_text(&name)
}

fn make_change(change: RosterChange) -> (step: RelayStep)
    ensures
        step@ == changing(change@),
{
    let action = match &change {
        RosterChange::Model { slot, .. } => numbered("set model for agent ", *slot),
        RosterChange::Reload(slot) => numbered("reload agent ", *slot),
        RosterChange::Drop(slot) => numbered("drop agent ", *slot),
        RosterChange::Swap(first, second) => {
            let mut name = to_chars("swap agents ");
            append_decimal(&mut name, *first as u64);
            append_text(&mut name, " and ");
            append_decimal(&mut name, *second as u64);
            to_text(&name)
        },
        RosterChange::Add { .. } => "add agent".to_owned(),
    };
    RelayStep::Change { change, action }
}

/// What the coordinator does with a request between relays.
pub fn between_turns(
    control: Option<AdapterControl>,
    first_active: Option<usize>,
    first_slot: usize,
) -> (step: RelayStep)
    ensures
        step@ == relay_step(
            match control {
                Some(asked) => Some(asked@),
                None => None,
            },
            first_active,
            first_slot,
        ),
{
    let control = match control {
        Some(control) => control,
        None => {
            return RelayStep::Stop;
        },
    };
    match control {
        AdapterControl::Prompt(prompt) => {
            let start: usize = match first_active {
                Some(slot) => slot,
                None => first_slot,
            };
            RelayStep::Ask {
                prompt,
                target: None,
                start,
                refusal: "unable to queue prompt for roster",
            }
        },
        AdapterControl::Queue { slot, prompt } => RelayStep::Ask {
            prompt,
            target: Some(slot),
            start: slot,
            refusal: "unable to queue prompt for selected agent",
        },
        AdapterControl::Direct { slot, prompt } => RelayStep::Direct {
            slot,
            prompt,
            refusal: "unable to queue direct prompt",
        },
        AdapterControl::Permission { slot, request_id, answer } => RelayStep::Answer {
            slot,
            request_id,
            answer,
        },
        AdapterControl::SetStrategy(strategy) => RelayStep::Strategy(strategy),
        AdapterControl::SetMode(mode) => RelayStep::Mode(mode),
        AdapterControl::SetModel { slot, model } => make_change(RosterChange::Model { slot, model }),
        AdapterControl::Reload(slot) => make_change(RosterChange::Reload(slot)),
        AdapterControl::Drop(slot) => make_change(RosterChange::Drop(slot)),
        AdapterControl::Swap(first, second) => make_change(RosterChange::Swap(first, second)),
        AdapterControl::Add { spec, identity } => make_change(RosterChange::Add { spec, identity }),
        AdapterControl::Cancel => RelayStep::NothingToCancel,
        AdapterControl::Stop => RelayStep::Stop,
    }
}

/// The event that says that a change of the roster was refused.
pub fn refused_change(action: String, detail: String) -> (event: AgentEvent)
    ensures
        event@ == (AgentEventView::RosterUpdated {
            update: RosterUpdateView::Rejected { action: action@, detail: detail@ },
        }),
{
    AgentEvent::RosterUpdated { update: RosterUpdate::Rejected { action, detail } }
}

/// What is asked of an agent that runs by itself.
#[derive(Debug)]
pub enum DirectStep {
    /// Send a prompt; the turn has begun once it is taken.
    Prompt(String),
    Cancel,
    Answer { request_id: String, answer: PermissionAnswer },
    Mode(String),
    /// Set a model, and report it once it is set.
    Model(String),
    Reload,
    /// The request means nothing to a single agent.
    Nothing,
    Stop,
}

pub enum DirectStepView {
    Prompt(Seq<char>),
    Cancel,
    Answer { request_id: Seq<char>, answer: AnswerView },
    Mode(Seq<char>),
    Model(Seq<char>),
    Reload,
    Nothing,
    Stop,
}

impl View for DirectStep {
    type V = DirectStepView;

    open spec fn view(&self) -> DirectStepView {
        match self {
            DirectStep::Prompt(prompt) => DirectStepView::Prompt(prompt@),
            DirectStep::Cancel => DirectStepView::Cancel,
            DirectStep::Answer { request_id, answer } => DirectStepView::Answer {
                request_id: request_id@,
                answer: answer@,
            },
            DirectStep::Mode(mode) => DirectStepView::Mode(mode@),
            DirectStep::Model(model) => DirectStepView::Model(model@),
            DirectStep::Reload => DirectStepView::Reload,
            DirectStep::Nothing => DirectStepView::Nothing,
            DirectStep::Stop => DirectStepView::Stop,
        }
    }
}

/// What a request asks of an agent that runs by itself.
pub open spec fn direct_step(control: Option<ControlView>) -> DirectStepView {
    match control {
        Some(ControlView::Prompt(prompt)) => DirectStepView::Prompt(prompt),
        Some(ControlView::Cancel) => DirectStepView::Cancel,
        Some(ControlView::Permission { slot, request_id, answer }) => DirectStepView::Answer {
            request_id,
            answer,
        },
        Some(ControlView::SetMode(mode)) => DirectStepView::Mode(mode),
        Some(ControlView::SetModel { slot, model }) => DirectStepView::Model(model),
        Some(ControlView::Reload(slot)) => DirectStepView::Reload,
        Some(ControlView::Stop) => DirectStepView::Stop,
        None => DirectStepView::Stop,
        _ => DirectStepView::Nothing,
    }
}

/// What a request asks of an agent that runs by itself.
pub fn ask_directly(control: Option<AdapterControl>) -> (step: DirectStep)
    ensures
        step@ == direct_step(
            match control {
                Some(asked) => Some(asked@),
                None => None,
            },
        ),
{
    match control {
        Some(AdapterControl::Prompt(prompt)) => DirectStep::Prompt(prompt),
        Some(AdapterControl::Cancel) => DirectStep::Cancel,
        Some(AdapterControl::Permission { request_id, answer, .. }) => DirectStep::Answer {
            request_id,
            answer,
        },
        Some(AdapterControl::SetMode(mode)) => DirectStep::Mode(mode),
        Some(AdapterControl::SetModel { model, .. }) => DirectStep::Model(model),
        Some(AdapterControl::Reload(_)) => DirectStep::Reload,
        Some(AdapterControl::Stop) => DirectStep::Stop,
        None => DirectStep::Stop,
        _ => DirectStep::Nothing,
    }
}

/// Why an agent did not do what it was asked.
#[derive(Clone, Debug, Eq, PartialEq)]
pub enum AdapterError {
    Spawn(String),
    Transport(String),
    Unsupported(String),
}

pub enum ErrorView {
    Spawn(Seq<char>),
    Transport(Seq<char>),
    Unsupported(Seq<char>),
}

impl View for AdapterError {
    type V = ErrorView;

    open spec fn view(&self) -> ErrorView {
        match self {
            AdapterError::Spawn(detail) => ErrorView::Spawn(detail@),
            AdapterError::Transport(detail) => ErrorView::Transport(detail@),
            AdapterError::Unsupported(detail) => ErrorView::Unsupported(detail@),
        }
    }
}

/// How the turn of an agent that runs by itself ends when it was cancelled. It always
/// ends, whatever the agent makes of the request.
pub open spec fn cancelled_turn(outcome: Result<bool, ErrorView>) -> ErrorView {
    match outcome {
        Ok(true) => ErrorView::Transport("standalone turn cancelled"@),
        Ok(false) => ErrorView::Unsupported("adapter did not accept cancellation"@),
        Err(error) => error,
    }
}

/// How the turn of an agent that runs by itself ends when it was cancelled. What was held
/// back of its answer is dropped, so that it cannot appear in the next one.
pub fn finish_cancelled_turn(
    outcome: Result<bool, AdapterError>,
    response_tail: &mut String,
) -> (error: AdapterError)
    ensures
        error@ == cancelled_turn(
            match outcome {
                Ok(accepted) => Ok(accepted),
                Err(refused) => Err(refused@),
            },
        ),
        final(response_tail)@ == Seq::<char>::empty(),
{
    *response_tail = String::new();
    match outcome {
        Ok(true) => AdapterError::Transport("standalone turn cancelled".to_owned()),
        Ok(false) => AdapterError::Unsupported("adapter did not accept cancellation".to_owned()),
        Err(refused) => refused,
    }
}

/// An agent that runs by itself is asked what was asked: a prompt, an answer, a mode and a
/// model reach it as they are. What only a roster can do asks nothing of it, and it stops
/// when it is told to or when nobody is left to tell it anything.
pub proof fn law_an_agent_by_itself_is_asked_what_was_asked(
    slot: usize,
    second: usize,
    text: Seq<char>,
    answer: AnswerView,
    strategy: CollaborationStrategy,
    spec: SpecView,
)
    ensures
        direct_step(Some(ControlView::Prompt(text))) == DirectStepView::Prompt(text),
        direct_step(Some(ControlView::SetMode(text))) == DirectStepView::Mode(text),
        direct_step(Some(ControlView::SetModel { slot, model: text })) == DirectStepView::Model(
            text,
        ),
        direct_step(Some(ControlView::Permission { slot, request_id: text, answer })) == (
        DirectStepView::Answer { request_id: text, answer }),
        direct_step(Some(ControlView::Cancel)) is Cancel,
        direct_step(Some(ControlView::Reload(slot))) is Reload,
        direct_step(Some(ControlView::Stop)) is Stop,
        direct_step(None) is Stop,
        direct_step(Some(ControlView::Drop(slot))) is Nothing,
        direct_step(Some(ControlView::Swap(slot, second))) is Nothing,
        direct_step(Some(ControlView::SetStrategy(strategy))) is Nothing,
        direct_step(Some(ControlView::Add { spec, identity: text })) is Nothing,
        direct_step(Some(ControlView::Queue { slot, prompt: text })) is Nothing,
        direct_step(Some(ControlView::Direct { slot, prompt: text })) is Nothing,
{
}

/// A turn that was cancelled says whether the agent took the request: only what it took is
/// reported as cancelled, and a failure to ask is reported as that failure.
pub proof fn law_cancelled_turns_say_what_came_of_it(outcome: Result<bool, ErrorView>)
    ensures
        cancelled_turn(outcome) is Transport && cancelled_turn(outcome)->Transport_0
            == "standalone turn cancelled"@ <==> outcome == Ok::<bool, ErrorView>(true) || outcome
            == Err::<bool, ErrorView>(ErrorView::Transport("standalone turn cancelled"@)),
        outcome == Ok::<bool, ErrorView>(false) ==> cancelled_turn(outcome) is Unsupported,
        outcome matches Err(error) ==> cancelled_turn(outcome) == error,
{
}

} // verus!
