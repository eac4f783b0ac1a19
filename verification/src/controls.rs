//! What the surface asks of the agents, and the policies behind it.

use crate::app::{App, AppView};
use crate::events::{AgentEvent, AgentEventView};
use crate::launch::{AgentSpec, SpecView};
use crate::permission::{PermissionAction, PermissionActionView};
use crate::queue::{QueuedPrompt, QueuedView};
use crate::roster::{active_slots, at_rest, RosterView};
use crate::text::{contains, has_part, lower, same, to_lower};
use vstd::prelude::*;

verus! {

/// The answer to a permission request.
#[derive(Clone, Debug, Eq, PartialEq)]
pub enum PermissionAnswer {
    Selected { option_id: String },
    Cancelled,
}

pub enum AnswerView {
    Selected { option_id: Seq<char> },
    Cancelled,
}

impl View for PermissionAnswer {
    type V = AnswerView;

    open spec fn view(&self) -> AnswerView {
        match self {
            PermissionAnswer::Selected { option_id } => AnswerView::Selected {
                option_id: option_id@,
            },
            PermissionAnswer::Cancelled => AnswerView::Cancelled,
        }
    }
}

/// How the agents work together.
#[derive(Clone, Copy, Debug, Eq, PartialEq, Structural)]
pub enum CollaborationStrategy {
    Roster,
    Pair,
    Manual,
}

/// A request to the agents.
#[derive(Clone, Debug, Eq, PartialEq)]
pub enum AdapterControl {
    Prompt(String),
    Queue { slot: usize, prompt: String },
    Direct { slot: usize, prompt: String },
    Add { spec: AgentSpec, identity: String },
    Permission { slot: usize, request_id: String, answer: PermissionAnswer },
    SetStrategy(CollaborationStrategy),
    SetMode(String),
    SetModel { slot: usize, model: String },
    Reload(usize),
    Drop(usize),
    Swap(usize, usize),
    Cancel,
    Stop,
}

pub enum ControlView {
    Prompt(Seq<char>),
    Queue { slot: usize, prompt: Seq<char> },
    Direct { slot: usize, prompt: Seq<char> },
    Add { spec: SpecView, identity: Seq<char> },
    Permission { slot: usize, request_id: Seq<char>, answer: AnswerView },
    SetStrategy(CollaborationStrategy),
    SetMode(Seq<char>),
    SetModel { slot: usize, model: Seq<char> },
    Reload(usize),
    Drop(usize),
    Swap(usize, usize),
    Cancel,
    Stop,
}

impl View for AdapterControl {
    type V = ControlView;

    open spec fn view(&self) -> ControlView {
        match self {
            AdapterControl::Prompt(prompt) => ControlView::Prompt(prompt@),
            AdapterControl::Queue { slot, prompt } => ControlView::Queue {
                slot: *slot,
                prompt: prompt@,
            },
            AdapterControl::Direct { slot, prompt } => ControlView::Direct {
                slot: *slot,
                prompt: prompt@,
            },
            AdapterControl::Add { spec, identity } => ControlView::Add {
                spec: spec@,
                identity: identity@,
            },
            AdapterControl::Permission { slot, request_id, answer } => ControlView::Permission {
                slot: *slot,
                request_id: request_id@,
                answer: answer@,
            },
            AdapterControl::SetStrategy(strategy) => ControlView::SetStrategy(*strategy),
            AdapterControl::SetMode(mode) => ControlView::SetMode(mode@),
            AdapterControl::SetModel { slot, model } => ControlView::SetModel {
                slot: *slot,
                model: model@,
            },
            AdapterControl::Reload(slot) => ControlView::Reload(*slot),
            AdapterControl::Drop(slot) => ControlView::Drop(*slot),
            AdapterControl::Swap(first, second) => ControlView::Swap(*first, *second),
            AdapterControl::Cancel => ControlView::Cancel,
            AdapterControl::Stop => ControlView::Stop,
        }
    }
}

/// The request that a waiting prompt becomes. A direct prompt needs an agent.
pub open spec fn queued_control(prompt: QueuedView) -> Option<ControlView> {
    match prompt.target {
        Some(slot) => if prompt.direct {
            Some(ControlView::Direct { slot, prompt: prompt.prompt })
        } else {
            Some(ControlView::Queue { slot, prompt: prompt.prompt })
        },
        None => if prompt.direct {
            None
        } else {
            Some(ControlView::Prompt(prompt.prompt))
        },
    }
}

/// A waiting prompt is asked of the agent that it waited for, word for word; one for nobody
/// in particular is for all, and one for a single agent alone is never asked of others.
pub proof fn law_waiting_prompts_keep_their_recipient(prompt: QueuedView)
    ensures
        match queued_control(prompt) {
            Some(ControlView::Queue { slot, prompt: asked }) => asked == prompt.prompt
                && prompt.target == Some(slot) && !prompt.direct,
            Some(ControlView::Direct { slot, prompt: asked }) => asked == prompt.prompt
                && prompt.target == Some(slot) && prompt.direct,
            Some(ControlView::Prompt(asked)) => asked == prompt.prompt && prompt.target is None
                && !prompt.direct,
            Some(_) => false,
            None => prompt.target is None && prompt.direct,
        },
{
}

/// The request that a waiting prompt becomes.
pub fn control_for_queued(prompt: &QueuedPrompt) -> (control: Option<AdapterControl>)
    ensures
        match control {
            Some(found) => queued_control(prompt@) == Some(found@),
            None => queued_control(prompt@) is None,
        },
{
    match prompt.target {
        Some(slot) => {
            if prompt.direct {
                Some(AdapterControl::Direct { slot, prompt: prompt.prompt.clone() })
            } else {
                Some(AdapterControl::Queue { slot, prompt: prompt.prompt.clone() })
            }
        },
        None => {
            if prompt.direct {
                None
            } else {
                Some(AdapterControl::Prompt(prompt.prompt.clone()))
            }
        },
    }
}

/// The request that a decision on a permission becomes.
pub open spec fn permission_control(action: PermissionActionView) -> Option<ControlView> {
    match action {
        PermissionActionView::Answer { slot, request_id, option_index, option, option_id } => Some(
            ControlView::Permission {
                slot,
                request_id,
                answer: AnswerView::Selected { option_id },
            },
        ),
        PermissionActionView::Cancel { slot, request_id } => Some(
            ControlView::Permission { slot, request_id, answer: AnswerView::Cancelled },
        ),
        _ => None,
    }
}

/// The request that a decision on a permission becomes.
pub fn control_for_permission(action: PermissionAction) -> (control: Option<AdapterControl>)
    ensures
        match control {
            Some(found) => permission_control(action@) == Some(found@),
            None => permission_control(action@) is None,
        },
{
    match action {
        PermissionAction::Answer { slot, request_id, option_id, .. } => Some(
            AdapterControl::Permission {
                slot,
                request_id,
                answer: PermissionAnswer::Selected { option_id },
            },
        ),
        PermissionAction::Cancel { slot, request_id } => Some(
            AdapterControl::Permission { slot, request_id, answer: PermissionAnswer::Cancelled },
        ),
        _ => None,
    }
}

/// A decision reaches the agent and the question that it is about, as it was made; what is
/// no decision reaches nobody.
pub proof fn law_decisions_reach_their_question(action: PermissionActionView)
    ensures
        match action {
            PermissionActionView::Answer { slot, request_id, option_index, option, option_id } =>
            permission_control(action) == Some(
                ControlView::Permission {
                    slot,
                    request_id,
                    answer: AnswerView::Selected { option_id },
                },
            ),
            PermissionActionView::Cancel { slot, request_id } => permission_control(action) == Some(
                ControlView::Permission { slot, request_id, answer: AnswerView::Cancelled },
            ),
            _ => permission_control(action) is None,
        },
{
}

/// The strategy that a label stands for.
pub open spec fn strategy_of(label: Seq<char>) -> CollaborationStrategy {
    if label == "Manual routing"@ {
        CollaborationStrategy::Manual
    } else if label == "Pair review"@ {
        CollaborationStrategy::Pair
    } else {
        CollaborationStrategy::Roster
    }
}

/// The strategy that a label stands for.
pub fn collaboration_strategy(label: &str) -> (strategy: CollaborationStrategy)
    ensures
        strategy == strategy_of(label@),
{
    if same(label, "Manual routing") {
        CollaborationStrategy::Manual
    } else if same(label, "Pair review") {
        CollaborationStrategy::Pair
    } else {
        CollaborationStrategy::Roster
    }
}

/// The policy that stands for a mode with every agent.
pub open spec fn canonical_policy(policy: Seq<char>) -> Seq<char> {
    if policy == "plan"@ {
        "codeswarm:mode:plan"@
    } else if policy == "default"@ || policy == "manual"@ {
        "codeswarm:mode:manual"@
    } else if policy == "accept-edits"@ {
        "codeswarm:mode:accept-edits"@
    } else if policy == "full-access"@ || policy == "auto"@ || policy == "autopilot"@ {
        "codeswarm:mode:full-access"@
    } else {
        policy
    }
}

/// The policy that stands for a mode with every agent.
pub fn canonical_mode_policy(policy: &str) -> (canonical: String)
    ensures
        canonical@ == canonical_policy(policy@),
{
    if same(policy, "plan") {
        "codeswarm:mode:plan".to_owned()
    } else if same(policy, "default") || same(policy, "manual") {
        "codeswarm:mode:manual".to_owned()
    } else if same(policy, "accept-edits") {
        "codeswarm:mode:accept-edits".to_owned()
    } else if same(policy, "full-access") || same(policy, "auto") || same(policy, "autopilot") {
        "codeswarm:mode:full-access".to_owned()
    } else {
        policy.to_owned()
    }
}

/// Every name of a policy comes to one that stands for itself, and policies that are not
/// built in stay as they are.
pub proof fn law_canonical_policies_stand_for_themselves(policy: Seq<char>)
    ensures
        canonical_policy(canonical_policy(policy)) == canonical_policy(policy),
        canonical_policy(policy) == policy || canonical_policy(policy).take(15)
            == "codeswarm:mode:"@,
        canonical_policy("auto"@) == canonical_policy("full-access"@),
        canonical_policy("default"@) == canonical_policy("manual"@),
        canonical_policy("plan"@) != canonical_policy("full-access"@),
        canonical_policy("manual"@) != canonical_policy("full-access"@),
        canonical_policy("accept-edits"@) != canonical_policy("full-access"@),
{
    reveal_strlit("plan");
    reveal_strlit("default");
    reveal_strlit("manual");
    reveal_strlit("accept-edits");
    reveal_strlit("full-access");
    reveal_strlit("auto");
    reveal_strlit("autopilot");
    reveal_strlit("codeswarm:mode:");
    reveal_strlit("codeswarm:mode:plan");
    reveal_strlit("codeswarm:mode:manual");
    reveal_strlit("codeswarm:mode:accept-edits");
    reveal_strlit("codeswarm:mode:full-access");
    assert("plan"@.len() == 4 && "default"@.len() == 7 && "manual"@.len() == 6);
    assert("accept-edits"@.len() == 12 && "full-access"@.len() == 11 && "auto"@.len() == 4);
    assert("autopilot"@.len() == 9);
    assert("plan"@[0] == 'p' && "auto"@[0] == 'a');
    assert("codeswarm:mode:plan"@.len() == 19 && "codeswarm:mode:manual"@.len() == 21);
    assert("codeswarm:mode:accept-edits"@.len() == 27);
    assert("codeswarm:mode:full-access"@.len() == 26);
    assert("codeswarm:mode:plan"@.take(15) =~= "codeswarm:mode:"@);
    assert("codeswarm:mode:manual"@.take(15) =~= "codeswarm:mode:"@);
    assert("codeswarm:mode:accept-edits"@.take(15) =~= "codeswarm:mode:"@);
    assert("codeswarm:mode:full-access"@.take(15) =~= "codeswarm:mode:"@);
}

/// The agent that is selected: the one that was, while it takes part, and otherwise the
/// first that does.
pub open spec fn still_selected(active: Seq<usize>, selected: Option<usize>) -> Option<usize> {
    match selected {
        Some(slot) => if active.contains(slot) {
            Some(slot)
        } else if active.len() > 0 {
            Some(active[0])
        } else {
            None
        },
        None => None,
    }
}

fn takes_part(slots: &Vec<usize>, slot: usize) -> (yes: bool)
    ensures
        yes == slots@.contains(slot),
{
    let mut i: usize = 0;
    while i < slots.len()
        invariant
            i <= slots.len(),
            forall|k: int| 0 <= k < i ==> slots@[k] != slot,
        decreases slots.len() - i,
    {
        if slots[i] == slot {
            assert(slots@[i as int] == slot);
            return true;
        }
        i = i + 1;
    }
    false
}

/// The agent that is selected.
pub fn normalize_selected_slot(app: &App, selected: Option<usize>) -> (slot: Option<usize>)
    ensures
        slot == still_selected(active_slots(app@.roster.agents), selected),
{
    let active = app.active_roster_slots();
    match selected {
        Some(slot) => {
            if takes_part(&active, slot) {
                Some(slot)
            } else if active.len() > 0 {
                Some(active[0])
            } else {
                None
            }
        },
        None => None,
    }
}

/// A selected agent stays selected as long as it takes part, nobody is selected who does
/// not, and nobody is selected unasked.
pub proof fn law_only_active_agents_stay_selected(active: Seq<usize>, selected: Option<usize>)
    ensures
        selected matches Some(slot) ==> active.contains(slot) ==> still_selected(active, selected)
            == selected,
        still_selected(active, selected) matches Some(slot) ==> active.contains(slot),
        selected is Some && active.len() > 0 ==> still_selected(active, selected) is Some,
        selected is None ==> still_selected(active, selected) is None,
{
}

/// The selection after a message: only manual routing keeps it.
pub open spec fn route_after(app: AppView, selected: Option<usize>) -> Option<usize> {
    if app.settings.collaboration == "Manual routing"@ {
        selected
    } else {
        None
    }
}

/// Ends a selection that was for one message.
pub fn consume_one_shot_route(app: &App, selected: &mut Option<usize>)
    ensures
        *final(selected) == route_after(app@, *old(selected)),
{
    if !same(app.collaboration(), "Manual routing") {
        *selected = None;
    }
}

/// Whether an event is the moment to send configured models to an agent: it became ready
/// and takes models. A new catalog of models is not.
pub open spec fn models_due(event: AgentEventView) -> bool {
    event matches AgentEventView::Ready { slot, capabilities } && capabilities.supports_models
}

/// Whether an event is the moment to send configured models to an agent.
pub fn should_apply_configured_models(event: &AgentEvent) -> (yes: bool)
    ensures
        yes == models_due(event@),
{
    match event {
        AgentEvent::Ready { capabilities, .. } => capabilities.supports_models,
        _ => false,
    }
}

/// Whether an error ends a turn that was to be cancelled.
pub open spec fn ends_cancelled(app: AppView, error: Seq<char>) -> bool {
    app.cancelling || contains(lower(error), "cancelled"@)
}

/// The surface after an error: a turn that was to be cancelled is over.
pub open spec fn cancellation_settled(app: AppView, error: Seq<char>) -> AppView {
    if ends_cancelled(app, error) {
        AppView {
            cancelling: false,
            roster: RosterView { agents: at_rest(app.roster.agents), ..app.roster },
            status: "cancelled"@,
            ..app
        }
    } else {
        app
    }
}

/// Ends a turn that was to be cancelled; says whether there was one.
pub fn finish_pending_cancellation(app: &mut App, error_text: &str) -> (cancelled: bool)
    requires
        old(app).wf(),
    ensures
        final(app).wf(),
        cancelled == ends_cancelled(old(app)@, error_text@),
        final(app)@ == cancellation_settled(old(app)@, error_text@),
{
    let cancelled = app.cancellation_pending() || has_part(
        to_lower(error_text).as_str(),
        "cancelled",
    );
    if cancelled {
        app.finish_turn_cancellation();
    }
    cancelled
}

/// The most events that are taken between two frames. Output of the agents has no bound,
/// and taking all of it at once would keep the screen and the keyboard waiting.
pub const MAX_EVENTS_PER_FRAME: usize = 128;

/// Takes the events for one frame, oldest first, and leaves the others for the next.
pub fn next_event_batch<T>(pending: &mut Vec<T>) -> (batch: Vec<T>)
    ensures
        ({
            let n = if old(pending)@.len() < MAX_EVENTS_PER_FRAME {
                old(pending)@.len() as int
            } else {
                MAX_EVENTS_PER_FRAME as int
            };
            batch@ == old(pending)@.take(n) && final(pending)@ == old(pending)@.skip(n)
        }),
{
    let count: usize = if pending.len() < MAX_EVENTS_PER_FRAME {
        pending.len()
    } else {
        MAX_EVENTS_PER_FRAME
    };
    let rest = pending.split_off(count);
    let mut batch = rest;
    std::mem::swap(pending, &mut batch);
    batch
}

} // verus!
