//! A running conversation: what the events of the agents, the passing of time and the
//! mouse do to it.
//!
//! The conversation asks for what it cannot do by itself through effects, in order.

use crate::app::{after_event, App, AppView, Moment};
use crate::catalog_rows::{chosen_slots, slots_at};
use crate::commands::{config_opened, saying};
use crate::config::{ConfigAction, ConfigKey};
use crate::config_keys::config_response;
use crate::controls::{
    canonical_mode_policy, canonical_policy, cancellation_settled, collaboration_strategy,
    control_for_queued, ends_cancelled, finish_pending_cancellation, models_due,
    normalize_selected_slot, queued_control, should_apply_configured_models, still_selected,
    strategy_of, AdapterControl, ControlView,
};
use crate::events::{AgentEvent, AgentEventView, Mode, ModeView, RosterUpdate, RosterUpdateView};
use crate::footer::{click_at, FooterAction};
use crate::launch::{RosterSlot, SlotView};
use crate::notice::{has_ended, notice_ended, shown_for};
use crate::order::{item_contents, lemma_item_contents_push};
use crate::panels::Area;
use crate::picker::{dismissed, is_open};
use crate::queue::{place_of, without};
use crate::roster::{active_slots, failed_slot, name_of, RosterView};
use crate::roster_sync::{first_live, reconciled, roster_fault, Reconciliation, ReconciliationView};
use crate::store::{chosen, chosen_rows};
use crate::surface::{alerted, may_notify, rows_left, scrolled};
use crate::terminal_input::{
    apply_mouse_scroll, decoded, selection_window_over, wheel_rows, within_window,
    ConfigInputDecoder, MouseKind,
};
use crate::text::{
    append_text, eq_ignore_case, join, joined_text, optional, same, same_ignoring_case, strings,
    to_chars, to_text,
};
use std::collections::BTreeSet;
use vstd::prelude::*;

verus! {

broadcast use {lemma_item_contents_push, vstd::std_specs::btree::group_btree_axioms};

/// The way to the agents.
#[derive(Clone, Copy, Debug, Eq, PartialEq, Structural)]
pub enum Link {
    /// There are no agents.
    Absent,
    /// The agents are gone, and no request reaches them.
    Closed,
    Open,
}

/// What the conversation asks for.
#[derive(Clone, Debug, Eq, PartialEq)]
pub enum Effect {
    Send(AdapterControl),
    /// Save the roster, and say how that went.
    SaveRoster(Vec<RosterSlot>),
    /// Tell the person that an agent waits for a permission.
    NotifyPermission(String),
    /// Tell the person that an agent finished its turn.
    NotifyTurn(String),
    Bell,
    EnableMouse,
    DisableMouse,
    /// Keep a submission for the next conversation.
    Remember(String),
    /// Write the conversation to a file, and say how that went.
    Export,
    /// Start an agent that was asked for by name.
    AddAgent(String),
    /// Show what changed in the workspace.
    ShowDiff,
    /// Repeat a request, or say what is repeated, as the text asks.
    Loop(String),
    /// Repeat nothing any more.
    EndLoop,
    /// Set, run, end or show the goal, as the text asks.
    Goal(String),
    /// Say what runs, and with whom.
    Status,
    /// Say what was observed of the last task.
    Summary,
    /// Browse the saved conversations.
    Sessions,
    /// Open the previous conversation, without starting agents.
    Resume,
    /// End the conversation.
    Quit,
}

pub enum EffectView {
    Send(ControlView),
    SaveRoster(Seq<SlotView>),
    NotifyPermission(Seq<char>),
    NotifyTurn(Seq<char>),
    Bell,
    EnableMouse,
    DisableMouse,
    Remember(Seq<char>),
    Export,
    AddAgent(Seq<char>),
    ShowDiff,
    Loop(Seq<char>),
    EndLoop,
    Goal(Seq<char>),
    Status,
    Summary,
    Sessions,
    Resume,
    Quit,
}

impl View for Effect {
    type V = EffectView;

    open spec fn view(&self) -> EffectView {
        match self {
            Effect::Send(control) => EffectView::Send(control@),
            Effect::SaveRoster(slots) => EffectView::SaveRoster(item_contents(slots@)),
            Effect::NotifyPermission(agent) => EffectView::NotifyPermission(agent@),
            Effect::NotifyTurn(agent) => EffectView::NotifyTurn(agent@),
            Effect::Bell => EffectView::Bell,
            Effect::EnableMouse => EffectView::EnableMouse,
            Effect::DisableMouse => EffectView::DisableMouse,
            Effect::Remember(prompt) => EffectView::Remember(prompt@),
            Effect::Export => EffectView::Export,
            Effect::AddAgent(name) => EffectView::AddAgent(name@),
            Effect::ShowDiff => EffectView::ShowDiff,
            Effect::Loop(text) => EffectView::Loop(text@),
            Effect::EndLoop => EffectView::EndLoop,
            Effect::Goal(text) => EffectView::Goal(text@),
            Effect::Status => EffectView::Status,
            Effect::Summary => EffectView::Summary,
            Effect::Sessions => EffectView::Sessions,
            Effect::Resume => EffectView::Resume,
            Effect::Quit => EffectView::Quit,
        }
    }
}

/// What a running conversation keeps beside its surface.
#[derive(Debug)]
pub struct Session {
    /// The agent that the person selected for the next message.
    pub selected_slot: Option<usize>,
    /// Whether a permission request waits for a decision.
    pub pending_permission: bool,
    /// The agents whose modes are known.
    pub mode_catalog: BTreeSet<usize>,
    /// The agents that take modes.
    pub mode_capable: BTreeSet<usize>,
    /// The policy that the agents were asked to take.
    pub mode_sync: Option<String>,
    /// The new first agent that is awaited.
    pub pending_first: Option<String>,
    /// Whether the roster is being brought into line with the configured one.
    pub reconcile_pending: bool,
    pub config_input: ConfigInputDecoder,
    /// Until when text can be selected with the mouse.
    pub selection_until: Option<u64>,
    pub turn_active: bool,
    /// When a turn was asked to end.
    pub cancel_requested_at: Option<u64>,
    /// When the title last blinked.
    pub title_blink_at: u64,
    /// The status that was last seen, and when it was first seen.
    pub noticed: String,
    pub noticed_at: u64,
}

#[verifier::ext_equal]
pub struct SessionView {
    pub selected_slot: Option<usize>,
    pub pending_permission: bool,
    pub mode_catalog: Set<usize>,
    pub mode_capable: Set<usize>,
    pub mode_sync: Option<Seq<char>>,
    pub pending_first: Option<Seq<char>>,
    pub reconcile_pending: bool,
    pub config_input: ConfigInputDecoder,
    pub selection_until: Option<u64>,
    pub turn_active: bool,
    pub cancel_requested_at: Option<u64>,
    pub title_blink_at: u64,
    pub noticed: Seq<char>,
    pub noticed_at: u64,
}

impl View for Session {
    type V = SessionView;

    open spec fn view(&self) -> SessionView {
        SessionView {
            selected_slot: self.selected_slot,
            pending_permission: self.pending_permission,
            mode_catalog: self.mode_catalog@,
            mode_capable: self.mode_capable@,
            mode_sync: optional(self.mode_sync),
            pending_first: optional(self.pending_first),
            reconcile_pending: self.reconcile_pending,
            config_input: self.config_input,
            selection_until: self.selection_until,
            turn_active: self.turn_active,
            cancel_requested_at: self.cancel_requested_at,
            title_blink_at: self.title_blink_at,
            noticed: self.noticed@,
            noticed_at: self.noticed_at,
        }
    }
}

/// A conversation and what it asks for.
pub struct Step {
    pub session: SessionView,
    pub app: AppView,
    pub effects: Seq<EffectView>,
}

/// A conversation that asks for nothing.
pub open spec fn quiet(session: SessionView, app: AppView) -> Step {
    Step { session, app, effects: Seq::empty() }
}

/// A conversation that asks for one thing.
pub open spec fn asking_for(session: SessionView, app: AppView, effect: EffectView) -> Step {
    Step { session, app, effects: seq![effect] }
}

/// A request, where there are agents to receive it.
pub open spec fn sent(link: Link, control: ControlView) -> Seq<EffectView> {
    if link == Link::Absent {
        Seq::empty()
    } else {
        seq![EffectView::Send(control)]
    }
}

pub fn no_effects() -> (effects: Vec<Effect>)
    ensures
        item_contents(effects@) == Seq::<EffectView>::empty(),
{
    let effects: Vec<Effect> = Vec::new();
    assert(item_contents(effects@) =~= Seq::<EffectView>::empty());
    effects
}

pub fn one_effect(effect: Effect) -> (effects: Vec<Effect>)
    ensures
        item_contents(effects@) == seq![effect@],
{
    let mut effects: Vec<Effect> = Vec::new();
    effects.push(effect);
    assert(item_contents(effects@) =~= seq![effect@]);
    effects
}

/// The line that says what runs: the version, the program, the agents that take part, and
/// whether they can be reached.
pub open spec fn status_line(
    version: Seq<char>,
    executable: Seq<char>,
    agents: Seq<Seq<char>>,
    link: Link,
) -> Seq<char> {
    "codeswarm "@ + version + " · "@ + executable + " · "@ + (if agents.len() == 0 {
        "no agents"@
    } else {
        join(agents, ", "@)
    }) + (match link {
        Link::Absent => " · disconnected"@,
        Link::Closed => " · connection closed"@,
        Link::Open => " · connected"@,
    })
}

pub fn status_report(version: &str, executable: &str, agents: &Vec<String>, link: Link) -> (line:
    String)
    ensures
        line@ == status_line(version@, executable@, strings(agents@), link),
{
    assert(strings(agents@).len() == agents@.len());
    let mut line = to_chars("codeswarm ");
    append_text(&mut line, version);
    append_text(&mut line, " · ");
    append_text(&mut line, executable);
    append_text(&mut line, " · ");
    if agents.len() == 0 {
        append_text(&mut line, "no agents");
    } else {
        append_text(&mut line, joined_text(agents, ", ").as_str());
    }
    match link {
        Link::Absent => append_text(&mut line, " · disconnected"),
        Link::Closed => append_text(&mut line, " · connection closed"),
        Link::Open => append_text(&mut line, " · connected"),
    }
    to_text(&line)
}

pub fn send_if_linked(link: Link, control: AdapterControl) -> (effects: Vec<Effect>)
    ensures
        item_contents(effects@) == sent(link, control@),
{
    if link == Link::Absent {
        no_effects()
    } else {
        one_effect(Effect::Send(control))
    }
}

fn add_effects(effects: &mut Vec<Effect>, more: Vec<Effect>)
    ensures
        item_contents(final(effects)@) == item_contents(old(effects)@) + item_contents(more@),
{
    let mut rest = more;
    let ghost before = effects@;
    effects.append(&mut rest);
    assert(item_contents(effects@) =~= item_contents(before) + item_contents(more@));
}

impl App {
    /// Shows a status.
    pub fn show_status(&mut self, status: &str)
        requires
            old(self).wf(),
        ensures
            final(self).wf(),
            final(self)@ == saying(old(self)@, status@),
    {
        self.status = status.to_owned();
    }

    /// The places of the selected rows of the configuration panel.
    pub fn config_roster_slots(&self) -> (slots: Vec<RosterSlot>)
        ensures
            item_contents(slots@) == configured_slots(self@),
    {
        let rows = chosen_rows(&self.config.agents);
        chosen_slots(&self.config.agents, &rows)
    }
}

/// The places of the selected rows of the configuration panel.
pub open spec fn configured_slots(app: AppView) -> Seq<SlotView> {
    let rows = chosen(app.config.agents);
    slots_at(app.config.agents, rows, rows.len() as int)
}

/// A selection after two agents changed places.
pub open spec fn selection_swapped(
    selected: Option<usize>,
    first: usize,
    second: usize,
) -> Option<usize> {
    if selected == Some(first) {
        Some(second)
    } else if selected == Some(second) {
        Some(first)
    } else {
        selected
    }
}

/// The conversation after a change of the roster was reported, before it is shown.
#[verifier::opaque]
pub open spec fn roster_noted(
    session: SessionView,
    app: AppView,
    update: RosterUpdateView,
    link: Link,
) -> Step {
    match update {
        RosterUpdateView::Added { slot, name, identity } => if session.pending_first is Some
            && same_ignoring_case(session.pending_first->0, identity) {
            match link {
                Link::Absent => quiet(session, app),
                Link::Closed => quiet(
                    session,
                    saying(app, "new first agent started but reorder could not be queued"@),
                ),
                Link::Open => asking_for(
                    session,
                    app,
                    EffectView::Send(
                        ControlView::Swap(first_live(active_slots(app.roster.agents)), slot),
                    ),
                ),
            }
        } else {
            quiet(session, app)
        },
        RosterUpdateView::Swapped { first, second } => quiet(
            SessionView {
                pending_first: None,
                selected_slot: selection_swapped(session.selected_slot, first, second),
                ..session
            },
            app,
        ),
        RosterUpdateView::Rejected { action, detail } => quiet(
            SessionView { pending_first: None, reconcile_pending: false, ..session },
            app,
        ),
        _ => quiet(session, app),
    }
}

/// What an event says about turns, modes and permissions.
pub open spec fn event_noted(session: SessionView, event: AgentEventView) -> SessionView {
    match event {
        AgentEventView::TurnStarted { slot } => SessionView { turn_active: true, ..session },
        AgentEventView::Text { slot, text } => SessionView { turn_active: true, ..session },
        AgentEventView::Thought { slot, text } => SessionView { turn_active: true, ..session },
        AgentEventView::Tool { slot, update } => SessionView { turn_active: true, ..session },
        AgentEventView::Terminal { slot, event } => SessionView { turn_active: true, ..session },
        AgentEventView::UserText { slot, text } => SessionView { turn_active: true, ..session },
        AgentEventView::Permission { slot, request } => SessionView {
            turn_active: true,
            pending_permission: true,
            ..session
        },
        AgentEventView::TurnComplete { slot } => SessionView {
            turn_active: false,
            cancel_requested_at: None,
            pending_permission: false,
            ..session
        },
        AgentEventView::Ready { slot, capabilities } => SessionView {
            mode_capable: if capabilities.supports_modes {
                session.mode_capable.insert(slot)
            } else {
                session.mode_capable.remove(slot)
            },
            ..session
        },
        AgentEventView::Failed { slot, started, detail } => SessionView {
            mode_catalog: session.mode_catalog.remove(slot),
            mode_capable: session.mode_capable.remove(slot),
            pending_permission: false,
            ..session
        },
        AgentEventView::ModesReplaced { slot, modes, current_mode } => SessionView {
            mode_catalog: session.mode_catalog.insert(slot),
            ..session
        },
        _ => session,
    }
}

/// The surface with no reason for attention.
pub open spec fn calmed(app: AppView) -> AppView {
    AppView { title_flash: 0, title_blink: false, ..app }
}

/// The surface after an event raised or ended the person's attention.
pub open spec fn attention(app: AppView, event: AgentEventView) -> AppView {
    match event {
        AgentEventView::Permission { slot, request } => alerted(app, true),
        AgentEventView::TurnComplete { slot } => calmed(app),
        AgentEventView::Failed { slot, started, detail } => calmed(app),
        _ => app,
    }
}

/// The conversation after the next step towards the configured roster.
#[verifier::opaque]
pub open spec fn reconcile_step(session: SessionView, app: AppView, link: Link) -> Step {
    let (next, awaited) = reconciled(
        app.roster.agents,
        app.config.agents,
        session.pending_first,
    );
    let noted = SessionView { pending_first: awaited, ..session };
    match next {
        ReconciliationView::Settled => asking_for(
            SessionView { reconcile_pending: false, ..noted },
            app,
            EffectView::SaveRoster(configured_slots(app)),
        ),
        ReconciliationView::Waiting => quiet(noted, app),
        ReconciliationView::Request { control, failure } => if link == Link::Open {
            asking_for(noted, app, EffectView::Send(control))
        } else {
            quiet(
                SessionView { reconcile_pending: false, ..noted },
                saying(app, "unable to apply roster: "@ + failure),
            )
        },
        ReconciliationView::Refused(reason) => quiet(
            SessionView { reconcile_pending: false, ..noted },
            saying(app, "unable to apply roster: "@ + reason),
        ),
    }
}

/// What the person is told about an event.
pub open spec fn notices(app: AppView, event: AgentEventView) -> Seq<EffectView> {
    if !may_notify(app) {
        Seq::empty()
    } else {
        match event {
            AgentEventView::Permission { slot, request } => {
                let told = seq![EffectView::NotifyPermission(app.active_agent)];
                if app.settings.sounds {
                    told.push(EffectView::Bell)
                } else {
                    told
                }
            },
            AgentEventView::TurnComplete { slot } => seq![
                EffectView::NotifyTurn(app.active_agent),
            ],
            _ => Seq::empty(),
        }
    }
}

/// The conversation after the prompt that waited longest was sent, where there is one
/// that can be.
#[verifier::opaque]
pub open spec fn dispatched(session: SessionView, app: AppView, link: Link) -> Step {
    if app.queue.prompts.len() == 0 || link != Link::Open {
        quiet(session, app)
    } else {
        let first = app.queue.prompts[0];
        match queued_control(first) {
            Some(control) => asking_for(
                SessionView { turn_active: true, ..session },
                saying(
                    match place_of(app.queue.prompts, first.id) {
                        Some(k) => AppView { queue: without(app.queue, k), ..app },
                        None => app,
                    },
                    "queued prompt dispatched"@,
                ),
                EffectView::Send(control),
            ),
            None => quiet(session, app),
        }
    }
}

/// The requests that set configured models.
pub open spec fn model_requests(models: Seq<(usize, Seq<char>)>) -> Seq<EffectView> {
    Seq::new(
        models.len(),
        |i: int|
            EffectView::Send(ControlView::SetModel { slot: models[i].0, model: models[i].1 }),
    )
}

/// The contents of models by slot.
pub open spec fn models_by_slot(models: Seq<(usize, String)>) -> Seq<(usize, Seq<char>)> {
    Seq::new(models.len(), |i: int| (models[i].0, models[i].1@))
}

/// The first part of what an event does: what is noted of it, and its place in the
/// surface.
pub open spec fn event_taken(
    session: SessionView,
    app: AppView,
    event: AgentEventView,
    moment: Moment,
    link: Link,
) -> Step {
    let noted = match event {
        AgentEventView::RosterUpdated { update } => roster_noted(session, app, update, link),
        _ => quiet(event_noted(session, event), app),
    };
    Step { app: after_event(attention(noted.app, event), event, moment), ..noted }
}

/// What an event of the agents does to a conversation. `models` are the models that were
/// configured and not sent yet.
pub open spec fn event_handled(
    session: SessionView,
    app: AppView,
    event: AgentEventView,
    moment: Moment,
    link: Link,
    models: Seq<(usize, Seq<char>)>,
) -> Step {
    let first = event_taken(session, app, event, moment, link);
    let sends = if models_due(event) && link != Link::Absent {
        model_requests(models)
    } else {
        Seq::empty()
    };
    let second = if event is RosterUpdated && first.session.reconcile_pending && link
        != Link::Absent {
        reconcile_step(first.session, first.app, link)
    } else {
        quiet(first.session, first.app)
    };
    let told = notices(second.app, event);
    let third = if event is TurnComplete {
        dispatched(second.session, second.app, link)
    } else {
        quiet(second.session, second.app)
    };
    Step {
        session: third.session,
        app: third.app,
        effects: first.effects + sends + second.effects + told + third.effects,
    }
}

/// Whether an effect sends a prompt to the agents.
pub open spec fn sends_prompt(effect: EffectView) -> bool {
    effect matches EffectView::Send(control) && (control is Prompt || control is Queue
        || control is Direct)
}

/// Of the prompts that wait none is sent before a turn ends. When one does at most one
/// prompt is sent, as the last thing that is done, and a turn runs again.
pub proof fn law_one_queued_prompt_for_each_turn(
    session: SessionView,
    app: AppView,
    event: AgentEventView,
    moment: Moment,
    link: Link,
    models: Seq<(usize, Seq<char>)>,
)
    ensures
        ({
            let step = event_handled(session, app, event, moment, link, models);
            forall|i: int|
                0 <= i < step.effects.len() && sends_prompt(#[trigger] step.effects[i]) ==> {
                    &&& event is TurnComplete
                    &&& i == step.effects.len() - 1
                    &&& step.session.turn_active
                }
        }),
{
    reveal(dispatched);
    reveal(reconcile_step);
    reveal(roster_noted);
}

impl Session {
    /// A conversation that begins. The window is how long an Esc may be the start of
    /// another key.
    pub fn new(selected_slot: Option<usize>, escape_window: u64, now: u64) -> (session: Self)
        ensures
            session@ == (SessionView {
                selected_slot,
                pending_permission: false,
                mode_catalog: Set::empty(),
                mode_capable: Set::empty(),
                mode_sync: None,
                pending_first: None,
                reconcile_pending: false,
                config_input: ConfigInputDecoder { escape_at: None, escape_window },
                selection_until: None,
                turn_active: false,
                cancel_requested_at: None,
                title_blink_at: now,
                noticed: Seq::empty(),
                noticed_at: now,
            }),
    {
        let noticed = to_text(&Vec::new());
        assert(noticed@ =~= Seq::empty());
        Session {
            selected_slot,
            pending_permission: false,
            mode_catalog: BTreeSet::new(),
            mode_capable: BTreeSet::new(),
            mode_sync: None,
            pending_first: None,
            reconcile_pending: false,
            config_input: ConfigInputDecoder::new(escape_window),
            selection_until: None,
            turn_active: false,
            cancel_requested_at: None,
            title_blink_at: now,
            noticed,
            noticed_at: now,
        }
    }

    fn note_roster(&mut self, app: &mut App, update: &RosterUpdate, link: Link) -> (effects: Vec<
        Effect,
    >)
        requires
            old(app).wf(),
        ensures
            final(app).wf(),
            (Step {
                session: final(self)@,
                app: final(app)@,
                effects: item_contents(effects@),
            }) == roster_noted(old(self)@, old(app)@, update@, link),
    {
        proof {
            reveal(roster_noted);
        }
        match update {
            RosterUpdate::Added { slot, identity, .. } => {
                let awaited = match &self.pending_first {
                    Some(first) => eq_ignore_case(first.as_str(), identity.as_str()),
                    None => false,
                };
                if awaited {
                    match link {
                        Link::Absent => no_effects(),
                        Link::Closed => {
                            app.show_status(
                                "new first agent started but reorder could not be queued",
                            );
                            no_effects()
                        },
                        Link::Open => {
                            let slots = app.active_roster_slots();
                            let first: usize = if slots.len() > 0 {
                                slots[0]
                            } else {
                                0
                            };
                            one_effect(Effect::Send(AdapterControl::Swap(first, *slot)))
                        },
                    }
                } else {
                    no_effects()
                }
            },
            RosterUpdate::Swapped { first, second } => {
                self.pending_first = None;
                self.selected_slot = match self.selected_slot {
                    Some(slot) => {
                        if slot == *first {
                            Some(*second)
                        } else if slot == *second {
                            Some(*first)
                        } else {
                            Some(slot)
                        }
                    },
                    None => None,
                };
                no_effects()
            },
            RosterUpdate::Rejected { .. } => {
                self.pending_first = None;
                self.reconcile_pending = false;
                no_effects()
            },
            _ => no_effects(),
        }
    }

    fn note_event(&mut self, event: &AgentEvent)
        ensures
            final(self)@ == event_noted(old(self)@, event@),
    {
        match event {
            AgentEvent::TurnStarted { .. } => {
                self.turn_active = true;
            },
            AgentEvent::Text { .. } => {
                self.turn_active = true;
            },
            AgentEvent::Thought { .. } => {
                self.turn_active = true;
            },
            AgentEvent::Tool { .. } => {
                self.turn_active = true;
            },
            AgentEvent::Terminal { .. } => {
                self.turn_active = true;
            },
            AgentEvent::UserText { .. } => {
                self.turn_active = true;
            },
            AgentEvent::Permission { .. } => {
                self.turn_active = true;
                self.pending_permission = true;
            },
            AgentEvent::TurnComplete { .. } => {
                self.turn_active = false;
                self.cancel_requested_at = None;
                self.pending_permission = false;
            },
            AgentEvent::Ready { slot, capabilities } => {
                if capabilities.supports_modes {
                    self.mode_capable.insert(*slot);
                } else {
                    self.mode_capable.remove(slot);
                }
            },
            AgentEvent::Failed { slot, .. } => {
                self.mode_catalog.remove(slot);
                self.mode_capable.remove(slot);
                self.pending_permission = false;
            },
            AgentEvent::ModesReplaced { slot, .. } => {
                self.mode_catalog.insert(*slot);
            },
            _ => {},
        }
    }

    fn reconcile(&mut self, app: &mut App, link: Link) -> (effects: Vec<Effect>)
        requires
            old(app).wf(),
        ensures
            final(app).wf(),
            (Step {
                session: final(self)@,
                app: final(app)@,
                effects: item_contents(effects@),
            }) == reconcile_step(old(self)@, old(app)@, link),
    {
        proof {
            reveal(reconcile_step);
        }
        let next = app.reconcile_config_roster(&mut self.pending_first);
        match next {
            Reconciliation::Settled => {
                self.reconcile_pending = false;
                one_effect(Effect::SaveRoster(app.config_roster_slots()))
            },
            Reconciliation::Waiting => no_effects(),
            Reconciliation::Request { control, failure } => {
                if link == Link::Open {
                    one_effect(Effect::Send(control))
                } else {
                    self.reconcile_pending = false;
                    show_roster_failure(app, failure);
                    no_effects()
                }
            },
            Reconciliation::Refused(reason) => {
                self.reconcile_pending = false;
                show_roster_failure(app, reason);
                no_effects()
            },
        }
    }

    fn dispatch_waiting(&mut self, app: &mut App, link: Link) -> (effects: Vec<Effect>)
        requires
            old(app).wf(),
        ensures
            final(app).wf(),
            (Step {
                session: final(self)@,
                app: final(app)@,
                effects: item_contents(effects@),
            }) == dispatched(old(self)@, old(app)@, link),
    {
        proof {
            reveal(dispatched);
        }
        if link != Link::Open {
            return no_effects();
        }
        let (id, control) = match app.next_queued_prompt() {
            Some(first) => match control_for_queued(first) {
                Some(control) => (first.id, control),
                None => {
                    return no_effects();
                },
            },
            None => {
                return no_effects();
            },
        };
        let _ = app.remove_queued_prompt(id);
        self.turn_active = true;
        app.show_status("queued prompt dispatched");
        one_effect(Effect::Send(control))
    }

    fn take_event(&mut self, app: &mut App, event: &AgentEvent, moment: Moment, link: Link) -> (effects:
        Vec<Effect>)
        requires
            old(app).wf(),
        ensures
            final(app).wf(),
            (Step {
                session: final(self)@,
                app: final(app)@,
                effects: item_contents(effects@),
            }) == event_taken(old(self)@, old(app)@, event@, moment, link),
    {
        let effects = match event {
            AgentEvent::RosterUpdated { update } => self.note_roster(app, update, link),
            _ => {
                self.note_event(event);
                no_effects()
            },
        };
        match event {
            AgentEvent::Permission { .. } => app.terminal_alert(true),
            AgentEvent::TurnComplete { .. } => app.clear_terminal_alerts(),
            AgentEvent::Failed { .. } => app.clear_terminal_alerts(),
            _ => {},
        }
        app.apply_event(event, moment);
        effects
    }

    /// Handles an event of the agents. `models` are the models that were configured and
    /// not sent yet.
    pub fn on_event(
        &mut self,
        app: &mut App,
        event: &AgentEvent,
        moment: Moment,
        link: Link,
        models: &Vec<(usize, String)>,
    ) -> (effects: Vec<Effect>)
        requires
            old(app).wf(),
        ensures
            final(app).wf(),
            (Step {
                session: final(self)@,
                app: final(app)@,
                effects: item_contents(effects@),
            }) == event_handled(
                old(self)@,
                old(app)@,
                event@,
                moment,
                link,
                models_by_slot(models@),
            ),
    {
        let mut effects = self.take_event(app, event, moment, link);
        let sends = if should_apply_configured_models(event) && link != Link::Absent {
            send_models(models)
        } else {
            no_effects()
        };
        add_effects(&mut effects, sends);
        let roster = match event {
            AgentEvent::RosterUpdated { .. } => true,
            _ => false,
        };
        let steps = if roster && self.reconcile_pending && link != Link::Absent {
            self.reconcile(app, link)
        } else {
            no_effects()
        };
        add_effects(&mut effects, steps);
        add_effects(&mut effects, app.notices_for(event));
        let complete = match event {
            AgentEvent::TurnComplete { .. } => true,
            _ => false,
        };
        let waiting = if complete {
            self.dispatch_waiting(app, link)
        } else {
            no_effects()
        };
        add_effects(&mut effects, waiting);
        effects
    }
}

fn show_roster_failure(app: &mut App, reason: &str)
    requires
        old(app).wf(),
    ensures
        final(app).wf(),
        final(app)@ == saying(old(app)@, "unable to apply roster: "@ + reason@),
{
    let mut status = to_chars("unable to apply roster: ");
    append_text(&mut status, reason);
    app.show_status(to_text(&status).as_str());
}

fn send_models(models: &Vec<(usize, String)>) -> (effects: Vec<Effect>)
    ensures
        item_contents(effects@) == model_requests(models_by_slot(models@)),
{
    let ghost wanted = model_requests(models_by_slot(models@));
    let mut effects: Vec<Effect> = Vec::new();
    let mut i: usize = 0;
    assert(item_contents(effects@) =~= wanted.take(0));
    while i < models.len()
        invariant
            i <= models.len(),
            wanted == model_requests(models_by_slot(models@)),
            item_contents(effects@) == wanted.take(i as int),
        decreases models.len() - i,
    {
        effects.push(
            Effect::Send(
                AdapterControl::SetModel { slot: models[i].0, model: models[i].1.clone() },
            ),
        );
        assert(item_contents(effects@) =~= wanted.take(i + 1));
        i = i + 1;
    }
    assert(wanted.take(i as int) =~= wanted);
    effects
}

impl App {
    fn notices_for(&self, event: &AgentEvent) -> (effects: Vec<Effect>)
        ensures
            item_contents(effects@) == notices(self@, event@),
    {
        if !self.should_notify_system() {
            return no_effects();
        }
        match event {
            AgentEvent::Permission { .. } => {
                let mut effects = one_effect(Effect::NotifyPermission(self.active_agent.clone()));
                if self.sounds_enabled() {
                    effects.push(Effect::Bell);
                }
                effects
            },
            AgentEvent::TurnComplete { .. } => one_effect(
                Effect::NotifyTurn(self.active_agent.clone()),
            ),
            _ => no_effects(),
        }
    }
}

/// The agents that take part and take modes all have told their modes, and there is one.
pub open spec fn modes_known(session: SessionView, slots: Seq<usize>) -> bool {
    &&& exists|i: int| 0 <= i < slots.len() && session.mode_capable.contains(#[trigger] slots[i])
    &&& forall|i: int|
        0 <= i < slots.len() && session.mode_capable.contains(#[trigger] slots[i])
            ==> session.mode_catalog.contains(slots[i])
}

/// The policy that every agent should have.
pub open spec fn desired_policy(app: AppView) -> Option<Seq<char>> {
    match app.settings.mode_policy {
        Some(policy) => Some(canonical_policy(policy)),
        None => None,
    }
}

/// What is done about the modes of the agents after they changed. `current` is the policy
/// that they share.
pub open spec fn modes_synced(
    session: SessionView,
    app: AppView,
    current: Option<Seq<char>>,
    link: Link,
) -> Step {
    let desired = desired_policy(app);
    if current == desired {
        quiet(SessionView { mode_sync: None, ..session }, app)
    } else if desired is Some && modes_known(session, active_slots(app.roster.agents))
        && session.mode_sync != desired && link == Link::Open {
        asking_for(
            SessionView { mode_sync: desired, ..session },
            app,
            EffectView::Send(ControlView::SetMode(desired->0)),
        )
    } else {
        quiet(session, app)
    }
}

/// The agents are asked for a policy once: as long as they have not taken it and the
/// desired one stays, they are not asked again.
pub proof fn law_a_mode_is_asked_for_once(
    session: SessionView,
    app: AppView,
    current: Option<Seq<char>>,
    later: Option<Seq<char>>,
    link: Link,
)
    requires
        modes_synced(session, app, current, link).effects.len() > 0,
    ensures
        modes_synced(
            modes_synced(session, app, current, link).session,
            app,
            later,
            link,
        ).effects.len() == 0,
{
}

/// What an error of the agents does to a conversation: the turn is over. An error that is
/// not the end of a cancelled turn is shown, unless an agent has failed and shows it.
pub open spec fn error_handled(session: SessionView, app: AppView, error: Seq<char>) -> Step {
    let calm = calmed(app);
    let settled = cancellation_settled(calm, error);
    quiet(
        SessionView {
            turn_active: false,
            cancel_requested_at: None,
            pending_permission: false,
            mode_sync: None,
            ..session
        },
        if !ends_cancelled(calm, error) && failed_slot(settled.roster) is None {
            saying(settled, "error: "@ + error)
        } else {
            settled
        },
    )
}

/// The conversation after its status was looked at: one that is new is seen from now on,
/// and one whose time is over is no longer shown.
pub open spec fn notice_passed(session: SessionView, app: AppView, now: u64) -> (
    SessionView,
    AppView,
) {
    if app.status != session.noticed {
        (SessionView { noticed: app.status, noticed_at: now, ..session }, app)
    } else if has_ended(app.status, session.noticed_at, now) {
        (
            SessionView { noticed: Seq::empty(), noticed_at: now, ..session },
            saying(app, Seq::empty()),
        )
    } else {
        (session, app)
    }
}

/// The conversation as time passes, before anything else is looked at. `modes` are the
/// modes that the agents share. Notices end by themselves.
pub open spec fn time_passed(
    session: SessionView,
    app: AppView,
    now: u64,
    modes: Seq<ModeView>,
) -> Step {
    let step = windows_passed(session, app, now, modes);
    let (seen, shown) = notice_passed(step.session, step.app, now);
    Step { session: seen, app: shown, effects: step.effects }
}

/// A notice that nothing takes the place of is gone once it was seen for its time, and not
/// before: three seconds for readiness and six for an error. Other statuses stay.
pub proof fn law_notices_end_by_themselves(
    session: SessionView,
    app: AppView,
    first: u64,
    now: u64,
)
    requires
        app.status != session.noticed,
        app.status.len() > 0,
        first <= now,
    ensures
        ({
            let (seen, shown) = notice_passed(session, app, first);
            let (_, later) = notice_passed(seen, shown, now);
            &&& shown.status == app.status
            &&& match shown_for(app.status) {
                Some(window) => later.status == (if now - first >= window {
                    Seq::empty()
                } else {
                    app.status
                }),
                None => later.status == app.status,
            }
        }),
{
}

/// The passing of time sends nothing to the agents: however long they are silent, no turn is
/// cancelled by itself.
pub proof fn law_silence_cancels_nothing(
    session: SessionView,
    app: AppView,
    now: u64,
    modes: Seq<ModeView>,
)
    ensures
        forall|i: int|
            0 <= i < time_passed(session, app, now, modes).effects.len() ==> !((
            #[trigger] time_passed(session, app, now, modes).effects[i]) is Send),
{
    reveal(windows_passed);
}

/// The conversation as time passes, before its status is looked at. An Esc that nothing
/// followed closes the configuration panel; otherwise the time for selecting text may end,
/// and a selection of an agent that left is moved.
#[verifier::opaque]
pub open spec fn windows_passed(
    session: SessionView,
    app: AppView,
    now: u64,
    modes: Seq<ModeView>,
) -> Step {
    let decoder = session.config_input;
    let cleared = ConfigInputDecoder { escape_at: None, ..decoder };
    if app.config.visible && decoder.escape_at is Some && !within_window(decoder, now) {
        quiet(
            SessionView { config_input: cleared, ..session },
            config_response(app, ConfigKey::Cancel, modes).0,
        )
    } else {
        let over = session.selection_until matches Some(end) && now >= end;
        let restored = if over {
            saying(AppView { mouse_selection_mode: false, ..app }, "mouse scrolling restored"@)
        } else {
            app
        };
        let selected = still_selected(active_slots(app.roster.agents), session.selected_slot);
        Step {
            session: SessionView {
                config_input: if app.config.visible {
                    decoder
                } else {
                    cleared
                },
                selection_until: if over {
                    None
                } else {
                    session.selection_until
                },
                selected_slot: selected,
                ..session
            },
            app: AppView {
                roster: RosterView { selected_agent: selected, ..restored.roster },
                ..restored
            },
            effects: if over {
                seq![EffectView::EnableMouse]
            } else {
                Seq::empty()
            },
        }
    }
}

/// The time between two blinks of the title, in nanoseconds.
pub const BLINK_INTERVAL: u64 = 500_000_000;

/// The surface with its title turned over.
pub open spec fn title_turned(app: AppView) -> AppView {
    AppView {
        title_blink: app.settings.blink_title && app.title_flash > 0 && !app.title_blink,
        ..app
    }
}

/// The conversation after its title had time to blink.
pub open spec fn title_blinked(session: SessionView, app: AppView, now: u64) -> Step {
    if app.title_flash > 0 && app.settings.blink_title {
        if now >= session.title_blink_at && now - session.title_blink_at >= BLINK_INTERVAL {
            quiet(SessionView { title_blink_at: now, ..session }, title_turned(app))
        } else {
            quiet(session, app)
        }
    } else if app.title_blink {
        quiet(SessionView { title_blink_at: now, ..session }, title_turned(app))
    } else {
        quiet(session, app)
    }
}

/// The last row of a screen.
pub open spec fn is_last_row(frame: Area, row: u16) -> bool {
    row == (if frame.y + frame.height > 0 {
        frame.y + frame.height - 1
    } else {
        0
    })
}

/// What a click on the information row does to a conversation.
#[verifier::opaque]
pub open spec fn clicked(
    session: SessionView,
    app: AppView,
    column: u16,
    width: u16,
    now: u64,
) -> Step {
    match click_at(app, column, width, now) {
        FooterAction::SelectAgent(slot) => quiet(
            SessionView { selected_slot: Some(slot), ..session },
            saying(
                AppView {
                    roster: RosterView { selected_agent: Some(slot), ..app.roster },
                    ..app
                },
                "selected "@ + name_of(app.roster.agents, slot),
            ),
        ),
        FooterAction::OpenCollaboration => quiet(
            session,
            config_opened(app, 4, "collaboration configuration"@),
        ),
        FooterAction::OpenMode => quiet(session, config_opened(app, 3, "mode configuration"@)),
        FooterAction::Ignored => quiet(session, app),
    }
}

/// Whether the mouse is on the information row of a screen.
pub open spec fn on_footer(frame: Area, column: u16, row: u16) -> bool {
    is_last_row(frame, row) && frame.x <= column < frame.x + frame.width
}

/// What the mouse does to a conversation on a screen.
pub open spec fn mouse_handled(
    session: SessionView,
    app: AppView,
    kind: MouseKind,
    column: u16,
    row: u16,
    frame: Area,
    now: u64,
) -> Step {
    match wheel_rows(kind) {
        Some(delta) => quiet(
            session,
            scrolled(
                app,
                delta as int,
                frame.width as int,
                rows_left(app, frame.height as int),
            ),
        ),
        None => if is_open(app.picker) {
            quiet(session, AppView { picker: dismissed(app.picker), ..app })
        } else if kind == MouseKind::LeftDown && on_footer(frame, column, row) {
            clicked(session, app, (column - frame.x) as u16, frame.width, now)
        } else {
            quiet(session, app)
        },
    }
}

fn is_on_footer(frame: Area, column: u16, row: u16) -> (yes: bool)
    ensures
        yes == on_footer(frame, column, row),
{
    let below: u32 = frame.y as u32 + frame.height as u32;
    let right: u32 = frame.x as u32 + frame.width as u32;
    let last = if below > 0 {
        row as u32 == below - 1
    } else {
        row == 0
    };
    last && column >= frame.x && (column as u32) < right
}

impl Session {
    fn knows_modes(&self, slots: &Vec<usize>) -> (yes: bool)
        ensures
            yes == modes_known(self@, slots@),
    {
        let mut any = false;
        let mut all = true;
        let mut i: usize = 0;
        while i < slots.len()
            invariant
                i <= slots.len(),
                any == (exists|k: int|
                    0 <= k < i && self@.mode_capable.contains(#[trigger] slots@[k])),
                all == (forall|k: int|
                    0 <= k < i && self@.mode_capable.contains(#[trigger] slots@[k])
                        ==> self@.mode_catalog.contains(slots@[k])),
            decreases slots.len() - i,
        {
            let slot: usize = slots[i];
            assert(slots@[i as int] == slot);
            if self.mode_capable.contains(&slot) {
                any = true;
                if !self.mode_catalog.contains(&slot) {
                    all = false;
                }
            }
            i = i + 1;
        }
        any && all
    }

    /// Handles a change of the agents' modes. `current` is the policy that they share.
    pub fn sync_mode(&mut self, app: &App, current: &Option<String>, link: Link) -> (effects: Vec<
        Effect,
    >)
        ensures
            (Step {
                session: final(self)@,
                app: app@,
                effects: item_contents(effects@),
            }) == modes_synced(old(self)@, app@, optional(*current), link),
    {
        let desired = match app.mode_policy() {
            Some(policy) => Some(canonical_mode_policy(policy)),
            None => None,
        };
        if crate::events::same_optional(current, &desired) {
            self.mode_sync = None;
            return no_effects();
        }
        let known = self.knows_modes(&app.active_roster_slots());
        let asked = crate::events::same_optional(&self.mode_sync, &desired);
        match desired {
            Some(policy) => {
                if known && !asked && link == Link::Open {
                    self.mode_sync = Some(policy.clone());
                    return one_effect(Effect::Send(AdapterControl::SetMode(policy)));
                }
            },
            None => {},
        }
        no_effects()
    }

    /// Handles an error of the agents.
    pub fn on_error(&mut self, app: &mut App, error: &str)
        requires
            old(app).wf(),
        ensures
            final(app).wf(),
            quiet(final(self)@, final(app)@) == error_handled(old(self)@, old(app)@, error@),
    {
        self.turn_active = false;
        self.cancel_requested_at = None;
        self.pending_permission = false;
        self.mode_sync = None;
        app.clear_terminal_alerts();
        let cancelled = finish_pending_cancellation(app, error);
        if !cancelled && app.failed_agent().is_none() {
            let mut status = to_chars("error: ");
            append_text(&mut status, error);
            app.show_status(to_text(&status).as_str());
        }
    }

    fn pass_notice(&mut self, app: &mut App, now: u64)
        requires
            old(app).wf(),
        ensures
            final(app).wf(),
            (final(self)@, final(app)@) == notice_passed(old(self)@, old(app)@, now),
    {
        if !same(app.status.as_str(), self.noticed.as_str()) {
            self.noticed = app.status.clone();
            self.noticed_at = now;
        } else if notice_ended(app.status.as_str(), self.noticed_at, now) {
            let none = to_text(&Vec::new());
            assert(none@ =~= Seq::empty());
            app.show_status(none.as_str());
            self.noticed = none;
            self.noticed_at = now;
        }
    }

    /// Lets time pass. `modes` are the modes that the agents share.
    pub fn on_time(&mut self, app: &mut App, now: u64, modes: &Vec<Mode>) -> (effects: Vec<Effect>)
        requires
            old(app).wf(),
        ensures
            final(app).wf(),
            (Step {
                session: final(self)@,
                app: final(app)@,
                effects: item_contents(effects@),
            }) == time_passed(old(self)@, old(app)@, now, item_contents(modes@)),
    {
        let effects = self.pass_windows(app, now, modes);
        self.pass_notice(app, now);
        effects
    }

    fn end_selection(&mut self, app: &mut App, now: u64) -> (over: bool)
        requires
            old(app).wf(),
        ensures
            final(app).wf(),
            over == (old(self)@.selection_until matches Some(end) && now >= end),
            final(self)@ == (SessionView {
                selection_until: if over {
                    None
                } else {
                    old(self)@.selection_until
                },
                ..old(self)@
            }),
            final(app)@ == if over {
                saying(
                    AppView { mouse_selection_mode: false, ..old(app)@ },
                    "mouse scrolling restored"@,
                )
            } else {
                old(app)@
            },
    {
        let over = selection_window_over(&mut self.selection_until, now);
        if over {
            app.set_mouse_selection_mode(false);
            app.show_status("mouse scrolling restored");
        }
        over
    }

    #[verifier::spinoff_prover]
    fn pass_windows(&mut self, app: &mut App, now: u64, modes: &Vec<Mode>) -> (effects: Vec<Effect>)
        requires
            old(app).wf(),
        ensures
            final(app).wf(),
            (Step {
                session: final(self)@,
                app: final(app)@,
                effects: item_contents(effects@),
            }) == windows_passed(old(self)@, old(app)@, now, item_contents(modes@)),
    {
        proof {
            reveal(windows_passed);
        }
        if app.config_visible() {
            if self.config_input.take_expired_escape(now) {
                let _ = app.handle_config_key(ConfigKey::Cancel, modes);
                return no_effects();
            }
        } else {
            self.config_input.reset();
        }
        let selected = normalize_selected_slot(app, self.selected_slot);
        let over = self.end_selection(app, now);
        self.selected_slot = selected;
        app.set_selected_agent(selected);
        if over {
            one_effect(Effect::EnableMouse)
        } else {
            no_effects()
        }
    }

    /// Lets the title blink.
    pub fn blink_title(&mut self, app: &mut App, now: u64)
        requires
            old(app).wf(),
        ensures
            final(app).wf(),
            quiet(final(self)@, final(app)@) == title_blinked(old(self)@, old(app)@, now),
    {
        if app.terminal_alert_active() && app.blink_title_enabled() {
            if now >= self.title_blink_at && now - self.title_blink_at >= BLINK_INTERVAL {
                app.toggle_terminal_title_blink();
                self.title_blink_at = now;
            }
        } else if app.terminal_title_blink() {
            app.toggle_terminal_title_blink();
            self.title_blink_at = now;
        }
    }

    /// Handles the mouse on a screen.
    pub fn on_mouse(
        &mut self,
        app: &mut App,
        kind: MouseKind,
        column: u16,
        row: u16,
        frame: Area,
        now: u64,
    )
        requires
            old(app).wf(),
        ensures
            final(app).wf(),
            quiet(final(self)@, final(app)@) == mouse_handled(
                old(self)@,
                old(app)@,
                kind,
                column,
                row,
                frame,
                now,
            ),
    {
        let height: usize = app.content_height(frame.height as usize);
        if apply_mouse_scroll(app, kind, frame.width as usize, height) {
            return;
        }
        if app.path_picker_visible() {
            app.dismiss_path_picker();
            return;
        }
        if kind == MouseKind::LeftDown && is_on_footer(frame, column, row) {
            self.click(app, column - frame.x, frame.width, now);
        }
    }

    fn click(&mut self, app: &mut App, column: u16, width: u16, now: u64)
        requires
            old(app).wf(),
        ensures
            final(app).wf(),
            quiet(final(self)@, final(app)@) == clicked(
                old(self)@,
                old(app)@,
                column,
                width,
                now,
            ),
    {
        proof {
            reveal(clicked);
        }
        match app.footer_action(column, width, now) {
            FooterAction::SelectAgent(slot) => {
                self.selected_slot = Some(slot);
                let name = app.agent_name(slot);
                let mut status = to_chars("selected ");
                append_text(&mut status, name.as_str());
                app.set_selected_agent(Some(slot));
                app.show_status(to_text(&status).as_str());
            },
            FooterAction::OpenCollaboration => app.open_collaboration_config(),
            FooterAction::OpenMode => app.open_mode_config(),
            FooterAction::Ignored => {},
        }
    }
}

/// What comes of a key while the configuration panel is open.
#[derive(Clone, Copy, Debug, Eq, PartialEq, Structural)]
pub enum ConfigStep {
    /// The key is done with.
    Done,
    /// The key goes to the panel.
    Key(ConfigKey),
    /// The preferences are saved, and where that goes well the key goes to the panel.
    SavePreferences,
}

/// What a key does while the configuration panel is open: the conversation, and what
/// comes of it. `present` says of each row whether its command can be run. A roster that
/// cannot be had is not saved.
pub open spec fn config_input_read(
    session: SessionView,
    app: AppView,
    input: crate::editor::Input,
    now: u64,
    present: Seq<bool>,
) -> (SessionView, AppView, ConfigStep) {
    let (key, decoder) = decoded(session.config_input, input, now);
    let read = SessionView { config_input: decoder, ..session };
    match key {
        None => (read, app, ConfigStep::Done),
        Some(ConfigKey::Save) => {
            let fault = roster_fault(app.config.agents, present);
            if app.config.roster_dirty && fault is Some {
                (read, saying(app, fault->0), ConfigStep::Done)
            } else {
                (read, app, ConfigStep::SavePreferences)
            }
        },
        Some(other) => (read, app, ConfigStep::Key(other)),
    }
}

/// The conversation after the roster of a saved configuration is taken up. Without agents
/// it is kept for the next launch.
pub open spec fn roster_taken_up(session: SessionView, app: AppView, link: Link) -> Step {
    if !app.config.roster_dirty {
        quiet(session, app)
    } else if link == Link::Absent {
        asking_for(session, app, EffectView::SaveRoster(configured_slots(app)))
    } else {
        let step = reconcile_step(
            SessionView { reconcile_pending: true, ..session },
            app,
            link,
        );
        if step.session.reconcile_pending {
            Step {
                app: saying(
                    step.app,
                    if session.turn_active {
                        "roster changes queued for the turn boundary"@
                    } else {
                        "applying roster changes"@
                    },
                ),
                ..step
            }
        } else {
            step
        }
    }
}

/// The conversation after the mode and the strategy of a saved configuration were asked
/// for.
pub open spec fn choices_sent(session: SessionView, app: AppView, link: Link) -> Step {
    let mode = match app.requested_mode {
        Some(mode) => sent(link, ControlView::SetMode(mode)),
        None => Seq::empty(),
    };
    let strategy = if app.config.collaboration_pending {
        sent(link, ControlView::SetStrategy(strategy_of(app.settings.collaboration)))
    } else {
        Seq::empty()
    };
    Step {
        session,
        app: AppView {
            requested_mode: None,
            config: crate::config::ConfigView { collaboration_pending: false, ..app.config },
            ..app
        },
        effects: mode + strategy,
    }
}

/// What a key of the configuration panel does to a conversation. `modes` are the modes
/// that the agents share, and `models` those that were configured for agents.
pub open spec fn config_key_handled(
    session: SessionView,
    app: AppView,
    key: ConfigKey,
    modes: Seq<ModeView>,
    models: Seq<(usize, Seq<char>)>,
    link: Link,
) -> Step {
    let (after, action) = config_response(app, key, modes);
    if action != ConfigAction::Save {
        quiet(session, after)
    } else {
        let roster = roster_taken_up(session, after, link);
        let choices = choices_sent(roster.session, roster.app, link);
        let sends = if link == Link::Absent {
            Seq::empty()
        } else {
            model_requests(models)
        };
        Step { effects: roster.effects + choices.effects + sends, ..choices }
    }
}

/// The surface after a roster was saved, or was not.
pub open spec fn roster_saved(app: AppView, fault: Option<Seq<char>>, link: Link) -> AppView {
    match fault {
        None => saying(
            AppView {
                config: crate::config::ConfigView { roster_dirty: false, ..app.config },
                ..app
            },
            if link == Link::Absent {
                "roster saved for the next launch"@
            } else {
                "roster saved"@
            },
        ),
        Some(reason) => saying(app, "unable to save roster: "@ + reason),
    }
}

impl Session {
    /// Reads a key while the configuration panel is open. `present` says of each row
    /// whether its command can be run.
    pub fn read_config_input(
        &mut self,
        app: &mut App,
        input: crate::editor::Input,
        now: u64,
        present: &Vec<bool>,
    ) -> (step: ConfigStep)
        requires
            old(app).wf(),
        ensures
            final(app).wf(),
            (final(self)@, final(app)@, step) == config_input_read(
                old(self)@,
                old(app)@,
                input,
                now,
                present@,
            ),
    {
        match self.config_input.decode(input, now) {
            None => ConfigStep::Done,
            Some(key) => {
                if key == ConfigKey::Save {
                    if app.config_roster_dirty() {
                        match app.validate_config_roster(present) {
                            Ok(()) => {},
                            Err(reason) => {
                                app.show_status(reason.as_str());
                                return ConfigStep::Done;
                            },
                        }
                    }
                    ConfigStep::SavePreferences
                } else {
                    ConfigStep::Key(key)
                }
            },
        }
    }

    fn take_up_roster(&mut self, app: &mut App, link: Link) -> (effects: Vec<Effect>)
        requires
            old(app).wf(),
        ensures
            final(app).wf(),
            (Step {
                session: final(self)@,
                app: final(app)@,
                effects: item_contents(effects@),
            }) == roster_taken_up(old(self)@, old(app)@, link),
    {
        if !app.config_roster_dirty() {
            return no_effects();
        }
        if link == Link::Absent {
            return one_effect(Effect::SaveRoster(app.config_roster_slots()));
        }
        let busy = self.turn_active;
        self.reconcile_pending = true;
        let effects = self.reconcile(app, link);
        if self.reconcile_pending {
            if busy {
                app.show_status("roster changes queued for the turn boundary");
            } else {
                app.show_status("applying roster changes");
            }
        }
        effects
    }

    fn send_choices(&self, app: &mut App, link: Link) -> (effects: Vec<Effect>)
        requires
            old(app).wf(),
        ensures
            final(app).wf(),
            (Step {
                session: self@,
                app: final(app)@,
                effects: item_contents(effects@),
            }) == choices_sent(self@, old(app)@, link),
    {
        let mut effects = match app.take_requested_mode() {
            Some(mode) => send_if_linked(link, AdapterControl::SetMode(mode)),
            None => no_effects(),
        };
        let changed = app.take_config_collaboration_changed();
        let more = if changed {
            let strategy = collaboration_strategy(app.collaboration());
            send_if_linked(link, AdapterControl::SetStrategy(strategy))
        } else {
            no_effects()
        };
        add_effects(&mut effects, more);
        effects
    }

    /// Handles a key of the configuration panel. `modes` are the modes that the agents
    /// share, and `models` those that were configured for agents.
    pub fn on_config_key(
        &mut self,
        app: &mut App,
        key: ConfigKey,
        modes: &Vec<Mode>,
        models: &Vec<(usize, String)>,
        link: Link,
    ) -> (effects: Vec<Effect>)
        requires
            old(app).wf(),
        ensures
            final(app).wf(),
            (Step {
                session: final(self)@,
                app: final(app)@,
                effects: item_contents(effects@),
            }) == config_key_handled(
                old(self)@,
                old(app)@,
                key,
                item_contents(modes@),
                models_by_slot(models@),
                link,
            ),
    {
        let action = app.handle_config_key(key, modes);
        if action != ConfigAction::Save {
            return no_effects();
        }
        let mut effects = self.take_up_roster(app, link);
        let choices = self.send_choices(app, link);
        add_effects(&mut effects, choices);
        let sends = if link == Link::Absent {
            no_effects()
        } else {
            send_models(models)
        };
        add_effects(&mut effects, sends);
        effects
    }

    /// Shows what became of a roster that was to be saved.
    pub fn finish_roster_save(&self, app: &mut App, saved: Result<(), String>, link: Link)
        requires
            old(app).wf(),
        ensures
            final(app).wf(),
            final(app)@ == roster_saved(
                old(app)@,
                match saved {
                    Ok(()) => None,
                    Err(reason) => Some(reason@),
                },
                link,
            ),
    {
        match saved {
            Ok(()) => {
                app.mark_config_roster_saved();
                if link == Link::Absent {
                    app.show_status("roster saved for the next launch");
                } else {
                    app.show_status("roster saved");
                }
            },
            Err(reason) => {
                let mut status = to_chars("unable to save roster: ");
                append_text(&mut status, reason.as_str());
                app.show_status(to_text(&status).as_str());
            },
        }
    }
}

} // verus!
