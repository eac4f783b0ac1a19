//! Bringing a live roster into line with the one that was configured, one request at a
//! time.

use crate::app::App;
use crate::controls::{AdapterControl, ControlView};
use crate::launch::{AgentSpec, SpecView};
use crate::order::{item_contents, lemma_item_contents_push};
use crate::roster::{active_slots, given_names, record_of, RecordView};
use crate::store::{StoreAgent, StoreAgentView};
use crate::text::{
    append_text, eq_ignore_case, optional, same_ignoring_case, to_chars, to_text,
};
use vstd::prelude::*;

verus! {

broadcast use lemma_item_contents_push;

/// The selected rows.
pub open spec fn desired_agents(agents: Seq<StoreAgentView>) -> Seq<StoreAgentView>
    decreases agents.len(),
{
    if agents.len() == 0 {
        Seq::empty()
    } else if agents.last().selected {
        desired_agents(agents.drop_last()).push(agents.last())
    } else {
        desired_agents(agents.drop_last())
    }
}

/// The name of a live agent.
pub open spec fn live_name(agents: Seq<(usize, RecordView)>, slot: usize) -> Seq<char> {
    if slot < given_names(agents).len() {
        given_names(agents)[slot as int]
    } else {
        Seq::empty()
    }
}

/// The identity of a live agent, or its name where it has none.
pub open spec fn live_identity(agents: Seq<(usize, RecordView)>, slot: usize) -> Seq<char> {
    match record_of(agents, slot).identity {
        Some(identity) => identity,
        None => live_name(agents, slot),
    }
}

/// Whether the agent in a slot has an identity.
pub open spec fn is_live(
    agents: Seq<(usize, RecordView)>,
    slot: usize,
    identity: Seq<char>,
) -> bool {
    same_ignoring_case(live_identity(agents, slot), identity)
}

/// The first of the slots, from a place on, whose agent has an identity.
pub open spec fn live_slot(
    agents: Seq<(usize, RecordView)>,
    slots: Seq<usize>,
    identity: Seq<char>,
    i: int,
) -> Option<usize>
    decreases slots.len() - i,
{
    if i < 0 || i >= slots.len() {
        None
    } else if is_live(agents, slots[i], identity) {
        Some(slots[i])
    } else {
        live_slot(agents, slots, identity, i + 1)
    }
}

/// How many agents of the first slots have an identity.
pub open spec fn live_count(
    agents: Seq<(usize, RecordView)>,
    slots: Seq<usize>,
    identity: Seq<char>,
    n: int,
) -> int
    decreases n,
{
    if n <= 0 {
        0
    } else {
        live_count(agents, slots, identity, n - 1) + if is_live(agents, slots[n - 1], identity) {
            1int
        } else {
            0
        }
    }
}

/// How many of the first desired agents have an identity.
pub open spec fn desired_count(desired: Seq<StoreAgentView>, identity: Seq<char>, n: int) -> int
    decreases n,
{
    if n <= 0 {
        0
    } else {
        desired_count(desired, identity, n - 1) + if same_ignoring_case(
            desired[n - 1].identity,
            identity,
        ) {
            1int
        } else {
            0
        }
    }
}

/// Whether a row of the panel has an identity.
pub open spec fn in_catalog(rows: Seq<StoreAgentView>, identity: Seq<char>) -> bool {
    exists|i: int| 0 <= i < rows.len() && same_ignoring_case((#[trigger] rows[i]).identity, identity)
}

/// Whether the agent of a place is one too many: the catalog has it, and there are
/// already as many of it as are desired.
pub open spec fn is_surplus(
    agents: Seq<(usize, RecordView)>,
    slots: Seq<usize>,
    rows: Seq<StoreAgentView>,
    i: int,
) -> bool {
    let identity = live_identity(agents, slots[i]);
    let desired = desired_agents(rows);
    in_catalog(rows, identity) && live_count(agents, slots, identity, i + 1) > desired_count(
        desired,
        identity,
        desired.len() as int,
    )
}

/// The first place, from one on, whose agent is one too many.
pub open spec fn surplus_place(
    agents: Seq<(usize, RecordView)>,
    slots: Seq<usize>,
    rows: Seq<StoreAgentView>,
    i: int,
) -> Option<int>
    decreases slots.len() - i,
{
    if i < 0 || i >= slots.len() {
        None
    } else if is_surplus(agents, slots, rows, i) {
        Some(i)
    } else {
        surplus_place(agents, slots, rows, i + 1)
    }
}

/// Whether a desired agent is not there yet, counting those of its identity.
pub open spec fn is_missing(
    agents: Seq<(usize, RecordView)>,
    slots: Seq<usize>,
    desired: Seq<StoreAgentView>,
    i: int,
) -> bool {
    desired_count(desired, desired[i].identity, i + 1) > live_count(
        agents,
        slots,
        desired[i].identity,
        slots.len() as int,
    )
}

/// The first desired agent, from a place on, that is not there yet.
pub open spec fn missing_place(
    agents: Seq<(usize, RecordView)>,
    slots: Seq<usize>,
    desired: Seq<StoreAgentView>,
    i: int,
) -> Option<int>
    decreases desired.len() - i,
{
    if i < 0 || i >= desired.len() {
        None
    } else if is_missing(agents, slots, desired, i) {
        Some(i)
    } else {
        missing_place(agents, slots, desired, i + 1)
    }
}

/// The first two slots, from a place on, that have to be exchanged: that of a row whose
/// agent is not there, and the next one behind it that has the agent. What stands in its
/// place already is not looked for elsewhere, so that an agent may be repeated.
pub open spec fn misplaced(
    agents: Seq<(usize, RecordView)>,
    slots: Seq<usize>,
    desired: Seq<StoreAgentView>,
    i: int,
) -> Option<(usize, usize)>
    decreases desired.len() - i,
{
    if i < 0 || i >= desired.len() || i >= slots.len() {
        None
    } else {
        match live_slot(agents, slots, desired[i].identity, i) {
            Some(found) => if found != slots[i] {
                Some((slots[i], found))
            } else {
                misplaced(agents, slots, desired, i + 1)
            },
            None => misplaced(agents, slots, desired, i + 1),
        }
    }
}

/// What is done next about the roster.
#[derive(Debug)]
pub enum Reconciliation {
    /// The desired roster cannot be had.
    Refused(&'static str),
    /// An earlier request has to come first.
    Waiting,
    /// A request to the agents, and what to say where it cannot be made.
    Request { control: AdapterControl, failure: &'static str },
    /// The roster is as desired.
    Settled,
}

pub enum ReconciliationView {
    Refused(Seq<char>),
    Waiting,
    Request { control: ControlView, failure: Seq<char> },
    Settled,
}

impl View for Reconciliation {
    type V = ReconciliationView;

    open spec fn view(&self) -> ReconciliationView {
        match self {
            Reconciliation::Refused(reason) => ReconciliationView::Refused(reason@),
            Reconciliation::Waiting => ReconciliationView::Waiting,
            Reconciliation::Request { control, failure } => ReconciliationView::Request {
                control: control@,
                failure: failure@,
            },
            Reconciliation::Settled => ReconciliationView::Settled,
        }
    }
}

/// How a row of the panel is started.
pub open spec fn row_spec(agent: StoreAgentView) -> SpecView {
    if same_ignoring_case(agent.adapter, "native"@) {
        SpecView::Agy(agent.command)
    } else {
        SpecView::Acp(agent.command)
    }
}

/// The first live slot.
pub open spec fn first_live(slots: Seq<usize>) -> usize {
    if slots.len() > 0 {
        slots[0]
    } else {
        0
    }
}

pub open spec fn asking(control: ControlView, failure: Seq<char>) -> ReconciliationView {
    ReconciliationView::Request { control, failure }
}

/// What is done next once the first agent is the desired one: agents that are too many
/// leave, those that are missing join, and then the order is made.
pub open spec fn reconciled_rest(
    agents: Seq<(usize, RecordView)>,
    rows: Seq<StoreAgentView>,
) -> ReconciliationView {
    let slots = active_slots(agents);
    let desired = desired_agents(rows);
    match surplus_place(agents, slots, rows, 0) {
        Some(i) => asking(ControlView::Drop(slots[i]), "unable to queue agent removal"@),
        None => match missing_place(agents, slots, desired, 0) {
            Some(i) => asking(
                ControlView::Add { spec: row_spec(desired[i]), identity: desired[i].identity },
                "unable to queue agent addition"@,
            ),
            None => match misplaced(agents, slots, desired, 0) {
                Some((target, found)) => asking(
                    ControlView::Swap(target, found),
                    "unable to queue roster reorder"@,
                ),
                None => ReconciliationView::Settled,
            },
        },
    }
}

/// What is done next about the roster, and which new first agent is awaited.
pub open spec fn reconciled(
    agents: Seq<(usize, RecordView)>,
    rows: Seq<StoreAgentView>,
    awaited: Option<Seq<char>>,
) -> (ReconciliationView, Option<Seq<char>>) {
    let desired = desired_agents(rows);
    let slots = active_slots(agents);
    if desired.len() == 0 {
        (ReconciliationView::Refused("select at least one agent for the roster"@), awaited)
    } else if awaited is Some {
        (ReconciliationView::Waiting, awaited)
    } else if !is_live(agents, first_live(slots), desired[0].identity) {
        match live_slot(agents, slots, desired[0].identity, 0) {
            Some(peer) => (
                asking(
                    ControlView::Swap(first_live(slots), peer),
                    "unable to queue roster reorder"@,
                ),
                None,
            ),
            None => (
                asking(
                    ControlView::Add { spec: row_spec(desired[0]), identity: desired[0].identity },
                    "unable to queue first agent"@,
                ),
                Some(desired[0].identity),
            ),
        }
    } else {
        (reconciled_rest(agents, rows), None)
    }
}

proof fn lemma_misplaced(
    agents: Seq<(usize, RecordView)>,
    slots: Seq<usize>,
    desired: Seq<StoreAgentView>,
    from: int,
    k: int,
)
    requires
        misplaced(agents, slots, desired, from) is None,
        0 <= from <= k < desired.len(),
        k < slots.len(),
        live_slot(agents, slots, desired[k].identity, k) is Some,
    ensures
        is_live(agents, slots[k], desired[k].identity),
    decreases k - from,
{
    if from < k {
        lemma_misplaced(agents, slots, desired, from + 1, k);
    } else {
        lemma_live_slot(agents, slots, desired[k].identity, k);
    }
}

/// The first two slots that have to be exchanged belong to a row that is not in its place,
/// behind rows that are.
proof fn lemma_misplaced_pair(
    agents: Seq<(usize, RecordView)>,
    slots: Seq<usize>,
    desired: Seq<StoreAgentView>,
    from: int,
) -> (at: (int, int))
    requires
        0 <= from,
        misplaced(agents, slots, desired, from) is Some,
    ensures
        from <= at.0 < at.1 < slots.len(),
        at.0 < desired.len(),
        misplaced(agents, slots, desired, from) == Some((slots[at.0], slots[at.1])),
        !is_live(agents, slots[at.0], desired[at.0].identity),
        is_live(agents, slots[at.1], desired[at.0].identity),
        forall|k: int|
            from <= k < at.0 ==> is_live(agents, #[trigger] slots[k], desired[k].identity)
                || live_slot(agents, slots, desired[k].identity, k) is None,
    decreases desired.len() - from,
{
    let identity = desired[from].identity;
    let found = lemma_found_place(agents, slots, identity, from);
    match live_slot(agents, slots, identity, from) {
        Some(slot) => {
            if slot != slots[from] {
                (from, found)
            } else {
                let at = lemma_misplaced_pair(agents, slots, desired, from + 1);
                assert(is_live(agents, slots[from], identity));
                at
            }
        },
        None => lemma_misplaced_pair(agents, slots, desired, from + 1),
    }
}

proof fn lemma_found_place(
    agents: Seq<(usize, RecordView)>,
    slots: Seq<usize>,
    identity: Seq<char>,
    i: int,
) -> (at: int)
    requires
        0 <= i,
    ensures
        live_slot(agents, slots, identity, i) matches Some(slot) ==> i <= at < slots.len()
            && slots[at] == slot && is_live(agents, slot, identity) && forall|k: int|
            i <= k < at ==> !is_live(agents, #[trigger] slots[k], identity),
    decreases slots.len() - i,
{
    if i >= slots.len() || is_live(agents, slots[i], identity) {
        i
    } else {
        lemma_found_place(agents, slots, identity, i + 1)
    }
}

proof fn lemma_live_slot(
    agents: Seq<(usize, RecordView)>,
    slots: Seq<usize>,
    identity: Seq<char>,
    i: int,
)
    requires
        0 <= i,
    ensures
        live_slot(agents, slots, identity, i) matches Some(slot) ==> slots.contains(slot)
            && is_live(agents, slot, identity),
        live_slot(agents, slots, identity, i) is None ==> forall|k: int|
            i <= k < slots.len() ==> !is_live(agents, #[trigger] slots[k], identity),
    decreases slots.len() - i,
{
    if i < slots.len() && !is_live(agents, slots[i], identity) {
        lemma_live_slot(agents, slots, identity, i + 1);
    }
}

proof fn lemma_missing_none(
    agents: Seq<(usize, RecordView)>,
    slots: Seq<usize>,
    desired: Seq<StoreAgentView>,
    from: int,
    k: int,
)
    requires
        missing_place(agents, slots, desired, from) is None,
        0 <= from <= k < desired.len(),
    ensures
        !is_missing(agents, slots, desired, k),
    decreases k - from,
{
    if from < k {
        lemma_missing_none(agents, slots, desired, from + 1, k);
    }
}

/// Where the first agents are the desired ones, place by place, each identity occurs
/// as often among the ones as among the others.
proof fn lemma_equal_counts(
    agents: Seq<(usize, RecordView)>,
    slots: Seq<usize>,
    desired: Seq<StoreAgentView>,
    identity: Seq<char>,
    n: int,
)
    requires
        0 <= n <= slots.len(),
        n <= desired.len(),
        forall|k: int|
            0 <= k < n ==> is_live(agents, #[trigger] slots[k], desired[k].identity),
    ensures
        live_count(agents, slots, identity, n) == desired_count(desired, identity, n),
    decreases n,
{
    if n > 0 {
        lemma_equal_counts(agents, slots, desired, identity, n - 1);
        assert(is_live(agents, slots[n - 1], desired[n - 1].identity));
    }
}

/// Where no desired agent is missing and the first rows are in their places, the agent of
/// the next row is live behind them.
proof fn lemma_next_is_live(
    agents: Seq<(usize, RecordView)>,
    slots: Seq<usize>,
    desired: Seq<StoreAgentView>,
    k: int,
)
    requires
        missing_place(agents, slots, desired, 0) is None,
        0 <= k < desired.len(),
        k <= slots.len(),
        forall|i: int|
            0 <= i < k ==> is_live(agents, #[trigger] slots[i], desired[i].identity),
    ensures
        k < slots.len(),
        live_slot(agents, slots, desired[k].identity, k) is Some,
{
    let identity = desired[k].identity;
    lemma_missing_none(agents, slots, desired, 0, k);
    lemma_equal_counts(agents, slots, desired, identity, k);
    if live_slot(agents, slots, identity, k) is None {
        lemma_live_slot(agents, slots, identity, k);
        lemma_none_behind(agents, slots, identity, k, slots.len() as int);
    }
    if k == slots.len() {
        assert(live_slot(agents, slots, identity, k) is None);
    }
}

proof fn lemma_none_behind(
    agents: Seq<(usize, RecordView)>,
    slots: Seq<usize>,
    identity: Seq<char>,
    from: int,
    n: int,
)
    requires
        0 <= from <= n <= slots.len(),
        forall|k: int| from <= k < slots.len() ==> !is_live(agents, #[trigger] slots[k], identity),
    ensures
        live_count(agents, slots, identity, n) == live_count(agents, slots, identity, from),
    decreases n - from,
{
    if from < n {
        lemma_none_behind(agents, slots, identity, from, n - 1);
        assert(!is_live(agents, slots[n - 1], identity));
    }
}

proof fn lemma_settled_place(
    agents: Seq<(usize, RecordView)>,
    rows: Seq<StoreAgentView>,
    awaited: Option<Seq<char>>,
    k: int,
)
    requires
        reconciled(agents, rows, awaited).0 is Settled,
        0 <= k < desired_agents(rows).len(),
    ensures
        k < active_slots(agents).len(),
        forall|i: int|
            0 <= i <= k ==> is_live(
                agents,
                #[trigger] active_slots(agents)[i],
                desired_agents(rows)[i].identity,
            ),
    decreases k,
{
    let slots = active_slots(agents);
    let desired = desired_agents(rows);
    if k > 0 {
        lemma_settled_place(agents, rows, awaited, k - 1);
    }
    lemma_next_is_live(agents, slots, desired, k);
    lemma_misplaced(agents, slots, desired, 0, k);
}

/// When nothing is left to do, every desired agent is live, in the desired order, ahead
/// of any that was started by hand.
pub proof fn law_settled_rosters_are_in_order(
    agents: Seq<(usize, RecordView)>,
    rows: Seq<StoreAgentView>,
    awaited: Option<Seq<char>>,
    k: int,
)
    requires
        reconciled(agents, rows, awaited).0 is Settled,
        0 <= k < desired_agents(rows).len(),
    ensures
        k < active_slots(agents).len(),
        is_live(agents, active_slots(agents)[k], desired_agents(rows)[k].identity),
{
    lemma_settled_place(agents, rows, awaited, k);
    assert(is_live(agents, active_slots(agents)[k], desired_agents(rows)[k].identity));
}

proof fn lemma_counts_grow(
    agents: Seq<(usize, RecordView)>,
    slots: Seq<usize>,
    desired: Seq<StoreAgentView>,
    identity: Seq<char>,
    m: int,
    n: int,
)
    requires
        0 <= m <= n,
    ensures
        live_count(agents, slots, identity, m) <= live_count(agents, slots, identity, n),
        desired_count(desired, identity, m) <= desired_count(desired, identity, n),
    decreases n - m,
{
    if m < n {
        lemma_counts_grow(agents, slots, desired, identity, m, n - 1);
    }
}

proof fn lemma_nothing_to_do(
    agents: Seq<(usize, RecordView)>,
    rows: Seq<StoreAgentView>,
    i: int,
)
    requires
        0 <= i <= active_slots(agents).len(),
        active_slots(agents).len() == desired_agents(rows).len(),
        forall|k: int|
            0 <= k < active_slots(agents).len() ==> is_live(
                agents,
                #[trigger] active_slots(agents)[k],
                desired_agents(rows)[k].identity,
            ),
    ensures
        surplus_place(agents, active_slots(agents), rows, i) is None,
        missing_place(agents, active_slots(agents), desired_agents(rows), i) is None,
        misplaced(agents, active_slots(agents), desired_agents(rows), i) is None,
    decreases active_slots(agents).len() - i,
{
    let slots = active_slots(agents);
    let desired = desired_agents(rows);
    let all = slots.len() as int;
    if i < all {
        lemma_nothing_to_do(agents, rows, i + 1);
        assert(is_live(agents, slots[i], desired[i].identity));
        let own = live_identity(agents, slots[i]);
        lemma_equal_counts(agents, slots, desired, own, i + 1);
        lemma_counts_grow(agents, slots, desired, own, i + 1, all);
        let wanted = desired[i].identity;
        lemma_equal_counts(agents, slots, desired, wanted, i + 1);
        lemma_counts_grow(agents, slots, desired, wanted, i + 1, all);
    }
}

/// A roster that is as desired is left alone, also where an agent is repeated: where the
/// live agents are the desired ones, place by place, nothing is asked for.
pub proof fn law_matching_rosters_are_left_alone(
    agents: Seq<(usize, RecordView)>,
    rows: Seq<StoreAgentView>,
)
    requires
        desired_agents(rows).len() > 0,
        active_slots(agents).len() == desired_agents(rows).len(),
        forall|k: int|
            0 <= k < active_slots(agents).len() ==> is_live(
                agents,
                #[trigger] active_slots(agents)[k],
                desired_agents(rows)[k].identity,
            ),
    ensures
        reconciled(agents, rows, None) == (
            ReconciliationView::Settled,
            None::<Seq<char>>,
        ),
{
    assert(is_live(agents, active_slots(agents)[0], desired_agents(rows)[0].identity));
    lemma_nothing_to_do(agents, rows, 0);
}

/// Reordering comes to an end: the rows before the exchanged slots are in their places and
/// stay there, the row of the first slot is not, and the agent that comes there is its own.
pub proof fn law_exchanges_put_a_row_in_its_place(
    agents: Seq<(usize, RecordView)>,
    rows: Seq<StoreAgentView>,
    target: usize,
    found: usize,
)
    requires
        reconciled_rest(agents, rows) == asking(
            ControlView::Swap(target, found),
            "unable to queue roster reorder"@,
        ),
    ensures
        exists|i: int, j: int|
            0 <= i < j < active_slots(agents).len() && i < desired_agents(rows).len()
                && target == #[trigger] active_slots(agents)[i] && found
                == #[trigger] active_slots(agents)[j] && !is_live(
                agents,
                target,
                desired_agents(rows)[i].identity,
            ) && is_live(agents, found, desired_agents(rows)[i].identity) && forall|k: int|
                0 <= k < i ==> is_live(
                    agents,
                    #[trigger] active_slots(agents)[k],
                    desired_agents(rows)[k].identity,
                ),
{
    let slots = active_slots(agents);
    let desired = desired_agents(rows);
    let at = lemma_misplaced_pair(agents, slots, desired, 0);
    lemma_placed_before(agents, slots, desired, at.0, at.0);
    assert(target == slots[at.0] && found == slots[at.1]);
}

proof fn lemma_placed_before(
    agents: Seq<(usize, RecordView)>,
    slots: Seq<usize>,
    desired: Seq<StoreAgentView>,
    end: int,
    n: int,
)
    requires
        missing_place(agents, slots, desired, 0) is None,
        0 <= n <= end < desired.len(),
        end <= slots.len(),
        forall|k: int|
            0 <= k < end ==> is_live(agents, #[trigger] slots[k], desired[k].identity)
                || live_slot(agents, slots, desired[k].identity, k) is None,
    ensures
        forall|k: int|
            0 <= k < n ==> is_live(agents, #[trigger] slots[k], desired[k].identity),
    decreases n,
{
    if n > 0 {
        lemma_placed_before(agents, slots, desired, end, n - 1);
        lemma_next_is_live(agents, slots, desired, n - 1);
        assert(is_live(agents, slots[n - 1], desired[n - 1].identity) || live_slot(
            agents,
            slots,
            desired[n - 1].identity,
            n - 1,
        ) is None);
    }
}

/// Only agents of the catalog are dropped: what was started by hand stays.
pub proof fn law_ad_hoc_agents_are_kept(
    agents: Seq<(usize, RecordView)>,
    rows: Seq<StoreAgentView>,
    awaited: Option<Seq<char>>,
)
    ensures
        reconciled(agents, rows, awaited).0 matches ReconciliationView::Request { control, failure }
            ==> (control matches ControlView::Drop(slot) ==> in_catalog(
            rows,
            live_identity(agents, slot),
        )),
{
    lemma_surplus(agents, active_slots(agents), rows, 0);
}

proof fn lemma_surplus(
    agents: Seq<(usize, RecordView)>,
    slots: Seq<usize>,
    rows: Seq<StoreAgentView>,
    i: int,
)
    ensures
        surplus_place(agents, slots, rows, i) matches Some(k) ==> is_surplus(agents, slots, rows, k),
    decreases slots.len() - i,
{
    if 0 <= i < slots.len() && !is_surplus(agents, slots, rows, i) {
        lemma_surplus(agents, slots, rows, i + 1);
    }
}

fn selected_rows(agents: &Vec<StoreAgent>) -> (desired: Vec<StoreAgent>)
    ensures
        item_contents(desired@) == desired_agents(item_contents(agents@)),
{
    let ghost rows = item_contents(agents@);
    let mut desired: Vec<StoreAgent> = Vec::new();
    let mut i: usize = 0;
    assert(rows.take(0) =~= Seq::empty());
    assert(item_contents(desired@) =~= Seq::empty());
    while i < agents.len()
        invariant
            i <= agents.len(),
            rows == item_contents(agents@),
            item_contents(desired@) == desired_agents(rows.take(i as int)),
        decreases agents.len() - i,
    {
        assert(rows.take(i + 1).drop_last() =~= rows.take(i as int));
        assert(rows.take(i + 1).last() == agents@[i as int]@);
        if agents[i].selected {
            desired.push(agents[i].copy());
        }
        i = i + 1;
    }
    assert(rows.take(i as int) =~= rows);
    desired
}

fn spec_of_row(agent: &StoreAgent) -> (spec: AgentSpec)
    ensures
        spec@ == row_spec(agent@),
{
    if eq_ignore_case(agent.adapter.as_str(), "native") {
        AgentSpec::Agy(agent.command.clone())
    } else {
        AgentSpec::Acp(agent.command.clone())
    }
}

impl App {
    /// The name of a live agent.
    pub fn live_slot_name(&self, slot: usize) -> (name: String)
        ensures
            name@ == live_name(self@.roster.agents, slot),
    {
        let names = self.raw_agent_names();
        assert(names@.len() == given_names(self@.roster.agents).len());
        if slot < names.len() {
            names[slot].clone()
        } else {
            proof {
                reveal_strlit("");
                assert(""@ =~= Seq::empty());
            }
            "".to_owned()
        }
    }

    /// The identity of a live agent, or its name where it has none.
    pub fn live_slot_identity(&self, slot: usize) -> (identity: String)
        requires
            self.wf(),
        ensures
            identity@ == live_identity(self@.roster.agents, slot),
    {
        match self.agent_identity(slot) {
            Some(identity) => identity.to_owned(),
            None => self.live_slot_name(slot),
        }
    }

    fn find_live_from(&self, slots: &Vec<usize>, identity: &str, from: usize) -> (slot: Option<usize>)
        requires
            self.wf(),
            from <= slots.len(),
        ensures
            slot == live_slot(self@.roster.agents, slots@, identity@, from as int),
    {
        let mut i: usize = from;
        while i < slots.len()
            invariant
                self.wf(),
                i <= slots.len(),
                live_slot(self@.roster.agents, slots@, identity@, from as int) == live_slot(
                    self@.roster.agents,
                    slots@,
                    identity@,
                    i as int,
                ),
            decreases slots.len() - i,
        {
            if eq_ignore_case(self.live_slot_identity(slots[i]).as_str(), identity) {
                return Some(slots[i]);
            }
            i = i + 1;
        }
        None
    }

    /// The first live slot whose agent has an identity.
    pub fn find_live_slot(&self, identity: &str) -> (slot: Option<usize>)
        requires
            self.wf(),
        ensures
            slot == live_slot(
                self@.roster.agents,
                active_slots(self@.roster.agents),
                identity@,
                0,
            ),
    {
        let slots = self.active_roster_slots();
        self.find_live_from(&slots, identity, 0)
    }

    fn count_live(&self, slots: &Vec<usize>, identity: &str, n: usize) -> (count: usize)
        requires
            self.wf(),
            n <= slots.len(),
        ensures
            count == live_count(self@.roster.agents, slots@, identity@, n as int),
    {
        let mut count: usize = 0;
        let mut i: usize = 0;
        while i < n
            invariant
                self.wf(),
                i <= n <= slots.len(),
                count <= i,
                count == live_count(self@.roster.agents, slots@, identity@, i as int),
            decreases n - i,
        {
            if eq_ignore_case(self.live_slot_identity(slots[i]).as_str(), identity) {
                count = count + 1;
            }
            i = i + 1;
        }
        count
    }

    fn find_surplus(&self, slots: &Vec<usize>, desired: &Vec<StoreAgent>) -> (slot: Option<usize>)
        requires
            self.wf(),
            item_contents(desired@) == desired_agents(self@.config.agents),
        ensures
            slot == (match surplus_place(
                self@.roster.agents,
                slots@,
                self@.config.agents,
                0,
            ) {
                Some(i) => Some(slots@[i]),
                None => None,
            }),
    {
        let mut i: usize = 0;
        while i < slots.len()
            invariant
                self.wf(),
                i <= slots.len(),
                item_contents(desired@) == desired_agents(self@.config.agents),
                surplus_place(self@.roster.agents, slots@, self@.config.agents, 0)
                    == surplus_place(
                    self@.roster.agents,
                    slots@,
                    self@.config.agents,
                    i as int,
                ),
            decreases slots.len() - i,
        {
            let identity = self.live_slot_identity(slots[i]);
            let known = has_row(&self.config.agents, identity.as_str());
            let live: usize = self.count_live(slots, identity.as_str(), i + 1);
            let wanted: usize = count_desired(desired, identity.as_str(), desired.len());
            assert(desired@.len() == item_contents(desired@).len());
            if known && live > wanted {
                return Some(slots[i]);
            }
            i = i + 1;
        }
        None
    }

    fn find_missing(&self, slots: &Vec<usize>, desired: &Vec<StoreAgent>) -> (place: Option<usize>)
        requires
            self.wf(),
        ensures
            match place {
                Some(i) => i < desired.len() && missing_place(
                    self@.roster.agents,
                    slots@,
                    item_contents(desired@),
                    0,
                ) == Some(i as int),
                None => missing_place(
                    self@.roster.agents,
                    slots@,
                    item_contents(desired@),
                    0,
                ) is None,
            },
    {
        let mut i: usize = 0;
        while i < desired.len()
            invariant
                self.wf(),
                i <= desired.len(),
                missing_place(self@.roster.agents, slots@, item_contents(desired@), 0)
                    == missing_place(
                    self@.roster.agents,
                    slots@,
                    item_contents(desired@),
                    i as int,
                ),
            decreases desired.len() - i,
        {
            assert(item_contents(desired@)[i as int] == desired@[i as int]@);
            let identity = desired[i].identity.as_str();
            let wanted: usize = count_desired(desired, identity, i + 1);
            let live: usize = self.count_live(slots, identity, slots.len());
            if wanted > live {
                return Some(i);
            }
            i = i + 1;
        }
        None
    }

    fn find_misplaced(&self, slots: &Vec<usize>, desired: &Vec<StoreAgent>) -> (pair: Option<
        (usize, usize),
    >)
        requires
            self.wf(),
            slots@ == active_slots(self@.roster.agents),
        ensures
            pair == misplaced(self@.roster.agents, slots@, item_contents(desired@), 0),
    {
        let mut i: usize = 0;
        while i < desired.len() && i < slots.len()
            invariant
                self.wf(),
                i <= desired.len(),
                i <= slots.len(),
                slots@ == active_slots(self@.roster.agents),
                misplaced(self@.roster.agents, slots@, item_contents(desired@), 0) == misplaced(
                    self@.roster.agents,
                    slots@,
                    item_contents(desired@),
                    i as int,
                ),
            decreases desired.len() - i,
        {
            assert(item_contents(desired@)[i as int] == desired@[i as int]@);
            match self.find_live_from(slots, desired[i].identity.as_str(), i) {
                Some(found) => {
                    if found != slots[i] {
                        return Some((slots[i], found));
                    }
                },
                None => {},
            }
            i = i + 1;
        }
        None
    }

    fn reconcile_rest(&self, desired: &Vec<StoreAgent>) -> (next: Reconciliation)
        requires
            self.wf(),
            item_contents(desired@) == desired_agents(self@.config.agents),
        ensures
            next@ == reconciled_rest(self@.roster.agents, self@.config.agents),
    {
        let slots = self.active_roster_slots();
        match self.find_surplus(&slots, desired) {
            Some(slot) => {
                return Reconciliation::Request {
                    control: AdapterControl::Drop(slot),
                    failure: "unable to queue agent removal",
                };
            },
            None => {},
        }
        match self.find_missing(&slots, desired) {
            Some(i) => {
                assert(item_contents(desired@)[i as int] == desired@[i as int]@);
                return Reconciliation::Request {
                    control: AdapterControl::Add {
                        spec: spec_of_row(&desired[i]),
                        identity: desired[i].identity.clone(),
                    },
                    failure: "unable to queue agent addition",
                };
            },
            None => {},
        }
        match self.find_misplaced(&slots, desired) {
            Some((target, found)) => Reconciliation::Request {
                control: AdapterControl::Swap(target, found),
                failure: "unable to queue roster reorder",
            },
            None => Reconciliation::Settled,
        }
    }

    /// What is done next to bring the live roster into line with the configured one.
    ///
    /// The desired first agent becomes the first live slot without restarting a process;
    /// one that is not there is added, and exchanged once it is ready. `pending_first`
    /// says which new first agent is awaited.
    pub fn reconcile_config_roster(&self, pending_first: &mut Option<String>) -> (next:
        Reconciliation)
        requires
            self.wf(),
        ensures
            (next@, optional(*final(pending_first))) == reconciled(
                self@.roster.agents,
                self@.config.agents,
                optional(*old(pending_first)),
            ),
    {
        let desired = selected_rows(&self.config.agents);
        if desired.len() == 0 {
            assert(item_contents(desired@).len() == 0);
            return Reconciliation::Refused("select at least one agent for the roster");
        }
        if pending_first.is_some() {
            return Reconciliation::Waiting;
        }
        assert(item_contents(desired@)[0] == desired@[0]@);
        let slots = self.active_roster_slots();
        let first: usize = if slots.len() > 0 {
            slots[0]
        } else {
            0
        };
        let wanted = desired[0].identity.as_str();
        if !eq_ignore_case(self.live_slot_identity(first).as_str(), wanted) {
            match self.find_live_slot(wanted) {
                Some(peer) => {
                    return Reconciliation::Request {
                        control: AdapterControl::Swap(first, peer),
                        failure: "unable to queue roster reorder",
                    };
                },
                None => {
                    *pending_first = Some(desired[0].identity.clone());
                    return Reconciliation::Request {
                        control: AdapterControl::Add {
                            spec: spec_of_row(&desired[0]),
                            identity: desired[0].identity.clone(),
                        },
                        failure: "unable to queue first agent",
                    };
                },
            }
        }
        self.reconcile_rest(&desired)
    }
}

fn has_row(rows: &Vec<StoreAgent>, identity: &str) -> (yes: bool)
    ensures
        yes == in_catalog(item_contents(rows@), identity@),
{
    let mut i: usize = 0;
    while i < rows.len()
        invariant
            i <= rows.len(),
            forall|k: int|
                0 <= k < i ==> !same_ignoring_case(
                    (#[trigger] item_contents(rows@)[k]).identity,
                    identity@,
                ),
        decreases rows.len() - i,
    {
        if eq_ignore_case(rows[i].identity.as_str(), identity) {
            assert(same_ignoring_case(item_contents(rows@)[i as int].identity, identity@));
            return true;
        }
        i = i + 1;
    }
    false
}

fn count_desired(desired: &Vec<StoreAgent>, identity: &str, n: usize) -> (count: usize)
    requires
        n <= desired.len(),
    ensures
        count == desired_count(item_contents(desired@), identity@, n as int),
{
    let mut count: usize = 0;
    let mut i: usize = 0;
    while i < n
        invariant
            i <= n <= desired.len(),
            count <= i,
            count == desired_count(item_contents(desired@), identity@, i as int),
        decreases n - i,
    {
        assert(item_contents(desired@)[i as int] == desired@[i as int]@);
        if eq_ignore_case(desired[i].identity.as_str(), identity) {
            count = count + 1;
        }
        i = i + 1;
    }
    count
}

/// The first desired agent that was not detected, from a place on. `present` says of each
/// row whether its command can be run.
pub open spec fn undetected(
    rows: Seq<StoreAgentView>,
    present: Seq<bool>,
    i: int,
) -> Option<Seq<char>>
    decreases rows.len() - i,
{
    if i < 0 || i >= rows.len() {
        None
    } else if rows[i].selected && (!rows[i].available || !(i < present.len() && present[i])) {
        Some(rows[i].name)
    } else {
        undetected(rows, present, i + 1)
    }
}

/// Why a configured roster is not taken.
pub open spec fn roster_fault(rows: Seq<StoreAgentView>, present: Seq<bool>) -> Option<Seq<char>> {
    if desired_agents(rows).len() == 0 {
        Some("select at least one agent for the roster"@)
    } else {
        match undetected(rows, present, 0) {
            Some(name) => Some("Not detected: "@ + name),
            None => None,
        }
    }
}

impl App {
    /// Checks the configured roster: it has an agent, and each of its agents was
    /// detected. `present` says of each row whether its command can be run.
    pub fn validate_config_roster(&self, present: &Vec<bool>) -> (checked: Result<(), String>)
        ensures
            match checked {
                Ok(()) => roster_fault(self@.config.agents, present@) is None,
                Err(reason) => roster_fault(self@.config.agents, present@) == Some(reason@),
            },
    {
        let rows = &self.config.agents;
        let desired = selected_rows(rows);
        assert(item_contents(desired@).len() == desired@.len());
        if desired.len() == 0 {
            return Err("select at least one agent for the roster".to_owned());
        }
        let ghost all = item_contents(rows@);
        let mut i: usize = 0;
        while i < rows.len()
            invariant
                i <= rows.len(),
                all == item_contents(rows@),
                undetected(all, present@, 0) == undetected(all, present@, i as int),
                all == self@.config.agents,
                desired_agents(all).len() > 0,
            decreases rows.len() - i,
        {
            assert(all[i as int] == rows@[i as int]@);
            let found = i < present.len() && present[i];
            if rows[i].selected && (!rows[i].available || !found) {
                let mut reason = to_chars("Not detected: ");
                append_text(&mut reason, rows[i].name.as_str());
                return Err(to_text(&reason));
            }
            i = i + 1;
        }
        Ok(())
    }
}

/// The agent that is to be first is brought to the first place: one that is there already
/// changes places with the agent that is first now, and one that is not joins and is awaited.
pub proof fn law_the_first_row_is_brought_first(
    agents: Seq<(usize, RecordView)>,
    rows: Seq<StoreAgentView>,
)
    requires
        desired_agents(rows).len() > 0,
        active_slots(agents).len() > 0,
        !is_live(agents, active_slots(agents)[0], desired_agents(rows)[0].identity),
    ensures
        reconciled(agents, rows, None).0 matches ReconciliationView::Request { control, .. } && {
            let wanted = desired_agents(rows)[0].identity;
            ||| (control matches ControlView::Swap(first, second) && first == active_slots(
                agents,
            )[0] && is_live(agents, second, wanted) && active_slots(agents).contains(second)
                && reconciled(agents, rows, None).1 is None)
            ||| (control matches ControlView::Add { identity, .. } && identity == wanted
                && reconciled(agents, rows, None).1 == Some(wanted))
        },
{
    lemma_live_slot(agents, active_slots(agents), desired_agents(rows)[0].identity, 0);
}

/// An agent is only dropped where there are more of it than are desired.
pub proof fn law_only_surplus_agents_are_dropped(
    agents: Seq<(usize, RecordView)>,
    rows: Seq<StoreAgentView>,
    awaited: Option<Seq<char>>,
)
    ensures
        reconciled(agents, rows, awaited).0 matches ReconciliationView::Request { control, .. }
            ==> (control matches ControlView::Drop(slot) ==> ({
            let slots = active_slots(agents);
            let desired = desired_agents(rows);
            let identity = live_identity(agents, slot);
            slots.contains(slot) && live_count(agents, slots, identity, slots.len() as int)
                > desired_count(desired, identity, desired.len() as int)
        })),
{
    let slots = active_slots(agents);
    let desired = desired_agents(rows);
    lemma_surplus(agents, slots, rows, 0);
    lemma_surplus_place(agents, slots, rows, 0);
    if surplus_place(agents, slots, rows, 0) is Some {
        let k = surplus_place(agents, slots, rows, 0)->0;
        assert(slots.contains(slots[k]));
        lemma_counts_grow(
            agents,
            slots,
            desired,
            live_identity(agents, slots[k]),
            k + 1,
            slots.len() as int,
        );
    }
}

proof fn lemma_surplus_place(
    agents: Seq<(usize, RecordView)>,
    slots: Seq<usize>,
    rows: Seq<StoreAgentView>,
    i: int,
)
    ensures
        surplus_place(agents, slots, rows, i) matches Some(k) ==> i <= k < slots.len() && 0 <= k,
    decreases slots.len() - i,
{
    if 0 <= i < slots.len() && !is_surplus(agents, slots, rows, i) {
        lemma_surplus_place(agents, slots, rows, i + 1);
    }
}

} // verus!
