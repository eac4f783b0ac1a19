//! The rows from which a roster is chosen: the agents of the catalog, those of the saved
//! or live roster first.

use crate::app::{App, AppView};
use crate::editor::{Input, Key};
use crate::events::{copy_optional, copy_strings};
use crate::launch::{
    agent_spec, spec_of, AdapterKind, AgentDefinition, AgentSpec, DefinitionView, Launch,
    LaunchView, RosterLaunch, RosterLaunchView, RosterSlot, SlotView, SpecView,
};
use crate::order::{item_contents, lemma_item_contents_push};
use crate::resume::started_as;
use crate::roster_sync::desired_agents;
use crate::store::{StoreAgent, StoreAgentView, StoreKey, StoreView};
use crate::text::{
    append_text, eq_ignore_case, lemma_strings_push, optional, same, same_ignoring_case, strings,
    to_chars, to_text,
};
use vstd::prelude::*;

verus! {

broadcast use {lemma_item_contents_push, lemma_strings_push};

/// How the adapter of an agent is shown.
pub open spec fn adapter_label(adapter: AdapterKind) -> Seq<char> {
    match adapter {
        AdapterKind::Native => "native"@,
        AdapterKind::Acp => "ACP"@,
    }
}

/// The row of an agent of the catalog, not selected.
pub open spec fn row_of(agent: DefinitionView, present: bool) -> StoreAgentView {
    StoreAgentView {
        identity: agent.identity,
        name: agent.name,
        adapter: adapter_label(agent.adapter),
        command: agent.command,
        model: None,
        available: present,
        selected: false,
    }
}

/// The rows of the first agents of the catalog that are active. `present` says of each
/// agent whether it was detected.
pub open spec fn rows_of(catalog: Seq<DefinitionView>, present: Seq<bool>, n: int) -> Seq<
    StoreAgentView,
>
    decreases n,
{
    if n <= 0 {
        Seq::empty()
    } else {
        let before = rows_of(catalog, present, n - 1);
        if catalog[n - 1].active {
            before.push(row_of(catalog[n - 1], n - 1 < present.len() && present[n - 1]))
        } else {
            before
        }
    }
}

/// The place of an agent in a saved roster, or the number of its places.
pub open spec fn saved_place(saved: Seq<SlotView>, identity: Seq<char>) -> int
    decreases saved.len(),
{
    if saved.len() == 0 || same_ignoring_case(saved[0].agent, identity) {
        0
    } else {
        1 + saved_place(saved.drop_first(), identity)
    }
}

/// The first rows whose agent has a given place in a saved roster.
pub open spec fn rows_at(
    rows: Seq<StoreAgentView>,
    saved: Seq<SlotView>,
    p: int,
    n: int,
) -> Seq<StoreAgentView>
    decreases n,
{
    if n <= 0 {
        Seq::empty()
    } else if saved_place(saved, rows[n - 1].identity) == p {
        rows_at(rows, saved, p, n - 1).push(rows[n - 1])
    } else {
        rows_at(rows, saved, p, n - 1)
    }
}

/// The rows of the first places of a saved roster, and so on: those of the first place,
/// of the second, and at the end those that were not saved. Rows of one place keep their
/// order.
pub open spec fn in_saved_order(rows: Seq<StoreAgentView>, saved: Seq<SlotView>, p: int) -> Seq<
    StoreAgentView,
>
    decreases p,
{
    if p <= 0 {
        Seq::empty()
    } else {
        in_saved_order(rows, saved, p - 1) + rows_at(rows, saved, p - 1, rows.len() as int)
    }
}

/// The rows in the order of a saved roster.
pub open spec fn ordered_rows(rows: Seq<StoreAgentView>, saved: Seq<SlotView>) -> Seq<
    StoreAgentView,
> {
    in_saved_order(rows, saved, saved.len() as int + 1)
}

/// The first row of an identity, from a place on.
pub open spec fn row_with(rows: Seq<StoreAgentView>, identity: Seq<char>, i: int) -> Option<int>
    decreases rows.len() - i,
{
    if i < 0 || i >= rows.len() {
        None
    } else if same_ignoring_case(rows[i].identity, identity) {
        Some(i)
    } else {
        row_with(rows, identity, i + 1)
    }
}

/// A selected row for each of the first places whose agent has a row.
pub open spec fn selected_for(rows: Seq<StoreAgentView>, slots: Seq<SlotView>, n: int) -> Seq<
    StoreAgentView,
>
    decreases n,
{
    if n <= 0 {
        Seq::empty()
    } else {
        let before = selected_for(rows, slots, n - 1);
        match row_with(rows, slots[n - 1].agent, 0) {
            Some(k) => before.push(
                StoreAgentView { selected: true, model: slots[n - 1].model, ..rows[k] },
            ),
            None => before,
        }
    }
}

/// The rows from which a roster is chosen: a selected row for each place, and then every
/// agent.
pub open spec fn choosable(rows: Seq<StoreAgentView>, slots: Seq<SlotView>) -> Seq<
    StoreAgentView,
> {
    selected_for(rows, slots, slots.len() as int) + rows
}

proof fn lemma_desired_concat(a: Seq<StoreAgentView>, b: Seq<StoreAgentView>)
    ensures
        desired_agents(a + b) == desired_agents(a) + desired_agents(b),
    decreases b.len(),
{
    if b.len() == 0 {
        assert(a + b =~= a);
        assert(desired_agents(a) + desired_agents(b) =~= desired_agents(a));
    } else {
        assert((a + b).drop_last() =~= a + b.drop_last());
        lemma_desired_concat(a, b.drop_last());
        assert(desired_agents(a + b) =~= desired_agents(a) + desired_agents(b));
    }
}

proof fn lemma_unselected(rows: Seq<StoreAgentView>)
    requires
        forall|i: int| 0 <= i < rows.len() ==> !(#[trigger] rows[i]).selected,
    ensures
        desired_agents(rows) == Seq::<StoreAgentView>::empty(),
    decreases rows.len(),
{
    if rows.len() > 0 {
        assert forall|i: int| 0 <= i < rows.drop_last().len() implies !(
        #[trigger] rows.drop_last()[i]).selected by {
            assert(rows.drop_last()[i] == rows[i]);
        }
        assert(!rows[rows.len() - 1].selected);
        lemma_unselected(rows.drop_last());
    }
}

proof fn lemma_selected(rows: Seq<StoreAgentView>)
    requires
        forall|i: int| 0 <= i < rows.len() ==> (#[trigger] rows[i]).selected,
    ensures
        desired_agents(rows) == rows,
    decreases rows.len(),
{
    if rows.len() > 0 {
        assert forall|i: int| 0 <= i < rows.drop_last().len() implies (
        #[trigger] rows.drop_last()[i]).selected by {
            assert(rows.drop_last()[i] == rows[i]);
        }
        assert(rows[rows.len() - 1].selected);
        lemma_selected(rows.drop_last());
        assert(rows.drop_last().push(rows.last()) =~= rows);
    }
}

proof fn lemma_all_selected(rows: Seq<StoreAgentView>, slots: Seq<SlotView>, n: int)
    ensures
        forall|i: int|
            0 <= i < selected_for(rows, slots, n).len() ==> (#[trigger] selected_for(
                rows,
                slots,
                n,
            )[i]).selected,
    decreases n,
{
    if n > 0 {
        lemma_all_selected(rows, slots, n - 1);
    }
}

/// Opening the panel and saving it as it is keeps the roster: exactly the agents that the
/// catalog knows of it are selected, in its order and with its models.
pub proof fn law_an_untouched_choice_keeps_the_roster(
    rows: Seq<StoreAgentView>,
    slots: Seq<SlotView>,
)
    requires
        forall|i: int| 0 <= i < rows.len() ==> !(#[trigger] rows[i]).selected,
    ensures
        desired_agents(choosable(rows, slots)) == selected_for(rows, slots, slots.len() as int),
{
    let first = selected_for(rows, slots, slots.len() as int);
    lemma_all_selected(rows, slots, slots.len() as int);
    lemma_selected(first);
    lemma_unselected(rows);
    lemma_desired_concat(first, rows);
    assert(first + Seq::<StoreAgentView>::empty() =~= first);
}

fn make_row(agent: &AgentDefinition, present: bool) -> (row: StoreAgent)
    ensures
        row@ == row_of(agent@, present),
{
    let adapter = match agent.adapter {
        AdapterKind::Native => "native",
        AdapterKind::Acp => "ACP",
    };
    StoreAgent {
        identity: agent.identity.clone(),
        name: agent.name.clone(),
        adapter: adapter.to_owned(),
        command: agent.command.clone(),
        model: None,
        available: present,
        selected: false,
    }
}

/// The rows of the active agents of the catalog.
pub fn catalog_rows(catalog: &Vec<AgentDefinition>, present: &Vec<bool>) -> (rows: Vec<StoreAgent>)
    ensures
        item_contents(rows@) == rows_of(
            item_contents(catalog@),
            present@,
            catalog@.len() as int,
        ),
{
    let mut rows: Vec<StoreAgent> = Vec::new();
    let mut i: usize = 0;
    assert(item_contents(rows@) =~= Seq::empty());
    while i < catalog.len()
        invariant
            i <= catalog.len(),
            item_contents(rows@) == rows_of(item_contents(catalog@), present@, i as int),
        decreases catalog.len() - i,
    {
        assert(item_contents(catalog@)[i as int] == catalog@[i as int]@);
        if catalog[i].active {
            rows.push(make_row(&catalog[i], i < present.len() && present[i]));
        }
        i = i + 1;
    }
    rows
}

fn place_in(saved: &Vec<RosterSlot>, identity: &str) -> (place: usize)
    ensures
        place == saved_place(item_contents(saved@), identity@),
        place <= saved.len(),
{
    let ghost all = item_contents(saved@);
    let mut i: usize = 0;
    assert(all.skip(0) =~= all);
    while i < saved.len()
        invariant
            i <= saved.len(),
            all == item_contents(saved@),
            saved_place(all, identity@) == i + saved_place(all.skip(i as int), identity@),
        decreases saved.len() - i,
    {
        assert(all.skip(i as int)[0] == saved@[i as int]@);
        if eq_ignore_case(saved[i].agent.as_str(), identity) {
            return i;
        }
        assert(all.skip(i as int).drop_first() =~= all.skip(i + 1));
        i = i + 1;
    }
    i
}

fn add_rows_at(
    ordered: &mut Vec<StoreAgent>,
    rows: &Vec<StoreAgent>,
    saved: &Vec<RosterSlot>,
    p: usize,
)
    ensures
        item_contents(final(ordered)@) == item_contents(old(ordered)@) + rows_at(
            item_contents(rows@),
            item_contents(saved@),
            p as int,
            rows@.len() as int,
        ),
{
    let ghost all = item_contents(rows@);
    let ghost places = item_contents(saved@);
    let ghost before = item_contents(ordered@);
    let mut i: usize = 0;
    assert(before + rows_at(all, places, p as int, 0) =~= before);
    while i < rows.len()
        invariant
            i <= rows.len(),
            all == item_contents(rows@),
            places == item_contents(saved@),
            item_contents(ordered@) == before + rows_at(all, places, p as int, i as int),
        decreases rows.len() - i,
    {
        assert(all[i as int] == rows@[i as int]@);
        if place_in(saved, rows[i].identity.as_str()) == p {
            ordered.push(rows[i].copy());
        }
        assert(item_contents(ordered@) =~= before + rows_at(all, places, p as int, i + 1));
        i = i + 1;
    }
}

/// The rows in the order of a saved roster.
pub fn order_rows(rows: &Vec<StoreAgent>, saved: &Vec<RosterSlot>) -> (ordered: Vec<StoreAgent>)
    ensures
        item_contents(ordered@) == ordered_rows(item_contents(rows@), item_contents(saved@)),
{
    let mut ordered: Vec<StoreAgent> = Vec::new();
    let mut p: usize = 0;
    assert(item_contents(ordered@) =~= Seq::empty());
    while p < saved.len()
        invariant
            p <= saved.len(),
            item_contents(ordered@) == in_saved_order(
                item_contents(rows@),
                item_contents(saved@),
                p as int,
            ),
        decreases saved.len() - p,
    {
        add_rows_at(&mut ordered, rows, saved, p);
        p = p + 1;
    }
    add_rows_at(&mut ordered, rows, saved, p);
    assert(item_contents(saved@).len() == saved@.len());
    ordered
}

fn find_row(rows: &Vec<StoreAgent>, identity: &str) -> (place: Option<usize>)
    ensures
        match place {
            Some(i) => i < rows.len() && row_with(item_contents(rows@), identity@, 0) == Some(
                i as int,
            ),
            None => row_with(item_contents(rows@), identity@, 0) is None,
        },
{
    let mut i: usize = 0;
    while i < rows.len()
        invariant
            i <= rows.len(),
            row_with(item_contents(rows@), identity@, 0) == row_with(
                item_contents(rows@),
                identity@,
                i as int,
            ),
        decreases rows.len() - i,
    {
        assert(item_contents(rows@)[i as int] == rows@[i as int]@);
        if eq_ignore_case(rows[i].identity.as_str(), identity) {
            return Some(i);
        }
        i = i + 1;
    }
    None
}

/// The rows from which a roster is chosen.
pub fn choosable_rows(rows: &Vec<StoreAgent>, slots: &Vec<RosterSlot>) -> (all: Vec<StoreAgent>)
    ensures
        item_contents(all@) == choosable(item_contents(rows@), item_contents(slots@)),
{
    let ghost held = item_contents(rows@);
    let ghost places = item_contents(slots@);
    let mut all: Vec<StoreAgent> = Vec::new();
    let mut i: usize = 0;
    assert(item_contents(all@) =~= Seq::empty());
    while i < slots.len()
        invariant
            i <= slots.len(),
            held == item_contents(rows@),
            places == item_contents(slots@),
            item_contents(all@) == selected_for(held, places, i as int),
        decreases slots.len() - i,
    {
        assert(places[i as int] == slots@[i as int]@);
        match find_row(rows, slots[i].agent.as_str()) {
            Some(k) => {
                assert(held[k as int] == rows@[k as int]@);
                let mut row = rows[k].copy();
                row.selected = true;
                row.model = copy_optional(&slots[i].model);
                all.push(row);
            },
            None => {},
        }
        i = i + 1;
    }
    let mut rest = crate::store::copy_agents(rows);
    let ghost first = all@;
    let ghost more = rest@;
    all.append(&mut rest);
    assert(item_contents(all@) =~= item_contents(first) + item_contents(more));
    all
}

/// The models of the first places of an agent.
pub open spec fn models_of(saved: Seq<SlotView>, identity: Seq<char>, n: int) -> Seq<
    Option<Seq<char>>,
>
    decreases n,
{
    if n <= 0 {
        Seq::empty()
    } else if same_ignoring_case(saved[n - 1].agent, identity) {
        models_of(saved, identity, n - 1).push(saved[n - 1].model)
    } else {
        models_of(saved, identity, n - 1)
    }
}

/// How many of the first live agents have an identity.
pub open spec fn earlier(current: Seq<Seq<char>>, identity: Seq<char>, n: int) -> int
    decreases n,
{
    if n <= 0 {
        0
    } else {
        earlier(current, identity, n - 1) + if same_ignoring_case(current[n - 1], identity) {
            1int
        } else {
            0
        }
    }
}

/// The place of a live agent: its model is the one that was saved for as many agents of
/// its identity as come before it.
pub open spec fn live_place(current: Seq<Seq<char>>, saved: Seq<SlotView>, i: int) -> SlotView {
    let models = models_of(saved, current[i], saved.len() as int);
    let k = earlier(current, current[i], i);
    SlotView {
        agent: current[i],
        model: if 0 <= k < models.len() {
            models[k]
        } else {
            None
        },
    }
}

/// The places of the live agents.
pub open spec fn live_places(current: Seq<Seq<char>>, saved: Seq<SlotView>) -> Seq<SlotView> {
    Seq::new(current.len(), |i: int| live_place(current, saved, i))
}

fn nth_model(saved: &Vec<RosterSlot>, identity: &str, nth: usize) -> (model: Option<String>)
    ensures
        ({
            let models = models_of(item_contents(saved@), identity@, saved@.len() as int);
            optional(model) == (if nth < models.len() {
                models[nth as int]
            } else {
                None
            })
        }),
{
    let ghost all = item_contents(saved@);
    let mut seen: usize = 0;
    let mut i: usize = 0;
    let mut model: Option<String> = None;
    while i < saved.len()
        invariant
            i <= saved.len(),
            seen <= i,
            all == item_contents(saved@),
            seen == models_of(all, identity@, i as int).len(),
            optional(model) == (if nth < models_of(all, identity@, i as int).len() {
                models_of(all, identity@, i as int)[nth as int]
            } else {
                None
            }),
        decreases saved.len() - i,
    {
        assert(all[i as int] == saved@[i as int]@);
        if eq_ignore_case(saved[i].agent.as_str(), identity) {
            if seen == nth {
                model = copy_optional(&saved[i].model);
            }
            seen = seen + 1;
        }
        i = i + 1;
    }
    model
}

fn count_earlier(current: &Vec<String>, identity: &str, n: usize) -> (count: usize)
    requires
        n <= current.len(),
    ensures
        count == earlier(strings(current@), identity@, n as int),
{
    let mut count: usize = 0;
    let mut i: usize = 0;
    while i < n
        invariant
            i <= n <= current.len(),
            count <= i,
            count == earlier(strings(current@), identity@, i as int),
        decreases n - i,
    {
        if eq_ignore_case(current[i].as_str(), identity) {
            count = count + 1;
        }
        i = i + 1;
    }
    count
}

/// The places of the live agents.
pub fn live_slots(current: &Vec<String>, saved: &Vec<RosterSlot>) -> (slots: Vec<RosterSlot>)
    ensures
        item_contents(slots@) == live_places(strings(current@), item_contents(saved@)),
{
    let ghost wanted = live_places(strings(current@), item_contents(saved@));
    let mut slots: Vec<RosterSlot> = Vec::new();
    let mut i: usize = 0;
    assert(item_contents(slots@) =~= wanted.take(0));
    while i < current.len()
        invariant
            i <= current.len(),
            wanted == live_places(strings(current@), item_contents(saved@)),
            item_contents(slots@) == wanted.take(i as int),
        decreases current.len() - i,
    {
        let identity = current[i].as_str();
        let before: usize = count_earlier(current, identity, i);
        let model = nth_model(saved, identity, before);
        assert(item_contents(saved@).len() == saved@.len());
        slots.push(RosterSlot { agent: current[i].clone(), model });
        assert(item_contents(slots@) =~= wanted.take(i + 1));
        i = i + 1;
    }
    assert(wanted.take(i as int) =~= wanted);
    slots
}

/// The identities of the live agents that have one.
pub open spec fn live_identities(
    agents: Seq<(usize, crate::roster::RecordView)>,
    slots: Seq<usize>,
    n: int,
) -> Seq<Seq<char>>
    decreases n,
{
    if n <= 0 {
        Seq::empty()
    } else {
        let before = live_identities(agents, slots, n - 1);
        match crate::roster::record_of(agents, slots[n - 1]).identity {
            Some(identity) => before.push(identity),
            None => before,
        }
    }
}

impl App {
    fn current_identities(&self) -> (identities: Vec<String>)
        requires
            self.wf(),
        ensures
            ({
                let slots = crate::roster::active_slots(self@.roster.agents);
                strings(identities@) == live_identities(
                    self@.roster.agents,
                    slots,
                    slots.len() as int,
                )
            }),
    {
        let slots = self.active_roster_slots();
        let mut identities: Vec<String> = Vec::new();
        let mut i: usize = 0;
        assert(strings(identities@) =~= Seq::empty());
        while i < slots.len()
            invariant
                self.wf(),
                i <= slots.len(),
                strings(identities@) == live_identities(
                    self@.roster.agents,
                    slots@,
                    i as int,
                ),
            decreases slots.len() - i,
        {
            match self.agent_identity(slots[i]) {
                Some(identity) => {
                    identities.push(identity.to_owned());
                },
                None => {},
            }
            i = i + 1;
        }
        identities
    }

    /// The rows of the configuration panel: the live agents selected, and then the
    /// catalog. Opening and saving the panel cannot replace the live roster by defaults.
    pub fn config_rows(
        &self,
        catalog: &Vec<AgentDefinition>,
        present: &Vec<bool>,
        saved: &Vec<RosterSlot>,
    ) -> (rows: Vec<StoreAgent>)
        requires
            self.wf(),
        ensures
            ({
                let slots = crate::roster::active_slots(self@.roster.agents);
                let current = live_identities(self@.roster.agents, slots, slots.len() as int);
                let all = rows_of(item_contents(catalog@), present@, catalog@.len() as int);
                item_contents(rows@) == choosable(
                    ordered_rows(all, item_contents(saved@)),
                    live_places(current, item_contents(saved@)),
                )
            }),
    {
        let current = self.current_identities();
        let ordered = order_rows(&catalog_rows(catalog, present), saved);
        choosable_rows(&ordered, &live_slots(&current, saved))
    }
}

/// The short names of the agents that are always preferred.
pub open spec fn always_preferred() -> Seq<Seq<char>> {
    seq!["codex"@, "gemini"@, "antigravity"@]
}

/// The short names of the agents that are preferred: those that the person named, and those
/// that always are.
pub fn preferred_agents(named: &Vec<String>) -> (names: Vec<String>)
    ensures
        strings(names@) == strings(named@) + always_preferred(),
{
    let mut names = copy_strings(named);
    assert(strings(names@) =~= strings(named@));
    names.push("codex".to_owned());
    names.push("gemini".to_owned());
    names.push("antigravity".to_owned());
    assert(strings(names@) =~= strings(named@) + always_preferred());
    names
}

/// The places of the active agents that are preferred and detected. The preferred agents
/// are those that are offered selected where no roster was saved.
pub open spec fn preferred_places(
    catalog: Seq<DefinitionView>,
    present: Seq<bool>,
    preferred: Seq<Seq<char>>,
    n: int,
) -> Seq<SlotView>
    decreases n,
{
    if n <= 0 {
        Seq::empty()
    } else {
        let before = preferred_places(catalog, present, preferred, n - 1);
        if catalog[n - 1].active && preferred.contains(catalog[n - 1].short_name) && n - 1
            < present.len() && present[n - 1] {
            before.push(SlotView { agent: catalog[n - 1].identity, model: None })
        } else {
            before
        }
    }
}

/// The rows of the agent store: the saved roster selected, or else the preferred agents
/// that were detected, the ones that the person named among them, and then the catalog.
pub open spec fn store_rows(
    catalog: Seq<DefinitionView>,
    present: Seq<bool>,
    named: Seq<Seq<char>>,
    saved: Seq<SlotView>,
) -> Seq<StoreAgentView> {
    let rows = ordered_rows(rows_of(catalog, present, catalog.len() as int), saved);
    choosable(
        rows,
        if saved.len() > 0 {
            saved
        } else {
            preferred_places(
                catalog,
                present,
                named + always_preferred(),
                catalog.len() as int,
            )
        },
    )
}

fn one_of(names: &Vec<String>, name: &str) -> (yes: bool)
    ensures
        yes == strings(names@).contains(name@),
{
    let mut i: usize = 0;
    while i < names.len()
        invariant
            i <= names.len(),
            forall|j: int| 0 <= j < i ==> #[trigger] strings(names@)[j] != name@,
        decreases names.len() - i,
    {
        if same(names[i].as_str(), name) {
            assert(strings(names@)[i as int] == name@);
            return true;
        }
        i = i + 1;
    }
    false
}

fn preferred_slots(
    catalog: &Vec<AgentDefinition>,
    present: &Vec<bool>,
    preferred: &Vec<String>,
) -> (slots: Vec<RosterSlot>)
    ensures
        item_contents(slots@) == preferred_places(
            item_contents(catalog@),
            present@,
            strings(preferred@),
            catalog@.len() as int,
        ),
{
    let mut slots: Vec<RosterSlot> = Vec::new();
    let mut i: usize = 0;
    assert(item_contents(slots@) =~= Seq::empty());
    while i < catalog.len()
        invariant
            i <= catalog.len(),
            item_contents(slots@) == preferred_places(
                item_contents(catalog@),
                present@,
                strings(preferred@),
                i as int,
            ),
        decreases catalog.len() - i,
    {
        assert(item_contents(catalog@)[i as int] == catalog@[i as int]@);
        let liked = one_of(preferred, catalog[i].short_name.as_str());
        if catalog[i].active && liked && i < present.len() && present[i] {
            slots.push(RosterSlot { agent: catalog[i].identity.clone(), model: None });
        }
        i = i + 1;
    }
    slots
}

/// The rows of the agent store. `named` holds the short names of the agents that the person
/// wants to be offered selected where no roster was saved, beside those that always are.
pub fn store_agents(
    catalog: &Vec<AgentDefinition>,
    present: &Vec<bool>,
    named: &Vec<String>,
    saved: &Vec<RosterSlot>,
) -> (rows: Vec<StoreAgent>)
    ensures
        item_contents(rows@) == store_rows(
            item_contents(catalog@),
            present@,
            strings(named@),
            item_contents(saved@),
        ),
{
    let ordered = order_rows(&catalog_rows(catalog, present), saved);
    assert(item_contents(saved@).len() == saved@.len());
    if saved.len() > 0 {
        choosable_rows(&ordered, saved)
    } else {
        choosable_rows(&ordered, &preferred_slots(catalog, present, &preferred_agents(named)))
    }
}

/// The places of chosen rows.
pub open spec fn slots_at(rows: Seq<StoreAgentView>, chosen: Seq<usize>, n: int) -> Seq<SlotView>
    decreases n,
{
    if n <= 0 {
        Seq::empty()
    } else {
        let before = slots_at(rows, chosen, n - 1);
        let k = chosen[n - 1] as int;
        if k < rows.len() {
            before.push(SlotView { agent: rows[k].identity, model: rows[k].model })
        } else {
            before
        }
    }
}

/// The places of chosen rows, as they are saved.
pub fn chosen_slots(rows: &Vec<StoreAgent>, chosen: &Vec<usize>) -> (slots: Vec<RosterSlot>)
    ensures
        item_contents(slots@) == slots_at(item_contents(rows@), chosen@, chosen@.len() as int),
{
    let mut slots: Vec<RosterSlot> = Vec::new();
    let mut i: usize = 0;
    assert(item_contents(slots@) =~= Seq::empty());
    while i < chosen.len()
        invariant
            i <= chosen.len(),
            item_contents(slots@) == slots_at(item_contents(rows@), chosen@, i as int),
        decreases chosen.len() - i,
    {
        let k: usize = chosen[i];
        if k < rows.len() {
            assert(item_contents(rows@)[k as int] == rows@[k as int]@);
            slots.push(
                RosterSlot {
                    agent: rows[k].identity.clone(),
                    model: copy_optional(&rows[k].model),
                },
            );
        }
        i = i + 1;
    }
    slots
}

/// The first active agent with exactly an identity, from a place on.
pub open spec fn definition_with(
    catalog: Seq<DefinitionView>,
    identity: Seq<char>,
    i: int,
) -> Option<int>
    decreases catalog.len() - i,
{
    if i < 0 || i >= catalog.len() {
        None
    } else if catalog[i].active && catalog[i].identity == identity {
        Some(i)
    } else {
        definition_with(catalog, identity, i + 1)
    }
}

/// How the agents of the first places are started, as far as the catalog has them.
pub open spec fn specs_for(slots: Seq<SlotView>, catalog: Seq<DefinitionView>, n: int) -> Seq<
    SpecView,
>
    decreases n,
{
    if n <= 0 {
        Seq::empty()
    } else {
        let before = specs_for(slots, catalog, n - 1);
        match definition_with(catalog, slots[n - 1].agent, 0) {
            Some(k) => before.push(spec_of(catalog[k])),
            None => before,
        }
    }
}

/// The launch of places that were chosen in the store, where there are any.
pub open spec fn chosen_launch(slots: Seq<SlotView>, catalog: Seq<DefinitionView>) -> Option<
    LaunchView,
> {
    if slots.len() == 0 {
        None
    } else {
        Some(
            LaunchView::Roster(
                RosterLaunchView {
                    specs: specs_for(slots, catalog, slots.len() as int),
                    identities: Seq::new(slots.len(), |i: int| slots[i].agent),
                    models: Seq::new(slots.len(), |i: int| slots[i].model),
                    session_ids: Seq::empty(),
                    prompt: None,
                    first_slot: 0,
                    max_rounds: 100,
                },
            ),
        )
    }
}

fn find_definition(catalog: &Vec<AgentDefinition>, identity: &str) -> (index: Option<usize>)
    ensures
        match index {
            Some(i) => i < catalog.len() && definition_with(
                item_contents(catalog@),
                identity@,
                0,
            ) == Some(i as int),
            None => definition_with(item_contents(catalog@), identity@, 0) is None,
        },
{
    let mut i: usize = 0;
    while i < catalog.len()
        invariant
            i <= catalog.len(),
            definition_with(item_contents(catalog@), identity@, 0) == definition_with(
                item_contents(catalog@),
                identity@,
                i as int,
            ),
        decreases catalog.len() - i,
    {
        assert(item_contents(catalog@)[i as int] == catalog@[i as int]@);
        if catalog[i].active && same(catalog[i].identity.as_str(), identity) {
            return Some(i);
        }
        i = i + 1;
    }
    None
}

/// The launch of places that were chosen in the store, where there are any.
pub fn launch_chosen(slots: &Vec<RosterSlot>, catalog: &Vec<AgentDefinition>) -> (launch: Option<
    Launch,
>)
    ensures
        match launch {
            Some(found) => chosen_launch(item_contents(slots@), item_contents(catalog@)) == Some(
                found@,
            ),
            None => chosen_launch(item_contents(slots@), item_contents(catalog@)) is None,
        },
{
    let ghost places = item_contents(slots@);
    assert(places.len() == slots@.len());
    if slots.len() == 0 {
        return None;
    }
    let mut specs: Vec<AgentSpec> = Vec::new();
    let mut identities: Vec<String> = Vec::new();
    let mut models: Vec<Option<String>> = Vec::new();
    let mut i: usize = 0;
    assert(item_contents(specs@) =~= Seq::empty());
    while i < slots.len()
        invariant
            i <= slots.len(),
            places == item_contents(slots@),
            item_contents(specs@) == specs_for(places, item_contents(catalog@), i as int),
            identities.len() == i,
            models.len() == i,
            forall|j: int| 0 <= j < i ==> (#[trigger] identities@[j])@ == places[j].agent,
            forall|j: int| 0 <= j < i ==> optional(#[trigger] models@[j]) == places[j].model,
        decreases slots.len() - i,
    {
        assert(places[i as int] == slots@[i as int]@);
        match find_definition(catalog, slots[i].agent.as_str()) {
            Some(k) => {
                assert(item_contents(catalog@)[k as int] == catalog@[k as int]@);
                specs.push(agent_spec(&catalog[k]));
            },
            None => {},
        }
        identities.push(slots[i].agent.clone());
        models.push(copy_optional(&slots[i].model));
        i = i + 1;
    }
    let launch = RosterLaunch {
        specs,
        identities,
        models,
        session_ids: Vec::new(),
        prompt: None,
        first_slot: 0,
        max_rounds: 100,
    };
    assert(launch@.identities =~= Seq::new(places.len(), |i: int| places[i].agent));
    assert(launch@.models =~= Seq::new(places.len(), |i: int| places[i].model));
    assert(launch@.session_ids =~= Seq::empty());
    Some(Launch::Roster(launch))
}

/// What a key asks of the agent store.
#[derive(Clone, Copy, Debug, Eq, PartialEq, Structural)]
pub enum StoreCommand {
    Key(StoreKey),
    EditDirectory,
    Nothing,
}

/// What a key asks of the agent store.
pub open spec fn store_command(input: Input) -> StoreCommand {
    match input.key {
        Key::Up => StoreCommand::Key(
            if input.alt {
                StoreKey::MoveUp
            } else {
                StoreKey::Up
            },
        ),
        Key::Down => StoreCommand::Key(
            if input.alt {
                StoreKey::MoveDown
            } else {
                StoreKey::Down
            },
        ),
        Key::Char(' ') => StoreCommand::Key(StoreKey::Toggle),
        Key::Char('s') => if input.ctrl {
            StoreCommand::Key(StoreKey::Save)
        } else {
            StoreCommand::Nothing
        },
        Key::Char('d') => if input.ctrl {
            StoreCommand::EditDirectory
        } else {
            StoreCommand::Nothing
        },
        Key::Char('q') => StoreCommand::Key(StoreKey::Cancel),
        Key::Enter => StoreCommand::Key(StoreKey::Confirm),
        Key::Esc => StoreCommand::Key(StoreKey::Cancel),
        _ => StoreCommand::Nothing,
    }
}

/// What a key asks of the agent store.
pub fn read_store_key(input: Input) -> (command: StoreCommand)
    ensures
        command == store_command(input),
{
    match input.key {
        Key::Up => {
            if input.alt {
                StoreCommand::Key(StoreKey::MoveUp)
            } else {
                StoreCommand::Key(StoreKey::Up)
            }
        },
        Key::Down => {
            if input.alt {
                StoreCommand::Key(StoreKey::MoveDown)
            } else {
                StoreCommand::Key(StoreKey::Down)
            }
        },
        Key::Char(' ') => StoreCommand::Key(StoreKey::Toggle),
        Key::Char('s') => {
            if input.ctrl {
                StoreCommand::Key(StoreKey::Save)
            } else {
                StoreCommand::Nothing
            }
        },
        Key::Char('d') => {
            if input.ctrl {
                StoreCommand::EditDirectory
            } else {
                StoreCommand::Nothing
            }
        },
        Key::Char('q') => StoreCommand::Key(StoreKey::Cancel),
        Key::Enter => StoreCommand::Key(StoreKey::Confirm),
        Key::Esc => StoreCommand::Key(StoreKey::Cancel),
        _ => StoreCommand::Nothing,
    }
}

/// What became of a change of the workspace directory.
#[derive(Clone, Debug, Eq, PartialEq)]
pub enum DirectoryChange {
    /// This is the directory now.
    Entered(String),
    /// The path is not a directory; the current one is given.
    NotADirectory { path: String, current: String },
    /// The directory could not be entered; the current one is given.
    Failed { reason: String, current: String },
}

/// The store after a change of the workspace directory.
pub open spec fn directory_changed(store: StoreView, change: DirectoryChange) -> StoreView {
    match change {
        DirectoryChange::Entered(path) => StoreView {
            directory: path@,
            status: "Workspace: "@ + path@,
            ..store
        },
        DirectoryChange::NotADirectory { path, current } => StoreView {
            directory: current@,
            status: "Not a directory: "@ + path@,
            ..store
        },
        DirectoryChange::Failed { reason, current } => StoreView {
            directory: current@,
            status: "Directory failed: "@ + reason@,
            ..store
        },
    }
}

impl App {
    /// Shows what became of a change of the workspace directory.
    pub fn finish_directory_change(&mut self, change: DirectoryChange)
        requires
            old(self).wf(),
        ensures
            final(self).wf(),
            final(self)@ == (AppView {
                store: directory_changed(old(self)@.store, change),
                ..old(self)@
            }),
    {
        match &change {
            DirectoryChange::Entered(path) => {
                let mut status = to_chars("Workspace: ");
                append_text(&mut status, path.as_str());
                self.set_store_directory(path.as_str());
                self.set_store_status(to_text(&status).as_str());
            },
            DirectoryChange::NotADirectory { path, current } => {
                let mut status = to_chars("Not a directory: ");
                append_text(&mut status, path.as_str());
                self.set_store_directory(current.as_str());
                self.set_store_status(to_text(&status).as_str());
            },
            DirectoryChange::Failed { reason, current } => {
                let mut status = to_chars("Directory failed: ");
                append_text(&mut status, reason.as_str());
                self.set_store_directory(current.as_str());
                self.set_store_status(to_text(&status).as_str());
            },
        }
    }
}

// Laws.

proof fn lemma_definition_with(catalog: Seq<DefinitionView>, identity: Seq<char>, from: int)
    requires
        0 <= from,
    ensures
        match definition_with(catalog, identity, from) {
            Some(k) => from <= k < catalog.len() && catalog[k].active && catalog[k].identity
                == identity,
            None => forall|k: int|
                from <= k < catalog.len() ==> !((#[trigger] catalog[k]).active
                    && catalog[k].identity == identity),
        },
    decreases catalog.len() - from,
{
    if from < catalog.len() {
        lemma_definition_with(catalog, identity, from + 1);
    }
}

proof fn lemma_specs_for(slots: Seq<SlotView>, catalog: Seq<DefinitionView>, n: int)
    requires
        0 <= n <= slots.len(),
        forall|i: int|
            0 <= i < slots.len() ==> exists|k: int|
                0 <= k < catalog.len() && (#[trigger] catalog[k]).active && catalog[k].identity == (
                #[trigger] slots[i]).agent,
    ensures
        specs_for(slots, catalog, n).len() == n,
        forall|i: int|
            0 <= i < n ==> exists|k: int|
                0 <= k < catalog.len() && (#[trigger] catalog[k]).active && catalog[k].identity
                    == slots[i].agent && #[trigger] specs_for(slots, catalog, n)[i] == spec_of(
                    catalog[k],
                ),
    decreases n,
{
    if n > 0 {
        lemma_specs_for(slots, catalog, n - 1);
        lemma_definition_with(catalog, slots[n - 1].agent, 0);
        let before = specs_for(slots, catalog, n - 1);
        let after = specs_for(slots, catalog, n);
        assert(definition_with(catalog, slots[n - 1].agent, 0) is Some);
        assert forall|i: int| 0 <= i < n implies exists|k: int|
            0 <= k < catalog.len() && (#[trigger] catalog[k]).active && catalog[k].identity
                == slots[i].agent && #[trigger] after[i] == spec_of(catalog[k]) by {
            if i < n - 1 {
                assert(after[i] == before[i]);
            } else {
                let k = definition_with(catalog, slots[n - 1].agent, 0)->0;
                assert(after[i] == spec_of(catalog[k]));
            }
        }
    }
}

/// The agents that were chosen are launched in the order of their places, each as itself and
/// with its own model.
pub proof fn law_chosen_agents_are_launched_as_chosen(
    slots: Seq<SlotView>,
    catalog: Seq<DefinitionView>,
    i: int,
)
    requires
        0 <= i < slots.len(),
        forall|j: int|
            0 <= j < slots.len() ==> exists|k: int|
                0 <= k < catalog.len() && (#[trigger] catalog[k]).active && catalog[k].identity == (
                #[trigger] slots[j]).agent,
    ensures
        chosen_launch(slots, catalog) matches Some(LaunchView::Roster(roster)) && {
            &&& roster.specs.len() == slots.len()
            &&& roster.identities.len() == slots.len()
            &&& roster.models.len() == slots.len()
            &&& roster.identities[i] == slots[i].agent
            &&& roster.models[i] == slots[i].model
            &&& exists|k: int|
                0 <= k < catalog.len() && (#[trigger] catalog[k]).active && catalog[k].identity
                    == slots[i].agent && started_as(roster.specs[i], catalog[k])
        },
{
    lemma_specs_for(slots, catalog, slots.len() as int);
    let specs = specs_for(slots, catalog, slots.len() as int);
    assert(exists|k: int|
        0 <= k < catalog.len() && (#[trigger] catalog[k]).active && catalog[k].identity
            == slots[i].agent && specs[i] == spec_of(catalog[k]));
    let k = choose|k: int|
        0 <= k < catalog.len() && (#[trigger] catalog[k]).active && catalog[k].identity
            == slots[i].agent && specs[i] == spec_of(catalog[k]);
    crate::resume::lemma_started_as(catalog[k]);
    assert(started_as(specs[i], catalog[k]));
}

proof fn lemma_rows_of(catalog: Seq<DefinitionView>, present: Seq<bool>, n: int)
    requires
        0 <= n <= catalog.len(),
    ensures
        forall|k: int|
            0 <= k < n && (#[trigger] catalog[k]).active ==> rows_of(catalog, present, n).contains(
                row_of(catalog[k], k < present.len() && present[k]),
            ),
        forall|i: int|
            0 <= i < rows_of(catalog, present, n).len() ==> exists|k: int|
                0 <= k < n && (#[trigger] catalog[k]).active && #[trigger] rows_of(
                    catalog,
                    present,
                    n,
                )[i] == row_of(catalog[k], k < present.len() && present[k]),
    decreases n,
{
    if n > 0 {
        lemma_rows_of(catalog, present, n - 1);
        let before = rows_of(catalog, present, n - 1);
        let after = rows_of(catalog, present, n);
        assert forall|k: int| 0 <= k < n && (#[trigger] catalog[k]).active implies after.contains(
            row_of(catalog[k], k < present.len() && present[k]),
        ) by {
            let row = row_of(catalog[k], k < present.len() && present[k]);
            if k < n - 1 {
                assert(before.contains(row));
                let i = choose|i: int| 0 <= i < before.len() && before[i] == row;
                assert(after[i] == row);
            } else {
                assert(after.last() == row);
            }
        }
        assert forall|i: int| 0 <= i < after.len() implies exists|k: int|
            0 <= k < n && (#[trigger] catalog[k]).active && #[trigger] after[i] == row_of(
                catalog[k],
                k < present.len() && present[k],
            ) by {
            if i < before.len() {
                assert(after[i] == before[i]);
            } else {
                assert(catalog[n - 1].active);
            }
        }
    }
}

/// The catalog offers every active agent and no other, under its own identity, name and
/// command, as available exactly where it was detected, and not selected.
pub proof fn law_every_active_agent_is_offered(
    catalog: Seq<DefinitionView>,
    present: Seq<bool>,
    k: int,
    i: int,
)
    requires
        0 <= k < catalog.len(),
        0 <= i < rows_of(catalog, present, catalog.len() as int).len(),
    ensures
        ({
            let rows = rows_of(catalog, present, catalog.len() as int);
            &&& catalog[k].active ==> exists|j: int|
                {
                    &&& 0 <= j < rows.len()
                    &&& (#[trigger] rows[j]).identity == catalog[k].identity
                    &&& rows[j].name == catalog[k].name
                    &&& rows[j].command == catalog[k].command
                    &&& rows[j].available == (k < present.len() && present[k])
                    &&& !rows[j].selected
                }
            &&& exists|c: int|
                0 <= c < catalog.len() && (#[trigger] catalog[c]).active && catalog[c].identity
                    == rows[i].identity && catalog[c].command == rows[i].command
                    && rows[i].available == (c < present.len() && present[c])
        }),
{
    lemma_rows_of(catalog, present, catalog.len() as int);
    let rows = rows_of(catalog, present, catalog.len() as int);
    if catalog[k].active {
        let row = row_of(catalog[k], k < present.len() && present[k]);
        assert(rows.contains(row));
        let j = choose|j: int| 0 <= j < rows.len() && rows[j] == row;
        assert(rows[j].identity == catalog[k].identity);
    }
    assert(rows[i] == rows[i]);
}

proof fn lemma_rows_at(
    rows: Seq<StoreAgentView>,
    saved: Seq<SlotView>,
    p: int,
    n: int,
    row: StoreAgentView,
)
    requires
        0 <= n <= rows.len(),
    ensures
        rows_at(rows, saved, p, n).to_multiset().count(row) == (if saved_place(saved, row.identity)
            == p {
            rows.take(n).to_multiset().count(row)
        } else {
            0
        }),
        forall|i: int|
            0 <= i < rows_at(rows, saved, p, n).len() ==> saved_place(
                saved,
                (#[trigger] rows_at(rows, saved, p, n)[i]).identity,
            ) == p,
    decreases n,
{
    broadcast use vstd::seq_lib::group_to_multiset_ensures;

    if n > 0 {
        lemma_rows_at(rows, saved, p, n - 1, row);
        assert(rows.take(n) =~= rows.take(n - 1).push(rows[n - 1]));
    } else {
        assert(rows.take(0) =~= Seq::<StoreAgentView>::empty());
    }
}

proof fn lemma_in_saved_order(
    rows: Seq<StoreAgentView>,
    saved: Seq<SlotView>,
    p: int,
    row: StoreAgentView,
)
    requires
        0 <= p,
    ensures
        in_saved_order(rows, saved, p).to_multiset().count(row) == (if 0 <= saved_place(
            saved,
            row.identity,
        ) < p {
            rows.to_multiset().count(row)
        } else {
            0
        }),
        forall|i: int|
            0 <= i < in_saved_order(rows, saved, p).len() ==> saved_place(
                saved,
                (#[trigger] in_saved_order(rows, saved, p)[i]).identity,
            ) < p,
        forall|i: int, j: int|
            0 <= i < j < in_saved_order(rows, saved, p).len() ==> saved_place(
                saved,
                (#[trigger] in_saved_order(rows, saved, p)[i]).identity,
            ) <= saved_place(saved, (#[trigger] in_saved_order(rows, saved, p)[j]).identity),
    decreases p,
{
    broadcast use vstd::seq_lib::group_to_multiset_ensures;

    if p > 0 {
        lemma_in_saved_order(rows, saved, p - 1, row);
        lemma_rows_at(rows, saved, p - 1, rows.len() as int, row);
        assert(rows.take(rows.len() as int) =~= rows);
        let above = in_saved_order(rows, saved, p - 1);
        let own = rows_at(rows, saved, p - 1, rows.len() as int);
        vstd::seq_lib::lemma_multiset_commutative(above, own);
    }
}

proof fn lemma_saved_place(saved: Seq<SlotView>, identity: Seq<char>)
    ensures
        0 <= saved_place(saved, identity) <= saved.len(),
    decreases saved.len(),
{
    if saved.len() > 0 {
        lemma_saved_place(saved.drop_first(), identity);
    }
}

/// Ordering the rows by a saved roster neither loses nor adds one, and an agent that was
/// saved earlier stands earlier.
pub proof fn law_rows_follow_the_saved_roster(
    rows: Seq<StoreAgentView>,
    saved: Seq<SlotView>,
    i: int,
    j: int,
)
    requires
        0 <= i < j < ordered_rows(rows, saved).len(),
    ensures
        ordered_rows(rows, saved).to_multiset() == rows.to_multiset(),
        saved_place(saved, ordered_rows(rows, saved)[i].identity) <= saved_place(
            saved,
            ordered_rows(rows, saved)[j].identity,
        ),
{
    let ordered = ordered_rows(rows, saved);
    assert forall|row: StoreAgentView| #[trigger] ordered.to_multiset().count(row)
        == rows.to_multiset().count(row) by {
        lemma_in_saved_order(rows, saved, saved.len() as int + 1, row);
        lemma_saved_place(saved, row.identity);
    }
    assert(ordered.to_multiset() =~= rows.to_multiset());
    lemma_in_saved_order(rows, saved, saved.len() as int + 1, ordered[i]);
}

/// The places of chosen rows are those of the rows: the agent and the model of each, in the
/// order in which they were chosen.
pub proof fn law_chosen_places_are_those_of_their_rows(
    rows: Seq<StoreAgentView>,
    chosen: Seq<usize>,
    n: int,
)
    requires
        0 <= n <= chosen.len(),
        forall|i: int| 0 <= i < chosen.len() ==> (#[trigger] chosen[i]) < rows.len(),
    ensures
        slots_at(rows, chosen, n).len() == n,
        forall|i: int|
            0 <= i < n ==> (#[trigger] slots_at(rows, chosen, n)[i]).agent
                == rows[chosen[i] as int].identity && slots_at(rows, chosen, n)[i].model
                == rows[chosen[i] as int].model,
    decreases n,
{
    if n > 0 {
        law_chosen_places_are_those_of_their_rows(rows, chosen, n - 1);
        assert(chosen[n - 1] < rows.len());
    }
}

} // verus!
