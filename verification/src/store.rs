//! The agent store: the catalog rows, and which of them form the roster.

use crate::events::copy_optional;
use crate::order::item_contents;
use crate::text::{contents, join, joined, optional, to_chars, to_text};
use vstd::prelude::*;

verus! {

/// One row of the catalog.
#[derive(Clone, Debug, Eq, PartialEq)]
pub struct StoreAgent {
    pub identity: String,
    pub name: String,
    pub adapter: String,
    pub command: String,
    pub model: Option<String>,
    pub available: bool,
    pub selected: bool,
}

pub struct StoreAgentView {
    pub identity: Seq<char>,
    pub name: Seq<char>,
    pub adapter: Seq<char>,
    pub command: Seq<char>,
    pub model: Option<Seq<char>>,
    pub available: bool,
    pub selected: bool,
}

impl View for StoreAgent {
    type V = StoreAgentView;

    open spec fn view(&self) -> StoreAgentView {
        StoreAgentView {
            identity: self.identity@,
            name: self.name@,
            adapter: self.adapter@,
            command: self.command@,
            model: optional(self.model),
            available: self.available,
            selected: self.selected,
        }
    }
}

impl StoreAgent {
    pub fn copy(&self) -> (agent: StoreAgent)
        ensures
            agent@ == self@,
    {
        StoreAgent {
            identity: self.identity.clone(),
            name: self.name.clone(),
            adapter: self.adapter.clone(),
            command: self.command.clone(),
            model: copy_optional(&self.model),
            available: self.available,
            selected: self.selected,
        }
    }
}

/// A copy of a list of rows.
pub fn copy_agents(list: &Vec<StoreAgent>) -> (copy: Vec<StoreAgent>)
    ensures
        item_contents(copy@) == item_contents(list@),
{
    let mut copy: Vec<StoreAgent> = Vec::new();
    let mut i: usize = 0;
    while i < list.len()
        invariant
            i <= list@.len(),
            copy@.len() == i,
            forall|j: int| 0 <= j < i ==> (#[trigger] copy@[j])@ == list@[j]@,
        decreases list@.len() - i,
    {
        copy.push(list[i].copy());
        i = i + 1;
    }
    assert(item_contents(copy@) =~= item_contents(list@));
    copy
}

/// The row with its selection turned over.
pub open spec fn toggled(agent: StoreAgentView) -> StoreAgentView {
    StoreAgentView { selected: !agent.selected, ..agent }
}

/// The rows with the one at `from` moved to `to`.
pub open spec fn reordered(agents: Seq<StoreAgentView>, from: int, to: int) -> Seq<StoreAgentView> {
    agents.update(from, agents[to]).update(to, agents[from])
}

/// Lets two neighbouring rows change places.
pub fn exchange_rows(agents: &mut Vec<StoreAgent>, from: usize, to: usize)
    requires
        from < old(agents)@.len(),
        to < old(agents)@.len(),
        to == from + 1 || from == to + 1,
    ensures
        item_contents(final(agents)@) == reordered(
            item_contents(old(agents)@),
            from as int,
            to as int,
        ),
{
    let ghost before = agents@;
    let row = agents.remove(from);
    agents.insert(to, row);
    assert(item_contents(agents@) =~= reordered(item_contents(before), from as int, to as int));
}

/// Turns the selection of a row over; says whether it is selected now.
pub fn toggle_row(agents: &mut Vec<StoreAgent>, index: usize) -> (selected: bool)
    requires
        index < old(agents)@.len(),
    ensures
        item_contents(final(agents)@) == item_contents(old(agents)@).update(
            index as int,
            toggled(old(agents)@[index as int]@),
        ),
        selected == !old(agents)@[index as int].selected,
{
    let ghost before = agents@;
    let selected = !agents[index].selected;
    agents[index].selected = selected;
    assert(item_contents(agents@) =~= item_contents(before).update(
        index as int,
        toggled(before[index as int]@),
    ));
    selected
}

/// Sets the model of a row.
pub fn set_row_model(agents: &mut Vec<StoreAgent>, index: usize, model: String)
    requires
        index < old(agents)@.len(),
    ensures
        item_contents(final(agents)@) == item_contents(old(agents)@).update(
            index as int,
            (StoreAgentView { model: Some(model@), ..old(agents)@[index as int]@ }),
        ),
{
    let ghost before = agents@;
    agents[index].model = Some(model);
    assert(item_contents(agents@) =~= item_contents(before).update(
        index as int,
        StoreAgentView { model: Some(model@), ..before[index as int]@ },
    ));
}

/// The places of the selected rows.
pub open spec fn chosen(agents: Seq<StoreAgentView>) -> Seq<usize>
    decreases agents.len(),
{
    if agents.len() == 0 {
        Seq::empty()
    } else if agents.last().selected {
        chosen(agents.drop_last()).push((agents.len() - 1) as usize)
    } else {
        chosen(agents.drop_last())
    }
}

/// The identities of the selected rows.
pub open spec fn chosen_identities(agents: Seq<StoreAgentView>) -> Seq<Seq<char>>
    decreases agents.len(),
{
    if agents.len() == 0 {
        Seq::empty()
    } else if agents.last().selected {
        chosen_identities(agents.drop_last()).push(agents.last().identity)
    } else {
        chosen_identities(agents.drop_last())
    }
}

/// The names of those rows that are not available.
pub open spec fn missing_names(agents: Seq<StoreAgentView>, rows: Seq<usize>) -> Seq<Seq<char>>
    decreases rows.len(),
{
    if rows.len() == 0 {
        Seq::empty()
    } else if agents[rows.last() as int].available {
        missing_names(agents, rows.drop_last())
    } else {
        missing_names(agents, rows.drop_last()).push(agents[rows.last() as int].name)
    }
}

#[derive(Clone, Copy, Debug, Eq, PartialEq, Structural)]
pub enum StoreKey {
    Up,
    Down,
    Toggle,
    Save,
    MoveUp,
    MoveDown,
    Confirm,
    Cancel,
}

#[derive(Clone, Debug, Eq, PartialEq)]
pub enum StoreAction {
    Ignored,
    Changed,
    Save(Vec<usize>),
    Directory(String),
    Launch(Vec<usize>),
    Close,
}

pub enum StoreActionView {
    Ignored,
    Changed,
    Save(Seq<usize>),
    Directory(Seq<char>),
    Launch(Seq<usize>),
    Close,
}

impl View for StoreAction {
    type V = StoreActionView;

    open spec fn view(&self) -> StoreActionView {
        match self {
            StoreAction::Ignored => StoreActionView::Ignored,
            StoreAction::Changed => StoreActionView::Changed,
            StoreAction::Save(rows) => StoreActionView::Save(rows@),
            StoreAction::Directory(directory) => StoreActionView::Directory(directory@),
            StoreAction::Launch(rows) => StoreActionView::Launch(rows@),
            StoreAction::Close => StoreActionView::Close,
        }
    }
}

/// The agent store.
#[derive(Debug)]
pub struct StorePanel {
    visible: bool,
    selected: usize,
    agents: Vec<StoreAgent>,
    status: String,
    directory: String,
    editing_directory: bool,
}

pub struct StoreView {
    pub visible: bool,
    pub selected: usize,
    pub agents: Seq<StoreAgentView>,
    pub status: Seq<char>,
    pub directory: Seq<char>,
    pub editing_directory: bool,
}

impl View for StorePanel {
    type V = StoreView;

    closed spec fn view(&self) -> StoreView {
        StoreView {
            visible: self.visible,
            selected: self.selected,
            agents: item_contents(self.agents@),
            status: self.status@,
            directory: self.directory@,
            editing_directory: self.editing_directory,
        }
    }
}

/// Where there are rows, one of them is focused.
pub open spec fn store_ok(store: StoreView) -> bool {
    store.agents.len() > 0 ==> store.selected < store.agents.len()
}

/// The rows that the person means: the selected ones, or the focused one.
pub open spec fn meant(store: StoreView) -> Seq<usize> {
    if chosen(store.agents).len() == 0 {
        seq![store.selected]
    } else {
        chosen(store.agents)
    }
}

/// What a key does to the store, and the action.
pub open spec fn store_response(store: StoreView, key: StoreKey) -> (StoreView, StoreActionView) {
    let last = store.agents.len() - 1;
    let focus = store.selected as int;
    if !store.visible {
        (store, StoreActionView::Ignored)
    } else if key == StoreKey::Cancel {
        (StoreView { visible: false, ..store }, StoreActionView::Close)
    } else if store.agents.len() == 0 {
        (store, StoreActionView::Ignored)
    } else {
        match key {
            StoreKey::Up => (
                StoreView {
                    selected: if focus > 0 {
                        (focus - 1) as usize
                    } else {
                        0
                    },
                    ..store
                },
                StoreActionView::Changed,
            ),
            StoreKey::Down => (
                StoreView {
                    selected: if focus < last {
                        (focus + 1) as usize
                    } else {
                        last as usize
                    },
                    ..store
                },
                StoreActionView::Changed,
            ),
            StoreKey::Toggle => (
                StoreView {
                    agents: store.agents.update(focus, toggled(store.agents[focus])),
                    ..store
                },
                StoreActionView::Changed,
            ),
            StoreKey::Save => (
                StoreView { status: "Roster saved"@, ..store },
                StoreActionView::Save(meant(store)),
            ),
            StoreKey::MoveUp => if focus > 0 {
                (
                    StoreView {
                        agents: reordered(store.agents, focus, focus - 1),
                        selected: (focus - 1) as usize,
                        ..store
                    },
                    StoreActionView::Changed,
                )
            } else {
                (store, StoreActionView::Ignored)
            },
            StoreKey::MoveDown => if focus < last {
                (
                    StoreView {
                        agents: reordered(store.agents, focus, focus + 1),
                        selected: (focus + 1) as usize,
                        ..store
                    },
                    StoreActionView::Changed,
                )
            } else {
                (store, StoreActionView::Ignored)
            },
            _ => {
                let missing = missing_names(store.agents, meant(store));
                if missing.len() > 0 {
                    (
                        StoreView { status: "Not detected: "@ + join(missing, ", "@), ..store },
                        StoreActionView::Changed,
                    )
                } else {
                    (
                        StoreView { visible: false, ..store },
                        StoreActionView::Launch(meant(store)),
                    )
                }
            },
        }
    }
}

proof fn lemma_chosen(agents: Seq<StoreAgentView>)
    requires
        agents.len() <= usize::MAX,
    ensures
        forall|i: int|
            0 <= i < chosen(agents).len() ==> #[trigger] chosen(agents)[i] < agents.len()
                && agents[chosen(agents)[i] as int].selected,
    decreases agents.len(),
{
    if agents.len() > 0 {
        let rest = agents.drop_last();
        lemma_chosen(rest);
        assert forall|i: int| 0 <= i < chosen(agents).len() implies #[trigger] chosen(agents)[i]
            < agents.len() && agents[chosen(agents)[i] as int].selected by {
            if i < chosen(rest).len() {
                assert(chosen(agents)[i] == chosen(rest)[i]);
                assert(rest[chosen(rest)[i] as int] == agents[chosen(rest)[i] as int]);
            }
        }
    }
}

proof fn lemma_missing(agents: Seq<StoreAgentView>, rows: Seq<usize>)
    requires
        missing_names(agents, rows).len() == 0,
    ensures
        forall|i: int| 0 <= i < rows.len() ==> agents[(#[trigger] rows[i]) as int].available,
    decreases rows.len(),
{
    if rows.len() > 0 {
        lemma_missing(agents, rows.drop_last());
        assert forall|i: int| 0 <= i < rows.len() implies agents[(
        #[trigger] rows[i]) as int].available by {
            if i < rows.len() - 1 {
                assert(rows.drop_last()[i] == rows[i]);
            }
        }
    }
}

proof fn lemma_chosen_rows(agents: Seq<StoreAgentView>)
    requires
        agents.len() <= usize::MAX,
    ensures
        forall|k: usize|
            #[trigger] chosen(agents).contains(k) <==> k < agents.len() && agents[k as int].selected,
        forall|i: int, j: int|
            0 <= i < j < chosen(agents).len() ==> #[trigger] chosen(agents)[i]
                < #[trigger] chosen(agents)[j],
    decreases agents.len(),
{
    if agents.len() > 0 {
        let rest = agents.drop_last();
        lemma_chosen_rows(rest);
        let (before, after) = (chosen(rest), chosen(agents));
        let last = (agents.len() - 1) as usize;
        assert forall|i: int| 0 <= i < before.len() implies #[trigger] before[i] < last by {
            assert(before.contains(before[i]));
        }
        assert forall|k: usize| #[trigger] after.contains(k) <==> k < agents.len()
            && agents[k as int].selected by {
            if after.contains(k) {
                let i = choose|i: int| 0 <= i < after.len() && after[i] == k;
                if i < before.len() {
                    assert(before[i] == k);
                    assert(before.contains(k));
                    assert(rest[k as int] == agents[k as int]);
                }
            }
            if k < agents.len() && agents[k as int].selected {
                if k < last {
                    assert(rest[k as int] == agents[k as int]);
                    assert(before.contains(k));
                    let i = choose|i: int| 0 <= i < before.len() && before[i] == k;
                    assert(after[i] == k);
                } else {
                    assert(after.last() == k);
                }
            }
        }
        assert forall|i: int, j: int| 0 <= i < j < after.len() implies #[trigger] after[i]
            < #[trigger] after[j] by {
            assert(after[i] == before[i]);
            if j < before.len() {
                assert(after[j] == before[j]);
            }
        }
    }
}

/// What is launched or saved is what was selected: exactly the selected rows, from the top
/// down, or the focused row where none is selected.
pub proof fn law_the_selected_rows_are_meant(store: StoreView, key: StoreKey, k: usize)
    requires
        store_ok(store),
        store.agents.len() <= usize::MAX,
    ensures
        store_response(store, key).1 matches StoreActionView::Launch(rows) ==> rows == meant(store),
        store_response(store, key).1 matches StoreActionView::Save(rows) ==> rows == meant(store),
        (exists|i: int| 0 <= i < store.agents.len() && (#[trigger] store.agents[i]).selected) ==> (
        meant(store).contains(k) <==> k < store.agents.len() && store.agents[k as int].selected),
        (forall|i: int| 0 <= i < store.agents.len() ==> !(#[trigger] store.agents[i]).selected)
            ==> meant(store) == seq![store.selected],
        forall|i: int, j: int|
            0 <= i < j < meant(store).len() ==> #[trigger] meant(store)[i] < #[trigger] meant(
                store,
            )[j],
{
    lemma_chosen_rows(store.agents);
    if exists|i: int| 0 <= i < store.agents.len() && (#[trigger] store.agents[i]).selected {
        let i = choose|i: int| 0 <= i < store.agents.len() && (#[trigger] store.agents[i]).selected;
        assert(chosen(store.agents).contains(i as usize));
    } else if chosen(store.agents).len() > 0 {
        assert(chosen(store.agents).contains(chosen(store.agents)[0]));
    }
}

/// Selecting turns over the focused row and no other, and doing it again undoes it. A row
/// that is moved changes places with its neighbour, the focus goes with it, and moving it
/// back undoes it.
pub proof fn law_rows_are_changed_one_at_a_time(store: StoreView)
    requires
        store_ok(store),
        store.visible,
        store.agents.len() <= usize::MAX,
    ensures
        store.agents.len() > 0 ==> ({
            let once = store_response(store, StoreKey::Toggle).0;
            &&& once.agents[store.selected as int].selected
                == !store.agents[store.selected as int].selected
            &&& forall|i: int|
                0 <= i < store.agents.len() && i != store.selected ==> #[trigger] once.agents[i]
                    == store.agents[i]
            &&& store_response(once, StoreKey::Toggle).0 == store
        }),
        store.selected + 1 < store.agents.len() ==> ({
            let down = store_response(store, StoreKey::MoveDown).0;
            &&& down.selected == store.selected + 1
            &&& down.agents[down.selected as int] == store.agents[store.selected as int]
            &&& down.agents[store.selected as int] == store.agents[store.selected + 1]
            &&& down.agents.to_multiset() == store.agents.to_multiset()
            &&& store_response(down, StoreKey::MoveUp).0 == store
        }),
        store.selected + 1 < store.agents.len() ==> store_response(
            store_response(store, StoreKey::Down).0,
            StoreKey::Up,
        ).0 == store,
{
    broadcast use vstd::seq_lib::group_to_multiset_ensures;

    let focus = store.selected as int;
    if store.agents.len() > 0 {
        let twice = store_response(store_response(store, StoreKey::Toggle).0, StoreKey::Toggle).0;
        assert(twice.agents =~= store.agents);
    }
    if focus + 1 < store.agents.len() {
        let down = store_response(store, StoreKey::MoveDown).0;
        let back = store_response(down, StoreKey::MoveUp).0;
        assert(back.agents =~= store.agents);
        assert(down.agents.to_multiset() =~= store.agents.to_multiset());
    }
}

/// Only agents that were detected are launched.
pub proof fn law_only_available_agents_launch(store: StoreView, key: StoreKey)
    requires
        store_ok(store),
        store.agents.len() <= usize::MAX,
    ensures
        store_response(store, key).1 matches StoreActionView::Launch(rows) ==> rows.len() > 0
            && forall|i: int|
            0 <= i < rows.len() ==> (#[trigger] rows[i]) < store.agents.len()
                && store.agents[rows[i] as int].available,
        store_ok(store_response(store, key).0),
{
    lemma_chosen(store.agents);
    if store_response(store, key).1 is Launch {
        lemma_missing(store.agents, meant(store));
    }
}

/// The places of the selected rows.
pub fn chosen_rows(agents: &Vec<StoreAgent>) -> (rows: Vec<usize>)
    ensures
        rows@ == chosen(item_contents(agents@)),
        forall|i: int| 0 <= i < rows@.len() ==> #[trigger] rows@[i] < agents@.len(),
{
    let ghost all = item_contents(agents@);
    let mut rows: Vec<usize> = Vec::new();
    let mut i: usize = 0;
    assert(all.take(0) =~= Seq::empty());
    while i < agents.len()
        invariant
            i <= agents@.len(),
            all == item_contents(agents@),
            rows@ == chosen(all.take(i as int)),
        decreases agents@.len() - i,
    {
        assert(all.take(i + 1).drop_last() =~= all.take(i as int));
        assert(all.take(i + 1).last() == agents@[i as int]@);
        if agents[i].selected {
            rows.push(i);
        }
        i = i + 1;
    }
    assert(all.take(i as int) =~= all);
    assert(all.len() == agents.len());
    proof {
        lemma_chosen(all);
    }
    rows
}

/// The identities of the selected rows.
pub fn selected_identities(agents: &Vec<StoreAgent>) -> (identities: Vec<String>)
    ensures
        crate::text::strings(identities@) == chosen_identities(item_contents(agents@)),
{
    broadcast use crate::text::lemma_strings_push;

    let ghost all = item_contents(agents@);
    let mut identities: Vec<String> = Vec::new();
    let mut i: usize = 0;
    assert(all.take(0) =~= Seq::empty());
    assert(crate::text::strings(identities@) =~= Seq::empty());
    while i < agents.len()
        invariant
            i <= agents@.len(),
            all == item_contents(agents@),
            crate::text::strings(identities@) == chosen_identities(all.take(i as int)),
        decreases agents@.len() - i,
    {
        assert(all.take(i + 1).drop_last() =~= all.take(i as int));
        assert(all.take(i + 1).last() == agents@[i as int]@);
        if agents[i].selected {
            identities.push(agents[i].identity.clone());
        }
        i = i + 1;
    }
    assert(all.take(i as int) =~= all);
    identities
}

impl StorePanel {
    pub open spec fn wf(&self) -> bool {
        store_ok(self@)
    }

    pub fn new() -> (store: Self)
        ensures
            store.wf(),
            store@ == (StoreView {
                visible: false,
                selected: 0,
                agents: Seq::empty(),
                status: Seq::empty(),
                directory: Seq::empty(),
                editing_directory: false,
            }),
    {
        let store = StorePanel {
            visible: false,
            selected: 0,
            agents: Vec::new(),
            status: String::new(),
            directory: String::new(),
            editing_directory: false,
        };
        assert(store@.agents =~= Seq::empty());
        store
    }

    pub fn show(&mut self, agents: Vec<StoreAgent>)
        ensures
            final(self).wf(),
            final(self)@ == (StoreView {
                visible: true,
                selected: 0,
                agents: item_contents(agents@),
                status: Seq::empty(),
                directory: old(self)@.directory,
                editing_directory: false,
            }),
    {
        self.agents = agents;
        self.selected = 0;
        self.visible = true;
        self.status = String::new();
        self.editing_directory = false;
    }

    pub fn set_directory(&mut self, directory: &str)
        ensures
            final(self)@ == (StoreView { directory: directory@, ..old(self)@ }),
    {
        self.directory = directory.to_owned();
    }

    pub fn set_editing(&mut self, editing: bool)
        ensures
            final(self)@ == (StoreView { editing_directory: editing, ..old(self)@ }),
    {
        self.editing_directory = editing;
    }

    pub fn set_status(&mut self, status: &str)
        ensures
            final(self)@ == (StoreView { status: status@, ..old(self)@ }),
    {
        self.status = status.to_owned();
    }

    pub fn directory(&self) -> (directory: &str)
        ensures
            directory@ == self@.directory,
    {
        self.directory.as_str()
    }

    pub fn status(&self) -> (status: &str)
        ensures
            status@ == self@.status,
    {
        self.status.as_str()
    }

    pub fn editing_directory(&self) -> (editing: bool)
        ensures
            editing == self@.editing_directory,
    {
        self.editing_directory
    }

    pub fn visible(&self) -> (visible: bool)
        ensures
            visible == self@.visible,
    {
        self.visible
    }

    pub fn selected(&self) -> (index: usize)
        ensures
            index == self@.selected,
    {
        self.selected
    }

    pub fn agents(&self) -> (agents: &Vec<StoreAgent>)
        ensures
            item_contents(agents@) == self@.agents,
    {
        &self.agents
    }

    fn meant(&self) -> (rows: Vec<usize>)
        requires
            self.wf(),
            self@.agents.len() > 0,
        ensures
            rows@ == meant(self@),
            forall|i: int| 0 <= i < rows@.len() ==> #[trigger] rows@[i] < self@.agents.len(),
    {
        let rows = chosen_rows(&self.agents);
        if rows.len() > 0 {
            return rows;
        }
        let mut focused: Vec<usize> = Vec::new();
        focused.push(self.selected);
        assert(focused@ =~= seq![self.selected]);
        focused
    }

    pub fn handle_key(&mut self, key: StoreKey) -> (action: StoreAction)
        requires
            old(self).wf(),
        ensures
            final(self).wf(),
            (final(self)@, action@) == store_response(old(self)@, key),
    {
        if !self.visible {
            return StoreAction::Ignored;
        }
        if key == StoreKey::Cancel {
            self.visible = false;
            return StoreAction::Close;
        }
        if self.agents.len() == 0 {
            return StoreAction::Ignored;
        }
        let last: usize = self.agents.len() - 1;
        let focus: usize = self.selected;
        match key {
            StoreKey::Up => {
                self.selected = if focus > 0 {
                    focus - 1
                } else {
                    0
                };
                StoreAction::Changed
            },
            StoreKey::Down => {
                self.selected = if focus < last {
                    focus + 1
                } else {
                    last
                };
                StoreAction::Changed
            },
            StoreKey::Toggle => {
                toggle_row(&mut self.agents, focus);
                StoreAction::Changed
            },
            StoreKey::Save => {
                let rows = self.meant();
                self.status = "Roster saved".to_owned();
                StoreAction::Save(rows)
            },
            StoreKey::MoveUp => {
                if focus == 0 {
                    return StoreAction::Ignored;
                }
                exchange_rows(&mut self.agents, focus, focus - 1);
                self.selected = focus - 1;
                StoreAction::Changed
            },
            StoreKey::MoveDown => {
                if focus >= last {
                    return StoreAction::Ignored;
                }
                exchange_rows(&mut self.agents, focus, focus + 1);
                self.selected = focus + 1;
                StoreAction::Changed
            },
            _ => {
                let rows = self.meant();
                let mut missing: Vec<Vec<char>> = Vec::new();
                let mut i: usize = 0;
                assert(rows@.take(0) =~= Seq::empty());
                assert(contents(missing@) =~= Seq::empty());
                while i < rows.len()
                    invariant
                        i <= rows@.len(),
                        forall|k: int|
                            0 <= k < rows@.len() ==> #[trigger] rows@[k] < self@.agents.len(),
                        contents(missing@) == missing_names(self@.agents, rows@.take(i as int)),
                    decreases rows@.len() - i,
                {
                    broadcast use crate::text::lemma_contents_push;

                    assert(rows@.take(i + 1).drop_last() =~= rows@.take(i as int));
                    let row: usize = rows[i];
                    assert(self@.agents[row as int] == self.agents@[row as int]@);
                    if !self.agents[row].available {
                        missing.push(to_chars(self.agents[row].name.as_str()));
                    }
                    i = i + 1;
                }
                assert(rows@.take(i as int) =~= rows@);
                assert(contents(missing@).len() == missing@.len());
                if missing.len() > 0 {
                    let mut status = to_chars("Not detected: ");
                    crate::text::append_chars(&mut status, &joined(&missing, ", "));
                    self.status = to_text(&status);
                    return StoreAction::Changed;
                }
                self.visible = false;
                StoreAction::Launch(rows)
            },
        }
    }
}

} // verus!
