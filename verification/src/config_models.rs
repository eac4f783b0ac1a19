//! The models of running agents, as the rows of the configuration panel choose them.

use crate::app::{App, AppView};
use crate::config::{config_ok, ConfigPanel, ConfigView, CONFIG_SETTING_COUNT};
use crate::roster::{active_slots, known_models, RecordView};
use crate::roster_sync::is_live;
use crate::session::models_by_slot;
use crate::store::{set_row_model, StoreAgentView};
use crate::text::{
    append_text, eq_ignore_case, optional, same, same_ignoring_case, strings, to_chars, to_text,
};
use vstd::prelude::*;

verus! {

/// How many of the first `n` rows stand for an agent that takes part.
pub open spec fn rows_of(rows: Seq<StoreAgentView>, identity: Seq<char>, n: int) -> int
    decreases n,
{
    if n <= 0 {
        0
    } else {
        rows_of(rows, identity, n - 1) + if rows[n - 1].selected && same_ignoring_case(
            rows[n - 1].identity,
            identity,
        ) {
            1int
        } else {
            0
        }
    }
}

/// The slot of an agent, from a place on, where `n` slots of the same agent are passed
/// over.
pub open spec fn nth_live(
    agents: Seq<(usize, RecordView)>,
    slots: Seq<usize>,
    identity: Seq<char>,
    n: int,
    i: int,
) -> Option<usize>
    decreases slots.len() - i,
{
    if i < 0 || i >= slots.len() {
        None
    } else if !is_live(agents, slots[i], identity) {
        nth_live(agents, slots, identity, n, i + 1)
    } else if n > 0 {
        nth_live(agents, slots, identity, n - 1, i + 1)
    } else {
        Some(slots[i])
    }
}

/// The running slot that a roster row stands for. Where an agent is there more than once,
/// its rows stand for its slots in order.
pub open spec fn row_slot(
    agents: Seq<(usize, RecordView)>,
    rows: Seq<StoreAgentView>,
    index: int,
) -> Option<usize> {
    let identity = rows[index].identity;
    if rows[index].selected {
        nth_live(agents, active_slots(agents), identity, rows_of(rows, identity, index), 0)
    } else {
        None
    }
}

/// Where a model stands in a catalog, from a place on.
pub open spec fn place_in(models: Seq<Seq<char>>, model: Seq<char>, i: int) -> Option<int>
    decreases models.len() - i,
{
    if i < 0 || i >= models.len() {
        None
    } else if models[i] == model {
        Some(i)
    } else {
        place_in(models, model, i + 1)
    }
}

/// The model before or behind another one in a catalog, which begins again at its end. A
/// model that the catalog does not have is followed by its first one.
pub open spec fn next_model(
    models: Seq<Seq<char>>,
    current: Option<Seq<char>>,
    forward: bool,
) -> Option<Seq<char>> {
    let at = match current {
        Some(model) => place_in(models, model, 0),
        None => None,
    };
    if models.len() == 0 {
        None
    } else {
        match at {
            Some(i) => if forward {
                Some(
                    models[if i + 1 < models.len() {
                        i + 1
                    } else {
                        0
                    }],
                )
            } else {
                Some(
                    models[if i > 0 {
                        i - 1
                    } else {
                        models.len() - 1
                    }],
                )
            },
            None => if forward {
                Some(models[0])
            } else {
                Some(models.last())
            },
        }
    }
}

/// The model that a row stands for: the one that was chosen, or the one that its agent uses.
pub open spec fn row_model(app: AppView, index: int, slot: usize) -> Option<Seq<char>> {
    match app.config.agents[index].model {
        Some(model) => Some(model),
        None => known_models(app.roster.agents, slot).1,
    }
}

/// The model that the focused row takes on next; `None` where it stands for no running
/// agent, or for one that told no models.
pub open spec fn model_offered(app: AppView, forward: bool) -> Option<Seq<char>> {
    let index = app.config.selected - CONFIG_SETTING_COUNT;
    if 0 <= index < app.config.agents.len() {
        match row_slot(app.roster.agents, app.config.agents, index) {
            Some(slot) => next_model(
                known_models(app.roster.agents, slot).0,
                row_model(app, index, slot),
                forward,
            ),
            None => None,
        }
    } else {
        None
    }
}

/// The surface after the focused row took on the next model.
#[verifier::opaque]
pub open spec fn model_cycled(app: AppView, forward: bool) -> AppView {
    let index = app.config.selected - CONFIG_SETTING_COUNT;
    match model_offered(app, forward) {
        Some(model) => AppView {
            config: ConfigView {
                agents: app.config.agents.update(
                    index,
                    StoreAgentView { model: Some(model), ..app.config.agents[index] },
                ),
                roster_dirty: true,
                ..app.config
            },
            status: app.config.agents[index].name + " model set to "@ + model,
            ..app
        },
        None => app,
    }
}

/// Whether a row asks its running agent for another model than the one it uses.
pub open spec fn asks_for_model(app: AppView, index: int) -> bool {
    match (row_slot(app.roster.agents, app.config.agents, index), app.config.agents[index].model) {
        (Some(slot), Some(model)) => {
            let (models, current) = known_models(app.roster.agents, slot);
            place_in(models, model, 0) is Some && current != Some(model)
        },
        _ => false,
    }
}

/// The models that the first `n` rows ask their running agents for, by slot.
pub open spec fn model_changes(app: AppView, n: int) -> Seq<(usize, Seq<char>)>
    decreases n,
{
    if n <= 0 {
        Seq::empty()
    } else if asks_for_model(app, n - 1) {
        model_changes(app, n - 1).push(
            (
                row_slot(app.roster.agents, app.config.agents, n - 1)->0,
                app.config.agents[n - 1].model->0,
            ),
        )
    } else {
        model_changes(app, n - 1)
    }
}

proof fn lemma_place_in(models: Seq<Seq<char>>, model: Seq<char>, i: int)
    requires
        0 <= i,
    ensures
        match place_in(models, model, i) {
            Some(k) => i <= k < models.len() && models[k] == model,
            None => forall|k: int| i <= k < models.len() ==> models[k] != model,
        },
    decreases models.len() - i,
{
    if i < models.len() && models[i] != model {
        lemma_place_in(models, model, i + 1);
    }
}

/// Only models that the agent told are offered, and none where it told none.
pub proof fn law_only_told_models_are_offered(
    models: Seq<Seq<char>>,
    current: Option<Seq<char>>,
    forward: bool,
)
    ensures
        next_model(models, current, forward) is None <==> models.len() == 0,
        next_model(models, current, forward) matches Some(model) ==> models.contains(model),
{
    if current is Some {
        lemma_place_in(models, current->0, 0);
    }
}

/// Going back undoes going forward, and the other way round, in a catalog that holds no
/// model twice.
pub proof fn law_going_back_undoes_going_forward(
    models: Seq<Seq<char>>,
    current: Seq<char>,
    forward: bool,
)
    requires
        models.contains(current),
        forall|i: int, j: int|
            0 <= i < j < models.len() ==> #[trigger] models[i] != #[trigger] models[j],
    ensures
        next_model(models, next_model(models, Some(current), forward), !forward) == Some(current),
{
    lemma_place_in(models, current, 0);
    let next = next_model(models, Some(current), forward)->0;
    lemma_place_in(models, next, 0);
}

fn find_model(models: &Vec<String>, model: &str) -> (place: Option<usize>)
    ensures
        match place {
            Some(i) => place_in(strings(models@), model@, 0) == Some(i as int) && i < models.len(),
            None => place_in(strings(models@), model@, 0) is None,
        },
{
    let mut i: usize = 0;
    while i < models.len()
        invariant
            i <= models.len(),
            place_in(strings(models@), model@, 0) == place_in(strings(models@), model@, i as int),
        decreases models.len() - i,
    {
        assert(strings(models@)[i as int] == models@[i as int]@);
        if same(models[i].as_str(), model) {
            return Some(i);
        }
        i = i + 1;
    }
    None
}

fn model_after(models: &Vec<String>, current: &Option<String>, forward: bool) -> (model: Option<
    String,
>)
    ensures
        optional(model) == next_model(strings(models@), optional(*current), forward),
{
    assert(strings(models@).len() == models@.len());
    let count: usize = models.len();
    if count == 0 {
        return None;
    }
    let at = match current {
        Some(model) => find_model(models, model.as_str()),
        None => None,
    };
    let next: usize = match at {
        Some(i) => if forward {
            if i + 1 < count {
                i + 1
            } else {
                0
            }
        } else if i > 0 {
            i - 1
        } else {
            count - 1
        },
        None => if forward {
            0
        } else {
            count - 1
        },
    };
    assert(strings(models@)[next as int] == models@[next as int]@);
    Some(models[next].clone())
}

impl ConfigPanel {
    fn take_model(&mut self, index: usize, model: String)
        requires
            config_ok(old(self)@),
            index < old(self)@.agents.len(),
        ensures
            config_ok(final(self)@),
            final(self)@ == (ConfigView {
                agents: old(self)@.agents.update(
                    index as int,
                    StoreAgentView { model: Some(model@), ..old(self)@.agents[index as int] },
                ),
                roster_dirty: true,
                ..old(self)@
            }),
    {
        assert(self@.agents[index as int] == self.agents@[index as int]@);
        set_row_model(&mut self.agents, index, model);
        self.roster_dirty = true;
    }
}

impl App {
    fn count_rows(&self, identity: &str, n: usize) -> (count: usize)
        requires
            self.wf(),
            n <= self@.config.agents.len(),
        ensures
            count == rows_of(self@.config.agents, identity@, n as int),
            count <= n,
    {
        let mut count: usize = 0;
        let mut i: usize = 0;
        while i < n
            invariant
                self.wf(),
                i <= n <= self@.config.agents.len(),
                count <= i,
                count == rows_of(self@.config.agents, identity@, i as int),
            decreases n - i,
        {
            let row = &self.config.agents[i];
            assert(self@.config.agents[i as int] == row@);
            if row.selected && eq_ignore_case(row.identity.as_str(), identity) {
                count = count + 1;
            }
            i = i + 1;
        }
        count
    }

    /// The running slot that a roster row stands for.
    pub fn config_row_slot(&self, index: usize) -> (slot: Option<usize>)
        requires
            self.wf(),
            index < self@.config.agents.len(),
        ensures
            slot == row_slot(self@.roster.agents, self@.config.agents, index as int),
    {
        let row = &self.config.agents[index];
        assert(self@.config.agents[index as int] == row@);
        if !row.selected {
            return None;
        }
        let identity = row.identity.as_str();
        let mut passed: usize = self.count_rows(identity, index);
        let slots = self.active_roster_slots();
        let ghost wanted = row_slot(self@.roster.agents, self@.config.agents, index as int);
        let mut i: usize = 0;
        while i < slots.len()
            invariant
                self.wf(),
                i <= slots.len(),
                wanted == row_slot(self@.roster.agents, self@.config.agents, index as int),
                wanted == nth_live(
                    self@.roster.agents,
                    slots@,
                    identity@,
                    passed as int,
                    i as int,
                ),
            decreases slots.len() - i,
        {
            if eq_ignore_case(self.live_slot_identity(slots[i]).as_str(), identity) {
                if passed == 0 {
                    return Some(slots[i]);
                }
                passed = passed - 1;
            }
            i = i + 1;
        }
        None
    }

    fn offered_model(&self, forward: bool) -> (model: Option<String>)
        requires
            self.wf(),
        ensures
            optional(model) == model_offered(self@, forward),
    {
        assert(self@.config.agents.len() == self.config.agents.len());
        if self.config.selected < CONFIG_SETTING_COUNT {
            return None;
        }
        let index: usize = self.config.selected - CONFIG_SETTING_COUNT;
        if index >= self.config.agents.len() {
            return None;
        }
        let slot: usize = match self.config_row_slot(index) {
            Some(slot) => slot,
            None => {
                return None;
            },
        };
        let (models, used) = self.roster.models(slot);
        assert(self@.config.agents[index as int] == self.config.agents@[index as int]@);
        let current = match &self.config.agents[index].model {
            Some(model) => Some(model.clone()),
            None => used,
        };
        model_after(&models, &current, forward)
    }

    /// Lets the focused roster row take on the next model that its running agent offers.
    /// Says whether there is one.
    pub(crate) fn cycle_model(&mut self, forward: bool) -> (cycled: bool)
        requires
            old(self).wf(),
        ensures
            final(self).wf(),
            cycled == (model_offered(old(self)@, forward) is Some),
            final(self)@ == model_cycled(old(self)@, forward),
    {
        proof {
            reveal(model_cycled);
        }
        match self.offered_model(forward) {
            Some(model) => {
                let index: usize = self.config.selected - CONFIG_SETTING_COUNT;
                assert(self@.config.agents[index as int] == self.config.agents@[index as int]@);
                let mut status = to_chars(self.config.agents[index].name.as_str());
                append_text(&mut status, " model set to ");
                append_text(&mut status, model.as_str());
                self.config.take_model(index, model);
                self.status = to_text(&status);
                true
            },
            None => false,
        }
    }

    fn requested_model(&self, index: usize) -> (change: Option<(usize, String)>)
        requires
            self.wf(),
            index < self@.config.agents.len(),
        ensures
            match change {
                Some(asked) => asks_for_model(self@, index as int) && row_slot(
                    self@.roster.agents,
                    self@.config.agents,
                    index as int,
                ) == Some(asked.0) && self@.config.agents[index as int].model == Some(asked.1@),
                None => !asks_for_model(self@, index as int),
            },
    {
        let slot: usize = match self.config_row_slot(index) {
            Some(slot) => slot,
            None => {
                return None;
            },
        };
        assert(self@.config.agents[index as int] == self.config.agents@[index as int]@);
        match &self.config.agents[index].model {
            Some(model) => {
                let (models, used) = self.roster.models(slot);
                let differs = match &used {
                    Some(current) => !same(current.as_str(), model.as_str()),
                    None => true,
                };
                if differs && find_model(&models, model.as_str()).is_some() {
                    Some((slot, model.clone()))
                } else {
                    None
                }
            },
            None => None,
        }
    }

    /// The models that the roster rows ask the running agents for, by slot.
    pub fn config_model_changes(&self) -> (changes: Vec<(usize, String)>)
        requires
            self.wf(),
        ensures
            models_by_slot(changes@) == model_changes(
                self@,
                self@.config.agents.len() as int,
            ),
    {
        let mut changes: Vec<(usize, String)> = Vec::new();
        let mut i: usize = 0;
        assert(self@.config.agents.len() == self.config.agents.len());
        assert(models_by_slot(changes@) =~= Seq::empty());
        while i < self.config.agents.len()
            invariant
                self.wf(),
                i <= self.config.agents.len(),
                self@.config.agents.len() == self.config.agents.len(),
                models_by_slot(changes@) == model_changes(self@, i as int),
            decreases self.config.agents.len() - i,
        {
            let ghost before = changes@;
            if let Some(change) = self.requested_model(i) {
                changes.push(change);
                assert(models_by_slot(changes@)
                    =~= models_by_slot(before).push((change.0, change.1@)));
            }
            i = i + 1;
        }
        changes
    }
}

} // verus!
