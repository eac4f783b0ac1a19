//! Startup configuration and the restoration of a saved roster.
//!
//! The launcher runs before a session or an adapter exists. A saved roster is only a
//! request to restore agents that still exist in the current catalog. The catalog is
//! authoritative: stale identities are discarded, and an empty result always opens the
//! store instead of starting detected agents.

use crate::events::copy_optional;
use crate::json::{
    document, field, lemma_list_view, list_in, list_view, nested, parse_json, text_in, Json,
    JsonView,
};
use crate::launch::{RosterSlot, SlotView};
use crate::order::{item_contents, lemma_item_contents_push};
use crate::text::{
    contents, eq_ignore_case, lemma_strings_push, lines, optional, same_ignoring_case, split_lines,
    strings, to_chars, to_text, trim, trimmed,
};
use vstd::prelude::*;

verus! {

broadcast use {lemma_item_contents_push, lemma_strings_push};

/// What the launcher does after reading what was saved.
#[derive(Clone, Debug, Eq, PartialEq)]
pub enum LaunchDecision {
    /// Restore this roster in its saved order.
    Restore { identities: Vec<String> },
    /// Show the agent store, so that a roster can be chosen.
    OpenStore,
}

pub enum DecisionView {
    Restore { identities: Seq<Seq<char>> },
    OpenStore,
}

impl View for LaunchDecision {
    type V = DecisionView;

    open spec fn view(&self) -> DecisionView {
        match self {
            LaunchDecision::Restore { identities } => DecisionView::Restore {
                identities: strings(identities@),
            },
            LaunchDecision::OpenStore => DecisionView::OpenStore,
        }
    }
}

/// The identities that a decision restores.
pub open spec fn restored(decision: DecisionView) -> Seq<Seq<char>> {
    match decision {
        DecisionView::Restore { identities } => identities,
        DecisionView::OpenStore => Seq::empty(),
    }
}

impl LaunchDecision {
    /// Whether this decision holds a usable saved roster.
    pub fn should_restore(&self) -> (yes: bool)
        ensures
            yes == (restored(self@).len() > 0),
    {
        match self {
            LaunchDecision::Restore { identities } => identities.len() > 0,
            LaunchDecision::OpenStore => false,
        }
    }

    /// The identities to restore: none for the store.
    pub fn identities(&self) -> (identities: &[String])
        ensures
            strings(identities@) == restored(self@),
    {
        match self {
            LaunchDecision::Restore { identities } => identities.as_slice(),
            LaunchDecision::OpenStore => {
                let none: &[String] = &[];
                assert(strings(none@) =~= Seq::empty());
                none
            },
        }
    }
}

/// The lines of a saved roster that are not blank, without the space around them.
pub open spec fn written_lines(all: Seq<Seq<char>>, n: int) -> Seq<Seq<char>>
    decreases n,
{
    if n <= 0 {
        Seq::empty()
    } else {
        let before = written_lines(all, n - 1);
        let line = trim(all[n - 1]);
        if line.len() == 0 {
            before
        } else {
            before.push(line)
        }
    }
}

/// The identities of a saved roster, one to a line.
pub open spec fn roster_lines(text: Seq<char>) -> Seq<Seq<char>> {
    written_lines(lines(text), lines(text).len() as int)
}

/// The saved roster of a settings document: `launcher.roster`, or none where a value is
/// missing or not of its type.
pub open spec fn roster_in(settings: Option<JsonView>) -> Seq<Seq<char>> {
    match settings {
        Some(value) => match text_in(nested(value, "launcher"@, "roster"@)) {
            Some(text) => roster_lines(text),
            None => Seq::empty(),
        },
        None => Seq::empty(),
    }
}

fn identity_lines(text: &str) -> (identities: Vec<String>)
    ensures
        strings(identities@) == roster_lines(text@),
{
    let all = split_lines(&to_chars(text));
    let mut identities: Vec<String> = Vec::new();
    let mut i: usize = 0;
    assert(strings(identities@) =~= Seq::empty());
    while i < all.len()
        invariant
            i <= all.len(),
            contents(all@) == lines(text@),
            strings(identities@) == written_lines(lines(text@), i as int),
        decreases all.len() - i,
    {
        let line = trimmed(&all[i]);
        assert(lines(text@)[i as int] == all@[i as int]@);
        if line.len() > 0 {
            identities.push(to_text(&line));
        }
        i = i + 1;
    }
    assert(lines(text@).len() == all@.len());
    identities
}

/// The saved roster of a settings document.
pub fn saved_roster(settings: &Option<Json>) -> (identities: Vec<String>)
    ensures
        strings(identities@) == roster_in(
            match settings {
                Some(value) => Some(value@),
                None => None,
            },
        ),
{
    match settings {
        Some(value) => match value.text_at("launcher", "roster") {
            Some(text) => {
                return identity_lines(text);
            },
            None => {},
        },
        None => {},
    }
    let none: Vec<String> = Vec::new();
    assert(strings(none@) =~= Seq::empty());
    none
}

/// The saved roster of the text of a settings document.
///
/// Each line that is not blank is one identity. A text that is not JSON, a missing
/// setting and a value of the wrong type are an empty roster: startup stays safe when
/// the settings file is truncated or was edited by hand.
pub fn parse_saved_roster(settings_json: &str) -> (identities: Vec<String>)
    ensures
        strings(identities@) == roster_in(document(settings_json@)),
{
    saved_roster(&parse_json(settings_json))
}

/// The first identity that is a saved one but for case, from a place on.
pub open spec fn known_as(available: Seq<Seq<char>>, saved: Seq<char>, i: int) -> Option<Seq<char>>
    decreases available.len() - i,
{
    if i < 0 || i >= available.len() {
        None
    } else if same_ignoring_case(available[i], saved) {
        Some(available[i])
    } else {
        known_as(available, saved, i + 1)
    }
}

/// The first saved identities, as the catalog spells them. What the catalog does not
/// know is left out.
pub open spec fn resolved(saved: Seq<Seq<char>>, available: Seq<Seq<char>>, n: int) -> Seq<
    Seq<char>,
>
    decreases n,
{
    if n <= 0 {
        Seq::empty()
    } else {
        let before = resolved(saved, available, n - 1);
        match known_as(available, saved[n - 1], 0) {
            Some(identity) => before.push(identity),
            None => before,
        }
    }
}

/// Saved identities, as the catalog spells them.
pub open spec fn resolved_all(saved: Seq<Seq<char>>, available: Seq<Seq<char>>) -> Seq<Seq<char>> {
    resolved(saved, available, saved.len() as int)
}

/// Only identities of the catalog are restored.
pub proof fn law_only_known_agents_are_restored(
    saved: Seq<Seq<char>>,
    available: Seq<Seq<char>>,
    k: int,
)
    requires
        0 <= k < resolved_all(saved, available).len(),
    ensures
        available.contains(resolved_all(saved, available)[k]),
{
    lemma_resolved_known(saved, available, saved.len() as int, k);
}

proof fn lemma_resolved_known(
    saved: Seq<Seq<char>>,
    available: Seq<Seq<char>>,
    n: int,
    k: int,
)
    requires
        0 <= k < resolved(saved, available, n).len(),
    ensures
        available.contains(resolved(saved, available, n)[k]),
    decreases n,
{
    if n > 0 {
        lemma_known_as(available, saved[n - 1], 0);
        if k < resolved(saved, available, n - 1).len() {
            lemma_resolved_known(saved, available, n - 1, k);
        }
    }
}

proof fn lemma_known_as(available: Seq<Seq<char>>, saved: Seq<char>, i: int)
    requires
        0 <= i,
    ensures
        known_as(available, saved, i) matches Some(identity) ==> available.contains(identity)
            && same_ignoring_case(identity, saved),
    decreases available.len() - i,
{
    if i < available.len() {
        if same_ignoring_case(available[i], saved) {
            assert(available[i] == available[i]);
        } else {
            lemma_known_as(available, saved, i + 1);
        }
    }
}

/// The order in which agents were saved is the order in which they are restored: the
/// roster of two lists in a row is that of the first and then that of the second.
pub proof fn law_saved_order_is_kept(
    first: Seq<Seq<char>>,
    second: Seq<Seq<char>>,
    available: Seq<Seq<char>>,
)
    ensures
        resolved_all(first + second, available) == resolved_all(first, available) + resolved_all(
            second,
            available,
        ),
{
    lemma_resolved_prefix(first, second, available, first.len() as int);
    lemma_resolved_suffix(first, second, available, second.len() as int);
}

proof fn lemma_resolved_prefix(
    first: Seq<Seq<char>>,
    second: Seq<Seq<char>>,
    available: Seq<Seq<char>>,
    n: int,
)
    requires
        0 <= n <= first.len(),
    ensures
        resolved(first + second, available, n) == resolved(first, available, n),
    decreases n,
{
    if n > 0 {
        lemma_resolved_prefix(first, second, available, n - 1);
        assert((first + second)[n - 1] == first[n - 1]);
    }
}

proof fn lemma_resolved_suffix(
    first: Seq<Seq<char>>,
    second: Seq<Seq<char>>,
    available: Seq<Seq<char>>,
    n: int,
)
    requires
        0 <= n <= second.len(),
    ensures
        resolved(first + second, available, first.len() + n) == resolved_all(first, available)
            + resolved(second, available, n),
    decreases n,
{
    if n > 0 {
        lemma_resolved_suffix(first, second, available, n - 1);
        assert((first + second)[first.len() + n - 1] == second[n - 1]);
        assert(resolved(first + second, available, first.len() + n) =~= resolved_all(
            first,
            available,
        ) + resolved(second, available, n));
    } else {
        lemma_resolved_prefix(first, second, available, first.len() as int);
        assert(resolved(second, available, 0) =~= Seq::empty());
    }
}

fn known_identity(available: &[String], saved: &str) -> (identity: Option<String>)
    ensures
        optional(identity) == known_as(strings(available@), saved@, 0),
{
    let mut i: usize = 0;
    while i < available.len()
        invariant
            i <= available@.len(),
            known_as(strings(available@), saved@, 0) == known_as(
                strings(available@),
                saved@,
                i as int,
            ),
        decreases available@.len() - i,
    {
        assert(strings(available@)[i as int] == available@[i as int]@);
        if eq_ignore_case(available[i].as_str(), saved) {
            return Some(available[i].clone());
        }
        i = i + 1;
    }
    None
}

/// Saved identities as the catalog spells them, in their saved order, repetitions kept.
pub fn resolve_roster(saved: &Vec<String>, available_identities: &[String]) -> (identities: Vec<
    String,
>)
    ensures
        strings(identities@) == resolved_all(strings(saved@), strings(available_identities@)),
{
    let mut identities: Vec<String> = Vec::new();
    let mut i: usize = 0;
    assert(strings(identities@) =~= Seq::empty());
    while i < saved.len()
        invariant
            i <= saved.len(),
            strings(identities@) == resolved(
                strings(saved@),
                strings(available_identities@),
                i as int,
            ),
        decreases saved.len() - i,
    {
        assert(strings(saved@)[i as int] == saved@[i as int]@);
        match known_identity(available_identities, saved[i].as_str()) {
            Some(identity) => {
                identities.push(identity);
            },
            None => {},
        }
        i = i + 1;
    }
    identities
}

/// The saved roster of a settings text, as the catalog spells it.
///
/// The saved order is kept, repeated identities too. Unknown or removed identities are
/// left out.
pub fn resolve_saved_roster(settings_json: &str, available_identities: &[String]) -> (identities:
    Vec<String>)
    ensures
        strings(identities@) == resolved_all(
            roster_in(document(settings_json@)),
            strings(available_identities@),
        ),
{
    resolve_roster(&parse_saved_roster(settings_json), available_identities)
}

proof fn lemma_spelled_as(available: Seq<Seq<char>>, saved: Seq<char>, from: int)
    requires
        0 <= from,
    ensures
        match known_as(available, saved, from) {
            Some(identity) => exists|k: int|
                from <= k < available.len() && #[trigger] available[k] == identity
                    && same_ignoring_case(available[k], saved) && forall|j: int|
                    from <= j < k ==> !same_ignoring_case(#[trigger] available[j], saved),
            None => forall|j: int|
                from <= j < available.len() ==> !same_ignoring_case(#[trigger] available[j], saved),
        },
    decreases available.len() - from,
{
    if from < available.len() {
        if same_ignoring_case(available[from], saved) {
            assert(available[from] == available[from]);
        } else {
            lemma_spelled_as(available, saved, from + 1);
            match known_as(available, saved, from + 1) {
                Some(identity) => {
                    let k = choose|k: int|
                        from + 1 <= k < available.len() && #[trigger] available[k] == identity
                            && same_ignoring_case(available[k], saved) && forall|j: int|
                            from + 1 <= j < k ==> !same_ignoring_case(#[trigger] available[j], saved);
                    assert(available[k] == identity);
                },
                None => {},
            }
        }
    }
}

/// A saved agent that the catalog knows is restored as the catalog spells it first, and one
/// that it does not know is not restored.
pub proof fn law_known_agents_are_restored(saved: Seq<char>, available: Seq<Seq<char>>, k: int)
    requires
        0 <= k < available.len() ==> same_ignoring_case(available[k], saved),
        forall|j: int|
            0 <= j < k && j < available.len() ==> !same_ignoring_case(#[trigger] available[j], saved),
    ensures
        0 <= k < available.len() ==> resolved_all(seq![saved], available) == seq![available[k]],
        k >= available.len() ==> resolved_all(seq![saved], available) == Seq::<Seq<char>>::empty(),
{
    lemma_spelled_as(available, saved, 0);
    reveal_with_fuel(resolved, 2);
    assert(seq![saved][0] == saved);
    match known_as(available, saved, 0) {
        Some(identity) => {
            let found = choose|j: int|
                0 <= j < available.len() && #[trigger] available[j] == identity
                    && same_ignoring_case(available[j], saved) && forall|i: int|
                    0 <= i < j ==> !same_ignoring_case(#[trigger] available[i], saved);
            if 0 <= k < available.len() {
                assert(found == k);
            }
        },
        None => {},
    }
    assert(Seq::<Seq<char>>::empty().push(available[k]) =~= seq![available[k]]);
}

/// A roster is restored where there is anything to restore, all of it and nothing else.
pub proof fn law_whole_rosters_are_restored(identities: Seq<Seq<char>>)
    ensures
        restored(decided(identities)) == identities,
        decided(identities) is OpenStore <==> identities.len() == 0,
{
    assert(identities.len() == 0 ==> identities =~= Seq::<Seq<char>>::empty());
}

/// What is done with a roster: it is restored, unless it is empty.
pub open spec fn decided(identities: Seq<Seq<char>>) -> DecisionView {
    if identities.len() == 0 {
        DecisionView::OpenStore
    } else {
        DecisionView::Restore { identities }
    }
}

/// What is done with a roster.
pub fn decide(identities: Vec<String>) -> (decision: LaunchDecision)
    ensures
        decision@ == decided(strings(identities@)),
{
    if identities.len() == 0 {
        LaunchDecision::OpenStore
    } else {
        LaunchDecision::Restore { identities }
    }
}

/// Whether a launch without arguments restores the saved roster or opens the store.
///
/// It never falls back to preferred or detected agents: a missing or stale roster must
/// not become an unexpected session.
pub fn launch_decision(settings_json: &str, available_identities: &[String]) -> (decision:
    LaunchDecision)
    ensures
        decision@ == decided(
            resolved_all(
                roster_in(document(settings_json@)),
                strings(available_identities@),
            ),
        ),
{
    decide(resolve_saved_roster(settings_json, available_identities))
}

/// A saved place: an agent, and the model that it runs.
pub open spec fn slot_in(value: JsonView) -> Option<SlotView> {
    match text_in(field(value, "agent"@)) {
        Some(agent) => Some(SlotView { agent, model: text_in(field(value, "model"@)) }),
        None => None,
    }
}

/// The first saved places that name an agent.
pub open spec fn slots_in(items: Seq<JsonView>, n: int) -> Seq<SlotView>
    decreases n,
{
    if n <= 0 {
        Seq::empty()
    } else {
        let before = slots_in(items, n - 1);
        match slot_in(items[n - 1]) {
            Some(slot) => before.push(slot),
            None => before,
        }
    }
}

/// The saved places of a settings document: a list of agents with their models, or lines
/// of identities.
pub open spec fn saved_places(settings: Option<JsonView>) -> Seq<SlotView> {
    match settings {
        Some(value) => match list_in(nested(value, "launcher"@, "roster"@)) {
            Some(items) => slots_in(items, items.len() as int),
            None => plain_places(roster_in(settings)),
        },
        None => Seq::empty(),
    }
}

/// Places without a model.
pub open spec fn plain_places(identities: Seq<Seq<char>>) -> Seq<SlotView> {
    Seq::new(identities.len(), |i: int| SlotView { agent: identities[i], model: None })
}

fn read_slot(value: &Json) -> (slot: Option<RosterSlot>)
    ensures
        match slot {
            Some(found) => slot_in(value@) == Some(found@),
            None => slot_in(value@) is None,
        },
{
    match value.text_field("agent") {
        Some(agent) => {
            let model = match value.text_field("model") {
                Some(model) => Some(model.to_owned()),
                None => None,
            };
            Some(RosterSlot { agent: agent.to_owned(), model })
        },
        None => None,
    }
}

fn read_slots(items: &Vec<Json>) -> (slots: Vec<RosterSlot>)
    ensures
        item_contents(slots@) == slots_in(list_view(items@), items@.len() as int),
{
    let mut slots: Vec<RosterSlot> = Vec::new();
    let mut i: usize = 0;
    proof {
        lemma_list_view(items@);
        assert(item_contents(slots@) =~= Seq::empty());
    }
    while i < items.len()
        invariant
            i <= items.len(),
            list_view(items@) == Seq::new(items@.len(), |k: int| crate::json::json_view(items@[k])),
            item_contents(slots@) == slots_in(list_view(items@), i as int),
        decreases items.len() - i,
    {
        match read_slot(&items[i]) {
            Some(slot) => {
                slots.push(slot);
            },
            None => {},
        }
        i = i + 1;
    }
    slots
}

fn unmodelled(identities: &Vec<String>) -> (slots: Vec<RosterSlot>)
    ensures
        item_contents(slots@) == plain_places(strings(identities@)),
{
    let mut slots: Vec<RosterSlot> = Vec::new();
    let mut i: usize = 0;
    let ghost wanted = plain_places(strings(identities@));
    assert(item_contents(slots@) =~= wanted.take(0));
    while i < identities.len()
        invariant
            i <= identities.len(),
            wanted == plain_places(strings(identities@)),
            item_contents(slots@) == wanted.take(i as int),
        decreases identities.len() - i,
    {
        slots.push(RosterSlot { agent: identities[i].clone(), model: None });
        assert(item_contents(slots@) =~= wanted.take(i + 1));
        i = i + 1;
    }
    assert(wanted.take(i as int) =~= wanted);
    slots
}

/// The saved places of a settings document.
pub fn saved_slots(settings: &Option<Json>) -> (slots: Vec<RosterSlot>)
    ensures
        item_contents(slots@) == saved_places(
            match settings {
                Some(value) => Some(value@),
                None => None,
            },
        ),
{
    match settings {
        Some(value) => {
            match value.get("launcher") {
                Some(launcher) => match launcher.get("roster") {
                    Some(roster) => match roster.as_array() {
                        Some(items) => {
                            proof {
                                lemma_list_view(items@);
                            }
                            return read_slots(items);
                        },
                        None => {},
                    },
                    None => {},
                },
                None => {},
            }
            unmodelled(&saved_roster(settings))
        },
        None => {
            let none: Vec<RosterSlot> = Vec::new();
            assert(item_contents(none@) =~= Seq::empty());
            none
        },
    }
}

/// The saved places of the text of a settings document.
pub fn parse_saved_slots(settings_json: &str) -> (slots: Vec<RosterSlot>)
    ensures
        item_contents(slots@) == saved_places(document(settings_json@)),
{
    saved_slots(&parse_json(settings_json))
}

/// The first saved places whose agent the catalog knows, as it spells them.
pub open spec fn known_places(slots: Seq<SlotView>, available: Seq<Seq<char>>, n: int) -> Seq<
    SlotView,
>
    decreases n,
{
    if n <= 0 {
        Seq::empty()
    } else {
        let before = known_places(slots, available, n - 1);
        match known_as(available, slots[n - 1].agent, 0) {
            Some(agent) => before.push(SlotView { agent, model: slots[n - 1].model }),
            None => before,
        }
    }
}

/// Saved places whose agent the catalog knows, as it spells them.
pub fn resolve_slots(slots: &Vec<RosterSlot>, available_identities: &[String]) -> (known: Vec<
    RosterSlot,
>)
    ensures
        item_contents(known@) == known_places(
            item_contents(slots@),
            strings(available_identities@),
            slots@.len() as int,
        ),
{
    let mut known: Vec<RosterSlot> = Vec::new();
    let mut i: usize = 0;
    assert(item_contents(known@) =~= Seq::empty());
    while i < slots.len()
        invariant
            i <= slots.len(),
            item_contents(known@) == known_places(
                item_contents(slots@),
                strings(available_identities@),
                i as int,
            ),
        decreases slots.len() - i,
    {
        assert(item_contents(slots@)[i as int] == slots@[i as int]@);
        match known_identity(available_identities, slots[i].agent.as_str()) {
            Some(agent) => {
                known.push(RosterSlot { agent, model: copy_optional(&slots[i].model) });
            },
            None => {},
        }
        i = i + 1;
    }
    known
}

/// The saved places of a settings text whose agent the catalog knows.
pub fn resolve_saved_slots(settings_json: &str, available_identities: &[String]) -> (known: Vec<
    RosterSlot,
>)
    ensures
        ({
            let slots = saved_places(document(settings_json@));
            item_contents(known@) == known_places(
                slots,
                strings(available_identities@),
                slots.len() as int,
            )
        }),
{
    let slots = parse_saved_slots(settings_json);
    assert(item_contents(slots@).len() == slots@.len());
    resolve_slots(&slots, available_identities)
}

/// The places of two saved rosters in a row are those of the first and then those of the
/// second, and each agent keeps its model.
pub proof fn law_saved_places_keep_their_models(
    first: Seq<SlotView>,
    second: Seq<SlotView>,
    available: Seq<Seq<char>>,
)
    ensures
        known_places(first + second, available, (first + second).len() as int) == known_places(
            first,
            available,
            first.len() as int,
        ) + known_places(second, available, second.len() as int),
        forall|slot: SlotView, i: int|
            0 <= i < (#[trigger] known_places(seq![slot], available, 1)).len() ==> (
            #[trigger] known_places(seq![slot], available, 1)[i]).model == slot.model
                && same_ignoring_case(
                known_places(seq![slot], available, 1)[i].agent,
                slot.agent,
            ),
        forall|slot: SlotView|
            (#[trigger] known_places(seq![slot], available, 1)).len() == (if exists|k: int|
                0 <= k < available.len() && same_ignoring_case(#[trigger] available[k], slot.agent) {
                1int
            } else {
                0
            }),
{
    lemma_places_in_a_row(first, second, available, second.len() as int);
    assert forall|slot: SlotView| {
        let places = #[trigger] known_places(seq![slot], available, 1);
        &&& places.len() == (if exists|k: int|
            0 <= k < available.len() && same_ignoring_case(#[trigger] available[k], slot.agent) {
            1int
        } else {
            0
        })
        &&& places.len() == 1 ==> places[0].model == slot.model && same_ignoring_case(
            places[0].agent,
            slot.agent,
        )
    } by {
        lemma_spelled_as(available, slot.agent, 0);
        reveal_with_fuel(known_places, 2);
        assert(seq![slot][0] == slot);
    }
}

proof fn lemma_places_in_a_row(
    first: Seq<SlotView>,
    second: Seq<SlotView>,
    available: Seq<Seq<char>>,
    n: int,
)
    requires
        0 <= n <= second.len(),
    ensures
        known_places(first + second, available, first.len() + n) == known_places(
            first,
            available,
            first.len() as int,
        ) + known_places(second, available, n),
    decreases n,
{
    let all = first + second;
    if n == 0 {
        assert(all.take(first.len() as int) =~= first);
        lemma_same_places(first, all, available, first.len() as int);
        assert(known_places(first, available, first.len() as int) + known_places(
            second,
            available,
            0,
        ) =~= known_places(first, available, first.len() as int));
    } else {
        lemma_places_in_a_row(first, second, available, n - 1);
        assert(all[first.len() + n - 1] == second[n - 1]);
        assert(known_places(all, available, first.len() + n) =~= known_places(
            first,
            available,
            first.len() as int,
        ) + known_places(second, available, n));
    }
}

proof fn lemma_same_places(
    first: Seq<SlotView>,
    all: Seq<SlotView>,
    available: Seq<Seq<char>>,
    n: int,
)
    requires
        n <= first.len() <= all.len(),
        all.take(first.len() as int) == first,
    ensures
        known_places(all, available, n) == known_places(first, available, n),
    decreases n,
{
    if n > 0 {
        lemma_same_places(first, all, available, n - 1);
        assert(all.take(first.len() as int)[n - 1] == all[n - 1]);
    }
}

} // verus!
