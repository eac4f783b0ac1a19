//! What holds of every choice of agents: who is offered selected, which model each live agent
//! keeps, and what the keys of the agent store ask for.

use crate::catalog_rows::{
    choosable, directory_changed, earlier, live_identities, live_places, models_of, ordered_rows,
    preferred_places, rows_of, store_command, store_rows, DirectoryChange, StoreCommand,
};
use crate::editor::{Input, Key};
use crate::launch::{familiar_name, starts_familiar, DefinitionView, FamiliarView, SlotView};
use crate::path_index::{RequestView, UpdateView, MIN_PATH_QUERY_CHARS};
use crate::picker::{looking_for, rescanned, unquoted, updated, updated_all, PickerView};
use crate::roster::{record_of, RecordView};
use crate::store::{StoreKey, StoreView};
use crate::text::{same_ignoring_case, starts_with};
use vstd::prelude::*;

verus! {

// Models of live agents.

/// The identities of saved places.
pub open spec fn saved_names(saved: Seq<SlotView>) -> Seq<Seq<char>> {
    Seq::new(saved.len(), |i: int| saved[i].agent)
}

proof fn lemma_models_of(saved: Seq<SlotView>, identity: Seq<char>, n: int)
    requires
        0 <= n <= saved.len(),
    ensures
        models_of(saved, identity, n).len() == earlier(saved_names(saved), identity, n),
        earlier(saved_names(saved), identity, n) >= 0,
    decreases n,
{
    if n > 0 {
        lemma_models_of(saved, identity, n - 1);
    }
}

proof fn lemma_model_at(saved: Seq<SlotView>, identity: Seq<char>, j: int, n: int)
    requires
        0 <= j < n <= saved.len(),
        same_ignoring_case(saved[j].agent, identity),
    ensures
        0 <= earlier(saved_names(saved), identity, j) < models_of(saved, identity, n).len(),
        models_of(saved, identity, n)[earlier(saved_names(saved), identity, j)] == saved[j].model,
    decreases n,
{
    lemma_models_of(saved, identity, n);
    lemma_models_of(saved, identity, n - 1);
    if j < n - 1 {
        lemma_model_at(saved, identity, j, n - 1);
    }
}

/// A live agent keeps the model that was saved for it: the first agent of an identity that of
/// the first saved place of that identity, the second that of the second, and so on. An agent
/// that was not saved that often has no model of its own, and the order of the live agents
/// stays.
pub proof fn law_live_agents_keep_their_models(
    current: Seq<Seq<char>>,
    saved: Seq<SlotView>,
    i: int,
    j: int,
)
    requires
        0 <= i < current.len(),
        0 <= j < saved.len(),
    ensures
        live_places(current, saved).len() == current.len(),
        live_places(current, saved)[i].agent == current[i],
        same_ignoring_case(saved[j].agent, current[i]) && earlier(
            saved_names(saved),
            current[i],
            j,
        ) == earlier(current, current[i], i) ==> live_places(current, saved)[i].model
            == saved[j].model,
        earlier(saved_names(saved), current[i], saved.len() as int) <= earlier(
            current,
            current[i],
            i,
        ) ==> live_places(current, saved)[i].model is None,
{
    lemma_models_of(saved, current[i], saved.len() as int);
    if same_ignoring_case(saved[j].agent, current[i]) {
        lemma_model_at(saved, current[i], j, saved.len() as int);
    }
}

/// The live agents are known by their own identities, in the order of their slots.
pub proof fn law_live_identities_are_in_order(
    agents: Seq<(usize, RecordView)>,
    slots: Seq<usize>,
    n: int,
)
    requires
        0 <= n <= slots.len(),
        forall|i: int| 0 <= i < n ==> record_of(agents, #[trigger] slots[i]).identity is Some,
    ensures
        live_identities(agents, slots, n).len() == n,
        forall|i: int|
            0 <= i < n ==> Some(#[trigger] live_identities(agents, slots, n)[i]) == record_of(
                agents,
                slots[i],
            ).identity,
    decreases n,
{
    if n > 0 {
        law_live_identities_are_in_order(agents, slots, n - 1);
        assert(record_of(agents, slots[n - 1]).identity is Some);
        let before = live_identities(agents, slots, n - 1);
        assert(live_identities(agents, slots, n) == before.push(
            record_of(agents, slots[n - 1]).identity->0,
        ));
        assert forall|i: int| 0 <= i < n implies Some(
            #[trigger] live_identities(agents, slots, n)[i],
        ) == record_of(agents, slots[i]).identity by {
            if i < n - 1 {
                assert(live_identities(agents, slots, n)[i] == before[i]);
            }
        }
    }
}

// The agent store.

/// Where no roster was saved, an agent is offered selected exactly if it is active, was
/// detected and is preferred.
pub proof fn law_detected_agents_are_preferred(
    catalog: Seq<DefinitionView>,
    present: Seq<bool>,
    preferred: Seq<Seq<char>>,
    n: int,
    k: int,
)
    requires
        0 <= k < n <= catalog.len(),
    ensures
        ({
            let places = preferred_places(catalog, present, preferred, n);
            &&& catalog[k].active && k < present.len() && present[k] && preferred.contains(
                catalog[k].short_name,
            ) ==> places.contains(SlotView { agent: catalog[k].identity, model: None })
            &&& forall|i: int|
                0 <= i < places.len() ==> (#[trigger] places[i]).model is None && exists|c: int|
                    0 <= c < n && (#[trigger] catalog[c]).active && c < present.len() && present[c]
                        && preferred.contains(catalog[c].short_name) && places[i].agent
                        == catalog[c].identity
        }),
    decreases n,
{
    let before = preferred_places(catalog, present, preferred, n - 1);
    let places = preferred_places(catalog, present, preferred, n);
    let slot = SlotView { agent: catalog[n - 1].identity, model: None };
    if n > 1 {
        law_detected_agents_are_preferred(
            catalog,
            present,
            preferred,
            n - 1,
            if k < n - 1 {
                k
            } else {
                0
            },
        );
    }
    assert(catalog[n - 1] == catalog[n - 1]);
    assert forall|i: int| 0 <= i < places.len() implies (#[trigger] places[i]).model is None
        && exists|c: int|
        0 <= c < n && (#[trigger] catalog[c]).active && c < present.len() && present[c]
            && preferred.contains(catalog[c].short_name) && places[i].agent
            == catalog[c].identity by {
        if i < before.len() {
            assert(places[i] == before[i]);
        } else {
            assert(places[i] == slot);
        }
    }
    let wanted = SlotView { agent: catalog[k].identity, model: None };
    if k < n - 1 && before.contains(wanted) {
        let i = choose|i: int| 0 <= i < before.len() && before[i] == wanted;
        assert(places[i] == wanted);
    }
    if k == n - 1 && places.len() > before.len() {
        assert(places[places.len() - 1] == wanted);
    }
}

/// A saved roster is what the store offers selected, whatever else is preferred, and the
/// whole catalog is offered behind it, in the order of that roster.
pub proof fn law_a_saved_roster_is_offered_selected(
    catalog: Seq<DefinitionView>,
    present: Seq<bool>,
    named: Seq<Seq<char>>,
    saved: Seq<SlotView>,
)
    ensures
        ({
            let all = ordered_rows(rows_of(catalog, present, catalog.len() as int), saved);
            let rows = store_rows(catalog, present, named, saved);
            &&& rows.len() >= all.len()
            &&& rows.skip(rows.len() - all.len()) == all
            &&& saved.len() > 0 ==> rows == choosable(all, saved)
        }),
{
    let all = ordered_rows(rows_of(catalog, present, catalog.len() as int), saved);
    let rows = store_rows(catalog, present, named, saved);
    assert(rows.skip(rows.len() - all.len()) =~= all);
}

/// The keys of the store: an arrow moves the focus, and held it moves the row; the letters
/// that save and edit only do so when held; and the store is left by its keys alone.
pub proof fn law_keys_of_the_store(input: Input)
    ensures
        !input.alt ==> store_command(Input { key: Key::Up, ..input }) == StoreCommand::Key(
            StoreKey::Up,
        ) && store_command(Input { key: Key::Down, ..input }) == StoreCommand::Key(StoreKey::Down),
        input.alt ==> store_command(Input { key: Key::Up, ..input }) == StoreCommand::Key(
            StoreKey::MoveUp,
        ) && store_command(Input { key: Key::Down, ..input }) == StoreCommand::Key(
            StoreKey::MoveDown,
        ),
        store_command(input) == StoreCommand::Key(StoreKey::Save) <==> input.key == Key::Char('s')
            && input.ctrl,
        store_command(input) == StoreCommand::EditDirectory <==> input.key == Key::Char('d')
            && input.ctrl,
        store_command(input) == StoreCommand::Key(StoreKey::Cancel) <==> input.key == Key::Esc
            || input.key == Key::Char('q'),
        store_command(input) == StoreCommand::Key(StoreKey::Confirm) <==> input.key == Key::Enter,
        store_command(input) == StoreCommand::Key(StoreKey::Toggle) <==> input.key == Key::Char(
            ' ',
        ),
{
}

/// The workspace is the directory that was entered, and one that could not be entered leaves
/// the workspace where it is and says what was wrong. The rows of the store stay.
pub proof fn law_the_workspace_is_what_was_entered(
    store: StoreView,
    entered: String,
    path: String,
    current: String,
)
    ensures
        directory_changed(store, DirectoryChange::Entered(entered)).directory == entered@,
        directory_changed(
            store,
            DirectoryChange::NotADirectory { path, current },
        ).directory == current@,
        directory_changed(
            store,
            DirectoryChange::NotADirectory { path, current },
        ).status == "Not a directory: "@ + path@,
        directory_changed(
            store,
            DirectoryChange::Failed { reason: path, current },
        ).directory == current@,
        directory_changed(
            store,
            DirectoryChange::Failed { reason: path, current },
        ).status == "Directory failed: "@ + path@,
        directory_changed(store, DirectoryChange::Entered(entered)).agents == store.agents,
{
}

// Names of agents.

/// A command goes by the name of the first familiar agent that it starts, and by its program
/// where it starts none.
pub proof fn law_familiar_agents_go_by_their_names(
    familiar: Seq<FamiliarView>,
    executable: Seq<char>,
    arguments: Seq<Seq<char>>,
    k: int,
)
    requires
        0 <= k <= familiar.len(),
        forall|i: int|
            0 <= i < k ==> !starts_familiar(#[trigger] familiar[i], executable, arguments),
        k < familiar.len() ==> starts_familiar(familiar[k], executable, arguments),
    ensures
        k < familiar.len() ==> familiar_name(familiar, executable, arguments) == familiar[k].name,
        k == familiar.len() ==> familiar_name(familiar, executable, arguments) == executable,
    decreases familiar.len(),
{
    if k > 0 {
        assert(!starts_familiar(familiar[0], executable, arguments));
        let rest = familiar.drop_first();
        assert forall|i: int| 0 <= i < k - 1 implies !starts_familiar(
            #[trigger] rest[i],
            executable,
            arguments,
        ) by {
            assert(rest[i] == familiar[i + 1]);
        }
        law_familiar_agents_go_by_their_names(rest, executable, arguments, k - 1);
    }
}

// The path picker.

/// What is looked for is the word before the cursor, with or without the quote behind its
/// mark; a word without the mark, or too short a one, is not looked for. The same word is not
/// asked for again.
pub proof fn law_the_word_before_the_cursor_is_looked_for(picker: PickerView, word: Seq<char>)
    requires
        word.len() >= MIN_PATH_QUERY_CHARS,
        word.len() == 0 || word[0] != '"',
    ensures
        looking_for(picker, seq!['@'] + word).query == seq!['@'] + word,
        looking_for(picker, seq!['@', '"'] + word).query == seq!['@'] + word,
        picker.index is Some && picker.query != seq!['@'] + word && picker.index->0.query != seq!['@']
            + word ==> looking_for(picker, seq!['@'] + word).requests == picker.requests.push(
            RequestView::Query {
                generation: picker.index->0.generation,
                query: seq!['@'] + word,
            },
        ),
        looking_for(PickerView { query: seq!['@'] + word, ..picker }, seq!['@'] + word)
            == (PickerView { query: seq!['@'] + word, ..picker }),
        word.len() > 0 && word[0] != '@' ==> looking_for(picker, word).query.len() == 0
            && looking_for(picker, word).matches.len() == 0,
        looking_for(picker, Seq::empty()).query.len() == 0,
{
    reveal_strlit("@\"");
    reveal_strlit("@");
    let plain = seq!['@'] + word;
    let quoted = seq!['@', '"'] + word;
    assert(plain[0] == '@');
    assert(!starts_with(plain, "@\""@)) by {
        if starts_with(plain, "@\""@) {
            assert(plain.subrange(0, 2)[1] == plain[1]);
            assert(plain[1] == word[0]);
        }
    }
    if word.len() > 0 && word[0] != '@' {
        assert(!starts_with(word, "@\""@)) by {
            if starts_with(word, "@\""@) {
                assert(word.subrange(0, 2)[0] == word[0]);
            }
        }
    }
    assert(quoted.take(2) =~= "@\""@);
    assert(starts_with(quoted, "@\""@));
    assert(quoted.skip(2) =~= word);
    assert(unquoted(quoted) =~= plain);
}

/// When the workspace changed it is scanned again under a new number, and what is looked for
/// is asked for again under that number; what was found is shown meanwhile.
pub proof fn law_a_changed_workspace_is_scanned_again(picker: PickerView)
    requires
        picker.index is Some,
    ensures
        ({
            let after = rescanned(picker);
            let generation = after.index->0.generation;
            &&& after.index is Some
            &&& generation != picker.index->0.generation
            &&& after.index->0.query == picker.index->0.query
            &&& after.matches == picker.matches
            &&& after.requests.contains(RequestView::Rescan { generation })
            &&& picker.index->0.query.len() > 0 ==> after.requests.last() == (RequestView::Query {
                generation,
                query: picker.index->0.query,
            })
        }),
{
    let after = rescanned(picker);
    let generation = after.index->0.generation;
    assert(after.requests[picker.requests.len() as int] == RequestView::Rescan { generation });
}

/// Updates are taken in their order: those of two deliveries in a row are those of the first
/// and then those of the second.
pub proof fn law_updates_are_taken_in_order(
    picker: PickerView,
    generation: Option<u64>,
    first: Seq<UpdateView>,
    second: Seq<UpdateView>,
)
    ensures
        updated_all(picker, generation, first + second) == updated_all(
            updated_all(picker, generation, first),
            generation,
            second,
        ),
    decreases first.len(),
{
    if first.len() == 0 {
        assert(first + second =~= second);
    } else {
        assert((first + second).drop_first() =~= first.drop_first() + second);
        law_updates_are_taken_in_order(
            updated(picker, generation, first[0]),
            generation,
            first.drop_first(),
            second,
        );
    }
}

} // verus!
