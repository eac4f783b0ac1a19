//! What holds of every recorded conversation: what is read back from it is what was written,
//! and what was said is shown again as it was said.

use crate::events::{AgentEventView, HistoryView};
use crate::history::{display_event, merged, state_after, ArchiveState, SavedEventView};
use crate::journal::{
    changes_recorded, ends_turn, event_recorded, first_other, person_recorded, summary_from,
    text_values, texts_among, JournalStepView, JournalView, SummaryStepView,
};
use crate::json::{field, law_removed_fields_are_gone, law_set_fields_are_found, JsonView};
use crate::project::title_of;
use vstd::prelude::*;

verus! {

// Metadata.

/// Merging sets every field of the update to its value, the last where a field is given
/// twice, and leaves every other field as it is.
pub proof fn law_merged_fields_have_their_new_values(
    fields: Seq<(Seq<char>, JsonView)>,
    more: Seq<(Seq<char>, JsonView)>,
    key: Seq<char>,
    i: int,
)
    requires
        0 <= i <= more.len(),
        i < more.len() ==> more[i].0 == key,
        forall|j: int| i < j < more.len() ==> (#[trigger] more[j]).0 != key,
        i == more.len() ==> forall|j: int| 0 <= j < more.len() ==> (#[trigger] more[j]).0 != key,
    ensures
        field(JsonView::Object(merged(fields, more, more.len() as int)), key) == (if i
            < more.len() {
            Some(more[i].1)
        } else {
            field(JsonView::Object(fields), key)
        }),
{
    lemma_merged(fields, more, key, i, more.len() as int);
}

proof fn lemma_merged(
    fields: Seq<(Seq<char>, JsonView)>,
    more: Seq<(Seq<char>, JsonView)>,
    key: Seq<char>,
    i: int,
    n: int,
)
    requires
        0 <= n <= more.len(),
        0 <= i <= more.len(),
        i < more.len() ==> more[i].0 == key,
        forall|j: int| i < j < more.len() ==> (#[trigger] more[j]).0 != key,
        i == more.len() ==> forall|j: int| 0 <= j < more.len() ==> (#[trigger] more[j]).0 != key,
    ensures
        i < n ==> field(JsonView::Object(merged(fields, more, n)), key) == Some(more[i].1),
        i == more.len() ==> field(JsonView::Object(merged(fields, more, n)), key) == field(
            JsonView::Object(fields),
            key,
        ),
    decreases n,
{
    if n > 0 {
        lemma_merged(fields, more, key, i, n - 1);
        law_set_fields_are_found(
            merged(fields, more, n - 1),
            more[n - 1].0,
            more[n - 1].1,
            key,
        );
        if i != n - 1 {
            assert(i < n - 1 || i == more.len() ==> more[n - 1].0 != key);
        }
    }
}

// Tasks.

/// A new task begins with what the person said and without the summary and the changed
/// paths of the task before. The first one gives the conversation its title.
pub proof fn law_new_tasks_begin_afresh(journal: JournalView, text: Seq<char>, direct: bool)
    ensures
        ({
            let (after, steps) = person_recorded(journal, text, direct);
            &&& field(JsonView::Object(after.metadata), "completion_summary"@) is None
            &&& field(JsonView::Object(after.metadata), "working_tree_paths"@) is None
            &&& after.titled
            &&& steps.len() > 0
            &&& steps[0] == (JournalStepView::AppendHuman { text, direct })
            &&& !journal.titled <==> steps.contains(JournalStepView::Title(title_of(text)))
            &&& steps.contains(JournalStepView::State(ArchiveState::Active))
        }),
{
    let (after, steps) = person_recorded(journal, text, direct);
    let once = crate::json::without_field(journal.metadata, "working_tree_paths"@);
    law_removed_fields_are_gone(
        journal.metadata,
        "working_tree_paths"@,
        "working_tree_paths"@,
    );
    law_removed_fields_are_gone(once, "completion_summary"@, "working_tree_paths"@);
    reveal_strlit("working_tree_paths");
    reveal_strlit("completion_summary");
    assert("working_tree_paths"@[0] == 'w' && "completion_summary"@[0] == 'c');
    assert(steps[steps.len() - 2] == JournalStepView::State(ArchiveState::Active));
    if !journal.titled {
        assert(steps[3] == JournalStepView::Title(title_of(text)));
    }
}

/// The end of a turn is recorded with its summary and with how it ended: completed where the
/// agent completed it, and failed otherwise. Nothing else ends a turn.
pub proof fn law_turns_are_recorded_as_they_ended(
    journal: JournalView,
    event: AgentEventView,
    summary: Seq<char>,
    answer: Option<Seq<char>>,
)
    ensures
        ({
            let (after, steps) = event_recorded(journal, event, summary, answer);
            let ended = event is TurnComplete || event is Failed || event is UsageLimitReached;
            &&& steps.len() > 0
            &&& steps[0] is AppendEvent
            &&& ended ==> {
                &&& field(JsonView::Object(after.metadata), "completion_summary"@) == Some(
                    JsonView::Text(summary),
                )
                &&& steps.contains(
                    JournalStepView::SetText { key: "completion_summary"@, text: summary },
                )
                &&& steps.contains(
                    JournalStepView::State(
                        if event is TurnComplete {
                            ArchiveState::Completed
                        } else {
                            ArchiveState::Failed
                        },
                    ),
                )
            }
            &&& !ended ==> after == journal
        }),
{
    let (after, steps) = event_recorded(journal, event, summary, answer);
    law_set_fields_are_found(
        journal.metadata,
        "completion_summary"@,
        JsonView::Text(summary),
        "completion_summary"@,
    );
    if ends_turn(event) {
        assert(steps[1] == (JournalStepView::SetText {
            key: "completion_summary"@,
            text: summary,
        }));
        assert(steps[2] == JournalStepView::State(state_after(event)->0));
    }
}

proof fn lemma_texts(paths: Seq<Seq<char>>, n: int)
    requires
        0 <= n <= paths.len(),
    ensures
        texts_among(text_values(paths), n) == paths.take(n),
    decreases n,
{
    if n > 0 {
        lemma_texts(paths, n - 1);
        assert(paths.take(n) =~= paths.take(n - 1).push(paths[n - 1]));
    } else {
        assert(paths.take(0) =~= Seq::<Seq<char>>::empty());
    }
}

/// The changed paths that were recorded are read back, all of them and in their order, when
/// the task is summed up; and every saved event is looked at before them.
pub proof fn law_recorded_changes_are_read_back(
    journal: JournalView,
    paths: Seq<Seq<char>>,
    summary: Seq<char>,
    events: Seq<SavedEventView>,
)
    ensures
        ({
            let metadata = JsonView::Object(changes_recorded(journal, paths, summary).0.metadata);
            let steps = summary_from(metadata, events);
            &&& steps.len() == events.len() + 1
            &&& steps.last() == SummaryStepView::Changed(paths)
            &&& forall|i: int|
                0 <= i < events.len() ==> (#[trigger] steps[i] == match events[i] {
                    SavedEventView::Human { text, direct } => SummaryStepView::Begin(text),
                    SavedEventView::Agent(event) => SummaryStepView::Observe(i as usize),
                })
        }),
{
    law_set_fields_are_found(
        journal.metadata,
        "working_tree_paths"@,
        JsonView::List(text_values(paths)),
        "working_tree_paths"@,
    );
    lemma_texts(paths, paths.len() as int);
    assert(paths.take(paths.len() as int) =~= paths);
}

/// The latest other conversation is the first of the list that is not the present one.
pub proof fn law_the_latest_other_conversation_is_found(
    ids: Seq<Seq<char>>,
    exclude: Option<Seq<char>>,
)
    ensures
        match first_other(ids, exclude) {
            Some(i) => 0 <= i < ids.len() && Some(ids[i]) != exclude && forall|j: int|
                0 <= j < i ==> Some(#[trigger] ids[j]) == exclude,
            None => forall|j: int| 0 <= j < ids.len() ==> Some(#[trigger] ids[j]) == exclude,
        },
    decreases ids.len(),
{
    if ids.len() > 0 && Some(ids[0]) == exclude {
        let rest = ids.drop_first();
        law_the_latest_other_conversation_is_found(rest, exclude);
        match first_other(rest, exclude) {
            Some(i) => {
                assert forall|j: int| 0 <= j < i + 1 implies Some(#[trigger] ids[j]) == exclude by {
                    if j > 0 {
                        assert(rest[j - 1] == ids[j]);
                    }
                }
            },
            None => {
                assert forall|j: int| 0 <= j < ids.len() implies Some(#[trigger] ids[j])
                    == exclude by {
                    if j > 0 {
                        assert(rest[j - 1] == ids[j]);
                    }
                }
            },
        }
    }
}

// Showing again.

/// What was said and done is shown again as history, of the same agent and word for word.
/// Requests, questions and turns of the past are not.
pub proof fn law_the_past_is_shown_as_it_was(slot: usize, text: Seq<char>, event: AgentEventView)
    ensures
        display_event(AgentEventView::Text { slot, text }) == Some(
            AgentEventView::History { slot, content: HistoryView::Text(text) },
        ),
        display_event(AgentEventView::UserText { slot, text }) == Some(
            AgentEventView::History { slot, content: HistoryView::UserText(text) },
        ),
        display_event(AgentEventView::Thought { slot, text }) == Some(
            AgentEventView::History { slot, content: HistoryView::Thought(text) },
        ),
        event matches AgentEventView::Tool { slot: by, update } ==> display_event(event) == Some(
            AgentEventView::History { slot: by, content: HistoryView::Tool(update) },
        ),
        event is Permission || event is TurnStarted || event is RosterUpdated || event
            is BatchComplete ==> display_event(event) is None,
        display_event(event) matches Some(shown) ==> shown is History || shown is Ready,
{
}

} // verus!
