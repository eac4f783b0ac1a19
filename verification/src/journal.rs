//! The journal of a conversation: what is recorded, and the list of what was.

use crate::events::{AgentEvent, AgentEventView};
use crate::history::{
    archive_state, merge_metadata, merged, state_after, ArchiveState, SavedConversation, SavedEvent,
    SavedEventView,
};
use crate::json::{
    field, fields_view, json_view, lemma_fields_view, lemma_list_view, list_view, remove_field,
    set_field, with_field, without_field, Json, JsonView,
};
use crate::order::{item_contents, lemma_item_contents_push};
use crate::project::{entries, parse_changed_paths, paths_from, task_title, title_of};
use crate::resume::{agents_or_none, metadata_roster, names_in};
use crate::text::{append_text, lemma_strings_push, same, strings, to_chars, to_text};
use vstd::prelude::*;

verus! {

broadcast use lemma_item_contents_push;

/// What is done to the record of a conversation.
#[derive(Clone, Debug, Eq, PartialEq)]
pub enum JournalStep {
    /// Add what the person said.
    AppendHuman { text: String, direct: bool },
    /// Add the event that was handed over.
    AppendEvent,
    Title(String),
    State(ArchiveState),
    Preview(String),
    Roster(Vec<String>),
    /// Write all that is known of the session.
    Metadata,
    /// Remove a field of what is written of the session.
    RemoveField(String),
    /// Set a field of what is written of the session.
    SetText { key: String, text: String },
    SetTexts { key: String, texts: Vec<String> },
    /// Make sure that everything is on disk.
    Checkpoint,
}

pub enum JournalStepView {
    AppendHuman { text: Seq<char>, direct: bool },
    AppendEvent,
    Title(Seq<char>),
    State(ArchiveState),
    Preview(Seq<char>),
    Roster(Seq<Seq<char>>),
    Metadata,
    RemoveField(Seq<char>),
    SetText { key: Seq<char>, text: Seq<char> },
    SetTexts { key: Seq<char>, texts: Seq<Seq<char>> },
    Checkpoint,
}

impl View for JournalStep {
    type V = JournalStepView;

    open spec fn view(&self) -> JournalStepView {
        match self {
            JournalStep::AppendHuman { text, direct } => JournalStepView::AppendHuman {
                text: text@,
                direct: *direct,
            },
            JournalStep::AppendEvent => JournalStepView::AppendEvent,
            JournalStep::Title(text) => JournalStepView::Title(text@),
            JournalStep::State(state) => JournalStepView::State(*state),
            JournalStep::Preview(text) => JournalStepView::Preview(text@),
            JournalStep::Roster(names) => JournalStepView::Roster(strings(names@)),
            JournalStep::Metadata => JournalStepView::Metadata,
            JournalStep::RemoveField(key) => JournalStepView::RemoveField(key@),
            JournalStep::SetText { key, text } => JournalStepView::SetText {
                key: key@,
                text: text@,
            },
            JournalStep::SetTexts { key, texts } => JournalStepView::SetTexts {
                key: key@,
                texts: strings(texts@),
            },
            JournalStep::Checkpoint => JournalStepView::Checkpoint,
        }
    }
}

/// What is known of the conversation that is recorded.
#[derive(Debug)]
pub struct Journal {
    metadata: Vec<(String, Json)>,
    titled: bool,
}

#[verifier::ext_equal]
pub struct JournalView {
    pub metadata: Seq<(Seq<char>, JsonView)>,
    pub titled: bool,
}

impl View for Journal {
    type V = JournalView;

    closed spec fn view(&self) -> JournalView {
        JournalView { metadata: fields_view(self.metadata@), titled: self.titled }
    }
}

/// What is done when the person says something. A new task has no summary and no changed
/// paths yet, and the first one gives the conversation its title.
pub open spec fn person_recorded(journal: JournalView, text: Seq<char>, direct: bool) -> (
    JournalView,
    Seq<JournalStepView>,
) {
    let begun = seq![
        JournalStepView::AppendHuman { text, direct },
        JournalStepView::RemoveField("working_tree_paths"@),
        JournalStepView::RemoveField("completion_summary"@),
    ];
    let named = if journal.titled {
        begun
    } else {
        begun.push(JournalStepView::Title(title_of(text)))
    };
    (
        JournalView {
            metadata: without_field(
                without_field(journal.metadata, "working_tree_paths"@),
                "completion_summary"@,
            ),
            titled: true,
        },
        named.push(JournalStepView::State(ArchiveState::Active)).push(JournalStepView::Checkpoint),
    )
}

/// Whether an event ends a turn.
pub open spec fn ends_turn(event: AgentEventView) -> bool {
    event is TurnComplete || event is Failed || event is UsageLimitReached
}

/// What is done when an agent reports an event. The end of a turn is recorded with the
/// summary of the task and the beginning of the last answer.
pub open spec fn event_recorded(
    journal: JournalView,
    event: AgentEventView,
    summary: Seq<char>,
    answer: Option<Seq<char>>,
) -> (JournalView, Seq<JournalStepView>) {
    let appended = seq![JournalStepView::AppendEvent];
    if ends_turn(event) {
        let preview = match answer {
            Some(text) => title_of(text),
            None => Seq::empty(),
        };
        let ended = appended.push(
            JournalStepView::SetText { key: "completion_summary"@, text: summary },
        ).push(JournalStepView::State(state_after(event)->0));
        let shown = if preview.len() > 0 {
            ended.push(JournalStepView::Preview(preview))
        } else {
            ended
        };
        (
            JournalView {
                metadata: with_field(
                    journal.metadata,
                    "completion_summary"@,
                    JsonView::Text(summary),
                ),
                ..journal
            },
            shown.push(JournalStepView::Checkpoint),
        )
    } else if event is TurnStarted {
        (journal, appended.push(JournalStepView::State(ArchiveState::Active)))
    } else {
        (journal, appended)
    }
}

/// What is done when the agents report how their sessions can be resumed.
pub open spec fn sessions_recorded(journal: JournalView, update: JsonView) -> (
    JournalView,
    Seq<JournalStepView>,
) {
    let appended = seq![JournalStepView::AppendEvent];
    match update {
        JsonView::Object(more) => {
            let metadata = merged(journal.metadata, more, more.len() as int);
            let agents = agents_or_none(JsonView::Object(metadata));
            (
                JournalView { metadata, ..journal },
                appended.push(JournalStepView::Metadata).push(
                    JournalStepView::Roster(names_in(agents, agents.len() as int)),
                ).push(JournalStepView::Checkpoint),
            )
        },
        _ => (journal, appended),
    }
}

/// Texts as JSON values.
pub open spec fn text_values(texts: Seq<Seq<char>>) -> Seq<JsonView> {
    Seq::new(texts.len(), |i: int| JsonView::Text(texts[i]))
}

/// What is done when the changed paths of the workspace are known.
pub open spec fn changes_recorded(
    journal: JournalView,
    paths: Seq<Seq<char>>,
    summary: Seq<char>,
) -> (JournalView, Seq<JournalStepView>) {
    (
        JournalView {
            metadata: with_field(
                journal.metadata,
                "working_tree_paths"@,
                JsonView::List(text_values(paths)),
            ),
            ..journal
        },
        seq![
            JournalStepView::SetTexts { key: "working_tree_paths"@, texts: paths },
            JournalStepView::SetText { key: "completion_summary"@, text: summary },
            JournalStepView::Checkpoint,
        ],
    )
}

/// A conversation keeps the title that its first task gave it.
pub proof fn law_conversations_are_titled_once(
    journal: JournalView,
    first: Seq<char>,
    to_one: bool,
    second: Seq<char>,
    again_to_one: bool,
)
    ensures
        ({
            let begun = person_recorded(journal, first, to_one).0;
            let steps = person_recorded(begun, second, again_to_one).1;
            forall|i: int| 0 <= i < steps.len() ==> !((#[trigger] steps[i]) is Title)
        }),
{
}

/// What the person said, and each event, is added to the record first. A task and the end
/// of a turn are made sure to be on disk as the last step, and the end of a turn is
/// recorded with its state.
pub proof fn law_tasks_and_turns_are_on_disk(
    journal: JournalView,
    text: Seq<char>,
    direct: bool,
    event: AgentEventView,
    summary: Seq<char>,
    answer: Option<Seq<char>>,
)
    ensures
        person_recorded(journal, text, direct).1.last() is Checkpoint,
        person_recorded(journal, text, direct).1[0] == (JournalStepView::AppendHuman {
            text,
            direct,
        }),
        event_recorded(journal, event, summary, answer).1[0] is AppendEvent,
        ends_turn(event) ==> {
            let steps = event_recorded(journal, event, summary, answer).1;
            &&& steps.last() is Checkpoint
            &&& steps.contains(JournalStepView::State(state_after(event)->0))
        },
{
    if ends_turn(event) {
        let steps = event_recorded(journal, event, summary, answer).1;
        assert(steps[2] == JournalStepView::State(state_after(event)->0));
    }
}

fn text_list(texts: &Vec<String>) -> (list: Vec<Json>)
    ensures
        list_view(list@) == text_values(strings(texts@)),
{
    let mut list: Vec<Json> = Vec::new();
    let mut i: usize = 0;
    while i < texts.len()
        invariant
            i <= texts.len(),
            list@.len() == i,
            forall|k: int| 0 <= k < i ==> json_view(#[trigger] list@[k]) == JsonView::Text(
                texts@[k]@,
            ),
        decreases texts.len() - i,
    {
        list.push(Json::Text(texts[i].clone()));
        i = i + 1;
    }
    proof {
        lemma_list_view(list@);
    }
    assert(list_view(list@) =~= text_values(strings(texts@)));
    list
}

fn one_step(step: JournalStep) -> (steps: Vec<JournalStep>)
    ensures
        item_contents(steps@) == seq![step@],
{
    let mut steps: Vec<JournalStep> = Vec::new();
    assert(item_contents(steps@) =~= Seq::empty());
    steps.push(step);
    assert(item_contents(steps@) =~= seq![step@]);
    steps
}

impl Journal {
    /// The journal of a new conversation in a workspace.
    pub fn new(cwd: &str) -> (journal: Self)
        ensures
            journal@ == (JournalView {
                metadata: seq![("cwd"@, JsonView::Text(cwd@))],
                titled: false,
            }),
    {
        let mut metadata: Vec<(String, Json)> = Vec::new();
        metadata.push(("cwd".to_owned(), Json::Text(cwd.to_owned())));
        proof {
            lemma_fields_view(metadata@);
        }
        assert(fields_view(metadata@) =~= seq![("cwd"@, JsonView::Text(cwd@))]);
        Journal { metadata, titled: false }
    }

    /// The journal of a conversation that was saved. It has its title already.
    pub fn resumed(metadata: Vec<(String, Json)>) -> (journal: Self)
        ensures
            journal@ == (JournalView { metadata: fields_view(metadata@), titled: true }),
    {
        Journal { metadata, titled: true }
    }

    /// What is known of the session.
    pub fn metadata(&self) -> (fields: &Vec<(String, Json)>)
        ensures
            fields_view(fields@) == self@.metadata,
    {
        &self.metadata
    }

    /// Records what the person said.
    pub fn human(&mut self, text: &str, direct: bool) -> (steps: Vec<JournalStep>)
        ensures
            (final(self)@, item_contents(steps@)) == person_recorded(old(self)@, text@, direct),
    {
        remove_field(&mut self.metadata, "working_tree_paths");
        remove_field(&mut self.metadata, "completion_summary");
        let mut steps = one_step(JournalStep::AppendHuman { text: text.to_owned(), direct });
        steps.push(JournalStep::RemoveField("working_tree_paths".to_owned()));
        steps.push(JournalStep::RemoveField("completion_summary".to_owned()));
        if !self.titled {
            steps.push(JournalStep::Title(task_title(text)));
            self.titled = true;
        }
        steps.push(JournalStep::State(ArchiveState::Active));
        steps.push(JournalStep::Checkpoint);
        steps
    }

    /// Records an event of an agent. `summary` is that of the task, and `answer` what was
    /// answered last.
    pub fn event(&mut self, event: &AgentEvent, summary: &str, answer: Option<&str>) -> (steps: Vec<
        JournalStep,
    >)
        ensures
            (final(self)@, item_contents(steps@)) == event_recorded(
                old(self)@,
                event@,
                summary@,
                match answer {
                    Some(text) => Some(text@),
                    None => None,
                },
            ),
    {
        let mut steps = one_step(JournalStep::AppendEvent);
        match archive_state(event) {
            Some(ArchiveState::Active) => steps.push(JournalStep::State(ArchiveState::Active)),
            Some(state) => {
                set_field(
                    &mut self.metadata,
                    "completion_summary",
                    Json::Text(summary.to_owned()),
                );
                steps.push(
                    JournalStep::SetText {
                        key: "completion_summary".to_owned(),
                        text: summary.to_owned(),
                    },
                );
                steps.push(JournalStep::State(state));
                match answer {
                    Some(text) => {
                        let preview = task_title(text);
                        if preview.as_str().unicode_len() > 0 {
                            steps.push(JournalStep::Preview(preview));
                        }
                    },
                    None => {},
                }
                steps.push(JournalStep::Checkpoint);
            },
            None => {},
        }
        steps
    }

    /// Records how the sessions of the agents can be resumed.
    pub fn sessions(&mut self, update: Json) -> (steps: Vec<JournalStep>)
        ensures
            (final(self)@, item_contents(steps@)) == sessions_recorded(old(self)@, update@),
    {
        let mut steps = one_step(JournalStep::AppendEvent);
        let whole = match &update {
            Json::Object(_) => true,
            _ => false,
        };
        if whole {
            merge_metadata(&mut self.metadata, update);
            let names = self.roster();
            steps.push(JournalStep::Metadata);
            steps.push(JournalStep::Roster(names));
            steps.push(JournalStep::Checkpoint);
        }
        steps
    }

    fn roster(&mut self) -> (names: Vec<String>)
        ensures
            final(self)@ == old(self)@,
            strings(names@) == ({
                let agents = agents_or_none(JsonView::Object(old(self)@.metadata));
                names_in(agents, agents.len() as int)
            }),
    {
        let mut fields: Vec<(String, Json)> = Vec::new();
        std::mem::swap(&mut fields, &mut self.metadata);
        let whole = Json::Object(fields);
        let names = metadata_roster(&whole);
        match whole {
            Json::Object(back) => {
                self.metadata = back;
            },
            _ => {},
        }
        names
    }

    /// Records the paths that changed in the workspace.
    pub fn changes(&mut self, paths: &Vec<String>, summary: &str) -> (steps: Vec<JournalStep>)
        ensures
            (final(self)@, item_contents(steps@)) == changes_recorded(
                old(self)@,
                strings(paths@),
                summary@,
            ),
    {
        set_field(&mut self.metadata, "working_tree_paths", Json::List(text_list(paths)));
        let mut steps = one_step(
            JournalStep::SetTexts {
                key: "working_tree_paths".to_owned(),
                texts: crate::events::copy_strings(paths),
            },
        );
        steps.push(
            JournalStep::SetText {
                key: "completion_summary".to_owned(),
                text: summary.to_owned(),
            },
        );
        steps.push(JournalStep::Checkpoint);
        assert(item_contents(steps@) =~= changes_recorded(
            old(self)@,
            strings(paths@),
            summary@,
        ).1);
        steps
    }
}

/// The paths that changed, from what the version control said.
pub fn working_tree(succeeded: bool, output: &Vec<u8>) -> (paths: Result<Vec<String>, String>)
    ensures
        match paths {
            Ok(list) => succeeded && strings(list@) == paths_from(entries(output@), 0),
            Err(reason) => !succeeded && reason@
                == "working-tree evidence unavailable (not a Git repository)"@,
        },
{
    if succeeded {
        Ok(parse_changed_paths(output))
    } else {
        Err("working-tree evidence unavailable (not a Git repository)".to_owned())
    }
}

/// What the summary of a saved conversation is made from, in order.
#[derive(Clone, Debug, Eq, PartialEq)]
pub enum SummaryStep {
    /// A task of the person begins.
    Begin(String),
    /// An agent reported the event in this place.
    Observe(usize),
    /// These paths changed.
    Changed(Vec<String>),
}

pub enum SummaryStepView {
    Begin(Seq<char>),
    Observe(usize),
    Changed(Seq<Seq<char>>),
}

impl View for SummaryStep {
    type V = SummaryStepView;

    open spec fn view(&self) -> SummaryStepView {
        match self {
            SummaryStep::Begin(text) => SummaryStepView::Begin(text@),
            SummaryStep::Observe(place) => SummaryStepView::Observe(*place),
            SummaryStep::Changed(paths) => SummaryStepView::Changed(strings(paths@)),
        }
    }
}

/// One step for each saved event.
pub open spec fn steps_for(events: Seq<SavedEventView>) -> Seq<SummaryStepView> {
    Seq::new(
        events.len(),
        |i: int|
            match events[i] {
                SavedEventView::Human { text, direct } => SummaryStepView::Begin(text),
                SavedEventView::Agent(event) => SummaryStepView::Observe(i as usize),
            },
    )
}

/// The texts among the first values of a list.
pub open spec fn texts_among(items: Seq<JsonView>, n: int) -> Seq<Seq<char>>
    decreases n,
{
    if n <= 0 {
        Seq::empty()
    } else {
        match items[n - 1] {
            JsonView::Text(text) => texts_among(items, n - 1).push(text),
            _ => texts_among(items, n - 1),
        }
    }
}

/// The steps of a saved conversation: its events, and the paths that were recorded as
/// changed.
pub open spec fn summary_from(metadata: JsonView, events: Seq<SavedEventView>) -> Seq<
    SummaryStepView,
> {
    match field(metadata, "working_tree_paths"@) {
        Some(JsonView::List(items)) => steps_for(events).push(
            SummaryStepView::Changed(texts_among(items, items.len() as int)),
        ),
        _ => steps_for(events),
    }
}

fn texts_of(items: &Vec<Json>) -> (texts: Vec<String>)
    ensures
        strings(texts@) == texts_among(list_view(items@), items@.len() as int),
{
    broadcast use lemma_strings_push;

    let mut texts: Vec<String> = Vec::new();
    let mut i: usize = 0;
    proof {
        lemma_list_view(items@);
    }
    assert(strings(texts@) =~= Seq::<Seq<char>>::empty());
    while i < items.len()
        invariant
            i <= items@.len(),
            list_view(items@) == Seq::new(items@.len(), |k: int| json_view(items@[k])),
            strings(texts@) == texts_among(list_view(items@), i as int),
        decreases items@.len() - i,
    {
        assert(list_view(items@)[i as int] == items@[i as int]@);
        match items[i].as_str() {
            Some(text) => texts.push(text.to_owned()),
            None => {},
        }
        i = i + 1;
    }
    texts
}

/// What the summary of a saved conversation is made from.
pub fn summary_for(saved: &SavedConversation) -> (steps: Vec<SummaryStep>)
    ensures
        item_contents(steps@) == summary_from(saved.metadata@, item_contents(saved.events@)),
{
    let ghost events = item_contents(saved.events@);
    let mut steps: Vec<SummaryStep> = Vec::new();
    let mut i: usize = 0;
    assert(item_contents(steps@) =~= steps_for(events).take(0));
    while i < saved.events.len()
        invariant
            i <= saved.events@.len(),
            events == item_contents(saved.events@),
            item_contents(steps@) == steps_for(events).take(i as int),
        decreases saved.events@.len() - i,
    {
        assert(events[i as int] == saved.events@[i as int]@);
        match &saved.events[i] {
            SavedEvent::Human { text, .. } => steps.push(SummaryStep::Begin(text.clone())),
            SavedEvent::Agent(_) => steps.push(SummaryStep::Observe(i)),
        }
        assert(steps_for(events).take(i + 1) =~= steps_for(events).take(i as int).push(
            steps_for(events)[i as int],
        ));
        i = i + 1;
    }
    assert(steps_for(events).take(i as int) =~= steps_for(events));
    match saved.metadata.get("working_tree_paths") {
        Some(value) => match value.as_array() {
            Some(items) => {
                proof {
                    lemma_list_view(items@);
                }
                steps.push(SummaryStep::Changed(texts_of(items)));
            },
            None => {},
        },
        None => {},
    }
    steps
}

/// A conversation in the archive.
#[derive(Clone, Debug, Eq, PartialEq)]
pub struct SessionRecord {
    pub id: String,
    pub title: String,
    pub preview: String,
    pub state: ArchiveState,
    /// When it was last written, in words.
    pub updated: Option<String>,
    pub roster: Vec<String>,
}

/// A conversation in a list.
#[derive(Clone, Debug, Eq, PartialEq)]
pub struct SessionListEntry {
    pub id: String,
    pub title: String,
    pub updated_at: String,
    pub preview: String,
    pub roster: Vec<String>,
}

/// How a state is called.
pub open spec fn state_name(state: ArchiveState) -> Seq<char> {
    match state {
        ArchiveState::Idle => "Idle"@,
        ArchiveState::Active => "Active"@,
        ArchiveState::Completed => "Completed"@,
        ArchiveState::Failed => "Failed"@,
    }
}

/// How a conversation of the archive is listed.
pub fn list_entry(record: SessionRecord) -> (entry: SessionListEntry)
    ensures
        entry.id@ == record.id@,
        entry.title@ == (if record.title@.len() == 0 {
            "Untitled session"@
        } else {
            record.title@
        }),
        entry.updated_at@ == (match record.updated {
            Some(text) => text@,
            None => "unknown"@,
        }),
        entry.preview@ == (if record.preview@.len() == 0 {
            state_name(record.state)
        } else {
            state_name(record.state) + " · "@ + record.preview@
        }),
        strings(entry.roster@) == strings(record.roster@),
{
    let name = match record.state {
        ArchiveState::Idle => "Idle",
        ArchiveState::Active => "Active",
        ArchiveState::Completed => "Completed",
        ArchiveState::Failed => "Failed",
    };
    let preview = if record.preview.as_str().unicode_len() == 0 {
        name.to_owned()
    } else {
        let mut text = to_chars(name);
        append_text(&mut text, " · ");
        append_text(&mut text, record.preview.as_str());
        to_text(&text)
    };
    let title = if record.title.as_str().unicode_len() == 0 {
        "Untitled session".to_owned()
    } else {
        record.title
    };
    let updated_at = match record.updated {
        Some(text) => text,
        None => "unknown".to_owned(),
    };
    SessionListEntry { id: record.id, title, updated_at, preview, roster: record.roster }
}

/// Whether a saved conversation belongs to the workspace; where it does not, why it is
/// not opened.
pub fn check_workspace(stored: &str, cwd: &str) -> (checked: Result<(), String>)
    ensures
        match checked {
            Ok(()) => stored@ == cwd@,
            Err(reason) => stored@ != cwd@ && reason@
                == "saved session belongs to another project"@,
        },
{
    if same(stored, cwd) {
        Ok(())
    } else {
        Err("saved session belongs to another project".to_owned())
    }
}

/// The first conversation of a list that is not the excluded one.
pub open spec fn first_other(ids: Seq<Seq<char>>, exclude: Option<Seq<char>>) -> Option<int>
    decreases ids.len(),
{
    if ids.len() == 0 {
        None
    } else if Some(ids[0]) != exclude {
        Some(0)
    } else {
        match first_other(ids.drop_first(), exclude) {
            Some(i) => Some(i + 1),
            None => None,
        }
    }
}

/// The place of the latest conversation of a list, newest first, that is not the excluded
/// one.
pub fn latest_conversation(ids: &Vec<String>, exclude: Option<&str>) -> (index: Option<usize>)
    ensures
        (match index {
            Some(i) => Some(i as int),
            None => None,
        }) == first_other(
            strings(ids@),
            match exclude {
                Some(id) => Some(id@),
                None => None,
            },
        ),
{
    let ghost all = strings(ids@);
    let ghost left_out: Option<Seq<char>> = match exclude {
        Some(id) => Some(id@),
        None => None,
    };
    let mut i: usize = 0;
    assert(all.skip(0) =~= all);
    while i < ids.len()
        invariant
            i <= ids.len(),
            all == strings(ids@),
            left_out == (match exclude {
                Some(id) => Some(id@),
                None => None::<Seq<char>>,
            }),
            first_other(all, left_out) == (match first_other(all.skip(i as int), left_out) {
                Some(k) => Some(k + i),
                None => None::<int>,
            }),
        decreases ids.len() - i,
    {
        assert(all.skip(i as int)[0] == ids@[i as int]@);
        assert(all.skip(i as int).drop_first() =~= all.skip(i + 1));
        let excluded = match exclude {
            Some(id) => same(ids[i].as_str(), id),
            None => false,
        };
        if !excluded {
            return Some(i);
        }
        i = i + 1;
    }
    assert(all.skip(i as int).len() == 0);
    None
}

} // verus!
