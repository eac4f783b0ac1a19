use codeswarm::collaboration::CollaborationContext;
use codeswarm::events::AgentEvent;
use codeswarm::history::{ArchiveState, SavedConversation, SavedEvent};
use codeswarm::journal::{
    check_workspace, latest_conversation, list_entry, summary_for, working_tree, Journal,
    JournalStep, SessionRecord, SummaryStep,
};
use codeswarm::json::{parse_json, remove_field, Json};

fn json(text: &str) -> Json {
    parse_json(text).expect("json")
}

fn fields(text: &str) -> Vec<(String, Json)> {
    match json(text) {
        Json::Object(fields) => fields,
        _ => panic!("no object"),
    }
}

fn keys(fields: &Vec<(String, Json)>) -> Vec<&str> {
    fields.iter().map(|(key, _)| key.as_str()).collect()
}

fn text(key: &str, text: &str) -> JournalStep {
    JournalStep::SetText { key: key.to_string(), text: text.to_string() }
}

fn removed(key: &str) -> JournalStep {
    JournalStep::RemoveField(key.to_string())
}

#[test]
fn the_first_task_names_the_conversation() {
    let mut journal = Journal::new("/work");
    assert_eq!(keys(journal.metadata()), vec!["cwd"]);
    assert_eq!(
        journal.human("fix the parser", false),
        vec![
            JournalStep::AppendHuman { text: "fix the parser".to_string(), direct: false },
            removed("working_tree_paths"),
            removed("completion_summary"),
            JournalStep::Title("fix the parser".to_string()),
            JournalStep::State(ArchiveState::Active),
            JournalStep::Checkpoint,
        ]
    );
    assert_eq!(
        journal.human("and its tests", true),
        vec![
            JournalStep::AppendHuman { text: "and its tests".to_string(), direct: true },
            removed("working_tree_paths"),
            removed("completion_summary"),
            JournalStep::State(ArchiveState::Active),
            JournalStep::Checkpoint,
        ]
    );
}

#[test]
fn a_resumed_conversation_keeps_its_title() {
    let mut journal = Journal::resumed(fields(r#"{"cwd":"/work","completion_summary":"done"}"#));
    let steps = journal.human("go on", false);
    assert!(!steps.iter().any(|step| matches!(step, JournalStep::Title(_))));
    assert_eq!(keys(journal.metadata()), vec!["cwd"]);
}

#[test]
fn the_end_of_a_turn_is_recorded_with_its_summary_and_answer() {
    let mut journal = Journal::new("/work");
    assert_eq!(
        journal.event(&AgentEvent::TurnStarted { slot: 0 }, "", None),
        vec![JournalStep::AppendEvent, JournalStep::State(ArchiveState::Active)]
    );
    let said = AgentEvent::Text { slot: 0, text: "hello".to_string() };
    assert_eq!(journal.event(&said, "", None), vec![JournalStep::AppendEvent]);
    assert_eq!(
        journal.event(&AgentEvent::TurnComplete { slot: 0 }, "one turn", Some("all green")),
        vec![
            JournalStep::AppendEvent,
            text("completion_summary", "one turn"),
            JournalStep::State(ArchiveState::Completed),
            JournalStep::Preview("all green".to_string()),
            JournalStep::Checkpoint,
        ]
    );
    assert_eq!(keys(journal.metadata()), vec!["cwd", "completion_summary"]);
    let failed =
        AgentEvent::Failed { slot: 0, started: true, detail: "the process ended".to_string() };
    assert_eq!(
        journal.event(&failed, "no turn", None),
        vec![
            JournalStep::AppendEvent,
            text("completion_summary", "no turn"),
            JournalStep::State(ArchiveState::Failed),
            JournalStep::Checkpoint,
        ]
    );
}

#[test]
fn session_handles_are_merged_and_name_the_roster() {
    let mut journal = Journal::new("/work");
    let update = json(r#"{"agents":[{"name":"Codex","command":"codex-acp"}],"cwd":"/work"}"#);
    assert_eq!(
        journal.sessions(update),
        vec![
            JournalStep::AppendEvent,
            JournalStep::Metadata,
            JournalStep::Roster(vec!["Codex".to_string()]),
            JournalStep::Checkpoint,
        ]
    );
    assert_eq!(keys(journal.metadata()), vec!["cwd", "agents"]);
    assert_eq!(journal.sessions(Json::Null), vec![JournalStep::AppendEvent]);
}

#[test]
fn changed_paths_are_recorded() {
    let mut journal = Journal::new("/work");
    let paths = working_tree(true, &b" M src/lib.rs\0?? new.rs\0".to_vec()).expect("paths");
    assert_eq!(paths, vec!["src/lib.rs".to_string(), "new.rs".to_string()]);
    assert_eq!(
        journal.changes(&paths, "two files"),
        vec![
            JournalStep::SetTexts { key: "working_tree_paths".to_string(), texts: paths.clone() },
            text("completion_summary", "two files"),
            JournalStep::Checkpoint,
        ]
    );
    assert_eq!(
        working_tree(false, &b" M src/lib.rs\0".to_vec()),
        Err("working-tree evidence unavailable (not a Git repository)".to_string())
    );
}

#[test]
fn conversations_are_listed_with_their_state() {
    let record = |title: &str, preview: &str, updated: Option<&str>| SessionRecord {
        id: "7".to_string(),
        title: title.to_string(),
        preview: preview.to_string(),
        state: ArchiveState::Completed,
        updated: updated.map(str::to_string),
        roster: vec!["Codex".to_string()],
    };
    let entry = list_entry(record("", "", None));
    assert_eq!(entry.title, "Untitled session");
    assert_eq!(entry.preview, "Completed");
    assert_eq!(entry.updated_at, "unknown");
    assert_eq!(entry.roster, vec!["Codex".to_string()]);
    let entry = list_entry(record("Parser", "all green", Some("today")));
    assert_eq!(entry.title, "Parser");
    assert_eq!(entry.preview, "Completed · all green");
    assert_eq!(entry.updated_at, "today");
}

#[test]
fn conversations_of_other_projects_are_not_opened() {
    assert_eq!(check_workspace("/work", "/work"), Ok(()));
    assert_eq!(
        check_workspace("/other", "/work"),
        Err("saved session belongs to another project".to_string())
    );
}

#[test]
fn the_latest_conversation_is_not_the_running_one() {
    let ids = vec!["b".to_string(), "a".to_string()];
    assert_eq!(latest_conversation(&ids, None), Some(0));
    assert_eq!(latest_conversation(&ids, Some("b")), Some(1));
    assert_eq!(latest_conversation(&ids, Some("c")), Some(0));
    assert_eq!(latest_conversation(&vec!["b".to_string()], Some("b")), None);
}

#[test]
fn removed_fields_are_gone() {
    let mut values = fields(r#"{"a":1,"b":2,"c":3}"#);
    remove_field(&mut values, "b");
    assert_eq!(keys(&values), vec!["a", "c"]);
    remove_field(&mut values, "b");
    assert_eq!(keys(&values), vec!["a", "c"]);
}

#[test]
fn updates_that_were_read_are_not_sent_again() {
    let mut context = CollaborationContext::new(2);
    context.record("Codex", "first", &[true, true]);
    assert!(context.unseen(0).contains("first"));
    context.mark_seen(0);
    assert_eq!(context.unseen(0), "");
    assert!(context.unseen(1).contains("first"));
}

#[test]
fn summaries_follow_the_saved_events() {
    let saved = SavedConversation {
        metadata: json(r#"{"working_tree_paths":["a.rs",7,"b.rs"]}"#),
        events: vec![
            SavedEvent::Human { text: "fix it".to_string(), direct: false },
            SavedEvent::Agent(AgentEvent::TurnComplete { slot: 0 }),
        ],
        warnings: 0,
    };
    assert_eq!(
        summary_for(&saved),
        vec![
            SummaryStep::Begin("fix it".to_string()),
            SummaryStep::Observe(1),
            SummaryStep::Changed(vec!["a.rs".to_string(), "b.rs".to_string()]),
        ]
    );
    let empty = SavedConversation { metadata: json("{}"), events: vec![], warnings: 0 };
    assert_eq!(summary_for(&empty), vec![]);
}
