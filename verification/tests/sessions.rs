use codeswarm::app::{App, Moment};
use codeswarm::events::{AgentEvent, HistoryContent};
use codeswarm::history::{
    archive_state, merge_metadata, replay_conversation, replay_display_event, seed_saved_roster,
    ArchiveState, SavedConversation, SavedEvent,
};
use codeswarm::json::{parse_json, set_field, set_value, Json};
use codeswarm::launch::{AgentSpec, Launch, RosterSlot};
use codeswarm::launcher::saved_slots;
use codeswarm::opening::{prompt_commands, runtime_diagnostics};
use codeswarm::paths::{
    load_prompt_history_from, load_session_metadata_candidates, project_prompt_history_path,
    prompt_history_path, read_candidate, resume_launch, session_metadata_path_for, settings_path,
    state_directory,
};
use codeswarm::preferences::save_roster_slots;
use codeswarm::project::{
    export_name, legacy_project_path_key, parse_changed_paths, project_path_key, task_title,
};
use codeswarm::resume::{
    load_agent_session_id, metadata_roster, resumable_slots, resume_launch_from_metadata,
    standalone_session_metadata, stored_workspace,
};

const ROOT: &str = "/workspace/project";

fn moment() -> Moment {
    Moment { now: 1, hour: 9, minute: 30 }
}

fn json(text: &str) -> Json {
    parse_json(text).expect("json")
}

fn roster(metadata: &Json, cwd: &str) -> Result<codeswarm::launch::RosterLaunch, String> {
    match resume_launch_from_metadata(metadata, ROOT, cwd, &vec![]) {
        Ok(Launch::Roster(launch)) => Ok(launch),
        Ok(_) => Err("no roster".to_string()),
        Err(reason) => Err(reason),
    }
}

#[test]
fn resume_launch_requires_matching_workspace_and_a_loadable_agent_session() {
    let metadata = json(
        r#"{"cwd":"/workspace/project","agents":[{
            "name": "Codex", "identity": "openai.com", "protocol": "acp",
            "command": "codex-acp", "supports_load_session": true,
            "session_id": "session-1"
        }]}"#,
    );
    assert_eq!(stored_workspace(&metadata), Some(ROOT));
    let launch = roster(&metadata, ROOT).expect("launch");
    assert_eq!(launch.specs.len(), 1);
    assert_eq!(launch.prompt, None);
    assert_eq!(launch.first_slot, 0);

    let key = |path: &str| project_path_key(&Some("c".to_string()), &path.as_bytes().to_vec());
    assert_ne!(key("/workspace/project"), key("/workspace/project/other"));
    assert_ne!(key("/workspace/project/a-b/c"), key("/workspace/project/a/b-c"));
    assert!(roster(&metadata, "/workspace/project/other").is_err());
}

#[test]
fn resume_restores_each_agent_handle_and_rejects_the_removed_owner_schema() {
    let current = json(
        r#"{"cwd":"/workspace/project","agents":[
            {"name": "One", "identity": "one.example", "protocol": "acp", "command": "one", "supports_load_session": true, "session_id": "one-session"},
            {"name": "Two", "identity": "two.example", "protocol": "acp", "command": "two", "supports_load_session": true, "session_id": "two-session"}
        ]}"#,
    );
    assert_eq!(
        roster(&current, ROOT).expect("launch").session_ids,
        [Some("one-session".to_string()), Some("two-session".to_string())]
    );

    let removed = json(
        r#"{"cwd":"/workspace/project","roster":["one.example"],"owner_session_id":"one-session"}"#,
    );
    assert!(roster(&removed, ROOT).is_err());
}

#[test]
fn custom_acp_session_resumes_from_its_persisted_launch_spec() {
    let metadata = json(
        r#"{"cwd":"/workspace/project","agents":[{
            "name": "my-agent", "identity": "my-agent --stdio",
            "protocol": "acp", "command": "my-agent --stdio",
            "supports_load_session": true, "session_id": "provider-session"
        }]}"#,
    );
    let launch = roster(&metadata, ROOT).expect("launch");
    assert_eq!(launch.specs, [AgentSpec::Acp("my-agent --stdio".to_string())]);
    assert_eq!(launch.identities, ["my-agent --stdio"]);
    assert_eq!(launch.session_ids, [Some("provider-session".to_string())]);
}

#[test]
fn agent_session_restore_matches_identity_and_workspace() {
    let metadata = json(
        r#"{"cwd":"/workspace/project","agents":[{
            "name": "Codex", "identity": "openai.com", "protocol": "acp",
            "command": "codex-acp", "supports_load_session": true,
            "session_id": "session-42"
        }]}"#,
    );
    assert_eq!(
        load_agent_session_id(&metadata, ROOT, ROOT, "openai.com"),
        Some("session-42".to_string())
    );
    assert_eq!(load_agent_session_id(&metadata, ROOT, "/elsewhere", "openai.com"), None);
    assert_eq!(load_agent_session_id(&metadata, ROOT, ROOT, "qwen.com"), None);
}

#[test]
fn agent_session_restore_skips_non_resumable_handles() {
    let metadata = json(
        r#"{"cwd":"/workspace/project","agents":[{
            "name": "Gemini", "identity": "geminicli.com", "protocol": "acp",
            "command": "gemini", "supports_load_session": false,
            "session_id": "stale-session"
        }]}"#,
    );
    assert_eq!(load_agent_session_id(&metadata, ROOT, ROOT, "geminicli.com"), None);
}

#[test]
fn direct_session_metadata_uses_the_agent_list_schema() {
    let metadata = standalone_session_metadata(
        "/tmp/codeswarm-project",
        "Custom agent",
        "custom.example",
        "custom",
        "custom-agent --stdio",
        true,
        &None,
    );
    let agents = metadata.get("agents").and_then(Json::as_array).expect("agents");
    assert_eq!(agents.len(), 1);
    let agent = &agents[0];
    assert_eq!(agent.text_field("name"), Some("Custom agent"));
    assert_eq!(agent.text_field("identity"), Some("custom.example"));
    assert_eq!(agent.text_field("protocol"), Some("custom"));
    assert_eq!(agent.text_field("command"), Some("custom-agent --stdio"));
    assert_eq!(agent.flag_field("supports_load_session"), Some(true));
    assert!(agent.get("session_id").is_none());
    assert!(metadata.get("owner").is_none());
}

#[test]
fn a_session_that_was_saved_is_resumed() {
    let metadata = standalone_session_metadata(
        ROOT,
        "Codex",
        "openai.com",
        "acp",
        "codex-acp",
        true,
        &Some("handle".to_string()),
    );
    assert_eq!(resumable_slots(&metadata), vec![0]);
    let launch = roster(&metadata, ROOT).expect("launch");
    assert_eq!(launch.session_ids, [Some("handle".to_string())]);
    assert_eq!(launch.specs, [AgentSpec::Acp("codex-acp".to_string())]);
}

#[test]
fn local_history_displays_without_resumable_handles_or_live_work() {
    let metadata = json(r#"{"agents":[{"name":"Offline agent","identity":"offline"}]}"#);
    let mut app = App::default();
    seed_saved_roster(&mut app, &metadata, moment());
    assert!(resumable_slots(&metadata).is_empty());
    for event in [
        AgentEvent::Text { slot: 0, text: "saved answer".to_string() },
        AgentEvent::TurnComplete { slot: 0 },
        AgentEvent::Text { slot: 0, text: "second answer".to_string() },
    ] {
        replay_display_event(&mut app, &event, moment());
    }
    assert!(app.export_markdown().contains("saved answer"));
    assert!(app.export_markdown().contains("second answer"));
    assert!(!app.cancellation_pending());
    assert!(app.inactive_agent(moment().now + 600_000_000_000).is_none());
    assert_eq!(app.queued_count(), 0);
}

#[test]
fn resumability_rejects_missing_empty_and_invalid_external_handles() {
    let metadata = json(
        r#"{"agents":[
            {"name":"valid","supports_load_session":true,"session_id":"saved"},
            {"supports_load_session":true,"session_id":""},
            {"supports_load_session":false,"session_id":"saved"},
            {"supports_load_session":true,"session_id":42}
        ]}"#,
    );
    assert_eq!(resumable_slots(&metadata), vec![0]);
    assert_eq!(metadata_roster(&metadata), vec!["valid"]);
    assert_eq!(task_title("  fix\n login   screen "), "fix login screen");
}

#[test]
fn a_saved_conversation_is_shown_and_nothing_runs() {
    let conversation = SavedConversation {
        metadata: json(r#"{"agents":[{"name":"Codex","identity":"openai.com"}]}"#),
        events: vec![
            SavedEvent::Human { text: "question".to_string(), direct: false },
            SavedEvent::Agent(AgentEvent::TurnStarted { slot: 0 }),
            SavedEvent::Agent(AgentEvent::Text { slot: 0, text: "answer".to_string() }),
            SavedEvent::Agent(AgentEvent::History {
                slot: 0,
                content: HistoryContent::Text("older".to_string()),
            }),
        ],
        warnings: 2,
    };
    let mut app = App::default();
    replay_conversation(&mut app, &conversation, moment());
    let shown = app.export_markdown();
    assert!(shown.contains("question"));
    assert!(shown.contains("answer"));
    assert!(!app.cancellation_pending());
}

#[test]
fn the_archive_follows_the_turns() {
    assert_eq!(
        archive_state(&AgentEvent::TurnStarted { slot: 0 }),
        Some(ArchiveState::Active)
    );
    assert_eq!(
        archive_state(&AgentEvent::Failed {
            slot: 0,
            started: true,
            detail: "gone".to_string()
        }),
        Some(ArchiveState::Failed)
    );
    assert_eq!(
        archive_state(&AgentEvent::Text { slot: 0, text: "answer".to_string() }),
        None
    );
}

#[test]
fn parsed_documents_hold_what_was_written() {
    let value = json(r#"{"a":{"b":"text","c":true},"list":[1,null,"x"],"a2":-2.5}"#);
    assert_eq!(value.text_at("a", "b"), Some("text"));
    assert_eq!(value.flag_at("a", "c"), Some(true));
    let list = value.get("list").and_then(Json::as_array).expect("list");
    assert_eq!(list.len(), 3);
    assert!(matches!(&list[0], Json::Number(number) if number == "1"));
    assert!(matches!(&list[1], Json::Null));
    assert_eq!(list[2].as_str(), Some("x"));
    assert!(matches!(value.get("a2"), Some(Json::Number(number)) if number == "-2.5"));
    assert!(parse_json("{").is_none());
    assert!(parse_json("").is_none());
}

#[test]
fn fields_that_were_set_are_found() {
    let mut fields: Vec<(String, Json)> = vec![];
    set_field(&mut fields, "name", Json::Text("first".to_string()));
    set_field(&mut fields, "name", Json::Text("second".to_string()));
    set_value(&mut fields, "ui", "density", Json::Text("compact".to_string()));
    set_value(&mut fields, "ui", "sounds", Json::Bool(false));
    merge_metadata(&mut fields, json(r#"{"title":"task"}"#));
    let object = Json::Object(fields);
    assert_eq!(object.text_field("name"), Some("second"));
    assert_eq!(object.text_at("ui", "density"), Some("compact"));
    assert_eq!(object.flag_at("ui", "sounds"), Some(false));
    assert_eq!(object.text_field("title"), Some("task"));
}

#[test]
fn saved_rosters_are_read_back_in_order() {
    let slots = vec![
        RosterSlot { agent: "openai.com".to_string(), model: Some("fast".to_string()) },
        RosterSlot { agent: "qwen.com".to_string(), model: None },
    ];
    let mut fields: Vec<(String, Json)> = vec![];
    save_roster_slots(&mut fields, &slots);
    assert_eq!(saved_slots(&Some(Json::Object(fields))), slots);
}

#[test]
fn preferences_survive_saving() {
    let mut app = App::default();
    app.load_ui_preferences(
        r#"{"ui":{"density":"compact","prompt_message":"Ask away"},"notifications":{"system":"never"}}"#,
    );
    assert_eq!(app.notification_policy().as_str(), "never");
    let mut fields: Vec<(String, Json)> = vec![];
    app.save_ui_preferences(&mut fields);
    let saved = Json::Object(fields);
    let mut other = App::default();
    other.apply_preferences(&saved);
    assert_eq!(other.settings.density, app.settings.density);
    assert_eq!(other.notification_policy(), app.notification_policy());
    assert_eq!(other.settings.show_scrollbar, app.settings.show_scrollbar);
    assert_eq!(other.prompt_message, app.prompt_message);
    let mut unchanged = App::default();
    unchanged.load_ui_preferences("not json");
    assert_eq!(unchanged.settings.density, App::default().settings.density);
}

#[test]
fn project_keys_name_the_project_and_hash_its_path() {
    let key = project_path_key(&Some("My Project!".to_string()), &b"/work/My Project!".to_vec());
    assert!(key.chars().all(|c| c.is_ascii_alphanumeric() || c == '-' || c == '.' || c == '_'));
    let hash = key.rsplit('-').next().expect("hash");
    assert!(hash.chars().all(|c| c.is_ascii_hexdigit()));
    let plain = project_path_key(&Some("abc".to_string()), &b"abc".to_vec());
    assert!(plain.starts_with("abc-ba7816bf8f01cfea"), "{plain}");
    assert_ne!(legacy_project_path_key("/a/b"), "/a/b");
}

#[test]
fn changed_paths_are_read_from_the_status_of_the_repository() {
    let output = b" M src/lib.rs\0R  new.rs\0old.rs\0?? notes \xff.md\0".to_vec();
    assert_eq!(
        parse_changed_paths(&output),
        ["src/lib.rs", "new.rs", "notes \u{fffd}.md"]
    );
}

#[test]
fn exports_and_reports_have_names() {
    assert_eq!(export_name(1700, 0), "codeswarm-conversation-1700.md");
    assert_eq!(export_name(1700, 2), "codeswarm-conversation-1700-2.md");
    assert!(prompt_commands().contains(&"/help".to_string()));
    let metadata = json(
        r#"{"agents":[{"name":"a","supports_load_session":true,"session_id":"s"}],"workflow":{"worker":"Codex"}}"#,
    );
    let report = runtime_diagnostics("1.0", "/bin/codeswarm", ROOT, Some(&metadata), true);
    assert_eq!(
        report,
        "CodeSwarm 1.0\nRunning executable: /bin/codeswarm\nWorkspace: /workspace/project\n\
         Connection: offline history (no provider processes started)\n\
         Saved resumable slots: 0\nPair workflow worker: Codex\n"
    );
    assert!(runtime_diagnostics("1.0", "x", ROOT, None, false)
        .contains("Saved resumable slots: none"));
}

#[test]
fn saving_keeps_the_other_settings() {
    let document = r#"{"agents":[{"identity":"own"}],"ui":{"font":"mono"},"launcher":{"last":"x"}}"#;
    let Json::Object(mut fields) = json(document) else { panic!("no object") };
    App::default().save_ui_preferences(&mut fields);
    save_roster_slots(
        &mut fields,
        &vec![RosterSlot { agent: "openai.com".to_string(), model: None }],
    );
    let saved = Json::Object(fields);
    assert_eq!(saved.get("agents").and_then(Json::as_array).map(Vec::len), Some(1));
    assert_eq!(saved.text_at("ui", "font"), Some("mono"));
    assert_eq!(saved.text_at("launcher", "last"), Some("x"));
    assert_eq!(saved.text_at("ui", "density"), Some("comfortable"));
}

#[test]
fn prompt_history_is_scoped_to_the_project_data_directory() {
    let key = project_path_key(&Some("project".to_string()), &b"/workspace/project".to_vec());
    let path = project_prompt_history_path(b"/tmp/codeswarm-data".to_vec(), &key);
    let path = String::from_utf8(path).expect("text");
    let parts: Vec<&str> = path.split('/').collect();
    assert_eq!(parts.last(), Some(&"prompt_history.jsonl"));
    assert!(parts[parts.len() - 2].starts_with("project-"));
    assert!(path.starts_with("/tmp/codeswarm-data/codeswarm/"));
}

#[test]
fn legacy_prompt_history_is_migrated_before_new_entries_are_appended() {
    let legacy = vec!["first".to_string(), "second".to_string()];
    let (entries, moved) = load_prompt_history_from(None, legacy.clone());
    assert_eq!(entries, ["first", "second"]);
    let mut current = moved;
    current.push("third".to_string());
    let (entries, moved) = load_prompt_history_from(Some(current), legacy);
    assert_eq!(entries, ["first", "second", "third"]);
    assert!(moved.is_empty());
}

#[test]
fn malformed_current_metadata_does_not_fall_back_to_stale_legacy_state() {
    let candidates = vec![read_candidate(Some("not json")), read_candidate(Some("{}"))];
    assert!(load_session_metadata_candidates(&candidates).is_err());
    let candidates = vec![read_candidate(None), read_candidate(Some("{}"))];
    assert_eq!(load_session_metadata_candidates(&candidates), Ok(Some(1)));
    assert_eq!(resume_launch(&candidates), Ok((1, true)));
    assert_eq!(
        resume_launch(&vec![read_candidate(None)]),
        Err("No resumable CodeSwarm session for this project".to_string())
    );
    assert!(resume_launch(&vec![read_candidate(Some("[]"))]).is_err());
}

#[test]
fn places_follow_the_environment() {
    let bytes = |text: &str| Some(text.as_bytes().to_vec());
    let text = |path: Vec<u8>| String::from_utf8(path).expect("text");
    assert_eq!(
        settings_path(bytes("/config/"), bytes("/home/me")).map(text),
        Some("/config/codeswarm/codeswarm.json".to_string())
    );
    assert_eq!(
        settings_path(None, bytes("/home/me")).map(text),
        Some("/home/me/.config/codeswarm/codeswarm.json".to_string())
    );
    assert_eq!(settings_path(None, None), None);
    assert_eq!(text(state_directory(None, None)), ".codeswarm-state/codeswarm");
    assert_eq!(
        text(session_metadata_path_for(bytes("/state"), None, "project-1")),
        "/state/codeswarm/sessions/project-1/session.json"
    );
    assert_eq!(
        prompt_history_path(None, bytes("/home/me"), "project-1").map(text),
        Some("/home/me/.local/share/codeswarm/project-1/prompt_history.jsonl".to_string())
    );
    assert_eq!(prompt_history_path(None, None, "project-1"), None);
}
