use codeswarm::goal::{ask_goal, prompt_with_goal, save_goal, saved_goal, Goal, MAX_OBJECTIVE};
use codeswarm::json::{parse_json, Json};
use codeswarm::session::{status_report, Link};

#[test]
fn goals_are_set_run_completed_and_cleared() {
    let mut goal = None;
    assert_eq!(ask_goal(&mut goal, ""), ("no goal is set".to_string(), None));
    assert_eq!(ask_goal(&mut goal, "run"), ("no goal is set".to_string(), None));
    assert_eq!(ask_goal(&mut goal, "done"), ("no goal is set".to_string(), None));
    assert_eq!(
        ask_goal(&mut goal, " Fix login\nkeep sessions "),
        (
            "goal active · Fix login\nkeep sessions".to_string(),
            Some("Fix login\nkeep sessions".to_string())
        )
    );
    assert_eq!(ask_goal(&mut goal, "run").1.as_deref(), Some("Fix login\nkeep sessions"));
    assert_eq!(prompt_with_goal(&goal, "go"), "Shared goal:\nFix login\nkeep sessions\n\ngo");
    assert_eq!(
        ask_goal(&mut goal, "done"),
        ("goal completed · Fix login\nkeep sessions".to_string(), None)
    );
    assert_eq!(ask_goal(&mut goal, "run").1, None);
    assert_eq!(prompt_with_goal(&goal, "go"), "go");
    assert_eq!(ask_goal(&mut goal, "clear"), ("goal cleared".to_string(), None));
    assert_eq!(goal, None);
    assert_eq!(prompt_with_goal(&goal, "go"), "go");
}

#[test]
fn objectives_are_limited_in_bytes() {
    let mut goal = None;
    let longest = "é".repeat(MAX_OBJECTIVE / 2);
    assert!(ask_goal(&mut goal, &longest).1.is_some());
    let kept = goal.clone();
    let (line, request) = ask_goal(&mut goal, &format!("{longest}x"));
    assert_eq!((line.as_str(), request), ("goal may be up to 16000 bytes", None));
    assert_eq!(goal, kept);
}

#[test]
fn saved_goals_come_back() {
    let mut fields = match parse_json(r#"{"cwd":"/tmp","goal":{"objective":"old","more":1}}"#) {
        Some(Json::Object(fields)) => fields,
        _ => panic!("an object"),
    };
    for completed in [true, false] {
        let goal = Some(Goal { objective: "new".to_string(), completed });
        save_goal(&mut fields, &goal);
        let metadata = Json::Object(fields);
        assert_eq!(saved_goal(&metadata), goal);
        assert_eq!(metadata.text_field("cwd"), Some("/tmp"));
        fields = match metadata {
            Json::Object(fields) => fields,
            _ => unreachable!("an object"),
        };
    }
    save_goal(&mut fields, &None);
    assert_eq!(saved_goal(&Json::Object(fields)), None);
    assert_eq!(saved_goal(&Json::Null), None);
}

#[test]
fn the_status_names_the_program_and_the_agents() {
    let names = vec!["Codex".to_string(), "Qwen".to_string()];
    assert_eq!(
        status_report("1.2.0", "/bin/codeswarm", &names, Link::Open),
        "codeswarm 1.2.0 · /bin/codeswarm · Codex, Qwen · connected"
    );
    assert_eq!(
        status_report("1.2.0", "codeswarm", &vec![], Link::Absent),
        "codeswarm 1.2.0 · codeswarm · no agents · disconnected"
    );
    assert!(status_report("1", "c", &names, Link::Closed).ends_with("connection closed"));
}
