use codeswarm::launch::{
    agent_spec, append_command_argument, bare_launch_from_settings, catalog_identity_for_command,
    display_agent_name, familiar_agents, normalize_arguments, opens_saved, parse_agent_spec,
    parse_launch, prepare_launch_arguments, project_dir_argument, read_request,
    validate_project_directory, AdapterKind, AgentDefinition, AgentSpec, CommandProgram,
    FamiliarAgent, Launch, Request,
};
use codeswarm::launcher::{
    launch_decision, parse_saved_roster, parse_saved_slots, resolve_saved_roster,
    resolve_saved_slots, LaunchDecision,
};

const QWEN: &str = "npx -y @qwen-code/qwen-agent-acp";
const CODEX: &str = "npx -y --package=@agentclientprotocol/codex-acp codex-acp";

fn definition(
    identity: &str,
    name: &str,
    short_name: &str,
    adapter: AdapterKind,
    command: &str,
    detect: &str,
) -> AgentDefinition {
    AgentDefinition {
        identity: identity.to_string(),
        name: name.to_string(),
        short_name: short_name.to_string(),
        aliases: vec![],
        adapter,
        command: command.to_string(),
        detect_command: Some(detect.to_string()),
        full_access_startup_argument: None,
        active: true,
    }
}

fn catalog() -> Vec<AgentDefinition> {
    let mut antigravity = definition(
        "antigravity.google.com",
        "Antigravity",
        "agy",
        AdapterKind::Native,
        "agy",
        "agy",
    );
    antigravity.full_access_startup_argument = Some("--dangerously-skip-permissions".to_string());
    vec![
        definition("qwen.com", "Qwen Code", "qwen", AdapterKind::Acp, QWEN, "qwen"),
        definition("openai.com", "Codex CLI", "codex", AdapterKind::Acp, CODEX, "codex"),
        antigravity,
    ]
}

fn program(command: &str, program: &str) -> CommandProgram {
    CommandProgram { command: command.to_string(), program: Some(program.to_string()) }
}

fn programs() -> Vec<CommandProgram> {
    vec![
        program("qwen", "qwen"),
        program("codex", "codex"),
        program("agy", "agy"),
        program("agy --dangerously-skip-permissions", "agy"),
        program("codex-acp", "codex-acp"),
        program(QWEN, "npx"),
        program(CODEX, "npx"),
    ]
}

fn arguments(words: &[&str]) -> Vec<String> {
    words.iter().map(|word| word.to_string()).collect()
}

fn parsed(words: &[&str]) -> Option<Launch> {
    parse_launch(&arguments(words), &catalog(), &programs())
}

fn identities() -> Vec<String> {
    arguments(&["qwen.com", "openai.com", "antigravity.google.com"])
}

fn bare(settings: &str) -> Launch {
    bare_launch_from_settings(&resolve_saved_slots(settings, &identities()), &catalog())
}

#[test]
fn parses_native_agent_prompt_without_treating_it_as_acp() {
    assert!(matches!(
        parsed(&["--agy", "summarize"]),
        Some(Launch::Agy { prompt: Some(prompt) }) if prompt == "summarize"
    ));
}

#[test]
fn accepts_help_era_entry_point_aliases_without_reinterpreting_arguments() {
    assert_eq!(
        normalize_arguments(arguments(&["run", "/tmp"]), true),
        vec![String::from("/tmp")]
    );
    assert_eq!(
        normalize_arguments(arguments(&["acp", "codex-acp", "/tmp"]), true),
        vec![
            String::from("--acp"),
            String::from("codex-acp"),
            String::from("--project-dir"),
            String::from("/tmp"),
        ]
    );
}

#[test]
fn run_path_stays_separate_from_named_agent_options_and_prompt() {
    let prepared = prepare_launch_arguments(
        arguments(&["run", "/tmp", "--agent", "qwen", "review the patch"]),
        true,
    );
    assert!(matches!(
        parse_launch(&prepared, &catalog(), &programs()),
        Some(Launch::Roster(launch)) if launch.prompt == Some("review the patch".to_string())
    ));
    assert_eq!(project_dir_argument(&prepared), Some("/tmp".to_string()));
}

#[test]
fn explicit_run_can_take_a_prompt_without_a_workspace_path() {
    let prepared = prepare_launch_arguments(arguments(&["run", "summarize this"]), false);
    assert_eq!(prepared, vec!["summarize this"]);
}

#[test]
fn unqualified_path_uses_the_python_default_run_contract() {
    let plain = normalize_arguments(arguments(&["/tmp", "--agent", "qwen"]), true);
    assert_eq!(project_dir_argument(&plain), Some("/tmp".to_string()));
}

#[test]
fn bare_prompt_is_not_mistaken_for_a_project_directory() {
    let plain =
        normalize_arguments(arguments(&["summarize this change", "--agent", "qwen"]), false);
    assert_eq!(project_dir_argument(&plain), None);
}

#[test]
fn invalid_project_directory_is_rejected_before_terminal_start() {
    let error = validate_project_directory("/definitely/not/a/project", false)
        .expect_err("missing project directory");
    assert!(error.contains("Not a directory"));
    assert_eq!(error, "Not a directory: /definitely/not/a/project");
    assert_eq!(validate_project_directory("/tmp", true), Ok(()));
}

#[test]
fn direct_catalog_commands_keep_stable_builtin_identity() {
    assert_eq!(
        catalog_identity_for_command("agy", &catalog(), &programs()),
        "antigravity.google.com"
    );
    assert_eq!(
        catalog_identity_for_command(
            "agy --dangerously-skip-permissions",
            &catalog(),
            &programs()
        ),
        "antigravity.google.com"
    );
    assert_eq!(
        catalog_identity_for_command(
            "npx -y --package=@agentclientprotocol/codex-acp codex-acp",
            &catalog(),
            &programs()
        ),
        "openai.com"
    );
    assert_eq!(
        catalog_identity_for_command("my-agent --stdio", &catalog(), &vec![program(
            "my-agent --stdio",
            "my-agent"
        )]),
        "my-agent --stdio"
    );
}

fn familiar(programs: &[&str], package: Option<&str>, name: &str) -> FamiliarAgent {
    FamiliarAgent {
        programs: arguments(programs),
        package: package.map(|text| text.to_string()),
        name: name.to_string(),
    }
}

fn named(program: &str, words: &[&str]) -> String {
    display_agent_name(&Some((program.to_string(), arguments(words))), &vec![])
}

#[test]
fn native_catalog_arguments_keep_the_friendly_display_name() {
    assert_eq!(named("/usr/local/bin/codex", &["--acp"]), "Codex");
    assert_eq!(named("agy", &["--dangerously-skip-permissions"]), "Antigravity");
    assert_eq!(named("/opt/company/bin/auditor-agent", &["--stdio"]), "auditor-agent");
    assert_eq!(named("/opt/codex-tools/auditor-agent", &["--stdio"]), "auditor-agent");
    assert_eq!(named("npx", &["-y", "@agentclientprotocol/codex-acp"]), "Codex");
    assert_eq!(display_agent_name(&None, &vec![]), "Agent");
}

#[test]
fn agents_that_the_person_named_come_before_the_table() {
    assert_eq!(familiar_agents().len(), 4);
    assert_eq!(named("QWEN", &[]), "Qwen");
    assert_eq!(named("/usr/bin/gemini", &["--acp"]), "Gemini");
    let own = vec![familiar(&["codex", "audit"], Some("audit-acp"), "Auditor")];
    let shown = |program: &str, words: &[&str]| {
        display_agent_name(&Some((program.to_string(), arguments(words))), &own)
    };
    assert_eq!(shown("codex", &[]), "Auditor");
    assert_eq!(shown("npx", &["@own/AUDIT-ACP"]), "Auditor");
    assert_eq!(shown("agy", &[]), "Antigravity");
    assert_eq!(shown("other", &[]), "other");
}

#[test]
fn accepts_a_project_directory_flag_without_routing_it_to_the_agent() {
    assert_eq!(
        project_dir_argument(&arguments(&["--project-dir", "/tmp"])),
        Some("/tmp".to_string())
    );
    assert!(matches!(
        parsed(&["--project-dir", "/tmp", "--roster", "acp:codex-acp", "task"]),
        Some(Launch::Roster(launch)) if launch.prompt == Some("task".to_string())
    ));
}

#[test]
fn parses_acp_program_and_prompt() {
    assert!(matches!(
        parsed(&["--acp", "codex-acp", "summarize"]),
        Some(Launch::Acp { program, prompt: Some(prompt) })
            if program == "codex-acp" && prompt == "summarize"
    ));
    assert!(matches!(
        parsed(&["--acp", "codex-acp"]),
        Some(Launch::Acp { program, prompt: None }) if program == "codex-acp"
    ));
}

#[test]
fn catalog_native_launch_preserves_full_access_startup_argument() {
    let agents = catalog();
    let antigravity = agents
        .iter()
        .find(|agent| agent.identity == "antigravity.google.com")
        .expect("antigravity catalog entry");
    assert_eq!(
        agent_spec(antigravity),
        AgentSpec::Agy("agy --dangerously-skip-permissions".to_string())
    );
    assert_eq!(append_command_argument("agy", "--fast"), "agy --fast");
}

#[test]
fn parses_repeated_mixed_roster_with_selected_first_and_round_limit() {
    assert!(matches!(
        parsed(&[
            "--roster",
            "agy:agy",
            "--roster",
            "acp:codex-acp",
            "--first",
            "1",
            "--max-rounds",
            "12",
            "review the patch",
        ]),
        Some(Launch::Roster(launch))
            if launch.first_slot == 1
                && launch.max_rounds == 12
                && launch.specs
                    == [
                        AgentSpec::Agy("agy".to_string()),
                        AgentSpec::Acp("codex-acp".to_string())
                    ]
                && launch.prompt == Some("review the patch".to_string())
    ));
}

#[test]
fn parses_python_named_agent_selection_into_the_same_mixed_roster() {
    assert!(matches!(
        parsed(&[
            "-a",
            "qwen",
            "--agent",
            "codex",
            "--first-agent",
            "2",
            "review the patch",
        ]),
        Some(Launch::Roster(launch))
            if launch.first_slot == 1
                && launch.specs
                    == [
                        AgentSpec::Acp("npx -y @qwen-code/qwen-agent-acp".to_string()),
                        AgentSpec::Acp(
                            "npx -y --package=@agentclientprotocol/codex-acp codex-acp".to_string()
                        ),
                    ]
                && launch.prompt == Some("review the patch".to_string())
    ));
}

#[test]
fn rejects_invalid_roster_kind_or_selected_slot() {
    assert!(parsed(&["--roster", "bogus:agent", "task"]).is_none());
    assert!(parsed(&[
        "--roster", "agy:agy", "--roster", "acp:codex", "--first", "2", "task"
    ])
    .is_none());
    assert_eq!(parse_agent_spec("agy:agy"), Some(AgentSpec::Agy("agy".to_string())));
    assert_eq!(parse_agent_spec("bogus:agent"), None);
}

#[test]
fn bare_launch_restores_catalogued_saved_roster() {
    assert!(matches!(
        bare(r#"{"launcher":{"roster":"OPENAI.COM\nantigravity.google.com"}}"#),
        Launch::Roster(launch)
            if launch.prompt.is_none()
                && launch.first_slot == 0
                && launch.max_rounds == 100
                && launch.specs
                    == [
                        AgentSpec::Acp(
                            "npx -y --package=@agentclientprotocol/codex-acp codex-acp".to_string()
                        ),
                        AgentSpec::Agy("agy --dangerously-skip-permissions".to_string())
                    ]
    ));
}

#[test]
fn bare_launch_restores_duplicate_slots_and_their_models() {
    assert!(matches!(
        bare(
            r#"{"launcher":{"roster":[{"agent":"openai.com","model":"fast"},{"agent":"openai.com","model":"smart"}]}}"#,
        ),
        Launch::Roster(launch)
            if launch.identities == ["openai.com", "openai.com"]
                && launch.models == [Some("fast".to_string()), Some("smart".to_string())]
    ));
}

#[test]
fn bare_launch_opens_store_for_missing_or_stale_settings() {
    assert!(matches!(bare("{}"), Launch::Store));
    assert!(matches!(bare(r#"{"launcher":{"roster":"removed.ai"}}"#), Launch::Store));
}

fn restorable() -> Vec<String> {
    arguments(&["qwen.ai", "openai.com", "gemini.google.com"])
}

#[test]
fn parses_multiline_roster_and_ignores_blank_lines() {
    let settings = r#"{"launcher":{"roster":" qwen.ai\n\nopenai.com \n"}}"#;
    assert_eq!(parse_saved_roster(settings), ["qwen.ai", "openai.com"]);
}

#[test]
fn malformed_or_wrongly_shaped_settings_are_empty() {
    assert!(parse_saved_roster("not json").is_empty());
    assert!(parse_saved_roster(r#"{"launcher":{"roster":42}}"#).is_empty());
    assert!(parse_saved_roster(r#"{"launcher":[]}"#).is_empty());
    assert!(parse_saved_roster(r#"{"other":{"roster":"qwen.ai"}}"#).is_empty());
}

#[test]
fn filters_removed_identities_and_preserves_saved_order() {
    let settings = r#"{"launcher":{"roster":"OPENAI.COM\nremoved.ai\nqwen.ai"}}"#;
    assert_eq!(
        resolve_saved_roster(settings, &restorable()),
        ["openai.com", "qwen.ai"]
    );
}

#[test]
fn empty_or_fully_stale_roster_opens_store() {
    let available = restorable();
    assert_eq!(launch_decision("{}", &available), LaunchDecision::OpenStore);
    assert_eq!(
        launch_decision(r#"{"launcher":{"roster":"gone.ai"}}"#, &available),
        LaunchDecision::OpenStore
    );
}

#[test]
fn partial_roster_restores_only_current_identities() {
    let available = restorable();
    let decision = launch_decision(
        r#"{"launcher":{"roster":"gone.ai\nqwen.ai\nopenai.com"}}"#,
        &available,
    );
    assert_eq!(
        decision,
        LaunchDecision::Restore {
            identities: vec!["qwen.ai".to_string(), "openai.com".to_string()]
        }
    );
    assert!(decision.should_restore());
    assert_eq!(decision.identities(), ["qwen.ai", "openai.com"]);
}

#[test]
fn saved_slots_hold_an_agent_and_perhaps_a_model() {
    let slots = parse_saved_slots(
        r#"{"launcher":{"roster":[{"agent":"qwen.ai"},{"agent":"openai.com","model":"fast"}]}}"#,
    );
    assert_eq!(slots.len(), 2);
    assert_eq!(slots[0].model, None);
    assert_eq!(slots[1].agent, "openai.com");
    assert_eq!(slots[1].model, Some("fast".to_string()));
}

#[test]
fn requests_are_read_from_the_arguments() {
    assert!(matches!(read_request(arguments(&["--help"]), false), Request::Help));
    assert!(matches!(read_request(arguments(&["--version"]), false), Request::Version));
    assert!(matches!(
        read_request(arguments(&["resume", "one", "two"]), false),
        Request::ResumeUsage
    ));
    assert!(matches!(
        read_request(arguments(&["resume"]), false),
        Request::Start { resume: true, .. }
    ));
    assert!(opens_saved(&arguments(&[]), false));
    assert!(!opens_saved(&arguments(&["--agy"]), false));
}
