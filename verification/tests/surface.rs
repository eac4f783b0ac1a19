use codeswarm::app::{App, Moment};
use codeswarm::commands::LocalCommand;
use codeswarm::config::{ConfigAction, ConfigKey};
use codeswarm::controls::AdapterControl;
use codeswarm::editor::{Input, Key, PromptAction, PromptEditor};
use codeswarm::events::{
    AgentCapabilities, AgentCommand, AgentEvent, Mode, PermissionRequest, RosterUpdate,
    TerminalEvent, ToolStatus, ToolUpdate, UsageUpdate,
};
use codeswarm::json::Json;
use codeswarm::layout::BlockKind;
use codeswarm::palette::local_palette;
use codeswarm::path_index::{IndexRequest, IndexWorker, PathCandidate};
use codeswarm::permission::{PermissionAction, PermissionKey};
use codeswarm::roster::AgentState;
use codeswarm::store::{StoreAction, StoreAgent, StoreKey};
use codeswarm::surface::PathPickerAction;
use codeswarm::theme::Theme;

fn moment() -> Moment {
    Moment { now: 1_000, hour: 12, minute: 5 }
}

fn key(key: Key) -> Input {
    Input { key, ctrl: false, alt: false, shift: false }
}

fn new_line() -> Input {
    Input { key: Key::Enter, ctrl: false, alt: false, shift: true }
}

fn words(list: &[&str]) -> Vec<String> {
    list.iter().map(|word| word.to_string()).collect()
}

fn agent(identity: &str, name: &str, available: bool, selected: bool) -> StoreAgent {
    StoreAgent {
        identity: identity.to_string(),
        name: name.to_string(),
        adapter: "ACP".to_string(),
        command: format!("{identity} --acp"),
        model: None,
        available,
        selected,
    }
}

fn text(slot: usize, text: &str) -> AgentEvent {
    AgentEvent::Text { slot, text: text.to_string() }
}

fn tool(id: &str, title: &str, status: ToolStatus, detail: Option<&str>) -> AgentEvent {
    AgentEvent::Tool {
        slot: 0,
        update: ToolUpdate {
            id: id.to_string(),
            title: title.to_string(),
            status,
            detail: detail.map(|text| text.to_string()),
        },
    }
}

fn permission(slot: usize, id: &str, options: &[&str], option_ids: &[&str]) -> AgentEvent {
    AgentEvent::Permission {
        slot,
        request: PermissionRequest {
            id: id.to_string(),
            title: "Write to the workspace".to_string(),
            options: words(options),
            option_ids: words(option_ids),
        },
    }
}

fn no_modes() -> Vec<Mode> {
    vec![]
}

#[test]
fn prompt_editor_supports_multiline_unicode_cursor_editing() {
    let mut editor = PromptEditor::default();
    for character in "héllo".chars() {
        assert_eq!(editor.handle_input(key(Key::Char(character))), PromptAction::Changed);
    }
    assert_eq!(editor.cursor(), (0, 5));
    assert_eq!(editor.handle_input(new_line()), PromptAction::Changed);
    for character in "世界".chars() {
        editor.handle_input(key(Key::Char(character)));
    }
    assert_eq!(editor.handle_input(key(Key::Left)), PromptAction::Changed);
    editor.handle_input(key(Key::Char('!')));
    assert_eq!(editor.text(), "héllo\n世!界");
    assert_eq!(editor.cursor(), (1, 2));
}

#[test]
fn prompt_message_preference_updates_the_empty_editor_without_losing_draft() {
    let mut app = App::default();
    app.prompt_editor.set_text("draft");
    app.set_prompt_message("Describe the next change");

    assert_eq!(app.prompt_message(), "Describe the next change");
    assert_eq!(app.prompt_editor.text(), "draft");
    assert_eq!(
        app.prompt_editor.area().widget.placeholder_text(),
        "Describe the next change"
    );
}

#[test]
fn prompt_editor_submits_and_bounds_deduplicated_history() {
    let mut editor = PromptEditor::from_text("first\nsecond");
    assert_eq!(
        editor.handle_input(key(Key::Enter)),
        PromptAction::Submit("first\nsecond".to_string())
    );
    editor.remember("first\nsecond");
    assert_eq!(editor.history().len(), 1);
    for index in 0..55 {
        editor.remember(&format!("prompt-{index}"));
    }
    assert_eq!(editor.history().len(), 50);
    assert_eq!(editor.history().first().map(String::as_str), Some("prompt-5"));
    assert!(editor.history_previous());
    assert_eq!(editor.text(), "prompt-54");
    assert!(editor.history_next());
    assert_eq!(editor.text(), "");
}

#[test]
fn prompt_editor_cycles_slash_command_completions() {
    let mut editor = PromptEditor::from_text("/h");
    editor.set_completion_candidates(words(&["/help", "/history", "/quit"]));
    assert!(editor.completion_matches().is_empty());
    assert_eq!(
        editor.handle_input(key(Key::Tab)),
        PromptAction::Completion { value: "/help".to_string(), index: 0, total: 2 }
    );
    assert_eq!(editor.text(), "/help");
    assert_eq!(editor.completion_matches(), &["/help", "/history"]);
    assert_eq!(
        editor.handle_input(key(Key::Tab)),
        PromptAction::Completion { value: "/history".to_string(), index: 1, total: 2 }
    );
    assert_eq!(editor.text(), "/history");
}

#[test]
fn app_routes_prompt_keys_through_editor_and_keeps_compatibility_text() {
    let mut app = App::default();
    for character in "first".chars() {
        assert_eq!(
            app.handle_prompt_input(key(Key::Char(character))),
            PromptAction::Changed
        );
    }
    assert_eq!(app.prompt, "first");
    assert_eq!(app.handle_prompt_input(new_line()), PromptAction::Changed);
    app.handle_prompt_input(key(Key::Char('n')));
    assert_eq!(app.prompt, "first\nn");
    assert_eq!(
        app.handle_prompt_input(key(Key::Enter)),
        PromptAction::Submit("first\nn".to_string())
    );
    assert!(app.prompt.is_empty());
}

#[test]
fn app_prompt_tab_completion_updates_compatibility_text() {
    let mut app = App::default();
    app.set_prompt_completions(words(&["/help", "/history"]));
    app.handle_prompt_input(key(Key::Char('/')));
    app.handle_prompt_input(key(Key::Char('h')));
    assert!(matches!(
        app.handle_prompt_input(key(Key::Tab)),
        PromptAction::Completion { value, .. } if value == "/help"
    ));
    assert_eq!(app.prompt, "/help");
}

#[test]
fn prompt_tab_completion_supports_workspace_at_paths() {
    let mut app = App::default();
    app.set_prompt_completions(words(&["@src/main.rs", "@src/lib.rs"]));
    for character in "@srcm".chars() {
        app.handle_prompt_input(key(Key::Char(character)));
    }
    assert!(matches!(
        app.handle_prompt_input(key(Key::Tab)),
        PromptAction::Completion { value, .. } if value == "@src/main.rs"
    ));
    let mut editor = PromptEditor::default();
    editor.set_completion_candidates(words(&["@src/main.rs", "@README.md"]));
    for character in "@mai".chars() {
        editor.handle_input(key(Key::Char(character)));
    }
    assert!(matches!(
        editor.handle_input(key(Key::Tab)),
        PromptAction::Completion { value, .. } if value == "@src/main.rs"
    ));
}

#[test]
fn path_completion_waits_for_a_meaningful_query() {
    let mut editor = PromptEditor::default();
    editor.set_completion_candidates(words(&["@src/main.rs", "@src/lib.rs"]));
    editor.handle_input(key(Key::Char('@')));
    assert!(matches!(editor.handle_input(key(Key::Tab)), PromptAction::Ignored));

    for character in "src".chars() {
        editor.handle_input(key(Key::Char(character)));
    }
    assert!(matches!(
        editor.handle_input(key(Key::Tab)),
        PromptAction::Completion { .. }
    ));
}

/// Answers the requests of the picker from a workspace.
fn answer(app: &mut App, paths: &[(&str, bool)]) {
    let mut worker = IndexWorker::new(
        paths
            .iter()
            .map(|(path, directory)| PathCandidate {
                path: path.to_string(),
                directory: *directory,
            })
            .collect(),
    );
    let mut updates = vec![worker.ready()];
    for request in app.take_index_requests() {
        if let IndexRequest::Query { generation, query } = request {
            updates.extend(worker.query(generation, query));
        }
    }
    app.poll_path_index(updates);
}

#[test]
fn async_path_picker_ranks_and_inserts_a_workspace_file() {
    let mut app = App::default();
    app.set_workspace_root("/workspace");
    for character in "@src/m".chars() {
        app.handle_prompt_input(key(Key::Char(character)));
    }
    answer(&mut app, &[("src", true), ("src/main.rs", false)]);
    assert!(app.path_picker_visible());
    assert_eq!(app.path_matches()[app.path_selection()].path, "src/main.rs");
    assert!(matches!(
        app.handle_path_picker_key(Key::Enter),
        PathPickerAction::Insert(value) if value == "@src/main.rs "
    ));
    assert_eq!(app.prompt, "@src/main.rs ");
    assert!(!app.path_picker_visible());
}

#[test]
fn quoted_path_picker_keeps_spaces_inside_the_current_token() {
    let mut app = App::default();
    app.set_workspace_root("/workspace");
    for character in "@\"notes/pro".chars() {
        app.handle_prompt_input(key(Key::Char(character)));
    }
    answer(&mut app, &[("notes", true), ("notes/project plan.md", false)]);
    assert!(app.path_picker_visible());
    assert!(app
        .path_matches()
        .iter()
        .any(|candidate| candidate.path == "notes/project plan.md"));
    assert!(matches!(
        app.handle_path_picker_key(Key::Enter),
        PathPickerAction::Insert(value) if value == "@\"notes/project plan.md\" "
    ));
    assert_eq!(app.prompt, "@\"notes/project plan.md\" ");
}

#[test]
fn workspace_path_picker_indexes_off_thread_and_inserts_selected_path() {
    let mut app = App::default();
    app.set_workspace_root("/workspace");
    for character in "@src".chars() {
        app.handle_prompt_input(key(Key::Char(character)));
    }
    answer(&mut app, &[("src", true), ("src/main.rs", false)]);
    assert!(app.path_picker_visible());
    assert!(app.path_matches().iter().any(|candidate| candidate.path == "src"));
    assert!(matches!(
        app.handle_path_picker_key(Key::Down),
        PathPickerAction::Changed | PathPickerAction::Ignored
    ));
    let _ = app.handle_path_picker_key(Key::Enter);
    assert!(app.prompt.contains("@src"));
}

#[test]
fn advertised_agent_commands_extend_prompt_completion_without_noise() {
    let mut app = App::default();
    app.set_prompt_completions(words(&["/help"]));
    app.apply_event(
        &AgentEvent::CommandsReplaced {
            slot: 0,
            commands: vec![AgentCommand { name: "review".to_string() }],
        },
        moment(),
    );
    app.handle_prompt_input(key(Key::Char('/')));
    app.handle_prompt_input(key(Key::Char('r')));
    assert!(matches!(
        app.handle_prompt_input(key(Key::Tab)),
        PromptAction::Completion { value, .. } if value == "/review"
    ));
    assert_eq!(app.handle_local_command("/review"), None);
    assert_eq!(app.status, "idle");
    assert_eq!(app.handle_local_command("/unknown"), Some(LocalCommand::Handled));
}

#[test]
fn commands_that_several_agents_offer_are_named_once() {
    let mut app = App::default();
    for slot in 0..2 {
        app.set_agent_name(slot, "Agent");
        app.apply_event(
            &AgentEvent::CommandsReplaced {
                slot,
                commands: vec![
                    AgentCommand { name: "review".to_string() },
                    AgentCommand { name: format!("own-{slot}") },
                ],
            },
            moment(),
        );
    }
    let mut names: Vec<String> =
        app.agent_commands().into_iter().map(|command| command.name).collect();
    names.sort();
    assert_eq!(names, ["own-0", "own-1", "review"]);
}

#[test]
fn space_adds_and_removes_a_slot_of_the_roster() {
    let mut app = App::default();
    app.set_config_agents(vec![agent("one", "One", true, true), agent("two", "Two", true, false)]);
    app.handle_local_command("/agents");
    assert_eq!(app.handle_config_key(ConfigKey::ToggleSlot, &no_modes()), ConfigAction::Changed);
    assert!(!app.config_agents()[0].selected);
    assert_eq!(app.handle_config_key(ConfigKey::ToggleSlot, &no_modes()), ConfigAction::Changed);
    assert!(app.config_agents()[0].selected);
    app.handle_config_key(ConfigKey::Up, &no_modes());
    assert_eq!(app.handle_config_key(ConfigKey::ToggleSlot, &no_modes()), ConfigAction::Ignored);
}

#[test]
fn arrows_choose_a_model_that_the_running_agent_told() {
    let mut app = App::default();
    app.set_agent_name(0, "One");
    app.set_agent_identity(0, "one");
    app.set_agent_name(1, "Two");
    app.set_agent_identity(1, "two");
    app.apply_event(
        &AgentEvent::ModelsReplaced {
            slot: 1,
            config_id: "model".to_string(),
            models: words(&["small", "large"]),
            current_model: Some("small".to_string()),
        },
        moment(),
    );
    app.set_config_agents(vec![agent("two", "Two", true, true), agent("one", "One", true, true)]);
    app.handle_local_command("/agents");
    assert!(app.config_model_changes().is_empty());
    assert_eq!(app.handle_config_key(ConfigKey::NextValue, &no_modes()), ConfigAction::Changed);
    assert_eq!(app.config_agents()[0].model.as_deref(), Some("large"));
    assert_eq!(app.status, "Two model set to large");
    assert_eq!(app.config_model_changes(), [(1, "large".to_string())]);
    app.handle_config_key(ConfigKey::NextValue, &no_modes());
    assert_eq!(app.config_agents()[0].model.as_deref(), Some("small"));
    app.handle_config_key(ConfigKey::PreviousValue, &no_modes());
    app.apply_event(
        &AgentEvent::ModelUpdated { slot: 1, current_model: "large".to_string() },
        moment(),
    );
    assert!(app.config_model_changes().is_empty());
    app.handle_config_key(ConfigKey::Down, &no_modes());
    assert_eq!(app.handle_config_key(ConfigKey::NextValue, &no_modes()), ConfigAction::Ignored);
    assert_eq!(app.config_agents()[1].model, None);
    app.handle_config_key(ConfigKey::Cancel, &no_modes());
    assert_eq!(app.config_agents()[0].model, None);
}

#[test]
fn a_theme_is_chosen_saved_and_restored() {
    let mut app = toggled(13);
    assert_eq!(app.theme(), Theme::Light);
    press(&mut app, ConfigKey::Confirm, 1);
    assert_eq!(app.theme(), Theme::Dark);
    let mut fields = vec![];
    app.save_ui_preferences(&mut fields);
    let mut other = App::default();
    other.apply_preferences(&Json::Object(fields));
    assert_eq!(other.theme(), Theme::Dark);
    app.handle_config_key(ConfigKey::Cancel, &no_modes());
    assert_eq!(app.theme(), Theme::Terminal);
    other.load_ui_preferences(r#"{"ui":{"theme":"LIGHT"}}"#);
    assert_eq!(other.theme(), Theme::Light);
}

#[test]
fn an_error_is_not_replaced_by_readiness() {
    let mut app = App::default();
    app.set_agent_name(0, "Codex");
    app.set_agent_name(1, "Qwen");
    let ready = |slot| AgentEvent::Ready { slot, capabilities: AgentCapabilities::default() };
    app.apply_event(&ready(0), moment());
    assert_eq!(app.status, "ready");
    let failed =
        AgentEvent::Failed { slot: 0, started: false, detail: "no such program".to_string() };
    app.apply_event(&failed, moment());
    app.apply_event(&ready(1), moment());
    assert_eq!(app.status, "failed to start: no such program");
}

#[test]
fn agents_that_report_nothing_for_two_minutes_are_silent() {
    let second = 1_000_000_000;
    let mut app = App::default();
    app.set_agent_name(0, "Codex");
    let start = moment().now;
    assert_eq!(app.inactive_agent(start + 500 * second), None);
    app.apply_event(&AgentEvent::TurnStarted { slot: 0 }, moment());
    assert_eq!(app.inactive_agent(start + 119 * second), None);
    assert_eq!(app.inactive_agent(start + 120 * second), Some((0, 120 * second)));
    assert_eq!(
        app.banner(start + 125 * second),
        "Codex silent for 2:05 · /cancel or /reload"
    );
    let later = Moment { now: start + 100 * second, hour: 12, minute: 6 };
    app.apply_event(&text(0, "still here"), later);
    assert_eq!(app.inactive_agent(start + 219 * second), None);
    assert_eq!(app.inactive_agent(start + 221 * second), Some((0, 121 * second)));
    app.apply_event(&AgentEvent::TurnComplete { slot: 0 }, later);
    assert_eq!(app.inactive_agent(start + 900 * second), None);
    assert_eq!(app.banner(start + 900 * second), app.status);
}

#[test]
fn the_time_of_a_turn_starts_when_its_prompt_is_sent() {
    let second = 1_000_000_000;
    let mut app = App::default();
    app.set_agent_name(0, "Codex");
    app.set_agent_name(1, "Qwen");
    app.note_request(&AdapterControl::Cancel, 5 * second);
    app.note_request(&AdapterControl::Direct { slot: 7, prompt: "no one".to_string() }, second);
    assert_eq!(app.inactive_agent(900 * second), None);
    app.note_request(&AdapterControl::Queue { slot: 1, prompt: "go".to_string() }, 5 * second);
    assert_eq!(app.inactive_agent(124 * second), None);
    assert_eq!(app.inactive_agent(130 * second), Some((1, 125 * second)));
    let mut first = App::default();
    first.set_agent_name(0, "Codex");
    first.note_request(&AdapterControl::Prompt("go".to_string()), 0);
    assert_eq!(first.inactive_agent(120 * second), Some((0, 120 * second)));
}

#[test]
fn the_palette_shows_the_commands_that_were_begun() {
    let mut app = App::default();
    let shown = |app: &App, text: &str| {
        app.palette(text).into_iter().map(|row| row.command).collect::<Vec<_>>()
    };
    assert!(shown(&app, "").is_empty());
    assert!(shown(&app, "hello").is_empty());
    assert!(shown(&app, "/add codex").is_empty());
    assert_eq!(shown(&app, "/").len(), 23);
    assert_eq!(shown(&app, "/S"), ["/select", "/sessions", "/settings", "/status", "/summary", "/swap"]);
    assert_eq!(app.palette("/help")[0].description, "show keyboard and command help");
    app.apply_event(
        &AgentEvent::CommandsReplaced {
            slot: 0,
            commands: vec![AgentCommand { name: "review".to_string() }],
        },
        moment(),
    );
    assert_eq!(shown(&app, "/re"), ["/reload", "/resume", "/review"]);
    for row in local_palette() {
        let mut fresh = App::default();
        fresh.handle_local_command(&row.command);
        assert!(!fresh.status.starts_with("unknown command"), "{}", row.command);
    }
}

#[test]
fn goals_and_status_are_local_commands() {
    let mut app = App::default();
    assert_eq!(
        app.handle_local_command("/goal Fix login\nkeep sessions"),
        Some(LocalCommand::Goal(" Fix login\nkeep sessions".to_string()))
    );
    assert_eq!(app.handle_local_command("/status"), Some(LocalCommand::Status));
    assert_eq!(app.handle_local_command("/summary"), Some(LocalCommand::Summary));
    assert_eq!(app.handle_local_command("/sessions"), Some(LocalCommand::Sessions));
    assert_eq!(app.handle_local_command("/resume"), Some(LocalCommand::Resume));
}

#[test]
fn loops_are_local_commands() {
    let mut app = App::default();
    assert_eq!(
        app.handle_local_command(" /LOOP 5m check\n the build "),
        Some(LocalCommand::Loop(" 5m check\n the build".to_string()))
    );
    assert_eq!(app.handle_local_command("/loop"), Some(LocalCommand::Loop(String::new())));
    assert_eq!(app.status, "idle");
}

#[test]
fn protocol_state_is_removed_when_an_agent_is_dropped() {
    let mut app = App::default();
    app.set_agent_name(0, "Agent");
    app.set_prompt_completions(words(&["/help"]));
    app.apply_event(
        &AgentEvent::CommandsReplaced {
            slot: 0,
            commands: vec![AgentCommand { name: "review".to_string() }],
        },
        moment(),
    );
    app.apply_event(
        &AgentEvent::UsageUpdated { slot: 0, usage: UsageUpdate { used: 1, size: 2 } },
        moment(),
    );
    assert!(app.agent_usage(0).is_some());
    app.mark_agent_dropped(0);
    assert!(app.agent_usage(0).is_none());
    assert!(app.agent_commands().is_empty());
}

#[test]
fn streamed_user_message_chunks_share_one_transcript_block() {
    let mut app = App::default();
    app.set_agent_name(0, "ACP");
    for chunk in ["first ", "second"] {
        app.apply_event(&AgentEvent::UserText { slot: 0, text: chunk.to_string() }, moment());
    }
    assert_eq!(app.transcript.len(), 1);
    assert_eq!(app.transcript.viewport(80, 0, 4, 0)[0].text, "ACP: first second");
}

#[test]
fn local_shell_output_is_hidden_but_retained_for_export() {
    let mut app = App::default();
    app.apply_event(
        &AgentEvent::Terminal {
            slot: 0,
            event: TerminalEvent::Output {
                id: "local-shell".to_string(),
                text: "shell-ok".to_string(),
            },
        },
        moment(),
    );
    let rows = app.transcript.viewport(80, 0, 12, 0);
    assert!(rows.iter().all(|row| !row.text.contains("shell-ok")));
    assert!(app.export_markdown().contains("shell-ok"));
    assert!(app.export_markdown().contains("## Tool\n\n"));
    assert!(!app.export_markdown().contains("## Terminal"));
}

#[test]
fn appended_detail_remains_visible_at_the_tail_of_a_long_transcript() {
    let mut app = App::default();
    let long = (0..5_000).map(|n| format!("word{n}")).collect::<Vec<_>>().join(" ");
    app.transcript.append(BlockKind::Agent, &long, false);
    app.transcript.append(BlockKind::Notice, "tail-ok", false);
    app.follow_tail(80, 8);
    let tail = app.transcript.viewport(79, app.scroll_y, 8, 0);
    assert!(
        tail.iter().any(|row| row.text.contains("tail-ok")),
        "tail={tail:?}, scroll={}",
        app.scroll_y
    );
    let shown = app.transcript_lines(&tail, 80);
    assert!(shown
        .iter()
        .any(|line| line.pieces.iter().any(|piece| piece.text.contains("tail-ok"))));
}

#[test]
fn ready_event_preserves_human_readable_agent_name() {
    let mut app = App::default();
    app.set_agent_name(0, "Codex");
    app.apply_event(
        &AgentEvent::Ready { slot: 0, capabilities: AgentCapabilities::default() },
        moment(),
    );
    assert_eq!(app.active_agent, "Codex");
}

#[test]
fn duplicate_agent_names_are_numbered_and_keep_distinct_colors() {
    let mut app = App::default();
    app.set_agent_name(0, "Qwen");
    app.set_agent_name(1, "Qwen");

    assert_eq!(app.agent_name(0), "Qwen #1");
    assert_eq!(app.agent_name(1), "Qwen #2");
    assert_ne!(
        codeswarm::footer::agent_header_color(&app.agent_name(0)),
        codeswarm::footer::agent_header_color(&app.agent_name(1))
    );
    assert!(app.roster_summary().contains("Qwen #1"));
    assert!(app.roster_summary().contains("Qwen #2"));
}

#[test]
fn promoting_a_live_agent_moves_its_identity_and_marks_old_owner_dropped() {
    let mut app = App::default();
    app.set_agent_name(0, "Qwen");
    app.set_agent_name(1, "Codex");
    for slot in 0..2 {
        app.apply_event(
            &AgentEvent::Ready { slot, capabilities: AgentCapabilities::default() },
            moment(),
        );
    }

    assert!(app.promote_agent(1));
    assert_eq!(app.agent_name(0), "Codex");
    assert_eq!(app.agent_name(1), "Qwen");
    assert_eq!(app.roster.state(1), Some(AgentState::Dropped));
    assert_eq!(AgentState::Dropped.as_str(), "dropped");
    assert_eq!(app.active_agent, "Codex");
    assert!(!app.promote_agent(1));
}

#[test]
fn roster_ui_changes_only_after_a_confirmed_backend_update() {
    let mut app = App::default();
    app.set_agent_name(0, "Owner");
    app.set_agent_name(1, "Auditor");
    app.apply_event(
        &AgentEvent::RosterUpdated {
            update: RosterUpdate::Rejected {
                action: "promote agent 1".to_string(),
                detail: "old owner refused to stop".to_string(),
            },
        },
        moment(),
    );
    assert_eq!(app.agent_name(0), "Owner");
    assert_eq!(app.agent_name(1), "Auditor");
    app.apply_event(
        &AgentEvent::RosterUpdated { update: RosterUpdate::Promoted { from: 1 } },
        moment(),
    );
    assert_eq!(app.agent_name(0), "Auditor");
    assert_eq!(app.agent_name(1), "Owner");
    assert_eq!(app.active_roster_slots(), vec![0]);
}

#[test]
fn swapping_live_agents_moves_their_visible_state_without_touching_dropped_slots() {
    let mut app = App::default();
    app.set_agent_name(0, "Qwen");
    app.set_agent_name(1, "Codex");
    app.set_agent_name(2, "Gemini");
    app.mark_agent_dropped(2);
    assert!(app.swap_agents(0, 1));
    assert_eq!(app.agent_name(0), "Codex");
    assert_eq!(app.agent_name(1), "Qwen");
    assert!(!app.swap_agents(0, 2));
    assert_eq!(app.agent_name(2), "Gemini");
}

#[test]
fn local_commands_do_not_become_agent_prompts() {
    let mut app = App::default();
    assert_eq!(app.handle_local_command("/config"), Some(LocalCommand::Handled));
    assert_eq!(app.status, "configuration");
    assert!(app.config_visible());
    assert_eq!(
        app.handle_config_key(ConfigKey::Confirm, &no_modes()),
        ConfigAction::Changed
    );
    assert!(!app.follow_tail);
    assert_eq!(
        app.handle_config_key(ConfigKey::Cancel, &no_modes()),
        ConfigAction::Cancel
    );
    assert_eq!(app.handle_local_command("/close"), Some(LocalCommand::Close));
    assert_eq!(app.handle_local_command("ordinary text"), None);
}

#[test]
fn commands_update_mode_and_collaboration_without_agent_dispatch() {
    let mut app = App::default();
    assert_eq!(app.handle_local_command("/mode chat"), Some(LocalCommand::Mode));
    assert_eq!(app.mode(), "Chat");
    assert_eq!(
        app.handle_local_command("/collab manual"),
        Some(LocalCommand::Collaboration)
    );
    assert_eq!(app.collaboration(), "Manual routing");
    assert_eq!(app.handle_local_command("/collab invalid"), Some(LocalCommand::Handled));
    assert_eq!(app.handle_local_command("/agents"), Some(LocalCommand::Handled));
    assert!(app.config_visible());
    app.handle_config_key(ConfigKey::Cancel, &no_modes());
    assert_eq!(
        app.handle_local_command("/add acp:auditor --acp"),
        Some(LocalCommand::Add("acp:auditor --acp".to_string()))
    );
    assert_eq!(app.handle_local_command("/drop"), Some(LocalCommand::Drop));
    assert_eq!(app.handle_local_command("/drop 2"), Some(LocalCommand::DropSlot(2)));
    assert_eq!(app.handle_local_command("/promote 2"), Some(LocalCommand::Promote(2)));
    assert_eq!(app.handle_local_command("/swap 0 2"), Some(LocalCommand::Swap(0, 2)));
    assert_eq!(app.handle_local_command("/to 12"), Some(LocalCommand::SelectAgent(12)));
    assert_eq!(app.handle_local_command("/select"), Some(LocalCommand::SelectText));
    assert_eq!(app.handle_local_command("/diff split"), Some(LocalCommand::Diff));
    assert!(app.diff_split());
}

fn press(app: &mut App, key: ConfigKey, times: usize) {
    for _ in 0..times {
        app.handle_config_key(key, &no_modes());
    }
}

#[test]
fn cancelling_configuration_restores_mode_and_collaboration() {
    let mut app = App::default();
    app.handle_local_command("/config");
    press(&mut app, ConfigKey::Confirm, 1);
    assert!(!app.follow_tail);
    press(&mut app, ConfigKey::Down, 3);
    press(&mut app, ConfigKey::Confirm, 1);
    press(&mut app, ConfigKey::Down, 1);
    press(&mut app, ConfigKey::Confirm, 1);
    assert_ne!(app.mode(), "Auto pilot");
    assert_ne!(app.collaboration(), "Roster relay");
    assert_eq!(
        app.handle_config_key(ConfigKey::Cancel, &no_modes()),
        ConfigAction::Cancel
    );
    assert_eq!(app.mode(), "Auto pilot");
    assert_eq!(app.collaboration(), "Roster relay");
    assert!(app.follow_tail);
}

#[test]
fn advertised_mode_catalog_drives_the_config_mode_cycle() {
    let mut app = App::default();
    app.apply_event(
        &AgentEvent::ModesReplaced {
            slot: 0,
            modes: vec![
                Mode { id: "plan".to_string(), label: "Plan".to_string() },
                Mode { id: "full-access".to_string(), label: "Auto pilot".to_string() },
            ],
            current_mode: Some("full-access".to_string()),
        },
        moment(),
    );
    // What the agents share, under the policies that stand for the modes.
    let shared = vec![
        Mode { id: "codeswarm:mode:plan".to_string(), label: "Plan".to_string() },
        Mode { id: "codeswarm:mode:full-access".to_string(), label: "Auto pilot".to_string() },
    ];
    app.handle_local_command("/config");
    for _ in 0..3 {
        app.handle_config_key(ConfigKey::Down, &shared);
    }
    assert_eq!(app.handle_config_key(ConfigKey::Confirm, &shared), ConfigAction::Changed);
    assert_eq!(app.mode(), "Plan");
    assert_eq!(app.take_requested_mode(), Some("codeswarm:mode:plan".to_string()));
}

#[test]
fn config_roster_rows_toggle_and_reorder_without_losing_selection() {
    let mut app = App::default();
    app.set_config_agents(vec![
        agent("one.example", "One", true, true),
        agent("two.example", "Two", true, false),
    ]);
    app.handle_local_command("/config");
    press(&mut app, ConfigKey::Down, 15);
    assert_eq!(
        app.handle_config_key(ConfigKey::Confirm, &no_modes()),
        ConfigAction::Changed
    );
    assert_eq!(app.config_roster_identities(), ["one.example", "two.example"]);
    assert!(app.config_roster_dirty());
    assert_eq!(
        app.handle_config_key(ConfigKey::MoveUp, &no_modes()),
        ConfigAction::Changed
    );
    assert_eq!(app.config_roster_identities(), ["two.example", "one.example"]);
    assert_eq!(app.handle_config_key(ConfigKey::Save, &no_modes()), ConfigAction::Save);
    assert!(!app.config_visible());
}

fn toggled(row: usize) -> App {
    let mut app = App::default();
    app.handle_local_command("/config");
    press(&mut app, ConfigKey::Down, row);
    assert_eq!(
        app.handle_config_key(ConfigKey::Confirm, &no_modes()),
        ConfigAction::Changed
    );
    app
}

#[test]
fn notification_preference_is_a_persistent_config_value() {
    let app = App::default();
    assert!(app.notifications_enabled());
    assert_eq!(app.notification_policy().as_str(), "blur");
    let app = toggled(2);
    assert!(app.notifications_enabled());
    assert_eq!(app.notification_policy().as_str(), "always");
}

#[test]
fn system_notifications_are_disabled_while_terminal_is_focused() {
    let mut app = App::default();
    assert!(app.terminal_focused());
    app.set_terminal_focused(false);
    assert!(!app.terminal_focused());
    app.set_terminal_focused(true);
    assert!(app.terminal_focused());
}

#[test]
fn notification_policy_preserves_python_blur_always_never_semantics() {
    let mut app = App::default();
    assert_eq!(app.notification_policy().as_str(), "blur");
    assert!(!app.should_notify_system());

    app.set_notification_policy("blur");
    assert!(!app.should_notify_system());
    app.set_terminal_focused(false);
    assert!(app.should_notify_system());

    app.set_notification_policy("always");
    app.set_terminal_focused(true);
    assert!(app.should_notify_system());

    app.set_notification_policy("invalid");
    assert!(!app.should_notify_system());
}

#[test]
fn terminal_title_alerts_are_reference_counted_and_sanitized() {
    let mut app = App::default();
    app.set_header("agent\nwith\tescape", "idle");
    assert_eq!(app.terminal_title(), "✈ agentwithescape · CodeSwarm");
    assert!(!app.terminal_alert_active());

    app.terminal_alert(true);
    app.terminal_alert(true);
    assert!(app.terminal_alert_active());
    app.toggle_terminal_title_blink();
    assert_eq!(app.terminal_title(), "👉 agentwithescape · CodeSwarm");
    app.terminal_alert(false);
    assert!(app.terminal_alert_active());
    app.terminal_alert(false);
    assert!(!app.terminal_alert_active());
    assert!(!app.terminal_title_blink());
    assert_eq!(app.terminal_title(), "✈ agentwithescape · CodeSwarm");
}

#[test]
fn blink_title_is_a_persistent_config_toggle() {
    assert!(App::default().blink_title_enabled());
    let mut app = toggled(11);
    assert!(!app.blink_title_enabled());
    app.terminal_alert(true);
    app.toggle_terminal_title_blink();
    assert!(!app.terminal_title_blink());
}

#[test]
fn detail_preferences_control_thought_and_tool_initial_visibility() {
    let mut app = toggled(6);
    press(&mut app, ConfigKey::Down, 1);
    assert_eq!(
        app.handle_config_key(ConfigKey::Confirm, &no_modes()),
        ConfigAction::Changed
    );
    assert!(app.thoughts_enabled());
    assert!(app.tools_expanded());
    app.apply_event(
        &AgentEvent::Thought { slot: 0, text: "thinking".to_string() },
        moment(),
    );
    assert!(app.transcript.row_count(80) > 0);
    app.apply_event(&tool("tool", "Run", ToolStatus::Completed, Some("detail")), moment());
    assert!(app.transcript.row_count(80) > 1);
}

#[test]
fn scrollbar_preference_toggles_the_cached_indicator() {
    assert!(App::default().scrollbar_visible());
    assert!(!toggled(9).scrollbar_visible());
}

#[test]
fn sound_preference_is_separate_from_completion_notifications() {
    assert!(App::default().sounds_enabled());
    assert!(App::default().notifications_enabled());
    let app = toggled(10);
    assert!(!app.sounds_enabled());
    assert!(app.notifications_enabled());
}

#[test]
fn density_is_a_stable_setting_and_compact_limits_prompt_height() {
    let mut app = App::default();
    app.prompt_editor.set_text("one\ntwo\nthree\nfour");
    let comfortable_height = app.content_height(24);
    assert_eq!(app.density(), "comfortable");
    app.set_density("compact");
    assert_eq!(app.density(), "compact");
    assert!(app.content_height(24) > comfortable_height);
    app.set_density("unknown-value");
    assert_eq!(app.density(), "comfortable");
}

#[test]
fn clear_command_resets_streaming_detail_state() {
    let mut app = App::default();
    app.apply_event(&text(0, "in progress"), moment());
    assert_eq!(app.transcript.len(), 1);
    assert_eq!(app.handle_local_command("/clear"), Some(LocalCommand::Handled));
    assert!(app.transcript.is_empty());
    app.apply_event(&text(0, "fresh"), moment());
    assert_eq!(app.transcript.len(), 1);
    let rows = app.transcript.viewport(80, 0, 10, 0);
    assert!(rows[0].text.starts_with("Agent 0: ["));
    assert!(rows[0].text.ends_with(']'));
    assert_eq!(rows[1].text, "fresh");
}

#[test]
fn agent_store_selects_reorders_and_launches_a_roster() {
    let mut app = App::default();
    app.show_store(vec![
        agent("one.example", "One", true, false),
        agent("two.example", "Two", true, false),
    ]);
    assert_eq!(app.handle_store_key(StoreKey::Toggle), StoreAction::Changed);
    assert_eq!(app.handle_store_key(StoreKey::Save), StoreAction::Save(vec![0]));
    assert_eq!(app.handle_store_key(StoreKey::Down), StoreAction::Changed);
    assert_eq!(app.handle_store_key(StoreKey::Toggle), StoreAction::Changed);
    assert_eq!(app.handle_store_key(StoreKey::MoveUp), StoreAction::Changed);
    assert_eq!(
        app.handle_store_key(StoreKey::Confirm),
        StoreAction::Launch(vec![0, 1])
    );
    assert!(!app.store_visible());
    assert_eq!(app.store_agents()[0].identity, "two.example");
}

#[test]
fn agent_store_keeps_undetected_rosters_open_with_actionable_feedback() {
    let mut app = App::default();
    app.show_store(vec![agent("missing.example", "Missing Agent", false, true)]);

    assert_eq!(app.handle_store_key(StoreKey::Confirm), StoreAction::Changed);
    assert!(app.store_visible());
    assert_eq!(app.store.status(), "Not detected: Missing Agent");
}

#[test]
fn empty_agent_store_can_always_be_closed() {
    let mut app = App::default();
    app.show_store(Vec::new());
    assert_eq!(app.handle_store_key(StoreKey::Cancel), StoreAction::Close);
    assert!(!app.store_visible());
}

#[test]
fn store_directory_editor_accepts_a_new_workspace() {
    let mut app = App::default();
    app.show_store(vec![agent("agent.example", "Agent", true, false)]);
    app.set_store_directory("");
    app.begin_store_directory_edit();
    for character in "/tmp".chars() {
        app.handle_store_directory_input(key(Key::Char(character)));
    }
    assert_eq!(
        app.handle_store_directory_input(key(Key::Enter)),
        StoreAction::Directory("/tmp".to_string())
    );
    assert_eq!(app.store_directory(), "/tmp");
    assert!(!app.store_editing_directory());
}

#[test]
fn streamed_chunks_keep_one_slack_style_timestamp() {
    let mut app = App::default();
    app.apply_event(&text(0, "first "), moment());
    app.apply_event(&text(0, "second"), moment());
    assert_eq!(app.transcript.len(), 1);
    let rows = app.transcript.viewport(80, 0, 10, 0);
    let timestamp = rows[0]
        .text
        .strip_prefix("Agent 0: [")
        .and_then(|value| value.strip_suffix(']'))
        .expect("agent message includes one timestamp");
    assert_eq!(timestamp, "12:05");
    assert_eq!(rows[1].text, "first second");
    app.apply_event(&AgentEvent::TurnComplete { slot: 0 }, moment());
    app.apply_event(&text(0, "next turn"), moment());
    assert_eq!(app.transcript.len(), 2);
}

#[test]
fn streamed_thoughts_extend_one_detail_for_each_turn() {
    let mut app = App::default();
    for chunk in ["first ", "second"] {
        app.apply_event(&AgentEvent::Thought { slot: 0, text: chunk.to_string() }, moment());
    }
    assert_eq!(app.transcript.len(), 1);
    assert_eq!(app.status, "thinking");
    let thought = app.transcript.viewport(120, 0, 2, 0);
    assert_eq!(thought[0].text, "Agent 0: [12:05]");
    assert_eq!(thought[1].text, "first second");
    app.apply_event(&AgentEvent::TurnComplete { slot: 0 }, moment());
    app.apply_event(&AgentEvent::Thought { slot: 0, text: "new turn".to_string() }, moment());
    assert_eq!(app.transcript.len(), 2);
}

#[test]
fn ordinary_tool_details_are_export_only() {
    let mut app = App::default();
    app.apply_event(
        &tool("tool-1", "Run tests", ToolStatus::Completed, Some("large output\nsecond line")),
        moment(),
    );
    assert_eq!(app.transcript.row_count(80), 0);
    assert_eq!(app.toggle_focused_detail(), None);
    assert!(app.export_markdown().contains("large output\nsecond line"));
}

#[test]
fn tool_expand_policy_never_makes_tool_activity_multiline() {
    let run = |status| tool("tool", "Run", status, Some("line one\nline two"));
    let mut app = App::default();
    app.apply_event(&run(ToolStatus::Completed), moment());
    assert_eq!(app.transcript.row_count(80), 0);
    let mut failed = App::default();
    failed.apply_event(&run(ToolStatus::Failed), moment());
    assert_eq!(failed.transcript.row_count(80), 0);

    let mut always = App::default();
    always.set_tool_expand_policy("always");
    always.apply_event(&run(ToolStatus::Completed), moment());
    assert_eq!(always.transcript.row_count(80), 0);

    let mut never = App::default();
    never.set_tool_expand_policy("never");
    never.apply_event(&run(ToolStatus::Failed), moment());
    assert_eq!(never.transcript.row_count(80), 0);
}

#[test]
fn tool_diff_payload_is_retained_and_classified_lazily() {
    let mut app = App::default();
    app.apply_event(
        &tool(
            "patch",
            "Apply patch",
            ToolStatus::Completed,
            Some("--- a/file.rs\n+++ b/file.rs\n@@ -1 +1 @@\n-old\n+new"),
        ),
        moment(),
    );
    let rows = app.transcript.viewport(80, 0, 4, 0);
    assert_eq!(rows.len(), 1);
    assert_eq!(rows[0].kind, BlockKind::Diff);
    assert!(rows[0].text.contains("Diff"));
    assert_eq!(app.toggle_focused_detail(), Some(false));
    assert!(app.transcript.row_count(80) > 1);
    app.set_diff_split(true);
    let opened = app.transcript.viewport(80, 0, 12, 0);
    assert!(codeswarm::screen::split_view(&opened, app.diff_split()));
    let (original, updated) = codeswarm::screen::diff_titles();
    assert!(original.contains("original"));
    assert!(updated.contains("updated"));
}

#[test]
fn permission_selection_returns_stable_request_identity() {
    let mut app = App::default();
    app.apply_event(
        &permission(
            2,
            "permission-7",
            &["Allow once", "Always allow", "Deny"],
            &["allow-once", "always", "deny"],
        ),
        moment(),
    );

    assert_eq!(app.permission.as_ref().map(|request| request.slot), Some(2));
    assert_eq!(
        app.handle_permission_key(PermissionKey::Down),
        PermissionAction::SelectionChanged { index: 1 }
    );
    assert_eq!(
        app.handle_permission_key(PermissionKey::Down),
        PermissionAction::SelectionChanged { index: 2 }
    );
    assert_eq!(
        app.handle_permission_key(PermissionKey::Confirm),
        PermissionAction::Answer {
            slot: 2,
            request_id: "permission-7".to_string(),
            option_index: 2,
            option: "Deny".to_string(),
            option_id: "deny".to_string(),
        }
    );
    assert!(app.permission.is_none());
}

#[test]
fn replacement_permission_resets_focus_and_cancel_clears_it() {
    let mut app = App::default();
    app.apply_event(&permission(0, "first", &["one", "two"], &[]), moment());
    assert_eq!(
        app.handle_permission_key(PermissionKey::Down),
        PermissionAction::SelectionChanged { index: 1 }
    );
    app.apply_event(&permission(1, "replacement", &["only choice"], &[]), moment());
    assert_eq!(
        app.permission.as_ref().map(|request| request.selected_index()),
        Some(0)
    );
    assert_eq!(
        app.handle_permission_key(PermissionKey::Cancel),
        PermissionAction::Cancel { slot: 1, request_id: "replacement".to_string() }
    );
    assert!(app.permission.is_none());
}

#[test]
fn permission_without_options_cannot_be_confirmed() {
    let mut app = App::default();
    app.apply_event(&permission(0, "empty", &[], &[]), moment());
    assert_eq!(
        app.handle_permission_key(PermissionKey::Confirm),
        PermissionAction::Ignored
    );
    assert!(app.permission.is_some());
}

#[test]
fn queued_prompts_are_selectable_and_cancellable() {
    let mut app = App::default();
    let first = app.queue_prompt("first review", Some(1), false).expect("first prompt id");
    let second = app.queue_prompt("private check", Some(2), true).expect("second prompt id");
    assert_eq!(app.queued_count(), 2);
    assert_eq!(app.selected_queue_index(), Some(1));
    assert_eq!(app.next_queued_prompt().map(|prompt| prompt.id), Some(first));

    assert_eq!(app.move_queue_selection(-1), Some(0));
    assert_eq!(app.cancel_selected_queued().map(|prompt| prompt.id), Some(first));
    assert_eq!(app.queued_count(), 1);
    assert_eq!(app.selected_queue_index(), Some(0));
    assert_eq!(
        app.remove_queued_prompt(second).map(|prompt| prompt.prompt),
        Some("private check".to_string())
    );
    assert_eq!(app.queued_count(), 0);
    assert_eq!(app.selected_queue_index(), None);
}

#[test]
fn follow_tail_stops_moving_when_scrolled_and_end_restores_it() {
    let mut app = App::default();
    let long = (0..500).map(|n| format!("word{n}")).collect::<Vec<_>>().join(" ");
    app.transcript.append(BlockKind::Agent, &long, false);
    app.follow_tail(80, 10);
    let tail = app.scroll_y;
    assert_eq!(tail, app.transcript.row_count(79).saturating_sub(10));
    assert!(app.follow_tail);
    app.scroll_by(-1, 80, 10);
    assert!(!app.follow_tail);
    let scrolled = app.scroll_y;
    app.transcript.append(BlockKind::Agent, "new response", false);
    assert_eq!(app.scroll_y, scrolled);
    app.follow_tail(80, 10);
    assert!(app.follow_tail);
    assert!(app.scroll_y >= tail);
    app.set_scrollbar_visible(false);
    app.follow_tail(80, 10);
    assert_eq!(app.scroll_y, app.transcript.row_count(80).saturating_sub(10));
    let base_height = app.content_height(24);
    app.queue_prompt("queued", Some(1), false);
    assert!(app.content_height(24) < base_height);
    app.toggle_keyboard_help();
    assert!(app.content_height(24) < base_height);
}

#[test]
fn settings_are_read_back_as_they_were_set() {
    let mut app = App::default();
    for flag in [true, false] {
        app.set_collapse_details(flag);
        assert_eq!(app.collapse_details(), flag);
        app.set_sounds_enabled(flag);
        assert_eq!(app.sounds_enabled(), flag);
        app.set_thoughts_enabled(flag);
        assert_eq!(app.thoughts_enabled(), flag);
        app.set_notifications_enabled(flag);
        assert_eq!(app.notifications_enabled(), flag);
        app.set_tools_expanded(flag);
        assert_eq!(app.tools_expanded(), flag);
        app.set_blink_title_enabled(flag);
        assert_eq!(app.blink_title_enabled(), flag);
    }
    for (set, read) in [("ALWAYS", "always"), ("never", "never"), ("other", "fail")] {
        app.set_tool_expand_policy(set);
        assert_eq!(app.tool_expand_policy(), read);
    }
    app.set_workspace_root("/work");
    let _ = app.take_index_requests();
    app.refresh_workspace_root("/other");
    let requests = app.take_index_requests();
    assert!(matches!(requests.as_slice(), [IndexRequest::Rescan { .. }]));
    assert!(app.queued_prompts().is_empty());
}
