use codeswarm::app::{App, Moment};
use codeswarm::commands::LocalCommand;
use codeswarm::config::ConfigKey;
use codeswarm::events::{
    AgentCapabilities, AgentEvent, PermissionRequest, ToolStatus, ToolUpdate, UsageUpdate,
};
use codeswarm::footer::{
    agent_header_color, agent_slot_color, format_turn_elapsed, FooterAction,
};
use codeswarm::labels::{
    actionable_detail_preview, compact_cell_label, compact_label, compact_workspace_path,
};
use codeswarm::layout::BlockKind;
use codeswarm::markdown::{
    block_style, file_reference_spans, inline_text_spans, markdown_spans, markdown_style,
    marker_style, row_style,
};
use codeswarm::panels::{
    config_modal, keyboard_help_lines, path_match_spans, permission_lines, store_lines,
    store_modal, Area,
};
use codeswarm::path_index::{rank_matches, PathCandidate};
use codeswarm::screen::{on_thumb, scrollbar_thumb, split_diff, split_view, Screen};
use codeswarm::store::{StoreAgent, StoreKey};
use codeswarm::style::{
    accent, secondary_text, selected_style, thought_text, Color, Style, StyledLine, PANEL_BG,
    PRIMARY_TEXT, STATUS_BG, TRANSCRIPT_BG,
};
use codeswarm::theme::Theme;

const NOW: u64 = 100_000_000_000;
const SECOND: u64 = 1_000_000_000;

fn moment() -> Moment {
    Moment { now: NOW, hour: 12, minute: 5 }
}

fn agent(name: &str, available: bool) -> StoreAgent {
    StoreAgent {
        identity: "custom.example".to_string(),
        name: name.to_string(),
        adapter: "ACP".to_string(),
        command: "custom-agent --acp".to_string(),
        model: None,
        available,
        selected: false,
    }
}

fn plain(lines: &[StyledLine]) -> Vec<String> {
    lines
        .iter()
        .map(|line| line.pieces.iter().map(|piece| piece.text.as_str()).collect::<String>())
        .collect()
}

/// The rows of the conversation as they are drawn.
fn conversation(app: &mut App, width: u16, height: usize) -> Vec<String> {
    let content = app.transcript_content_width(usize::from(width));
    let rows = app.transcript.viewport(content, app.scroll_y, height, 0);
    plain(&app.transcript_lines(&rows, width))
}

/// The footer as it is drawn.
fn footer(app: &App, width: u16) -> String {
    let metrics = app.footer_metrics(width, NOW);
    let agents: String =
        app.footer_agent_spans(NOW).iter().map(|piece| piece.text.as_str()).collect();
    let path = app.footer_path_label(&metrics).unwrap_or_default();
    format!("{agents} {path} {}", app.footer_mode_text(&metrics))
}

#[test]
fn chrome_uses_adaptive_surfaces_and_one_teal_accent() {
    assert_eq!(TRANSCRIPT_BG, Color::Reset);
    assert_eq!(STATUS_BG, Color::Reset);
    assert_eq!(PANEL_BG, Color::Reset);
    assert_eq!(PRIMARY_TEXT, Color::Reset);
    assert_eq!(accent(), Color::Rgb(36, 184, 176));
    assert_eq!(thought_text(), Color::Rgb(142, 142, 147));
    assert_eq!(block_style(BlockKind::Human).fg, Some(accent()));
    assert_eq!(block_style(BlockKind::Thought).fg, Some(thought_text()));
    assert_eq!(block_style(BlockKind::Tool).fg, Some(Color::Gray));
    assert_eq!(block_style(BlockKind::Notice).fg, Some(thought_text()));
    assert_eq!(marker_style(BlockKind::Tool, "Run").fg, Some(Color::Yellow));
    assert_eq!(marker_style(BlockKind::Notice, "Wait").fg, Some(accent()));
    assert_eq!(selected_style().bg, None);
    assert!(selected_style().reversed);
}

#[test]
fn unified_diff_lines_use_add_delete_and_hunk_colors() {
    assert_eq!(row_style(BlockKind::Diff, "+added").fg, Some(Color::Green));
    assert_eq!(row_style(BlockKind::Diff, "-removed").fg, Some(Color::Red));
    assert_eq!(row_style(BlockKind::Diff, "@@ -1 +1 @@").fg, Some(Color::Cyan));
    assert_eq!(row_style(BlockKind::Diff, "+++ file").fg, Some(Color::Magenta));
}

#[test]
fn markdown_headings_keep_lightweight_visual_hierarchy() {
    assert_eq!(markdown_style(BlockKind::Agent, "## Summary").fg, Some(Color::Cyan));
    assert_eq!(markdown_style(BlockKind::Agent, "normal text").fg, Some(Color::Reset));
}

#[test]
fn markdown_inline_emphasis_and_fenced_code_are_styled_without_reflow() {
    let mut in_code = false;
    let spans = markdown_spans(BlockKind::Agent, "**bold** and `code`", &mut in_code);
    assert!(spans.iter().any(|span| span.text == "bold" && span.style.bold));
    assert!(spans
        .iter()
        .any(|span| span.text == "code" && span.style.fg == Some(Color::LightYellow)));
    let _ = markdown_spans(BlockKind::Agent, "```rust", &mut in_code);
    let code = markdown_spans(BlockKind::Agent, "let answer = 42;", &mut in_code);
    assert_eq!(code[0].style.fg, Some(Color::LightCyan));
    let mut in_code = false;
    let list = markdown_spans(BlockKind::Agent, "- item", &mut in_code);
    assert_eq!(list[0].text, "- ");
    assert_eq!(list[0].style.fg, Some(Color::LightYellow));
    let quote = markdown_spans(BlockKind::Agent, "> note", &mut in_code);
    assert_eq!(quote[0].style.fg, Some(Color::Cyan));
    let numbered = markdown_spans(BlockKind::Agent, "1. step", &mut in_code);
    assert_eq!(numbered[0].text, "1. ");
}

#[test]
fn markdown_links_tables_and_rules_have_lightweight_styles() {
    let mut in_code = false;
    let links = markdown_spans(
        BlockKind::Agent,
        "see [the guide](https://example.test/docs)",
        &mut in_code,
    );
    assert!(links.iter().any(|span| {
        span.text == "[the guide](https://example.test/docs)" && span.style.underlined
    }));
    assert_eq!(markdown_style(BlockKind::Agent, "| A | B |").fg, Some(Color::LightBlue));
    assert_eq!(markdown_style(BlockKind::Agent, "---").fg, Some(Color::DarkGray));
}

#[test]
fn file_references_are_accented_with_line_suffix_attached() {
    let spans = file_reference_spans(Style::color(Color::White), "see src/main.rs:42 and README");
    assert_eq!(spans.len(), 3);
    assert_eq!(spans[0].text, "see ");
    assert_eq!(spans[1].text, "src/main.rs:42");
    assert!(spans[1].style.underlined && !spans[1].style.bold);
    assert_eq!(spans[2].text, " and README");
}

#[test]
fn file_references_inside_inline_code_are_not_restyled() {
    let mut in_code = false;
    let spans = markdown_spans(BlockKind::Agent, "`src/main.rs`", &mut in_code);
    assert_eq!(spans.len(), 1);
    assert!(!spans[0].style.underlined);
}

#[test]
fn path_picker_accents_the_fuzzy_match_offsets() {
    let found = rank_matches(
        "@main",
        &vec![PathCandidate { path: "src/main.rs".to_string(), directory: false }],
    );
    let spans = path_match_spans(&found[0].path, &found[0].offsets, false);
    assert!(spans.iter().any(|span| {
        span.text == "main" && span.style.fg == Some(Color::Yellow) && span.style.bold
    }));
    assert!(spans.iter().any(|span| span.text == ".rs"));
}

#[test]
fn long_history_draws_only_a_terminal_viewport() {
    let mut app = App::default();
    let long = (0..5_000).map(|n| format!("word{n}")).collect::<Vec<_>>().join(" ");
    app.transcript.append(BlockKind::Agent, &long, false);
    let shown = conversation(&mut app, 80, 24);
    assert!(shown.len() <= 24);
    assert!(shown.iter().any(|row| row.contains('w')));
}

#[test]
fn empty_transcript_stays_quiet() {
    let mut app = App::default();
    assert!(conversation(&mut app, 80, 24).is_empty());
}

#[test]
fn footer_omits_context_usage_on_mobile_friendly_layout() {
    let mut app = App::default();
    app.set_agent_name(0, "Qwen");
    app.apply_event(
        &AgentEvent::UsageUpdated { slot: 0, usage: UsageUpdate { used: 4_200, size: 128_000 } },
        moment(),
    );
    app.active_agent = "Qwen".to_string();
    let shown = footer(&app, 100);
    assert!(!shown.contains("4.2K (3%)"), "shown={shown:?}");
    assert!(!shown.contains("128K"), "shown={shown:?}");
    assert_eq!(app.active_agent_usage(), Some(UsageUpdate { used: 4_200, size: 128_000 }));
}

#[test]
fn only_the_actionable_detail_advertises_ctrl_o() {
    let mut app = App::default();
    app.transcript.append(BlockKind::Thought, "old thought detail", true);
    let current = app.transcript.append(BlockKind::Thought, "current thought detail", true);
    app.focused_detail = Some(current);

    let rows = conversation(&mut app, 100, 9);
    assert!(rows
        .iter()
        .any(|row| row.contains("old thought detail") && !row.contains("Ctrl+O")));
    assert!(rows
        .iter()
        .any(|row| row.contains("current thought detail") && row.contains("Ctrl+O open")));
    assert_eq!(rows.iter().filter(|row| row.contains("Ctrl+O open")).count(), 1);

    assert_eq!(app.toggle_focused_detail(), Some(false));
    let opened = conversation(&mut app, 100, 9);
    assert!(opened.iter().all(|row| !row.contains("Ctrl+O open")));
}

#[test]
fn narrow_terminal_keeps_agents_mode_transcript_and_prompt_visible() {
    let mut app = App::default();
    app.set_agent_name(0, "Agent");
    app.set_header("Very Long Agent Name", "streaming");
    app.prompt = "check status".to_string();
    app.transcript.append(BlockKind::Agent, "response is visible", false);
    assert_eq!(app.screen(30, 6), Screen::Compact);
    let parts = app.compact_parts(Area { x: 0, y: 0, width: 30, height: 6 });
    assert!(parts.transcript.is_some());
    assert!(parts.prompt.is_some());
    assert_eq!(parts.footer.y, 5);
    let shown = footer(&app, 30);
    assert!(shown.contains("Agent"), "shown={shown:?}");
    assert!(shown.contains("Auto"), "shown={shown:?}");
    assert!(conversation(&mut app, 30, 4).iter().any(|row| row.contains("response")));
}

#[test]
fn footer_matches_python_information_order_below_the_prompt() {
    let mut app = App::default();
    app.set_agent_name(0, "Qwen");
    app.set_agent_name(1, "Codex");
    app.set_selected_agent(Some(1));
    app.set_workspace_root("/work/codeswarm");
    app.set_collaboration("Roster relay");
    app.set_mode("Auto pilot");
    let shown = footer(&app, 120);
    assert!(shown.contains("Qwen"), "footer={shown:?}");
    assert!(shown.contains("→ ◌ Codex"), "footer={shown:?}");
    assert!(!shown.contains("… Qwen"), "footer={shown:?}");
    assert!(shown.contains("/work/codeswarm"), "footer={shown:?}");
    assert!(!shown.contains("Roster"), "footer={shown:?}");
    assert!(shown.contains("Auto pilot"), "footer={shown:?}");
    assert_eq!(app.prompt_message(), "How can I help you today?");
}

#[test]
fn footer_clicks_route_agents_and_open_configuration_controls() {
    let mut app = App::default();
    app.set_agent_name(0, "Gemini");
    app.set_agent_name(1, "Codex");
    app.set_selected_agent(Some(1));

    assert_eq!(app.footer_action(20, 120, NOW), FooterAction::SelectAgent(1));
    assert_eq!(app.footer_action(98, 120, NOW), FooterAction::Ignored);
    assert_eq!(app.footer_action(110, 120, NOW), FooterAction::OpenMode);

    app.set_collaboration("Pair review");
    assert_eq!(app.footer_action(3, 120, NOW), FooterAction::Ignored);
}

#[test]
fn footer_arrow_advances_and_persists_when_the_roster_is_idle() {
    let mut app = App::default();
    app.set_agent_name(0, "Qwen");
    app.set_agent_name(1, "Codex");
    assert_eq!(app.next_agent_slot(), Some(0));
    assert!(app.footer_agent_label(0, 2, NOW).contains("◌ Qwen"));
    app.apply_event(
        &AgentEvent::Ready { slot: 0, capabilities: AgentCapabilities::default() },
        moment(),
    );
    assert!(app.footer_agent_label(0, 2, NOW).contains("○ Qwen"));
    assert!(app.footer_agent_label(0, 2, NOW).starts_with("→ "));

    app.apply_event(&AgentEvent::TurnComplete { slot: 0 }, moment());
    assert_eq!(app.next_agent_slot(), Some(1));
    assert!(app.footer_agent_label(1, 2, NOW).starts_with("→ "));

    app.apply_event(&AgentEvent::TurnComplete { slot: 1 }, moment());
    assert_eq!(app.next_agent_slot(), Some(0));
    assert!(app.footer_agent_label(0, 2, NOW).starts_with("→ "));

    app.set_selected_agent(Some(1));
    assert!(app.footer_agent_label(1, 2, NOW).starts_with("→ "));
    app.set_selected_agent(None);
    assert!(app.footer_agent_label(0, 2, NOW).starts_with("→ "));
}

fn tool(id: &str, title: &str, status: ToolStatus, detail: Option<&str>) -> AgentEvent {
    AgentEvent::Tool {
        slot: 0,
        update: ToolUpdate {
            id: id.to_string(),
            title: title.to_string(),
            status,
            detail: detail.map(|text| text.to_string()),
        },
    }
}

#[test]
fn footer_timer_covers_the_whole_turn_and_wait_stays_out_of_transcript() {
    let later = NOW + 65 * SECOND;
    let mut app = App::default();
    app.set_agent_name(0, "Codex");
    app.set_agent_name(1, "Qwen");
    app.apply_event(
        &AgentEvent::Thought { slot: 0, text: "checking".to_string() },
        moment(),
    );
    assert_eq!(format_turn_elapsed(NOW, later), "1:05");
    assert!(app.footer_agent_label(0, 1, later).contains("Codex · 1:05"));
    let blocks_before_wait = app.transcript.len();

    for status in [ToolStatus::Running, ToolStatus::Completed] {
        app.apply_event(&tool("wait", "Wait", status, None), moment());
    }
    assert_eq!(app.transcript.len(), blocks_before_wait);
    assert!(app.footer_agent_label(0, 1, later).contains("· 1:05"));
    assert!(!app.footer_agent_label(0, 1, later).contains("tool"));

    app.apply_event(&tool("generic", "Tool call", ToolStatus::Completed, None), moment());
    assert_eq!(app.transcript.len(), blocks_before_wait);
    assert!(!app.footer_agent_label(0, 1, later).contains("tool"));

    for (id, title) in [("read", "Read files"), ("search", "Search code")] {
        app.apply_event(&tool(id, title, ToolStatus::Completed, Some("done")), moment());
    }
    assert!(app.footer_agent_label(0, 1, later).contains("· 2 tools"));

    app.apply_event(&AgentEvent::TurnComplete { slot: 0 }, moment());
    assert!(!app.footer_agent_label(0, 1, later).contains("1:05"));
    assert!(!app.footer_agent_label(0, 1, later).contains("tools"));
    assert_eq!(app.roster.turn_started(0), None);
}

#[test]
fn footer_geometry_uses_terminal_cell_width_for_unicode_names() {
    assert_eq!(compact_cell_label("智能体", 6), "智能体");
    assert_eq!(compact_cell_label("智能体", 5), "智能…");
    assert_eq!(compact_workspace_path("/very/long/work/codeswarm", 11), "…/codeswarm");

    let mut app = App::default();
    app.set_agent_name(0, "智能体");
    assert_eq!(app.footer_action(10, 80, NOW), FooterAction::SelectAgent(0));
}

#[test]
fn failure_status_stays_out_of_the_compact_footer() {
    let mut app = App::default();
    app.apply_event(
        &AgentEvent::Failed { slot: 0, started: true, detail: "connection lost".to_string() },
        moment(),
    );
    let shown = footer(&app, 80);
    assert!(!shown.contains("connection lost"));
    assert!(shown.contains("Auto pilot"));
    assert!(app.status.contains("/reload"));
}

#[test]
fn loaded_roster_names_are_visible_before_the_first_response() {
    let mut app = App::default();
    app.set_agent_name(0, "Qwen");
    app.set_agent_name(1, "Codex");
    app.set_header("CodeSwarm roster", "starting");
    let shown = footer(&app, 96);
    assert!(shown.contains("Qwen"), "shown={shown:?}");
    assert!(shown.contains("Codex"), "shown={shown:?}");
}

#[test]
fn agent_headers_use_deterministic_distinct_identity_colors() {
    assert_eq!(agent_header_color("Qwen"), agent_header_color("Qwen"));
    assert_ne!(agent_header_color("a"), agent_header_color("b"));
    assert_eq!(agent_slot_color(0), Color::Rgb(175, 82, 222));
    assert_eq!(agent_slot_color(1), Color::Rgb(217, 119, 6));
    assert_eq!(agent_slot_color(2), Color::Rgb(214, 58, 104));
    assert_eq!(agent_slot_color(3), Color::Rgb(36, 138, 61));
    for slot in 0..16 {
        let color = agent_slot_color(slot);
        assert!(
            !matches!(
                color,
                Color::Blue | Color::LightBlue | Color::Cyan | Color::LightCyan
            ) && color != accent()
        );
    }
}

#[test]
fn footer_and_transcript_use_the_same_slot_color_for_each_agent() {
    let mut app = App::default();
    app.set_agent_name(0, "Codex");
    app.set_agent_name(1, "Gemini");
    app.apply_event(&AgentEvent::Text { slot: 1, text: "review".to_string() }, moment());
    let content = app.transcript_content_width(96);
    let rows = app.transcript.viewport(content, 0, 14, 0);
    let lines = app.transcript_lines(&rows, 96);
    let header = lines
        .iter()
        .flat_map(|line| line.pieces.iter())
        .find(|piece| piece.text.contains("Gemini"))
        .expect("Gemini header");
    assert_eq!(header.style.fg, Some(agent_slot_color(1)));
    assert_ne!(header.style.fg, Some(agent_slot_color(0)));
    let footer = app.footer_agent_spans(NOW);
    let label =
        footer.iter().find(|piece| piece.text.contains("Gemini")).expect("Gemini label");
    assert_eq!(label.style.fg, Some(agent_slot_color(1)));
}

#[test]
fn config_panel_is_readable_and_does_not_render_the_transcript() {
    let mut app = App::default();
    let mut codex = agent("Codex", true);
    codex.selected = true;
    app.set_config_agents(vec![codex]);
    app.handle_local_command("/config");
    assert_eq!(app.screen(80, 24), Screen::Config);
    let panel = config_modal(Area { x: 0, y: 0, width: 80, height: 24 });
    let shown = plain(&app.config_lines(panel)).join("\n");
    for part in ["Configuration", "Follow output", "Collapse details", "Roster", "Codex", "Ctrl+S Save", "Esc Discard"] {
        assert!(shown.contains(part), "{part} in {shown:?}");
    }
    assert!(!shown.contains("No messages yet"));
}

#[test]
fn help_panel_lists_local_commands() {
    let mut app = App::default();
    assert_eq!(app.handle_local_command("/help"), Some(LocalCommand::Handled));
    assert!(app.keyboard_help_visible());
    let shown = keyboard_help_lines().join("\n");
    for part in ["/export", "/collab", "/mode", "/clear", "Esc / F1 / ? close"] {
        assert!(shown.contains(part), "{part} in {shown:?}");
    }
    assert_eq!(app.handle_local_command("/help"), Some(LocalCommand::Handled));
    assert!(!app.keyboard_help_visible());

    let mut mobile_app = App::default();
    mobile_app.handle_local_command("/help");
    let parts = mobile_app.compact_parts(Area { x: 0, y: 0, width: 32, height: 12 });
    let help = parts.help.expect("a place for the help");
    assert!(help.height >= 3);
    let first = keyboard_help_lines()[0].chars().take(usize::from(help.width)).collect::<String>();
    assert!(first.contains("Esc / F1 / ? close"), "shown={first:?}");
}

#[test]
fn agent_store_renders_clean_identity_without_launch_command() {
    let mut app = App::default();
    app.show_store(vec![agent("Custom Agent", false)]);
    assert_eq!(app.screen(72, 18), Screen::Store);
    let panel = store_modal(Area { x: 0, y: 0, width: 72, height: 18 });
    let shown = plain(&store_lines(&app.store, panel)).join("\n");
    assert!(shown.contains("Choose your agents"), "shown={shown:?}");
    assert!(shown.contains("Custom Agent"), "shown={shown:?}");
    assert!(shown.contains("not found"), "shown={shown:?}");
    assert!(!shown.contains("custom.example"), "shown={shown:?}");
    assert!(!shown.contains("custom-agent"), "shown={shown:?}");
}

#[test]
fn compact_config_and_store_surfaces_fit_a_mobile_sized_pane() {
    let area = Area { x: 0, y: 0, width: 32, height: 8 };
    let mut app = App::default();
    app.handle_local_command("/config");
    let panel = config_modal(area);
    let config = plain(&app.config_lines(panel)).join("\n");
    assert!(config.contains("Follow"), "shown={config:?}");
    assert!(config.contains("Ctrl+S Save"), "shown={config:?}");
    assert!(config.contains("Esc Discard"), "shown={config:?}");
    for _ in 0..12 {
        app.handle_config_key(ConfigKey::Down, &vec![]);
    }
    let scrolled = plain(&app.config_lines(panel)).join("\n");
    assert!(scrolled.contains("Roster"), "shown={scrolled:?}");
    assert!(scrolled.contains("Ctrl+S Save"), "shown={scrolled:?}");
    app.handle_config_key(ConfigKey::Cancel, &vec![]);
    app.show_store(vec![agent("Mobile Agent", true)]);
    let store = plain(&store_lines(&app.store, store_modal(area))).join("\n");
    assert!(store.contains("Mobile Agent"), "shown={store:?}");
    assert!(store.contains(" ready"), "shown={store:?}");
    assert!(!store.contains("Agentready"), "shown={store:?}");
    assert!(store.contains("save"), "shown={store:?}");
}

#[test]
fn large_agent_store_keeps_the_selected_row_visible() {
    let mut app = App::default();
    app.show_store((0..25).map(|index| agent(&format!("Agent {index}"), true)).collect());
    for _ in 0..24 {
        app.handle_store_key(StoreKey::Down);
    }
    let panel = store_modal(Area { x: 0, y: 0, width: 72, height: 18 });
    let shown = plain(&store_lines(&app.store, panel)).join("\n");
    assert!(shown.contains("Agent 24"), "shown={shown:?}");
}

#[test]
fn permission_prompt_renders_title_and_selected_option() {
    let mut app = App::default();
    app.apply_event(
        &AgentEvent::Permission {
            slot: 0,
            request: PermissionRequest {
                id: "permission-1".to_string(),
                title: "Run this command?".to_string(),
                options: vec!["Allow".to_string(), "Deny".to_string()],
                option_ids: Vec::new(),
            },
        },
        moment(),
    );
    let shown = plain(&permission_lines(app.permission.as_ref().expect("request"))).join("\n");
    assert!(shown.contains("permission: Run this command?"), "shown={shown:?}");
    assert!(shown.contains("▶ 1. Allow"), "shown={shown:?}");
    assert!(shown.contains("  2. Deny"), "shown={shown:?}");
}

#[test]
fn constrained_full_layout_keeps_permission_and_prompt_regions() {
    let mut app = App::default();
    app.prompt = "review this".to_string();
    app.queue_prompt("queued request", Some(1), false);
    app.apply_event(
        &AgentEvent::Permission {
            slot: 0,
            request: PermissionRequest {
                id: "permission".to_string(),
                title: "Allow operation?".to_string(),
                options: vec!["Allow".to_string(), "Deny".to_string()],
                option_ids: Vec::new(),
            },
        },
        moment(),
    );
    app.toggle_keyboard_help();
    let heights = app.screen_rows(40, 7);
    assert!(heights.permission > 0);
    assert!(heights.prompt > 0);
    assert!(
        heights.queue
            + heights.permission
            + heights.help
            + heights.picker
            + heights.prompt
            + heights.status
            <= 7
    );
}

#[test]
fn queue_and_keyboard_help_render_as_separate_inline_regions() {
    let mut app = App::default();
    app.queue_prompt("review queued changes", Some(1), false);
    assert!(app.toggle_keyboard_help());
    let heights = app.screen_rows(100, 30);
    assert!(heights.queue > 0);
    assert!(heights.help > 0);
    let queue = plain(&app.queue_lines()).join("\n");
    assert!(queue.contains("queue (1)"), "shown={queue:?}");
    assert!(queue.contains("review queued changes"), "shown={queue:?}");
    let help = keyboard_help_lines().join("\n");
    assert!(help.contains("Ctrl+K cancel queue"), "shown={help:?}");
    assert!(help.contains("End follow tail"), "shown={help:?}");
}

#[test]
fn scrolling_keeps_the_footer_on_the_last_physical_row() {
    let mut app = App::default();
    app.set_agent_name(0, "Codex");
    let long = (0..400).map(|index| format!("word{index}")).collect::<Vec<_>>().join(" ");
    app.transcript.append(BlockKind::Agent, &long, false);
    app.follow_tail(60, 6);
    let before = footer(&app, 60);

    let content_height = app.content_height(10);
    app.scroll_by(-3, 60, content_height);
    let after = footer(&app, 60);
    assert_eq!(before, after);
    assert!(after.contains("Codex"));

    app.set_mouse_selection_mode(true);
    assert!(footer(&app, 60).contains("Select text"));
}

#[test]
fn chat_headers_stand_above_the_turns() {
    let mut app = App::default();
    app.set_agent_name(0, "Codex");
    app.set_scrollbar_visible(false);
    app.transcript.append(BlockKind::Human, "You: hello", false);
    app.transcript.append(BlockKind::Thought, "Codex: [12:05] checking relay state", true);
    app.transcript.append(BlockKind::Tool, "Codex: Wait · completed", true);
    app.transcript.append(BlockKind::Agent, "Codex: [12:06] Hello from the agent", false);
    app.transcript.append(BlockKind::Agent, "Qwen: [12:07] Done and approved", false);
    let rows = conversation(&mut app, 80, 12);
    assert!(rows.iter().any(|row| row.contains("● Codex 12:05")), "rows={rows:?}");
    assert!(rows.iter().any(|row| row.contains("checking relay state")));
    assert!(rows.iter().any(|row| row.contains("  Hello from the agent")));
    assert_eq!(rows.iter().filter(|row| row.contains("Codex 12:")).count(), 1);
    assert!(rows.iter().all(|row| !row.contains("Wait · completed")));
    assert!(rows.iter().all(|row| !row.contains("Codex:")));
    assert!(rows.iter().all(|row| !row.contains("[12:")));
    let human = rows.iter().position(|row| row.contains("› You: hello")).expect("human row");
    let header = rows.iter().position(|row| row.contains("● Codex 12:05")).expect("header");
    assert_eq!(header, human + 2);
    assert!(rows[human + 1].trim().is_empty());
    assert!(rows.iter().any(|row| row.contains("● Qwen 12:07")));
}

#[test]
fn ordinary_tools_render_no_conversation_lines() {
    let mut app = App::default();
    app.transcript.append(BlockKind::Tool, "Read", true);
    app.transcript.append(BlockKind::Tool, "Search", true);
    app.transcript.append(BlockKind::Tool, "Run", true);
    let rendered = conversation(&mut app, 80, 8).concat();
    assert!(!rendered.contains("◆"), "rendered={rendered:?}");
    assert!(!rendered.contains("Read"), "rendered={rendered:?}");
    assert!(app.export_markdown().contains("## Tool\n\nRead"));
}

#[test]
fn diffs_can_be_shown_side_by_side() {
    let mut app = App::default();
    app.transcript.append(
        BlockKind::Diff,
        "--- a/file.rs\n+++ b/file.rs\n@@ -1 +1 @@\n-old\n+new",
        false,
    );
    app.set_diff_split(true);
    let rows = app.transcript.viewport(80, 0, 12, 0);
    assert!(split_view(&rows, app.diff_split()));
    assert!(!split_view(&rows, false));
    let (left, right) = split_diff(&rows);
    let left = plain(&left).join("\n");
    let right = plain(&right).join("\n");
    assert!(left.contains("old") && !left.contains("new"));
    assert!(right.contains("new") && !right.contains("-old"));
}

fn luminance(color: Color) -> f64 {
    let Color::Rgb(r, g, b) = color else { panic!("explicit palette color") };
    [r, g, b]
        .into_iter()
        .zip([0.2126, 0.7152, 0.0722])
        .map(|(v, weight)| {
            let v = f64::from(v) / 255.0;
            weight * if v <= 0.04045 { v / 12.92 } else { ((v + 0.055) / 1.055).powf(2.4) }
        })
        .sum()
}

#[test]
fn explicit_palettes_keep_text_readable_on_their_canvas() {
    for theme in [Theme::Light, Theme::Dark] {
        let bg = luminance(theme.color(Color::Reset, true));
        for role in [Color::Reset, accent(), secondary_text(), Color::Red, Color::Yellow]
            .into_iter()
            .chain((0..16).map(agent_slot_color))
        {
            let fg = luminance(theme.color(role, false));
            assert!((fg.max(bg) + 0.05) / (fg.min(bg) + 0.05) >= 4.5, "{theme:?} {role:?}");
        }
    }
    assert_eq!(Theme::from_setting("invalid"), Theme::Terminal);
    assert_eq!(Theme::Terminal.color(Color::Reset, true), Color::Reset);
    assert_eq!(Theme::from_setting(Theme::Dark.as_str()), Theme::Dark);
}

#[test]
fn labels_are_cut_to_their_width() {
    assert_eq!(compact_label("a long label", 6).chars().count(), 6);
    assert_eq!(compact_label("short", 6), "short");
    assert!(actionable_detail_preview("thought", 40).contains("Ctrl+O open"));
}

#[test]
fn the_thumb_of_the_scrollbar_stays_on_its_track() {
    let thumb = scrollbar_thumb(10, 100, 90, 10);
    assert_eq!(thumb, (9, 1));
    assert!(on_thumb(thumb, 9));
    assert!(!on_thumb(thumb, 0));
    assert_eq!(scrollbar_thumb(10, 100, 0, 10).0, 0);
}

#[test]
fn prose_marks_its_source_references() {
    let spans = inline_text_spans(Style::color(Color::White), "see src/main.rs:42");
    assert_eq!(spans.iter().map(|span| span.text.as_str()).collect::<String>(), "see src/main.rs:42");
    assert!(spans.iter().any(|span| span.text == "src/main.rs:42" && span.style.underlined));
}
