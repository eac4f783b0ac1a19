use codeswarm::app::{App, Moment};
use codeswarm::collaboration::limit_updates;
use codeswarm::editor::{Input, Key, PromptAction, PromptEditor};
use codeswarm::encoding::{byte_length, prefix_length, suffix_length};
use codeswarm::events::{AgentEvent, HistoryContent, ToolStatus, ToolUpdate};
use codeswarm::fixtures::five_thousand_word_reply;
use codeswarm::layout::{wrap, BlockKind};
use codeswarm::panels::{config_modal, directory_modal, inner, store_modal, Area};
use codeswarm::path_index::{IndexRequest, PathIndexUpdate};
use codeswarm::picker::PathPicker;
use codeswarm::queue::{PromptQueue, MAX_QUEUED_PROMPTS};
use codeswarm::roster::Roster;
use codeswarm::settings::{Density, NotificationPolicy, ToolExpandPolicy};
use codeswarm::slots::SlotTable;
use codeswarm::streams::StreamRecord;
use codeswarm::style::Color;
use codeswarm::text::{decimal_text, joined, parse_u64, split_at_char, to_chars, to_text, truncated};
use codeswarm::theme::Theme;
use codeswarm::transcript::Transcript;

fn moment() -> Moment {
    Moment { now: 10, hour: 1, minute: 2 }
}

#[test]
fn splitting_and_joining_keeps_the_text() {
    let text = to_chars("a,,b,c,");
    let parts = split_at_char(&text, ',');
    assert_eq!(parts.len(), 5);
    assert_eq!(to_text(&joined(&parts, ",")), "a,,b,c,");
    assert_eq!(decimal_text(18_446_744_073_709_551_615), "18446744073709551615");
    assert_eq!(parse_u64("42", 100), Some(42));
    assert_eq!(parse_u64("142", 100), None);
}

#[test]
fn prefixes_and_suffixes_fit_their_budget() {
    let text = to_chars("é漢🚀a");
    assert_eq!(byte_length("é漢🚀a"), 10);
    assert_eq!(prefix_length(&text, 5), 2);
    assert_eq!(prefix_length(&text, 8), 2);
    assert_eq!(prefix_length(&text, 9), 3);
    assert_eq!(suffix_length(&text, 4), 1);
    assert_eq!(suffix_length(&text, 5), 2);
}

#[test]
fn wrapped_rows_fit_and_keep_the_words() {
    let rows = wrap(&to_chars("one two three four"), 9);
    assert!(rows.iter().all(|row| row.len() <= 9));
    let words = rows.iter().map(to_text).collect::<Vec<_>>().join(" ");
    assert_eq!(
        words.split_whitespace().collect::<Vec<_>>(),
        ["one", "two", "three", "four"]
    );
}

#[test]
fn settings_survive_saving() {
    for policy in [NotificationPolicy::Never, NotificationPolicy::Blur, NotificationPolicy::Always] {
        assert_eq!(NotificationPolicy::from_setting(policy.as_str()), policy);
    }
    for density in [Density::Comfortable, Density::Compact] {
        assert_eq!(Density::from_setting(density.as_str()), density);
    }
    for policy in [ToolExpandPolicy::Fail, ToolExpandPolicy::Always, ToolExpandPolicy::Never] {
        assert_eq!(ToolExpandPolicy::from_setting(policy.as_str()), policy);
    }
    for theme in [Theme::Terminal, Theme::Light, Theme::Dark] {
        assert_eq!(Theme::from_setting(theme.as_str()), theme);
        assert_eq!(theme.next().next().next(), theme);
    }
}

#[test]
fn explicit_themes_have_a_canvas_of_their_own() {
    assert_eq!(Theme::Terminal.color(Color::Reset, true), Color::Reset);
    assert!(matches!(Theme::Light.color(Color::Reset, true), Color::Rgb(_, _, _)));
    assert!(matches!(Theme::Dark.color(Color::Reset, false), Color::Rgb(_, _, _)));
}

#[test]
fn slots_hold_what_was_put_there() {
    let mut table: SlotTable<StreamRecord> = SlotTable::new();
    table.slot(3).human = Some(7);
    table.slot(1).agent = Some(8);
    assert_eq!(table.len(), 2);
    assert_eq!(table.slot_at(0), 1);
    assert_eq!(table.get(3).and_then(|record| record.human), Some(7));
    assert_eq!(table.get(1).and_then(|record| record.human), None);
    assert!(table.get(2).is_none());
}

#[test]
fn swapping_agents_twice_restores_the_roster() {
    let mut roster = Roster::new();
    roster.set_agent_name(0, "Codex".to_string());
    roster.set_agent_name(2, "Qwen".to_string());
    roster.set_agent_identity(2, "qwen.ai".to_string());
    assert!(roster.swap_agents(0, 2));
    assert_eq!(roster.agent_name(0), "Qwen");
    assert_eq!(roster.agent_identity(0), Some("qwen.ai"));
    assert!(roster.swap_agents(0, 2));
    assert_eq!(roster.agent_name(0), "Codex");
    assert_eq!(roster.agent_identity(0), None);
    assert_eq!(roster.active_roster_slots(), [0, 2]);
    roster.agent_dropped(2);
    assert_eq!(roster.next_roster_slot_after(0), Some(0));
}

#[test]
fn queued_prompts_can_be_taken_back_and_are_bounded() {
    let mut queue = PromptQueue::new();
    let first = queue.queue_prompt("first".to_string(), None, false).expect("first");
    let taken = queue.remove(first).expect("taken");
    assert_eq!(taken.prompt, "first");
    assert_eq!(queue.len(), 0);
    assert_eq!(queue.queue_prompt("  ".to_string(), None, false), None);
    for index in 0..MAX_QUEUED_PROMPTS {
        assert!(queue.queue_prompt(format!("{index}"), None, false).is_some());
    }
    assert_eq!(queue.queue_prompt("more".to_string(), None, false), None);
}

#[test]
fn stale_results_do_not_open_the_picker() {
    let mut picker = PathPicker::new();
    picker.set_workspace();
    picker.look_for("@main");
    picker.rescan();
    let generation = picker
        .take_requests()
        .into_iter()
        .map(|request| match request {
            IndexRequest::Query { generation, .. } => generation,
            IndexRequest::Rescan { generation } => generation,
        })
        .max()
        .expect("requests");
    picker.update_all(vec![PathIndexUpdate::Matches {
        generation: generation + 1,
        query: "@main".to_string(),
        matches: vec![],
    }]);
    assert!(!picker.visible());
}

fn tool(status: ToolStatus) -> AgentEvent {
    AgentEvent::Tool {
        slot: 0,
        update: ToolUpdate {
            id: "read".to_string(),
            title: "Read files".to_string(),
            status,
            detail: Some("text".to_string()),
        },
    }
}

#[test]
fn tool_updates_stay_in_place() {
    let mut app = App::default();
    app.apply_event(&tool(ToolStatus::Running), moment());
    app.apply_event(&AgentEvent::Text { slot: 0, text: "answer".to_string() }, moment());
    let blocks = app.transcript.len();
    app.apply_event(&tool(ToolStatus::Completed), moment());
    assert_eq!(app.transcript.len(), blocks);
    assert!(app.export_markdown().contains("completed"));
}

#[test]
fn history_starts_no_turn_and_a_completed_turn_is_over() {
    let mut app = App::default();
    app.set_agent_name(0, "Codex");
    app.apply_event(
        &AgentEvent::History { slot: 0, content: HistoryContent::Tool(ToolUpdate {
            id: "old".to_string(),
            title: "Read".to_string(),
            status: ToolStatus::Running,
            detail: None,
        }) },
        moment(),
    );
    assert_eq!(app.roster.turn_started(0), None);
    app.apply_event(&AgentEvent::TurnStarted { slot: 0 }, moment());
    assert_eq!(app.roster.turn_started(0), Some(10));
    app.apply_event(&AgentEvent::TurnComplete { slot: 0 }, moment());
    assert_eq!(app.roster.turn_started(0), None);
    assert_eq!(app.roster.tool_count(0), 0);
}

#[test]
fn panels_stay_inside_the_terminal() {
    for (width, height) in [(0, 0), (3, 2), (32, 8), (80, 24), (300, 100)] {
        let area = Area { x: 0, y: 0, width, height };
        for panel in [config_modal(area), store_modal(area), directory_modal(area)] {
            assert!(panel.x + panel.width <= width);
            assert!(panel.y + panel.height <= height);
            let inside = inner(panel);
            assert!(inside.width <= panel.width && inside.height <= panel.height);
        }
    }
}

#[test]
fn the_parts_of_the_footer_fill_its_row() {
    let mut app = App::default();
    app.set_agent_name(0, "Codex");
    for width in [20, 60, 120] {
        let (agents, path, mode) =
            app.footer_areas(Area { x: 0, y: 9, width, height: 1 }, 10);
        assert!(agents.width + path.width + mode.width <= width);
        assert_eq!(agents.y, 9);
        assert_eq!(path.x, agents.x + agents.width);
        assert_eq!(mode.x, path.x + path.width);
    }
}

#[test]
fn scrolling_to_the_end_follows_again() {
    let mut app = App::default();
    let long = (0..300).map(|n| format!("word{n}")).collect::<Vec<_>>().join(" ");
    app.transcript.append(codeswarm::layout::BlockKind::Agent, &long, false);
    app.follow_tail(40, 5);
    app.scroll_by(-4, 40, 5);
    assert!(!app.follow_tail);
    app.scroll_by(100, 40, 5);
    assert!(app.follow_tail);
}

fn rows(transcript: &mut Transcript, width: usize) -> Vec<String> {
    let count = transcript.row_count(width);
    transcript.viewport(width, 0, count, 0).into_iter().map(|row| row.text).collect()
}

#[test]
fn rows_above_a_new_block_stay() {
    let mut transcript = Transcript::default();
    transcript.append(BlockKind::Human, "You: what is this?", false);
    transcript.append(BlockKind::Agent, "Codex: [09:30] a parser for the settings", false);
    let before = rows(&mut transcript, 12);
    transcript.append(BlockKind::Agent, "Qwen: [09:31] and a test", false);
    let after = rows(&mut transcript, 12);
    assert_eq!(after[..before.len()].to_vec(), before);
    assert!(after.iter().all(|row| row.chars().count() <= 12));
}

#[test]
fn collapsed_blocks_stay_small_at_any_width() {
    for (kind, most) in [(BlockKind::Thought, 2), (BlockKind::Diff, 1)] {
        for width in [1, 2, 7, 20, 200] {
            let mut transcript = Transcript::default();
            transcript.append(kind, five_thousand_word_reply().as_str(), true);
            let shown = rows(&mut transcript, width);
            assert!(!shown.is_empty() && shown.len() <= most);
            assert!(shown.iter().all(|row| row.chars().count() <= width));
        }
    }
}

#[test]
fn tools_are_hidden_but_exported() {
    for kind in [BlockKind::Tool, BlockKind::Activity, BlockKind::Terminal] {
        let mut transcript = Transcript::default();
        transcript.append(kind, "Read a file", false);
        assert!(rows(&mut transcript, 40).is_empty());
    }
    let mut transcript = Transcript::default();
    transcript.append(BlockKind::Tool, "Agent: [12:00] Read a file", true);
    assert_eq!(rows(&mut transcript, 40).len(), 2);
}

#[test]
fn nothing_is_left_of_a_text_cut_to_nothing() {
    assert_eq!(to_text(&truncated(&to_chars("text"), 0)), "");
    assert_eq!(to_text(&truncated(&to_chars("text"), 1)), "…");
    assert_eq!(to_text(&truncated(&to_chars("text"), 4)), "text");
}

#[test]
fn updates_are_limited_to_the_bytes_that_are_allowed() {
    let updates = vec!["🚀漢字".repeat(40), "é".repeat(40)];
    for limit in [62, 63, 64, 100] {
        let rendered = limit_updates(&updates, limit);
        assert!(rendered.len() <= limit, "{limit}");
        assert!(rendered.contains("omitted"));
    }
    assert_eq!(limit_updates(&vec!["one".to_string(), "two".to_string()], 62), "one\n\ntwo");
}

#[test]
fn erasing_gives_back_what_was_there() {
    let press = |editor: &mut PromptEditor, key: Key, shift: bool| {
        editor.handle_input(Input { key, ctrl: false, alt: false, shift })
    };
    let mut editor = PromptEditor::from_text("añb");
    press(&mut editor, Key::Left, false);
    for key in [Key::Char('x'), Key::Char('漢'), Key::Char(' ')] {
        assert_eq!(press(&mut editor, key, false), PromptAction::Changed);
        assert_eq!(press(&mut editor, Key::Backspace, false), PromptAction::Changed);
        assert_eq!(editor.text(), "añb");
    }
    assert_eq!(press(&mut editor, Key::Enter, true), PromptAction::Changed);
    assert_eq!(editor.text(), "añ\nb");
    press(&mut editor, Key::Backspace, false);
    assert_eq!(editor.text(), "añb");
    let control = |key: Key| Input { key, ctrl: true, alt: false, shift: false };
    let mut selecting = PromptEditor::from_text("ab");
    press(&mut selecting, Key::Left, true);
    assert_eq!(selecting.text(), "ab");
    selecting.handle_input(control(Key::Char('y')));
    assert_eq!(selecting.text(), "a");
    let mut long = PromptEditor::default();
    assert_eq!(long.preferred_height(80), 2);
    long.set_text(&"word ".repeat(400));
    assert_eq!(long.preferred_height(80), 8);
    let mut empty = PromptEditor::default();
    assert_eq!(press(&mut empty, Key::Backspace, false), PromptAction::Ignored);
    assert_eq!(press(&mut empty, Key::Esc, false), PromptAction::Ignored);
}
