use codeswarm::fixtures::{five_thousand_word_reply, hundred_turn_transcript};
use codeswarm::layout::BlockKind;
use codeswarm::transcript::Transcript;

#[test]
fn single_long_reply_is_viewport_bounded() {
    let mut transcript = Transcript::default();
    transcript.append(
        BlockKind::Agent,
        &five_thousand_word_reply(),
        false,
    );

    let total_rows = transcript.row_count(80);
    assert!(total_rows > 100);
    let rows = transcript.viewport(80, total_rows / 2, 24, 8);
    assert!(rows.len() <= 40);
    assert!(rows.iter().all(|row| row.block_id == 0));
}

#[test]
fn collapsed_detail_does_not_materialize_source_rows() {
    let mut transcript = Transcript::default();
    let id = transcript.append(
        BlockKind::Thought,
        &five_thousand_word_reply(),
        true,
    );
    assert_eq!(transcript.row_count(80), 2);
    assert!(transcript.set_collapsed(id, false));
    assert!(transcript.row_count(80) > 100);
}

#[test]
fn collapsed_detail_shows_the_latest_line_without_ui_actions() {
    let mut transcript = Transcript::default();
    transcript.append(
        BlockKind::Thought,
        "cargo build --release\nwarning: unused variable `x`\nfinished",
        true,
    );
    let rows = transcript.viewport(40, 0, 10, 0);
    assert_eq!(rows.len(), 2);
    assert!(rows[0].text.starts_with("cargo build"));
    assert!(rows[1].text.ends_with("finished"));
    assert!(rows.iter().all(|row| !row.text.contains("Ctrl+O")));
}

#[test]
fn collapsed_thought_preview_uses_two_rows_at_any_width() {
    let mut transcript = Transcript::default();
    transcript.append(
        BlockKind::Thought,
        &five_thousand_word_reply(),
        true,
    );
    for width in [20usize, 40, 80, 120] {
        assert_eq!(transcript.row_count(width), 2);
        let rows = transcript.viewport(width, 0, 10, 0);
        assert_eq!(rows.len(), 2);
        assert!(
            rows.iter().all(|row| row.text.chars().count() <= width),
            "overflow at {width}"
        );
    }
}

#[test]
fn thought_preview_scrolls_complete_lines_as_chunks_arrive() {
    let mut transcript = Transcript::default();
    let thought = transcript.append(BlockKind::Thought, "one two", true);
    let text = |transcript: &mut Transcript, width| {
        transcript
            .viewport(width, 0, 10, 0)
            .into_iter()
            .map(|row| row.text)
            .collect::<Vec<_>>()
    };
    assert_eq!(text(&mut transcript, 10), ["one two"]);
    transcript.extend(thought, " three");
    assert_eq!(text(&mut transcript, 10), ["one two", "three"]);
    transcript.extend(thought, " four");
    assert_eq!(text(&mut transcript, 10), ["one two", "three four"]);
    transcript.extend(thought, " five");
    assert_eq!(text(&mut transcript, 10), ["three four", "five"]);
    assert_eq!(text(&mut transcript, 20), ["one two three four", "five"]);
    assert_eq!(text(&mut transcript, 10), ["three four", "five"]);
    assert!(
        transcript
            .source(thought)
            .unwrap()
            .contains("one two three four five")
    );
    transcript.set_collapsed(thought, false);
    assert_eq!(text(&mut transcript, 10), ["one two", "three four", "five"]);
    transcript.replace(thought, BlockKind::Thought, "new", true);
    assert_eq!(text(&mut transcript, 10), ["new"]);
    let mut streamed = Transcript::default();
    let id = streamed.append(BlockKind::Thought, "", true);
    for ch in "one two three four five".chars() {
        streamed.extend(id, &ch.to_string());
        assert!(streamed.row_count(10) <= 2);
    }
    assert_eq!(text(&mut streamed, 10), ["three four", "five"]);
}

#[test]
fn thought_paragraph_breaks_do_not_clear_or_advance_preview_lines() {
    let mut transcript = Transcript::default();
    let id = transcript.append(BlockKind::Thought, "one two", true);
    let rows = |transcript: &mut Transcript| {
        transcript
            .viewport(10, 0, 10, 0)
            .into_iter()
            .map(|row| row.text)
            .collect::<Vec<_>>()
    };
    assert_eq!(rows(&mut transcript), ["one two"]);
    transcript.extend(id, "\n\n");
    assert_eq!(rows(&mut transcript), ["one two"]);
    transcript.extend(id, "three four");
    assert_eq!(rows(&mut transcript), ["one two", "three four"]);
    transcript.extend(id, "\n\n\n");
    assert_eq!(rows(&mut transcript), ["one two", "three four"]);
    transcript.extend(id, "five");
    assert_eq!(rows(&mut transcript), ["three four", "five"]);
    assert!(transcript.source(id).unwrap().contains("\n\n\n"));
    transcript.replace(id, BlockKind::Thought, "\n\nnew", true);
    assert_eq!(rows(&mut transcript), ["new"]);
}

#[test]
fn short_collapsed_thought_preview_uses_only_one_content_row() {
    let mut transcript = Transcript::default();
    transcript.append(BlockKind::Thought, "checking state", true);

    let rows = transcript.viewport(80, 0, 10, 0);
    assert_eq!(rows.len(), 1);
    assert_eq!(rows[0].text, "checking state");
}

#[test]
fn collapsed_empty_thought_leaves_a_row_for_its_icon() {
    let mut transcript = Transcript::default();
    transcript.append(BlockKind::Thought, "", true);
    let rows = transcript.viewport(80, 0, 10, 0);
    assert_eq!(rows.len(), 1);
    assert_eq!(rows[0].text, "");
    assert!(!rows[0].text.contains("Ctrl+O"));
}

#[test]
fn collapsed_thought_rolls_over_to_the_latest_rendered_line() {
    let mut transcript = Transcript::default();
    let source = (0..100)
        .map(|index| format!("word{index}"))
        .collect::<Vec<_>>()
        .join(" ");
    transcript.append(BlockKind::Thought, &source, true);

    let row = transcript
        .viewport(40, 0, 2, 0)
        .into_iter()
        .map(|row| row.text)
        .collect::<Vec<_>>()
        .join(" ");
    assert!(row.starts_with("word"), "row={row:?}");
    assert!(row.ends_with("word99"), "row={row:?}");
    assert!(!row.contains("word90 "), "row={row:?}");
}

#[test]
fn collapsed_thought_keeps_agent_and_timestamp_attribution() {
    let mut transcript = Transcript::default();
    transcript.append(
        BlockKind::Thought,
        "Codex: [12:05] checking the relay state",
        true,
    );
    let rows = transcript.viewport(120, 0, 2, 0);
    assert_eq!(rows.len(), 2);
    assert_eq!(rows[0].text, "Codex: [12:05]");
    assert_eq!(rows[1].text, "checking the relay state");
}

#[test]
fn attributed_long_thought_uses_one_header_and_two_preview_rows() {
    let mut transcript = Transcript::default();
    let thought = (0..30)
        .map(|index| format!("word{index}"))
        .collect::<Vec<_>>()
        .join(" ");
    transcript.append(
        BlockKind::Thought,
        &format!("Codex: [12:05] {thought}"),
        true,
    );

    let rows = transcript.viewport(80, 0, 10, 0);
    assert_eq!(rows.len(), 3);
    assert_eq!(rows[0].text, "Codex: [12:05]");
    assert!(rows[1].text.starts_with("word"));
    assert!(rows[2].text.ends_with("word29"));
}

#[test]
fn wait_activity_is_hidden_but_exports_retain_it() {
    let mut transcript = Transcript::default();
    transcript.append(BlockKind::Terminal, "Codex: Wait · completed", true);
    assert_eq!(transcript.row_count(80), 0);
    assert!(transcript.viewport(80, 0, 1, 0).is_empty());
    assert!(transcript.markdown().contains("Codex: Wait · completed"));
}

#[test]
fn one_agent_turn_uses_one_header_across_thought_wait_and_answer() {
    let mut transcript = Transcript::default();
    transcript.append(BlockKind::Thought, "Codex: [12:05] checking state", true);
    transcript.append(BlockKind::Terminal, "Codex: Wait · completed", true);
    transcript.append(BlockKind::Agent, "Codex: [12:06] final answer", false);

    let rows = transcript.viewport(120, 0, 10, 0);
    assert_eq!(rows.len(), 3);
    assert_eq!(rows[0].text, "Codex: [12:05]");
    assert_eq!(rows[1].text, "checking state");
    assert_eq!(rows[2].text, "final answer");
    assert_eq!(rows.iter().filter(|row| row.first_in_block).count(), 1);
}

#[test]
fn new_agent_header_has_one_blank_separator_after_human_text() {
    let mut transcript = Transcript::default();
    transcript.append(BlockKind::Human, "You: hello", false);
    transcript.append(BlockKind::Agent, "Codex: [12:05] hello back", false);

    let rows = transcript.viewport(120, 0, 10, 0);
    assert_eq!(rows.len(), 4);
    assert_eq!(rows[0].text, "You: hello");
    assert!(rows[1].text.is_empty());
    assert_eq!(rows[2].text, "Codex: [12:05]");
    assert_eq!(rows[3].text, "hello back");
}

#[test]
fn terminal_blocks_never_materialize_conversation_rows() {
    let mut transcript = Transcript::default();
    let first = transcript.append(BlockKind::Terminal, "created", true);
    let second = transcript.append(BlockKind::Terminal, "output", true);
    let third = transcript.append(BlockKind::Terminal, "exited\nverbose output", true);

    assert_eq!(transcript.row_count(120), 0);
    assert_eq!(transcript.block_row(120, first), Some(0));
    assert_eq!(transcript.block_row(120, second), Some(0));
    assert_eq!(transcript.block_row(120, third), Some(0));
    assert!(transcript.viewport(120, 0, 3, 0).is_empty());

    assert!(transcript.set_collapsed(third, false));
    assert_eq!(transcript.row_count(120), 0);
    assert!(transcript.markdown().contains("exited\nverbose output"));
}

#[test]
fn hidden_terminals_do_not_shift_visible_detail_positions() {
    let mut transcript = Transcript::default();
    transcript.append(BlockKind::Terminal, "created", true);
    let expanded = transcript.append(BlockKind::Terminal, "Visible output", false);
    transcript.append(BlockKind::Terminal, "exited", true);
    transcript.append(BlockKind::Thought, "Checking result", true);

    assert_eq!(transcript.row_count(120), 1);
    assert_eq!(transcript.block_row(120, expanded), Some(0));
}

#[test]
fn collapsed_tool_uses_one_header_and_one_sliding_preview_row() {
    let mut transcript = Transcript::default();
    transcript.append(
        BlockKind::Tool,
        "Codex: [12:05] Run tests · running\nfirst output line\nsecond output line\nthird output line",
        true,
    );

    let rows = transcript.viewport(48, 0, 10, 0);
    assert_eq!(rows[0].text, "Codex: [12:05]");
    assert_eq!(rows.len(), 2);
    assert!(rows[1].text.starts_with("…"));
    assert!(rows[1].text.ends_with("third output line"));
    assert!(rows[1..].iter().all(|row| row.kind == BlockKind::Tool));
}

#[test]
fn collapsed_notice_rows_are_truncated_when_width_is_tight() {
    let mut transcript = Transcript::default();
    transcript.append(BlockKind::Notice, "a long and unimportant notice", true);

    let rows = transcript.viewport(12, 0, 1, 0);
    assert_eq!(rows.len(), 1);
    assert_eq!(rows[0].text.chars().count(), 12);
}

#[test]
fn streaming_reuses_completed_rows_and_matches_full_layout_after_edits() {
    let mut transcript = hundred_turn_transcript();
    let active = transcript.append(BlockKind::Agent, "Qwen: [12:00] working", false);
    transcript.row_count(80);
    let original_text = transcript.cached_rows()[0].text.as_ptr();
    transcript.row_count(79);
    for _ in 0..50 {
        transcript.extend(active, " more");
        transcript.row_count(80);
        assert_eq!(transcript.cached_rows()[0].text.as_ptr(), original_text);
        transcript.row_count(79);
    }
    for (id, kind, text, collapsed) in [
        (
            active,
            BlockKind::Thought,
            "Codex: [12:01] another speaker",
            true,
        ),
        (0, BlockKind::Human, "replacement user message", false),
        (1, BlockKind::Terminal, "hidden terminal", false),
        (
            active,
            BlockKind::Agent,
            "Qwen: [12:02] final answer",
            false,
        ),
    ] {
        transcript.replace(id, kind, text, collapsed);
        let mut full = transcript.clone();
        full.invalidate_rows();
        for width in [80, 79, 20, 0, 79] {
            assert_eq!(
                transcript.viewport(width, 0, usize::MAX, 0),
                full.viewport(width, 0, usize::MAX, 0)
            );
            assert_eq!(
                transcript.block_row(width, active),
                full.block_row(width, active)
            );
        }
    }
}

#[test]
fn reordered_details_keep_stable_ids_and_cached_history() {
    let mut transcript = hundred_turn_transcript();
    let thought = transcript.append(BlockKind::Thought, "Agent: [12:00] reasoning", true);
    let tool = transcript.append(BlockKind::Tool, "Agent: [12:00] 🔧 Read · running", true);
    for width in [80, 79] {
        transcript.row_count(width);
    }
    let first_row = transcript.cached_rows()[0].text.as_ptr();
    let answer = transcript.append(BlockKind::Agent, "Agent: [12:00] answer", false);
    assert!(transcript.move_before(answer, thought));
    assert!(!transcript.move_before(u64::MAX, thought));
    assert!(!transcript.move_before(tool, u64::MAX));
    transcript.row_count(79);
    assert_eq!(transcript.cached_rows()[0].text.as_ptr(), first_row);
    assert!(transcript.extend(answer, " continued"));
    assert!(transcript.extend(thought, " newest"));
    assert!(transcript.replace(
        tool,
        BlockKind::Tool,
        "Agent: [12:00] 🔧 Read · completed",
        true
    ));
    assert!(transcript.set_collapsed(thought, false));
    for width in [80, 79, 30, 79] {
        let mut full = transcript.clone();
        full.invalidate_rows();
        assert_eq!(
            transcript.viewport(width, 0, usize::MAX, 0),
            full.viewport(width, 0, usize::MAX, 0)
        );
        assert!(transcript.block_row(width, answer) < transcript.block_row(width, thought));
        assert!(transcript.block_row(width, thought) < transcript.block_row(width, tool));
    }
}

#[test]
fn alternating_widths_reuse_both_layouts_and_invalidate_on_changes() {
    let mut transcript = hundred_turn_transcript();
    transcript.row_count(80);
    let wide = transcript.cached_rows().as_ptr();
    transcript.row_count(79);
    let narrow = transcript.cached_rows().as_ptr();
    for _ in 0..100 {
        transcript.row_count(80);
        assert_eq!(transcript.cached_rows().as_ptr(), wide);
        transcript.row_count(79);
        assert_eq!(transcript.cached_rows().as_ptr(), narrow);
    }
    transcript.clear();
    let id = transcript.append(BlockKind::Agent, "replacement", false);
    for width in [79, 80] {
        assert_eq!(transcript.viewport(width, 0, 10, 0)[0].text, "replacement");
    }
    assert!(transcript.extend(id, " streamed"));
    for width in [80, 79, 40, 0, 79] {
        let mut expected = Transcript::default();
        expected.append(BlockKind::Agent, "replacement streamed", false);
        assert_eq!(
            transcript.viewport(width, 0, 100, 0),
            expected.viewport(width, 0, 100, 0)
        );
    }
}

#[test]
fn repeated_scrolls_at_same_width_are_stable() {
    let mut transcript = hundred_turn_transcript();
    let total = transcript.row_count(80);
    let first = transcript.viewport(80, total / 3, 24, 8);
    let second = transcript.viewport(80, total / 3 + 1, 24, 8);
    assert!(first.len() <= 40);
    assert!(second.len() <= 40);
}

#[test]
fn streaming_extends_one_logical_block() {
    let mut transcript = Transcript::default();
    let id = transcript.append(BlockKind::Agent, "first", false);
    assert!(transcript.extend(id, " second"));
    assert_eq!(transcript.len(), 1);
    assert_eq!(transcript.viewport(80, 0, 10, 0)[0].text, "first second");
}

#[test]
fn markdown_export_preserves_logical_blocks_and_hidden_details() {
    let mut transcript = Transcript::default();
    transcript.append(BlockKind::Human, "review this", false);
    transcript.append(BlockKind::Thought, "internal detail", true);
    let markdown = transcript.markdown();
    assert!(markdown.starts_with("# CodeSwarm Conversation"));
    assert!(markdown.contains("## User\n\nreview this"));
    assert!(markdown.contains("## Thought\n\ninternal detail"));
}

#[test]
fn five_thousand_word_scroll_stays_under_the_interaction_budget() {
    let mut transcript = Transcript::default();
    transcript.append(
        BlockKind::Agent,
        &five_thousand_word_reply(),
        false,
    );
    let rows = transcript.row_count(80);
    let started = std::time::Instant::now();
    for scroll_y in (0..rows).step_by(3) {
        let viewport = transcript.viewport(80, scroll_y, 24, 8);
        assert!(viewport.len() <= 40);
    }
    assert!(
        started.elapsed() < std::time::Duration::from_millis(100),
        "cached 5k-word transcript scrolling exceeded 100ms"
    );
}
