use codeswarm::app::{App, Moment};
use codeswarm::config::ConfigKey;
use codeswarm::controls::{
    canonical_mode_policy, collaboration_strategy, consume_one_shot_route, control_for_permission,
    control_for_queued, finish_pending_cancellation, next_event_batch, normalize_selected_slot,
    should_apply_configured_models, AdapterControl, CollaborationStrategy, PermissionAnswer,
    MAX_EVENTS_PER_FRAME,
};
use codeswarm::direct::{sanitize_direct_event, stop_token};
use codeswarm::editor::{Input, Key};
use codeswarm::events::{AgentCapabilities, AgentEvent, RosterUpdate};
use codeswarm::json::parse_json;
use codeswarm::layout::BlockKind;
use codeswarm::permission::PermissionAction;
use codeswarm::queue::QueuedPrompt;
use codeswarm::relay::{
    after_turn, ask_directly, between_turns, during_turn, finish_cancelled_turn, refused_change,
    relay_goes_on, AdapterError, DirectStep, RelayStep, RosterChange, TurnControl,
};
use codeswarm::roster_sync::Reconciliation;
use codeswarm::store::StoreAgent;
use codeswarm::terminal_input::{
    apply_mouse_scroll, apply_navigation_scroll, mouse_scroll_delta, selection_window_over,
    terminal_capture_enabled_for, ConfigInputDecoder, MouseKind,
};

const NOW: u64 = 5_000_000_000;
const MILLI: u64 = 1_000_000;

fn moment() -> Moment {
    Moment { now: NOW, hour: 12, minute: 5 }
}

fn plain(key: Key) -> Input {
    Input { key, ctrl: false, alt: false, shift: false }
}

fn agent(identity: &str, name: &str, command: &str) -> StoreAgent {
    StoreAgent {
        identity: identity.to_string(),
        name: name.to_string(),
        adapter: "ACP".to_string(),
        command: command.to_string(),
        model: None,
        available: true,
        selected: true,
    }
}

fn seated(agents: &[(&str, &str)]) -> App {
    let mut app = App::default();
    for (slot, (name, identity)) in agents.iter().enumerate() {
        app.set_agent_name(slot, name);
        app.set_agent_identity(slot, identity);
    }
    app
}

/// The request that reconciliation makes, where it makes one.
fn requested(app: &App, pending_first: &mut Option<String>) -> Option<AdapterControl> {
    match app.reconcile_config_roster(pending_first) {
        Reconciliation::Request { control, .. } => Some(control),
        _ => None,
    }
}

#[test]
fn event_batches_leave_excess_adapter_updates_for_the_next_frame() {
    let mut pending = (0..=MAX_EVENTS_PER_FRAME).collect::<Vec<usize>>();
    let batch = next_event_batch(&mut pending);
    assert_eq!(batch.len(), MAX_EVENTS_PER_FRAME);
    assert_eq!(batch.first(), Some(&0));
    assert_eq!(batch.last(), Some(&(MAX_EVENTS_PER_FRAME - 1)));
    assert_eq!(pending, [MAX_EVENTS_PER_FRAME]);
}

#[test]
fn model_catalog_replacement_does_not_reapply_configuration() {
    assert!(should_apply_configured_models(&AgentEvent::Ready {
        slot: 1,
        capabilities: AgentCapabilities {
            supports_models: true,
            ..AgentCapabilities::default()
        },
    }));
    assert!(!should_apply_configured_models(&AgentEvent::ModelsReplaced {
        slot: 1,
        config_id: "model".to_string(),
        models: Vec::new(),
        current_model: None,
    }));
    assert!(!should_apply_configured_models(&AgentEvent::Ready {
        slot: 1,
        capabilities: AgentCapabilities::default(),
    }));
}

#[test]
fn terminal_capture_stays_disabled_for_multiplexers_when_tmux_is_stripped() {
    assert!(!terminal_capture_enabled_for(false, Some("screen-256color"), None));
    assert!(!terminal_capture_enabled_for(false, Some("xterm-256color"), Some("tmux")));
    assert!(!terminal_capture_enabled_for(true, Some("xterm-256color"), None));
    assert!(terminal_capture_enabled_for(false, Some("xterm-256color"), None));
}

#[test]
fn mouse_wheel_maps_to_bounded_transcript_steps() {
    assert_eq!(mouse_scroll_delta(MouseKind::ScrollUp), Some(-3));
    assert_eq!(mouse_scroll_delta(MouseKind::ScrollDown), Some(3));
    assert_eq!(mouse_scroll_delta(MouseKind::Other), None);
}

#[test]
fn selection_window_restores_mouse_capture_automatically() {
    let mut deadline = Some(NOW - MILLI);
    assert!(selection_window_over(&mut deadline, NOW));
    assert!(deadline.is_none());

    let mut future = Some(NOW + 1000 * MILLI);
    assert!(!selection_window_over(&mut future, NOW));
    assert!(future.is_some());
}

#[test]
fn config_decoder_supports_native_and_escape_prefixed_alt_arrows() {
    let mut decoder = ConfigInputDecoder::default();
    assert_eq!(
        decoder.decode(Input { key: Key::Up, ctrl: false, alt: true, shift: false }, NOW),
        Some(ConfigKey::MoveUp)
    );
    assert_eq!(
        decoder.decode(Input { key: Key::Down, ctrl: false, alt: false, shift: true }, NOW),
        Some(ConfigKey::MoveDown)
    );
    assert_eq!(decoder.decode(plain(Key::Char('[')), NOW), Some(ConfigKey::MoveUp));
    assert_eq!(decoder.decode(plain(Key::Char(']')), NOW), Some(ConfigKey::MoveDown));
    assert_eq!(decoder.decode(plain(Key::Left), NOW), Some(ConfigKey::PreviousValue));
    assert_eq!(decoder.decode(plain(Key::Right), NOW), Some(ConfigKey::NextValue));
    assert_eq!(decoder.decode(plain(Key::Char(' ')), NOW), Some(ConfigKey::ToggleSlot));
    let mut decoder = ConfigInputDecoder::new(650 * MILLI);
    assert_eq!(decoder.decode(plain(Key::Esc), NOW), None);
    assert_eq!(
        decoder.decode(plain(Key::Down), NOW + 520 * MILLI),
        Some(ConfigKey::MoveDown)
    );
    assert!(!decoder.take_expired_escape(NOW + 520 * MILLI));

    assert_eq!(decoder.decode(plain(Key::Esc), NOW), None);
    assert!(decoder.take_expired_escape(NOW + 700 * MILLI));
}

fn long_conversation() -> App {
    let mut app = App::default();
    let words = (0..300).map(|index| format!("word{index}")).collect::<Vec<_>>().join(" ");
    app.transcript.append(BlockKind::Agent, &words, false);
    app.follow_tail(40, 4);
    app
}

#[test]
fn wheel_event_moves_the_real_transcript_viewport() {
    let mut app = long_conversation();
    let tail = app.scroll_y;
    assert!(tail > 0);
    assert!(apply_mouse_scroll(&mut app, MouseKind::ScrollUp, 40, 4));
    assert_eq!(app.scroll_y, tail - 3);
    assert!(!app.follow_tail);
    let scrolled = app.scroll_y;
    assert!(!apply_mouse_scroll(&mut app, MouseKind::Other, 40, 4));
    assert_eq!(app.scroll_y, scrolled);
}

#[test]
fn arrow_fallback_moves_the_real_transcript_viewport() {
    let mut app = long_conversation();
    let tail = app.scroll_y;
    assert!(apply_navigation_scroll(&mut app, Key::Up, 40, 4));
    assert_eq!(app.scroll_y, tail - 1);
    assert!(!app.follow_tail);
    assert!(!apply_navigation_scroll(&mut app, Key::Char('x'), 40, 4));
    assert_eq!(app.scroll_y, tail - 1);
}

#[test]
fn dropped_routing_target_falls_back_and_roster_override_is_one_shot() {
    let mut app = App::default();
    app.set_agent_name(0, "Owner");
    app.set_agent_name(1, "Peer");
    app.mark_agent_dropped(1);
    assert_eq!(normalize_selected_slot(&app, Some(1)), Some(0));

    let mut selected = Some(0);
    consume_one_shot_route(&app, &mut selected);
    assert_eq!(selected, None);
    app.set_collaboration("Manual routing");
    selected = Some(0);
    consume_one_shot_route(&app, &mut selected);
    assert_eq!(selected, Some(0));
}

#[test]
fn config_roster_reconciliation_swaps_selected_live_first_agent() {
    let mut app = seated(&[("Qwen", "qwen.com"), ("Codex", "openai.com")]);
    app.set_config_agents(vec![agent("openai.com", "Codex", "codex --acp")]);
    let mut pending_first = None;
    assert_eq!(requested(&app, &mut pending_first), Some(AdapterControl::Swap(0, 1)));
    assert_eq!(app.agent_name(0), "Qwen");
    assert_eq!(app.active_roster_slots(), vec![0, 1]);
}

#[test]
fn config_roster_reconciliation_uses_identity_for_duplicate_names() {
    let mut app = seated(&[("Auditor", "first.example"), ("Auditor", "second.example")]);
    app.set_config_agents(vec![
        agent("second.example", "Auditor", "second-auditor"),
        agent("first.example", "Auditor", "first-auditor"),
    ]);
    let mut pending_first = None;
    assert_eq!(requested(&app, &mut pending_first), Some(AdapterControl::Swap(0, 1)));
}

#[test]
fn reordering_live_first_agent_swaps_without_recreating_either_agent() {
    let mut app = seated(&[("Codex", "openai.com"), ("Qwen", "qwen.ai")]);
    app.set_config_agents(vec![
        agent("qwen.ai", "Qwen", "qwen --acp"),
        agent("openai.com", "Codex", "codex --acp"),
    ]);
    let mut pending_first = None;
    assert_eq!(requested(&app, &mut pending_first), Some(AdapterControl::Swap(0, 1)));

    app.apply_event(
        &AgentEvent::RosterUpdated { update: RosterUpdate::Swapped { first: 0, second: 1 } },
        moment(),
    );
    assert!(matches!(
        app.reconcile_config_roster(&mut pending_first),
        Reconciliation::Settled
    ));
    assert_eq!(app.agent_count(), 2);
    assert_eq!(app.agent_name(0), "Qwen");
    assert_eq!(app.agent_name(1), "Codex");
}

#[test]
fn an_agent_that_is_there_twice_stays_where_it_is() {
    let mut app = seated(&[("Codex", "openai.com"), ("Qwen", "qwen.ai"), ("Codex", "openai.com")]);
    app.set_config_agents(vec![
        agent("openai.com", "Codex", "codex --acp"),
        agent("qwen.ai", "Qwen", "qwen --acp"),
        agent("openai.com", "Codex", "codex --acp"),
    ]);
    let mut pending_first = None;
    assert!(matches!(
        app.reconcile_config_roster(&mut pending_first),
        Reconciliation::Settled
    ));
}

#[test]
fn config_roster_reconciliation_starts_a_new_first_agent_before_reorder() {
    let mut app = seated(&[("Qwen", "qwen.com"), ("Gemini", "geminicli.com")]);
    app.set_config_agents(vec![agent("openai.com", "Codex", "codex --acp")]);
    let mut pending_first = None;
    assert!(matches!(
        requested(&app, &mut pending_first),
        Some(AdapterControl::Add { .. })
    ));
    assert_eq!(pending_first.as_deref(), Some("openai.com"));
    assert_eq!(app.agent_name(2), "Agent 2");
}

#[test]
fn config_roster_reconciliation_hot_adds_to_a_single_agent_session() {
    let mut app = seated(&[("Codex", "openai.com")]);
    app.set_config_agents(vec![
        agent("openai.com", "Codex", "codex --acp"),
        agent("qwen.ai", "Qwen", "qwen --acp"),
    ]);
    let mut pending_first = None;
    assert!(matches!(
        requested(&app, &mut pending_first),
        Some(AdapterControl::Add { identity, .. }) if identity == "qwen.ai"
    ));
}

#[test]
fn config_order_drives_live_roster_and_pair_peer_order() {
    let mut app =
        seated(&[("Codex", "openai.com"), ("Qwen", "qwen.ai"), ("Gemini", "google.com")]);
    app.set_config_agents(vec![
        agent("openai.com", "Codex", "codex --acp"),
        agent("google.com", "Gemini", "gemini --acp"),
        agent("qwen.ai", "Qwen", "qwen --acp"),
    ]);
    let mut pending_first = None;
    assert_eq!(requested(&app, &mut pending_first), Some(AdapterControl::Swap(1, 2)));
}

#[test]
fn config_reconciliation_adds_a_second_slot_for_the_same_agent() {
    let mut app = seated(&[("Qwen", "qwen.com")]);
    app.set_config_agents(vec![
        agent("qwen.com", "Qwen", "qwen-agent-acp"),
        agent("qwen.com", "Qwen", "qwen-agent-acp"),
    ]);
    assert!(matches!(
        requested(&app, &mut None),
        Some(AdapterControl::Add { identity, .. }) if identity == "qwen.com"
    ));
}

#[test]
fn a_roster_with_an_agent_that_is_not_installed_is_refused() {
    let mut app = App::default();
    app.set_config_agents(vec![agent("openai.com", "Codex", "codex --acp")]);
    assert_eq!(app.validate_config_roster(&vec![true]), Ok(()));
    let reason = app.validate_config_roster(&vec![false]).expect_err("not installed");
    assert!(reason.contains("Codex"));
}

#[test]
fn notification_settings_load_with_python_and_rust_key_shapes() {
    let mut app = App::default();
    let value = parse_json(r#"{"notifications": {"system": "always", "enabled": false}}"#);
    app.apply_notification_preferences(&value.expect("settings"));
    assert_eq!(app.notification_policy().as_str(), "always");
    assert!(app.should_notify_system());

    let value = parse_json(r#"{"notifications": {"turn_over": true}}"#);
    app.apply_notification_preferences(&value.expect("settings"));
    assert_eq!(app.notification_policy().as_str(), "blur");
    app.set_terminal_focused(false);
    assert!(app.should_notify_system());
}

#[test]
fn standalone_cancel_reports_a_terminal_result_and_discards_buffered_text() {
    let mut response_tail = "buffered response".to_string();
    let error = finish_cancelled_turn(Ok(true), &mut response_tail);
    assert!(response_tail.is_empty());
    assert!(matches!(
        error,
        AdapterError::Transport(detail) if detail == "standalone turn cancelled"
    ));
}

#[test]
fn adapter_error_during_pending_cancel_clears_the_ui_timer() {
    let mut app = App::default();
    app.apply_event(&AgentEvent::TurnStarted { slot: 0 }, moment());
    app.request_turn_cancellation();
    assert!(app.cancellation_pending());

    assert!(finish_pending_cancellation(&mut app, "adapter cancellation timed out"));
    assert!(!app.cancellation_pending());
    assert_eq!(app.status, "cancelled");
}

#[test]
fn permission_selection_routes_the_selected_option_to_the_adapter() {
    assert_eq!(
        control_for_permission(PermissionAction::Answer {
            slot: 2,
            request_id: "request-7".to_string(),
            option_index: 1,
            option: "allow-once".to_string(),
            option_id: "allow-once".to_string(),
        }),
        Some(AdapterControl::Permission {
            slot: 2,
            request_id: "request-7".to_string(),
            answer: PermissionAnswer::Selected { option_id: "allow-once".to_string() },
        })
    );
    assert_eq!(
        control_for_permission(PermissionAction::SelectionChanged { index: 1 }),
        None
    );
}

#[test]
fn queued_direct_prompt_without_target_is_rejected_without_panic() {
    let prompt = QueuedPrompt {
        id: 1,
        prompt: "private check".to_string(),
        target: None,
        direct: true,
    };
    assert_eq!(control_for_queued(&prompt), None);
    let aimed = QueuedPrompt { target: Some(2), ..prompt };
    assert_eq!(
        control_for_queued(&aimed),
        Some(AdapterControl::Direct { slot: 2, prompt: "private check".to_string() })
    );
}

fn shown(chunks: &[&str]) -> String {
    let mut tail = String::new();
    let mut output = Vec::new();
    for chunk in chunks {
        output.extend(sanitize_direct_event(
            AgentEvent::Text { slot: 0, text: chunk.to_string() },
            &mut tail,
        ));
    }
    output.extend(sanitize_direct_event(AgentEvent::TurnComplete { slot: 0 }, &mut tail));
    assert_eq!(output.last(), Some(&AgentEvent::TurnComplete { slot: 0 }));
    output
        .into_iter()
        .filter_map(|event| match event {
            AgentEvent::Text { text, .. } => Some(text),
            _ => None,
        })
        .collect::<String>()
}

#[test]
fn standalone_stop_token_is_hidden_even_when_split_across_chunks() {
    let token = stop_token();
    let text = shown(&[
        &format!("visible {token}").replace(token, "[CODESWARM:"),
        "STOP] trailing",
    ]);
    assert_eq!(text, "visible  trailing");
    assert!(!text.contains(token));
}

#[test]
fn a_token_inside_a_token_is_hidden_however_it_is_split() {
    let answer = "one [CODESWARM:ST[CODESWARM:STOP]OP] two";
    for first in 0..=answer.len() {
        for second in first..=answer.len() {
            let text = shown(&[&answer[..first], &answer[first..second], &answer[second..]]);
            assert_eq!(text, "one  two", "{first} {second}");
        }
    }
}

#[test]
fn an_answer_without_the_stop_token_is_shown_whole() {
    assert_eq!(shown(&["one ", "two ", "three and a longer end"]), "one two three and a longer end");
    assert_eq!(shown(&["漢字", "🚀"]), "漢字🚀");
    assert_eq!(shown(&[stop_token()]), "");
}

#[test]
fn labels_and_policies_have_one_spelling() {
    assert_eq!(collaboration_strategy("Manual routing"), CollaborationStrategy::Manual);
    assert_eq!(collaboration_strategy("Pair review"), CollaborationStrategy::Pair);
    assert_eq!(collaboration_strategy("Roster relay"), CollaborationStrategy::Roster);
    assert_eq!(canonical_mode_policy("plan"), "codeswarm:mode:plan");
    assert_eq!(canonical_mode_policy("custom"), "custom");
}

#[test]
fn requests_during_a_turn_wait_in_their_order() {
    assert!(matches!(during_turn(Some(AdapterControl::Cancel)), TurnControl::Cancel));
    assert!(matches!(during_turn(None), TurnControl::Stop));
    assert!(matches!(
        during_turn(Some(AdapterControl::Reload(1))),
        TurnControl::Defer(AdapterControl::Reload(1))
    ));
    let (modes, later) = after_turn(vec![
        AdapterControl::Reload(1),
        AdapterControl::SetMode("plan".to_string()),
        AdapterControl::Drop(0),
    ]);
    assert_eq!(modes, [AdapterControl::SetMode("plan".to_string())]);
    assert_eq!(later, [AdapterControl::Reload(1), AdapterControl::Drop(0)]);
}

#[test]
fn the_relay_stops_for_a_request_or_without_agents() {
    assert!(relay_goes_on(false, 0, true, 2));
    assert!(!relay_goes_on(true, 0, true, 2));
    assert!(!relay_goes_on(false, 1, true, 2));
    assert!(!relay_goes_on(false, 0, false, 2));
}

#[test]
fn requests_between_turns_are_carried_out() {
    assert!(matches!(
        between_turns(Some(AdapterControl::Prompt("task".to_string())), Some(1), 0),
        RelayStep::Ask { prompt, .. } if prompt == "task"
    ));
    assert!(matches!(
        between_turns(Some(AdapterControl::Swap(0, 1)), Some(0), 0),
        RelayStep::Change { change: RosterChange::Swap(0, 1), .. }
    ));
    assert!(matches!(between_turns(Some(AdapterControl::Cancel), None, 0), RelayStep::NothingToCancel));
    assert!(matches!(between_turns(None, None, 0), RelayStep::Stop));
    assert_eq!(
        refused_change("drop".to_string(), "busy".to_string()),
        AgentEvent::RosterUpdated {
            update: RosterUpdate::Rejected { action: "drop".to_string(), detail: "busy".to_string() }
        }
    );
}

#[test]
fn an_agent_by_itself_takes_prompts_and_answers() {
    assert!(matches!(
        ask_directly(Some(AdapterControl::Prompt("task".to_string()))),
        DirectStep::Prompt(prompt) if prompt == "task"
    ));
    assert!(matches!(ask_directly(Some(AdapterControl::Stop)), DirectStep::Stop));
    assert!(matches!(ask_directly(None), DirectStep::Stop));
    let mut tail = "rest".to_string();
    assert!(matches!(
        finish_cancelled_turn(Err(AdapterError::Spawn("gone".to_string())), &mut tail),
        AdapterError::Spawn(detail) if detail == "gone"
    ));
}

#[test]
fn tokens_in_pieces_between_wide_characters_are_hidden() {
    let token = stop_token();
    for cut in 1..token.len() {
        let before = format!("déjà 漢字 {}", &token[..cut]);
        let after = format!("{} fin é", &token[cut..]);
        let visible = shown(&[before.as_str(), after.as_str()]);
        assert_eq!(visible, "déjà 漢字  fin é");
    }
}
