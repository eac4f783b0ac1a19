use codeswarm::app::{App, Moment};
use codeswarm::catalog_rows::{
    catalog_rows, chosen_slots, launch_chosen, live_slots, read_store_key, store_agents,
    DirectoryChange, StoreCommand,
};
use codeswarm::config::ConfigKey;
use codeswarm::controls::AdapterControl;
use codeswarm::editor::{Input, Key};
use codeswarm::events::{AgentCapabilities, AgentEvent, Mode, PermissionRequest, RosterUpdate};
use codeswarm::launch::{AdapterKind, AgentDefinition, Launch, RosterSlot};
use codeswarm::panels::Area;
use codeswarm::session::{ConfigStep, Effect, Link, Session};
use codeswarm::session_keys::{KeyMeaning, INTERRUPT_WINDOW};
use codeswarm::store::StoreKey;
use codeswarm::terminal_input::MouseKind;

const NOW: u64 = 50_000_000_000;

fn moment() -> Moment {
    Moment { now: NOW, hour: 12, minute: 5 }
}

fn key(key: Key) -> Input {
    Input { key, ctrl: false, alt: false, shift: false }
}

fn ctrl(character: char) -> Input {
    Input { key: Key::Char(character), ctrl: true, alt: false, shift: false }
}

fn started() -> (Session, App) {
    let mut app = App::default();
    app.set_agent_name(0, "Codex");
    app.set_agent_name(1, "Qwen");
    (Session::new(None, 650_000_000, NOW), app)
}

fn press(session: &mut Session, app: &mut App, input: Input) -> Vec<Effect> {
    session.on_key(app, input, 80, 24, NOW, Link::Open)
}

fn submit(session: &mut Session, app: &mut App, text: &str) -> Vec<Effect> {
    for character in text.chars() {
        press(session, app, key(Key::Char(character)));
    }
    press(session, app, key(Key::Enter))
}

fn event(session: &mut Session, app: &mut App, event: &AgentEvent) -> Vec<Effect> {
    session.on_event(app, event, moment(), Link::Open, &vec![])
}

fn request() -> AgentEvent {
    AgentEvent::Permission {
        slot: 1,
        request: PermissionRequest {
            id: "request".to_string(),
            title: "Write?".to_string(),
            options: vec!["Allow".to_string(), "Deny".to_string()],
            option_ids: vec!["allow".to_string(), "deny".to_string()],
        },
    }
}

fn definition(identity: &str, short_name: &str, active: bool) -> AgentDefinition {
    AgentDefinition {
        identity: identity.to_string(),
        name: short_name.to_uppercase(),
        short_name: short_name.to_string(),
        aliases: vec![],
        adapter: AdapterKind::Acp,
        command: format!("{short_name} --acp"),
        detect_command: None,
        full_access_startup_argument: None,
        active,
    }
}

fn slot(agent: &str) -> RosterSlot {
    RosterSlot { agent: agent.to_string(), model: None }
}

#[test]
fn prompts_wait_while_a_turn_runs_and_one_is_sent_when_it_ends() {
    let (mut session, mut app) = started();
    assert_eq!(
        submit(&mut session, &mut app, "first"),
        [
            Effect::Remember("first".to_string()),
            Effect::Send(AdapterControl::Prompt("first".to_string()))
        ]
    );
    assert!(session.turn_active);
    for text in ["second", "third"] {
        assert_eq!(
            submit(&mut session, &mut app, text),
            [Effect::Remember(text.to_string())]
        );
    }
    assert_eq!(app.queued_count(), 2);
    let effects = event(&mut session, &mut app, &AgentEvent::TurnComplete { slot: 0 });
    assert_eq!(
        effects,
        [Effect::Send(AdapterControl::Prompt("second".to_string()))]
    );
    assert_eq!(app.queued_count(), 1);
    assert!(session.turn_active);
    assert!(event(
        &mut session,
        &mut app,
        &AgentEvent::Text { slot: 0, text: "answer".to_string() }
    )
    .is_empty());
}

#[test]
fn a_permission_request_takes_the_arrows_and_enter() {
    let (mut session, mut app) = started();
    event(&mut session, &mut app, &request());
    assert!(session.pending_permission);
    assert!(matches!(
        session.meaning(&app, key(Key::Down), Link::Open),
        KeyMeaning::Permission(_)
    ));
    press(&mut session, &mut app, key(Key::Down));
    let effects = press(&mut session, &mut app, key(Key::Enter));
    assert!(matches!(
        &effects[..],
        [Effect::Send(AdapterControl::Permission { slot: 1, request_id, .. })]
            if request_id == "request"
    ));
    assert!(!session.pending_permission);
    assert!(app.permission.is_none());
}

#[test]
fn agents_are_stopped_before_the_conversation_ends() {
    let (mut session, mut app) = started();
    assert_eq!(
        submit(&mut session, &mut app, "/close"),
        [
            Effect::Remember("/close".to_string()),
            Effect::Send(AdapterControl::Stop),
            Effect::Quit
        ]
    );
    let (mut session, mut app) = started();
    assert_eq!(
        press(&mut session, &mut app, ctrl('c')),
        [Effect::Send(AdapterControl::Stop), Effect::Quit]
    );
}

#[test]
fn a_running_turn_is_interrupted_before_anything_else() {
    let (mut session, mut app) = started();
    submit(&mut session, &mut app, "task");
    let effects = press(&mut session, &mut app, ctrl('c'));
    assert_eq!(effects, [Effect::Send(AdapterControl::Cancel)]);
    assert!(app.cancellation_pending());
    assert!(INTERRUPT_WINDOW > 0);
    session.on_error(&mut app, "standalone turn cancelled");
    assert!(!session.turn_active);
    assert!(!app.cancellation_pending());
}

#[test]
fn a_silent_agent_is_cancelled_and_reloaded() {
    let (mut session, mut app) = started();
    let second = 1_000_000_000;
    event(&mut session, &mut app, &AgentEvent::TurnStarted { slot: 1 });
    for (wait, effects) in [
        (119, vec![]),
        (
            120,
            vec![
                Effect::Send(AdapterControl::Cancel),
                Effect::Send(AdapterControl::Reload(1)),
            ],
        ),
    ] {
        for character in "/reload".chars() {
            press(&mut session, &mut app, key(Key::Char(character)));
        }
        let done = session.on_key(
            &mut app,
            key(Key::Enter),
            80,
            24,
            NOW + wait * second,
            Link::Open,
        );
        assert_eq!(done[1..], effects[..]);
    }
    assert!(app.cancellation_pending());
    assert_eq!(app.status, "reloading silent agent");
}

#[test]
fn notices_end_after_their_time() {
    let (mut session, mut app) = started();
    let second = 1_000_000_000;
    for (status, shown) in [("ready", 3), ("error: broken", 6), ("crashed: x · /reload or /drop", 6)] {
        app.show_status(status);
        session.on_time(&mut app, NOW, &vec![]);
        session.on_time(&mut app, NOW + shown * second - 1, &vec![]);
        assert_eq!(app.status, status);
        session.on_time(&mut app, NOW + shown * second, &vec![]);
        assert_eq!(app.status, "");
    }
    app.show_status("thinking");
    session.on_time(&mut app, NOW, &vec![]);
    session.on_time(&mut app, NOW + 600 * second, &vec![]);
    assert_eq!(app.status, "thinking");
}

#[test]
fn commands_of_the_surface_are_done_and_not_sent() {
    let (mut session, mut app) = started();
    assert_eq!(
        submit(&mut session, &mut app, "/swap 0 1"),
        [
            Effect::Remember("/swap 0 1".to_string()),
            Effect::Send(AdapterControl::Swap(0, 1))
        ]
    );
    assert_eq!(
        submit(&mut session, &mut app, "/cancel"),
        [Effect::Remember("/cancel".to_string()), Effect::EndLoop]
    );
    assert_eq!(app.status, "nothing to cancel");
    assert_eq!(
        submit(&mut session, &mut app, "/loop 5m check"),
        [Effect::Remember("/loop 5m check".to_string()), Effect::Loop(" 5m check".to_string())]
    );
    assert_eq!(
        submit(&mut session, &mut app, "!ls"),
        [Effect::Remember("!ls".to_string())]
    );
    assert_eq!(app.status, "local shell commands are not supported");
}

#[test]
fn a_mode_is_asked_for_once() {
    let (mut session, mut app) = started();
    for slot in 0..2 {
        event(
            &mut session,
            &mut app,
            &AgentEvent::Ready {
                slot,
                capabilities: AgentCapabilities {
                    supports_modes: true,
                    ..AgentCapabilities::default()
                },
            },
        );
        event(
            &mut session,
            &mut app,
            &AgentEvent::ModesReplaced {
                slot,
                modes: vec![Mode { id: "plan".to_string(), label: "Plan".to_string() }],
                current_mode: Some("plan".to_string()),
            },
        );
    }
    let current = Some("codeswarm:mode:plan".to_string());
    let effects = session.sync_mode(&app, &current, Link::Open);
    assert_eq!(
        effects,
        [Effect::Send(AdapterControl::SetMode("codeswarm:mode:full-access".to_string()))]
    );
    assert!(session.sync_mode(&app, &current, Link::Open).is_empty());
    assert_eq!(app.current_mode_policy(&current), current);
    assert_eq!(App::default().current_mode_policy(&current), None);
}

#[test]
fn a_turned_wheel_scrolls_and_a_click_picks_an_agent() {
    let (mut session, mut app) = started();
    let frame = Area { x: 0, y: 0, width: 120, height: 30 };
    session.on_mouse(&mut app, MouseKind::LeftDown, 2, 29, frame, NOW);
    assert_eq!(session.selected_slot, Some(0));
    session.on_mouse(&mut app, MouseKind::LeftDown, 2, 3, frame, NOW);
    assert_eq!(session.selected_slot, Some(0));
}

#[test]
fn the_configured_roster_is_saved_once_it_is_settled() {
    let (mut session, mut app) = started();
    app.set_agent_identity(0, "openai.com");
    app.set_agent_identity(1, "qwen.ai");
    let catalog =
        vec![definition("openai.com", "codex", true), definition("qwen.ai", "qwen", true)];
    let rows = app.config_rows(&catalog, &vec![true, true], &vec![]);
    assert_eq!(rows.iter().filter(|row| row.selected).count(), 2);
    app.set_config_agents(rows);
    submit(&mut session, &mut app, "/config");
    assert!(app.config_visible());
    let step = session.read_config_input(
        &mut app,
        ctrl('s'),
        NOW,
        &vec![true, true, true, true],
    );
    assert!(matches!(
        step,
        ConfigStep::SavePreferences | ConfigStep::Key(ConfigKey::Save)
    ));
    let effects =
        session.on_config_key(&mut app, ConfigKey::Save, &vec![], &vec![], Link::Open);
    assert!(!app.config_visible());
    assert!(effects.iter().all(|effect| !matches!(effect, Effect::Quit)));
}

#[test]
fn the_roster_follows_the_changes_that_were_reported() {
    let (mut session, mut app) = started();
    session.selected_slot = Some(0);
    event(
        &mut session,
        &mut app,
        &AgentEvent::RosterUpdated { update: RosterUpdate::Swapped { first: 0, second: 1 } },
    );
    assert_eq!(session.selected_slot, Some(1));
    assert_eq!(app.agent_name(1), "Codex");
}

#[test]
fn the_store_offers_the_saved_roster_or_the_preferred_agents() {
    let catalog = vec![
        definition("openai.com", "codex", true),
        definition("qwen.ai", "qwen", true),
        definition("old.ai", "old", false),
    ];
    let present = vec![true, true, true];
    assert_eq!(catalog_rows(&catalog, &present).len(), 2);
    let wider = store_agents(&catalog, &present, &vec!["qwen".to_string()], &vec![]);
    assert_eq!(wider.iter().filter(|row| row.selected).count(), 2);
    let rows = store_agents(&catalog, &present, &vec![], &vec![]);
    let chosen = rows.iter().filter(|row| row.selected).collect::<Vec<_>>();
    assert_eq!(chosen.len(), 1);
    assert_eq!(chosen[0].identity, "openai.com");
    let rows = store_agents(&catalog, &present, &vec![], &vec![slot("qwen.ai"), slot("openai.com")]);
    assert_eq!(rows[0].identity, "qwen.ai");
    assert!(rows[0].selected && rows[1].selected);
    let slots = chosen_slots(&rows, &vec![0, 1]);
    assert_eq!(slots, [slot("qwen.ai"), slot("openai.com")]);
    assert!(matches!(
        launch_chosen(&slots, &catalog),
        Some(Launch::Roster(launch)) if launch.identities == ["qwen.ai", "openai.com"]
    ));
    assert_eq!(
        live_slots(&vec!["qwen.ai".to_string()], &vec![]),
        [slot("qwen.ai")]
    );
}

#[test]
fn store_keys_and_directories_are_read() {
    assert_eq!(read_store_key(key(Key::Enter)), StoreCommand::Key(StoreKey::Confirm));
    assert_eq!(read_store_key(key(Key::Esc)), StoreCommand::Key(StoreKey::Cancel));
    let mut app = App::default();
    app.show_store(vec![]);
    app.finish_directory_change(DirectoryChange::NotADirectory {
        path: "/gone".to_string(),
        current: "/here".to_string(),
    });
    assert_eq!(app.store_directory(), "/here");
    assert!(app.store.status().contains("/gone"));
}

#[test]
fn exports_and_openings_are_shown() {
    let mut app = App::default();
    app.finish_export(Ok("notes.md".to_string()));
    assert_eq!(app.status, "conversation exported to notes.md");
    app.finish_export(Err("disk full".to_string()));
    assert_eq!(app.status, "export failed: disk full");
    let mut app = App::default();
    app.seat_roster(
        &vec!["Codex".to_string(), "Qwen".to_string()],
        &vec!["openai.com".to_string()],
        &Some("task".to_string()),
        1,
    );
    assert_eq!(app.active_agent, "Qwen");
    assert_eq!(app.status, "starting");
    assert_eq!(app.agent_identity(0), Some("openai.com"));
    assert!(app.export_markdown().contains("task"));
    let mut app = App::default();
    app.seat_agent("Codex", "openai.com", &None);
    assert_eq!(app.active_agent, "Codex");
    let mut app = App::default();
    app.open_preview();
    assert_eq!(app.transcript.len(), 2);
    assert!(app.export_markdown().contains("word4999"));
}
