use codeswarm::events::{AgentEvent, RosterUpdate};
use codeswarm::controls::AdapterControl;
use codeswarm::looping::{observe, Command, Job, Repeater, LAST_TIME, SECOND, USAGE};
use codeswarm::session::Effect;

const NOW: u128 = 1_000_000_000_000;

#[test]
fn failure_and_replacement_stop_loop_but_catalog_updates_do_not() {
    let mut job = Some(Job::new("check".to_string(), 0, 0, NOW));
    let mut busy = false;
    observe(&mut job, &mut busy, &AgentEvent::TurnStarted { slot: 0 }, true);
    observe(&mut job, &mut busy, &AgentEvent::TurnComplete { slot: 0 }, true);
    assert!(busy);
    observe(
        &mut job,
        &mut busy,
        &AgentEvent::CommandsReplaced { slot: 0, commands: vec![] },
        true,
    );
    assert!(job.is_some());
    observe(
        &mut job,
        &mut busy,
        &AgentEvent::UsageLimitReached { slot: 0, detail: "limited".to_string() },
        true,
    );
    assert!(job.is_none());
    assert!(!busy);
    job = Some(Job::new("replacement".to_string(), 0, 0, NOW));
    observe(
        &mut job,
        &mut busy,
        &AgentEvent::RosterUpdated { update: RosterUpdate::Swapped { first: 0, second: 1 } },
        true,
    );
    assert!(job.is_none());
}

#[test]
fn parses_commands_and_rejects_invalid_intervals() {
    assert_eq!(Command::parse("", NOW).unwrap(), Command::Show);
    assert_eq!(Command::parse("stop", NOW).unwrap(), Command::Stop);
    assert_eq!(
        Command::parse("check builds", NOW).unwrap(),
        Command::Start { interval: 0, prompt: "check builds".to_string() }
    );
    assert_eq!(
        Command::parse("5m check\n builds", NOW).unwrap(),
        Command::Start { interval: 300, prompt: "check\n builds".to_string() }
    );
    assert_eq!(
        Command::parse("5 check", NOW).unwrap(),
        Command::Start { interval: 300, prompt: "check".to_string() }
    );
    for input in [
        "0m check",
        "-1 check",
        "1.5m check",
        "5h check",
        "5m",
        "18446744073709551615m check",
        "/cancel",
    ] {
        assert!(Command::parse(input, NOW).is_err(), "{input}");
    }
}

#[test]
fn waits_for_whole_batch_and_uses_start_to_start_interval() {
    let mut job = Job::new("check".to_string(), 2, 300, NOW);
    assert!(job.ready(NOW, false));
    job.dispatched(NOW);
    job.observe(&AgentEvent::TurnComplete { slot: 2 }, true);
    assert!(!job.ready(NOW + 600 * SECOND, false));
    job.observe(&AgentEvent::BatchComplete { elapsed: vec![] }, true);
    assert!(!job.ready(NOW + 299 * SECOND, false));
    assert!(job.ready(NOW + 300 * SECOND, false));
    assert!(!job.ready(NOW + 300 * SECOND, true));
    job.dispatched(NOW + 300 * SECOND);
    job.observe(&AgentEvent::BatchComplete { elapsed: vec![] }, true);
    assert!(job.ready(NOW + 950 * SECOND, false));
    job.dispatched(NOW + 950 * SECOND);
    assert!(!job.ready(NOW + 1000 * SECOND, false));
}

#[test]
fn no_interval_repeats_on_completion_and_replacement_resets_schedule() {
    let mut job = Job::new("first".to_string(), 0, 0, NOW);
    job.dispatched(NOW);
    assert!(!job.ready(NOW, false));
    job.observe(&AgentEvent::TurnComplete { slot: 0 }, false);
    assert!(job.ready(NOW, false));
    job = Job::new("replacement".to_string(), 3, 60, NOW);
    assert!(job.ready(NOW, false));
    assert_eq!(job.target, 3);
}

#[test]
fn loop_status_names_the_agent_and_the_interval() {
    let repeated = Job::new("check".to_string(), 1, 300, NOW);
    assert_eq!(repeated.status(), "loop every 5m · agent 2 · check · /loop stop");
    assert!(USAGE.starts_with("/loop"));
}

#[test]
fn intervals_are_as_long_as_the_clock_allows() {
    assert_eq!(
        Command::parse("400000000m check", NOW).unwrap(),
        Command::Start { interval: 24_000_000_000, prompt: "check".to_string() }
    );
    assert!(Command::parse("153722867280912930m check", 0).is_ok());
    assert!(Command::parse("153722867280912930m check", LAST_TIME / 2).is_err());
    assert!(Command::parse("153722867280912931m check", 0).is_err());
    assert!(Command::parse("307445734561825861m check", 0).is_err());
}

#[test]
fn a_loop_is_shown_repeated_and_stopped() {
    let mut repeater = Repeater::new();
    assert_eq!(repeater.ask("", 0, NOW), "no active loop");
    assert_eq!(repeater.ask("stop", 0, NOW), "no active loop");
    assert_eq!(
        repeater.ask("5m check", 2, NOW),
        "loop every 5m · agent 3 · check · /loop stop"
    );
    assert_eq!(repeater.take_due(NOW), Some((2, "check".to_string())));
    assert_eq!(repeater.take_due(NOW + 900 * SECOND), None);
    repeater.follow(&AgentEvent::BatchComplete { elapsed: vec![] }, true);
    assert_eq!(repeater.take_due(NOW + 299 * SECOND), None);
    assert!(repeater.take_due(NOW + 300 * SECOND).is_some());
    assert_eq!(repeater.ask("", 0, NOW), "loop every 5m · agent 3 · check · /loop stop");
    repeater.heed(&Effect::Goal(String::new()));
    repeater.heed(&Effect::Send(AdapterControl::SetMode("plan".to_string())));
    assert_eq!(repeater.ask("stop", 0, NOW), "loop stopped");
    assert_eq!(repeater.ask("", 0, NOW), "no active loop");
}

#[test]
fn requests_cancellations_and_failures_end_a_loop() {
    for effect in [
        Effect::EndLoop,
        Effect::Goal("done".to_string()),
        Effect::AddAgent("codex".to_string()),
        Effect::Send(AdapterControl::Cancel),
        Effect::Send(AdapterControl::Reload(0)),
        Effect::Send(AdapterControl::Prompt("other".to_string())),
    ] {
        let mut repeater = Repeater::new();
        repeater.ask("check", 0, NOW);
        repeater.heed(&effect);
        assert_eq!(repeater.take_due(NOW), None);
    }
    let mut repeater = Repeater::new();
    repeater.ask("check", 0, NOW);
    repeater.follow(&AgentEvent::TurnStarted { slot: 0 }, false);
    assert_eq!(repeater.take_due(NOW), None);
    repeater.follow(&AgentEvent::TurnComplete { slot: 0 }, false);
    assert!(repeater.take_due(NOW).is_some());
    repeater.stop();
    assert_eq!(repeater.ask("", 0, NOW), "no active loop");
}
