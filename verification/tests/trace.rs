use codeswarm::events::{
    AgentCapabilities, AgentEvent, Mode, TerminalEvent, ToolStatus, ToolUpdate,
};
use codeswarm::trace::{compare_traces, ScriptedTrace};

fn shared_events() -> Vec<AgentEvent> {
    vec![
        AgentEvent::Ready {
            slot: 0,
            capabilities: AgentCapabilities {
                supports_cancel: true,
                supports_modes: true,
                supports_terminals: true,
                ..AgentCapabilities::default()
            },
        },
        AgentEvent::ModesReplaced {
            slot: 0,
            modes: vec![Mode { id: "plan".to_string(), label: "Plan".to_string() }],
            current_mode: Some("plan".to_string()),
        },
        AgentEvent::Tool {
            slot: 0,
            update: ToolUpdate {
                id: "tool-1".to_string(),
                title: "shell".to_string(),
                status: ToolStatus::Completed,
                detail: Some("done".to_string()),
            },
        },
        AgentEvent::Terminal {
            slot: 0,
            event: TerminalEvent::Output { id: "terminal-1".to_string(), text: "ok".to_string() },
        },
        AgentEvent::Text { slot: 0, text: "completed".to_string() },
        AgentEvent::TurnComplete { slot: 0 },
    ]
}

/// What a replay of the trace leaves behind: the text of the answer.
fn answer(_size: usize, events: &Vec<AgentEvent>) -> String {
    let mut text = String::new();
    for event in events {
        if let AgentEvent::Text { text: chunk, .. } = event {
            text.push_str(chunk);
        }
    }
    text
}

#[test]
fn shared_scripted_acp_and_native_traces_compare_equal() {
    let acp = ScriptedTrace::new("acp-smoke", 1, shared_events());
    let native = ScriptedTrace::new("native-smoke", 1, shared_events());
    let comparison = compare_traces(&acp, &native, answer);
    assert!(comparison.equivalent());
    assert!(comparison.first_difference.is_none());
}

#[test]
fn comparison_reports_first_event_difference_and_state_difference() {
    let left = ScriptedTrace::new("left", 1, shared_events());
    let mut right_events = shared_events();
    right_events[4] = AgentEvent::Text { slot: 0, text: "different".to_string() };
    let right = ScriptedTrace::new("right", 1, right_events);
    let comparison = compare_traces(&left, &right, answer);
    assert!(!comparison.equivalent());
    assert_eq!(comparison.first_difference.expect("difference").index, 4);
    assert!(!comparison.final_state_equal);
}

#[test]
fn traces_are_equivalent_by_events_and_roster_size_alone() {
    let one = ScriptedTrace::new("one", 1, shared_events());
    let renamed = ScriptedTrace::new("another name", 1, shared_events());
    let larger = ScriptedTrace::new("one", 2, shared_events());
    let mut events = shared_events();
    events.remove(2);
    let other_way = ScriptedTrace::new("one", 1, events);
    assert!(compare_traces(&one, &renamed, answer).equivalent());
    assert!(!compare_traces(&one, &larger, answer).equivalent());
    let comparison = compare_traces(&one, &other_way, answer);
    assert!(comparison.final_state_equal && !comparison.equivalent());
}

#[test]
fn a_shorter_trace_differs_where_it_ends() {
    let left = ScriptedTrace::new("left", 1, shared_events());
    let mut right_events = shared_events();
    right_events.pop();
    let right = ScriptedTrace::new("right", 1, right_events);
    let comparison = compare_traces(&left, &right, answer);
    let difference = comparison.first_difference.expect("difference");
    assert_eq!(difference.index, 5);
    assert_eq!(difference.left, Some(AgentEvent::TurnComplete { slot: 0 }));
    assert_eq!(difference.right, None);
    assert!(comparison.final_state_equal);
}
