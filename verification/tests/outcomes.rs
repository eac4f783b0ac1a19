use codeswarm::events::{AgentEvent, ToolStatus, ToolUpdate};
use codeswarm::outcomes::Outcomes;

fn tool(slot: usize, id: &str, status: ToolStatus) -> AgentEvent {
    AgentEvent::Tool {
        slot,
        update: ToolUpdate {
            id: id.to_string(),
            title: "Run".to_string(),
            status,
            detail: None,
        },
    }
}

#[test]
fn a_task_is_summed_up_by_its_tools_and_its_last_response() {
    let mut outcomes = Outcomes::new();
    assert_eq!(outcomes.summary(), "0 tools completed, 0 failed · no response");
    for event in [
        AgentEvent::TurnStarted { slot: 0 },
        tool(0, "a", ToolStatus::Running),
        tool(0, "a", ToolStatus::Completed),
        tool(0, "b", ToolStatus::Failed),
        tool(1, "a", ToolStatus::Completed),
        tool(0, "a", ToolStatus::Completed),
        AgentEvent::Text { slot: 0, text: "Fixed\n the ".to_string() },
        AgentEvent::Text { slot: 0, text: "login".to_string() },
        AgentEvent::TurnComplete { slot: 0 },
    ] {
        outcomes.observe(&event);
    }
    assert_eq!(outcomes.response(), "Fixed\n the login");
    assert_eq!(outcomes.summary(), "2 tools completed, 1 failed · Fixed the login");
    outcomes.observe(&AgentEvent::TurnStarted { slot: 1 });
    assert_eq!(outcomes.summary(), "2 tools completed, 1 failed · no response");
}
