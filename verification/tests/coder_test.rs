use chrono_h::agents::CoderAgent;
use chrono_h::error::Error;
use chrono_h::hooks::HookResult;
use chrono_h::state::{HandoffManager, StateEngine};
use chrono_h::types::{EndReason, EventType, Phase, Role};
use std::path::PathBuf;

fn agent(max_turns: u32) -> CoderAgent<()> {
    let state = StateEngine::from_backend((), 0);
    let handoff = HandoffManager::at_path(PathBuf::from(".pi/state/handoff.md"));
    CoderAgent::new(state, handoff, max_turns)
}

#[test]
fn test_coder_agent_creation() {
    let coder = agent(50);
    assert_eq!(coder.max_turns(), 50);
}

#[test]
fn turn_limit_is_enforced() {
    let mut coder = agent(3);
    assert_eq!(coder.current_turn(), 0);
    assert!(coder.increment_turn().is_ok());
    assert!(coder.increment_turn().is_ok());
    match coder.increment_turn() {
        Err(Error::SessionLimitExceeded { turns }) => assert_eq!(turns, 3),
        _ => panic!("expected the session limit"),
    }
    match coder.increment_turn() {
        Err(Error::SessionLimitExceeded { turns }) => assert_eq!(turns, 4),
        _ => panic!("expected the session limit"),
    }
    assert_eq!(coder.current_turn(), 4);
}

#[test]
fn zero_budget_refuses_first_turn() {
    let mut coder = agent(0);
    assert!(coder.increment_turn().is_err());
}

#[test]
fn start_event_records_the_session() {
    let coder = agent(50);
    let e = coder.session_start_event(Phase::AuthReady);
    assert_eq!(e.event_type, EventType::SessionStart { role: Role::Coder });
    assert_eq!(e.phase, Phase::AuthReady);
    assert_eq!(e.session_id, Some(coder.session_id()));
    assert!(e.git_commit.is_none());
}

#[test]
fn end_is_refused_when_a_hook_blocks() {
    let r = CoderAgent::<()>::end_permitted(HookResult::Block { reason: "dirty".to_string() });
    match r {
        Err(Error::HookBlocked { reason }) => assert_eq!(reason, "dirty"),
        _ => panic!("expected a blocked hook"),
    }
    assert!(CoderAgent::<()>::end_permitted(HookResult::Continue).is_ok());
}

#[test]
fn end_event_records_the_turns() {
    let mut coder = agent(50);
    coder.increment_turn().unwrap();
    coder.increment_turn().unwrap();
    let ctx = coder.end_context(PathBuf::from("p"));
    assert_eq!(ctx.turn_count, 2);
    let e = coder.session_end_event(Phase::InfrastructureReady, EndReason::TaskCompleted);
    assert_eq!(
        e.event_type,
        EventType::SessionEnd { turns_used: 2, reason: EndReason::TaskCompleted }
    );
    assert_eq!(e.session_id, Some(coder.session_id()));
}
