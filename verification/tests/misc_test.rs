use chrono_h::cli::{Commands, DevPlan, SessionNote};
use chrono_h::types::{EndReason, EventType, ProgressEvent, Role};
use chrono_h::error::Error;
use chrono_h::git::GitBridge;
use chrono_h::text::{i64_to_decimal, u64_to_decimal};
use chrono_h::types::Phase;
use std::path::PathBuf;

#[test]
fn decimal_rendering() {
    assert_eq!(u64_to_decimal(0), "0");
    assert_eq!(u64_to_decimal(1234), "1234");
    assert_eq!(u64_to_decimal(u64::MAX), "18446744073709551615");
    assert_eq!(i64_to_decimal(-7), "-7");
    assert_eq!(i64_to_decimal(i64::MIN), "-9223372036854775808");
    assert_eq!(i64_to_decimal(i64::MAX), "9223372036854775807");
}

#[test]
fn repository_must_be_opened() {
    let mut bridge: GitBridge<u32> = GitBridge::new(PathBuf::from("proj")).unwrap();
    assert_eq!(bridge.path(), &PathBuf::from("proj"));
    match bridge.repo() {
        Err(Error::GitError(m)) => assert_eq!(m, "Repository not initialized"),
        _ => panic!("expected an uninitialized repository"),
    }
    bridge.attach(9);
    assert_eq!(*bridge.repo().unwrap(), 9);
}

#[test]
fn dev_plan_by_phase() {
    assert_eq!(
        Commands::dev_plan(Phase::InfrastructureReady),
        DevPlan::CoderSession { max_turns: 50, turns: 3 }
    );
    assert_eq!(Commands::dev_plan(Phase::CoreApiReady), DevPlan::ReportPhase(Phase::CoreApiReady));
}

#[test]
fn status_note_for_last_session() {
    let start = ProgressEvent::new(EventType::SessionStart { role: Role::Coder }, Phase::AuthReady);
    assert_eq!(Commands::session_note(&start), Some(SessionNote::LastRole(Role::Coder)));
    let end = ProgressEvent::new(
        EventType::SessionEnd { turns_used: 1, reason: EndReason::UserRequested },
        Phase::AuthReady,
    );
    assert_eq!(Commands::session_note(&end), Some(SessionNote::Ended));
    let other = ProgressEvent::new(EventType::ProjectComplete, Phase::AuthReady);
    assert_eq!(Commands::session_note(&other), None);
}
