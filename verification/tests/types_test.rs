use chrono_h::types::{EventType, Phase, ProgressEvent, Role, SessionConfig, Timestamp};
use uuid::Uuid;

#[test]
fn new_event_has_no_session_or_commit() {
    let e = ProgressEvent::new(EventType::Init { version: "1.0".to_string() }, Phase::InfrastructureReady);
    assert_eq!(e.event_type, EventType::Init { version: "1.0".to_string() });
    assert_eq!(e.phase, Phase::InfrastructureReady);
    assert!(e.session_id.is_none());
    assert!(e.git_commit.is_none());
    assert!(e.timestamp.secs > 1_600_000_000);
    assert!(e.timestamp.nanos < 1_000_000_000);
    assert!(e.metadata.is_null());
}

#[test]
fn builders_set_their_fields() {
    let id = Uuid::new_v4();
    let e = ProgressEvent::new(EventType::SessionStart { role: Role::Initializer }, Phase::AuthReady)
        .with_session_id(id)
        .with_role(Role::Coder)
        .with_git_commit("abc123");
    assert_eq!(e.session_id, Some(id));
    assert_eq!(e.event_type, EventType::SessionStart { role: Role::Coder });
    assert_eq!(e.git_commit, Some("abc123".to_string()));
}

#[test]
fn role_only_relabels_session_starts() {
    let e = ProgressEvent::new(EventType::ProjectComplete, Phase::AuthReady).with_role(Role::Coder);
    assert_eq!(e.event_type, EventType::ProjectComplete);
}

#[test]
fn default_session_config() {
    let c = SessionConfig::default();
    assert_eq!(c.max_turns, 50);
    assert_eq!(c.session_cap, 3);
    assert!(c.auto_compact);
    assert!(c.clean_state_required);
}

#[test]
fn timestamps() {
    let a = Timestamp { secs: 1, nanos: 999_999_999 };
    let b = Timestamp { secs: 2, nanos: 0 };
    assert!(a.not_after(&b));
    assert!(!b.not_after(&a));
    assert!(a.not_after(&a));
    assert_eq!(a.millis(), 1999);
    assert_eq!(Timestamp { secs: 1, nanos: 1_500_000_000 }.millis(), 2500);
}
