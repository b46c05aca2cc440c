use chrono_h::state::StateEngine;
use chrono_h::types::{EndReason, EventType, Phase, ProgressEvent, Role, Timestamp};

fn event_at(secs: i64, nanos: u32, event_type: EventType, phase: Phase) -> ProgressEvent {
    let mut e = ProgressEvent::new(event_type, phase);
    e.timestamp = Timestamp { secs, nanos };
    e
}

fn version(e: &ProgressEvent) -> String {
    match &e.event_type {
        EventType::Init { version } => version.clone(),
        _ => String::new(),
    }
}

#[test]
fn events_come_back_in_time_order_stably() {
    let events = vec![
        event_at(5, 0, EventType::Init { version: "c".to_string() }, Phase::AuthReady),
        event_at(1, 10, EventType::Init { version: "a".to_string() }, Phase::AuthReady),
        event_at(5, 0, EventType::Init { version: "d".to_string() }, Phase::AuthReady),
        event_at(1, 2, EventType::Init { version: "z".to_string() }, Phase::AuthReady),
        event_at(-3, 999, EventType::Init { version: "first".to_string() }, Phase::AuthReady),
    ];
    let sorted = StateEngine::<()>::sort_events(events);
    let order: Vec<String> = sorted.iter().map(version).collect();
    assert_eq!(order, vec!["first", "z", "a", "c", "d"]);
}

#[test]
fn sorting_a_sorted_log_keeps_it() {
    let events = vec![
        event_at(1, 0, EventType::Init { version: "a".to_string() }, Phase::AuthReady),
        event_at(2, 0, EventType::Init { version: "b".to_string() }, Phase::AuthReady),
    ];
    let sorted = StateEngine::<()>::sort_events(events);
    let order: Vec<String> = sorted.iter().map(version).collect();
    assert_eq!(order, vec!["a", "b"]);
    assert!(StateEngine::<()>::sort_events(vec![]).is_empty());
}

#[test]
fn current_phase_is_that_of_the_last_event() {
    assert_eq!(StateEngine::<()>::current_phase_of(&vec![]), Phase::InfrastructureReady);
    let events = vec![
        event_at(1, 0, EventType::ProjectComplete, Phase::AuthReady),
        event_at(2, 0, EventType::ProjectComplete, Phase::ProductionReady),
    ];
    assert_eq!(StateEngine::<()>::current_phase_of(&events), Phase::ProductionReady);
}

#[test]
fn last_session_event_is_found() {
    let events = vec![
        event_at(1, 0, EventType::SessionStart { role: Role::Coder }, Phase::AuthReady),
        event_at(2, 0, EventType::SessionEnd { turns_used: 3, reason: EndReason::TaskCompleted }, Phase::AuthReady),
        event_at(3, 0, EventType::ProjectComplete, Phase::AuthReady),
    ];
    let last = StateEngine::<()>::last_session_in(events).unwrap();
    assert!(matches!(last.event_type, EventType::SessionEnd { turns_used: 3, .. }));
    let none = StateEngine::<()>::last_session_in(vec![event_at(1, 0, EventType::ProjectComplete, Phase::AuthReady)]);
    assert!(none.is_none());
}

#[test]
fn event_keys() {
    let mut engine = StateEngine::from_backend((), 0);
    let e = event_at(1, 500_000_000, EventType::ProjectComplete, Phase::AuthReady);
    assert_eq!(engine.event_key(&e, "ThreadId(1)"), "1500-ThreadId(1)-0");
    let before = event_at(-2, 0, EventType::ProjectComplete, Phase::AuthReady);
    assert_eq!(engine.event_key(&before, "t"), "-2000-t-1");
}

#[test]
fn events_in_one_millisecond_get_distinct_keys() {
    let mut engine = StateEngine::from_backend((), 9);
    let e = event_at(1, 500_000_000, EventType::ProjectComplete, Phase::AuthReady);
    let first = engine.event_key(&e, "ThreadId(1)");
    let second = engine.event_key(&e, "ThreadId(1)");
    assert_ne!(first, second);
    assert_eq!(first, "1500-ThreadId(1)-9");
    assert_eq!(second, "1500-ThreadId(1)-10");
    assert_eq!(engine.entry_count(), 11);
}

#[test]
fn engine_keeps_its_backend() {
    let engine = StateEngine::from_backend(7u8, 3);
    assert_eq!(*engine.backend(), 7);
    assert_eq!(engine.entry_count(), 3);
}

#[test]
fn entry_numbers_of_stored_keys() {
    assert_eq!(StateEngine::<()>::key_entry_number("1500-ThreadId(1)-12"), Some(12));
    assert_eq!(StateEngine::<()>::key_entry_number("1500-ThreadId(1)"), None);
    assert_eq!(StateEngine::<()>::key_entry_number("nodash"), None);
    assert_eq!(StateEngine::<()>::key_entry_number("x-"), None);
    assert_eq!(StateEngine::<()>::key_entry_number("x-99999999999999999999"), None);
    assert_eq!(StateEngine::<()>::key_entry_number("x-18446744073709551615"), Some(u64::MAX));
}

#[test]
fn reopened_log_continues_after_stored_entries() {
    let keys = vec![
        "1-ThreadId(1)-0".to_string(),
        "2-ThreadId(1)-4".to_string(),
        "3-ThreadId(2)".to_string(),
    ];
    assert_eq!(StateEngine::<()>::first_free_entry(&keys), Some(5));
    assert_eq!(StateEngine::<()>::first_free_entry(&vec![]), Some(0));
    let full = vec!["1-t-18446744073709551615".to_string()];
    assert_eq!(StateEngine::<()>::first_free_entry(&full), None);
}
