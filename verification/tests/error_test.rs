use chrono_h::error::Error;

#[test]
fn test_io_error_conversion() {
    let io_err = std::io::Error::new(std::io::ErrorKind::NotFound, "file not found");
    let err: Error = io_err.into();

    match err {
        Error::Io(_) => (),
        _ => panic!("Expected Io error"),
    }
}

#[test]
fn test_state_error_display() {
    let err = Error::StateCorrupted {
        key: "progress".to_string(),
        reason: "invalid JSON".to_string(),
    };

    let msg = err.message();
    assert!(msg.contains("progress"));
    assert!(msg.contains("invalid JSON"));
}

#[test]
fn state_corrupted_message_is_exact() {
    let err = Error::state_corrupted("progress".to_string(), "invalid JSON".to_string());
    assert_eq!(err.message(), "State corrupted for key 'progress': invalid JSON");
}

#[test]
fn messages_of_own_variants() {
    assert_eq!(
        Error::SessionLimitExceeded { turns: 50 }.message(),
        "Session limit exceeded: 50 turns"
    );
    assert_eq!(
        Error::tool_execution("ls".to_string(), "denied".to_string()).message(),
        "Tool execution failed: ls - denied"
    );
    assert_eq!(Error::HookBlocked { reason: "dirty".to_string() }.message(), "Hook blocked: dirty");
    assert_eq!(Error::Validation("bad".to_string()).message(), "Validation failed: bad");
    assert_eq!(Error::Config("x".to_string()).message(), "Configuration error: x");
    assert_eq!(Error::Agent("y".to_string()).message(), "Agent error: y");
    assert_eq!(Error::StateNotFound("k".to_string()).message(), "State not found: k");
    assert_eq!(Error::GitError("g".to_string()).message(), "Git operation failed: g");
}

#[test]
fn messages_of_outside_variants_start_with_their_kind() {
    let io = Error::from(std::io::Error::new(std::io::ErrorKind::Other, "disk full"));
    assert_eq!(io.message(), "IO error: disk full");
    let other = Error::from(anyhow::Error::msg("plain"));
    assert_eq!(other.message(), "plain");
}
