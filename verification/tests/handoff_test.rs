use chrono_h::state::HandoffManager;
use std::path::PathBuf;

#[test]
fn test_handoff_create_and_read() {
    let completed = vec!["Project skeleton".to_string()];
    let todo = vec![
        ("P0".to_string(), "User auth".to_string()),
        ("P1".to_string(), "Todo CRUD".to_string()),
    ];
    let decisions = vec!["Use FastAPI".to_string()];

    let content = HandoffManager::compose_handoff("infrastructure_ready", completed, todo, decisions);
    assert!(content.contains("infrastructure_ready"));
    assert!(content.contains("User auth"));
    assert!(content.contains("Use FastAPI"));
}

#[test]
fn handoff_document_layout() {
    let doc = HandoffManager::render_handoff(
        "auth_ready",
        &vec!["Login".to_string()],
        &vec![("P0".to_string(), "Tests".to_string())],
        &vec!["JWT".to_string(), "bcrypt".to_string()],
        "2025-01-02 03:04:05",
    );
    assert_eq!(
        doc,
        "## Phase: auth_ready\n\n### Completed\n- [x] Login\n\n### Todo (Prioritized)\n- [P0] Tests\n\n### Technical Decisions\n- JWT\n- bcrypt\n\n\n---\n*Last updated: 2025-01-02 03:04:05*\n"
    );
}

#[test]
fn empty_handoff_lists() {
    let doc = HandoffManager::render_handoff("p", &vec![], &vec![], &vec![], "t");
    assert_eq!(
        doc,
        "## Phase: p\n\n### Completed\n\n### Todo (Prioritized)\n\n### Technical Decisions\n\n\n---\n*Last updated: t*\n"
    );
}

#[test]
fn composed_handoff_is_stamped() {
    let doc = HandoffManager::compose_handoff("p", vec![], vec![], vec![]);
    assert!(doc.starts_with("## Phase: p\n\n### Completed\n"));
    assert!(doc.contains("*Last updated: "));
    assert!(doc.ends_with("*\n"));
    let stamp = &doc[doc.find("*Last updated: ").unwrap() + 15..doc.len() - 2];
    assert!(stamp.chars().all(|c| c.is_ascii_digit() || "-+: ".contains(c)));
    assert_eq!(stamp.len(), 19);
    let b = stamp.as_bytes();
    assert_eq!((b[4], b[7], b[10], b[13], b[16]), (b'-', b'-', b' ', b':', b':'));
}

#[test]
fn note_goes_after_section_heading() {
    let current = "## Phase: x\n\n### Completed\n- [x] a\n\n### Todo\n";
    let updated = HandoffManager::insert_into_section(current, "Completed", "- [x] b").unwrap();
    assert_eq!(updated, "## Phase: x\n\n### Completed\n- [x] b\n- [x] a\n\n### Todo\n");
}

#[test]
fn note_after_last_heading_without_line_ending() {
    let updated = HandoffManager::insert_into_section("### Notes", "Notes", "n").unwrap();
    assert_eq!(updated, "### Notesn\n");
}

#[test]
fn note_for_missing_section_writes_nothing() {
    assert!(HandoffManager::insert_into_section("### Completed\n", "Todo", "x").is_none());
}

#[test]
fn missing_document_reads_as_placeholder() {
    assert_eq!(HandoffManager::handoff_or_placeholder(None), "# No handoff document found\n");
    assert_eq!(HandoffManager::handoff_or_placeholder(Some("doc".to_string())), "doc");
}

#[test]
fn manager_keeps_its_path() {
    let m = HandoffManager::at_path(PathBuf::from(".pi/state/handoff.md"));
    assert_eq!(m.handoff_path(), &PathBuf::from(".pi/state/handoff.md"));
}
