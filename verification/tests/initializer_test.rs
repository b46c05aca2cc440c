use chrono_h::agents::InitializerAgent;
use chrono_h::state::{HandoffManager, StateEngine};
use chrono_h::types::{EventType, Phase};
use std::path::PathBuf;

fn agent() -> InitializerAgent<()> {
    InitializerAgent::new(
        StateEngine::from_backend((), 0),
        HandoffManager::at_path(PathBuf::from(".pi/state/handoff.md")),
    )
}

#[test]
fn test_initializer_creates_project_structure() {
    let _initializer = agent();

    assert!(true);
}

#[test]
fn scaffold_files() {
    let files = InitializerAgent::<()>::project_files("demo");
    assert_eq!(files.len(), 3);
    assert_eq!(files[0].0, "Cargo.toml");
    assert_eq!(
        files[0].1,
        "[package]\nname = \"demo\"\nversion = \"0.1.0\"\nedition = \"2021\"\n\n[dependencies]\n"
    );
    assert_eq!(files[1].0, "src/main.rs");
    assert_eq!(files[1].1, "fn main() {\n    println!(\"Hello, world!\");\n}\n");
    assert_eq!(files[2].0, ".gitignore");
    assert_eq!(files[2].1, "/target\n**/*.rs.bk\nCargo.lock\n.pi/\n.env\n");
}

#[test]
fn init_and_checkpoint_events() {
    let a = agent();
    let init = a.init_event();
    assert_eq!(init.event_type, EventType::Init { version: "0.1.0".to_string() });
    assert_eq!(init.phase, Phase::InfrastructureReady);
    assert_eq!(init.session_id, Some(a.session_id()));

    let cp = a.checkpoint_event("abc123");
    assert_eq!(
        cp.event_type,
        EventType::Checkpoint {
            message: "Initial project scaffold".to_string(),
            files: vec![
                "Cargo.toml".to_string(),
                "src/main.rs".to_string(),
                ".gitignore".to_string()
            ],
        }
    );
    assert_eq!(cp.git_commit, Some("abc123".to_string()));
    assert_eq!(
        InitializerAgent::<()>::initial_commit_message(),
        "Initial commit: project scaffold"
    );
}

#[test]
fn first_handoff_lists() {
    assert_eq!(
        InitializerAgent::<()>::completed_items(None),
        vec![
            "Project skeleton created".to_string(),
            "Git repository initialized".to_string(),
            "Template: default".to_string()
        ]
    );
    assert_eq!(InitializerAgent::<()>::completed_items(Some("fastapi"))[2], "Template: fastapi");
    assert_eq!(
        InitializerAgent::<()>::decision_items("demo"),
        vec![
            "Project name: demo".to_string(),
            "Clean State protocol: 50 turn limit".to_string()
        ]
    );
    let todo = InitializerAgent::<()>::todo_items();
    assert_eq!(todo[0], ("P0".to_string(), "Core business logic".to_string()));
    assert_eq!(todo.len(), 3);
    let doc = InitializerAgent::<()>::initial_handoff("demo", None);
    assert!(doc.starts_with("## Phase: infrastructure_ready\n"));
    assert!(doc.contains("- [P1] Authentication\n"));
    assert!(doc.contains("- Project name: demo\n"));
}
