//! The initializer session: the events it records, the scaffold it writes
//! and the first handoff document of a new project.
use vstd::prelude::*;
use uuid::Uuid;
use crate::state::engine::StateEngine;
use crate::state::handoff::{HandoffManager, handoff_text, is_local_stamp};
use crate::text::concat;
use crate::types::{EventType, Phase, ProgressEvent, Role, new_session_id};

verus! {

/// An initializer session over a progress log.
pub struct InitializerAgent<B> {
    state: StateEngine<B>,
    handoff: HandoffManager,
    session_id: Uuid,
}

/// The harness version recorded when a project is initialized.
pub open spec fn harness_version() -> Seq<char> {
    "0.1.0"@
}

/// The files of the scaffold, as recorded in the checkpoint event.
pub open spec fn scaffold_file_names() -> Seq<Seq<char>> {
    seq!["Cargo.toml"@, "src/main.rs"@, ".gitignore"@]
}

/// The `Cargo.toml` of a new project.
pub open spec fn cargo_toml_text(project_name: Seq<char>) -> Seq<char> {
    "[package]\nname = \""@ + project_name
        + "\"\nversion = \"0.1.0\"\nedition = \"2021\"\n\n[dependencies]\n"@
}

/// The entry point of a new project.
pub open spec fn main_source() -> Seq<char> {
    "fn main() {\n    println!(\"Hello, world!\");\n}\n"@
}

/// The ignore list of a new project.
pub open spec fn ignore_list() -> Seq<char> {
    "/target\n**/*.rs.bk\nCargo.lock\n.pi/\n.env\n"@
}

/// What the first handoff document lists as completed.
pub open spec fn initial_completed(template: Option<Seq<char>>) -> Seq<Seq<char>> {
    let t = match template {
        Some(t) => t,
        None => "default"@,
    };
    seq!["Project skeleton created"@, "Git repository initialized"@, "Template: "@ + t]
}

/// What the first handoff document lists as its technical decisions.
pub open spec fn initial_decisions(project_name: Seq<char>) -> Seq<Seq<char>> {
    seq!["Project name: "@ + project_name, "Clean State protocol: 50 turn limit"@]
}

/// The prioritized tasks of the first handoff document.
pub open spec fn initial_todo() -> Seq<(Seq<char>, Seq<char>)> {
    seq![
        ("P0"@, "Core business logic"@),
        ("P1"@, "Authentication"@),
        ("P2"@, "Tests and documentation"@),
    ]
}

/// The characters held by a vector of strings.
pub open spec fn string_views(v: Seq<String>) -> Seq<Seq<char>> {
    v.map_values(|s: String| s@)
}

/// The characters held by a vector of string pairs.
pub open spec fn pair_views(v: Seq<(String, String)>) -> Seq<(Seq<char>, Seq<char>)> {
    v.map_values(|p: (String, String)| (p.0@, p.1@))
}

impl<B> InitializerAgent<B> {
    /// The session's identifier.
    pub closed spec fn session(self) -> Uuid {
        self.session_id
    }

    /// The progress log the session records to.
    pub closed spec fn log(self) -> StateEngine<B> {
        self.state
    }

    /// The handoff document the session reads and writes.
    pub closed spec fn document(self) -> HandoffManager {
        self.handoff
    }

    /// A new initializer session with a fresh identifier.
    pub fn new(state: StateEngine<B>, handoff: HandoffManager) -> (agent: InitializerAgent<B>)
        ensures
            agent.log() == state,
            agent.document() == handoff,
    {
        InitializerAgent { state, handoff, session_id: new_session_id() }
    }

    /// The progress log.
    pub fn state(&self) -> (s: &StateEngine<B>)
        ensures
            *s == self.log(),
    {
        &self.state
    }

    /// The progress log, to record to.
    pub fn state_mut(&mut self) -> (s: &mut StateEngine<B>)
        ensures
            *s == old(self).log(),
            final(self).log() == *final(s),
            final(self).document() == old(self).document(),
            final(self).session() == old(self).session(),
    {
        &mut self.state
    }

    /// The handoff document.
    pub fn handoff(&self) -> (h: &HandoffManager)
        ensures
            *h == self.document(),
    {
        &self.handoff
    }

    /// The session's identifier.
    pub fn session_id(&self) -> (id: Uuid)
        ensures
            id == self.session(),
    {
        self.session_id
    }

    /// The event recording that the project was initialized.
    pub fn init_event(&self) -> (e: ProgressEvent)
        ensures
            e.event_type matches EventType::Init { version } && version@ == harness_version(),
            e.phase == Phase::InfrastructureReady,
            e.session_id == Some(self.session()),
            e.git_commit is None,
            e.timestamp.secs >= 0,
            e.timestamp.nanos < 1_000_000_000,
    {
        ProgressEvent::new(
            EventType::Init { version: "0.1.0".to_owned() },
            Phase::InfrastructureReady,
        ).with_session_id(self.session_id).with_role(Role::Initializer)
    }

    /// The event recording the scaffold's first commit.
    pub fn checkpoint_event(&self, commit_hash: &str) -> (e: ProgressEvent)
        ensures
            e.event_type matches EventType::Checkpoint { message, files } && message@
                == "Initial project scaffold"@ && string_views(files@) == scaffold_file_names(),
            e.phase == Phase::InfrastructureReady,
            e.session_id == Some(self.session()),
            e.git_commit matches Some(c) && c@ == commit_hash@,
            e.timestamp.secs >= 0,
            e.timestamp.nanos < 1_000_000_000,
    {
        let mut files: Vec<String> = Vec::new();
        files.push("Cargo.toml".to_owned());
        files.push("src/main.rs".to_owned());
        files.push(".gitignore".to_owned());
        assert(string_views(files@) =~= scaffold_file_names());
        ProgressEvent::new(
            EventType::Checkpoint { message: "Initial project scaffold".to_owned(), files },
            Phase::InfrastructureReady,
        ).with_session_id(self.session_id).with_role(Role::Initializer).with_git_commit(
            commit_hash,
        )
    }

    /// The message of the scaffold's first commit.
    pub fn initial_commit_message() -> (m: String)
        ensures
            m@ == "Initial commit: project scaffold"@,
    {
        "Initial commit: project scaffold".to_owned()
    }

    /// The files of a new project's scaffold: their paths relative to the
    /// project and their contents.
    pub fn project_files(project_name: &str) -> (files: Vec<(String, String)>)
        ensures
            pair_views(files@) == seq![
                ("Cargo.toml"@, cargo_toml_text(project_name@)),
                ("src/main.rs"@, main_source()),
                (".gitignore"@, ignore_list()),
            ],
    {
        let head = concat("[package]\nname = \"", project_name);
        let cargo_toml = concat(
            head.as_str(),
            "\"\nversion = \"0.1.0\"\nedition = \"2021\"\n\n[dependencies]\n",
        );
        let mut files: Vec<(String, String)> = Vec::new();
        files.push(("Cargo.toml".to_owned(), cargo_toml));
        files.push(
            (
                "src/main.rs".to_owned(),
                "fn main() {\n    println!(\"Hello, world!\");\n}\n".to_owned(),
            ),
        );
        files.push((".gitignore".to_owned(), "/target\n**/*.rs.bk\nCargo.lock\n.pi/\n.env\n".to_owned()));
        assert(pair_views(files@) =~= seq![
            ("Cargo.toml"@, cargo_toml_text(project_name@)),
            ("src/main.rs"@, main_source()),
            (".gitignore"@, ignore_list()),
        ]);
        files
    }

    /// What the first handoff document lists as completed.
    pub fn completed_items(template: Option<&str>) -> (items: Vec<String>)
        ensures
            string_views(items@) == initial_completed(
                match template {
                    Some(t) => Some(t@),
                    None => None,
                },
            ),
    {
        let t = match template {
            Some(t) => t,
            None => "default",
        };
        let mut items: Vec<String> = Vec::new();
        items.push("Project skeleton created".to_owned());
        items.push("Git repository initialized".to_owned());
        items.push(concat("Template: ", t));
        assert(string_views(items@) =~= initial_completed(
            match template {
                Some(t) => Some(t@),
                None => None,
            },
        ));
        items
    }

    /// The prioritized tasks of the first handoff document.
    pub fn todo_items() -> (items: Vec<(String, String)>)
        ensures
            pair_views(items@) == initial_todo(),
    {
        let mut items: Vec<(String, String)> = Vec::new();
        items.push(("P0".to_owned(), "Core business logic".to_owned()));
        items.push(("P1".to_owned(), "Authentication".to_owned()));
        items.push(("P2".to_owned(), "Tests and documentation".to_owned()));
        assert(pair_views(items@) =~= initial_todo());
        items
    }

    /// The technical decisions of the first handoff document.
    pub fn decision_items(project_name: &str) -> (items: Vec<String>)
        ensures
            string_views(items@) == initial_decisions(project_name@),
    {
        let mut items: Vec<String> = Vec::new();
        items.push(concat("Project name: ", project_name));
        items.push("Clean State protocol: 50 turn limit".to_owned());
        assert(string_views(items@) =~= initial_decisions(project_name@));
        items
    }

    /// The first handoff document of a project, in the infrastructure-ready
    /// phase, stamped with the current local time.
    pub fn initial_handoff(project_name: &str, template: Option<&str>) -> (doc: String)
        ensures
            exists|completed: Seq<String>, todo: Seq<(String, String)>, decisions: Seq<String>, stamp: Seq<char>|
                string_views(completed) == initial_completed(
                    match template {
                        Some(t) => Some(t@),
                        None => None,
                    },
                ) && pair_views(todo) == initial_todo() && string_views(decisions)
                    == initial_decisions(project_name@) && is_local_stamp(stamp) && doc@ == handoff_text(
                    "infrastructure_ready"@,
                    completed,
                    todo,
                    decisions,
                    stamp,
                ),
    {
        let completed = Self::completed_items(template);
        let todo = Self::todo_items();
        let decisions = Self::decision_items(project_name);
        HandoffManager::compose_handoff("infrastructure_ready", completed, todo, decisions)
    }
}

} // verus!
