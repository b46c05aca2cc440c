//! The domain types of the harness: project phases, agent roles, progress
//! events and the session and project configuration.
use vstd::prelude::*;
use std::path::PathBuf;
use uuid::Uuid;
use serde_json::Value;

verus! {

#[verifier::external_type_specification]
#[verifier::external_body]
pub struct ExUuid(Uuid);

#[verifier::external_type_specification]
#[verifier::external_body]
pub struct ExJsonValue(Value);

#[verifier::external_type_specification]
#[verifier::external_body]
pub struct ExPathBuf(PathBuf);

/// `PathBuf::clone` returns a duplicate of the path.
pub assume_specification[ <PathBuf as std::clone::Clone>::clone ](p: &PathBuf) -> (c: PathBuf)
    ensures
        c == *p,
;

/// `serde_json::Value::clone` (derived) returns a duplicate of the value.
pub assume_specification[ <Value as std::clone::Clone>::clone ](v: &Value) -> (c: Value)
    ensures
        c == *v,
;

/// The milestone a project has reached.
#[derive(Debug, Clone, Copy, PartialEq, Eq, Structural)]
pub enum Phase {
    InfrastructureReady,
    AuthReady,
    CoreApiReady,
    ProductionReady,
}

/// The role an agent session plays.
#[derive(Debug, Clone, Copy, PartialEq, Eq, Structural)]
pub enum Role {
    Initializer,
    Coder,
    Reviewer,
    Compactor,
}

/// Why a session ended.
#[derive(Debug, Clone, PartialEq)]
pub enum EndReason {
    TurnLimitReached,
    TaskCompleted,
    UserRequested,
    Error { message: String },
}

/// What a progress event records. The compression ratio of a compaction is
/// kept as the bit pattern of its `f32` value.
#[derive(Debug, Clone, PartialEq)]
pub enum EventType {
    Init { version: String },
    SessionStart { role: Role },
    Checkpoint { message: String, files: Vec<String> },
    TaskComplete { task: String, tests_passed: Option<u32> },
    ContextCompaction { compression_ratio_bits: u32 },
    SessionEnd { turns_used: u32, reason: EndReason },
    ProjectComplete,
}

/// A UTC instant: whole seconds since the Unix epoch and the nanoseconds
/// past that second (at or above one billion only during a leap second).
/// Instants are ordered by seconds, then nanoseconds.
#[derive(Debug, Clone, Copy, PartialEq, Eq, Structural)]
pub struct Timestamp {
    pub secs: i64,
    pub nanos: u32,
}

/// `a` is not later than `b`.
pub open spec fn timestamp_le(a: Timestamp, b: Timestamp) -> bool {
    a.secs < b.secs || (a.secs == b.secs && a.nanos <= b.nanos)
}

/// The whole milliseconds since the epoch of an instant.
pub open spec fn timestamp_millis(t: Timestamp) -> int {
    t.secs * 1000 + t.nanos / 1_000_000
}

/// The current UTC time, from `chrono::Utc::now`, taken apart into seconds
/// since the epoch and nanoseconds. `Utc::now` computes it from the system
/// clock's duration since the epoch, so the seconds are not negative and
/// the nanoseconds are below one billion; the instant itself depends on the
/// clock and is not stated. `Utc::now` panics when the clock reads before
/// the epoch or beyond chrono's range.
#[verifier::external_body]
fn utc_now() -> (t: Timestamp)
    ensures
        t.secs >= 0,
        t.nanos < 1_000_000_000,
{
    let now = chrono::Utc::now();
    Timestamp { secs: now.timestamp(), nanos: now.timestamp_subsec_nanos() }
}

/// A fresh random session identifier, from `uuid::Uuid::new_v4`. It is
/// random, so nothing is stated of it.
#[verifier::external_body]
pub(crate) fn new_session_id() -> (id: Uuid) {
    Uuid::new_v4()
}

/// The JSON `null` value, `serde_json::Value::Null`. Nothing is stated of
/// it: the value is opaque here.
#[verifier::external_body]
fn json_null() -> (v: Value) {
    Value::Null
}

impl Timestamp {
    /// The current time.
    pub fn now() -> (t: Timestamp)
        ensures
            t.secs >= 0,
            t.nanos < 1_000_000_000,
    {
        utc_now()
    }

    /// `self` is not later than `other`.
    pub fn not_after(&self, other: &Timestamp) -> (b: bool)
        ensures
            b == timestamp_le(*self, *other),
    {
        self.secs < other.secs || (self.secs == other.secs && self.nanos <= other.nanos)
    }

    /// The whole milliseconds since the epoch.
    pub fn millis(&self) -> (m: i64)
        requires
            i64::MIN <= self.secs * 1000,
            timestamp_millis(*self) <= i64::MAX,
        ensures
            m == timestamp_millis(*self),
    {
        self.secs * 1000 + (self.nanos / 1_000_000) as i64
    }
}

/// One entry of the project's progress log.
#[derive(Debug, Clone)]
pub struct ProgressEvent {
    pub timestamp: Timestamp,
    pub event_type: EventType,
    pub session_id: Option<Uuid>,
    pub git_commit: Option<String>,
    pub phase: Phase,
    pub metadata: Value,
}

/// The event type after relabelling the role: a session start takes the
/// given role, any other event type is kept.
pub open spec fn relabel_role(event_type: EventType, role: Role) -> EventType {
    match event_type {
        EventType::SessionStart { .. } => EventType::SessionStart { role },
        other => other,
    }
}

impl ProgressEvent {
    /// A new event of the given type and phase, stamped with the current
    /// time, with no session, no commit and null metadata.
    pub fn new(event_type: EventType, phase: Phase) -> (e: ProgressEvent)
        ensures
            e.event_type == event_type,
            e.phase == phase,
            e.session_id is None,
            e.git_commit is None,
            e.timestamp.secs >= 0,
            e.timestamp.nanos < 1_000_000_000,
    {
        ProgressEvent {
            timestamp: Timestamp::now(),
            event_type,
            session_id: None,
            git_commit: None,
            phase,
            metadata: json_null(),
        }
    }

    /// The event with its session set.
    pub fn with_session_id(self, id: Uuid) -> (e: ProgressEvent)
        ensures
            e == (ProgressEvent { session_id: Some(id), ..self }),
    {
        ProgressEvent { session_id: Some(id), ..self }
    }

    /// The event with the role of a session start replaced; other events
    /// are returned unchanged.
    pub fn with_role(self, role: Role) -> (e: ProgressEvent)
        ensures
            e == (ProgressEvent { event_type: relabel_role(self.event_type, role), ..self }),
    {
        let event_type = match self.event_type {
            EventType::SessionStart { .. } => EventType::SessionStart { role },
            other => other,
        };
        ProgressEvent { event_type, ..self }
    }

    /// The event with its commit set.
    pub fn with_git_commit(self, commit: &str) -> (e: ProgressEvent)
        ensures
            e.git_commit matches Some(c) && c@ == commit@,
            e.timestamp == self.timestamp,
            e.event_type == self.event_type,
            e.session_id == self.session_id,
            e.phase == self.phase,
            e.metadata == self.metadata,
    {
        ProgressEvent { git_commit: Some(commit.to_owned()), ..self }
    }
}

/// The limits of one agent session.
#[derive(Debug, Clone)]
pub struct SessionConfig {
    pub max_turns: u32,
    pub session_cap: u32,
    pub auto_compact: bool,
    pub clean_state_required: bool,
}

impl Default for SessionConfig {
    /// Fifty turns per session, three sessions, automatic compaction and the
    /// clean-state protocol on.
    fn default() -> (c: SessionConfig)
        ensures
            c.max_turns == 50,
            c.session_cap == 3,
            c.auto_compact,
            c.clean_state_required,
    {
        SessionConfig { max_turns: 50, session_cap: 3, auto_compact: true, clean_state_required: true }
    }
}

/// A project's name, kind and state directory.
#[derive(Debug, Clone)]
pub struct ProjectConfig {
    pub name: String,
    pub project_type: String,
    pub state_path: PathBuf,
}

} // verus!
