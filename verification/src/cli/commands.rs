//! The harness's commands.
use vstd::prelude::*;
use crate::types::{EventType, Phase, ProgressEvent, Role};

verus! {

/// A command of the harness.
#[derive(Debug, Clone, PartialEq)]
pub enum Commands {
    /// Create a project.
    Init { name: String, template: Option<String> },
    /// Continue the project's development.
    Continue,
    /// Same as `Continue`.
    Dev,
    /// Review the project.
    Review { scope: String },
    /// Compact the context.
    Compact,
    /// Show the project's status.
    Status,
}

/// What `dev` (or `continue`) does in a project's current phase.
#[derive(Debug, Clone, Copy, PartialEq, Eq, Structural)]
pub enum DevPlan {
    /// Run a coder session with the given turn budget, taking the given
    /// number of turns, then end it as completed.
    CoderSession { max_turns: u32, turns: u32 },
    /// Only report the phase.
    ReportPhase(Phase),
}

/// The plan for `dev` in a phase: a coder session of three turns within a
/// fifty-turn budget while the infrastructure is being set up, else a report.
pub open spec fn dev_plan_for(phase: Phase) -> DevPlan {
    match phase {
        Phase::InfrastructureReady => DevPlan::CoderSession { max_turns: 50, turns: 3 },
        other => DevPlan::ReportPhase(other),
    }
}

/// What the status report says of the last session event.
#[derive(Debug, Clone, Copy, PartialEq, Eq, Structural)]
pub enum SessionNote {
    /// A session with this role was started.
    LastRole(Role),
    /// A session ended.
    Ended,
}

/// The note for an event: the role of a session start, the end of a
/// session, or nothing for other events.
pub open spec fn session_note_for(e: ProgressEvent) -> Option<SessionNote> {
    match e.event_type {
        EventType::SessionStart { role } => Some(SessionNote::LastRole(role)),
        EventType::SessionEnd { .. } => Some(SessionNote::Ended),
        _ => None,
    }
}

/// `dev` runs a coder session only in the infrastructure phase; in every
/// other phase it only reports that phase.
pub proof fn lemma_dev_plan_by_phase(phase: Phase)
    ensures
        dev_plan_for(phase) is CoderSession <==> phase == Phase::InfrastructureReady,
        phase != Phase::InfrastructureReady ==> dev_plan_for(phase) == DevPlan::ReportPhase(phase),
        phase == Phase::InfrastructureReady ==> dev_plan_for(phase) == (DevPlan::CoderSession {
            max_turns: 50,
            turns: 3,
        }),
{
}

impl Commands {
    /// What the status report says of the last session event.
    pub fn session_note(event: &ProgressEvent) -> (note: Option<SessionNote>)
        ensures
            note == session_note_for(*event),
    {
        match &event.event_type {
            EventType::SessionStart { role } => Some(SessionNote::LastRole(*role)),
            EventType::SessionEnd { .. } => Some(SessionNote::Ended),
            _ => None,
        }
    }

    /// What `dev` does in the given phase.
    pub fn dev_plan(phase: Phase) -> (plan: DevPlan)
        ensures
            plan == dev_plan_for(phase),
            phase == Phase::InfrastructureReady ==> plan == (DevPlan::CoderSession {
                max_turns: 50,
                turns: 3,
            }),
            phase != Phase::InfrastructureReady ==> plan == DevPlan::ReportPhase(phase),
    {
        match phase {
            Phase::InfrastructureReady => DevPlan::CoderSession { max_turns: 50, turns: 3 },
            other => DevPlan::ReportPhase(other),
        }
    }
}

} // verus!
