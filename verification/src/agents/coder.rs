//! The coder session: a bounded number of turns, a recorded start, and an
//! end that the clean-state protocol must allow.
use vstd::prelude::*;
use std::path::PathBuf;
use uuid::Uuid;
use crate::error::Error;
use crate::hooks::clean_state::CleanStateHook;
use crate::hooks::context::SessionEndContext;
use crate::hooks::traits::HookResult;
use crate::state::engine::StateEngine;
use crate::state::handoff::HandoffManager;
use crate::types::{EndReason, EventType, Phase, ProgressEvent, Role, new_session_id};

verus! {

/// A coder session over a progress log.
pub struct CoderAgent<B> {
    state: StateEngine<B>,
    handoff: HandoffManager,
    session_id: Uuid,
    turn_count: u32,
    max_turns: u32,
    clean_state_hook: CleanStateHook,
}

/// A turn that takes the count from `turn` to `turn + 1` goes over the
/// budget of `max` turns.
pub open spec fn turn_over_budget(turn: int, max: int) -> bool {
    turn + 1 >= max
}

/// The event that records a session of `session` starting (as a coder) in
/// `phase`, at some instant.
pub open spec fn is_start_event(e: ProgressEvent, session: Uuid, phase: Phase) -> bool {
    &&& e.event_type == (EventType::SessionStart { role: Role::Coder })
    &&& e.phase == phase
    &&& e.session_id == Some(session)
    &&& e.git_commit is None
}

/// The event that records a session of `session` ending after `turns`
/// turns for `reason`, in `phase`, at some instant.
pub open spec fn is_end_event(
    e: ProgressEvent,
    session: Uuid,
    turns: u32,
    reason: EndReason,
    phase: Phase,
) -> bool {
    &&& e.event_type == (EventType::SessionEnd { turns_used: turns, reason })
    &&& e.phase == phase
    &&& e.session_id == Some(session)
    &&& e.git_commit is None
}

impl<B> CoderAgent<B> {
    /// The turns taken so far.
    pub closed spec fn turns(self) -> u32 {
        self.turn_count
    }

    /// The turn budget of the session.
    pub closed spec fn limit(self) -> u32 {
        self.max_turns
    }

    /// The session's identifier.
    pub closed spec fn session(self) -> Uuid {
        self.session_id
    }

    /// The progress log the session records to.
    pub closed spec fn log(self) -> StateEngine<B> {
        self.state
    }

    /// The handoff document the session reads and writes.
    pub closed spec fn document(self) -> HandoffManager {
        self.handoff
    }

    /// A new session with a fresh identifier, no turns taken and the given
    /// budget.
    pub fn new(state: StateEngine<B>, handoff: HandoffManager, max_turns: u32) -> (agent:
        CoderAgent<B>)
        ensures
            agent.turns() == 0,
            agent.limit() == max_turns,
            agent.log() == state,
            agent.document() == handoff,
    {
        CoderAgent {
            state,
            handoff,
            session_id: new_session_id(),
            turn_count: 0,
            max_turns,
            clean_state_hook: CleanStateHook::new(),
        }
    }

    /// The turn budget.
    pub fn max_turns(&self) -> (n: u32)
        ensures
            n == self.limit(),
    {
        self.max_turns
    }

    /// The turns taken so far.
    pub fn current_turn(&self) -> (n: u32)
        ensures
            n == self.turns(),
    {
        self.turn_count
    }

    /// The session's identifier.
    pub fn session_id(&self) -> (id: Uuid)
        ensures
            id == self.session(),
    {
        self.session_id
    }

    /// The progress log.
    pub fn state(&self) -> (s: &StateEngine<B>)
        ensures
            *s == self.log(),
    {
        &self.state
    }

    /// The progress log, to record to.
    pub fn state_mut(&mut self) -> (s: &mut StateEngine<B>)
        ensures
            *s == old(self).log(),
            final(self).log() == *final(s),
            final(self).document() == old(self).document(),
            final(self).session() == old(self).session(),
            final(self).turns() == old(self).turns(),
            final(self).limit() == old(self).limit(),
    {
        &mut self.state
    }

    /// The handoff document.
    pub fn handoff(&self) -> (h: &HandoffManager)
        ensures
            *h == self.document(),
    {
        &self.handoff
    }

    /// The clean-state hook run at the end of the session.
    pub fn clean_state_hook(&self) -> (h: &CleanStateHook)
        ensures
            *h == CleanStateHook,
    {
        &self.clean_state_hook
    }

    /// Take a turn. The turn is counted; when the count reaches the budget
    /// the session limit is exceeded.
    pub fn increment_turn(&mut self) -> (r: Result<(), Error>)
        requires
            old(self).turns() < u32::MAX,
        ensures
            final(self).turns() == old(self).turns() + 1,
            final(self).limit() == old(self).limit(),
            final(self).session() == old(self).session(),
            final(self).log() == old(self).log(),
            final(self).document() == old(self).document(),
            turn_over_budget(old(self).turns() as int, old(self).limit() as int) ==> r == Err::<
                (),
                Error,
            >(Error::SessionLimitExceeded { turns: final(self).turns() }),
            !turn_over_budget(old(self).turns() as int, old(self).limit() as int) ==> r is Ok,
    {
        self.turn_count = self.turn_count + 1;
        if self.turn_count >= self.max_turns {
            return Err(Error::SessionLimitExceeded { turns: self.turn_count });
        }
        Ok(())
    }

    /// The event recording the start of this session in `phase`.
    pub fn session_start_event(&self, phase: Phase) -> (e: ProgressEvent)
        ensures
            is_start_event(e, self.session(), phase),
            e.timestamp.secs >= 0,
            e.timestamp.nanos < 1_000_000_000,
    {
        ProgressEvent::new(EventType::SessionStart { role: Role::Coder }, phase).with_session_id(
            self.session_id,
        ).with_role(Role::Coder)
    }

    /// The context the end-of-session hooks receive.
    pub fn end_context(&self, project_path: PathBuf) -> (ctx: SessionEndContext)
        ensures
            ctx.turn_count == self.turns(),
            ctx.project_path == project_path,
    {
        SessionEndContext { turn_count: self.turn_count, project_path }
    }

    /// Whether the session may end, given what the end-of-session hooks
    /// decided: a block is reported as such.
    pub fn end_permitted(result: HookResult) -> (r: Result<(), Error>)
        ensures
            result matches HookResult::Block { reason } ==> r == Err::<(), Error>(
                Error::HookBlocked { reason },
            ),
            result is Continue ==> r is Ok,
    {
        match result {
            HookResult::Continue => Ok(()),
            HookResult::Block { reason } => Err(Error::HookBlocked { reason }),
        }
    }

    /// The event recording the end of this session for `reason`, in `phase`.
    pub fn session_end_event(&self, phase: Phase, reason: EndReason) -> (e: ProgressEvent)
        ensures
            is_end_event(e, self.session(), self.turns(), reason, phase),
            e.timestamp.secs >= 0,
            e.timestamp.nanos < 1_000_000_000,
    {
        ProgressEvent::new(
            EventType::SessionEnd { turns_used: self.turn_count, reason },
            phase,
        ).with_session_id(self.session_id).with_role(Role::Coder)
    }
}

/// The turn budget of a session that starts with no turns taken: its
/// `k`-th turn (counting from one) exceeds the limit exactly when `k` has
/// reached the budget, so it can take `max_turns - 1` turns; and once a turn
/// has exceeded the limit, every later turn does too.
pub proof fn lemma_turn_budget(max_turns: u32, k: int)
    requires
        k >= 1,
    ensures
        turn_over_budget(k - 1, max_turns as int) <==> k >= max_turns,
        turn_over_budget(k - 1, max_turns as int) ==> turn_over_budget(k, max_turns as int),
{
}

} // verus!
