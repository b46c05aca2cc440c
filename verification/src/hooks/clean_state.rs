//! The clean-state protocol run when a session ends: every check must pass
//! before the session may close.
use vstd::prelude::*;
use std::path::PathBuf;
use crate::error::{Error, is_message_of, own_message};
use crate::hooks::context::SessionEndContext;
use crate::hooks::traits::{HookAction, HookResult, action_answer};
use crate::text::{concat, concat3};

verus! {

/// The hook that blocks the end of a session until its checks pass.
pub struct CleanStateHook;

/// A named check and its outcome.
pub type CheckOutcome = (String, Result<bool, Error>);

/// The check passed.
pub open spec fn check_passed(c: CheckOutcome) -> bool {
    c.1 matches Ok(true)
}

/// The reason given for blocking on a check that did not pass: a failed
/// check is named; a check that raised an error is named with the error's
/// message.
pub open spec fn block_reason_for(c: CheckOutcome, reason: Seq<char>) -> bool {
    match c.1 {
        Ok(false) => reason == "Clean State check failed: "@ + c.0@,
        Err(e) => {
            let head = "Clean State check error in "@ + c.0@ + ": "@;
            &&& reason.take(head.len() as int) == head
            &&& own_message(e) matches Some(m) ==> reason == head + m
            &&& exists|m: Seq<char>| is_message_of(e, m) && reason == head + m
        },
        Ok(true) => false,
    }
}

/// The names of the checks, in the order they run.
pub open spec fn check_names() -> Seq<Seq<char>> {
    seq!["tests"@, "git_clean"@, "progress_update"@, "handoff_doc"@]
}

impl CleanStateHook {
    /// The hook.
    pub fn new() -> (h: CleanStateHook)
        ensures
            h == CleanStateHook,
    {
        CleanStateHook
    }

    /// Whether the project's tests pass; this check always passes.
    pub fn run_tests(&self, project_path: &PathBuf) -> (r: Result<bool, Error>)
        ensures
            r matches Ok(true),
    {
        Ok(true)
    }

    /// Whether the working tree is committed; this check always passes.
    pub fn check_git_status(&self, project_path: &PathBuf) -> (r: Result<bool, Error>)
        ensures
            r matches Ok(true),
    {
        Ok(true)
    }

    /// Whether the progress log is up to date; this check always passes.
    pub fn update_progress(&self, project_path: &PathBuf) -> (r: Result<bool, Error>)
        ensures
            r matches Ok(true),
    {
        Ok(true)
    }

    /// Whether the handoff document is written; this check always passes.
    pub fn generate_handoff(&self, project_path: &PathBuf) -> (r: Result<bool, Error>)
        ensures
            r matches Ok(true),
    {
        Ok(true)
    }

    /// The four checks, run in order on the session's project.
    pub fn run_checks(&self, ctx: &SessionEndContext) -> (checks: Vec<CheckOutcome>)
        ensures
            checks@.len() == 4,
            forall|i: int| 0 <= i < 4 ==> #[trigger] checks@[i].0@ == check_names()[i],
            forall|i: int| 0 <= i < 4 ==> check_passed(#[trigger] checks@[i]),
    {
        let mut checks: Vec<CheckOutcome> = Vec::new();
        checks.push(("tests".to_owned(), self.run_tests(&ctx.project_path)));
        checks.push(("git_clean".to_owned(), self.check_git_status(&ctx.project_path)));
        checks.push(("progress_update".to_owned(), self.update_progress(&ctx.project_path)));
        checks.push(("handoff_doc".to_owned(), self.generate_handoff(&ctx.project_path)));
        checks
    }

    /// The decision on a list of check outcomes: block on the first check
    /// that did not pass, or `None` (hand on to the rest of the chain) when
    /// all passed.
    pub fn verdict(checks: &Vec<CheckOutcome>) -> (r: Option<HookResult>)
        ensures
            (forall|i: int| 0 <= i < checks@.len() ==> check_passed(#[trigger] checks@[i]))
                ==> r is None,
            forall|i: int|
                0 <= i < checks@.len() && !check_passed(#[trigger] checks@[i]) && (forall|j: int|
                    0 <= j < i ==> check_passed(checks@[j])) ==> (r matches Some(
                    HookResult::Block { reason },
                ) && block_reason_for(checks@[i], reason@)),
    {
        let n = checks.len();
        for i in 0..n
            invariant
                n == checks@.len(),
                forall|j: int| 0 <= j < i ==> check_passed(#[trigger] checks@[j]),
        {
            let name = &checks[i].0;
            match &checks[i].1 {
                Ok(true) => {},
                Ok(false) => {
                    let reason = concat("Clean State check failed: ", name.as_str());
                    return Some(HookResult::Block { reason });
                },
                Err(e) => {
                    let head = concat3("Clean State check error in ", name.as_str(), ": ");
                    let m = e.message();
                    let reason = concat(head.as_str(), m.as_str());
                    assert(reason@.take(head@.len() as int) =~= head@);
                    return Some(HookResult::Block { reason });
                },
            }
        }
        None
    }

    /// What the hook decides at the end of a session: block on the first
    /// failing check, or `None` to let the rest of the chain run.
    pub fn evaluate(&self, ctx: &SessionEndContext) -> (r: Option<HookResult>)
        ensures
            r is None,
    {
        let checks = self.run_checks(ctx);
        Self::verdict(&checks)
    }

    /// What the hook does at the end of a session: a failing check answers
    /// with a block; when all checks pass (as they always do) it hands the
    /// same context on to the rest of the chain, whose result becomes its
    /// own.
    pub fn decide(&self, ctx: SessionEndContext) -> (a: HookAction<SessionEndContext>)
        ensures
            a == HookAction::<SessionEndContext>::HandOn(ctx),
            action_answer(a) is None,
    {
        match self.evaluate(&ctx) {
            Some(r) => HookAction::Answer(r),
            None => HookAction::HandOn(ctx),
        }
    }
}

} // verus!
