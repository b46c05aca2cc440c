//! The hook chain: hooks run in order, each deciding whether to hand the
//! context on to the rest of the chain; past the last hook the chain
//! continues.
use vstd::prelude::*;
use crate::error::Error;

verus! {

/// A context that hooks receive.
pub trait Context: Send + Sync {}

/// What a hook, or the whole chain, decides.
#[derive(Debug, Clone, PartialEq)]
pub enum HookResult {
    Continue,
    Block { reason: String },
}

/// An ordered list of hooks.
pub struct HookChain<H> {
    hooks: Vec<H>,
}

/// The rest of a chain, from a position on: what a hook hands the context
/// to when it lets the chain go on.
pub struct Next<'a, H> {
    chain: &'a HookChain<H>,
    index: usize,
}

/// What running the chain from a position does: call a hook with the rest
/// of the chain after it, or finish with a result.
pub enum HookStep<'a, H> {
    Call { hook: &'a H, next: Next<'a, H> },
    Finish(HookResult),
}

/// What a hook does with its turn: hand the context on to the rest of the
/// chain, or answer itself.
pub enum HookAction<C> {
    HandOn(C),
    Answer(HookResult),
}

/// The hook's part in the walk of its chain: `None` for handing on, the
/// answer otherwise (see `chain_outcome`).
pub open spec fn action_answer<C>(a: HookAction<C>) -> Option<Result<HookResult, Error>> {
    match a {
        HookAction::HandOn(_) => None,
        HookAction::Answer(r) => Some(Ok(r)),
    }
}

/// The result of running a chain from position `i`, given what each hook
/// does when it is called: `None` for a hook that hands the context on and
/// returns what the rest of the chain returns, `Some(r)` for a hook that
/// returns `r` without calling the rest. Past the last hook the chain
/// continues (`HookChain::run_hook`, `Next::step`).
pub open spec fn chain_outcome(answers: Seq<Option<Result<HookResult, Error>>>, i: int) -> Result<
    HookResult,
    Error,
>
    decreases answers.len() - i,
{
    if i < 0 || i >= answers.len() {
        Ok(HookResult::Continue)
    } else {
        match answers[i] {
            Some(r) => r,
            None => chain_outcome(answers, i + 1),
        }
    }
}

/// A step taken at position `i` agrees with the walk's result: a finished
/// run has the walk's result from `i`; a call of a hook that hands on has
/// the result of the walk from the next position, and a call of a hook that
/// answers has that answer.
pub open spec fn step_agrees<'a, H>(
    step: HookStep<'a, H>,
    answers: Seq<Option<Result<HookResult, Error>>>,
    i: int,
) -> bool {
    match step {
        HookStep::Finish(r) => chain_outcome(answers, i) == Ok::<HookResult, Error>(r),
        HookStep::Call { hook, next } => {
            &&& next.position() == i + 1
            &&& chain_outcome(answers, i) == match answers[i] {
                Some(r) => r,
                None => chain_outcome(answers, next.position() as int),
            }
        },
    }
}

/// Running a chain from position `i` calls the hook at position `j`: every
/// hook from `i` up to `j` handed on.
pub open spec fn hook_reached(answers: Seq<Option<Result<HookResult, Error>>>, i: int, j: int) -> bool {
    &&& 0 <= i <= j < answers.len()
    &&& forall|k: int| i <= k < j ==> answers[k] is None
}

/// A walk of a chain calls its hooks in order until the first one that
/// answers itself; that hook's answer is the chain's result and no later
/// hook is called. When every hook hands on (or there is none), the chain
/// continues.
pub proof fn lemma_chain_walk(answers: Seq<Option<Result<HookResult, Error>>>)
    ensures
        (forall|j: int| 0 <= j < answers.len() ==> answers[j] is None) ==> chain_outcome(answers, 0)
            == Ok::<HookResult, Error>(HookResult::Continue),
        forall|k: int|
            0 <= k < answers.len() && answers[k] is Some && (forall|j: int|
                0 <= j < k ==> answers[j] is None) ==> {
                &&& chain_outcome(answers, 0) == answers[k]->0
                &&& forall|j: int| 0 <= j <= k ==> hook_reached(answers, 0, j)
                &&& forall|j: int| k < j < answers.len() ==> !hook_reached(answers, 0, j)
            },
{
    assert forall|i: int| 0 <= i <= answers.len() && (forall|j: int|
        i <= j < answers.len() ==> answers[j] is None) implies chain_outcome(answers, i)
        == Ok::<HookResult, Error>(HookResult::Continue) by {
        lemma_outcome_all_hand_on(answers, i);
    }
    assert forall|k: int|
        0 <= k < answers.len() && answers[k] is Some && (forall|j: int|
            0 <= j < k ==> answers[j] is None) implies chain_outcome(answers, 0) == answers[k]->0 by {
        lemma_outcome_first_answer(answers, 0, k);
    }
}

/// From a position after which every hook hands on, the chain continues.
proof fn lemma_outcome_all_hand_on(answers: Seq<Option<Result<HookResult, Error>>>, i: int)
    requires
        0 <= i <= answers.len(),
        forall|j: int| i <= j < answers.len() ==> answers[j] is None,
    ensures
        chain_outcome(answers, i) == Ok::<HookResult, Error>(HookResult::Continue),
    decreases answers.len() - i,
{
    if i < answers.len() {
        lemma_outcome_all_hand_on(answers, i + 1);
    }
}

/// From a position, the first hook that answers decides the result.
proof fn lemma_outcome_first_answer(answers: Seq<Option<Result<HookResult, Error>>>, i: int, k: int)
    requires
        0 <= i <= k < answers.len(),
        answers[k] is Some,
        forall|j: int| i <= j < k ==> answers[j] is None,
    ensures
        chain_outcome(answers, i) == answers[k]->0,
    decreases k - i,
{
    if i < k {
        lemma_outcome_first_answer(answers, i + 1, k);
    }
}

impl<H> HookChain<H> {
    /// The hooks, in order.
    pub closed spec fn hooks(self) -> Seq<H> {
        self.hooks@
    }

    /// A chain of the given hooks, run in their order.
    pub fn new(hooks: Vec<H>) -> (chain: HookChain<H>)
        ensures
            chain.hooks() == hooks@,
    {
        HookChain { hooks }
    }

    /// The number of hooks.
    pub fn len(&self) -> (n: usize)
        ensures
            n == self.hooks().len(),
    {
        self.hooks.len()
    }

    /// Where an execution of the chain starts: its first hook.
    pub fn start(&self) -> (next: Next<'_, H>)
        ensures
            next.chain() == *self,
            next.position() == 0,
    {
        Next { chain: self, index: 0 }
    }

    /// Running the chain from position `index`: the hook there, called with
    /// the rest of the chain after it, or `Continue` past the last hook.
    pub fn run_hook(&self, index: usize) -> (step: HookStep<'_, H>)
        ensures
            index < self.hooks().len() ==> (step matches HookStep::Call { hook, next } && *hook
                == self.hooks()[index as int] && next.chain() == *self && next.position()
                == index + 1),
            index >= self.hooks().len() ==> step == HookStep::<'_, H>::Finish(
                HookResult::Continue,
            ),
            forall|answers: Seq<Option<Result<HookResult, Error>>>|
                answers.len() == self.hooks().len() ==> step_agrees(
                    step,
                    answers,
                    index as int,
                ),
    {
        if index < self.hooks.len() {
            HookStep::Call { hook: &self.hooks[index], next: Next { chain: self, index: index + 1 } }
        } else {
            HookStep::Finish(HookResult::Continue)
        }
    }
}

impl<'a, H> Next<'a, H> {
    /// The chain this is the rest of.
    pub closed spec fn chain(self) -> HookChain<H> {
        *self.chain
    }

    /// The position of the first hook still to run.
    pub closed spec fn position(self) -> nat {
        self.index as nat
    }

    /// Running the rest of the chain: its first hook with what follows it,
    /// or `Continue` when no hook is left.
    pub fn step(self) -> (step: HookStep<'a, H>)
        ensures
            self.position() < self.chain().hooks().len() ==> (step matches HookStep::Call {
                hook,
                next,
            } && *hook == self.chain().hooks()[self.position() as int] && next.chain()
                == self.chain() && next.position() == self.position() + 1),
            self.position() >= self.chain().hooks().len() ==> step == HookStep::<'a, H>::Finish(
                HookResult::Continue,
            ),
            forall|answers: Seq<Option<Result<HookResult, Error>>>|
                answers.len() == self.chain().hooks().len() ==> step_agrees(
                    step,
                    answers,
                    self.position() as int,
                ),
    {
        self.chain.run_hook(self.index)
    }
}

} // verus!
