//! The outcome of an attempt to claim a task.

use vstd::prelude::*;

use crate::task::{ClaimedTask, ImmatureTask};

verus! {

/// What a claim attempt found at the head of the pending list.
pub enum ClaimResult<TInput> {
    /// Only an immature task is at the head of the queue.
    Immature(ImmatureTask),
    /// A mature task has been claimed.
    Claimed(ClaimedTask<TInput>),
}

impl<TInput: Clone> Clone for ClaimResult<TInput> {
    /// A copy of the result; a claimed task's input is copied by its own `clone`.
    fn clone(&self) -> (result: Self)
        ensures
            match (*self, result) {
                (ClaimResult::Immature(a), ClaimResult::Immature(b)) => a == b,
                (ClaimResult::Claimed(a), ClaimResult::Claimed(b)) => a.task_id == b.task_id
                    && a.claim_id == b.claim_id && call_ensures(TInput::clone, (&a.input,), b.input),
                _ => false,
            },
    {
        match self {
            ClaimResult::Immature(task) => ClaimResult::Immature(task.clone()),
            ClaimResult::Claimed(task) => ClaimResult::Claimed(task.clone()),
        }
    }
}

impl<TInput> From<ImmatureTask> for ClaimResult<TInput> {
    fn from(task: ImmatureTask) -> (converted: Self) {
        ClaimResult::Immature(task)
    }
}

impl<TInput> vstd::std_specs::convert::FromSpecImpl<ImmatureTask> for ClaimResult<TInput> {
    open spec fn obeys_from_spec() -> bool {
        true
    }

    open spec fn from_spec(task: ImmatureTask) -> Self {
        ClaimResult::Immature(task)
    }
}

impl<TInput> From<ClaimedTask<TInput>> for ClaimResult<TInput> {
    fn from(task: ClaimedTask<TInput>) -> (converted: Self) {
        ClaimResult::Claimed(task)
    }
}

impl<TInput> vstd::std_specs::convert::FromSpecImpl<ClaimedTask<TInput>> for ClaimResult<TInput> {
    open spec fn obeys_from_spec() -> bool {
        true
    }

    open spec fn from_spec(task: ClaimedTask<TInput>) -> Self {
        ClaimResult::Claimed(task)
    }
}

} // verus!
