//! Tasks and their life cycle: pending (mature or immature), claimed, acked.

use vstd::prelude::*;

verus! {

/// Identifier of a task.
pub type TaskId = String;

/// Identifier of a claim on a task.
pub type ClaimId = String;

/// A point in time: nanoseconds since the Unix epoch, UTC.
pub type Timestamp = i128;

/// A span of time in nanoseconds.
pub type Nanos = i128;

/// A task as seen from the storage, in any stage of its life cycle.
pub enum Task<TInput, TOutput> {
    Pending(PendingTask),
    Claimed(ClaimedTask<TInput>),
    Acked(AckedTask<TOutput>),
}

/// Configuration of a task about to be added.
pub struct TaskConfig {
    /// The time (UTC) after which the task is mature for execution.
    pub mature_at: Option<Timestamp>,
}

/// A task waiting in the pending list.
pub enum PendingTask {
    Mature(MatureTask),
    Immature(ImmatureTask),
}

/// A pending task that can be claimed now.
pub struct MatureTask {
    pub task_id: TaskId,
}

/// A pending task that cannot be claimed before `mature_at`.
pub struct ImmatureTask {
    pub task_id: TaskId,
    pub mature_at: Timestamp,
}

/// A task taken by a consumer, with the claim that must be shown to ack it.
pub struct ClaimedTask<TInput> {
    pub task_id: TaskId,
    pub claim_id: ClaimId,
    pub input: TInput,
}

/// A task that has been acknowledged with its output.
pub struct AckedTask<TOutput> {
    pub task_id: TaskId,
    pub output: TOutput,
}

impl PendingTask {
    /// The id of the task, whatever its maturity.
    pub open spec fn id_of(&self) -> TaskId {
        match self {
            PendingTask::Mature(task) => task.task_id,
            PendingTask::Immature(task) => task.task_id,
        }
    }

    pub fn get_task_id(&self) -> (id: &TaskId)
        ensures
            *id == self.id_of(),
    {
        match self {
            PendingTask::Mature(task) => &task.task_id,
            PendingTask::Immature(task) => &task.task_id,
        }
    }
}

impl<TInput, TOutput> Task<TInput, TOutput> {
    /// The id of the task, whatever its stage.
    pub open spec fn id_of(&self) -> TaskId {
        match self {
            Task::Pending(task) => task.id_of(),
            Task::Claimed(task) => task.task_id,
            Task::Acked(task) => task.task_id,
        }
    }

    pub fn get_task_id(&self) -> (id: &TaskId)
        ensures
            *id == self.id_of(),
    {
        match self {
            Task::Pending(task) => task.get_task_id(),
            Task::Claimed(task) => &task.task_id,
            Task::Acked(task) => &task.task_id,
        }
    }
}

impl From<ImmatureTask> for PendingTask {
    fn from(task: ImmatureTask) -> (converted: Self) {
        PendingTask::Immature(task)
    }
}

impl vstd::std_specs::convert::FromSpecImpl<ImmatureTask> for PendingTask {
    open spec fn obeys_from_spec() -> bool {
        true
    }

    open spec fn from_spec(task: ImmatureTask) -> Self {
        PendingTask::Immature(task)
    }
}

impl From<MatureTask> for PendingTask {
    fn from(task: MatureTask) -> (converted: Self) {
        PendingTask::Mature(task)
    }
}

impl vstd::std_specs::convert::FromSpecImpl<MatureTask> for PendingTask {
    open spec fn obeys_from_spec() -> bool {
        true
    }

    open spec fn from_spec(task: MatureTask) -> Self {
        PendingTask::Mature(task)
    }
}

impl<TInput, TOutput> From<PendingTask> for Task<TInput, TOutput> {
    fn from(task: PendingTask) -> (converted: Self) {
        Task::Pending(task)
    }
}

impl<TInput, TOutput> vstd::std_specs::convert::FromSpecImpl<PendingTask> for Task<TInput, TOutput> {
    open spec fn obeys_from_spec() -> bool {
        true
    }

    open spec fn from_spec(task: PendingTask) -> Self {
        Task::Pending(task)
    }
}

impl<TInput, TOutput> From<ClaimedTask<TInput>> for Task<TInput, TOutput> {
    fn from(task: ClaimedTask<TInput>) -> (converted: Self) {
        Task::Claimed(task)
    }
}

impl<TInput, TOutput> vstd::std_specs::convert::FromSpecImpl<ClaimedTask<TInput>> for Task<TInput, TOutput> {
    open spec fn obeys_from_spec() -> bool {
        true
    }

    open spec fn from_spec(task: ClaimedTask<TInput>) -> Self {
        Task::Claimed(task)
    }
}

impl<TInput, TOutput> From<AckedTask<TOutput>> for Task<TInput, TOutput> {
    fn from(task: AckedTask<TOutput>) -> (converted: Self) {
        Task::Acked(task)
    }
}

impl<TInput, TOutput> vstd::std_specs::convert::FromSpecImpl<AckedTask<TOutput>> for Task<TInput, TOutput> {
    open spec fn obeys_from_spec() -> bool {
        true
    }

    open spec fn from_spec(task: AckedTask<TOutput>) -> Self {
        Task::Acked(task)
    }
}

impl Clone for ImmatureTask {
    fn clone(&self) -> (task: Self)
        ensures
            task == *self,
    {
        ImmatureTask { task_id: self.task_id.clone(), mature_at: self.mature_at }
    }
}

impl<TInput: Clone> Clone for ClaimedTask<TInput> {
    /// A copy of the claim; the input is copied by its own `clone`.
    fn clone(&self) -> (task: Self)
        ensures
            task.task_id == self.task_id,
            task.claim_id == self.claim_id,
            call_ensures(TInput::clone, (&self.input,), task.input),
    {
        ClaimedTask {
            task_id: self.task_id.clone(),
            claim_id: self.claim_id.clone(),
            input: self.input.clone(),
        }
    }
}

impl TaskConfig {
    /// Sets the time after which the task is mature; everything else is kept.
    pub fn mature_at(self, mature_at: Timestamp) -> (config: Self)
        ensures
            config.mature_at == Some(mature_at),
    {
        let mut config = self;
        config.mature_at = Some(mature_at);
        config
    }
}

impl Default for TaskConfig {
    /// A task that is mature as soon as it is added.
    fn default() -> (config: Self)
        ensures
            config.mature_at.is_none(),
    {
        TaskConfig { mature_at: None }
    }
}

} // verus!
