//! The queue's decisions. The queue itself runs asynchronously between a
//! storage and an event channel; each decision it takes between two of those
//! calls is a function here, from what the last call returned to what the
//! queue does next.

use vstd::prelude::*;
use vstd::string::StringExecFns;

use crate::claim::ClaimResult;
use crate::event::Event;
use crate::runtime::now;
use crate::task::{AckedTask, ClaimedTask, ImmatureTask, Nanos, PendingTask, Task, TaskId, Timestamp};

verus! {

/// The error type of JSON (de)serialisation, carried by `QueueError::ValueError`.
#[verifier::external_type_specification]
#[verifier::external_body]
pub struct ExJsonError(serde_json::Error);

/// Configuration of a queue.
#[derive(Clone, Copy)]
pub struct QueueConfig {
    /// Maximum time to live of an acked task. The cleanup is lazy: it happens
    /// when a task is acked.
    pub acked_task_ttl: Option<Nanos>,
    /// Maximum time to live of an idle claim before it is revoked. A revoked
    /// claim cannot be acked anymore, so this must be longer than the
    /// execution time of a task. With `None`, no claim is ever revoked.
    pub idle_claim_ttl: Option<Nanos>,
}

impl Default for QueueConfig {
    /// No cleanup of acked tasks and no revocation of claims.
    fn default() -> (config: Self)
        ensures
            config.acked_task_ttl.is_none(),
            config.idle_claim_ttl.is_none(),
    {
        QueueConfig { acked_task_ttl: None, idle_claim_ttl: None }
    }
}

impl QueueConfig {
    /// Sets the time to live of acked tasks.
    pub fn acked_ttl(self, ttl: Nanos) -> (config: Self)
        ensures
            config.acked_task_ttl == Some(ttl),
            config.idle_claim_ttl == self.idle_claim_ttl,
    {
        QueueConfig { acked_task_ttl: Some(ttl), idle_claim_ttl: self.idle_claim_ttl }
    }

    /// Sets the time to live of idle claims.
    pub fn claim_ttl(self, ttl: Nanos) -> (config: Self)
        ensures
            config.idle_claim_ttl == Some(ttl),
            config.acked_task_ttl == self.acked_task_ttl,
    {
        QueueConfig { acked_task_ttl: self.acked_task_ttl, idle_claim_ttl: Some(ttl) }
    }
}

/// Errors of a queue over a storage with errors `TStorageError` and an event
/// channel with errors `TEventError`.
pub enum QueueError<TStorageError, TEventError> {
    StorageError(TStorageError),
    EventError(TEventError),
    ValueError(serde_json::Error),
    TaskNotFound(TaskId),
    Unknown(String),
}

// ---------------------------------------------------------------------------
// Pushing

/// The events that announce the outcome of adding a task: a new task is
/// announced as added and, when it is mature at once, as maturated too; a task
/// that was already pending is not announced.
pub open spec fn push_announcements(added: Option<PendingTask>) -> Seq<Event> {
    match added {
        None => Seq::empty(),
        Some(PendingTask::Mature(task)) => seq![
            Event::TaskAdded(task.task_id),
            Event::TaskMaturated(task.task_id),
        ],
        Some(PendingTask::Immature(task)) => seq![Event::TaskAdded(task.task_id)],
    }
}

/// The events to publish, in order, after the storage added a task.
pub fn push_events(added: &Option<PendingTask>) -> (events: Vec<Event>)
    ensures
        events@ == push_announcements(*added),
{
    let mut events: Vec<Event> = Vec::new();
    if let Some(task) = added {
        events.push(Event::TaskAdded(task.get_task_id().clone()));
        if let PendingTask::Mature(task) = task {
            events.push(Event::TaskMaturated(task.task_id.clone()));
        }
    }
    proof {
        assert(events@ =~= push_announcements(*added));
    }
    events
}

// ---------------------------------------------------------------------------
// Consuming

/// What a consumer does after pulling from the storage.
pub enum PullStep<TInput> {
    /// Hand the claimed task to the consumer.
    Deliver(ClaimedTask<TInput>),
    /// Wait for a maturation event, with a timer armed to ring at this
    /// task's maturity.
    WaitFor(ImmatureTask),
    /// Wait for a maturation event with no timer set.
    WaitWithoutTimer,
    /// Keep the timer as it is and wait on.
    KeepWaiting,
}

/// The consumer's step after a pull: a claimed task is delivered; an immature
/// head sets the timer to its maturity; an empty queue leaves no timer on the
/// first pull of a round and leaves the timer alone on a later pull.
pub open spec fn pull_step<TInput>(pulled: Option<ClaimResult<TInput>>, first: bool) -> PullStep<
    TInput,
> {
    match pulled {
        Some(ClaimResult::Claimed(task)) => PullStep::Deliver(task),
        Some(ClaimResult::Immature(task)) => PullStep::WaitFor(task),
        None => if first {
            PullStep::WaitWithoutTimer
        } else {
            PullStep::KeepWaiting
        },
    }
}

/// Decides the consumer's step after a pull; `first` tells the first pull of
/// a round from one that a maturation event caused.
pub fn after_pull<TInput>(pulled: Option<ClaimResult<TInput>>, first: bool) -> (step: PullStep<TInput>)
    ensures
        step == pull_step(pulled, first),
{
    match pulled {
        Some(ClaimResult::Claimed(task)) => PullStep::Deliver(task),
        Some(ClaimResult::Immature(task)) => PullStep::WaitFor(task),
        None => if first {
            PullStep::WaitWithoutTimer
        } else {
            PullStep::KeepWaiting
        },
    }
}

/// Whether an event makes a waiting consumer pull again: only a maturation
/// does.
pub fn triggers_pull(event: &Event) -> (pull: bool)
    ensures
        pull == (*event is TaskMaturated),
{
    match event {
        Event::TaskMaturated(_) => true,
        _ => false,
    }
}

/// The event that a consumer's timer sends to the local subscribers when it
/// fires: a maturation with no particular task.
pub fn timer_event() -> (event: Event)
    ensures
        event == Event::TaskMaturated(event.id_of()),
        event.id_of()@ == Seq::<char>::empty(),
{
    Event::TaskMaturated(String::new())
}

/// The text of the error that a negative delay gives when it is turned into a
/// wait.
pub open spec fn out_of_range_message() -> Seq<char> {
    "Source duration value is out of range for the target type"@
}

/// Whether `delay` is the wait from `now` until `mature_at`: the difference
/// in nanoseconds where `mature_at` is not before `now`, and otherwise an
/// error, since a negative span is no wait.
pub open spec fn is_maturation_delay<TStorageError, TEventError>(
    mature_at: Timestamp,
    now: Timestamp,
    delay: Result<u128, QueueError<TStorageError, TEventError>>,
) -> bool {
    if mature_at >= now {
        delay == Ok::<u128, QueueError<TStorageError, TEventError>>((mature_at - now) as u128)
    } else {
        delay matches Err(QueueError::Unknown(msg)) && msg@ == out_of_range_message()
    }
}

/// How long to wait, in nanoseconds, from `now` until `mature_at`. A task
/// that is already past its maturity time is an error.
pub fn maturation_delay<TStorageError, TEventError>(mature_at: Timestamp, now: Timestamp) -> (delay:
    Result<u128, QueueError<TStorageError, TEventError>>)
    ensures
        is_maturation_delay(mature_at, now, delay),
{
    if mature_at < now {
        let msg = "Source duration value is out of range for the target type".to_owned();
        proof {
            reveal_strlit("Source duration value is out of range for the target type");
        }
        Err(QueueError::Unknown(msg))
    } else {
        let delay: u128 = if now >= 0 || mature_at < 0 {
            (mature_at - now) as u128
        } else {
            (mature_at as u128) + ((-(now + 1)) as u128) + 1
        };
        Ok(delay)
    }
}

/// How long to wait, from the current time, for `task` to mature.
pub fn wait_for_task<TStorageError, TEventError>(task: &ImmatureTask) -> (delay: Result<
    u128,
    QueueError<TStorageError, TEventError>,
>)
    ensures
        exists|now: Timestamp| now >= 0 && #[trigger] is_maturation_delay(task.mature_at, now, delay),
{
    let now = now();
    maturation_delay(task.mature_at, now)
}

// ---------------------------------------------------------------------------
// Acknowledging

/// What the queue does after the storage acked a task: announce it as acked
/// and, where acked tasks have a time to live, clean up with that time.
pub fn after_ack(config: &QueueConfig, task_id: &TaskId) -> (plan: (Event, Option<Nanos>))
    ensures
        plan.0 == Event::TaskAcked(*task_id),
        plan.1 == config.acked_task_ttl,
{
    (Event::TaskAcked(task_id.clone()), config.acked_task_ttl)
}

/// Whether the queue revokes idle claims before pulling, and with which time
/// to live: only where claims have a time to live.
pub fn revoke_before_pull(config: &QueueConfig) -> (ttl: Option<Nanos>)
    ensures
        ttl == config.idle_claim_ttl,
{
    config.idle_claim_ttl
}

// ---------------------------------------------------------------------------
// Awaiting a task

/// The acked task in a lookup result, if the task is acked.
pub open spec fn acked_of<TInput, TOutput>(found: Option<Task<TInput, TOutput>>) -> Option<
    AckedTask<TOutput>,
> {
    match found {
        Some(Task::Acked(task)) => Some(task),
        _ => None,
    }
}

/// On the first look at a task: done if it is acked, otherwise wait on.
pub fn on_first_look<TInput, TOutput>(found: Option<Task<TInput, TOutput>>) -> (done: Option<
    AckedTask<TOutput>,
>)
    ensures
        done == acked_of(found),
{
    match found {
        Some(Task::Acked(task)) => Some(task),
        _ => None,
    }
}

/// Whether an event makes a waiter look at the task again: only an ack does.
pub fn is_ack_event(event: &Event) -> (ack: bool)
    ensures
        ack == (*event is TaskAcked),
{
    match event {
        Event::TaskAcked(_) => true,
        _ => false,
    }
}

/// The text of the error for a task announced as acked that the storage does
/// not hold as acked.
pub open spec fn acked_not_found_message(task_id: Seq<char>) -> Seq<char> {
    "task "@ + task_id + " acked but not found"@
}

/// After an ack event for `task_id`: the acked task, or an error where the
/// storage does not hold the task as acked.
pub fn on_ack_event<TInput, TOutput, TStorageError, TEventError>(
    task_id: &TaskId,
    found: Option<Task<TInput, TOutput>>,
) -> (done: Result<AckedTask<TOutput>, QueueError<TStorageError, TEventError>>)
    ensures
        acked_of(found) matches Some(task) ==> done == Ok::<
            AckedTask<TOutput>,
            QueueError<TStorageError, TEventError>,
        >(task),
        acked_of(found) is None ==> (done matches Err(QueueError::Unknown(msg)) && msg@
            == acked_not_found_message(task_id@)),
{
    match found {
        Some(Task::Acked(task)) => Ok(task),
        _ => {
            let msg = "task ".to_owned().concat(task_id.as_str()).concat(" acked but not found");
            proof {
                reveal_strlit("task ");
                reveal_strlit(" acked but not found");
            }
            Err(QueueError::Unknown(msg))
        },
    }
}

} // verus!
