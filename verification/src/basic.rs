//! The basic queue: a task is pending, claimed or acked, with no maturity
//! time and no claim id, and the storage keeps inputs and outputs as JSON
//! values. A waiter polls with an interval that doubles up to a ceiling.

use vstd::prelude::*;
use vstd::string::StringExecFns;

use crate::event::Event;
use crate::storage::{first_index, lemma_first_index};
use crate::task::TaskId;

verus! {

/// A JSON value, as the basic storage keeps inputs and outputs.
#[verifier::external_type_specification]
#[verifier::external_body]
pub struct ExJsonValue(serde_json::Value);

/// The stage of a stored task.
pub enum StoredTaskStatus {
    Pending,
    Claimed,
    Acked,
}

/// A task as the basic storage keeps it.
pub struct StoredTask {
    pub status: StoredTaskStatus,
    pub input: serde_json::Value,
    pub output: Option<serde_json::Value>,
}

/// Errors of the basic storage.
pub enum StorageError {
    Unknown(String),
}

/// Errors of the basic event channel. It has none: no value of this type can
/// be made.
pub struct EventError(std::convert::Infallible);

/// A task of the basic queue in any stage.
pub enum Task<TInput, TOutput> {
    Pending { id: TaskId },
    Claimed(ClaimedTask<TInput>),
    Acked(AckedTask<TOutput>),
}

/// A claimed task with its input.
pub struct ClaimedTask<TInput> {
    pub id: TaskId,
    pub input: TInput,
}

/// An acked task with its output.
pub struct AckedTask<TOutput> {
    pub id: TaskId,
    pub output: TOutput,
}

/// Errors of the basic queue.
pub enum QueueError {
    StorageError(StorageError),
    EventError(EventError),
    ValueError(serde_json::Error),
    TaskError(TaskId, String),
    TaskNotFound(TaskId),
    Unknown(String),
}

// ---------------------------------------------------------------------------
// Fetching

/// What a stored task is, as a task of the queue with the id `id`: its stage
/// decides the variant; an acked task must carry an output.
pub open spec fn task_of(id: TaskId, stored: Option<StoredTask>) -> Option<
    Result<Task<serde_json::Value, serde_json::Value>, ()>,
> {
    match stored {
        None => None,
        Some(task) => Some(
            match task.status {
                StoredTaskStatus::Pending => Ok(Task::Pending { id }),
                StoredTaskStatus::Claimed => Ok(Task::Claimed(ClaimedTask { id, input: task.input })),
                StoredTaskStatus::Acked => match task.output {
                    Some(output) => Ok(Task::Acked(AckedTask { id, output })),
                    None => Err(()),
                },
            },
        ),
    }
}

/// The text of the error for an acked task without output.
pub open spec fn output_missing_message() -> Seq<char> {
    "output missing"@
}

/// Turns what the storage found under `id` into a task of the queue. An acked
/// task without output is an error of that task.
pub fn fetched_task(id: TaskId, stored: Option<StoredTask>) -> (task: Result<
    Option<Task<serde_json::Value, serde_json::Value>>,
    QueueError,
>)
    ensures
        match task_of(id, stored) {
            None => task matches Ok(None),
            Some(Ok(t)) => task == Ok::<_, QueueError>(Some(t)),
            Some(Err(())) => task matches Err(QueueError::TaskError(tid, msg)) && tid == id && msg@
                == output_missing_message(),
        },
{
    match stored {
        None => Ok(None),
        Some(stored) => match stored.status {
            StoredTaskStatus::Pending => Ok(Some(Task::Pending { id })),
            StoredTaskStatus::Claimed => Ok(Some(Task::Claimed(ClaimedTask { id, input: stored.input }))),
            StoredTaskStatus::Acked => match stored.output {
                Some(output) => Ok(Some(Task::Acked(AckedTask { id, output }))),
                None => {
                    let msg = "output missing".to_owned();
                    proof {
                        reveal_strlit("output missing");
                    }
                    Err(QueueError::TaskError(id, msg))
                },
            },
        },
    }
}

// ---------------------------------------------------------------------------
// Waiting

/// What a waiter does after a lookup of its task.
pub enum WaitStep<TOutput> {
    /// The task is acked: the wait is over.
    Done(AckedTask<TOutput>),
    /// The task is pending or claimed: wait for its ack event or the next poll.
    KeepWaiting,
}

/// Decides a waiter's step after a lookup of the task `id`: an acked task ends
/// the wait, a pending or claimed one keeps it going, and a task that the
/// storage does not know is an error.
pub fn wait_step<TInput, TOutput>(id: &TaskId, found: Option<Task<TInput, TOutput>>) -> (step:
    Result<WaitStep<TOutput>, QueueError>)
    ensures
        match found {
            None => step matches Err(QueueError::TaskNotFound(tid)) && tid == *id,
            Some(Task::Acked(task)) => step == Ok::<_, QueueError>(WaitStep::Done(task)),
            Some(_) => step matches Ok(WaitStep::KeepWaiting),
        },
{
    match found {
        None => Err(QueueError::TaskNotFound(id.clone())),
        Some(Task::Acked(task)) => Ok(WaitStep::Done(task)),
        Some(_) => Ok(WaitStep::KeepWaiting),
    }
}

/// Whether an event makes a waiter look at the task: only an ack does.
pub fn wakes_waiter(event: &Event) -> (wake: bool)
    ensures
        wake == (*event is TaskAcked),
{
    match event {
        Event::TaskAcked(_) => true,
        _ => false,
    }
}

/// The first polling interval of a waiter, in seconds.
pub const INITIAL_POLL_INTERVAL: u64 = 5;

/// The longest polling interval of a waiter, in seconds.
pub const MAX_POLL_INTERVAL: u64 = 60;

/// The interval that follows `interval`: twice as long, but no longer than
/// the ceiling.
pub open spec fn next_interval(interval: nat) -> nat {
    if interval * 2 <= MAX_POLL_INTERVAL {
        interval * 2
    } else {
        MAX_POLL_INTERVAL as nat
    }
}

/// The `n`-th polling interval of a waiter, counting from zero.
pub open spec fn poll_interval(n: nat) -> nat
    decreases n,
{
    if n == 0 {
        INITIAL_POLL_INTERVAL as nat
    } else {
        next_interval(poll_interval((n - 1) as nat))
    }
}

/// The polling interval that follows `interval`, in seconds.
pub fn next_poll_interval(interval: u64) -> (next: u64)
    ensures
        next == next_interval(interval as nat),
{
    if interval <= MAX_POLL_INTERVAL / 2 {
        interval * 2
    } else {
        MAX_POLL_INTERVAL
    }
}

/// The polling intervals start at the initial interval, never shrink, never
/// exceed the ceiling, and reach it from the fifth interval on.
pub proof fn lemma_poll_intervals(n: nat)
    ensures
        poll_interval(0) == INITIAL_POLL_INTERVAL,
        poll_interval(n) <= poll_interval(n + 1),
        poll_interval(n) <= MAX_POLL_INTERVAL,
        n >= 4 ==> poll_interval(n) == MAX_POLL_INTERVAL,
    decreases n,
{
    reveal_with_fuel(poll_interval, 6);
    if n > 0 {
        lemma_poll_intervals((n - 1) as nat);
    }
}

// ---------------------------------------------------------------------------
// The basic in-memory storage

/// The decimal digits of `n`, most significant first, without leading zeros.
pub open spec fn decimal(n: nat) -> Seq<char>
    decreases n,
{
    if n < 10 {
        seq![(('0' as nat) + n) as char]
    } else {
        decimal(n / 10).push((('0' as nat) + n % 10) as char)
    }
}

/// The decimal digit `d` as a string.
fn digit_string(d: u64) -> (s: String)
    requires
        d < 10,
    ensures
        s@ == seq![(('0' as nat) + d) as char],
{
    proof {
        reveal_strlit("0");
        reveal_strlit("1");
        reveal_strlit("2");
        reveal_strlit("3");
        reveal_strlit("4");
        reveal_strlit("5");
        reveal_strlit("6");
        reveal_strlit("7");
        reveal_strlit("8");
        reveal_strlit("9");
    }
    let s = match d {
        0 => "0",
        1 => "1",
        2 => "2",
        3 => "3",
        4 => "4",
        5 => "5",
        6 => "6",
        7 => "7",
        8 => "8",
        _ => "9",
    };
    s.to_owned()
}

/// `n` in decimal.
fn decimal_string(n: u64) -> (s: String)
    ensures
        s@ == decimal(n as nat),
{
    let mut rest = n;
    let mut tail = String::new();
    while rest >= 10
        invariant
            decimal(n as nat) == decimal(rest as nat) + tail@,
        decreases rest,
    {
        let d = digit_string(rest % 10);
        proof {
            let c = (('0' as nat) + (rest % 10) as nat) as char;
            assert(decimal(rest as nat) == decimal((rest / 10) as nat).push(c));
            assert(decimal((rest / 10) as nat).push(c) + tail@ =~= decimal((rest / 10) as nat) + (d@ + tail@));
        }
        tail = d.concat(tail.as_str());
        rest = rest / 10;
    }
    let s = digit_string(rest).concat(tail.as_str());
    s
}

/// Whether two JSON values compare equal by `serde_json::Value`'s
/// `PartialEq`: the relation that the comparison computes, a function of the
/// two values alone.
pub uninterp spec fn json_eq(a: serde_json::Value, b: serde_json::Value) -> bool;

/// Compares two JSON values with `serde_json::Value`'s `PartialEq`, which is
/// derived: it compares the values structurally, and numbers compare as
/// numbers (so `0.0` and `-0.0` compare equal although they differ). The
/// contract names the result `json_eq` of the two values, and states only
/// that a value compares equal to itself; what else compares equal is left
/// open.
#[verifier::external_body]
fn json_equal(a: &serde_json::Value, b: &serde_json::Value) -> (equal: bool)
    ensures
        equal == json_eq(*a, *b),
        *a == *b ==> equal,
{
    a == b
}

/// Whether a stored task has an input that compares equal to `input`.
pub open spec fn has_input(input: serde_json::Value) -> spec_fn((TaskId, StoredTask)) -> bool {
    |t: (TaskId, StoredTask)| json_eq(t.1.input, input)
}

/// The text of the error for a storage whose ids are used up.
pub open spec fn ids_exhausted_message() -> Seq<char> {
    "task ids exhausted"@
}

/// An in-memory storage for the basic queue. Each new task takes its id from
/// a counter that starts at zero, in decimal.
pub struct MockStorageAdaptor {
    tasks: Vec<(TaskId, StoredTask)>,
    next_id: u64,
}

impl MockStorageAdaptor {
    pub closed spec fn tasks(&self) -> Seq<(TaskId, StoredTask)> {
        self.tasks@
    }

    pub closed spec fn next_id(&self) -> u64 {
        self.next_id
    }

    /// An empty storage with the counter at zero.
    pub fn new() -> (storage: Self)
        ensures
            storage.tasks().len() == 0,
            storage.next_id() == 0,
    {
        MockStorageAdaptor { next_id: 0, tasks: Vec::new() }
    }

    /// Appends a pending task with `input` and returns its id. No-op if a task
    /// with an input that compares equal already exists: the id of the first
    /// such task is returned. A new task
    /// takes the counter's value, in decimal, and the counter moves on; once
    /// the counter has reached its maximum, no new task can be added.
    pub fn add_task(&mut self, input: serde_json::Value) -> (id: Result<TaskId, StorageError>)
        ensures
            match first_index(old(self).tasks(), has_input(input)) {
                Some(i) => id == Ok::<TaskId, StorageError>(old(self).tasks()[i].0)
                    && final(self).tasks() == old(self).tasks() && final(self).next_id() == old(self).next_id(),
                None => if old(self).next_id() < u64::MAX {
                    &&& id matches Ok(id) && id@ == decimal(old(self).next_id() as nat)
                    &&& final(self).next_id() == old(self).next_id() + 1
                    &&& final(self).tasks() == old(self).tasks().push(
                        (
                            id->Ok_0,
                            StoredTask { status: StoredTaskStatus::Pending, input, output: None },
                        ),
                    )
                } else {
                    &&& id matches Err(StorageError::Unknown(msg)) && msg@ == ids_exhausted_message()
                    &&& final(self).tasks() == old(self).tasks()
                    &&& final(self).next_id() == old(self).next_id()
                },
            },
    {
        let mut i: usize = 0;
        while i < self.tasks.len()
            invariant
                i <= self.tasks.len(),
                forall|j: int| 0 <= j < i ==> !(has_input(input))(#[trigger] self.tasks@[j]),
            decreases self.tasks.len() - i,
        {
            if json_equal(&self.tasks[i].1.input, &input) {
                proof {
                    lemma_first_index(self.tasks@, has_input(input));
                    if let Some(k) = first_index(self.tasks@, has_input(input)) {
                        assert(k == i);
                    }
                }
                return Ok(self.tasks[i].0.clone());
            }
            i = i + 1;
        }
        proof {
            lemma_first_index(self.tasks@, has_input(input));
        }
        if self.next_id == u64::MAX {
            let msg = "task ids exhausted".to_owned();
            proof {
                reveal_strlit("task ids exhausted");
            }
            return Err(StorageError::Unknown(msg));
        }
        let id = decimal_string(self.next_id);
        self.tasks.push((id.clone(), StoredTask { status: StoredTaskStatus::Pending, input, output: None }));
        self.next_id = self.next_id + 1;
        Ok(id)
    }
}

} // verus!
