//! Events that the queue publishes about tasks, and which subscriptions
//! receive them.

use vstd::prelude::*;

use crate::task::TaskId;

verus! {

/// Something that happened to a task.
#[derive(Debug, PartialEq)]
pub enum Event {
    TaskAdded(TaskId),
    TaskMaturated(TaskId),
    TaskClaimed(TaskId),
    TaskAcked(TaskId),
}

impl Event {
    /// The task that the event is about.
    pub open spec fn id_of(&self) -> TaskId {
        match self {
            Event::TaskAcked(id) => *id,
            Event::TaskAdded(id) => *id,
            Event::TaskClaimed(id) => *id,
            Event::TaskMaturated(id) => *id,
        }
    }

    pub fn get_task_id(&self) -> (id: &TaskId)
        ensures
            *id == self.id_of(),
    {
        match self {
            Event::TaskAcked(id) => id,
            Event::TaskAdded(id) => id,
            Event::TaskClaimed(id) => id,
            Event::TaskMaturated(id) => id,
        }
    }
}

impl Clone for Event {
    fn clone(&self) -> (event: Self)
        ensures
            event == *self,
    {
        match self {
            Event::TaskAdded(id) => Event::TaskAdded(id.clone()),
            Event::TaskMaturated(id) => Event::TaskMaturated(id.clone()),
            Event::TaskClaimed(id) => Event::TaskClaimed(id.clone()),
            Event::TaskAcked(id) => Event::TaskAcked(id.clone()),
        }
    }
}

/// Whether a subscription receives an event: a subscription to one task
/// receives the events about that task only, one to no task receives all.
pub open spec fn accepts(filter: Option<TaskId>, event: Event) -> bool {
    match filter {
        Some(id) => id@ == event.id_of()@,
        None => true,
    }
}

/// Decides whether a subscription with `filter` receives `event`.
pub fn subscription_accepts(filter: &Option<TaskId>, event: &Event) -> (accepted: bool)
    ensures
        accepted == accepts(*filter, *event),
{
    match filter {
        Some(id) => *id == *event.get_task_id(),
        None => true,
    }
}

} // verus!
