//! A task queue: producers push tasks (optionally delayed until a maturity
//! time), consumers claim mature tasks and acknowledge them with an output,
//! and observers wait for a task's output.
//!
//! The crate holds the queue's data model, the in-memory storage engine with
//! its state transitions, and the decisions that the asynchronous queue driver
//! takes between its storage and event calls.

pub mod task;
pub mod basic;
pub mod claim;
pub mod event;
pub mod storage;
pub mod lifecycle;
pub mod queue;

mod runtime;
