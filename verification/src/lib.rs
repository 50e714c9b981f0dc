//! An embedded background task scheduler: it keeps task definitions
//! (a trigger paired with an action), discovers which tasks are due,
//! executes their actions, and records execution history.
//!
//! The store itself is an in-memory table of tasks and execution records;
//! a host application is expected to persist it and to deliver the
//! [`types::HostEvent`] values that the executor returns.

pub mod actions;
pub mod commands;
pub mod evaluator;
pub mod executor;
pub mod laws;
pub mod runner;
pub mod runtime;
pub mod store;
pub mod types;

pub use runner::SchedulerRunner;
pub use store::TaskStore;
pub use types::{ApiAction, ApiTask, ApiTaskExecution, ApiTrigger, HostEvent, TaskError};
