//! A minimal in-process task scheduler: work items carry a priority class
//! and are held in a priority-ordered queue. The queue guarantees that a
//! pop always yields a task of highest priority among those held; a feeder
//! manufactures a bounded stream of tasks, and an intake step executes an
//! arriving task and derives two follow-up tasks from its result.

pub mod feeder;
pub mod intake;
pub mod priority;
pub mod queue;
pub mod task;
