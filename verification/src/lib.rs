//! Queues that perform operations in order.
//!
//! An [`OperationQueue`] takes operations and hands them to its runners, oldest
//! first. It does no waiting of its own: a task that is spawned for each runner
//! asks the queue for the runner's next [`Step`], and performs the operation
//! that it is given, waits for the queue to change, or exits.
//!
//! [`SendOperationQueue`] does the same for operations that can be moved between
//! threads. What holds of both over any course of events is in [`laws`].
pub mod channel;
pub mod error;
pub mod laws;
pub mod multi_thread;
pub mod operation;
pub mod operation_queue;
pub mod runner;
pub mod runner_state;
pub mod send_operation_queue;

pub use error::Error;
pub use operation::Erased;
pub use operation_queue::local_thread::{
    BoxedOperation, ErasedQueuedOperation, LocalChannel, Performing, QueuedOperation,
};
pub use operation_queue::{OperationQueue, Start};
pub use runner::{Received, Runner, Step};
pub use runner_state::RunnerState;
pub use send_operation_queue::{
    BoxedSendOperation, ErasedSendQueuedOperation, SendChannel, SendOperationQueue, SendPerforming,
    SendQueuedOperation,
};
