//! The `Send`-safe operation queue, under the names of the one that keeps to one
//! thread.
pub use crate::send_operation_queue::{
    BoxedSendOperation as BoxedOperation, ErasedSendQueuedOperation as ErasedQueuedOperation,
    SendOperationQueue as OperationQueue, SendPerforming as Performing,
    SendQueuedOperation as QueuedOperation,
};
