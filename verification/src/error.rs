//! Errors reported by the operation queues.
use vstd::prelude::*;

verus! {

/// The ways in which a request to a queue can be refused.
#[derive(Clone, Copy, Debug, PartialEq, Eq, Structural)]
pub enum Error {
    /// An operation could not be handed to the runners, because the queue has
    /// been stopped.
    Sender,
    /// Runners could not be started, because the queue has been stopped.
    Stopped,
}

} // verus!
