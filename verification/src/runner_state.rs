//! The states that a runner goes through.
use vstd::prelude::*;

verus! {

/// The status of a runner.
#[derive(Clone, Copy, Debug, PartialEq, Eq, Structural)]
pub enum RunnerState {
    /// The runner has been created but isn't running yet.
    Pending,
    /// The runner is currently waiting for an operation to perform.
    Waiting,
    /// The runner is currently performing an operation.
    Running,
    /// The runner has finished performing its last operation and has exited
    /// its main loop.
    Stopped,
}

} // verus!
