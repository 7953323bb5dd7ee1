//! Runners, which take operations off a queue one at a time.
use vstd::prelude::*;

use crate::runner_state::RunnerState;

verus! {

/// What a channel answers to a request for its next operation.
pub enum Received<Op> {
    /// The operation that had been in the channel for the longest time.
    Operation(Op),
    /// The channel holds no operation, but may be given one later.
    Empty,
    /// The channel holds no operation and never will again.
    Closed,
}

/// What a runner has to do next.
pub enum Step<Op> {
    /// Perform this operation to its end, then ask for the next step.
    Perform(Op),
    /// Ask for the next step once an operation has been enqueued or the queue
    /// has been stopped.
    Wait,
    /// Leave the main loop.
    Exit,
}

impl<Op> Received<Op> {
    /// The state of a runner to which the channel has given this answer.
    pub open spec fn state(self) -> RunnerState {
        match self {
            Received::Operation(_) => RunnerState::Running,
            Received::Empty => RunnerState::Waiting,
            Received::Closed => RunnerState::Stopped,
        }
    }

    /// The next step of a runner to which the channel has given this answer.
    pub open spec fn step(self) -> Step<Op> {
        match self {
            Received::Operation(op) => Step::Perform(op),
            Received::Empty => Step::Wait,
            Received::Closed => Step::Exit,
        }
    }
}

/// A runner created by an operation queue. It alternates between waiting for
/// an operation and performing one, until the queue's channel is closed and
/// drained.
#[derive(Clone, Copy, Debug, PartialEq, Eq, Structural)]
pub struct Runner {
    /// Tells apart the runners that were started together.
    pub id: u32,
    /// What the runner is doing.
    pub state: RunnerState,
}

impl Runner {
    /// Creates a runner that hasn't entered its main loop yet.
    pub fn new(id: u32) -> (runner: Runner)
        ensures
            runner == (Runner { id, state: RunnerState::Pending }),
    {
        Runner { id, state: RunnerState::Pending }
    }

    /// Enters the next round of the main loop: the runner is about to ask the
    /// channel for an operation.
    pub fn wait(&mut self)
        ensures
            *final(self) == (Runner { id: old(self).id, state: RunnerState::Waiting }),
    {
        self.state = RunnerState::Waiting;
    }

    /// Acts on the channel's answer: the runner performs the operation that it
    /// was given, keeps waiting while there is none, and stops when there will
    /// be no more.
    pub fn receive<Op>(&mut self, received: Received<Op>) -> (step: Step<Op>)
        ensures
            *final(self) == (Runner { id: old(self).id, state: received.state() }),
            step == received.step(),
            match received {
                Received::Operation(op) => step == Step::Perform(op) && final(self).state
                    == RunnerState::Running,
                Received::Empty => step is Wait && final(self).state == RunnerState::Waiting,
                Received::Closed => step is Exit && final(self).state == RunnerState::Stopped,
            },
    {
        match received {
            Received::Operation(op) => {
                self.state = RunnerState::Running;
                Step::Perform(op)
            },
            Received::Empty => {
                self.state = RunnerState::Waiting;
                Step::Wait
            },
            Received::Closed => {
                self.state = RunnerState::Stopped;
                Step::Exit
            },
        }
    }

    /// Gets the runner's current state.
    pub fn state(&self) -> (state: RunnerState)
        ensures
            state == self.state,
    {
        self.state
    }
}

} // verus!
