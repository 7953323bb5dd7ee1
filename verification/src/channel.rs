//! The channel through which operations reach the runners.
use vstd::prelude::*;

use crate::error::Error;
use crate::runner::Received;

verus! {

/// `async_channel::Sender`, the sending end of a channel.
#[verifier::external_type_specification]
#[verifier::external_body]
#[verifier::reject_recursive_types(T)]
pub struct ExSender<T>(async_channel::Sender<T>);

/// `async_channel::Receiver`, the receiving end of a channel.
#[verifier::external_type_specification]
#[verifier::external_body]
#[verifier::reject_recursive_types(T)]
pub struct ExReceiver<T>(async_channel::Receiver<T>);

/// `async_channel::TrySendError`, which hands a refused message back.
#[verifier::external_type_specification]
#[verifier::external_body]
#[verifier::reject_recursive_types(T)]
pub struct ExTrySendError<T>(async_channel::TrySendError<T>);

/// An unbounded first-in first-out channel of operations, which can be closed
/// and then takes no more of them.
pub trait OperationChannel: Sized {
    /// What goes through the channel.
    type Op;

    /// The operations that have been sent and not yet received, the oldest
    /// first.
    spec fn queued(&self) -> Seq<Self::Op>;

    /// Whether the channel has been closed.
    spec fn closed(&self) -> bool;

    /// Whether the two ends belong together.
    spec fn wf(&self) -> bool;

    /// Creates an open channel that holds no operation.
    fn unbounded() -> (channel: Self)
        ensures
            channel.wf(),
            channel.queued() == Seq::<Self::Op>::empty(),
            !channel.closed(),
    ;

    /// Checks whether the channel has been closed.
    fn is_closed(&self) -> (closed: bool)
        requires
            self.wf(),
        ensures
            closed == self.closed(),
    ;

    /// Puts an operation behind those that the channel holds. Errors if the
    /// channel has been closed.
    fn send(&mut self, op: Self::Op) -> (result: Result<(), Error>)
        requires
            old(self).wf(),
        ensures
            final(self).wf(),
            final(self).closed() == old(self).closed(),
            old(self).closed() ==> result == Err::<(), Error>(Error::Sender) && final(self).queued()
                == old(self).queued(),
            !old(self).closed() ==> result == Ok::<(), Error>(()) && final(self).queued() == old(
                self,
            ).queued().push(op),
    ;

    /// Takes the oldest operation out of the channel, if it holds one.
    fn receive(&mut self) -> (received: Received<Self::Op>)
        requires
            old(self).wf(),
        ensures
            final(self).wf(),
            final(self).closed() == old(self).closed(),
            received == answer(old(self).queued(), old(self).closed()),
            final(self).queued() == rest(old(self).queued()),
    ;

    /// Closes the channel, and returns whether it was open before. The
    /// operations that it holds stay in it.
    fn close(&mut self) -> (was_open: bool)
        requires
            old(self).wf(),
        ensures
            final(self).wf(),
            final(self).closed(),
            final(self).queued() == old(self).queued(),
            was_open == !old(self).closed(),
    ;
}

/// What a channel that holds `queued` answers to a request for an operation.
pub open spec fn answer<Op>(queued: Seq<Op>, closed: bool) -> Received<Op> {
    if queued.len() > 0 {
        Received::Operation(queued[0])
    } else if closed {
        Received::Closed
    } else {
        Received::Empty
    }
}

/// What a channel that held `queued` holds after such a request.
pub open spec fn rest<Op>(queued: Seq<Op>) -> Seq<Op> {
    if queued.len() > 0 {
        queued.skip(1)
    } else {
        queued
    }
}

} // verus!
