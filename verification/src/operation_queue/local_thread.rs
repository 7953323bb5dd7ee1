//! Operations and a channel for runners that share one thread.
use std::fmt::Debug;
use std::task::{Context, Poll};

use async_channel::{Receiver, Sender, TryRecvError, TrySendError};
use vstd::prelude::*;

use crate::channel::{answer, rest, OperationChannel};
use crate::error::Error;
use crate::operation::Erased;
use crate::runner::Received;

verus! {

/// An operation under way.
pub trait Performing {
    /// Makes progress, until the operation is at its end or has to wait for
    /// something. In the latter case, the task behind `context` is woken when
    /// more progress can be made.
    fn poll(&mut self, context: &mut Context<'_>) -> Poll<()>;
}

/// An operation that can be added to an
/// [`OperationQueue`](crate::OperationQueue).
pub trait QueuedOperation: Debug {
    /// This operation under way.
    type Performing<'op>: Performing where Self: 'op;

    /// Performs the operation. No work is done before the result is polled.
    fn perform<'op>(&'op self) -> Self::Performing<'op>;
}

/// A dyn-compatible version of [`QueuedOperation`]. It is implemented for all
/// types that implement [`QueuedOperation`].
///
/// [`ErasedQueuedOperation`] makes [`QueuedOperation`] dyn-compatible by moving
/// what `perform` returns into a [`Box`], which is essentially an owned pointer
/// and which size is known at compile time. This makes `perform` dispatchable
/// from a trait object.
pub trait ErasedQueuedOperation {
    /// Whether `erased` is this operation under way.
    spec fn performs<'op>(&'op self, erased: Erased<Box<dyn Performing + 'op>>) -> bool;

    /// Performs the operation. No work is done before the result is polled.
    fn perform<'op>(&'op self) -> (erased: Erased<Box<dyn Performing + 'op>>)
        ensures
            self.performs(erased),
    ;
}

impl<T> ErasedQueuedOperation for T where T: QueuedOperation {
    /// The type behind the pointer is the operation's own, and the value is
    /// one that the operation's own `perform` returns.
    open spec fn performs<'op>(&'op self, erased: Erased<Box<dyn Performing + 'op>>) -> bool {
        exists|performing: Box<T::Performing<'op>>|
            #[trigger] call_ensures(<T as QueuedOperation>::perform, (self,), *performing) && ({
                let inner: Box<dyn Performing + 'op> = performing;
                erased.inner == inner
            })
    }

    /// Calls the operation's own `perform` once, and moves what it returns into
    /// a [`Box`]. The contract says what the result is, and leaves open how many
    /// calls were made to get it.
    fn perform<'op>(&'op self) -> (erased: Erased<Box<dyn Performing + 'op>>) {
        let performing: Box<T::Performing<'op>> = Box::new(QueuedOperation::perform(self));
        let ghost own = performing;
        let inner: Box<dyn Performing + 'op> = performing;
        let erased = Erased { inner };
        proof {
            let own_erased: Box<dyn Performing + 'op> = own;
            assert(erased.inner == own_erased);
        }
        erased
    }
}

/// What the erased `perform` of an operation returns is what the operation's own
/// `perform` returns on it, behind a pointer.
pub proof fn law_erased_operation_is_the_same<'op, T: QueuedOperation>(
    op: &'op T,
    erased: Erased<Box<dyn Performing + 'op>>,
)
    requires
        call_ensures(<T as ErasedQueuedOperation>::perform, (op,), erased),
    ensures
        exists|performing: Box<T::Performing<'op>>|
            #[trigger] call_ensures(<T as QueuedOperation>::perform, (op,), *performing) && ({
                let inner: Box<dyn Performing + 'op> = performing;
                erased.inner == inner
            }),
{
}

/// An operation of a type that isn't known to the queue.
pub type BoxedOperation = Erased<Box<dyn ErasedQueuedOperation>>;

/// The operations in the channel that `sender` feeds, the oldest first.
pub uninterp spec fn local_queued(sender: Sender<BoxedOperation>) -> Seq<BoxedOperation>;

/// Whether the channel that `sender` feeds has been closed.
pub uninterp spec fn local_closed(sender: Sender<BoxedOperation>) -> bool;

/// Whether `sender` and `receiver` are the two ends of one unbounded channel,
/// of which neither has been cloned.
pub uninterp spec fn local_connected(
    sender: Sender<BoxedOperation>,
    receiver: Receiver<BoxedOperation>,
) -> bool;

/// A channel of operations for runners that share one thread.
///
/// The two ends never leave this type and are never cloned, so that what the
/// channel holds is known from the calls that are made on it here.
pub struct LocalChannel {
    sender: Sender<BoxedOperation>,
    receiver: Receiver<BoxedOperation>,
}

impl LocalChannel {
    /// Calls `async_channel::unbounded`: it returns the two ends of a new
    /// channel, which is open and holds nothing.
    #[verifier::external_body]
    fn call_unbounded() -> (channel: LocalChannel)
        ensures
            local_connected(channel.sender, channel.receiver),
            local_queued(channel.sender) == Seq::<BoxedOperation>::empty(),
            !local_closed(channel.sender),
    {
        let (sender, receiver) = async_channel::unbounded();
        LocalChannel { sender, receiver }
    }

    /// Calls `async_channel::Sender::is_closed`: it tells whether the channel
    /// has been closed.
    #[verifier::external_body]
    fn call_is_closed(&self) -> (closed: bool)
        requires
            local_connected(self.sender, self.receiver),
        ensures
            closed == local_closed(self.sender),
    {
        self.sender.is_closed()
    }

    /// Calls `async_channel::Sender::try_send`: an open channel takes the
    /// operation behind those that it holds, for an unbounded channel is never
    /// full. A closed one refuses it and stays as it is. The future of
    /// `async_channel::Sender::send` does the same when it is first polled, and
    /// is then at its end.
    #[verifier::external_body]
    fn call_try_send(&mut self, op: BoxedOperation) -> (result: Result<
        (),
        TrySendError<BoxedOperation>,
    >)
        requires
            local_connected(old(self).sender, old(self).receiver),
        ensures
            local_connected(final(self).sender, final(self).receiver),
            local_closed(final(self).sender) == local_closed(old(self).sender),
            result is Ok <==> !local_closed(old(self).sender),
            result is Ok ==> local_queued(final(self).sender) == local_queued(
                old(self).sender,
            ).push(op),
            result is Err ==> local_queued(final(self).sender) == local_queued(old(self).sender),
    {
        self.sender.try_send(op)
    }

    /// Calls `async_channel::Receiver::try_recv`: it takes the oldest operation
    /// out of the channel. Where there is none, it tells whether the channel
    /// has been closed.
    #[verifier::external_body]
    fn call_try_recv(&mut self) -> (received: Received<BoxedOperation>)
        requires
            local_connected(old(self).sender, old(self).receiver),
        ensures
            local_connected(final(self).sender, final(self).receiver),
            local_closed(final(self).sender) == local_closed(old(self).sender),
            received == answer(local_queued(old(self).sender), local_closed(old(self).sender)),
            local_queued(final(self).sender) == rest(local_queued(old(self).sender)),
    {
        match self.receiver.try_recv() {
            Ok(op) => Received::Operation(op),
            Err(TryRecvError::Empty) => Received::Empty,
            Err(TryRecvError::Closed) => Received::Closed,
        }
    }

    /// Calls `async_channel::Sender::close`: it closes the channel, which keeps
    /// what it holds, and tells whether this is the call that closed it.
    #[verifier::external_body]
    fn call_close(&mut self) -> (was_open: bool)
        requires
            local_connected(old(self).sender, old(self).receiver),
        ensures
            local_connected(final(self).sender, final(self).receiver),
            local_closed(final(self).sender),
            local_queued(final(self).sender) == local_queued(old(self).sender),
            was_open == !local_closed(old(self).sender),
    {
        self.sender.close()
    }
}

impl OperationChannel for LocalChannel {
    type Op = BoxedOperation;

    closed spec fn queued(&self) -> Seq<BoxedOperation> {
        local_queued(self.sender)
    }

    closed spec fn closed(&self) -> bool {
        local_closed(self.sender)
    }

    closed spec fn wf(&self) -> bool {
        local_connected(self.sender, self.receiver)
    }

    fn unbounded() -> (channel: Self) {
        LocalChannel::call_unbounded()
    }

    fn is_closed(&self) -> (closed: bool) {
        self.call_is_closed()
    }

    fn send(&mut self, op: BoxedOperation) -> (result: Result<(), Error>) {
        match self.call_try_send(op) {
            Ok(()) => Ok(()),
            Err(_) => Err(Error::Sender),
        }
    }

    fn receive(&mut self) -> (received: Received<BoxedOperation>) {
        self.call_try_recv()
    }

    fn close(&mut self) -> (was_open: bool) {
        self.call_close()
    }
}

} // verus!
