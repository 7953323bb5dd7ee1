//! `Send`-safe variant of the operation queue, whose runners may be spread over
//! several threads.
use std::fmt::Debug;
use std::task::{Context, Poll};

use async_channel::{Receiver, Sender, TryRecvError, TrySendError};
use vstd::prelude::*;

use crate::channel::{answer, rest, OperationChannel};
use crate::error::Error;
use crate::operation::Erased;
use crate::operation_queue::OperationQueue;
use crate::runner::Received;

verus! {

/// An operation under way, which can be moved to another thread.
pub trait SendPerforming: Send {
    /// Makes progress, until the operation is at its end or has to wait for
    /// something. In the latter case, the task behind `context` is woken when
    /// more progress can be made.
    fn poll(&mut self, context: &mut Context<'_>) -> Poll<()>;
}

/// An operation that can be added to a [`SendOperationQueue`]. `Send`-safe
/// counterpart to [`QueuedOperation`](crate::QueuedOperation).
pub trait SendQueuedOperation: Debug + Send {
    /// This operation under way.
    type Performing<'op>: SendPerforming where Self: 'op;

    /// Performs the operation. No work is done before the result is polled.
    fn perform<'op>(&'op self) -> Self::Performing<'op>;
}

/// A dyn-compatible version of [`SendQueuedOperation`]. It is implemented for
/// all types that implement [`SendQueuedOperation`]. See
/// [`ErasedQueuedOperation`](crate::ErasedQueuedOperation) for why this is
/// necessary.
pub trait ErasedSendQueuedOperation: Send {
    /// Whether `erased` is this operation under way.
    spec fn performs<'op>(&'op self, erased: Erased<Box<dyn SendPerforming + 'op>>) -> bool;

    /// Performs the operation. No work is done before the result is polled.
    fn perform<'op>(&'op self) -> (erased: Erased<Box<dyn SendPerforming + 'op>>)
        ensures
            self.performs(erased),
    ;
}

impl<T> ErasedSendQueuedOperation for T where T: SendQueuedOperation {
    /// The type behind the pointer is the operation's own, and the value is
    /// one that the operation's own `perform` returns.
    open spec fn performs<'op>(&'op self, erased: Erased<Box<dyn SendPerforming + 'op>>) -> bool {
        exists|performing: Box<T::Performing<'op>>|
            #[trigger] call_ensures(<T as SendQueuedOperation>::perform, (self,), *performing) && ({
                let inner: Box<dyn SendPerforming + 'op> = performing;
                erased.inner == inner
            })
    }

    /// Calls the operation's own `perform` once, and moves what it returns into
    /// a [`Box`]. The contract says what the result is, and leaves open how many
    /// calls were made to get it.
    fn perform<'op>(&'op self) -> (erased: Erased<Box<dyn SendPerforming + 'op>>) {
        let performing: Box<T::Performing<'op>> = Box::new(SendQueuedOperation::perform(self));
        let ghost own = performing;
        let inner: Box<dyn SendPerforming + 'op> = performing;
        let erased = Erased { inner };
        proof {
            let own_erased: Box<dyn SendPerforming + 'op> = own;
            assert(erased.inner == own_erased);
        }
        erased
    }
}

/// What the erased `perform` of an operation returns is what the operation's own
/// `perform` returns on it, behind a pointer.
pub proof fn law_erased_operation_is_the_same<'op, T: SendQueuedOperation>(
    op: &'op T,
    erased: Erased<Box<dyn SendPerforming + 'op>>,
)
    requires
        call_ensures(<T as ErasedSendQueuedOperation>::perform, (op,), erased),
    ensures
        exists|performing: Box<T::Performing<'op>>|
            #[trigger] call_ensures(<T as SendQueuedOperation>::perform, (op,), *performing) && ({
                let inner: Box<dyn SendPerforming + 'op> = performing;
                erased.inner == inner
            }),
{
}

/// An operation that can be moved to another thread, of a type that isn't known
/// to the queue.
pub type BoxedSendOperation = Erased<Box<dyn ErasedSendQueuedOperation>>;

/// The operations in the channel that `sender` feeds, the oldest first.
pub uninterp spec fn send_queued(sender: Sender<BoxedSendOperation>) -> Seq<BoxedSendOperation>;

/// Whether the channel that `sender` feeds has been closed.
pub uninterp spec fn send_closed(sender: Sender<BoxedSendOperation>) -> bool;

/// Whether `sender` and `receiver` are the two ends of one unbounded channel,
/// of which neither has been cloned.
pub uninterp spec fn send_connected(
    sender: Sender<BoxedSendOperation>,
    receiver: Receiver<BoxedSendOperation>,
) -> bool;

/// A channel of operations for runners that may be spread over several threads.
///
/// The two ends never leave this type and are never cloned, so that what the
/// channel holds is known from the calls that are made on it here.
pub struct SendChannel {
    sender: Sender<BoxedSendOperation>,
    receiver: Receiver<BoxedSendOperation>,
}

impl SendChannel {
    /// Calls `async_channel::unbounded`: it returns the two ends of a new
    /// channel, which is open and holds nothing.
    #[verifier::external_body]
    fn call_unbounded() -> (channel: SendChannel)
        ensures
            send_connected(channel.sender, channel.receiver),
            send_queued(channel.sender) == Seq::<BoxedSendOperation>::empty(),
            !send_closed(channel.sender),
    {
        let (sender, receiver) = async_channel::unbounded();
        SendChannel { sender, receiver }
    }

    /// Calls `async_channel::Sender::is_closed`: it tells whether the channel
    /// has been closed.
    #[verifier::external_body]
    fn call_is_closed(&self) -> (closed: bool)
        requires
            send_connected(self.sender, self.receiver),
        ensures
            closed == send_closed(self.sender),
    {
        self.sender.is_closed()
    }

    /// Calls `async_channel::Sender::try_send`: an open channel takes the
    /// operation behind those that it holds, for an unbounded channel is never
    /// full. A closed one refuses it and stays as it is. The future of
    /// `async_channel::Sender::send` does the same when it is first polled, and
    /// is then at its end.
    #[verifier::external_body]
    fn call_try_send(&mut self, op: BoxedSendOperation) -> (result: Result<
        (),
        TrySendError<BoxedSendOperation>,
    >)
        requires
            send_connected(old(self).sender, old(self).receiver),
        ensures
            send_connected(final(self).sender, final(self).receiver),
            send_closed(final(self).sender) == send_closed(old(self).sender),
            result is Ok <==> !send_closed(old(self).sender),
            result is Ok ==> send_queued(final(self).sender) == send_queued(
                old(self).sender,
            ).push(op),
            result is Err ==> send_queued(final(self).sender) == send_queued(old(self).sender),
    {
        self.sender.try_send(op)
    }

    /// Calls `async_channel::Receiver::try_recv`: it takes the oldest operation
    /// out of the channel. Where there is none, it tells whether the channel
    /// has been closed.
    #[verifier::external_body]
    fn call_try_recv(&mut self) -> (received: Received<BoxedSendOperation>)
        requires
            send_connected(old(self).sender, old(self).receiver),
        ensures
            send_connected(final(self).sender, final(self).receiver),
            send_closed(final(self).sender) == send_closed(old(self).sender),
            received == answer(send_queued(old(self).sender), send_closed(old(self).sender)),
            send_queued(final(self).sender) == rest(send_queued(old(self).sender)),
    {
        match self.receiver.try_recv() {
            Ok(op) => Received::Operation(op),
            Err(TryRecvError::Empty) => Received::Empty,
            Err(TryRecvError::Closed) => Received::Closed,
        }
    }

    /// Calls `async_channel::Sender::close`: it closes the channel, which keeps
    /// what it holds, and tells whether this is the call that closed it.
    #[verifier::external_body]
    fn call_close(&mut self) -> (was_open: bool)
        requires
            send_connected(old(self).sender, old(self).receiver),
        ensures
            send_connected(final(self).sender, final(self).receiver),
            send_closed(final(self).sender),
            send_queued(final(self).sender) == send_queued(old(self).sender),
            was_open == !send_closed(old(self).sender),
    {
        self.sender.close()
    }
}

impl OperationChannel for SendChannel {
    type Op = BoxedSendOperation;

    closed spec fn queued(&self) -> Seq<BoxedSendOperation> {
        send_queued(self.sender)
    }

    closed spec fn closed(&self) -> bool {
        send_closed(self.sender)
    }

    closed spec fn wf(&self) -> bool {
        send_connected(self.sender, self.receiver)
    }

    fn unbounded() -> (channel: Self) {
        SendChannel::call_unbounded()
    }

    fn is_closed(&self) -> (closed: bool) {
        self.call_is_closed()
    }

    fn send(&mut self, op: BoxedSendOperation) -> (result: Result<(), Error>) {
        match self.call_try_send(op) {
            Ok(()) => Ok(()),
            Err(_) => Err(Error::Sender),
        }
    }

    fn receive(&mut self) -> (received: Received<BoxedSendOperation>) {
        self.call_try_recv()
    }

    fn close(&mut self) -> (was_open: bool) {
        self.call_close()
    }
}

/// `Send`-safe counterpart to the [`OperationQueue`] that keeps to one thread.
/// Takes [`SendQueuedOperation`] instead of
/// [`QueuedOperation`](crate::QueuedOperation).
pub type SendOperationQueue = OperationQueue<SendChannel>;

} // verus!
