//! A queue that performs operations in order.
//!
//! The queue decides which runner performs which operation, and when a runner
//! has to wait or to exit. Whoever owns the queue spawns one task per runner,
//! which asks for the runner's next step, does as told, and asks again.
use vstd::prelude::*;

use crate::channel::{answer, rest, OperationChannel};
use crate::error::Error;
use crate::operation_queue::local_thread::LocalChannel;
use crate::runner::{Received, Runner, Step};
use crate::runner_state::RunnerState;

pub mod local_thread;

verus! {

/// What a queue consists of, mathematically.
#[verifier::ext_equal]
#[verifier::reject_recursive_types(Op)]
pub struct QueueState<Op> {
    /// The operations that no runner has been given yet, the oldest first.
    pub queued: Seq<Op>,
    /// Whether the queue has been stopped.
    pub stopped: bool,
    /// All runners that were ever made, in that order. A runner is known by its
    /// position in here.
    pub made: Seq<Runner>,
    /// The positions of the runners that the queue keeps track of, in the order
    /// in which they were recorded.
    pub runners: Seq<usize>,
}

/// A call for runners that has been granted, and how far it has come.
#[derive(Clone, Copy, Debug, PartialEq, Eq, Structural)]
pub struct Start {
    /// How many runners were called for.
    pub count: u32,
    /// How many of them have been made, which is also the id of the next one.
    pub next: u32,
}

impl<Op> QueueState<Op> {
    /// A queue to which nothing has happened yet.
    pub open spec fn initial() -> Self {
        QueueState {
            queued: Seq::empty(),
            stopped: false,
            made: Seq::empty(),
            runners: Seq::empty(),
        }
    }

    /// Whether there is a runner at position `at`.
    pub open spec fn has_runner(self, at: int) -> bool {
        0 <= at < self.made.len()
    }

    /// The runners that the queue keeps track of.
    pub open spec fn known_runners(self) -> Seq<Runner> {
        Seq::new(self.runners.len(), |i: int| self.made[self.runners[i] as int])
    }

    /// Whether the runner at position `at` can be recorded: there is one, and
    /// the queue doesn't keep track of it yet.
    pub open spec fn can_record(self, at: usize) -> bool {
        self.has_runner(at as int) && !self.runners.contains(at)
    }

    /// What holds of every queue: it keeps track of runners that there are, of
    /// each of them once, and no runner stops before the queue is stopped and
    /// drained.
    pub open spec fn valid(self) -> bool {
        &&& self.runners.no_duplicates()
        &&& forall|i: int|
            0 <= i < self.runners.len() ==> self.has_runner(#[trigger] self.runners[i] as int)
        &&& forall|at: int|
            self.has_runner(at) && (#[trigger] self.made[at]).state == RunnerState::Stopped
                ==> self.stopped && self.queued.len() == 0
    }

    /// What a call for `count` runners returns.
    pub open spec fn start_result(self, count: u32) -> Result<Start, Error> {
        if self.stopped {
            Err(Error::Stopped)
        } else {
            Ok(Start { count, next: 0 })
        }
    }

    /// The queue after a runner has been made.
    pub open spec fn after_make(self, id: u32) -> Self {
        QueueState { made: self.made.push(Runner { id, state: RunnerState::Pending }), ..self }
    }

    /// The queue after the runner at position `at` has been recorded.
    pub open spec fn after_record(self, at: usize) -> Self {
        QueueState { runners: self.runners.push(at), ..self }
    }

    /// The queue after an attempt to enqueue `op`.
    pub open spec fn after_enqueue(self, op: Op) -> Self {
        if self.stopped {
            self
        } else {
            QueueState { queued: self.queued.push(op), ..self }
        }
    }

    /// What an attempt to enqueue an operation returns.
    pub open spec fn enqueue_result(self) -> Result<(), Error> {
        if self.stopped {
            Err(Error::Sender)
        } else {
            Ok(())
        }
    }

    /// The queue after a call to stop it.
    pub open spec fn after_stop(self) -> Self {
        QueueState { stopped: true, runners: Seq::empty(), ..self }
    }

    /// What a runner is told when it asks for an operation.
    pub open spec fn answer(self) -> Received<Op> {
        answer(self.queued, self.stopped)
    }

    /// The queue after the runner at position `at` has entered `state`.
    pub open spec fn with_state(self, at: int, state: RunnerState) -> Self {
        QueueState { made: self.made.update(at, Runner { id: self.made[at].id, state }), ..self }
    }

    /// The queue after the runner at position `at` has been told whether there
    /// is an operation for it.
    pub open spec fn after_receive(self, at: int) -> Self {
        QueueState { queued: rest(self.queued), ..self.with_state(at, self.answer().state()) }
    }

    /// The queue after the runner at position `at` has asked for its next step:
    /// the runner waits, and is then told whether there is an operation for it.
    /// One that has left its main loop stays out of it.
    pub open spec fn after_run(self, at: int) -> Self {
        if self.made[at].state == RunnerState::Stopped {
            self
        } else {
            self.with_state(at, RunnerState::Waiting).after_receive(at)
        }
    }

    /// The next step of the runner at position `at`.
    pub open spec fn next_step(self, at: int) -> Step<Op> {
        if self.made[at].state == RunnerState::Stopped {
            Step::Exit
        } else {
            self.answer().step()
        }
    }

    /// Whether one of the runners that the queue keeps track of is in another
    /// state than `Stopped`.
    pub open spec fn running(self) -> bool {
        exists|i: int|
            0 <= i < self.known_runners().len() && (#[trigger] self.known_runners()[i]).state
                != RunnerState::Stopped
    }

    /// Whether all the runners that the queue keeps track of are waiting.
    pub open spec fn idle(self) -> bool {
        forall|i: int|
            0 <= i < self.known_runners().len() ==> (#[trigger] self.known_runners()[i]).state
                == RunnerState::Waiting
    }
}

/// Making a runner keeps a queue valid.
pub(crate) proof fn lemma_valid_after_make<Op>(queue: QueueState<Op>, id: u32)
    requires
        queue.valid(),
    ensures
        queue.after_make(id).valid(),
{
}

/// Recording a runner keeps a queue valid.
pub(crate) proof fn lemma_valid_after_record<Op>(queue: QueueState<Op>, at: usize)
    requires
        queue.valid(),
        queue.can_record(at),
    ensures
        queue.after_record(at).valid(),
{
}

/// An attempt to enqueue an operation keeps a queue valid.
pub(crate) proof fn lemma_valid_after_enqueue<Op>(queue: QueueState<Op>, op: Op)
    requires
        queue.valid(),
    ensures
        queue.after_enqueue(op).valid(),
{
}

/// A round of a runner keeps a queue valid.
pub(crate) proof fn lemma_valid_after_run<Op>(queue: QueueState<Op>, at: int)
    requires
        queue.valid(),
        queue.has_runner(at),
    ensures
        queue.after_run(at).valid(),
{
}

/// How many elements of `s` satisfy `p` tells whether some do and whether all
/// do.
proof fn lemma_filter_count<A>(s: Seq<A>, p: spec_fn(A) -> bool)
    ensures
        s.filter(p).len() <= s.len(),
        s.filter(p).len() > 0 <==> exists|i: int| 0 <= i < s.len() && p(#[trigger] s[i]),
        s.filter(p).len() == s.len() <==> forall|i: int| 0 <= i < s.len() ==> p(#[trigger] s[i]),
    decreases s.len(),
{
    reveal(Seq::filter);
    if s.len() > 0 {
        let init = s.drop_last();
        lemma_filter_count(init, p);
        assert(forall|i: int| 0 <= i < init.len() ==> init[i] == s[i]);
    }
}

/// A queue that performs operations in order.
pub struct OperationQueue<C: OperationChannel = LocalChannel> {
    channel: C,
    made: Vec<Runner>,
    runners: Vec<usize>,
}

impl<C: OperationChannel> View for OperationQueue<C> {
    type V = QueueState<C::Op>;

    closed spec fn view(&self) -> QueueState<C::Op> {
        QueueState {
            queued: self.channel.queued(),
            stopped: self.channel.closed(),
            made: self.made@,
            runners: self.runners@,
        }
    }
}

impl<C: OperationChannel> OperationQueue<C> {
    /// Whether the queue's channel is intact.
    pub closed spec fn connected(&self) -> bool {
        self.channel.wf()
    }

    /// What holds of every queue.
    pub open spec fn wf(&self) -> bool {
        &&& self.connected()
        &&& self@.valid()
    }

    /// Creates a new operation queue.
    pub fn new() -> (queue: Self)
        ensures
            queue.wf(),
            queue@ == QueueState::<C::Op>::initial(),
    {
        let queue = OperationQueue {
            channel: C::unbounded(),
            made: Vec::new(),
            runners: Vec::new(),
        };
        queue
    }

    /// Begins to start `runners` runners that consume operations pushed to the
    /// queue. Errors if the queue has previously been stopped.
    ///
    /// The caller makes them one by one with
    /// [`next_runner`](OperationQueue::next_runner), spawns a task for each,
    /// and then reports it with [`spawned`](OperationQueue::spawned).
    pub fn start(&self, runners: u32) -> (result: Result<Start, Error>)
        requires
            self.wf(),
        ensures
            result == self@.start_result(runners),
            result is Ok <==> !self@.stopped,
            result is Ok ==> result->Ok_0.count == runners && result->Ok_0.next == 0,
    {
        if self.channel.is_closed() {
            return Err(Error::Stopped);
        }
        Ok(Start { count: runners, next: 0 })
    }

    /// Makes the next runner that was called for, and returns its position.
    /// Returns `None` when all of them have been made. The queue doesn't keep
    /// track of the runner yet.
    pub fn next_runner(&mut self, start: &mut Start) -> (at: Option<usize>)
        requires
            old(self).wf(),
        ensures
            final(self).wf(),
            final(start).count == old(start).count,
            if old(start).next < old(start).count {
                &&& at is Some
                &&& at->0 == old(self)@.made.len()
                &&& final(self)@.can_record(at->0)
                &&& final(start).next == old(start).next + 1
                &&& final(self)@ == old(self)@.after_make(old(start).next)
            } else {
                &&& at is None
                &&& final(start).next == old(start).next
                &&& final(self)@ == old(self)@
            },
    {
        if start.next >= start.count {
            return None;
        }
        let at: usize = self.made.len();
        self.made.push(Runner::new(start.next));
        proof {
            lemma_valid_after_make(old(self)@, start.next);
        }
        start.next = start.next + 1;
        Some(at)
    }

    /// Checks whether the runner at position `at` can be recorded: there is one,
    /// and the queue doesn't keep track of it yet.
    pub fn can_record(&self, at: usize) -> (free: bool)
        requires
            self.wf(),
        ensures
            free == self@.can_record(at),
    {
        for i in 0..self.runners.len()
            invariant
                forall|j: int| 0 <= j < i ==> self.runners@[j] != at,
        {
            if self.runners[i] == at {
                return false;
            }
        }
        self.has_runner(at)
    }

    /// Makes the queue keep track of the runner at position `at`, for which a
    /// task has been spawned.
    pub fn spawned(&mut self, at: usize)
        requires
            old(self).wf(),
            old(self)@.can_record(at),
        ensures
            final(self).wf(),
            final(self)@ == old(self)@.after_record(at),
    {
        self.runners.push(at);
        proof {
            lemma_valid_after_record(old(self)@, at);
        }
    }

    /// Pushes an operation to the back of the queue. Errors if the queue has
    /// been stopped.
    pub fn enqueue(&mut self, op: C::Op) -> (result: Result<(), Error>)
        requires
            old(self).wf(),
        ensures
            final(self).wf(),
            final(self)@ == old(self)@.after_enqueue(op),
            result == old(self)@.enqueue_result(),
            result is Ok <==> !old(self)@.stopped,
            result is Ok ==> final(self)@.queued == old(self)@.queued.push(op),
    {
        let result = self.channel.send(op);
        proof {
            lemma_valid_after_enqueue(old(self)@, op);
        }
        result
    }

    /// Stops the queue, and returns whether it hadn't been stopped before.
    /// Already-queued operations still run, but subsequent
    /// [`start`](OperationQueue::start)/[`enqueue`](OperationQueue::enqueue)
    /// calls will fail.
    pub fn stop(&mut self) -> (was_open: bool)
        requires
            old(self).wf(),
        ensures
            final(self).wf(),
            final(self)@ == old(self)@.after_stop(),
            was_open == !old(self)@.stopped,
    {
        let was_open = self.channel.close();
        // The runners finish on their own.
        self.runners.clear();
        was_open
    }

    /// Checks whether the queue has been stopped.
    pub fn stopped(&self) -> (stopped: bool)
        requires
            self.wf(),
        ensures
            stopped == self@.stopped,
    {
        self.channel.is_closed()
    }

    /// Checks whether there is a runner at position `at`.
    pub fn has_runner(&self, at: usize) -> (found: bool)
        requires
            self.wf(),
        ensures
            found == self@.has_runner(at as int),
    {
        at < self.made.len()
    }

    /// Takes the runner at position `at` through one round of its main loop:
    /// the runner asks for an operation, and is told what to do next. It may
    /// ask again when it has done so.
    pub fn run(&mut self, at: usize) -> (step: Step<C::Op>)
        requires
            old(self).wf(),
            old(self)@.has_runner(at as int),
        ensures
            final(self).wf(),
            final(self)@ == old(self)@.after_run(at as int),
            step == old(self)@.next_step(at as int),
            old(self)@.queued.len() > 0 ==> step == Step::Perform(old(self)@.queued[0]),
            step is Exit <==> old(self)@.stopped && old(self)@.queued.len() == 0,
            step is Wait <==> !old(self)@.stopped && old(self)@.queued.len() == 0,
    {
        let mut runner = self.made[at];
        if matches!(runner.state(), RunnerState::Stopped) {
            return Step::Exit;
        }
        runner.wait();
        self.made.set(at, runner);
        let received = self.channel.receive();
        let step = runner.receive(received);
        self.made.set(at, runner);
        proof {
            lemma_valid_after_run(old(self)@, at as int);
        }
        step
    }

    /// Counts the runners that are currently active (any state other than fully
    /// stopped, including pending).
    pub fn active_runners(&self) -> (count: usize)
        requires
            self.wf(),
        ensures
            count == self@.known_runners().filter(
                |runner: Runner| runner.state != RunnerState::Stopped,
            ).len(),
    {
        let active = |runner: &Runner| -> (matched: bool)
            ensures
                matched == (runner.state != RunnerState::Stopped),
            {
                !matches!(runner.state(), RunnerState::Stopped)
            };
        self.count_matching_runners(
            active,
            Ghost(|runner: Runner| runner.state != RunnerState::Stopped),
        )
    }

    /// Counts the runners that are currently waiting for an operation.
    pub fn idle_runners(&self) -> (count: usize)
        requires
            self.wf(),
        ensures
            count == self@.known_runners().filter(
                |runner: Runner| runner.state == RunnerState::Waiting,
            ).len(),
    {
        let waiting = |runner: &Runner| -> (matched: bool)
            ensures
                matched == (runner.state == RunnerState::Waiting),
            {
                matches!(runner.state(), RunnerState::Waiting)
            };
        self.count_matching_runners(
            waiting,
            Ghost(|runner: Runner| runner.state == RunnerState::Waiting),
        )
    }

    /// Checks whether one or more runners are currently active (any state
    /// other than fully stopped, including pending).
    pub fn running(&self) -> (running: bool)
        requires
            self.wf(),
        ensures
            running == self@.running(),
    {
        proof {
            lemma_filter_count(
                self@.known_runners(),
                |runner: Runner| runner.state != RunnerState::Stopped,
            );
        }
        self.active_runners() > 0
    }

    /// Checks whether all runners are currently waiting for an operation.
    pub fn idle(&self) -> (idle: bool)
        requires
            self.wf(),
        ensures
            idle == self@.idle(),
    {
        proof {
            lemma_filter_count(
                self@.known_runners(),
                |runner: Runner| runner.state == RunnerState::Waiting,
            );
        }
        self.idle_runners() == self.runners.len()
    }

    /// Counts the runners that match `predicate`, which computes `matching`.
    fn count_matching_runners<P>(
        &self,
        predicate: P,
        Ghost(matching): Ghost<spec_fn(Runner) -> bool>,
    ) -> (count: usize) where P: Fn(&Runner) -> bool
        requires
            self.wf(),
            forall|runner: &Runner| call_requires(predicate, (runner,)),
            forall|runner: &Runner, matched: bool| #[trigger]
                call_ensures(predicate, (runner,), matched) ==> matched == matching(*runner),
        ensures
            count == self@.known_runners().filter(matching).len(),
    {
        let ghost known = self@.known_runners();
        let mut count: usize = 0;
        for i in 0..self.runners.len()
            invariant
                self.wf(),
                known == self@.known_runners(),
                forall|runner: &Runner| call_requires(predicate, (runner,)),
                forall|runner: &Runner, matched: bool| #[trigger]
                    call_ensures(predicate, (runner,), matched) ==> matched == matching(*runner),
                count == known.take(i as int).filter(matching).len(),
                count <= i <= self.runners.len(),
        {
            proof {
                reveal(Seq::filter);
                assert(known.take(i + 1).drop_last() == known.take(i as int));
            }
            if predicate(&self.made[self.runners[i]]) {
                count += 1;
            }
        }
        assert(known.take(self.runners.len() as int) == known);
        count
    }
}

} // verus!
