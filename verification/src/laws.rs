//! What holds of a queue over any course of events.
use vstd::multiset::Multiset;
use vstd::prelude::*;

use crate::error::Error;
use crate::operation_queue::{
    lemma_valid_after_enqueue, lemma_valid_after_make, lemma_valid_after_record,
    lemma_valid_after_run, QueueState, Start,
};
use crate::runner::{Runner, Step};
use crate::runner_state::RunnerState;

verus! {

/// Something that happens to a queue.
pub enum Event<Op> {
    /// A runner with this id is made.
    Make(u32),
    /// The runner at this position is recorded. Nothing happens where there is
    /// no runner at this position, or the queue already keeps track of it.
    Record(usize),
    /// An attempt to enqueue this operation.
    Enqueue(Op),
    /// A call to stop the queue.
    Stop,
    /// The runner at this position asks for its next step. Nothing happens
    /// where there is no runner at this position.
    Run(int),
}

impl<Op> QueueState<Op> {
    /// The queue after `event`.
    pub open spec fn next(self, event: Event<Op>) -> Self {
        match event {
            Event::Make(id) => self.after_make(id),
            Event::Record(at) => if self.can_record(at) {
                self.after_record(at)
            } else {
                self
            },
            Event::Enqueue(op) => self.after_enqueue(op),
            Event::Stop => self.after_stop(),
            Event::Run(at) => if self.has_runner(at) {
                self.after_run(at)
            } else {
                self
            },
        }
    }

    /// The queue after all of `events`, in this order.
    pub open spec fn after(self, events: Seq<Event<Op>>) -> Self
        decreases events.len(),
    {
        if events.len() == 0 {
            self
        } else {
            self.after(events.drop_last()).next(events.last())
        }
    }

    /// The operations that the queue takes during `events`, in the order in
    /// which they are enqueued. Those that it refuses are left out.
    pub open spec fn accepted(self, events: Seq<Event<Op>>) -> Seq<Op>
        decreases events.len(),
    {
        if events.len() == 0 {
            Seq::empty()
        } else {
            let before = self.after(events.drop_last());
            match events.last() {
                Event::Enqueue(op) if before.enqueue_result() is Ok => self.accepted(
                    events.drop_last(),
                ).push(op),
                _ => self.accepted(events.drop_last()),
            }
        }
    }

    /// The operation that a runner is told to perform at `event`, as a sequence
    /// of at most one.
    pub open spec fn given(self, event: Event<Op>) -> Seq<Op> {
        match event {
            Event::Run(at) if self.has_runner(at) => match self.next_step(at) {
                Step::Perform(op) => seq![op],
                _ => Seq::empty(),
            },
            _ => Seq::empty(),
        }
    }

    /// The operations that runners are told to perform during `events`, in the
    /// order in which they are told to.
    pub open spec fn performed(self, events: Seq<Event<Op>>) -> Seq<Op>
        decreases events.len(),
    {
        if events.len() == 0 {
            Seq::empty()
        } else {
            self.performed(events.drop_last()) + self.after(events.drop_last()).given(events.last())
        }
    }

    /// The operations that the runner at position `at` is told to perform
    /// during `events`, in the order in which it is told to.
    pub open spec fn performed_by(self, events: Seq<Event<Op>>, at: int) -> Seq<Op>
        decreases events.len(),
    {
        if events.len() == 0 {
            Seq::empty()
        } else if events.last() == Event::<Op>::Run(at) {
            self.performed_by(events.drop_last(), at) + self.after(events.drop_last()).given(
                events.last(),
            )
        } else {
            self.performed_by(events.drop_last(), at)
        }
    }

    /// The operations that the runners at the first `count` positions are told
    /// to perform during `events`.
    pub open spec fn performed_by_first(self, events: Seq<Event<Op>>, count: nat) -> Multiset<Op>
        decreases count,
    {
        if count == 0 {
            Multiset::empty()
        } else {
            self.performed_by_first(events, (count - 1) as nat).add(
                self.performed_by(events, count - 1).to_multiset(),
            )
        }
    }

    /// How many times during `events` a runner asks for its next step.
    pub open spec fn rounds(self, events: Seq<Event<Op>>) -> nat
        decreases events.len(),
    {
        if events.len() == 0 {
            0
        } else {
            let before = self.after(events.drop_last());
            match events.last() {
                Event::Run(at) if before.has_runner(at) => self.rounds(events.drop_last()) + 1,
                _ => self.rounds(events.drop_last()),
            }
        }
    }

    /// The states that the runner at position `at` is in one after the other,
    /// from its present one to that after `events`. A runner that has not been
    /// made yet is first in the state in which it is made. In each round, a
    /// runner that hasn't stopped enters `Waiting`, and then the state that
    /// comes with the answer that it is given.
    pub open spec fn states(self, events: Seq<Event<Op>>, at: int) -> Seq<RunnerState>
        decreases events.len(),
    {
        if events.len() == 0 {
            if self.has_runner(at) {
                seq![self.made[at].state]
            } else {
                Seq::empty()
            }
        } else {
            let earlier = self.states(events.drop_last(), at);
            let before = self.after(events.drop_last());
            match events.last() {
                Event::Make(id) if at == before.made.len() => earlier.push(
                    before.after_make(id).made[at].state,
                ),
                Event::Run(asking) if asking == at && before.has_runner(at) && before.made[at].state
                    != RunnerState::Stopped => {
                    let waiting = before.with_state(at, RunnerState::Waiting);
                    enter(
                        enter(earlier, waiting.made[at].state),
                        waiting.after_receive(at).made[at].state,
                    )
                },
                _ => earlier,
            }
        }
    }
}

impl<Op> QueueState<Op> {
    /// The queue after the rest of the runners that `start` grants have been
    /// made and, each right after its task was spawned, recorded.
    pub open spec fn followed(self, start: Start) -> Self
        decreases start.count - start.next,
    {
        if start.next < start.count {
            self.after_make(start.next).after_record(self.made.len() as usize).followed(
                Start { next: (start.next + 1) as u32, ..start },
            )
        } else {
            self
        }
    }
}

/// The operations that someone attempts to enqueue during `events`, in this
/// order.
pub open spec fn requested<Op>(events: Seq<Event<Op>>) -> Seq<Op>
    decreases events.len(),
{
    if events.len() == 0 {
        Seq::empty()
    } else {
        match events.last() {
            Event::Enqueue(op) => requested(events.drop_last()).push(op),
            _ => requested(events.drop_last()),
        }
    }
}

/// Whether nobody stops the queue during `events`.
pub open spec fn without_stop<Op>(events: Seq<Event<Op>>) -> bool {
    forall|i: int| 0 <= i < events.len() ==> !(#[trigger] events[i] is Stop)
}

/// `states`, followed by `state` unless that is already the last of them.
pub open spec fn enter(states: Seq<RunnerState>, state: RunnerState) -> Seq<RunnerState> {
    if states.len() > 0 && states.last() == state {
        states
    } else {
        states.push(state)
    }
}

/// Whether a runner may enter `to` when it is in `from`: it becomes pending only
/// when it is made, waits at first and after each operation, runs and stops only
/// after it has waited, and never leaves `Stopped`.
pub open spec fn follows(from: RunnerState, to: RunnerState) -> bool {
    match to {
        RunnerState::Pending => false,
        RunnerState::Waiting => from == RunnerState::Pending || from == RunnerState::Running,
        RunnerState::Running | RunnerState::Stopped => from == RunnerState::Waiting,
    }
}

/// Whether a runner may go through `states`.
pub open spec fn orderly(states: Seq<RunnerState>) -> bool {
    forall|i: int, j: int|
        0 <= i < j < states.len() && j == i + 1 ==> follows(
            #[trigger] states[i],
            #[trigger] states[j],
        )
}

/// Whether `part` is what is left of `whole` when some of its elements are taken
/// out.
pub open spec fn subsequence<A>(part: Seq<A>, whole: Seq<A>) -> bool
    decreases whole.len(),
{
    if part.len() == 0 {
        true
    } else if whole.len() == 0 {
        false
    } else {
        ||| part.last() == whole.last() && subsequence(part.drop_last(), whole.drop_last())
        ||| subsequence(part, whole.drop_last())
    }
}

/// The states of a runner up to the end of its `performed`th operation: first
/// it is pending, and then it waits before each operation that it performs.
pub open spec fn states_up_to(performed: nat) -> Seq<RunnerState>
    decreases performed,
{
    if performed == 0 {
        seq![RunnerState::Pending]
    } else {
        states_up_to((performed - 1) as nat).push(RunnerState::Waiting).push(RunnerState::Running)
    }
}

/// The states of a runner that has been told to perform `performed` operations
/// and is now in `state`.
pub open spec fn course(performed: nat, state: RunnerState) -> Seq<RunnerState> {
    match state {
        RunnerState::Pending | RunnerState::Running => states_up_to(performed),
        RunnerState::Waiting => states_up_to(performed).push(RunnerState::Waiting),
        RunnerState::Stopped => states_up_to(performed).push(RunnerState::Waiting).push(
            RunnerState::Stopped,
        ),
    }
}

/// The events of a call for runners of which `count` have been spawned, when the
/// first of them is at position `first` and nothing else happens meanwhile.
pub open spec fn start_events<Op>(first: nat, count: u32) -> Seq<Event<Op>>
    decreases count,
{
    if count == 0 {
        Seq::empty()
    } else {
        start_events(first, (count - 1) as u32).push(Event::Make((count - 1) as u32)).push(
            Event::Record((first + count - 1) as usize),
        )
    }
}

/// The runners that a call for `count` of them makes.
pub open spec fn new_runners(count: u32) -> Seq<Runner> {
    Seq::new(count as nat, |i: int| Runner { id: i as u32, state: RunnerState::Pending })
}

/// The `count` positions from `first` on.
pub open spec fn positions(first: nat, count: u32) -> Seq<usize> {
    Seq::new(count as nat, |i: int| (first + i) as usize)
}

/// A new queue is open, holds no operation and has no runner.
pub proof fn law_new_queue_is_empty<Op>()
    ensures
        QueueState::<Op>::initial().queued.len() == 0,
        !QueueState::<Op>::initial().stopped,
        QueueState::<Op>::initial().made.len() == 0,
        QueueState::<Op>::initial().runners.len() == 0,
{
}

/// What holds of every queue holds of a new one. It says that the queue keeps
/// track of existing runners only, of none of them twice, and that no runner
/// stops before the queue is stopped and drained.
pub proof fn law_what_is_valid<Op>(queue: QueueState<Op>)
    ensures
        QueueState::<Op>::initial().valid(),
        queue.valid() <==> {
            &&& forall|i: int|
                0 <= i < queue.runners.len() ==> #[trigger] queue.runners[i] < queue.made.len()
            &&& forall|i: int, j: int|
                0 <= i < j < queue.runners.len() ==> #[trigger] queue.runners[i]
                    != #[trigger] queue.runners[j]
            &&& queue.stopped && queue.queued.len() == 0 || forall|at: int|
                0 <= at < queue.made.len() ==> (#[trigger] queue.made[at]).state
                    != RunnerState::Stopped
        },
{
}

/// A runner that asks while there is an operation is told to perform the oldest
/// one, which leaves the queue, be the queue stopped or not. One that asks while
/// there is none is told to wait as long as the queue is open, and to exit once
/// it has been stopped. Nothing but the runner's own state changes along with
/// that. A runner that has exited is told so again.
pub proof fn law_a_runner_is_told_what_to_do<Op>(queue: QueueState<Op>, at: int)
    requires
        0 <= at < queue.made.len(),
    ensures
        ({
            let runner = queue.made[at];
            let step = queue.next_step(at);
            let after = queue.after_run(at);
            &&& after.stopped == queue.stopped
            &&& after.runners == queue.runners
            &&& after.made.len() == queue.made.len()
            &&& forall|i: int| 0 <= i < queue.made.len() && i != at ==> after.made[i] == queue.made[i]
            &&& after.made[at].id == runner.id
            &&& if runner.state == RunnerState::Stopped {
                &&& step == Step::<Op>::Exit
                &&& after.made[at].state == RunnerState::Stopped
                &&& after.queued == queue.queued
            } else if queue.queued.len() > 0 {
                &&& step == Step::Perform(queue.queued[0])
                &&& after.made[at].state == RunnerState::Running
                &&& after.queued.len() == queue.queued.len() - 1
                &&& forall|i: int|
                    0 <= i < after.queued.len() ==> after.queued[i] == queue.queued[i + 1]
            } else if queue.stopped {
                &&& step == Step::<Op>::Exit
                &&& after.made[at].state == RunnerState::Stopped
                &&& after.queued.len() == 0
            } else {
                &&& step == Step::<Op>::Wait
                &&& after.made[at].state == RunnerState::Waiting
                &&& after.queued.len() == 0
            }
        }),
{
}

/// A runner leaves its main loop exactly when the queue has been stopped and
/// drained: until then, whatever has happened before, it is kept in it.
pub proof fn law_exit_only_when_stopped_and_drained<Op>(
    queue: QueueState<Op>,
    events: Seq<Event<Op>>,
    at: int,
)
    requires
        queue.valid(),
        0 <= at < queue.after(events).made.len(),
    ensures
        queue.after(events).next_step(at) == Step::<Op>::Exit <==> queue.after(events).stopped
            && queue.after(events).queued.len() == 0,
        without_stop(events) && !queue.stopped ==> queue.after(events).next_step(at)
            != Step::<Op>::Exit,
{
    law_validity_is_kept(queue, events);
    law_only_a_stop_stops(queue, events);
    law_a_runner_is_told_what_to_do(queue.after(events), at);
}

/// No runner asks in vain while an operation is queued, whether or not the queue
/// is stopped: as many of the operations that are queued at first are performed,
/// the oldest first, as there are rounds, until all of them have been.
pub proof fn law_no_round_in_vain<Op>(queue: QueueState<Op>, events: Seq<Event<Op>>)
    requires
        queue.valid(),
    ensures
        queue.performed(events).len() <= queue.rounds(events),
        queue.rounds(events) <= queue.queued.len() ==> queue.performed(events)
            == queue.queued.take(queue.rounds(events) as int),
        queue.rounds(events) >= queue.queued.len() ==> queue.performed(events).len()
            >= queue.queued.len() && queue.performed(events).take(queue.queued.len() as int)
            == queue.queued,
{
    lemma_rounds_perform(queue, events);
    law_performed_in_order(queue, events);
    let total = queue.performed(events) + queue.after(events).queued;
    assert(total.take(queue.queued.len() as int) =~= queue.queued);
}

/// As long as not all operations that were queued at first have been performed,
/// every round performs one.
proof fn lemma_rounds_perform<Op>(queue: QueueState<Op>, events: Seq<Event<Op>>)
    requires
        queue.valid(),
    ensures
        queue.performed(events).len() <= queue.rounds(events),
        queue.rounds(events) <= queue.queued.len() ==> queue.performed(events).len()
            == queue.rounds(events),
        queue.rounds(events) >= queue.queued.len() ==> queue.performed(events).len()
            >= queue.queued.len(),
    decreases events.len(),
{
    if events.len() > 0 {
        let earlier = events.drop_last();
        lemma_rounds_perform(queue, earlier);
        law_performed_in_order(queue, earlier);
        law_validity_is_kept(queue, earlier);
    }
}

/// A runner of any queue performs an operation at once when it asks while there
/// is one: a run of rounds of existing runners performs the operations that are
/// queued one by one, and leaves the rest.
pub proof fn law_rounds_take_from_the_front<Op>(queue: QueueState<Op>, events: Seq<Event<Op>>)
    requires
        queue.valid(),
        events.len() <= queue.queued.len(),
        forall|i: int|
            0 <= i < events.len() ==> match #[trigger] events[i] {
                Event::Run(at) => 0 <= at < queue.made.len(),
                _ => false,
            },
    ensures
        queue.performed(events) == queue.queued.take(events.len() as int),
        queue.after(events).queued == queue.queued.skip(events.len() as int),
        queue.after(events).stopped == queue.stopped,
        queue.after(events).runners == queue.runners,
        queue.after(events).made.len() == queue.made.len(),
    decreases events.len(),
{
    if events.len() > 0 {
        let earlier = events.drop_last();
        law_rounds_take_from_the_front(queue, earlier);
        law_validity_is_kept(queue, earlier);
    }
}

/// An operation is taken by an open queue and becomes the last of those that are
/// queued. A stopped queue refuses it. Nothing else changes.
pub proof fn law_enqueue_appends<Op>(queue: QueueState<Op>, op: Op)
    ensures
        ({
            let after = queue.after_enqueue(op);
            &&& after.stopped == queue.stopped
            &&& after.made == queue.made
            &&& after.runners == queue.runners
            &&& if queue.stopped {
                &&& queue.enqueue_result() == Err::<(), Error>(Error::Sender)
                &&& after.queued == queue.queued
            } else {
                &&& queue.enqueue_result() == Ok::<(), Error>(())
                &&& after.queued.len() == queue.queued.len() + 1
                &&& after.queued.last() == op
                &&& forall|i: int|
                    0 <= i < queue.queued.len() ==> after.queued[i] == queue.queued[i]
            }
        }),
{
}

/// An open queue takes every operation until it is stopped, and none after that,
/// whatever else happens: all that someone attempts to enqueue before the stop
/// is performed or still queued, behind what was queued at first.
pub proof fn law_all_is_accepted_until_a_stop<Op>(
    queue: QueueState<Op>,
    before: Seq<Event<Op>>,
    later: Seq<Event<Op>>,
)
    requires
        !queue.stopped,
        without_stop(before),
    ensures
        queue.accepted(before) == requested(before),
        queue.queued + requested(before) == queue.performed(before) + queue.after(before).queued,
        queue.accepted(before.push(Event::Stop) + later) == requested(before),
{
    lemma_all_is_accepted(queue, before);
    law_performed_in_order(queue, before);
    lemma_nothing_is_accepted_after_a_stop(queue, before, later);
}

/// An open queue that nobody stops takes every operation.
proof fn lemma_all_is_accepted<Op>(queue: QueueState<Op>, events: Seq<Event<Op>>)
    requires
        !queue.stopped,
        without_stop(events),
    ensures
        queue.accepted(events) == requested(events),
        !queue.after(events).stopped,
    decreases events.len(),
{
    if events.len() > 0 {
        let earlier = events.drop_last();
        lemma_all_is_accepted(queue, earlier);
    }
}

/// After a stop, no operation is accepted.
proof fn lemma_nothing_is_accepted_after_a_stop<Op>(
    queue: QueueState<Op>,
    before: Seq<Event<Op>>,
    later: Seq<Event<Op>>,
)
    ensures
        queue.accepted(before.push(Event::Stop) + later) == queue.accepted(before),
        queue.after(before.push(Event::Stop) + later).stopped,
    decreases later.len(),
{
    let events = before.push(Event::Stop) + later;
    if later.len() == 0 {
        assert(events.drop_last() =~= before);
    } else {
        assert(events.drop_last() =~= before.push(Event::Stop) + later.drop_last());
        lemma_nothing_is_accepted_after_a_stop(queue, before, later.drop_last());
    }
}

/// A call for `count` runners on an open queue is granted for exactly as many:
/// followed to its end, it adds that many runners, with the ids from zero on,
/// all of them pending, and makes the queue keep track of each of them, behind
/// those that it has. A stopped queue refuses the call. Nothing else changes.
pub proof fn law_start_is_granted_in_full<Op>(queue: QueueState<Op>, count: u32)
    requires
        queue.made.len() + count <= usize::MAX,
    ensures
        queue.stopped ==> queue.start_result(count) == Err::<Start, Error>(Error::Stopped),
        !queue.stopped ==> queue.start_result(count) is Ok && ({
            let after = queue.followed(queue.start_result(count)->Ok_0);
            &&& after.queued == queue.queued
            &&& after.stopped == queue.stopped
            &&& after.made.len() == queue.made.len() + count
            &&& forall|i: int| 0 <= i < queue.made.len() ==> after.made[i] == queue.made[i]
            &&& forall|i: int|
                0 <= i < count ==> (#[trigger] after.made[queue.made.len() + i]).id == i
                    && after.made[queue.made.len() + i].state == RunnerState::Pending
            &&& after.runners.len() == queue.runners.len() + count
            &&& forall|i: int| 0 <= i < queue.runners.len() ==> after.runners[i] == queue.runners[i]
            &&& forall|i: int|
                0 <= i < count ==> #[trigger] after.runners[queue.runners.len() + i]
                    == queue.made.len() + i
        }),
{
    if !queue.stopped {
        lemma_followed(queue, queue.start_result(count)->Ok_0);
    }
}

/// What following a granted call to its end comes to.
proof fn lemma_followed<Op>(queue: QueueState<Op>, start: Start)
    requires
        start.next <= start.count,
        queue.made.len() + (start.count - start.next) <= usize::MAX,
    ensures
        queue.followed(start) == (QueueState {
            made: queue.made + Seq::new(
                (start.count - start.next) as nat,
                |i: int| Runner { id: (start.next + i) as u32, state: RunnerState::Pending },
            ),
            runners: queue.runners + Seq::new(
                (start.count - start.next) as nat,
                |i: int| (queue.made.len() + i) as usize,
            ),
            ..queue
        }),
    decreases start.count - start.next,
{
    if start.next < start.count {
        let first = queue.after_make(start.next).after_record(queue.made.len() as usize);
        lemma_followed(first, Start { next: (start.next + 1) as u32, ..start });
    }
}

/// A new runner takes the next position and is pending. It can be recorded
/// there, once, if the queue keeps track of existing runners only. Nothing else
/// changes.
pub proof fn law_a_new_runner_is_recorded_once<Op>(queue: QueueState<Op>, id: u32)
    requires
        queue.valid(),
        queue.made.len() < usize::MAX,
    ensures
        ({
            let at = queue.made.len() as usize;
            let made = queue.after_make(id);
            let recorded = made.after_record(at);
            &&& made.made.len() == queue.made.len() + 1
            &&& made.made[at as int].id == id
            &&& made.made[at as int].state == RunnerState::Pending
            &&& forall|i: int| 0 <= i < queue.made.len() ==> made.made[i] == queue.made[i]
            &&& made.runners == queue.runners
            &&& made.queued == queue.queued
            &&& made.stopped == queue.stopped
            &&& !queue.can_record(at)
            &&& made.can_record(at)
            &&& !recorded.can_record(at)
            &&& recorded.runners.len() == queue.runners.len() + 1
            &&& recorded.runners.last() == at
            &&& forall|i: int|
                0 <= i < queue.runners.len() ==> recorded.runners[i] == queue.runners[i]
            &&& recorded.made == made.made
            &&& recorded.queued == queue.queued
            &&& recorded.stopped == queue.stopped
        }),
{
    let at = queue.made.len() as usize;
    let recorded = queue.after_make(id).after_record(at);
    assert(recorded.runners[queue.runners.len() as int] == at);
}

/// Every runner that there is and that the queue doesn't keep track of can be
/// recorded, and no other.
pub proof fn law_what_can_be_recorded<Op>(queue: QueueState<Op>, at: usize)
    ensures
        queue.has_runner(at as int) <==> at < queue.made.len(),
        queue.can_record(at) <==> at < queue.made.len() && forall|i: int|
            0 <= i < queue.runners.len() ==> #[trigger] queue.runners[i] != at,
{
}

/// To stop a queue closes it and makes it let go of its runners. It loses
/// neither an operation nor a runner by that.
pub proof fn law_stop_loses_nothing<Op>(queue: QueueState<Op>)
    ensures
        queue.after_stop().stopped,
        queue.after_stop().queued == queue.queued,
        queue.after_stop().made == queue.made,
        queue.after_stop().runners.len() == 0,
{
}

/// A queue is running when it keeps track of a runner that is not stopped, and
/// idle when it keeps track of none that is not waiting. Other runners don't
/// count.
pub proof fn law_running_and_idle<Op>(queue: QueueState<Op>)
    ensures
        queue.known_runners().len() == queue.runners.len(),
        forall|i: int|
            0 <= i < queue.runners.len() ==> #[trigger] queue.known_runners()[i]
                == queue.made[queue.runners[i] as int],
        queue.running() <==> exists|i: int|
            0 <= i < queue.runners.len() && queue.made[#[trigger] queue.runners[i] as int].state
                != RunnerState::Stopped,
        queue.idle() <==> forall|i: int|
            0 <= i < queue.runners.len() ==> queue.made[#[trigger] queue.runners[i] as int].state
                == RunnerState::Waiting,
{
    if exists|i: int|
        0 <= i < queue.runners.len() && queue.made[#[trigger] queue.runners[i] as int].state
            != RunnerState::Stopped {
        let i = choose|i: int|
            0 <= i < queue.runners.len() && queue.made[#[trigger] queue.runners[i] as int].state
                != RunnerState::Stopped;
        assert(queue.known_runners()[i].state != RunnerState::Stopped);
    }
    if queue.idle() {
        assert forall|i: int| 0 <= i < queue.runners.len() implies queue.made[
            #[trigger] queue.runners[i] as int
        ].state == RunnerState::Waiting by {
            assert(queue.known_runners()[i].state == RunnerState::Waiting);
        }
    }
}

/// Operations are performed in the order in which they were enqueued, each of
/// them once: what was queued, followed by what has been enqueued since, is
/// what has been performed since, followed by what is still queued.
pub proof fn law_performed_in_order<Op>(queue: QueueState<Op>, events: Seq<Event<Op>>)
    ensures
        queue.queued + queue.accepted(events) == queue.performed(events) + queue.after(
            events,
        ).queued,
    decreases events.len(),
{
    if events.len() > 0 {
        let earlier = events.drop_last();
        law_performed_in_order(queue, earlier);
        let before = queue.after(earlier);
        let total = queue.queued + queue.accepted(earlier);
        if let Event::Enqueue(op) = events.last() {
            assert(queue.performed(events) + before.queued.push(op) =~= total.push(op));
        }
    }
}

/// Each operation that is performed is performed by one runner: what each
/// runner performs is a part of what is performed, in the same order, and
/// what the runners perform together is all of it.
pub proof fn law_performed_by_one_runner<Op>(
    queue: QueueState<Op>,
    events: Seq<Event<Op>>,
    at: int,
)
    ensures
        subsequence(queue.performed_by(events, at), queue.performed(events)),
        queue.performed(events).to_multiset() == queue.performed_by_first(
            events,
            queue.after(events).made.len(),
        ),
{
    lemma_performed_by_subsequence(queue, events, at);
    lemma_performed_by_first(queue, events, queue.after(events).made.len());
}

/// What a runner performs is a part of what is performed.
proof fn lemma_performed_by_subsequence<Op>(
    queue: QueueState<Op>,
    events: Seq<Event<Op>>,
    at: int,
)
    ensures
        subsequence(queue.performed_by(events, at), queue.performed(events)),
    decreases events.len(),
{
    if events.len() > 0 {
        let earlier = events.drop_last();
        lemma_performed_by_subsequence(queue, earlier, at);
        let given = queue.after(earlier).given(events.last());
        let part = queue.performed_by(earlier, at);
        let whole = queue.performed(earlier);
        if given.len() > 0 {
            assert((part + given).drop_last() =~= part);
            assert((whole + given).drop_last() =~= whole);
        }
    }
}

/// The runners at the first `count` positions perform all that is performed,
/// where there are no others.
proof fn lemma_performed_by_first<Op>(queue: QueueState<Op>, events: Seq<Event<Op>>, count: nat)
    requires
        queue.after(events).made.len() <= count,
    ensures
        queue.performed(events).to_multiset() == queue.performed_by_first(events, count),
    decreases events.len(),
{
    broadcast use vstd::seq_lib::group_to_multiset_ensures;

    if events.len() == 0 {
        lemma_performed_by_first_of_none(queue, events, count);
    } else {
        let earlier = events.drop_last();
        lemma_performed_by_first(queue, earlier, count);
        lemma_performed_by_first_step(queue, events, count);
        vstd::seq_lib::lemma_multiset_commutative(
            queue.performed(earlier),
            queue.after(earlier).given(events.last()),
        );
    }
}

/// Nothing is performed during no events.
proof fn lemma_performed_by_first_of_none<Op>(
    queue: QueueState<Op>,
    events: Seq<Event<Op>>,
    count: nat,
)
    requires
        events.len() == 0,
    ensures
        queue.performed_by_first(events, count) == Multiset::<Op>::empty(),
    decreases count,
{
    broadcast use vstd::seq_lib::group_to_multiset_ensures;

    if count > 0 {
        lemma_performed_by_first_of_none(queue, events, (count - 1) as nat);
    }
}

/// The last event adds the operation that is given at it, if the runner to which
/// it is given is among the first `count`.
proof fn lemma_performed_by_first_step<Op>(
    queue: QueueState<Op>,
    events: Seq<Event<Op>>,
    count: nat,
)
    requires
        events.len() > 0,
    ensures
        ({
            let given = queue.after(events.drop_last()).given(events.last());
            let before = queue.performed_by_first(events.drop_last(), count);
            queue.performed_by_first(events, count) == match events.last() {
                Event::Run(at) if 0 <= at < count => before.add(given.to_multiset()),
                _ => before,
            }
        }),
    decreases count,
{
    if count > 0 {
        let earlier = events.drop_last();
        let given = queue.after(earlier).given(events.last());
        lemma_performed_by_first_step(queue, events, (count - 1) as nat);
        vstd::seq_lib::lemma_multiset_commutative(queue.performed_by(earlier, count - 1), given);
    }
}

/// What holds of every queue is kept by everything that happens to it.
pub proof fn law_validity_is_kept<Op>(queue: QueueState<Op>, events: Seq<Event<Op>>)
    requires
        queue.valid(),
    ensures
        queue.after(events).valid(),
    decreases events.len(),
{
    if events.len() > 0 {
        law_validity_is_kept(queue, events.drop_last());
        lemma_next_valid(queue.after(events.drop_last()), events.last());
    }
}

/// Each event keeps a queue valid.
proof fn lemma_next_valid<Op>(queue: QueueState<Op>, event: Event<Op>)
    requires
        queue.valid(),
    ensures
        queue.next(event).valid(),
{
    match event {
        Event::Make(id) => lemma_valid_after_make(queue, id),
        Event::Record(at) => if queue.can_record(at) {
            lemma_valid_after_record(queue, at);
        },
        Event::Enqueue(op) => lemma_valid_after_enqueue(queue, op),
        Event::Stop => {},
        Event::Run(at) => if queue.has_runner(at) {
            lemma_valid_after_run(queue, at);
        },
    }
}

/// A call for runners that no other event interrupts adds as many pending
/// runners as have been spawned, in their order, and changes nothing else. If
/// the call ends early, for want of a task for the next runner, the queue keeps
/// track of those before it.
pub proof fn law_start_adds_runners<Op>(queue: QueueState<Op>, count: u32)
    requires
        queue.valid(),
        queue.made.len() + count <= usize::MAX,
    ensures
        queue.after(start_events(queue.made.len(), count)) == (QueueState {
            made: queue.made + new_runners(count),
            runners: queue.runners + positions(queue.made.len(), count),
            ..queue
        }),
        queue.after(start_events(queue.made.len(), count).push(Event::Make(count))).runners
            == queue.runners + positions(queue.made.len(), count),
    decreases count,
{
    let first = queue.made.len();
    let events = start_events::<Op>(first, count);
    if count > 0 {
        let less = (count - 1) as u32;
        law_start_adds_runners(queue, less);
        let earlier = start_events::<Op>(first, less);
        let made = earlier.push(Event::Make(less));
        assert(made.drop_last() =~= earlier);
        assert(events.drop_last() =~= made);
    }
    assert(queue.after(events) =~= QueueState {
        made: queue.made + new_runners(count),
        runners: queue.runners + positions(first, count),
        ..queue
    });
    assert(events.push(Event::Make(count)).drop_last() =~= events);
}

/// A queue that has been stopped stays stopped: whatever happens to it, it
/// refuses every operation and every call for runners, and a refused operation
/// changes nothing. Unless a runner of an earlier call is recorded late, it has
/// no runner to keep track of, and so is idle and not running.
pub proof fn law_stopped_for_good<Op>(
    queue: QueueState<Op>,
    events: Seq<Event<Op>>,
    op: Op,
    count: u32,
)
    ensures
        ({
            let later = queue.after_stop().after(events);
            &&& later.stopped
            &&& later.enqueue_result() == Err::<(), Error>(Error::Sender)
            &&& later.after_enqueue(op) == later
            &&& later.start_result(count) == Err::<Start, Error>(Error::Stopped)
            &&& (forall|i: int| 0 <= i < events.len() ==> !(#[trigger] events[i] is Record)) ==> {
                &&& later.runners.len() == 0
                &&& !later.running()
                &&& later.idle()
            }
        }),
    decreases events.len(),
{
    if events.len() > 0 {
        let earlier = events.drop_last();
        law_stopped_for_good(queue, earlier, op, count);
    }
}

/// Only a call to stop it stops a queue.
pub proof fn law_only_a_stop_stops<Op>(queue: QueueState<Op>, events: Seq<Event<Op>>)
    ensures
        queue.after(events).stopped <==> queue.stopped || exists|i: int|
            0 <= i < events.len() && #[trigger] events[i] is Stop,
    decreases events.len(),
{
    if events.len() > 0 {
        let earlier = events.drop_last();
        law_only_a_stop_stops(queue, earlier);
        if exists|i: int| 0 <= i < events.len() && #[trigger] events[i] is Stop {
            let i = choose|i: int| 0 <= i < events.len() && #[trigger] events[i] is Stop;
            assert(i < earlier.len() ==> earlier[i] is Stop);
        }
    }
}

/// Stopping a queue a second time changes nothing.
pub proof fn law_stop_is_idempotent<Op>(queue: QueueState<Op>)
    ensures
        queue.after_stop().after_stop() == queue.after_stop(),
{
}

/// The operations that are queued when the queue is stopped still run, oldest
/// first, and no others do: each time that a runner asks, it is given the next
/// of them. When none is left, every runner that asks is told to exit.
pub proof fn law_stopped_queue_is_drained<Op>(
    queue: QueueState<Op>,
    events: Seq<Event<Op>>,
    at: int,
)
    requires
        queue.valid(),
    ensures
        ({
            let stopped = queue.after_stop();
            let rounds = stopped.rounds(events);
            if rounds < queue.queued.len() {
                stopped.performed(events) == queue.queued.take(rounds as int)
            } else {
                &&& stopped.performed(events) == queue.queued
                &&& stopped.after(events).queued.len() == 0
                &&& stopped.after(events).next_step(at) == Step::<Op>::Exit
            }
        }),
{
    let stopped = queue.after_stop();
    lemma_stopped_rounds(stopped, events);
    law_performed_in_order(stopped, events);
}

/// On a stopped queue, every round performs an operation as long as there is
/// one, and no operation is accepted.
proof fn lemma_stopped_rounds<Op>(queue: QueueState<Op>, events: Seq<Event<Op>>)
    requires
        queue.valid(),
        queue.stopped,
    ensures
        queue.after(events).stopped,
        queue.accepted(events).len() == 0,
        queue.rounds(events) <= queue.queued.len() ==> queue.performed(events).len()
            == queue.rounds(events),
        queue.rounds(events) >= queue.queued.len() ==> queue.performed(events).len()
            == queue.queued.len(),
    decreases events.len(),
{
    if events.len() > 0 {
        let earlier = events.drop_last();
        lemma_stopped_rounds(queue, earlier);
        law_performed_in_order(queue, earlier);
        law_validity_is_kept(queue, earlier);
    }
}

/// The runners that an open queue keeps track of never stop, so that the queue
/// is running exactly when it keeps track of a runner.
pub proof fn law_running_while_there_are_runners<Op>(queue: QueueState<Op>)
    requires
        queue.valid(),
        !queue.stopped,
    ensures
        queue.running() <==> queue.runners.len() > 0,
{
    if queue.runners.len() > 0 {
        assert(queue.known_runners()[0].state != RunnerState::Stopped);
    }
}

/// From when a new runner is recorded until it enters its main loop, the queue
/// is running but not idle.
pub proof fn law_new_runners_are_not_idle<Op>(queue: QueueState<Op>, at: usize)
    requires
        queue.can_record(at),
        queue.made[at as int].state == RunnerState::Pending,
    ensures
        queue.after_record(at).running(),
        !queue.after_record(at).idle(),
{
    let after = queue.after_record(at);
    assert(after.known_runners()[queue.runners.len() as int].state == RunnerState::Pending);
}

/// A queue is idle once each of its runners has found no operation to perform.
pub proof fn law_idle_once_all_have_asked<Op>(queue: QueueState<Op>, events: Seq<Event<Op>>)
    requires
        queue.valid(),
        queue.queued.len() == 0,
        !queue.stopped,
        forall|i: int| 0 <= i < events.len() ==> #[trigger] events[i] is Run,
        forall|i: int|
            0 <= i < queue.runners.len() ==> events.contains(
                Event::Run(#[trigger] queue.runners[i] as int),
            ),
    ensures
        queue.after(events).idle(),
        queue.after(events).runners == queue.runners,
{
    lemma_asked_in_vain(queue, events);
}

/// On an open queue without operations, asking for the next step makes a
/// runner wait, and changes nothing else.
proof fn lemma_asked_in_vain<Op>(queue: QueueState<Op>, events: Seq<Event<Op>>)
    requires
        queue.valid(),
        queue.queued.len() == 0,
        !queue.stopped,
        forall|i: int| 0 <= i < events.len() ==> #[trigger] events[i] is Run,
    ensures
        queue.after(events).valid(),
        queue.after(events).queued.len() == 0,
        !queue.after(events).stopped,
        queue.after(events).runners == queue.runners,
        queue.after(events).made.len() == queue.made.len(),
        forall|at: int|
            queue.has_runner(at) && events.contains(Event::Run(at)) ==> (
            #[trigger] queue.after(events).made[at]).state == RunnerState::Waiting,
    decreases events.len(),
{
    if events.len() > 0 {
        let earlier = events.drop_last();
        lemma_asked_in_vain(queue, earlier);
        let before = queue.after(earlier);
        lemma_next_valid(before, events.last());
        let after = queue.after(events);
        assert forall|at: int|
            queue.has_runner(at) && events.contains(Event::Run(at)) implies (
        #[trigger] after.made[at]).state == RunnerState::Waiting by {
            let i = choose|i: int| 0 <= i < events.len() && events[i] == Event::<Op>::Run(at);
            if i < earlier.len() {
                assert(earlier[i] == Event::<Op>::Run(at));
            }
        }
    }
}

/// Runners keep their positions and their ids, even when the queue lets go of
/// them.
pub proof fn law_runners_stay<Op>(queue: QueueState<Op>, events: Seq<Event<Op>>, at: int)
    requires
        queue.has_runner(at),
    ensures
        queue.after(events).has_runner(at),
        queue.after(events).made[at].id == queue.made[at].id,
    decreases events.len(),
{
    if events.len() > 0 {
        law_runners_stay(queue, events.drop_last(), at);
    }
}

/// A runner that has exited its main loop stays stopped, and is never given an
/// operation again.
pub proof fn law_stopped_runners_stay_stopped<Op>(
    queue: QueueState<Op>,
    events: Seq<Event<Op>>,
    at: int,
)
    requires
        queue.has_runner(at),
        queue.made[at].state == RunnerState::Stopped,
    ensures
        queue.after(events).made[at].state == RunnerState::Stopped,
        queue.after(events).next_step(at) == Step::<Op>::Exit,
        queue.performed_by(events, at).len() == 0,
    decreases events.len(),
{
    if events.len() > 0 {
        law_stopped_runners_stay_stopped(queue, events.drop_last(), at);
        law_runners_stay(queue, events.drop_last(), at);
    }
}

/// Whatever happens, the last of a runner's states is the one that it is in, and
/// the runner goes through them in order: it enters `Running` and `Stopped` from
/// `Waiting` only, is never pending again, and never leaves `Stopped`.
pub proof fn law_states_of_a_runner<Op>(queue: QueueState<Op>, events: Seq<Event<Op>>, at: int)
    requires
        at >= 0,
    ensures
        queue.states(events, at).len() > 0 <==> queue.after(events).has_runner(at),
        queue.after(events).has_runner(at) ==> queue.states(events, at).last() == queue.after(
            events,
        ).made[at].state,
        orderly(queue.states(events, at)),
    decreases events.len(),
{
    if events.len() > 0 {
        law_states_of_a_runner(queue, events.drop_last(), at);
        let earlier = queue.states(events.drop_last(), at);
        let before = queue.after(events.drop_last());
        if events.last() == Event::<Op>::Run(at) && before.has_runner(at) && before.made[at].state
            != RunnerState::Stopped {
            lemma_enter_orderly(earlier, RunnerState::Waiting);
            lemma_enter_orderly(enter(earlier, RunnerState::Waiting), before.answer().state());
        }
    }
}

/// A runner that enters a state in order stays in order.
proof fn lemma_enter_orderly(states: Seq<RunnerState>, state: RunnerState)
    requires
        orderly(states),
        states.len() > 0,
        states.last() == state || follows(states.last(), state),
    ensures
        orderly(enter(states, state)),
        enter(states, state).len() > 0,
        enter(states, state).last() == state,
{
}

/// The whole course of a runner, from when it is made: it is pending, waits,
/// and then runs and waits again once for each operation that it is told to
/// perform, until it stops.
pub proof fn law_course_of_a_runner<Op>(queue: QueueState<Op>, events: Seq<Event<Op>>, at: int)
    requires
        at >= queue.made.len(),
        queue.after(events).has_runner(at),
    ensures
        ({
            let performed = queue.performed_by(events, at).len();
            let state = queue.after(events).made[at].state;
            &&& queue.states(events, at) == course(performed, state)
            &&& state == RunnerState::Pending ==> performed == 0
            &&& state == RunnerState::Running ==> performed > 0
        }),
    decreases events.len(),
{
    if events.len() > 0 {
        let earlier = events.drop_last();
        let before = queue.after(earlier);
        law_states_of_a_runner(queue, earlier, at);
        if before.has_runner(at) {
            law_course_of_a_runner(queue, earlier, at);
        } else {
            lemma_not_made_yet(queue, earlier, at);
        }
    }
}

/// A runner that has not been made has performed nothing.
proof fn lemma_not_made_yet<Op>(queue: QueueState<Op>, events: Seq<Event<Op>>, at: int)
    requires
        at >= queue.made.len(),
        !queue.after(events).has_runner(at),
    ensures
        queue.performed_by(events, at).len() == 0,
    decreases events.len(),
{
    if events.len() > 0 {
        lemma_not_made_yet(queue, events.drop_last(), at);
    }
}

} // verus!
