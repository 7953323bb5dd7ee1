use std::cell::RefCell;
use std::future::poll_fn;
use std::rc::Rc;
use std::task::{Context, Poll};

use operation_queue::{
    BoxedOperation, Erased, Error, OperationQueue, Performing, QueuedOperation, Received, Runner,
    RunnerState, Start, Step,
};

/// An operation that notes its own ID when it has been polled `polls` times.
/// As it shares its notes with other operations on the same thread, it can't be
/// moved to another one.
#[derive(Debug)]
struct Operation {
    id: u8,
    polls: u8,
    notes: Rc<RefCell<Vec<u8>>>,
}

struct OperationPerforming<'op> {
    operation: &'op Operation,
    polled: u8,
}

impl Performing for OperationPerforming<'_> {
    fn poll(&mut self, context: &mut Context<'_>) -> Poll<()> {
        self.polled += 1;
        if self.polled < self.operation.polls {
            context.waker().wake_by_ref();
            return Poll::Pending;
        }
        self.operation.notes.borrow_mut().push(self.operation.id);
        Poll::Ready(())
    }
}

impl QueuedOperation for Operation {
    type Performing<'op> = OperationPerforming<'op>;

    fn perform<'op>(&'op self) -> OperationPerforming<'op> {
        OperationPerforming {
            operation: self,
            polled: 0,
        }
    }
}

type Notes = Rc<RefCell<Vec<u8>>>;

fn new_queue() -> OperationQueue {
    OperationQueue::new()
}

fn operation(id: u8, notes: &Notes) -> BoxedOperation {
    Erased {
        inner: Box::new(Operation {
            id,
            polls: 1,
            notes: notes.clone(),
        }),
    }
}

fn perform(op: BoxedOperation) {
    let runtime = tokio::runtime::Builder::new_current_thread()
        .build()
        .unwrap();
    let mut performing = op.inner.perform();
    runtime.block_on(poll_fn(|context| performing.inner.poll(context)));
}

/// Starts `runners` runners, and returns their positions. Their tasks are left
/// to the caller.
fn start(queue: &mut OperationQueue, runners: u32) -> Result<Vec<usize>, Error> {
    let mut start = queue.start(runners)?;
    let mut positions = Vec::new();
    while let Some(at) = queue.next_runner(&mut start) {
        queue.spawned(at);
        positions.push(at);
    }
    Ok(positions)
}

/// Asks for the next step of the runner at position `at`, and performs the
/// operation if there is one.
fn round(queue: &mut OperationQueue, at: usize) -> &'static str {
    match queue.run(at) {
        Step::Perform(op) => {
            perform(op);
            "perform"
        }
        Step::Wait => "wait",
        Step::Exit => "exit",
    }
}

#[test]
fn start_queue() {
    let mut queue = new_queue();
    start(&mut queue, 5).unwrap();
    assert_eq!(queue.active_runners(), 5);

    for at in 0..5 {
        assert_eq!(round(&mut queue, at), "wait");
    }
    assert!(queue.idle());
}

#[test]
fn stop_queue() {
    let notes = Notes::default();
    let mut queue = new_queue();
    start(&mut queue, 5).unwrap();
    for at in 0..5 {
        assert_eq!(round(&mut queue, at), "wait");
    }
    assert!(queue.idle());

    assert!(!queue.stopped());
    assert!(queue.stop());
    assert!(!queue.running());
    assert!(queue.stopped());

    match start(&mut queue, 1) {
        Ok(_) => panic!("we should not be able to start the queue after stopping it"),
        Err(Error::Stopped) => (),
        Err(_) => panic!("unexpected error"),
    }
    match queue.enqueue(operation(1, &notes)) {
        Ok(_) => panic!("we should not be able to enqueue operations after stopping the queue"),
        Err(Error::Sender) => (),
        Err(_) => panic!("unexpected error"),
    }
}

#[test]
fn operation_order() {
    let notes = Notes::default();
    let mut queue = new_queue();
    queue.enqueue(operation(1, &notes)).unwrap();
    queue.enqueue(operation(2, &notes)).unwrap();

    // Start exactly one runner so we can check that operations run in order.
    assert_eq!(start(&mut queue, 1).unwrap(), vec![0]);

    assert_eq!(round(&mut queue, 0), "perform");
    assert_eq!(*notes.borrow(), vec![1]);
    assert!(!queue.idle());
    assert_eq!(round(&mut queue, 0), "perform");
    assert_eq!(*notes.borrow(), vec![1, 2]);

    // The queue is idle when the runner waits for the next operation.
    assert!(!queue.idle());
    assert_eq!(round(&mut queue, 0), "wait");
    assert!(queue.idle());
}

#[test]
fn new_queue_has_no_runners() {
    let queue = new_queue();
    assert!(!queue.running());
    assert!(queue.idle());
    assert!(!queue.has_runner(0));
}

#[test]
fn starting_no_runner_changes_nothing() {
    let mut queue = new_queue();
    assert_eq!(start(&mut queue, 0).unwrap(), Vec::<usize>::new());
    assert!(!queue.running());
    assert!(queue.idle());
    assert!(!queue.has_runner(0));
}

#[test]
fn runners_add_up() {
    let mut queue = new_queue();
    assert_eq!(start(&mut queue, 2).unwrap(), vec![0, 1]);
    assert_eq!(start(&mut queue, 3).unwrap(), vec![2, 3, 4]);
    assert!(queue.has_runner(4));
    assert!(!queue.has_runner(5));
    assert!(queue.running());
    assert!(!queue.idle());
}

#[test]
fn start_counts_the_runners_it_makes() {
    let mut queue = new_queue();
    let mut start = queue.start(2).unwrap();
    assert_eq!(start, Start { count: 2, next: 0 });
    assert_eq!(queue.next_runner(&mut start), Some(0));
    assert_eq!(start, Start { count: 2, next: 1 });
    assert_eq!(queue.next_runner(&mut start), Some(1));
    assert_eq!(queue.next_runner(&mut start), None);
    assert_eq!(start, Start { count: 2, next: 2 });
}

#[test]
fn runner_is_recorded_after_it_is_spawned() {
    let mut queue = new_queue();
    let mut start = queue.start(1).unwrap();
    let at = queue.next_runner(&mut start).unwrap();
    // The task may already run, but the queue doesn't know of it yet.
    assert!(queue.has_runner(at));
    assert_eq!(queue.active_runners(), 0);
    assert!(!queue.running());
    assert_eq!(round(&mut queue, at), "wait");
    assert!(queue.can_record(at));
    queue.spawned(at);
    assert!(!queue.can_record(at));
    assert!(!queue.can_record(at + 1));
    assert_eq!(queue.active_runners(), 1);
    assert!(queue.running());
    assert!(queue.idle());
}

#[test]
fn start_that_ends_early_keeps_the_spawned_runners() {
    let mut queue = new_queue();
    start(&mut queue, 1).unwrap();
    let mut start = queue.start(4).unwrap();
    for at in [1, 2] {
        assert_eq!(queue.next_runner(&mut start), Some(at));
        queue.spawned(at);
    }
    // There is no task for the next runner.
    assert_eq!(queue.next_runner(&mut start), Some(3));
    assert_eq!(queue.active_runners(), 3);
    assert_eq!(queue.idle_runners(), 0);
    for at in 0..3 {
        assert_eq!(round(&mut queue, at), "wait");
    }
    assert_eq!(queue.idle_runners(), 3);
    assert!(queue.idle());
}

#[test]
fn runner_recorded_after_the_stop_is_active_until_it_exits() {
    let mut queue = new_queue();
    let mut start = queue.start(1).unwrap();
    let at = queue.next_runner(&mut start).unwrap();
    assert!(queue.stop());
    queue.spawned(at);
    assert!(queue.running());
    assert_eq!(round(&mut queue, at), "exit");
    assert!(!queue.running());
    assert!(!queue.idle());
}

#[test]
fn performed_in_order_by_several_runners() {
    let notes = Notes::default();
    let mut queue = new_queue();
    start(&mut queue, 3).unwrap();
    // More operations than one block of the channel's storage has room for.
    for id in 0..100 {
        queue.enqueue(operation(id, &notes)).unwrap();
    }
    for id in 0..100 {
        assert_eq!(round(&mut queue, (id * 7) % 3), "perform");
    }
    assert_eq!(*notes.borrow(), (0..100).collect::<Vec<u8>>());
    assert_eq!(round(&mut queue, 0), "wait");
    queue.enqueue(operation(100, &notes)).unwrap();
    assert_eq!(round(&mut queue, 2), "perform");
    assert_eq!(notes.borrow().len(), 101);
    assert_eq!(notes.borrow()[100], 100);
}

#[test]
fn each_operation_goes_to_one_runner() {
    let first = Notes::default();
    let notes = Notes::default();
    let mut queue = new_queue();
    start(&mut queue, 2).unwrap();
    for id in 0..6 {
        queue.enqueue(operation(id, &notes)).unwrap();
    }
    for at in [0, 1, 1, 0, 1, 0] {
        let before = notes.borrow().len();
        assert_eq!(round(&mut queue, at), "perform");
        assert_eq!(notes.borrow().len(), before + 1);
        if at == 0 {
            first.borrow_mut().push(notes.borrow()[before]);
        }
    }
    assert_eq!(*first.borrow(), vec![0, 3, 5]);
    assert_eq!(*notes.borrow(), vec![0, 1, 2, 3, 4, 5]);
}

#[test]
fn only_a_stop_stops() {
    let notes = Notes::default();
    let mut queue = new_queue();
    assert!(!queue.stopped());
    start(&mut queue, 1).unwrap();
    queue.enqueue(operation(1, &notes)).unwrap();
    assert_eq!(round(&mut queue, 0), "perform");
    assert_eq!(round(&mut queue, 0), "wait");
    assert!(!queue.stopped());
    queue.stop();
    assert!(queue.stopped());
}

#[test]
fn stopped_for_good() {
    let notes = Notes::default();
    let mut queue = new_queue();
    start(&mut queue, 1).unwrap();
    assert!(queue.stop());
    for _ in 0..3 {
        assert_eq!(queue.enqueue(operation(1, &notes)), Err(Error::Sender));
        assert_eq!(start(&mut queue, 2), Err(Error::Stopped));
        assert!(!queue.running());
        assert!(queue.idle());
        assert_eq!(round(&mut queue, 0), "exit");
    }
    assert!(!queue.has_runner(1));
    assert_eq!(notes.borrow().len(), 0);
}

#[test]
fn only_the_first_stop_counts() {
    let mut queue = new_queue();
    start(&mut queue, 2).unwrap();
    assert!(queue.stop());
    assert!(!queue.stop());
    assert!(queue.has_runner(1));
    assert!(!queue.has_runner(2));
}

#[test]
fn stopped_queue_is_drained() {
    let notes = Notes::default();
    let mut queue = new_queue();
    start(&mut queue, 2).unwrap();
    for id in 1..4 {
        queue.enqueue(operation(id, &notes)).unwrap();
    }
    assert_eq!(round(&mut queue, 1), "perform");
    assert!(queue.stop());
    assert_eq!(queue.enqueue(operation(4, &notes)), Err(Error::Sender));

    assert_eq!(round(&mut queue, 0), "perform");
    assert!(!queue.stop());
    assert_eq!(round(&mut queue, 1), "perform");
    assert_eq!(*notes.borrow(), vec![1, 2, 3]);
    assert_eq!(round(&mut queue, 1), "exit");
    assert_eq!(round(&mut queue, 0), "exit");
}

#[test]
fn running_while_there_are_runners() {
    let notes = Notes::default();
    let mut queue = new_queue();
    start(&mut queue, 1).unwrap();
    assert!(queue.running());
    queue.enqueue(operation(1, &notes)).unwrap();
    assert!(queue.running());
    assert_eq!(round(&mut queue, 0), "perform");
    assert!(queue.running());
    assert_eq!(round(&mut queue, 0), "wait");
    assert!(queue.running());
    queue.stop();
    assert!(!queue.running());
}

#[test]
fn new_runners_are_not_idle() {
    let mut queue = new_queue();
    start(&mut queue, 1).unwrap();
    assert_eq!(round(&mut queue, 0), "wait");
    assert!(queue.idle());
    start(&mut queue, 1).unwrap();
    assert!(!queue.idle());
    assert!(queue.running());
}

#[test]
fn idle_once_all_have_asked() {
    let mut queue = new_queue();
    start(&mut queue, 3).unwrap();
    for at in [2, 0, 2] {
        assert_eq!(round(&mut queue, at), "wait");
        assert!(!queue.idle());
    }
    assert_eq!(round(&mut queue, 1), "wait");
    assert!(queue.idle());
}

#[test]
fn runners_stay_when_the_queue_lets_go_of_them() {
    let notes = Notes::default();
    let mut queue = new_queue();
    start(&mut queue, 2).unwrap();
    queue.enqueue(operation(7, &notes)).unwrap();
    queue.stop();
    assert!(queue.has_runner(0));
    assert!(queue.has_runner(1));
    assert!(!queue.has_runner(2));
    assert_eq!(round(&mut queue, 1), "perform");
    assert_eq!(*notes.borrow(), vec![7]);
}

#[test]
fn stopped_runners_stay_stopped() {
    let mut queue = new_queue();
    start(&mut queue, 1).unwrap();
    queue.stop();
    for _ in 0..3 {
        assert_eq!(round(&mut queue, 0), "exit");
    }
}

#[test]
fn runner_goes_through_its_states() {
    let mut runner = Runner::new(3);
    assert_eq!(runner.id, 3);
    assert_eq!(runner.state(), RunnerState::Pending);

    runner.wait();
    assert_eq!(runner.state(), RunnerState::Waiting);
    assert!(matches!(runner.receive(Received::<u8>::Empty), Step::Wait));
    assert_eq!(runner.state(), RunnerState::Waiting);
    assert!(matches!(
        runner.receive(Received::Operation(9)),
        Step::Perform(9)
    ));
    assert_eq!(runner.state(), RunnerState::Running);

    runner.wait();
    assert!(matches!(runner.receive(Received::<u8>::Closed), Step::Exit));
    assert_eq!(runner.state(), RunnerState::Stopped);
    assert_eq!(runner.id, 3);
}

#[test]
fn erased_operation_makes_the_progress_of_its_own() {
    let notes = Notes::default();
    let mut queue = new_queue();
    queue
        .enqueue(Erased {
            inner: Box::new(Operation {
                id: 5,
                polls: 3,
                notes: notes.clone(),
            }),
        })
        .unwrap();
    start(&mut queue, 1).unwrap();
    let op = match queue.run(0) {
        Step::Perform(op) => op,
        _ => panic!("there is an operation to perform"),
    };
    let mut performing = op.inner.perform();
    let mut context = Context::from_waker(std::task::Waker::noop());
    assert!(performing.inner.poll(&mut context).is_pending());
    assert!(performing.inner.poll(&mut context).is_pending());
    assert_eq!(notes.borrow().len(), 0);
    assert!(performing.inner.poll(&mut context).is_ready());
    assert_eq!(*notes.borrow(), vec![5]);
}
