use std::future::{poll_fn, Future};
use std::pin::Pin;
use std::sync::{Arc, Mutex};
use std::task::{Context, Poll};
use std::time::Duration;

use async_channel::Sender;
use operation_queue::multi_thread;
use operation_queue::{
    BoxedSendOperation, Erased, Error, SendOperationQueue, SendPerforming, SendQueuedOperation,
    Step,
};

/// A future of an operation, to be polled by a runner.
struct Performance<'op>(Pin<Box<dyn Future<Output = ()> + Send + 'op>>);

impl SendPerforming for Performance<'_> {
    fn poll(&mut self, context: &mut Context<'_>) -> Poll<()> {
        self.0.as_mut().poll(context)
    }
}

/// An operation that does nothing.
#[derive(Debug)]
struct Nothing {}

impl SendQueuedOperation for Nothing {
    type Performing<'op> = Performance<'op>;

    fn perform<'op>(&'op self) -> Performance<'op> {
        Performance(Box::pin(std::future::ready(())))
    }
}

/// An operation with a numerical ID that sends its own ID through a channel.
#[derive(Debug)]
struct Operation {
    id: u8,
    sender: Sender<u8>,
}

impl SendQueuedOperation for Operation {
    type Performing<'op> = Performance<'op>;

    fn perform<'op>(&'op self) -> Performance<'op> {
        Performance(Box::pin(async { self.sender.send(self.id).await.unwrap() }))
    }
}

fn assert_send<T: Send>() {}

fn boxed<T: SendQueuedOperation + 'static>(op: T) -> BoxedSendOperation {
    Erased { inner: Box::new(op) }
}

/// Starts `runners` runners, and returns their positions. Their tasks are left
/// to the caller.
fn start(queue: &mut SendOperationQueue, runners: u32) -> Result<Vec<usize>, Error> {
    let mut start = queue.start(runners)?;
    let mut positions = Vec::new();
    while let Some(at) = queue.next_runner(&mut start) {
        queue.spawned(at);
        positions.push(at);
    }
    Ok(positions)
}

/// Asks once for the next step of each of the five runners, none of which has
/// an operation to perform.
fn give_runners_a_chance(queue: &mut SendOperationQueue) {
    for at in 0..5 {
        assert!(matches!(queue.run(at), Step::Wait));
    }
}

fn check_start_queue(mut queue: SendOperationQueue) {
    let positions = start(&mut queue, 5).unwrap();
    assert_eq!(queue.active_runners(), 5);
    assert_eq!(positions, vec![0, 1, 2, 3, 4]);
    assert!(queue.running());
    assert!(!queue.idle());

    give_runners_a_chance(&mut queue);
    assert!(queue.idle());
}

fn check_stop_queue(mut queue: SendOperationQueue) {
    start(&mut queue, 5).unwrap();
    give_runners_a_chance(&mut queue);
    assert!(queue.idle());

    assert!(queue.stop());
    assert!(!queue.running());
    assert!(queue.stopped());
    assert!(!queue.stop());

    match start(&mut queue, 1) {
        Ok(_) => panic!("we should not be able to start the queue after stopping it"),
        Err(Error::Stopped) => (),
        Err(_) => panic!("unexpected error"),
    }

    match queue.enqueue(boxed(Nothing {})) {
        Ok(_) => panic!("we should not be able to enqueue operations after stopping the queue"),
        Err(Error::Sender) => (),
        Err(_) => panic!("unexpected error"),
    }
}

/// What a task does for the runner at position `at`, until there is nothing
/// left to do.
async fn work(queue: Arc<Mutex<SendOperationQueue>>, at: usize) {
    loop {
        let step = queue.lock().unwrap().run(at);
        match step {
            Step::Perform(op) => {
                let mut performing = op.inner.perform();
                poll_fn(|context| performing.inner.poll(context)).await;
            }
            Step::Wait | Step::Exit => return,
        }
    }
}

fn check_operation_order(mut queue: SendOperationQueue) {
    let runtime = tokio::runtime::Builder::new_multi_thread()
        .enable_time()
        .build()
        .unwrap();
    let (sender, receiver) = async_channel::unbounded();

    queue
        .enqueue(boxed(Operation {
            id: 1,
            sender: sender.clone(),
        }))
        .unwrap();
    queue
        .enqueue(boxed(Operation {
            id: 2,
            sender: sender.clone(),
        }))
        .unwrap();

    let positions = start(&mut queue, 1).unwrap();
    let queue = Arc::new(Mutex::new(queue));
    let mut tasks = Vec::new();
    for at in positions {
        tasks.push(runtime.spawn(work(queue.clone(), at)));
    }

    runtime.block_on(async {
        let id = receiver.recv().await.unwrap();
        assert_eq!(id, 1);
        let id = receiver.recv().await.unwrap();
        assert_eq!(id, 2);

        for task in tasks {
            task.await.unwrap();
        }
        tokio::time::sleep(Duration::from_millis(10)).await;
        assert!(queue.lock().unwrap().idle());
    });
}

#[test]
fn send_operation_queue_is_send() {
    assert_send::<SendOperationQueue>();
}

#[test]
fn send_operation_queue_start_queue() {
    check_start_queue(SendOperationQueue::new());
}

#[test]
fn send_operation_queue_stop_queue() {
    check_stop_queue(SendOperationQueue::new());
}

#[test]
fn send_operation_queue_operation_order_across_threads() {
    check_operation_order(SendOperationQueue::new());
}

#[test]
fn multi_thread_operation_queue_is_send() {
    assert_send::<multi_thread::OperationQueue>();
}

#[test]
fn multi_thread_start_queue() {
    check_start_queue(multi_thread::OperationQueue::new());
}

#[test]
fn multi_thread_stop_queue() {
    check_stop_queue(multi_thread::OperationQueue::new());
}

#[test]
fn multi_thread_operation_order_across_threads() {
    check_operation_order(multi_thread::OperationQueue::new());
}
