//! The scheduler queue: FIFO dispatch, shutdown, and delivery through
//! events — including a consumer-written task, the way an application
//! implements the poll contract.

use minirt::Event;
use minirt::Pollable;
use minirt::Reactor;
use minirt::SchedulerImpl;
use minirt::TaskPoll;
use minirt::WakerImpl;
use minirt::WorkerStep;
use minirt::sample::DescriptorTask;
use minirt::sample::InstantTask;

/// Events are run in arrival order: first pushed, first popped.
#[test]
fn worker_pops_fifo() {
    let mut s = SchedulerImpl::<InstantTask>::new();
    let mut reactor = Reactor::new();

    for v in [1u64, 2, 3] {
        s.push_event(Event::new(InstantTask { value: v }, WakerImpl::new(v)));
    }

    let mut outputs = Vec::new();
    loop {
        match s.worker_step() {
            WorkerStep::Run(mut e) => match e.run(&mut reactor) {
                TaskPoll::Ready(out) => outputs.push((e.task_id(), out)),
                TaskPoll::Pending(_) => panic!("these tasks finish at once"),
            },
            WorkerStep::Wait => break,
            WorkerStep::Stop => panic!("nobody requested shutdown"),
        }
    }
    assert_eq!(outputs, vec![(1, 1), (2, 2), (3, 3)]);
}

/// Each event's output is delivered with its own task id, whatever
/// order readiness pushed the events in.
#[test]
fn outputs_carry_their_own_ids() {
    let mut s = SchedulerImpl::<InstantTask>::new();
    let mut reactor = Reactor::new();

    // Wakes arrived in scrambled order.
    for v in [4u64, 2, 5, 3] {
        s.push_event(Event::new(InstantTask { value: 10 * v }, WakerImpl::new(v)));
    }
    let mut seen = Vec::new();
    while let WorkerStep::Run(mut e) = s.worker_step() {
        if let TaskPoll::Ready(out) = e.run(&mut reactor) {
            assert_eq!(out, 10 * e.task_id(), "an output must stay with its task");
            seen.push(e.task_id());
        }
    }
    assert_eq!(seen, vec![4, 2, 5, 3]);
}

/// Deactivating twice is safe: the second request is a no-op, and a
/// worker asked after shutdown stops instead of running or waiting.
#[test]
fn deactivate_twice_is_a_no_op() {
    let mut s = SchedulerImpl::<InstantTask>::new();
    s.push_event(Event::new(InstantTask { value: 8 }, WakerImpl::new(1)));

    s.deactivate();
    assert!(s.is_shutdown());
    s.deactivate();
    assert!(s.is_shutdown());
    assert!(matches!(s.worker_step(), WorkerStep::Stop));
}

/// An event pushed after shutdown was requested is dropped: the queue
/// is not extended and the worker still stops.
#[test]
fn push_after_shutdown_is_dropped() {
    let mut s = SchedulerImpl::<InstantTask>::new();
    s.push_event(Event::new(InstantTask { value: 8 }, WakerImpl::new(1)));
    assert_eq!(s.queue_len(), 1);

    s.deactivate();
    s.push_event(Event::new(InstantTask { value: 9 }, WakerImpl::new(2)));
    assert_eq!(s.queue_len(), 1, "an event pushed after shutdown is dropped");
    assert!(matches!(s.worker_step(), WorkerStep::Stop));
}

/// A worker with nothing queued waits (on its condition variable)
/// rather than spinning or stopping.
#[test]
fn empty_queue_waits() {
    let mut s = SchedulerImpl::<InstantTask>::new();
    assert!(matches!(s.worker_step(), WorkerStep::Wait));
}

/// A pending event that names a descriptor gets it registered under
/// the event's own waker; re-pushing the event continues it later.
#[test]
fn pending_event_registers_its_descriptor() {
    let mut s = SchedulerImpl::<DescriptorTask>::new();
    let mut reactor = Reactor::new();

    let task = DescriptorTask { fd: 17, value: 5, registered: false };
    s.push_event(Event::new(task, WakerImpl::new(3)));

    let mut e = match s.worker_step() {
        WorkerStep::Run(e) => e,
        _ => panic!("one event is queued"),
    };
    assert!(matches!(e.run(&mut reactor), TaskPoll::Pending(_)));
    assert_eq!(reactor.interest(), vec![17]);

    // Readiness fires the event's waker; the worker runs it again.
    let fired = reactor.collect_ready(&vec![17]);
    assert_eq!(fired[0].1.task_id(), 3);
    s.push_event(e);
    match s.worker_step() {
        WorkerStep::Run(mut again) => match again.run(&mut reactor) {
            TaskPoll::Ready(out) => assert_eq!(out, 5),
            TaskPoll::Pending(_) => panic!("woken task completes on its repoll"),
        },
        _ => panic!("the re-pushed event is queued"),
    }
}

/// A consumer-written task: the runtime accepts any implementation of
/// the poll contract, not only its own samples.
struct EchoTask {
    polls: u32,
    payload: u64,
}

impl Pollable for EchoTask {
    type Output = u64;

    fn poll(&mut self, _waker: &WakerImpl) -> TaskPoll<u64> {
        self.polls += 1;
        if self.polls >= 2 {
            TaskPoll::Ready(self.payload)
        } else {
            TaskPoll::Pending(None)
        }
    }
}

#[test]
fn consumer_task_runs_through_the_scheduler() {
    let mut s = SchedulerImpl::<EchoTask>::new();
    let mut reactor = Reactor::new();

    s.push_event(Event::new(EchoTask { polls: 0, payload: 66 }, WakerImpl::new(12)));
    let mut e = match s.worker_step() {
        WorkerStep::Run(e) => e,
        _ => panic!("one event is queued"),
    };
    assert!(matches!(e.run(&mut reactor), TaskPoll::Pending(None)));
    s.push_event(e);
    match s.worker_step() {
        WorkerStep::Run(mut again) => match again.run(&mut reactor) {
            TaskPoll::Ready(out) => assert_eq!(out, 66),
            TaskPoll::Pending(_) => panic!("second poll completes"),
        },
        _ => panic!("the re-pushed event is queued"),
    }
}
