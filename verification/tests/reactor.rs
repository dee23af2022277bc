//! The reactor's registration table: overwrite semantics, interest
//! sets, firing, and the retire-on-fire policy.

use minirt::reactor::next_reactor_step;
use minirt::reactor::ReactorStep;
use minirt::reactor::ReadinessCheck;
use minirt::sample::DescriptorTask;
use minirt::Executor;
use minirt::PollOutcome;
use minirt::Reactor;
use minirt::WakerImpl;

/// `add_reader` records a registration and overwrites an earlier one
/// for the same descriptor: one active waker per descriptor.
#[test]
fn add_reader_overwrites() {
    let mut r = Reactor::new();
    r.add_reader(4, WakerImpl::new(10));
    r.add_reader(4, WakerImpl::new(11));
    r.add_reader(6, WakerImpl::new(12));

    let mut interest = r.interest();
    interest.sort_unstable();
    assert_eq!(interest, vec![4, 6]);

    let fired = r.collect_ready(&vec![4]);
    assert_eq!(fired.len(), 1);
    assert_eq!(fired[0].0, 4);
    assert_eq!(fired[0].1.task_id(), 11, "the last write wins");
}

/// The interest set and its bound follow the registrations.
#[test]
fn interest_and_max_fd() {
    let mut r = Reactor::new();
    assert!(r.interest().is_empty());
    assert_eq!(r.max_fd(), None);

    r.add_reader(9, WakerImpl::new(1));
    r.add_reader(3, WakerImpl::new(2));
    assert_eq!(r.max_fd(), Some(9));

    let mut interest = r.interest();
    interest.sort_unstable();
    assert_eq!(interest, vec![3, 9]);
}

/// One readiness event fires the bound waker exactly once: the
/// registration is retired when it fires, so the same event cannot
/// fire it again, and descriptors nobody registered are ignored.
#[test]
fn readiness_fires_exactly_once() {
    let mut r = Reactor::new();
    r.add_reader(5, WakerImpl::new(21));
    r.add_reader(7, WakerImpl::new(22));

    let fired = r.collect_ready(&vec![5, 100]);
    assert_eq!(fired.len(), 1, "one fire per ready registered descriptor");
    assert_eq!((fired[0].0, fired[0].1.task_id()), (5, 21));

    // The fired registration is gone; the other survives.
    let fired_again = r.collect_ready(&vec![5, 100]);
    assert!(fired_again.is_empty(), "a fired registration must not fire again");
    assert_eq!(r.interest(), vec![7]);

    // Nothing ready at all: a timeout simply fires nobody.
    assert!(r.collect_ready(&Vec::new()).is_empty());
}

/// The full single-descriptor scenario: register `d`, readiness
/// reports `d`, the bound waker fires once, and the task is repolled
/// exactly once for that event.
#[test]
fn one_readiness_event_one_repoll() {
    let mut reactor = Reactor::new();
    let mut ex = Executor::<DescriptorTask>::new();

    let d = 13;
    let id = ex.submit(DescriptorTask { fd: d, value: 77, registered: false });

    // First poll: the task asks for its descriptor to be watched.
    assert!(matches!(
        ex.poll_task(id, &mut reactor),
        PollOutcome::StillPending
    ));
    assert_eq!(reactor.interest(), vec![d]);

    // Readiness on `d`: exactly one wake, bound to the task's id.
    let fired = reactor.collect_ready(&vec![d]);
    assert_eq!(fired.len(), 1);
    let woken = fired[0].1.wake();
    assert_eq!(woken, id);

    // The one repoll completes the task; no second wake can follow.
    match ex.poll_task(woken, &mut reactor) {
        PollOutcome::Finished(out) => assert_eq!(out, 77),
        _ => panic!("the repoll after readiness must complete the task"),
    }
    assert!(reactor.collect_ready(&vec![d]).is_empty());
    assert!(reactor.interest().is_empty());
}

/// Requesting shutdown twice is safe and the second request is a
/// no-op; registrations survive it untouched.
#[test]
fn shutdown_twice_is_a_no_op() {
    let mut r = Reactor::new();
    r.add_reader(2, WakerImpl::new(30));
    assert!(!r.is_shutdown());

    r.set_shutdown();
    assert!(r.is_shutdown());
    r.set_shutdown();
    assert!(r.is_shutdown());
    assert_eq!(r.interest(), vec![2]);
}

/// The polling loop's decision table: shutdown always stops it; a
/// failed or timed-out readiness check is non-fatal and only means
/// another iteration; ready descriptors are dispatched.
#[test]
fn reactor_loop_decisions() {
    assert!(matches!(
        next_reactor_step(true, &ReadinessCheck::Ready),
        ReactorStep::Stop
    ));
    assert!(matches!(
        next_reactor_step(false, &ReadinessCheck::Failed),
        ReactorStep::Retry
    ));
    assert!(matches!(
        next_reactor_step(false, &ReadinessCheck::TimedOut),
        ReactorStep::Retry
    ));
    assert!(matches!(
        next_reactor_step(false, &ReadinessCheck::Ready),
        ReactorStep::Dispatch
    ));
}

/// Wakers: handles are bound to one task id, clones carry the same
/// identity and produce the same notification.
#[test]
fn waker_clones_notify_same_id() {
    let w = WakerImpl::new(99);
    let c = w.clone();
    assert_eq!(w.wake(), 99);
    assert_eq!(c.wake(), 99);
    assert_eq!(w.task_id(), c.task_id());
    assert_eq!(w, c);
}
