//! The blocking drive: fast path, wake/repoll cycle, stale wakes, and
//! task-id allocation.

use minirt::executor::WaitEvent;
use minirt::executor::WaitStep;
use minirt::executor::next_wait_step;
use minirt::sample::CountdownTask;
use minirt::sample::InstantTask;
use minirt::sample::NeverTask;
use minirt::Executor;
use minirt::PollOutcome;
use minirt::Reactor;
use minirt::WakerImpl;

/// A future that is ready on its first poll resolves without any
/// reactor registration and without the drive ever suspending.
#[test]
fn fast_path_resolves_without_registration() {
    let mut reactor = Reactor::new();
    let mut ex = Executor::<InstantTask>::new();

    let id = ex.submit(InstantTask { value: 7 });
    match ex.poll_task(id, &mut reactor) {
        PollOutcome::Finished(out) => assert_eq!(out, 7),
        _ => panic!("a ready task must finish on its first poll"),
    }
    assert!(!ex.contains_task(id), "a finished task must be retired");
    assert!(
        reactor.interest().is_empty(),
        "the fast path must not register any descriptor"
    );
}

/// A future that becomes ready only after exactly one wake resolves
/// correctly.
#[test]
fn one_wake_then_ready() {
    let mut reactor = Reactor::new();
    let mut ex = Executor::<CountdownTask>::new();

    let id = ex.submit(CountdownTask { rounds_left: 1, value: 42 });
    assert!(matches!(
        ex.poll_task(id, &mut reactor),
        PollOutcome::StillPending
    ));

    // The wake carries the task's own id back to the drive.
    let waker = WakerImpl::new(id);
    let woken = waker.wake();
    assert_eq!(woken, id);
    match next_wait_step(&WaitEvent::Notified(woken)) {
        WaitStep::Repoll(repoll_id) => {
            match ex.poll_task(repoll_id, &mut reactor) {
                PollOutcome::Finished(out) => assert_eq!(out, 42),
                _ => panic!("one wake must complete the task"),
            }
        }
        _ => panic!("a notification must lead to a repoll"),
    }
    assert!(!ex.contains_task(id));
}

/// A wake for an id that is no longer (or never was) in the table is
/// stale: ignored, nothing repolled, nothing changed.
#[test]
fn stale_wake_is_ignored() {
    let mut reactor = Reactor::new();
    let mut ex = Executor::<InstantTask>::new();

    let id = ex.submit(InstantTask { value: 1 });
    assert!(matches!(
        ex.poll_task(id, &mut reactor),
        PollOutcome::Finished(_)
    ));
    // Second wake for the finished task: no duplicate delivery.
    assert!(matches!(
        ex.poll_task(id, &mut reactor),
        PollOutcome::Stale
    ));
    // Wake for an id never issued.
    assert!(matches!(
        ex.poll_task(999, &mut reactor),
        PollOutcome::Stale
    ));
}

/// Waking one task touches no other: each output reaches exactly the
/// consumer waiting on its own id, in whatever order wakes arrive.
#[test]
fn outputs_reach_their_own_tasks_in_any_wake_order() {
    // Several rounds, each with a differently shuffled wake order.
    let mut rng: u64 = 0x9e37_79b9_7f4a_7c15;
    for round in 0..10 {
        let n = 8usize;
        let mut order: Vec<usize> = (0..n).collect();
        for i in (1..n).rev() {
            rng ^= rng << 13;
            rng ^= rng >> 7;
            rng ^= rng << 17;
            order.swap(i, (rng as usize) % (i + 1));
        }

        let mut reactor = Reactor::new();
        let mut ex = Executor::<CountdownTask>::new();
        let mut ids = Vec::new();
        for v in 0..n as u64 {
            let id = ex.submit(CountdownTask { rounds_left: 1, value: 100 + v });
            ids.push((id, 100 + v));
        }
        for (id, _) in &ids {
            assert!(matches!(
                ex.poll_task(*id, &mut reactor),
                PollOutcome::StillPending
            ));
        }
        // Wakes fire in this round's shuffled order.
        let mut done: Vec<u64> = Vec::new();
        for &k in &order {
            let (id, expected) = ids[k];
            match ex.poll_task(id, &mut reactor) {
                PollOutcome::Finished(out) => assert_eq!(
                    out, expected,
                    "round {round}: the woken task must finish with its own output"
                ),
                _ => panic!("round {round}: the woken task must finish"),
            }
            done.push(id);
            // Exactly the woken tasks have left the table: no cross
            // delivery, no duplicate delivery.
            for (other, _) in &ids {
                assert_eq!(ex.contains_task(*other), !done.contains(other));
            }
        }
    }
}

/// Ids are handed out in counter order and are unique among live
/// tasks.
#[test]
fn ids_are_sequential_and_unique() {
    let mut ex = Executor::<NeverTask>::new();
    let mut ids = Vec::new();
    for _ in 0..8 {
        ids.push(ex.submit(NeverTask {}));
    }
    assert_eq!(ids, vec![1, 2, 3, 4, 5, 6, 7, 8]);
    let mut sorted = ids.clone();
    sorted.sort_unstable();
    sorted.dedup();
    assert_eq!(sorted.len(), 8, "no two live tasks may share an id");
}

/// Forcing the id space to wrap must not make two live tasks collide:
/// the counter wraps past the top and keeps issuing fresh ids.
#[test]
fn id_wraparound_does_not_collide() {
    let mut ex = Executor::<NeverTask>::with_first_id(u64::MAX);
    let a = ex.submit(NeverTask {});
    let b = ex.submit(NeverTask {});
    let c = ex.submit(NeverTask {});
    assert_eq!(a, u64::MAX);
    assert_eq!(b, 0, "the counter wraps at the top of the id space");
    assert_eq!(c, 1);
    assert!(ex.contains_task(a) && ex.contains_task(b) && ex.contains_task(c));
}

/// The drive-loop decision table: wake means repoll, empty channel
/// means suspend, closed channel means unrecoverable failure.
#[test]
fn wait_step_decisions() {
    assert!(matches!(
        next_wait_step(&WaitEvent::Notified(4)),
        WaitStep::Repoll(4)
    ));
    assert!(matches!(
        next_wait_step(&WaitEvent::EmptyChannel),
        WaitStep::Suspend
    ));
    assert!(matches!(
        next_wait_step(&WaitEvent::ChannelClosed),
        WaitStep::Fail
    ));
}

/// Shutdown before completion: the pending task's output is never
/// produced, the entry simply survives until teardown drops it.
#[test]
fn shutdown_with_pending_task_produces_no_output() {
    let mut reactor = Reactor::new();
    let mut ex = Executor::<NeverTask>::new();

    let id = ex.submit(NeverTask {});
    assert!(matches!(
        ex.poll_task(id, &mut reactor),
        PollOutcome::StillPending
    ));
    reactor.set_shutdown();
    assert!(reactor.is_shutdown(), "the polling loop stops on its next check");
    // No wake will ever arrive; the task is still live, unfinished.
    assert!(ex.contains_task(id));
}
