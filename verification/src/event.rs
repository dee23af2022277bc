//! The unit the scheduler dispatches: a task together with the waker
//! to use for its next poll.

use vstd::prelude::*;

use crate::future::Pollable;
use crate::future::TaskPoll;
use crate::reactor::Reactor;
use crate::waker::WakerImpl;

verus! {

/// Placeholder for a poll context shared by all events of one
/// scheduler; it carries nothing yet.
pub struct EventHandler {}

/// A ready-to-run unit of work: the task to advance and the waker
/// bound to its identity.
pub struct Event<F: Pollable> {
    future: F,
    waker: WakerImpl,
}

impl<F: Pollable> Event<F> {
    /// The id of the task this event advances.
    pub closed spec fn task_id_spec(&self) -> u64 {
        self.waker.id_spec()
    }

    /// The waker the next poll runs under.
    pub closed spec fn waker_spec(&self) -> WakerImpl {
        self.waker
    }

    /// The task itself.
    pub closed spec fn future_spec(&self) -> F {
        self.future
    }

    /// Packages a task with the waker for its next poll.
    pub fn new(future: F, waker: WakerImpl) -> (e: Self)
        ensures
            e.future_spec() == future,
            e.waker_spec() == waker,
            e.task_id_spec() == waker.id_spec(),
    {
        Event { future, waker }
    }

    /// The id of the task this event advances.
    pub fn task_id(&self) -> (r: u64)
        ensures
            r == self.task_id_spec(),
    {
        self.waker.task_id()
    }

    /// Executes the event: one poll of its task, under its waker.  A
    /// pending task that names a descriptor has that descriptor
    /// registered with the reactor under this event's waker; otherwise
    /// the reactor is left alone.  The poll result is handed back so
    /// the caller can deliver an output or re-schedule.
    pub fn run(&mut self, reactor: &mut Reactor) -> (p: TaskPoll<F::Output>)
        requires
            old(reactor).wf(),
        ensures
            final(reactor).wf(),
            final(reactor).shutting_down() == old(reactor).shutting_down(),
            final(self).task_id_spec() == old(self).task_id_spec(),
            final(self).waker_spec() == old(self).waker_spec(),
            (p matches TaskPoll::Ready(_)) ==> final(reactor)@ == old(reactor)@,
            p matches TaskPoll::Pending(reg) ==> match reg {
                None => final(reactor)@ == old(reactor)@,
                Some(fd) => final(reactor)@ == old(reactor)@.insert(
                    fd,
                    old(self).waker_spec(),
                ),
            },
    {
        let waker = self.waker;
        let p = self.future.poll(&waker);
        if let TaskPoll::Pending(Some(fd)) = &p {
            reactor.add_reader(*fd, waker);
        }
        p
    }
}

} // verus!
