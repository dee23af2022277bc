//! The scheduler: a FIFO queue of ready-to-run events and the
//! decisions of a worker's dispatch loop.
//!
//! The queue decouples "a task became ready" from "who repolls it".
//! Producers append under a lock and signal one waiting worker; a
//! worker pops the front and executes the event outside the lock.
//! The lock, the condition variable and the worker thread itself are
//! the surrounding application's; this module fixes what each side
//! does to the queue, and `worker_step` is the decision a worker
//! follows on every wake: stop once shutdown is requested, wait while
//! the queue is empty, otherwise run the oldest event.
//!
//! A shutdown request must be delivered as "set the flag, then signal
//! the condition variable", or a worker parked on an empty queue never
//! observes it.

use vstd::prelude::*;

use crate::event::Event;
use crate::future::Pollable;

verus! {

/// What a worker does next.
pub enum WorkerStep<F: Pollable> {
    /// Shutdown was requested: leave the loop.
    Stop,
    /// Nothing queued: wait on the condition variable and ask again.
    Wait,
    /// Execute this event — the oldest one queued.
    Run(Event<F>),
}

/// The ready-event queue, FIFO, plus the worker shutdown flag.
pub struct SchedulerImpl<F: Pollable> {
    queue: Vec<Event<F>>,
    shutdown: bool,
}

impl<F: Pollable> View for SchedulerImpl<F> {
    type V = Seq<Event<F>>;

    /// A scheduler is read as the queued events, oldest first.
    closed spec fn view(&self) -> Seq<Event<F>> {
        self.queue@
    }
}

impl<F: Pollable> SchedulerImpl<F> {
    /// Whether shutdown has been requested.
    pub closed spec fn shutting_down(&self) -> bool {
        self.shutdown
    }

    /// An empty queue, not shut down.
    pub fn new() -> (r: Self)
        ensures
            r@ == Seq::<Event<F>>::empty(),
            !r.shutting_down(),
    {
        SchedulerImpl { queue: Vec::new(), shutdown: false }
    }

    /// Appends an event to the back of the queue — unless shutdown has
    /// been requested, in which case the event is dropped and nothing
    /// changes.  (That a dropped event is not reported back is a
    /// documented limitation, kept as is.)
    pub fn push_event(&mut self, event: Event<F>)
        ensures
            !old(self).shutting_down() ==> final(self)@ == old(self)@.push(event)
                && !final(self).shutting_down(),
            old(self).shutting_down() ==> *final(self) == *old(self),
    {
        if self.shutdown {
            return ;
        }
        self.queue.push(event);
    }

    /// Requests shutdown of the worker loop.  The transition is
    /// one-way and idempotent: a second request changes nothing, and
    /// the queue is left as it is either way.
    pub fn deactivate(&mut self)
        ensures
            final(self).shutting_down(),
            final(self)@ == old(self)@,
            old(self).shutting_down() ==> *final(self) == *old(self),
    {
        self.shutdown = true;
    }

    /// Observes the shutdown flag, re-checked by the worker on every
    /// wake.
    pub fn is_shutdown(&self) -> (r: bool)
        ensures
            r == self.shutting_down(),
    {
        self.shutdown
    }

    /// How many events are queued.
    pub fn queue_len(&self) -> (n: usize)
        ensures
            n == self@.len(),
    {
        self.queue.len()
    }

    /// One turn of the worker loop: stop on shutdown, wait while
    /// empty, otherwise pop and hand out the front — the oldest —
    /// event.  Events leave the queue in exactly the order they were
    /// pushed.
    pub fn worker_step(&mut self) -> (step: WorkerStep<F>)
        ensures
            (step matches WorkerStep::Stop) <==> old(self).shutting_down(),
            (step matches WorkerStep::Wait) <==> (!old(self).shutting_down()
                && old(self)@.len() == 0),
            (step matches WorkerStep::Stop) ==> *final(self) == *old(self),
            (step matches WorkerStep::Wait) ==> *final(self) == *old(self),
            (!old(self).shutting_down() && old(self)@.len() > 0) ==> step
                == WorkerStep::<F>::Run(old(self)@[0]) && final(self)@
                == old(self)@.drop_first() && final(self).shutting_down() == old(
                self,
            ).shutting_down(),
    {
        if self.shutdown {
            return WorkerStep::Stop;
        }
        if self.queue.len() == 0 {
            return WorkerStep::Wait;
        }
        let e = self.queue.remove(0);
        proof {
            assert(self.queue@ =~= old(self).queue@.drop_first());
        }
        WorkerStep::Run(e)
    }
}

/// FIFO, stated once and for all: appending never reorders what is
/// already queued, and after `k` pops the front is exactly the
/// `k`-th arrival — so a worker executes events in arrival order.
pub proof fn lemma_queue_is_fifo<V>(q: Seq<V>, e: V, k: int)
    requires
        0 <= k < q.len(),
    ensures
        q.push(e)[q.len() as int] == e,
        forall|i: int| 0 <= i < q.len() ==> q.push(e)[i] == q[i],
        q.skip(k)[0] == q[k],
        q.skip(k).drop_first() == q.skip(k + 1),
{
    assert(q.skip(k).drop_first() =~= q.skip(k + 1));
}

} // verus!
