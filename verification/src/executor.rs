//! The executor: the table of in-flight tasks and the decisions of the
//! blocking drive loop.
//!
//! The executor keeps every submitted, not yet finished task keyed by
//! its id, allocates ids so that no live task's id is ever reissued,
//! and performs one poll at a time: `poll_task` looks the task up,
//! polls it with the waker bound to its id, records any descriptor
//! interest the task names, and retires the entry the moment the task
//! finishes — a later wake for that id is then stale and ignored.
//!
//! What remains of a blocking `block_on` is its suspend/resume cycle:
//! waiting on the notification channel, parking the thread, repolling
//! on a wake.  Those are operating-system actions, so the surrounding
//! application runs that loop; `next_wait_step` is the decision it
//! follows at each turn, and `poll_task` is the work it performs.
//!
//! TaskId policy: ids count upward from where the counter stands and
//! wrap at the top of the id space; an id still held by a live task is
//! skipped, never reissued, so two live tasks cannot collide however
//! long the runtime lives.

use vstd::prelude::*;
use vstd::set_lib::lemma_len_subset;

use crate::future::Pollable;
use crate::future::TaskPoll;
use crate::reactor::Reactor;
use crate::table::assoc_map;
use crate::table::key_seq;
use crate::table::lemma_assoc_map_card;
use crate::table::lemma_assoc_map_contains;
use crate::table::lemma_assoc_map_push;
use crate::table::lemma_assoc_map_remove;
use crate::table::uniq_keys;
use crate::waker::WakerImpl;

verus! {

/// The largest task id; the id counter wraps past it.
pub open spec fn max_task_id() -> u64 {
    0xffff_ffff_ffff_ffff
}

/// The id counter's successor: one more, wrapping at the top.
pub open spec fn wrap_inc(id: u64) -> u64 {
    if id == max_task_id() {
        0
    } else {
        (id + 1) as u64
    }
}

/// The id reached from `start` after `k` wrapping increments,
/// for `0 <= k < 2^64`.
pub open spec fn wrap_window(start: u64, k: int) -> u64 {
    if start + k <= max_task_id() {
        (start + k) as u64
    } else {
        (start + k - 0x1_0000_0000_0000_0000) as u64
    }
}

/// Wrapping increments from one starting point never collide while
/// fewer than the whole id space has been walked.
proof fn lemma_wrap_window_distinct(start: u64, i: int, j: int)
    requires
        0 <= i < j < 0x1_0000_0000_0000_0000,
    ensures
        wrap_window(start, i) != wrap_window(start, j),
{
}

/// What one poll attempt through the executor reports.
pub enum PollOutcome<T> {
    /// No task with the given id is live; the wake was stale and
    /// nothing was touched.
    Stale,
    /// The task finished with this output; its entry is retired.
    Finished(T),
    /// The task is still pending and stays in the table.
    StillPending,
}

/// What the wait side of a blocking drive observed on its
/// notification channel.
pub enum WaitEvent {
    /// A wake arrived, carrying the id of the task to repoll.
    Notified(u64),
    /// The channel is empty: nothing to do right now.
    EmptyChannel,
    /// The channel is gone while the task is still pending: the only
    /// possible wake source died.
    ChannelClosed,
}

/// The decision the drive loop follows for one observation.
pub enum WaitStep {
    /// Look the task up and repoll it.
    Repoll(u64),
    /// Suspend the calling thread until a wake (or a bounded fallback
    /// timeout) arrives.
    Suspend,
    /// Unrecoverable: no wake can ever arrive, so the drive must fail
    /// rather than return a degraded result.
    Fail,
}

/// One turn of the blocking drive loop: a wake is acted on, an empty
/// channel suspends, and a closed channel while work is pending is an
/// internal invariant violation.
pub fn next_wait_step(ev: &WaitEvent) -> (step: WaitStep)
    ensures
        match *ev {
            WaitEvent::Notified(id) => step == WaitStep::Repoll(id),
            WaitEvent::EmptyChannel => step == WaitStep::Suspend,
            WaitEvent::ChannelClosed => step == WaitStep::Fail,
        },
{
    match ev {
        WaitEvent::Notified(id) => WaitStep::Repoll(*id),
        WaitEvent::EmptyChannel => WaitStep::Suspend,
        WaitEvent::ChannelClosed => WaitStep::Fail,
    }
}

/// The table of in-flight tasks and the id counter.
pub struct Executor<F: Pollable> {
    tasks: Vec<(u64, F)>,
    next_id: u64,
}

impl<F: Pollable> View for Executor<F> {
    type V = Map<u64, F>;

    /// An executor is read as the map from live task id to the task it
    /// owns.
    closed spec fn view(&self) -> Map<u64, F> {
        assoc_map(self.tasks@)
    }
}

impl<F: Pollable> Executor<F> {
    /// The task table never holds two entries for one id.
    pub closed spec fn wf(&self) -> bool {
        uniq_keys(self.tasks@)
    }

    /// Where the id counter stands: the first candidate for the next
    /// allocation.
    pub closed spec fn next_id_spec(&self) -> u64 {
        self.next_id
    }

    /// How many tasks are in flight.
    pub closed spec fn task_count(&self) -> nat {
        self.tasks@.len()
    }

    /// An empty task table, with the id counter at its conventional
    /// start.
    pub fn new() -> (r: Self)
        ensures
            r.wf(),
            r@ == Map::<u64, F>::empty(),
            r.task_count() == 0,
            r.next_id_spec() == 1u64,
    {
        Executor { tasks: Vec::new(), next_id: 1 }
    }

    /// An empty task table whose id counter starts wherever the caller
    /// says — the way to exercise the wraparound of the id space.
    pub fn with_first_id(first: u64) -> (r: Self)
        ensures
            r.wf(),
            r@ == Map::<u64, F>::empty(),
            r.task_count() == 0,
            r.next_id_spec() == first,
    {
        Executor { tasks: Vec::new(), next_id: first }
    }

    /// Index of the entry for `id`, if any.
    fn find_task(&self, id: u64) -> (r: Option<usize>)
        ensures
            match r {
                Some(i) => i < self.tasks@.len() && self.tasks@[i as int].0 == id,
                None => forall|k: int| 0 <= k < self.tasks@.len() ==> self.tasks@[k].0 != id,
            },
    {
        let n = self.tasks.len();
        let mut i: usize = 0;
        while i < n
            invariant
                i <= n,
                n == self.tasks@.len(),
                forall|k: int| 0 <= k < i ==> self.tasks@[k].0 != id,
            decreases n - i,
        {
            if self.tasks[i].0 == id {
                return Some(i);
            }
            i = i + 1;
        }
        None
    }

    /// How many tasks are in flight — what `submit` asks to be below
    /// the size of the id space.
    pub fn live_tasks(&self) -> (n: usize)
        ensures
            n == self.task_count(),
    {
        self.tasks.len()
    }

    /// Whether a task with this id is live.
    pub fn contains_task(&self, id: u64) -> (r: bool)
        ensures
            r == self@.contains_key(id),
    {
        proof {
            lemma_assoc_map_contains(self.tasks@, id);
        }
        match self.find_task(id) {
            Some(_) => true,
            None => {
                proof {
                    if self@.contains_key(id) {
                        let m = choose|m: int|
                            0 <= m < self.tasks@.len() && self.tasks@[m].0 == id;
                        assert(self.tasks@[m].0 != id);
                    }
                }
                false
            },
        }
    }

    /// Allocates an id held by no live task: the counter's next values
    /// in order, wrapping at the top of the id space, skipping any id
    /// still live.  The skip is what keeps ids unique among live tasks
    /// even across wraparound; it terminates because there are fewer
    /// live tasks than ids.
    fn generate_id(&mut self) -> (id: u64)
        requires
            old(self).wf(),
            old(self).task_count() < max_task_id(),
        ensures
            final(self).wf(),
            final(self)@ == old(self)@,
            final(self).task_count() == old(self).task_count(),
            !final(self)@.contains_key(id),
            final(self).next_id_spec() == wrap_inc(id),
            exists|k: int|
                0 <= k && id == wrap_window(old(self).next_id_spec(), k) && (forall|m: int|
                    0 <= m < k ==> old(self)@.contains_key(
                        #[trigger] wrap_window(old(self).next_id_spec(), m),
                    )),
    {
        proof {
            lemma_assoc_map_card(self.tasks@);
        }
        let ghost self0 = *self;
        let ghost live: Set<u64> = self@.dom();
        let ghost start: u64 = self.next_id;
        let mut cand: u64 = self.next_id;
        let ghost mut steps: int = 0;
        loop
            invariant
                *self == self0,
                self.wf(),
                live == self@.dom(),
                live.finite(),
                live.len() == self.task_count(),
                self.task_count() < max_task_id(),
                0 <= steps <= live.len(),
                cand == wrap_window(start, steps),
                forall|k: int| 0 <= k < steps ==> live.contains(#[trigger] wrap_window(start, k)),
            ensures
                *self == self0,
                !self@.contains_key(cand),
                exists|k: int|
                    0 <= k && cand == wrap_window(start, k) && (forall|m: int|
                        0 <= m < k ==> live.contains(#[trigger] wrap_window(start, m))),
            decreases live.len() - steps,
        {
            if !self.contains_task(cand) {
                break ;
            }
            proof {
                let win = Seq::new((steps + 1) as nat, |k: int| wrap_window(start, k));
                assert(win.no_duplicates()) by {
                    assert forall|a: int, b: int| 0 <= a < b < win.len() implies win[a]
                        != win[b] by {
                        lemma_wrap_window_distinct(start, a, b);
                    }
                }
                win.unique_seq_to_set();
                assert(win.to_set().subset_of(live)) by {
                    assert forall|x: u64| win.to_set().contains(x) implies live.contains(x) by {
                        let k = choose|k: int| 0 <= k < win.len() && win[k] == x;
                        if k < steps {
                            assert(live.contains(wrap_window(start, k)));
                        } else {
                            assert(x == cand);
                        }
                    }
                }
                lemma_len_subset(win.to_set(), live);
                assert(steps + 1 <= live.len());
                steps = steps + 1;
            }
            let next = if cand == u64::MAX {
                0
            } else {
                cand + 1
            };
            proof {
                assert(next == wrap_window(start, steps));
            }
            cand = next;
        }
        proof {
            assert(start == old(self).next_id_spec());
            let k = choose|k: int|
                0 <= k && cand == wrap_window(start, k) && (forall|m: int|
                    0 <= m < k ==> live.contains(#[trigger] wrap_window(start, m)));
            assert forall|m: int| 0 <= m < k implies old(self)@.contains_key(
                #[trigger] wrap_window(old(self).next_id_spec(), m),
            ) by {
                assert(live.contains(wrap_window(start, m)));
            }
            assert(0 <= k && cand == wrap_window(old(self).next_id_spec(), k) && (forall|m: int|
                0 <= m < k ==> old(self)@.contains_key(
                    #[trigger] wrap_window(old(self).next_id_spec(), m),
                )));
        }
        self.next_id = if cand == u64::MAX {
            0
        } else {
            cand + 1
        };
        cand
    }

    /// Submits a computation: a fresh id — one no live task holds — is
    /// allocated and the task is entered into the table under it.
    pub fn submit(&mut self, fut: F) -> (id: u64)
        requires
            old(self).wf(),
            old(self).task_count() < max_task_id(),
        ensures
            final(self).wf(),
            !old(self)@.contains_key(id),
            final(self)@ == old(self)@.insert(id, fut),
            final(self).task_count() == old(self).task_count() + 1,
            final(self).next_id_spec() == wrap_inc(id),
            exists|k: int|
                0 <= k && id == wrap_window(old(self).next_id_spec(), k) && (forall|m: int|
                    0 <= m < k ==> old(self)@.contains_key(
                        #[trigger] wrap_window(old(self).next_id_spec(), m),
                    )),
    {
        let id = self.generate_id();
        proof {
            lemma_assoc_map_push(self.tasks@, (id, fut));
            lemma_assoc_map_contains(self.tasks@, id);
            assert(!key_seq(self.tasks@).contains(id)) by {
                if key_seq(self.tasks@).contains(id) {
                    let m = choose|m: int|
                        0 <= m < key_seq(self.tasks@).len() && key_seq(self.tasks@)[m] == id;
                    assert(self.tasks@[m].0 == id);
                }
            }
        }
        self.tasks.push((id, fut));
        id
    }

    /// Acts on a wake for `id`: one poll of exactly that task.
    ///
    /// A wake for an id no longer live reports `Stale` and changes
    /// nothing — never a second delivery for a finished task.  A task
    /// that finishes is retired on the spot and its output handed
    /// back; no other entry is touched either way.  If the task stays
    /// pending and names a descriptor, that descriptor is registered
    /// with the reactor under the task's waker.
    pub fn poll_task(&mut self, id: u64, reactor: &mut Reactor) -> (r: PollOutcome<F::Output>)
        requires
            old(self).wf(),
            old(reactor).wf(),
        ensures
            final(self).wf(),
            final(reactor).wf(),
            final(self).next_id_spec() == old(self).next_id_spec(),
            final(reactor).shutting_down() == old(reactor).shutting_down(),
            (r matches PollOutcome::Stale) <==> !old(self)@.contains_key(id),
            (r matches PollOutcome::Stale) ==> *final(self) == *old(self) && *final(reactor)
                == *old(reactor),
            (r matches PollOutcome::Finished(_)) ==> final(self)@ == old(self)@.remove(id)
                && final(self).task_count() == old(self).task_count() - 1 && *final(reactor)
                == *old(reactor),
            (r matches PollOutcome::StillPending) ==> final(self)@.contains_key(id)
                && final(self).task_count() == old(self).task_count() && (final(reactor)@ == old(
                reactor,
            )@ || (exists|fd: i32|
                final(reactor)@ == old(reactor)@.insert(fd, WakerImpl::for_task(id)))),
            forall|j: u64| j != id ==> (final(self)@.contains_key(j) <==> old(
                self,
            )@.contains_key(j)) && (old(self)@.contains_key(j) ==> final(self)@[j] == old(
                self,
            )@[j]),
    {
        proof {
            lemma_assoc_map_contains(self.tasks@, id);
        }
        let idx = match self.find_task(id) {
            None => {
                return PollOutcome::Stale;
            },
            Some(i) => i,
        };
        proof {
            lemma_assoc_map_remove(self.tasks@, idx as int);
        }
        let entry = self.tasks.remove(idx);
        let mut fut = entry.1;
        let waker = WakerImpl::new(id);
        match fut.poll(&waker) {
            TaskPoll::Ready(out) => PollOutcome::Finished(out),
            TaskPoll::Pending(interest) => {
                proof {
                    lemma_assoc_map_push(self.tasks@, (id, fut));
                    lemma_assoc_map_contains(self.tasks@, id);
                    assert(!key_seq(self.tasks@).contains(id)) by {
                        if key_seq(self.tasks@).contains(id) {
                            let m = choose|m: int|
                                0 <= m < key_seq(self.tasks@).len() && key_seq(self.tasks@)[m]
                                    == id;
                            assert(self.tasks@[m].0 == id);
                        }
                    }
                    assert(old(self)@.remove(id).insert(id, fut) =~= old(self)@.insert(id, fut));
                }
                self.tasks.push((id, fut));
                if let Some(fd) = interest {
                    reactor.add_reader(fd, waker);
                }
                PollOutcome::StillPending
            },
        }
    }
}

/// The fast path leaves no trace: a task that finishes on its very
/// first poll — submitted, polled once, retired — leaves the task
/// table exactly as it was, so a blocking drive of such a task never
/// suspends and never touches anything else.
pub proof fn lemma_fast_path_leaves_no_trace<V>(table: Map<u64, V>, id: u64, task: V)
    requires
        !table.contains_key(id),
    ensures
        table.insert(id, task).remove(id) == table,
{
    assert(table.insert(id, task).remove(id) =~= table);
}

/// No duplicate delivery: once a finished task's entry has been
/// retired, its id is no longer live, so a later wake for it is stale
/// and cannot cause another poll.
pub proof fn lemma_retired_wake_is_stale<V>(table: Map<u64, V>, id: u64)
    ensures
        !table.remove(id).contains_key(id),
{
}

/// No cross delivery: retiring one task's entry neither removes nor
/// changes any other task, so every output can only reach the consumer
/// waiting on its own id.
pub proof fn lemma_wake_isolation<V>(table: Map<u64, V>, a: u64, b: u64)
    requires
        a != b,
    ensures
        table.remove(b).contains_key(a) == table.contains_key(a),
        table.contains_key(a) ==> table.remove(b)[a] == table[a],
{
}

} // verus!
