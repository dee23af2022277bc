//! The reactor: descriptor readiness turned into wake notifications.
//!
//! The reactor owns a table from file descriptor to the most recently
//! supplied waker for that descriptor, and a one-way shutdown flag.  The
//! operating-system half of its loop — blocking in a bounded-timeout
//! readiness call — belongs to the surrounding application; each
//! iteration asks this table which descriptors to watch (`interest`,
//! `max_fd`), performs the readiness call, and hands the descriptors
//! reported ready back to `collect_ready`, which says which wakers to
//! fire.
//!
//! Stale-registration policy: a registration is retired the moment it
//! fires.  One readiness event therefore wakes a task at most once, and
//! a future that still waits re-registers its descriptor on its next
//! poll.  `add_reader` overwrites, so re-registering is always safe.

use vstd::prelude::*;

use crate::table::assoc_map;
use crate::table::keep_part;
use crate::table::key_seq;
use crate::table::lemma_assoc_map_card;
use crate::table::lemma_assoc_map_contains;
use crate::table::lemma_assoc_map_index;
use crate::table::lemma_assoc_map_push;
use crate::table::lemma_assoc_map_update;
use crate::table::lemma_partition;
use crate::table::take_part;
use crate::table::uniq_keys;
use crate::waker::WakerImpl;

verus! {

/// How one bounded-timeout readiness check ended.
pub enum ReadinessCheck {
    /// The check itself failed — a transient fault.
    Failed,
    /// The timeout elapsed with nothing ready.
    TimedOut,
    /// At least one descriptor was reported ready.
    Ready,
}

/// What the polling loop does after a readiness check.
pub enum ReactorStep {
    /// Shutdown was observed: leave the loop.
    Stop,
    /// Nothing to act on (a transient fault or a timeout is not
    /// fatal): log and run the next iteration.
    Retry,
    /// Hand the ready descriptors to `collect_ready` and fire the
    /// wakers it returns.
    Dispatch,
}

/// The polling loop's decision table: shutdown, checked first, always
/// wins; a failed or empty check only means another iteration; only a
/// successful check with ready descriptors leads to wakes.
pub fn next_reactor_step(shutting_down: bool, check: &ReadinessCheck) -> (step: ReactorStep)
    ensures
        shutting_down ==> step == ReactorStep::Stop,
        !shutting_down ==> match *check {
            ReadinessCheck::Failed => step == ReactorStep::Retry,
            ReadinessCheck::TimedOut => step == ReactorStep::Retry,
            ReadinessCheck::Ready => step == ReactorStep::Dispatch,
        },
{
    if shutting_down {
        return ReactorStep::Stop;
    }
    match check {
        ReadinessCheck::Failed => ReactorStep::Retry,
        ReadinessCheck::TimedOut => ReactorStep::Retry,
        ReadinessCheck::Ready => ReactorStep::Dispatch,
    }
}

/// The set of (descriptor, waker) registrations, plus the shutdown
/// flag observed by the polling loop.
pub struct Reactor {
    regs: Vec<(i32, WakerImpl)>,
    shutdown: bool,
}

impl View for Reactor {
    type V = Map<i32, WakerImpl>;

    /// A reactor is read as the map from registered descriptor to the
    /// waker that a readiness event on it will fire.
    closed spec fn view(&self) -> Map<i32, WakerImpl> {
        assoc_map(self.regs@)
    }
}

impl Reactor {
    /// The registration table never holds two entries for one
    /// descriptor: the most recent registration is the only one.
    pub closed spec fn wf(&self) -> bool {
        uniq_keys(self.regs@)
    }

    /// Whether shutdown has been requested.
    pub closed spec fn shutting_down(&self) -> bool {
        self.shutdown
    }

    /// An empty table, not shut down.
    pub fn new() -> (r: Self)
        ensures
            r.wf(),
            r@ == Map::<i32, WakerImpl>::empty(),
            !r.shutting_down(),
    {
        Reactor { regs: Vec::new(), shutdown: false }
    }

    /// Index of the registration for `fd`, if any.
    fn find_fd(&self, fd: i32) -> (r: Option<usize>)
        ensures
            match r {
                Some(i) => i < self.regs@.len() && self.regs@[i as int].0 == fd,
                None => forall|k: int| 0 <= k < self.regs@.len() ==> self.regs@[k].0 != fd,
            },
    {
        let n = self.regs.len();
        let mut i: usize = 0;
        while i < n
            invariant
                i <= n,
                n == self.regs@.len(),
                forall|k: int| 0 <= k < i ==> self.regs@[k].0 != fd,
            decreases n - i,
        {
            if self.regs[i].0 == fd {
                return Some(i);
            }
            i = i + 1;
        }
        None
    }

    /// Records, or overwrites, the waker to fire when `fd` becomes
    /// readable: last write wins, there is one active waker per
    /// descriptor.
    pub fn add_reader(&mut self, fd: i32, waker: WakerImpl)
        requires
            old(self).wf(),
        ensures
            final(self).wf(),
            final(self)@ == old(self)@.insert(fd, waker),
            final(self).shutting_down() == old(self).shutting_down(),
    {
        match self.find_fd(fd) {
            Some(i) => {
                proof {
                    lemma_assoc_map_update(self.regs@, i as int, (fd, waker));
                }
                let slot = &mut self.regs[i];
                *slot = (fd, waker);
            },
            None => {
                proof {
                    lemma_assoc_map_push(self.regs@, (fd, waker));
                    assert(!key_seq(self.regs@).contains(fd)) by {
                        if key_seq(self.regs@).contains(fd) {
                            let m = choose|m: int|
                                0 <= m < key_seq(self.regs@).len() && key_seq(self.regs@)[m] == fd;
                            assert(self.regs@[m].0 == fd);
                        }
                    }
                }
                self.regs.push((fd, waker));
            },
        }
    }

    /// Requests shutdown.  The transition is one-way, and a second
    /// request changes nothing.
    pub fn set_shutdown(&mut self)
        ensures
            final(self).shutting_down(),
            final(self)@ == old(self)@,
            final(self).wf() == old(self).wf(),
            old(self).shutting_down() ==> *final(self) == *old(self),
    {
        self.shutdown = true;
    }

    /// Observes the shutdown flag; the polling loop stops as soon as
    /// this reports true.
    pub fn is_shutdown(&self) -> (r: bool)
        ensures
            r == self.shutting_down(),
    {
        self.shutdown
    }

    /// The descriptors to include in the next readiness check: exactly
    /// the registered ones, each once.
    pub fn interest(&self) -> (fds: Vec<i32>)
        requires
            self.wf(),
        ensures
            fds@.no_duplicates(),
            forall|fd: i32| fds@.contains(fd) <==> self@.contains_key(fd),
            fds@.len() == self@.dom().len(),
    {
        let n = self.regs.len();
        let mut fds: Vec<i32> = Vec::new();
        let mut i: usize = 0;
        while i < n
            invariant
                i <= n,
                n == self.regs@.len(),
                fds@.len() == i,
                forall|k: int| 0 <= k < i ==> fds@[k] == self.regs@[k].0,
            decreases n - i,
        {
            let p = self.regs[i];
            fds.push(p.0);
            i = i + 1;
        }
        proof {
            lemma_assoc_map_card(self.regs@);
            assert forall|fd: i32| fds@.contains(fd) <==> self@.contains_key(fd) by {
                lemma_assoc_map_contains(self.regs@, fd);
                if fds@.contains(fd) {
                    let m = choose|m: int| 0 <= m < fds@.len() && fds@[m] == fd;
                    assert(self.regs@[m].0 == fd);
                }
                if self@.contains_key(fd) {
                    let m = choose|m: int| 0 <= m < self.regs@.len() && self.regs@[m].0 == fd;
                    assert(fds@[m] == fd);
                }
            }
        }
        fds
    }

    /// The largest registered descriptor, or `None` when the table is
    /// empty — what a descriptor-set readiness call is bounded by.
    pub fn max_fd(&self) -> (r: Option<i32>)
        requires
            self.wf(),
        ensures
            match r {
                Some(m) => self@.contains_key(m) && (forall|fd: i32| self@.contains_key(fd) ==> fd
                    <= m),
                None => self@ == Map::<i32, WakerImpl>::empty(),
            },
    {
        let n = self.regs.len();
        let mut best: Option<i32> = None;
        let mut i: usize = 0;
        while i < n
            invariant
                i <= n,
                n == self.regs@.len(),
                match best {
                    Some(m) => (exists|k: int| 0 <= k < i && self.regs@[k].0 == m) && (forall|
                        k: int,
                    | 0 <= k < i ==> self.regs@[k].0 <= m),
                    None => i == 0,
                },
            decreases n - i,
        {
            let fd = self.regs[i].0;
            best = match best {
                Some(m) => if fd > m {
                    Some(fd)
                } else {
                    Some(m)
                },
                None => Some(fd),
            };
            i = i + 1;
        }
        proof {
            match best {
                Some(m) => {
                    let k = choose|k: int| 0 <= k < n && self.regs@[k].0 == m;
                    lemma_assoc_map_index(self.regs@, k);
                    assert forall|fd: i32| self@.contains_key(fd) implies fd <= m by {
                        lemma_assoc_map_contains(self.regs@, fd);
                        let j = choose|j: int| 0 <= j < self.regs@.len() && self.regs@[j].0 == fd;
                        assert(self.regs@[j].0 <= m);
                    }
                },
                None => {
                    assert(self@ =~= Map::<i32, WakerImpl>::empty());
                },
            }
        }
        best
    }

    /// Membership test used while splitting the table.
    fn ready_contains(ready: &Vec<i32>, fd: i32) -> (r: bool)
        ensures
            r == ready@.contains(fd),
    {
        let n = ready.len();
        let mut i: usize = 0;
        while i < n
            invariant
                i <= n,
                n == ready@.len(),
                forall|k: int| 0 <= k < i ==> ready@[k] != fd,
            decreases n - i,
        {
            if ready[i] == fd {
                return true;
            }
            i = i + 1;
        }
        false
    }

    /// Takes the descriptors reported ready and returns the wakers to
    /// fire, as (descriptor, waker) pairs: one pair for every ready
    /// registered descriptor, and no other.  Every pair returned is
    /// retired from the table, so a single readiness event fires a
    /// waker exactly once; an unregistered ready descriptor is ignored.
    pub fn collect_ready(&mut self, ready: &Vec<i32>) -> (fired: Vec<(i32, WakerImpl)>)
        requires
            old(self).wf(),
        ensures
            final(self).wf(),
            final(self).shutting_down() == old(self).shutting_down(),
            final(self)@ == old(self)@.remove_keys(ready@.to_set()),
            uniq_keys(fired@),
            forall|j: int| 0 <= j < fired@.len() ==> old(self)@.contains_key(
                (#[trigger] fired@[j]).0,
            ) && fired@[j].1 == old(self)@[fired@[j].0] && ready@.contains(fired@[j].0),
            forall|fd: i32| old(self)@.contains_key(fd) && ready@.contains(fd) ==> key_seq(
                fired@,
            ).contains(fd),
    {
        let ghost hit = ready@.to_set();
        let ghost s0 = self.regs@;
        let n = self.regs.len();
        let mut kept: Vec<(i32, WakerImpl)> = Vec::new();
        let mut fired: Vec<(i32, WakerImpl)> = Vec::new();
        let mut i: usize = 0;
        while i < n
            invariant
                i <= n,
                n == s0.len(),
                self.regs@ == s0,
                kept@ == keep_part(s0.take(i as int), hit),
                fired@ == take_part(s0.take(i as int), hit),
                hit == ready@.to_set(),
            decreases n - i,
        {
            let p = self.regs[i];
            proof {
                assert(s0.take(i + 1 as int).drop_last() =~= s0.take(i as int));
                assert(s0.take(i + 1 as int).last() == s0[i as int]);
            }
            if Self::ready_contains(ready, p.0) {
                fired.push(p);
            } else {
                kept.push(p);
            }
            i = i + 1;
        }
        proof {
            assert(s0.take(n as int) =~= s0);
            lemma_partition(s0, hit);
        }
        self.regs = kept;
        proof {
            assert forall|j: int| 0 <= j < fired@.len() implies old(self)@.contains_key(
                (#[trigger] fired@[j]).0,
            ) && fired@[j].1 == old(self)@[fired@[j].0] && ready@.contains(fired@[j].0) by {
                assert(s0.contains(fired@[j]));
                let m = choose|m: int| 0 <= m < s0.len() && s0[m] == fired@[j];
                lemma_assoc_map_index(s0, m);
            }
            assert forall|fd: i32|
                old(self)@.contains_key(fd) && ready@.contains(fd) implies key_seq(
                fired@,
            ).contains(fd) by {
                lemma_assoc_map_contains(s0, fd);
                let m = choose|m: int| 0 <= m < s0.len() && s0[m].0 == fd;
                assert(take_part(s0, hit).contains(s0[m]));
                let j = choose|j: int| 0 <= j < fired@.len() && fired@[j] == s0[m];
                assert(key_seq(fired@)[j] == fd);
            }
        }
        fired
    }
}

/// The stale-registration policy, stated once and for all: after the
/// registrations for a set of ready descriptors have been collected, a
/// descriptor of that set is no longer registered, so the same
/// readiness event cannot fire its waker a second time.
pub proof fn lemma_fired_registration_retired(
    before: Map<i32, WakerImpl>,
    after: Map<i32, WakerImpl>,
    ready: Set<i32>,
    fd: i32,
)
    requires
        after == before.remove_keys(ready),
        ready.contains(fd),
    ensures
        !after.contains_key(fd),
{
}

} // verus!
