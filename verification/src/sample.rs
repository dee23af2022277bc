//! Example implementers of the poll contract.
//!
//! These tasks model the shapes a consumer's future can take — ready
//! at once, ready after a number of wakes, waiting on a descriptor,
//! or never ready — without touching the operating system, so the
//! whole runtime can be exercised deterministically.

use vstd::prelude::*;

use crate::future::Pollable;
use crate::future::TaskPoll;
use crate::waker::WakerImpl;

verus! {

/// Ready on its first poll: the fast path of a blocking drive.
pub struct InstantTask {
    pub value: u64,
}

impl Pollable for InstantTask {
    type Output = u64;

    fn poll(&mut self, _waker: &WakerImpl) -> (p: TaskPoll<u64>)
        ensures
            p == TaskPoll::Ready(old(self).value),
            *final(self) == *old(self),
    {
        TaskPoll::Ready(self.value)
    }
}

/// Pending for a fixed number of polls, then ready.  With one round
/// left it becomes ready exactly after one wake.
pub struct CountdownTask {
    pub rounds_left: u32,
    pub value: u64,
}

impl Pollable for CountdownTask {
    type Output = u64;

    fn poll(&mut self, _waker: &WakerImpl) -> (p: TaskPoll<u64>)
        ensures
            old(self).rounds_left == 0 ==> p == TaskPoll::Ready(old(self).value) && *final(self)
                == *old(self),
            old(self).rounds_left > 0 ==> p == TaskPoll::<u64>::Pending(None)
                && final(self).rounds_left == old(self).rounds_left - 1
                && final(self).value == old(self).value,
    {
        if self.rounds_left == 0 {
            TaskPoll::Ready(self.value)
        } else {
            self.rounds_left = self.rounds_left - 1;
            TaskPoll::Pending(None)
        }
    }
}

/// Waits for one descriptor: the first poll asks for the descriptor
/// to be registered and suspends; once readiness has woken it, the
/// next poll completes.
pub struct DescriptorTask {
    pub fd: i32,
    pub value: u64,
    pub registered: bool,
}

impl Pollable for DescriptorTask {
    type Output = u64;

    fn poll(&mut self, _waker: &WakerImpl) -> (p: TaskPoll<u64>)
        ensures
            !old(self).registered ==> p == TaskPoll::<u64>::Pending(Some(old(self).fd))
                && final(self).registered && final(self).fd == old(self).fd
                && final(self).value == old(self).value,
            old(self).registered ==> p == TaskPoll::Ready(old(self).value) && *final(self)
                == *old(self),
    {
        if !self.registered {
            self.registered = true;
            TaskPoll::Pending(Some(self.fd))
        } else {
            TaskPoll::Ready(self.value)
        }
    }
}

/// Never becomes ready: what a drive looks like when shutdown arrives
/// before completion.
pub struct NeverTask {}

impl Pollable for NeverTask {
    type Output = u64;

    fn poll(&mut self, _waker: &WakerImpl) -> (p: TaskPoll<u64>)
        ensures
            p == TaskPoll::<u64>::Pending(None),
    {
        TaskPoll::Pending(None)
    }
}

} // verus!
