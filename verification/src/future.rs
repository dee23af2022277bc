//! The future contract the runtime consumes.
//!
//! A task is any computation that, when polled, either finishes with
//! its output or reports that it is still pending — naming, if it
//! waits for a descriptor, the descriptor whose readiness should wake
//! it.  The component driving the poll records that interest with the
//! reactor under the task's own waker, so a task never touches the
//! registration table directly and the whole poll cycle has an exact
//! contract.

use vstd::prelude::*;

use crate::waker::WakerImpl;

verus! {

/// What a single poll of a task reports.
pub enum TaskPoll<T> {
    /// The task finished with this output.
    Ready(T),
    /// The task is not finished.  `Some(fd)` asks the driver to
    /// register descriptor `fd` with the reactor under the task's
    /// waker, so that readiness on it triggers the next poll; `None`
    /// leaves the registration table alone (the task either registered
    /// earlier or will be woken some other way).
    Pending(Option<i32>),
}

/// An asynchronous computation the runtime can drive: one poll either
/// completes it or suspends it.  The waker handed to `poll` is bound
/// to the task's id; an implementation may clone it and hand it to any
/// thread that should be able to resume the task.
///
/// The runtime assumes nothing about what an implementation computes,
/// so `poll` carries no contract; the executor's own guarantees hold
/// for every implementation.
pub trait Pollable: Sized {
    /// What the computation yields when it completes.
    type Output;

    /// Attempts to advance the computation.
    fn poll(&mut self, waker: &WakerImpl) -> TaskPoll<Self::Output>;
}

} // verus!
