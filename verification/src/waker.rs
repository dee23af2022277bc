//! The waker bridge, as the core sees it.
//!
//! A waker is a notification handle bound to one task identity.  Invoking
//! it yields the bound task id — the value that the surrounding
//! application sends on its notification channel (and follows with an
//! unpark of the suspended thread).  Clones carry the same identity and
//! therefore produce the same notification.

use vstd::prelude::*;

verus! {

/// A notification handle bound to one task id.
///
/// The operating-system half of a wake — sending the id on a channel,
/// unparking a parked thread — is the application's job; the core only
/// fixes *which* task a wake names.
#[derive(Clone, Copy, PartialEq, Eq, Structural, Debug)]
pub struct WakerImpl {
    id: u64,
}

impl WakerImpl {
    /// The task identity this handle is bound to.
    pub closed spec fn id_spec(&self) -> u64 {
        self.id
    }

    /// The one handle bound to a given task id: two handles for the
    /// same task are equal, however they were obtained.
    pub closed spec fn for_task(id: u64) -> WakerImpl {
        WakerImpl { id }
    }

    /// Binds a fresh handle to the given task id.
    pub fn new(id: u64) -> (w: Self)
        ensures
            w == WakerImpl::for_task(id),
            w.id_spec() == id,
    {
        WakerImpl { id }
    }

    /// Invokes the handle: the returned id is the notification that must
    /// be delivered to the component driving the task.
    pub fn wake(&self) -> (r: u64)
        ensures
            r == self.id_spec(),
    {
        self.id
    }

    /// Reads the bound task id without consuming a wake.
    pub fn task_id(&self) -> (r: u64)
        ensures
            r == self.id_spec(),
    {
        self.id
    }
}

/// All clones of a handle notify the same task: equal handles yield
/// equal notifications, and a copy is equal to its original.
pub proof fn lemma_clones_notify_same_task(a: WakerImpl, b: WakerImpl)
    requires
        a == b,
    ensures
        a.id_spec() == b.id_spec(),
{
}

} // verus!
