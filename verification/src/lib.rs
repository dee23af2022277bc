//! A minimal cooperative task runtime, split into its verifiable core:
//! the waker bridge, the reactor's registration table, the executor's
//! task table, and the scheduler's ready-event queue.
//!
//! The core is a set of state machines over plain values.  Everything
//! that touches the operating system — threads, channels, parking, the
//! readiness syscall — lives in the surrounding application, which
//! drives these state machines and performs the actions they decide on.

pub mod event;
pub mod executor;
pub mod future;
pub mod reactor;
pub mod sample;
pub mod scheduler;
pub mod table;
pub mod waker;

pub use event::Event;
pub use event::EventHandler;
pub use executor::Executor;
pub use executor::PollOutcome;
pub use future::Pollable;
pub use future::TaskPoll;
pub use reactor::Reactor;
pub use scheduler::SchedulerImpl;
pub use scheduler::WorkerStep;
pub use waker::WakerImpl;
