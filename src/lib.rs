//! A cooperative, single-threaded scheduler for tasks that wait on I/O
//! readiness and timers.
//!
//! A computation yields an [`Again`] descriptor naming the tokens and the
//! deadline it waits for. A driver (one task stepped by [`Task::step`], or an
//! [`Executor`] holding many) runs one poll cycle of the shared reactor
//! ([`Poll`]) at a time and resumes exactly the tasks whose descriptor the
//! cycle made ready.
pub mod again;
pub mod dns;
pub mod executor;
pub mod reactor;
pub mod task;

pub use again::{Again, Token};
pub use dns::{DnsPacket, Error};
pub use executor::Executor;
pub use reactor::Poll;
pub use task::{Future, FutureResult, RunError, Task};
