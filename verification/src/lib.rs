//! A model of a single-core-pinned cooperative runtime: the task scheduler
//! with its runnable queue, the reactor that maps readiness keys to wake
//! handles, the reference-counted wake handle itself, the suspend-point
//! decision taken at every non-blocking I/O attempt, and the worker-count
//! configuration. The OS-facing plumbing (sockets, the readiness multiplexer,
//! thread pinning) lives outside; this crate holds and verifies every
//! scheduling and wake decision the runtime makes.

pub mod task;
pub mod sched;
pub mod handle;
pub mod reactor;
pub mod conf;
pub mod stream;
pub mod resource;
