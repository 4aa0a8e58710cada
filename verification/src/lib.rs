//! A fixed-size worker pool, written as a state machine that owns its
//! dispatch queue and the table of its workers.
//!
//! The pool never spawns a thread itself. A driver gives each worker a
//! thread of its own, lets that thread call [`ThreadPool::receive`] under a
//! lock, runs whatever job comes out, and reports how the job ended. Every
//! decision of the protocol is taken here: the order in which messages leave
//! the queue, what a worker does with each of them, how many termination
//! signals a shutdown sends, and which worker may be joined next.

pub mod guarantees;
pub mod http;
pub mod message;
pub mod pool;
pub mod protocol;
pub mod worker;

pub use message::Message;
pub use pool::ThreadPool;
pub use protocol::{Event, PoolState};
pub use worker::WorkerState;
