use vstd::prelude::*;

verus! {

/// What travels through the dispatch queue. Each dequeue consumes exactly
/// one message.
#[derive(Debug, PartialEq, Eq)]
pub enum Message<J> {
    /// A unit of work, owned by the queue until a worker takes it out.
    NewJob(J),
    /// Tells the worker that dequeues it to leave its loop.
    Terminate,
}

} // verus!
