use crate::message::Message;
use crate::protocol::{terminate_signals, Event, PoolState};
use crate::worker::WorkerState;
use std::collections::VecDeque;
use vstd::prelude::*;

verus! {

/// A pool of a fixed number of workers that take jobs of type `J` from one
/// shared queue.
///
/// The pool holds the queue and the state of each worker. It runs nothing:
/// a worker's thread calls [`ThreadPool::receive`] with its id, executes the
/// job that comes out, and reports the outcome with [`ThreadPool::finish`] or
/// [`ThreadPool::crash`].
pub struct ThreadPool<J> {
    queue: VecDeque<Message<J>>,
    workers: Vec<WorkerState>,
    closing: bool,
    joined: usize,
    submitted: Ghost<Seq<J>>,
    dispatched: Ghost<Seq<J>>,
    finished: Ghost<nat>,
}

impl<J> View for ThreadPool<J> {
    type V = PoolState<J>;

    closed spec fn view(&self) -> PoolState<J> {
        PoolState {
            queue: self.queue@,
            workers: self.workers@,
            closing: self.closing,
            joined: self.joined as nat,
            submitted: self.submitted@,
            dispatched: self.dispatched@,
            finished: self.finished@,
        }
    }
}

impl<J> ThreadPool<J> {
    /// A pool of `size` workers, all idle, with an empty queue. The workers
    /// have the ids `0` to `size - 1`.
    pub fn new(size: usize) -> (pool: Self)
        requires
            size > 0,
        ensures
            pool@ == PoolState::<J>::init(size as nat),
            pool@.wf(),
    {
        let mut workers: Vec<WorkerState> = Vec::new();
        let mut id: usize = 0;
        while id < size
            invariant
                id <= size,
                workers@ =~= Seq::new(id as nat, |i: int| WorkerState::Idle),
            decreases size - id,
        {
            workers.push(WorkerState::Idle);
            id += 1;
        }
        let pool = ThreadPool {
            queue: VecDeque::new(),
            workers,
            closing: false,
            joined: 0,
            submitted: Ghost(Seq::empty()),
            dispatched: Ghost(Seq::empty()),
            finished: Ghost(0),
        };
        proof {
            PoolState::<J>::lemma_init_wf(size as nat);
        }
        pool
    }

    /// Submits a job: it goes to the back of the queue, behind every job
    /// submitted before it.
    pub fn execute(&mut self, job: J)
        requires
            old(self)@.wf(),
            old(self)@.can_submit(),
        ensures
            final(self)@ == old(self)@.submit(job),
            final(self)@.wf(),
    {
        proof {
            self@.lemma_step_wf(Event::Submit(job));
        }
        self.submitted = Ghost(self.submitted@.push(job));
        self.queue.push_back(Message::NewJob(job));
    }

    /// Worker `id` asks for its next message. With an empty queue nothing
    /// changes and the worker has to ask again later. Otherwise the message
    /// at the head of the queue leaves it and is returned: a job, which the
    /// worker now has to execute, or the signal to stop.
    pub fn receive(&mut self, id: usize) -> (message: Option<Message<J>>)
        requires
            old(self)@.wf(),
            id < old(self)@.size(),
            old(self)@.workers[id as int] is Idle,
        ensures
            old(self)@.queue.len() == 0 ==> message is None && final(self)@ == old(self)@,
            old(self)@.queue.len() > 0 ==> message == Some(old(self)@.queue.first())
                && final(self)@ == old(self)@.receive(id as int),
            final(self)@.wf(),
    {
        proof {
            if self@.queue.len() > 0 {
                self@.lemma_step_wf(Event::Receive(id as int));
            }
        }
        let message = self.queue.pop_front();
        assert(old(self)@.queue.len() > 0 ==> self.queue@ =~= old(self)@.queue.drop_first());
        match &message {
            Some(Message::NewJob(job)) => {
                self.workers[id] = WorkerState::Running;
                self.dispatched = Ghost(self.dispatched@.push(*job));
            },
            Some(Message::Terminate) => {
                self.workers[id] = WorkerState::Terminated;
            },
            None => {},
        }
        message
    }

    /// Worker `id` has returned from its job and is idle again.
    pub fn finish(&mut self, id: usize)
        requires
            old(self)@.wf(),
            old(self)@.is_running(id as int),
        ensures
            final(self)@ == old(self)@.finish(id as int),
            final(self)@.wf(),
    {
        proof {
            self@.lemma_step_wf(Event::Finish(id as int));
        }
        self.workers[id] = WorkerState::Idle;
        self.finished = Ghost(self.finished@ + 1);
    }

    /// The job of worker `id` has failed and taken the worker with it. The
    /// pool goes on with one worker less.
    pub fn crash(&mut self, id: usize)
        requires
            old(self)@.wf(),
            old(self)@.is_running(id as int),
        ensures
            final(self)@ == old(self)@.crash(id as int),
            final(self)@.wf(),
    {
        proof {
            self@.lemma_step_wf(Event::Crash(id as int));
        }
        self.workers[id] = WorkerState::Crashed;
    }

    /// Starts the shutdown: one termination signal for each worker that the
    /// pool was made with goes to the back of the queue, behind every job
    /// submitted so far.
    pub fn shutdown(&mut self)
        requires
            old(self)@.wf(),
            old(self)@.can_shutdown(),
        ensures
            final(self)@ == old(self)@.shutdown(),
            final(self)@.wf(),
    {
        proof {
            self@.lemma_step_wf(Event::Shutdown);
        }
        let size: usize = self.workers.len();
        let mut sent: usize = 0;
        while sent < size
            invariant
                sent <= size,
                size == old(self)@.size(),
                self.queue@ =~= old(self)@.queue + terminate_signals::<J>(sent as nat),
                self.workers == old(self).workers,
                self.closing == old(self).closing,
                self.joined == old(self).joined,
                self.submitted == old(self).submitted,
                self.dispatched == old(self).dispatched,
                self.finished == old(self).finished,
            decreases size - sent,
        {
            self.queue.push_back(Message::Terminate);
            sent += 1;
        }
        self.closing = true;
    }

    /// Records that the owner has joined the next worker in id order.
    pub fn join(&mut self)
        requires
            old(self)@.wf(),
            old(self)@.can_join(),
        ensures
            final(self)@ == old(self)@.join(),
            final(self)@.wf(),
    {
        proof {
            self@.lemma_step_wf(Event::Join);
        }
        assert(self.joined < self.workers.len());
        self.joined = self.joined + 1;
    }

    /// The number of workers.
    pub fn size(&self) -> (n: usize)
        ensures
            n == self@.size(),
    {
        self.workers.len()
    }

    /// The number of messages that wait in the queue.
    pub fn queued(&self) -> (n: usize)
        ensures
            n == self@.queue.len(),
    {
        self.queue.len()
    }

    /// The state of worker `id`, or `None` where the pool has no such worker.
    pub fn state(&self, id: usize) -> (state: Option<WorkerState>)
        ensures
            id < self@.size() ==> state == Some(self@.workers[id as int]),
            id >= self@.size() ==> state is None,
    {
        if id < self.workers.len() {
            Some(self.workers[id])
        } else {
            None
        }
    }

    /// Whether the shutdown has started.
    pub fn is_closing(&self) -> (closing: bool)
        ensures
            closing == self@.closing,
    {
        self.closing
    }

    /// The number of workers joined so far.
    pub fn joined(&self) -> (n: usize)
        ensures
            n == self@.joined,
    {
        self.joined
    }

    /// The id of the worker that the owner has to wait for next: the lowest
    /// id not joined yet, once the shutdown has started.
    pub fn next_join(&self) -> (id: Option<usize>)
        ensures
            self@.closing && self@.joined < self@.size() ==> id == Some(self@.joined as usize),
            !(self@.closing && self@.joined < self@.size()) ==> id is None,
    {
        if self.closing && self.joined < self.workers.len() {
            Some(self.joined)
        } else {
            None
        }
    }

    /// Whether [`ThreadPool::join`] may be called: the shutdown has started
    /// and the next worker in id order has exited.
    pub fn can_join(&self) -> (ready: bool)
        ensures
            ready == self@.can_join(),
    {
        if self.closing && self.joined < self.workers.len() {
            match self.workers[self.joined] {
                WorkerState::Terminated => true,
                WorkerState::Crashed => true,
                _ => false,
            }
        } else {
            false
        }
    }
}

} // verus!
