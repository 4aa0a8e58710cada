use crate::message::Message;
use crate::worker::{count_in, lemma_count_in_uniform, lemma_count_in_update, WorkerState};
use vstd::prelude::*;

verus! {

/// The pool as a mathematical value: the queue, the worker table, how far
/// the shutdown has come, and the histories that the guarantees on order
/// and on the fate of each job are stated over.
pub struct PoolState<J> {
    /// The dispatch queue; index 0 leaves first.
    pub queue: Seq<Message<J>>,
    /// The state of each worker; a worker's id is its index.
    pub workers: Seq<WorkerState>,
    /// The termination signals have been sent.
    pub closing: bool,
    /// How many workers have been joined; they are joined in id order.
    pub joined: nat,
    /// Every job ever submitted, in submission order.
    pub submitted: Seq<J>,
    /// Every job ever handed to a worker, in the order of the dequeues.
    pub dispatched: Seq<J>,
    /// How many jobs their workers have returned from.
    pub finished: nat,
}

/// What can happen to a pool.
pub enum Event<J> {
    /// A caller submits a job.
    Submit(J),
    /// The worker with this id takes the message at the head of the queue.
    Receive(int),
    /// The worker with this id returns from its job.
    Finish(int),
    /// The job of the worker with this id brings the worker down.
    Crash(int),
    /// The owner starts the shutdown.
    Shutdown,
    /// The owner joins the next worker.
    Join,
}

/// The jobs `jobs`, each wrapped as a message, in the same order.
pub open spec fn job_messages<J>(jobs: Seq<J>) -> Seq<Message<J>> {
    Seq::new(jobs.len(), |i: int| Message::NewJob(jobs[i]))
}

/// `n` termination signals.
pub open spec fn terminate_signals<J>(n: nat) -> Seq<Message<J>> {
    Seq::new(n, |i: int| Message::Terminate)
}

impl<J> PoolState<J> {
    /// A fresh pool of `size` idle workers and an empty queue.
    pub open spec fn init(size: nat) -> Self {
        PoolState {
            queue: Seq::empty(),
            workers: Seq::new(size, |i: int| WorkerState::Idle),
            closing: false,
            joined: 0,
            submitted: Seq::empty(),
            dispatched: Seq::empty(),
            finished: 0,
        }
    }

    /// The number of workers, fixed when the pool is made.
    pub open spec fn size(self) -> nat {
        self.workers.len()
    }

    /// The jobs that were submitted and not yet handed to a worker.
    pub open spec fn pending(self) -> Seq<J> {
        self.submitted.skip(self.dispatched.len() as int)
    }

    /// The number of termination signals that wait in the queue.
    pub open spec fn signals(self) -> int {
        self.queue.len() - self.pending().len()
    }

    /// What holds of every pool that the operations can produce.
    pub open spec fn wf(self) -> bool {
        &&& self.size() > 0
        &&& self.dispatched.len() <= self.submitted.len()
        &&& self.dispatched =~= self.submitted.take(self.dispatched.len() as int)
        &&& self.signals() >= 0
        &&& self.queue =~= job_messages(self.pending()) + terminate_signals(
            self.signals() as nat,
        )
        &&& self.closing ==> self.signals() + count_in(self.workers, WorkerState::Terminated)
            == self.size()
        &&& !self.closing ==> self.signals() == 0 && self.joined == 0 && count_in(
            self.workers,
            WorkerState::Terminated,
        ) == 0
        &&& count_in(self.workers, WorkerState::Terminated) > 0 ==> self.pending().len() == 0
        &&& self.finished + count_in(self.workers, WorkerState::Running) + count_in(
            self.workers,
            WorkerState::Crashed,
        ) == self.dispatched.len()
        &&& self.joined <= self.size()
        &&& forall|i: int| 0 <= i < self.joined ==> (#[trigger] self.workers[i]).has_exited()
    }

    /// The pool still takes jobs.
    pub open spec fn can_submit(self) -> bool {
        !self.closing
    }

    /// Worker `id` is idle and a message waits for it.
    pub open spec fn can_receive(self, id: int) -> bool {
        &&& 0 <= id < self.size()
        &&& self.workers[id] is Idle
        &&& self.queue.len() > 0
    }

    /// Worker `id` is executing a job, which may end either way.
    pub open spec fn is_running(self, id: int) -> bool {
        &&& 0 <= id < self.size()
        &&& self.workers[id] is Running
    }

    /// The shutdown has not started yet.
    pub open spec fn can_shutdown(self) -> bool {
        !self.closing
    }

    /// The shutdown has started and the next worker in id order has exited.
    pub open spec fn can_join(self) -> bool {
        &&& self.closing
        &&& self.joined < self.size()
        &&& self.workers[self.joined as int].has_exited()
    }

    /// The job goes to the back of the queue.
    pub open spec fn submit(self, job: J) -> Self {
        PoolState {
            queue: self.queue.push(Message::NewJob(job)),
            submitted: self.submitted.push(job),
            ..self
        }
    }

    /// Worker `id` takes the head of the queue: a job sets it running, a
    /// termination signal ends it.
    pub open spec fn receive(self, id: int) -> Self {
        match self.queue.first() {
            Message::NewJob(job) => PoolState {
                queue: self.queue.drop_first(),
                workers: self.workers.update(id, WorkerState::Running),
                dispatched: self.dispatched.push(job),
                ..self
            },
            Message::Terminate => PoolState {
                queue: self.queue.drop_first(),
                workers: self.workers.update(id, WorkerState::Terminated),
                ..self
            },
        }
    }

    /// Worker `id` returns from its job and waits for the next message.
    pub open spec fn finish(self, id: int) -> Self {
        PoolState {
            workers: self.workers.update(id, WorkerState::Idle),
            finished: self.finished + 1,
            ..self
        }
    }

    /// The job of worker `id` takes the worker down with it.
    pub open spec fn crash(self, id: int) -> Self {
        PoolState { workers: self.workers.update(id, WorkerState::Crashed), ..self }
    }

    /// One termination signal per worker of the pool goes to the back of
    /// the queue, whatever state the workers are in.
    pub open spec fn shutdown(self) -> Self {
        PoolState {
            queue: self.queue + terminate_signals(self.size()),
            closing: true,
            ..self
        }
    }

    /// The next worker in id order is joined.
    pub open spec fn join(self) -> Self {
        PoolState { joined: self.joined + 1, ..self }
    }

    /// The event can happen in this state.
    pub open spec fn enabled(self, e: Event<J>) -> bool {
        match e {
            Event::Submit(_) => self.can_submit(),
            Event::Receive(id) => self.can_receive(id),
            Event::Finish(id) => self.is_running(id),
            Event::Crash(id) => self.is_running(id),
            Event::Shutdown => self.can_shutdown(),
            Event::Join => self.can_join(),
        }
    }

    /// The state after the event.
    pub open spec fn step(self, e: Event<J>) -> Self {
        match e {
            Event::Submit(job) => self.submit(job),
            Event::Receive(id) => self.receive(id),
            Event::Finish(id) => self.finish(id),
            Event::Crash(id) => self.crash(id),
            Event::Shutdown => self.shutdown(),
            Event::Join => self.join(),
        }
    }

    /// The state after the events of `trace`, first to last.
    pub open spec fn run(self, trace: Seq<Event<J>>) -> Self
        decreases trace.len(),
    {
        if trace.len() == 0 {
            self
        } else {
            self.run(trace.drop_last()).step(trace.last())
        }
    }

    /// Each event of `trace` can happen in the state that the events before
    /// it have led to.
    pub open spec fn admits(self, trace: Seq<Event<J>>) -> bool
        decreases trace.len(),
    {
        trace.len() == 0 || (self.admits(trace.drop_last()) && self.run(
            trace.drop_last(),
        ).enabled(trace.last()))
    }

    /// A fresh pool is well formed.
    pub proof fn lemma_init_wf(size: nat)
        requires
            size > 0,
        ensures
            Self::init(size).wf(),
    {
        let s = Self::init(size);
        lemma_count_in_uniform(size, WorkerState::Idle, WorkerState::Terminated);
        lemma_count_in_uniform(size, WorkerState::Idle, WorkerState::Running);
        lemma_count_in_uniform(size, WorkerState::Idle, WorkerState::Crashed);
        assert(s.pending() =~= Seq::<J>::empty());
    }

    /// While the pool takes jobs, the queue holds jobs and nothing else.
    proof fn lemma_submit_wf(self, job: J)
        requires
            self.wf(),
            self.can_submit(),
        ensures
            self.submit(job).wf(),
    {
        let t = self.submit(job);
        assert(t.pending() =~= self.pending().push(job));
        assert(t.dispatched =~= t.submitted.take(t.dispatched.len() as int));
        assert(t.queue =~= job_messages(t.pending()) + terminate_signals(0));
    }

    /// The head of a well-formed queue is the oldest pending job, or a
    /// termination signal once no job is pending.
    pub proof fn lemma_head(self)
        requires
            self.wf(),
            self.queue.len() > 0,
        ensures
            self.pending().len() > 0 ==> self.queue.first() == Message::NewJob(
                self.submitted[self.dispatched.len() as int],
            ),
            self.pending().len() == 0 ==> self.queue.first() == Message::<J>::Terminate,
    {
        let parts = job_messages(self.pending()) + terminate_signals(self.signals() as nat);
        assert(self.queue[0] == parts[0]);
    }

    proof fn lemma_receive_wf(self, id: int)
        requires
            self.wf(),
            self.can_receive(id),
        ensures
            self.receive(id).wf(),
    {
        let t = self.receive(id);
        let d = self.dispatched.len() as int;
        let to = if self.pending().len() > 0 {
            WorkerState::Running
        } else {
            WorkerState::Terminated
        };
        self.lemma_head();
        lemma_count_in_update(self.workers, id, to, WorkerState::Running);
        lemma_count_in_update(self.workers, id, to, WorkerState::Crashed);
        if self.pending().len() > 0 {
            lemma_count_in_update(
                self.workers,
                id,
                WorkerState::Running,
                WorkerState::Terminated,
            );
            assert(t.dispatched =~= t.submitted.take(d + 1));
            assert(t.pending() =~= self.pending().drop_first());
            assert(t.queue =~= job_messages(t.pending()) + terminate_signals(
                self.signals() as nat,
            ));
        } else {
            lemma_count_in_update(
                self.workers,
                id,
                WorkerState::Terminated,
                WorkerState::Terminated,
            );
            assert(t.queue =~= job_messages(t.pending()) + terminate_signals(
                (self.signals() - 1) as nat,
            ));
        }
        assert forall|i: int| 0 <= i < t.joined implies (#[trigger] t.workers[i]).has_exited() by {
            assert(self.workers[i].has_exited());
        }
    }

    proof fn lemma_job_end_wf(self, id: int, to: WorkerState)
        requires
            self.wf(),
            self.is_running(id),
            to is Idle || to is Crashed,
        ensures
            to is Idle ==> self.finish(id).wf(),
            to is Crashed ==> self.crash(id).wf(),
    {
        let t = if to is Idle {
            self.finish(id)
        } else {
            self.crash(id)
        };
        lemma_count_in_update(self.workers, id, to, WorkerState::Terminated);
        lemma_count_in_update(self.workers, id, to, WorkerState::Running);
        lemma_count_in_update(self.workers, id, to, WorkerState::Crashed);
        assert forall|i: int| 0 <= i < t.joined implies (#[trigger] t.workers[i]).has_exited() by {
            assert(self.workers[i].has_exited());
        }
    }

    proof fn lemma_shutdown_wf(self)
        requires
            self.wf(),
            self.can_shutdown(),
        ensures
            self.shutdown().wf(),
    {
        let t = self.shutdown();
        assert(self.queue =~= job_messages(self.pending()));
        assert(t.queue =~= job_messages(t.pending()) + terminate_signals(self.size()));
    }

    /// Every event that can happen leads from a well-formed pool to a
    /// well-formed pool.
    pub proof fn lemma_step_wf(self, e: Event<J>)
        requires
            self.wf(),
            self.enabled(e),
        ensures
            self.step(e).wf(),
    {
        match e {
            Event::Submit(job) => self.lemma_submit_wf(job),
            Event::Receive(id) => self.lemma_receive_wf(id),
            Event::Finish(id) => self.lemma_job_end_wf(id, WorkerState::Idle),
            Event::Crash(id) => self.lemma_job_end_wf(id, WorkerState::Crashed),
            Event::Shutdown => self.lemma_shutdown_wf(),
            Event::Join => {},
        }
    }

    /// Whatever happens to a well-formed pool, in whatever order, the pool
    /// stays well formed.
    pub proof fn lemma_run_wf(self, trace: Seq<Event<J>>)
        requires
            self.wf(),
            self.admits(trace),
        ensures
            self.run(trace).wf(),
        decreases trace.len(),
    {
        if trace.len() > 0 {
            self.lemma_run_wf(trace.drop_last());
            self.run(trace.drop_last()).lemma_step_wf(trace.last());
        }
    }
}

} // verus!
