use crate::message::Message;
use crate::protocol::{job_messages, terminate_signals, Event, PoolState};
use crate::worker::{
    count_in, lemma_count_in_bounds, lemma_count_in_partition, lemma_count_in_uniform,
    lemma_count_in_update, WorkerState,
};
use vstd::prelude::*;

verus! {

/// No more events than this can still happen to `s`, unless another job is
/// submitted: a dequeue for each message, an end for each job, a join for
/// each worker, and the shutdown itself where it has not started.
pub open spec fn work_left<J>(s: PoolState<J>) -> int {
    s.queue.len() + s.pending().len() + count_in(s.workers, WorkerState::Running) + (s.size()
        - s.joined) + if s.closing {
        0
    } else {
        s.size() + 1
    }
}

/// Every state that a fresh pool can reach, by whatever events in whatever
/// order, is well formed. In particular the number of workers stays what it
/// was made to be, and it is never zero.
pub proof fn lemma_reachable_wf<J>(size: nat, trace: Seq<Event<J>>)
    requires
        size > 0,
        PoolState::<J>::init(size).admits(trace),
    ensures
        PoolState::<J>::init(size).run(trace).wf(),
        PoolState::<J>::init(size).run(trace).size() == size,
{
    let start = PoolState::<J>::init(size);
    PoolState::<J>::lemma_init_wf(size);
    start.lemma_run_wf(trace);
    lemma_run_keeps_size(start, trace);
}

/// No event changes the number of workers.
pub proof fn lemma_run_keeps_size<J>(s: PoolState<J>, trace: Seq<Event<J>>)
    requires
        s.admits(trace),
    ensures
        s.run(trace).size() == s.size(),
    decreases trace.len(),
{
    if trace.len() > 0 {
        lemma_run_keeps_size(s, trace.drop_last());
    }
}

/// The jobs that the events of `trace` submit, in the order of the events.
pub open spec fn submissions<J>(trace: Seq<Event<J>>) -> Seq<J>
    decreases trace.len(),
{
    if trace.len() == 0 {
        Seq::empty()
    } else {
        match trace.last() {
            Event::Submit(job) => submissions(trace.drop_last()).push(job),
            _ => submissions(trace.drop_last()),
        }
    }
}

/// The messages that the workers take out of the queue during the events of
/// `trace`, which start in state `s`, in the order in which they are taken.
pub open spec fn dequeues<J>(s: PoolState<J>, trace: Seq<Event<J>>) -> Seq<Message<J>>
    decreases trace.len(),
{
    if trace.len() == 0 {
        Seq::empty()
    } else {
        match trace.last() {
            Event::Receive(_) => dequeues(s, trace.drop_last()).push(
                s.run(trace.drop_last()).queue.first(),
            ),
            _ => dequeues(s, trace.drop_last()),
        }
    }
}

/// Whatever happens to a fresh pool: the messages that its workers have
/// taken out of the queue are the jobs submitted first, each once and in
/// the order of their submission, and behind the last of them nothing but
/// termination signals, one for each worker that has stopped.
pub proof fn lemma_dequeues_follow_submissions<J>(size: nat, trace: Seq<Event<J>>)
    requires
        size > 0,
        PoolState::<J>::init(size).admits(trace),
    ensures
        ({
            let end = PoolState::<J>::init(size).run(trace);
            let taken = dequeues(PoolState::<J>::init(size), trace);
            let sent = submissions(trace);
            &&& end.wf()
            &&& end.submitted == sent
            &&& end.dispatched.len() <= sent.len()
            &&& taken == job_messages(sent.take(end.dispatched.len() as int)) + terminate_signals(
                count_in(end.workers, WorkerState::Terminated),
            )
        }),
    decreases trace.len(),
{
    let start = PoolState::<J>::init(size);
    let end = start.run(trace);
    let stopped = count_in(end.workers, WorkerState::Terminated);
    PoolState::<J>::lemma_init_wf(size);
    start.lemma_run_wf(trace);
    if trace.len() == 0 {
        assert(dequeues(start, trace) =~= job_messages(
            submissions(trace).take(end.dispatched.len() as int),
        ) + terminate_signals(stopped));
    } else {
        let front = trace.drop_last();
        let mid = start.run(front);
        lemma_dequeues_follow_submissions(size, front);
        match trace.last() {
            Event::Submit(job) => {},
            Event::Receive(id) => {
                mid.lemma_head();
                let to = if mid.pending().len() > 0 {
                    WorkerState::Running
                } else {
                    WorkerState::Terminated
                };
                lemma_count_in_update(mid.workers, id, to, WorkerState::Terminated);
            },
            Event::Finish(id) => {
                lemma_count_in_update(mid.workers, id, WorkerState::Idle, WorkerState::Terminated);
            },
            Event::Crash(id) => {
                lemma_count_in_update(
                    mid.workers,
                    id,
                    WorkerState::Crashed,
                    WorkerState::Terminated,
                );
            },
            Event::Shutdown => {},
            Event::Join => {},
        }
        assert(end.dispatched =~= end.submitted.take(end.dispatched.len() as int));
        assert(mid.dispatched =~= mid.submitted.take(mid.dispatched.len() as int));
        assert(dequeues(start, trace) =~= job_messages(end.dispatched) + terminate_signals(
            stopped,
        ));
    }
}

/// Jobs leave the queue in the order in which they were submitted, each at
/// most once: the k-th job handed to a worker is the k-th job submitted,
/// and the jobs that still wait are the rest of the submissions, oldest at
/// the head of the queue.
pub proof fn lemma_dispatch_follows_submission<J>(s: PoolState<J>)
    requires
        s.wf(),
    ensures
        s.dispatched.len() <= s.submitted.len(),
        forall|k: int| 0 <= k < s.dispatched.len() ==> s.dispatched[k] == s.submitted[k],
        forall|k: int|
            0 <= k < s.submitted.len() - s.dispatched.len() ==> #[trigger] s.queue[k]
                == Message::NewJob(s.submitted[s.dispatched.len() + k]),
{
    let d = s.dispatched.len() as int;
    assert forall|k: int| 0 <= k < s.dispatched.len() implies s.dispatched[k]
        == s.submitted[k] by {
        assert(s.submitted.take(d)[k] == s.submitted[k]);
    }
    assert forall|k: int| 0 <= k < s.submitted.len() - d implies #[trigger] s.queue[k]
        == Message::NewJob(s.submitted[d + k]) by {
        assert(s.pending()[k] == s.submitted[d + k]);
    }
}

/// A dequeue hands out the oldest job that no worker has had yet, and does
/// so before any termination signal.
pub proof fn lemma_receive_takes_oldest<J>(s: PoolState<J>, id: int)
    requires
        s.wf(),
        s.can_receive(id),
    ensures
        s.dispatched.len() < s.submitted.len() ==> s.receive(id).dispatched == s.dispatched.push(
            s.submitted[s.dispatched.len() as int],
        ) && s.receive(id).workers[id] is Running,
        s.dispatched.len() == s.submitted.len() ==> s.receive(id).dispatched == s.dispatched
            && s.receive(id).workers[id] is Terminated,
{
    s.lemma_head();
}

/// Each job handed to a worker is accounted for exactly once: its worker
/// has returned from it, or is executing it now, or was brought down by it.
pub proof fn lemma_each_dispatch_accounted<J>(s: PoolState<J>)
    requires
        s.wf(),
    ensures
        s.dispatched.len() == s.finished + count_in(s.workers, WorkerState::Running) + count_in(
            s.workers,
            WorkerState::Crashed,
        ),
{
}

/// Once any worker has seen its termination signal, every job that was
/// submitted has been handed to a worker, and nothing but termination
/// signals is left in the queue.
pub proof fn lemma_terminated_means_drained<J>(s: PoolState<J>, id: int)
    requires
        s.wf(),
        0 <= id < s.size(),
        s.workers[id] is Terminated,
    ensures
        s.dispatched == s.submitted,
        forall|k: int| 0 <= k < s.queue.len() ==> #[trigger] s.queue[k] is Terminate,
{
    lemma_count_in_bounds(s.workers, WorkerState::Terminated);
    assert(s.workers[id] == WorkerState::Terminated);
    assert(s.dispatched =~= s.submitted);
}

/// After the shutdown has started, the queue holds one termination signal
/// for each worker that has not seen one: for each worker that is idle or
/// running, and one more, which nobody will take, for each worker that a
/// job brought down. So an idle worker always finds a message.
pub proof fn lemma_signals_cover_workers<J>(s: PoolState<J>)
    requires
        s.wf(),
        s.closing,
    ensures
        s.signals() == count_in(s.workers, WorkerState::Idle) + count_in(
            s.workers,
            WorkerState::Running,
        ) + count_in(s.workers, WorkerState::Crashed),
        forall|id: int| 0 <= id < s.size() && #[trigger] s.workers[id] is Idle ==> s.can_receive(id),
{
    lemma_count_in_partition(s.workers);
    lemma_count_in_bounds(s.workers, WorkerState::Idle);
    assert forall|id: int| 0 <= id < s.size() && #[trigger] s.workers[id] is Idle implies s.can_receive(
        id,
    ) by {
        assert(s.workers[id] == WorkerState::Idle);
    }
}

/// A shutdown is never stuck: as long as a worker is left to join, that
/// worker can take a message, or is executing a job, or can be joined.
pub proof fn lemma_shutdown_never_stuck<J>(s: PoolState<J>)
    requires
        s.wf(),
        s.closing,
        s.joined < s.size(),
    ensures
        s.can_receive(s.joined as int) || s.is_running(s.joined as int) || s.can_join(),
{
    lemma_signals_cover_workers(s);
}

/// Every event but a submission uses up one unit of the work that is left.
pub proof fn lemma_step_spends_work<J>(s: PoolState<J>, e: Event<J>)
    requires
        s.wf(),
        s.enabled(e),
        !(e is Submit),
    ensures
        work_left(s.step(e)) == work_left(s) - 1,
{
    let t = s.step(e);
    match e {
        Event::Submit(_) => {},
        Event::Receive(id) => {
            s.lemma_head();
            let to = if s.pending().len() > 0 {
                WorkerState::Running
            } else {
                WorkerState::Terminated
            };
            lemma_count_in_update(s.workers, id, to, WorkerState::Running);
        },
        Event::Finish(id) => {
            lemma_count_in_update(s.workers, id, WorkerState::Idle, WorkerState::Running);
        },
        Event::Crash(id) => {
            lemma_count_in_update(s.workers, id, WorkerState::Crashed, WorkerState::Running);
        },
        Event::Shutdown => {},
        Event::Join => {},
    }
}

/// Once the shutdown has started, no run is longer than the work that was
/// left at its start, and no job is submitted any more.
pub proof fn lemma_shutdown_is_bounded<J>(s: PoolState<J>, trace: Seq<Event<J>>)
    requires
        s.wf(),
        s.closing,
        s.admits(trace),
    ensures
        s.run(trace).wf(),
        s.run(trace).closing,
        s.run(trace).submitted == s.submitted,
        work_left(s.run(trace)) == work_left(s) - trace.len(),
        trace.len() <= work_left(s),
    decreases trace.len(),
{
    if trace.len() > 0 {
        let before = s.run(trace.drop_last());
        lemma_shutdown_is_bounded(s, trace.drop_last());
        before.lemma_step_wf(trace.last());
        lemma_step_spends_work(before, trace.last());
    }
    lemma_work_left_nonnegative(s.run(trace));
}

/// The work that is left is never negative.
pub proof fn lemma_work_left_nonnegative<J>(s: PoolState<J>)
    requires
        s.wf(),
    ensures
        work_left(s) >= 0,
{
}

/// A pool that is shut down at any moment, with whatever jobs waiting or
/// running and however many workers lost to failed jobs, gets one
/// termination signal per worker it was made with; from there every run is
/// bounded, and it cannot stop before all workers are joined.
pub proof fn lemma_shutdown_completes<J>(s: PoolState<J>, trace: Seq<Event<J>>)
    requires
        s.wf(),
        s.can_shutdown(),
        s.shutdown().admits(trace),
    ensures
        s.shutdown().signals() == s.size(),
        trace.len() <= work_left(s) - 1,
        s.shutdown().run(trace).wf(),
        s.shutdown().run(trace).joined <= s.size(),
        s.shutdown().run(trace).joined < s.size() ==> {
            let end = s.shutdown().run(trace);
            end.can_receive(end.joined as int) || end.is_running(end.joined as int)
                || end.can_join()
        },
{
    let start = s.shutdown();
    s.lemma_step_wf(Event::Shutdown);
    lemma_step_spends_work(s, Event::Shutdown);
    lemma_shutdown_is_bounded(start, trace);
    lemma_run_keeps_size(start, trace);
    let end = start.run(trace);
    if end.joined < end.size() {
        lemma_shutdown_never_stuck(end);
    }
}

/// When all workers are joined and not every one of them was lost to a
/// failed job, every job that was ever submitted has been executed: its
/// worker returned from it or went down with it. All that is left in the
/// queue is one unused termination signal for each worker lost.
pub proof fn lemma_joined_pool_has_run_every_job<J>(s: PoolState<J>)
    requires
        s.wf(),
        s.joined == s.size(),
        count_in(s.workers, WorkerState::Crashed) < s.size(),
    ensures
        s.dispatched == s.submitted,
        s.submitted.len() == s.finished + count_in(s.workers, WorkerState::Crashed),
        s.queue.len() == count_in(s.workers, WorkerState::Crashed),
        forall|k: int| 0 <= k < s.queue.len() ==> #[trigger] s.queue[k] is Terminate,
{
    lemma_signals_cover_workers(s);
    lemma_count_in_partition(s.workers);
    lemma_count_in_bounds(s.workers, WorkerState::Idle);
    lemma_count_in_bounds(s.workers, WorkerState::Running);
    lemma_count_in_bounds(s.workers, WorkerState::Terminated);
    if count_in(s.workers, WorkerState::Idle) > 0 {
        let i = choose|i: int| 0 <= i < s.workers.len() && s.workers[i] == WorkerState::Idle;
        assert(s.workers[i].has_exited());
    }
    if count_in(s.workers, WorkerState::Running) > 0 {
        let i = choose|i: int| 0 <= i < s.workers.len() && s.workers[i] == WorkerState::Running;
        assert(s.workers[i].has_exited());
    }
    let id = choose|i: int| 0 <= i < s.workers.len() && s.workers[i] == WorkerState::Terminated;
    lemma_terminated_means_drained(s, id);
}

/// A worker that has exited, by a termination signal or by a failed job,
/// takes no further part: whatever happens afterwards, it takes no message
/// and its state stays what it is.
pub proof fn lemma_exited_worker_stays_exited<J>(s: PoolState<J>, trace: Seq<Event<J>>, id: int)
    requires
        s.admits(trace),
        0 <= id < s.size(),
        s.workers[id].has_exited(),
    ensures
        s.run(trace).size() == s.size(),
        s.run(trace).workers[id] == s.workers[id],
    decreases trace.len(),
{
    if trace.len() > 0 {
        lemma_exited_worker_stays_exited(s, trace.drop_last(), id);
    }
}

/// The events of `rest` after the event `e`: the run is the run of `rest`
/// from the state after `e`.
pub proof fn lemma_run_after_first<J>(s: PoolState<J>, e: Event<J>, rest: Seq<Event<J>>)
    ensures
        s.admits(seq![e] + rest) <==> s.enabled(e) && s.step(e).admits(rest),
        s.run(seq![e] + rest) == s.step(e).run(rest),
    decreases rest.len(),
{
    let whole = seq![e] + rest;
    if rest.len() == 0 {
        assert(whole.drop_last() =~= Seq::<Event<J>>::empty());
        assert(s.admits(whole.drop_last()));
        assert(s.run(whole.drop_last()) == s);
    } else {
        assert(whole.drop_last() =~= seq![e] + rest.drop_last());
        lemma_run_after_first(s, e, rest.drop_last());
    }
}

/// From every state of a shutdown there is a way to its end: a run after
/// which all workers are joined. Jobs that are executing only have to
/// return.
pub proof fn lemma_shutdown_can_finish<J>(s: PoolState<J>)
    requires
        s.wf(),
        s.closing,
    ensures
        exists|trace: Seq<Event<J>>| #[trigger] s.admits(trace) && s.run(trace).joined == s.size(),
    decreases work_left(s),
{
    lemma_work_left_nonnegative(s);
    if s.joined == s.size() {
        let nothing = Seq::<Event<J>>::empty();
        assert(s.admits(nothing) && s.run(nothing).joined == s.size());
    } else {
        let next = s.joined as int;
        lemma_shutdown_never_stuck(s);
        let e: Event<J> = if s.can_receive(next) {
            Event::Receive(next)
        } else if s.is_running(next) {
            Event::Finish(next)
        } else {
            Event::Join
        };
        let t = s.step(e);
        s.lemma_step_wf(e);
        lemma_step_spends_work(s, e);
        lemma_shutdown_can_finish(t);
        let rest = choose|trace: Seq<Event<J>>| #[trigger]
            t.admits(trace) && t.run(trace).joined == t.size();
        lemma_run_after_first(s, e, rest);
        let whole = seq![e] + rest;
        assert(s.admits(whole) && s.run(whole).joined == s.size());
    }
}

/// A pool of any size that is shut down before any job was submitted: every
/// run from there has at most `2 * size` events, a dequeue and a join for
/// each worker; it cannot stop before all workers are joined; and when they
/// are, exactly `size` of them have been joined, each has seen its
/// termination signal, and the queue is empty.
pub proof fn lemma_idle_shutdown<J>(size: nat, trace: Seq<Event<J>>)
    requires
        size > 0,
        PoolState::<J>::init(size).shutdown().admits(trace),
    ensures
        trace.len() <= 2 * size,
        ({
            let end = PoolState::<J>::init(size).shutdown().run(trace);
            &&& end.size() == size
            &&& end.joined <= size
            &&& end.joined < size ==> end.can_receive(end.joined as int) || end.can_join()
            &&& end.joined == size <==> trace.len() == 2 * size
            &&& end.joined == size ==> end.queue.len() == 0 && forall|id: int|
                0 <= id < size ==> #[trigger] end.workers[id] is Terminated
        }),
{
    let fresh = PoolState::<J>::init(size);
    let start = fresh.shutdown();
    let end = start.run(trace);
    PoolState::<J>::lemma_init_wf(size);
    lemma_count_in_uniform(size, WorkerState::Idle, WorkerState::Running);
    assert(fresh.pending() =~= Seq::<J>::empty());
    assert(work_left(fresh) == 2 * size + 1);
    lemma_shutdown_completes(fresh, trace);
    fresh.lemma_step_wf(Event::Shutdown);
    lemma_step_spends_work(fresh, Event::Shutdown);
    lemma_shutdown_is_bounded(start, trace);
    lemma_run_keeps_size(start, trace);
    lemma_count_in_bounds(end.workers, WorkerState::Running);
    lemma_count_in_bounds(end.workers, WorkerState::Crashed);
    lemma_count_in_bounds(end.workers, WorkerState::Idle);
    lemma_count_in_partition(end.workers);
    if end.joined < size {
        let next = end.joined as int;
        assert(!end.is_running(next)) by {
            if end.workers[next] is Running {
                assert(end.workers[next] == WorkerState::Running);
            }
        }
    }
    if end.joined == size {
        assert forall|id: int| 0 <= id < size implies #[trigger] end.workers[id] is Terminated by {
            assert(end.workers[id].has_exited());
            if end.workers[id] is Crashed {
                assert(end.workers[id] == WorkerState::Crashed);
            }
        }
        assert(count_in(end.workers, WorkerState::Idle) == 0) by {
            if count_in(end.workers, WorkerState::Idle) > 0 {
                let i = choose|i: int| 0 <= i < end.workers.len() && end.workers[i] == WorkerState::Idle;
                assert(end.workers[i].has_exited());
            }
        }
    }
}

} // verus!
