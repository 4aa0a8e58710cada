use vstd::prelude::*;

verus! {

/// Where a worker stands in its receive-execute loop.
#[derive(Clone, Copy, Debug, PartialEq, Eq, Structural)]
pub enum WorkerState {
    /// Waiting for the next message. Every worker starts here.
    Idle,
    /// Executing a job that it took from the queue.
    Running,
    /// Left the loop after a termination signal.
    Terminated,
    /// Brought down by a job that failed; it will not receive again.
    Crashed,
}

impl WorkerState {
    /// The worker's thread has ended, so joining it does not block.
    pub open spec fn has_exited(self) -> bool {
        self is Terminated || self is Crashed
    }

    /// The worker's thread is still there.
    pub open spec fn is_live(self) -> bool {
        self is Idle || self is Running
    }
}

/// How many workers of `ws` are in state `s`.
pub open spec fn count_in(ws: Seq<WorkerState>, s: WorkerState) -> nat
    decreases ws.len(),
{
    if ws.len() == 0 {
        0
    } else {
        count_in(ws.drop_last(), s) + if ws.last() == s {
            1nat
        } else {
            0nat
        }
    }
}

/// Changing one worker's state moves one unit from the count of its old
/// state to the count of its new one.
pub proof fn lemma_count_in_update(ws: Seq<WorkerState>, i: int, to: WorkerState, s: WorkerState)
    requires
        0 <= i < ws.len(),
    ensures
        count_in(ws.update(i, to), s) + (if ws[i] == s { 1nat } else { 0nat })
            == count_in(ws, s) + (if to == s { 1nat } else { 0nat }),
    decreases ws.len(),
{
    let us = ws.update(i, to);
    if i == ws.len() - 1 {
        assert(us.drop_last() =~= ws.drop_last());
    } else {
        assert(us.drop_last() =~= ws.drop_last().update(i, to));
        lemma_count_in_update(ws.drop_last(), i, to, s);
    }
}

/// In a table whose workers are all in state `all`, the count of `all` is
/// the table's length and every other count is zero.
pub proof fn lemma_count_in_uniform(n: nat, all: WorkerState, s: WorkerState)
    ensures
        count_in(Seq::new(n, |i: int| all), s) == (if s == all { n } else { 0nat }),
    decreases n,
{
    if n > 0 {
        assert(Seq::new(n, |i: int| all).drop_last() =~= Seq::new((n - 1) as nat, |i: int| all));
        lemma_count_in_uniform((n - 1) as nat, all, s);
    }
}

/// A count never exceeds the table's length, and it is positive exactly
/// where some worker is in that state.
pub proof fn lemma_count_in_bounds(ws: Seq<WorkerState>, s: WorkerState)
    ensures
        count_in(ws, s) <= ws.len(),
        count_in(ws, s) > 0 <==> exists|i: int| 0 <= i < ws.len() && ws[i] == s,
    decreases ws.len(),
{
    if ws.len() > 0 {
        let front = ws.drop_last();
        lemma_count_in_bounds(front, s);
        if count_in(front, s) > 0 {
            let i = choose|i: int| 0 <= i < front.len() && front[i] == s;
            assert(ws[i] == s);
        }
        if ws.last() == s {
            assert(ws[ws.len() - 1] == s);
        }
        if exists|i: int| 0 <= i < ws.len() && ws[i] == s {
            let i = choose|i: int| 0 <= i < ws.len() && ws[i] == s;
            if i < ws.len() - 1 {
                assert(front[i] == s);
            }
        }
    }
}

/// Every worker is in exactly one of the four states.
pub proof fn lemma_count_in_partition(ws: Seq<WorkerState>)
    ensures
        count_in(ws, WorkerState::Idle) + count_in(ws, WorkerState::Running) + count_in(
            ws,
            WorkerState::Terminated,
        ) + count_in(ws, WorkerState::Crashed) == ws.len(),
    decreases ws.len(),
{
    if ws.len() > 0 {
        lemma_count_in_partition(ws.drop_last());
    }
}

} // verus!
