use std::cell::RefCell;
use std::rc::Rc;
use web_server::{Message, ThreadPool, WorkerState};

type Job = Box<dyn FnOnce()>;

/// Lets worker `id` take messages and execute jobs until it is told to stop
/// or finds the queue empty. Returns whether it was told to stop.
fn drive(pool: &mut ThreadPool<Job>, id: usize) -> bool {
    loop {
        match pool.receive(id) {
            Some(Message::NewJob(job)) => {
                job();
                pool.finish(id);
            }
            Some(Message::Terminate) => return true,
            None => return false,
        }
    }
}

fn job_of(message: Option<Message<u32>>) -> u32 {
    match message {
        Some(Message::NewJob(job)) => job,
        other => panic!("expected a job, got {:?}", other),
    }
}

#[test]
fn new_pool_has_idle_workers_and_an_empty_queue() {
    let pool: ThreadPool<u32> = ThreadPool::new(3);
    assert_eq!(pool.size(), 3);
    assert_eq!(pool.queued(), 0);
    assert_eq!(pool.joined(), 0);
    assert!(!pool.is_closing());
    assert_eq!(pool.state(0), Some(WorkerState::Idle));
    assert_eq!(pool.state(1), Some(WorkerState::Idle));
    assert_eq!(pool.state(2), Some(WorkerState::Idle));
    assert_eq!(pool.state(3), None);
    assert_eq!(pool.next_join(), None);
    assert!(!pool.can_join());
}

#[test]
fn receive_on_an_empty_queue_changes_nothing() {
    let mut pool: ThreadPool<u32> = ThreadPool::new(2);
    assert_eq!(pool.receive(1), None);
    assert_eq!(pool.state(1), Some(WorkerState::Idle));
    assert_eq!(pool.queued(), 0);
    pool.execute(5);
    assert_eq!(pool.receive(1), Some(Message::NewJob(5)));
    assert_eq!(pool.receive(0), None);
    assert_eq!(pool.state(0), Some(WorkerState::Idle));
}

#[test]
fn execute_only_enqueues() {
    let mut pool: ThreadPool<u32> = ThreadPool::new(2);
    pool.execute(1);
    pool.execute(2);
    assert_eq!(pool.queued(), 2);
    assert_eq!(pool.state(0), Some(WorkerState::Idle));
    assert_eq!(pool.state(1), Some(WorkerState::Idle));
}

#[test]
fn a_worker_runs_its_job_and_is_idle_again() {
    let mut pool: ThreadPool<u32> = ThreadPool::new(1);
    pool.execute(9);
    assert_eq!(pool.receive(0), Some(Message::NewJob(9)));
    assert_eq!(pool.state(0), Some(WorkerState::Running));
    assert_eq!(pool.queued(), 0);
    pool.finish(0);
    assert_eq!(pool.state(0), Some(WorkerState::Idle));
}

#[test]
fn a_termination_signal_ends_the_worker() {
    let mut pool: ThreadPool<u32> = ThreadPool::new(1);
    pool.shutdown();
    assert_eq!(pool.receive(0), Some(Message::Terminate));
    assert_eq!(pool.state(0), Some(WorkerState::Terminated));
}

#[test]
fn single_worker_runs_jobs_in_submission_order() {
    let log: Rc<RefCell<Vec<usize>>> = Rc::new(RefCell::new(Vec::new()));
    let mut pool: ThreadPool<Job> = ThreadPool::new(1);
    for index in 0..3 {
        let log = Rc::clone(&log);
        pool.execute(Box::new(move || log.borrow_mut().push(index)));
    }
    pool.shutdown();
    assert!(drive(&mut pool, 0));
    assert!(pool.can_join());
    pool.join();
    assert_eq!(*log.borrow(), vec![0, 1, 2]);
    assert_eq!(pool.joined(), 1);
    assert_eq!(pool.queued(), 0);
}

#[test]
fn messages_leave_in_the_order_sent_whoever_receives() {
    let mut pool: ThreadPool<u32> = ThreadPool::new(3);
    for job in 0..6 {
        pool.execute(job);
    }
    assert_eq!(job_of(pool.receive(2)), 0);
    assert_eq!(job_of(pool.receive(0)), 1);
    pool.finish(0);
    assert_eq!(job_of(pool.receive(0)), 2);
    assert_eq!(job_of(pool.receive(1)), 3);
    pool.finish(2);
    pool.finish(1);
    assert_eq!(job_of(pool.receive(1)), 4);
    assert_eq!(job_of(pool.receive(2)), 5);
    assert_eq!(pool.queued(), 0);
}

#[test]
fn every_job_is_dequeued_exactly_once() {
    let count = 25;
    let mut pool: ThreadPool<u32> = ThreadPool::new(4);
    for job in 0..count {
        pool.execute(job);
    }
    pool.shutdown();
    let mut seen: Vec<u32> = Vec::new();
    let mut stopped = 0;
    let mut turn = 0;
    while stopped < 4 {
        let id = turn % 4;
        turn += 3;
        match pool.state(id) {
            Some(WorkerState::Idle) => match pool.receive(id) {
                Some(Message::NewJob(job)) => seen.push(job),
                Some(Message::Terminate) => stopped += 1,
                None => panic!("an idle worker found the queue empty during shutdown"),
            },
            Some(WorkerState::Running) => pool.finish(id),
            _ => {}
        }
    }
    assert_eq!(seen, (0..count).collect::<Vec<u32>>());
    assert_eq!(pool.queued(), 0);
}

#[test]
fn idle_shutdown_joins_every_worker() {
    for size in 1..=8 {
        let mut pool: ThreadPool<u32> = ThreadPool::new(size);
        pool.shutdown();
        assert!(pool.is_closing());
        assert_eq!(pool.queued(), size);
        for id in (0..size).rev() {
            assert_eq!(pool.receive(id), Some(Message::Terminate));
        }
        assert_eq!(pool.queued(), 0);
        let mut joins = 0;
        while let Some(id) = pool.next_join() {
            assert_eq!(id, joins);
            assert!(pool.can_join());
            pool.join();
            joins += 1;
        }
        assert_eq!(joins, size);
        assert_eq!(pool.joined(), size);
        assert!(!pool.can_join());
    }
}

#[test]
fn jobs_queued_before_shutdown_run_before_any_worker_stops() {
    let mut pool: ThreadPool<u32> = ThreadPool::new(2);
    pool.execute(7);
    pool.execute(8);
    pool.shutdown();
    assert_eq!(pool.queued(), 4);
    assert_eq!(pool.receive(0), Some(Message::NewJob(7)));
    assert_eq!(pool.receive(1), Some(Message::NewJob(8)));
    pool.finish(1);
    assert_eq!(pool.receive(1), Some(Message::Terminate));
    pool.finish(0);
    assert_eq!(pool.receive(0), Some(Message::Terminate));
    assert_eq!(pool.queued(), 0);
}

#[test]
fn a_running_worker_finishes_its_job_before_it_stops() {
    let mut pool: ThreadPool<u32> = ThreadPool::new(1);
    pool.execute(1);
    assert_eq!(pool.receive(0), Some(Message::NewJob(1)));
    pool.shutdown();
    assert_eq!(pool.state(0), Some(WorkerState::Running));
    assert_eq!(pool.next_join(), Some(0));
    assert!(!pool.can_join());
    pool.finish(0);
    assert!(!pool.can_join());
    assert_eq!(pool.receive(0), Some(Message::Terminate));
    assert!(pool.can_join());
    pool.join();
    assert_eq!(pool.next_join(), None);
}

#[test]
fn workers_are_joined_in_id_order() {
    let mut pool: ThreadPool<u32> = ThreadPool::new(3);
    pool.shutdown();
    assert_eq!(pool.receive(2), Some(Message::Terminate));
    assert_eq!(pool.receive(1), Some(Message::Terminate));
    assert_eq!(pool.next_join(), Some(0));
    assert!(!pool.can_join());
    assert_eq!(pool.receive(0), Some(Message::Terminate));
    assert!(pool.can_join());
    pool.join();
    assert_eq!(pool.next_join(), Some(1));
    pool.join();
    assert_eq!(pool.next_join(), Some(2));
    pool.join();
    assert_eq!(pool.next_join(), None);
    assert_eq!(pool.joined(), 3);
}

#[test]
fn shutdown_completes_after_a_worker_crashed() {
    let mut pool: ThreadPool<u32> = ThreadPool::new(2);
    pool.execute(13);
    assert_eq!(pool.receive(0), Some(Message::NewJob(13)));
    pool.crash(0);
    assert_eq!(pool.state(0), Some(WorkerState::Crashed));
    pool.shutdown();
    assert_eq!(pool.queued(), 2);
    assert_eq!(pool.receive(1), Some(Message::Terminate));
    assert_eq!(pool.next_join(), Some(0));
    assert!(pool.can_join());
    pool.join();
    assert!(pool.can_join());
    pool.join();
    assert_eq!(pool.joined(), 2);
    assert_eq!(pool.next_join(), None);
    assert_eq!(pool.queued(), 1);
    assert_eq!(pool.state(0), Some(WorkerState::Crashed));
    assert_eq!(pool.state(1), Some(WorkerState::Terminated));
}

#[test]
fn the_pool_goes_on_with_one_worker_less() {
    let mut pool: ThreadPool<u32> = ThreadPool::new(2);
    pool.execute(1);
    pool.execute(2);
    pool.execute(3);
    assert_eq!(pool.receive(1), Some(Message::NewJob(1)));
    pool.crash(1);
    assert_eq!(pool.receive(0), Some(Message::NewJob(2)));
    pool.finish(0);
    assert_eq!(pool.receive(0), Some(Message::NewJob(3)));
    pool.finish(0);
    assert_eq!(pool.size(), 2);
    assert_eq!(pool.state(1), Some(WorkerState::Crashed));
}

#[test]
fn jobs_stay_behind_when_every_worker_has_crashed() {
    let mut pool: ThreadPool<u32> = ThreadPool::new(1);
    pool.execute(1);
    pool.execute(2);
    assert_eq!(pool.receive(0), Some(Message::NewJob(1)));
    pool.crash(0);
    pool.shutdown();
    assert!(pool.can_join());
    pool.join();
    assert_eq!(pool.joined(), 1);
    assert_eq!(pool.queued(), 2);
}

#[test]
fn four_workers_execute_four_jobs_at_once() {
    let mut pool: ThreadPool<u32> = ThreadPool::new(4);
    for job in 0..8 {
        pool.execute(job);
    }
    for round in 0..2 {
        for id in 0..4 {
            assert_eq!(job_of(pool.receive(id)), round * 4 + id as u32);
        }
        for id in 0..4 {
            assert_eq!(pool.state(id), Some(WorkerState::Running));
        }
        for id in 0..4 {
            pool.finish(id);
        }
    }
    assert_eq!(pool.queued(), 0);
}

#[test]
fn closures_are_handed_out_once_and_run_by_whoever_takes_them() {
    let log: Rc<RefCell<Vec<(usize, usize)>>> = Rc::new(RefCell::new(Vec::new()));
    let mut pool: ThreadPool<Job> = ThreadPool::new(2);
    let current = Rc::new(RefCell::new(0usize));
    for index in 0..4 {
        let log = Rc::clone(&log);
        let current = Rc::clone(&current);
        pool.execute(Box::new(move || log.borrow_mut().push((*current.borrow(), index))));
    }
    pool.shutdown();
    *current.borrow_mut() = 1;
    match pool.receive(1) {
        Some(Message::NewJob(job)) => job(),
        _ => panic!("expected a job"),
    }
    pool.finish(1);
    *current.borrow_mut() = 0;
    assert!(drive(&mut pool, 0));
    assert!(drive(&mut pool, 1));
    assert_eq!(*log.borrow(), vec![(1, 0), (0, 1), (0, 2), (0, 3)]);
    pool.join();
    pool.join();
    assert_eq!(pool.joined(), 2);
}
