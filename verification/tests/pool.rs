use minihttp::error::Error;
use minihttp::pool::worker_step;
use minihttp::pool::Message;
use minihttp::pool::Pool;
use minihttp::pool::Step;
use std::collections::VecDeque;

/// Lets `workers` workers take from `queue` in turn until none can; gives
/// the jobs in the order in which they were run and the workers left.
fn drain(queue: &mut VecDeque<Message<u32>>, workers: usize) -> (Vec<u32>, usize) {
    let mut left = workers;
    let mut ran = Vec::new();
    while left > 0 {
        let Some(message) = queue.pop_front() else { break };
        match worker_step(message) {
            Step::Run(job) => ran.push(job),
            Step::Exit => left -= 1,
        }
    }
    (ran, left)
}

#[test]
fn two_jobs_on_one_worker_run_in_turn() {
    let mut pool = Pool::new(1);
    let mut queue: VecDeque<Message<u32>> = VecDeque::new();
    queue.push_back(pool.schedule(1).unwrap());
    queue.push_back(pool.schedule(2).unwrap());
    for _ in 0..pool.shutdown() {
        queue.push_back(Message::Shutdown);
    }
    let mut log: Vec<String> = Vec::new();
    loop {
        match worker_step(queue.pop_front().unwrap()) {
            Step::Run(job) => {
                log.push(format!("start {}", job));
                log.push(format!("end {}", job));
            }
            Step::Exit => break,
        }
    }
    assert_eq!(log, vec!["start 1", "end 1", "start 2", "end 2"]);
    assert!(queue.is_empty());
}

#[test]
fn shutdown_sends_one_signal_for_each_worker() {
    for workers in [1usize, 2, 8, 100] {
        for jobs in [0u32, 1, 5, 40] {
            let mut pool = Pool::new(workers);
            assert_eq!(pool.size(), workers);
            assert!(!pool.is_closed());
            let mut queue: VecDeque<Message<u32>> = VecDeque::new();
            for job in 0..jobs {
                queue.push_back(pool.schedule(job).unwrap());
            }
            let signals = pool.shutdown();
            assert_eq!(signals, workers);
            for _ in 0..signals {
                queue.push_back(Message::Shutdown);
            }
            let (ran, left) = drain(&mut queue, workers);
            assert_eq!(ran, (0..jobs).collect::<Vec<u32>>());
            assert_eq!(left, 0);
            assert!(queue.is_empty());
            assert!(pool.is_closed());
            assert_eq!(pool.size(), 0);
        }
    }
}

#[test]
fn closed_pool_takes_no_job() {
    let mut pool = Pool::new(3);
    assert!(matches!(pool.schedule('a'), Ok(Message::Job('a'))));
    assert_eq!(pool.shutdown(), 3);
    assert!(matches!(pool.schedule('b'), Err(Error::PoolClosed)));
    assert_eq!(pool.shutdown(), 0);
    assert!(matches!(pool.schedule('c'), Err(Error::PoolClosed)));
}

#[test]
fn pool_of_no_workers_is_closed() {
    let pool = Pool::new(0);
    assert!(pool.is_closed());
    assert!(matches!(pool.schedule(1), Err(Error::PoolClosed)));
}

#[test]
fn worker_runs_jobs_and_leaves_on_signal() {
    assert!(matches!(worker_step(Message::Job("j")), Step::Run("j")));
    assert!(matches!(worker_step(Message::<&str>::Shutdown), Step::Exit));
}
