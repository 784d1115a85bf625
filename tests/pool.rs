use worker_pool::{ConstructionError, Message, SubmissionError, ThreadPool, Worker, WorkerState};

/// Plays the part of the worker threads: offers the queue to each worker in
/// turn, runs every job it hands out (adding its value to `total`) and reports
/// it done, until no worker can take anything. Returns the jobs in the order
/// they ran.
fn run_until_quiet(pool: &mut ThreadPool<u32>, total: &mut u64) -> Vec<u32> {
    let mut ran = Vec::new();
    loop {
        let mut progressed = false;
        for id in 0..pool.worker_count() {
            match pool.next_message(id) {
                Some(Message::NewJob(v)) => {
                    *total += v as u64;
                    ran.push(v);
                    assert!(pool.job_done(id));
                    progressed = true;
                }
                Some(Message::Terminate) => progressed = true,
                None => {}
            }
        }
        if !progressed {
            return ran;
        }
    }
}

#[test]
fn zero_workers_is_refused() {
    let r = ThreadPool::<u32>::new(0);
    assert!(matches!(r, Err(ConstructionError::ZeroWorkers)));
}

#[test]
fn new_pool_has_idle_workers_and_empty_queue() {
    let mut pool = ThreadPool::<u32>::new(3).ok().unwrap();
    assert_eq!(pool.worker_count(), 3);
    assert!(!pool.is_stopped());
    for id in 0..3 {
        assert!(pool.next_message(id).is_none());
    }
}

#[test]
fn every_job_runs_exactly_once() {
    let mut pool = ThreadPool::<u32>::new(3).ok().unwrap();
    for v in 0..25u32 {
        assert_eq!(pool.execute(v), Ok(()));
    }
    let mut total = 0u64;
    let mut ran = run_until_quiet(&mut pool, &mut total);
    assert!(pool.shutdown());
    ran.extend(run_until_quiet(&mut pool, &mut total));
    assert!(pool.is_stopped());
    assert_eq!(ran, (0..25u32).collect::<Vec<u32>>());
    assert_eq!(total, (0..25u64).sum::<u64>());
}

#[test]
fn single_worker_runs_jobs_in_submission_order() {
    let mut pool = ThreadPool::<u32>::new(1).ok().unwrap();
    assert_eq!(pool.execute(1), Ok(()));
    assert_eq!(pool.execute(2), Ok(()));
    assert!(matches!(pool.next_message(0), Some(Message::NewJob(1))));
    // A is still running: B is not handed out.
    assert!(pool.next_message(0).is_none());
    assert!(pool.job_done(0));
    assert!(matches!(pool.next_message(0), Some(Message::NewJob(2))));
    assert!(pool.job_done(0));
    assert!(pool.next_message(0).is_none());
}

#[test]
fn submit_after_shutdown_is_refused() {
    let mut pool = ThreadPool::<u32>::new(2).ok().unwrap();
    assert!(pool.shutdown());
    let mut total = 0u64;
    run_until_quiet(&mut pool, &mut total);
    assert!(pool.is_stopped());
    assert_eq!(pool.execute(5), Err(SubmissionError::ChannelClosed));
    assert!(pool.next_message(0).is_none());
}

#[test]
fn submit_during_shutdown_is_refused() {
    let mut pool = ThreadPool::<u32>::new(2).ok().unwrap();
    assert!(pool.shutdown());
    assert!(!pool.is_stopped());
    assert_eq!(pool.execute(5), Err(SubmissionError::ChannelClosed));
}

#[test]
fn shutdown_sends_one_signal_per_worker() {
    let mut pool = ThreadPool::<u32>::new(3).ok().unwrap();
    assert!(pool.shutdown());
    assert!(!pool.shutdown());
    let mut signals = 0;
    for id in 0..3 {
        if let Some(Message::Terminate) = pool.next_message(id) {
            signals += 1;
        }
    }
    assert_eq!(signals, 3);
    assert!(pool.is_stopped());
    // Nothing is left over for a second round.
    for id in 0..3 {
        assert!(pool.next_message(id).is_none());
    }
}

#[test]
fn queued_jobs_drain_before_stop() {
    let mut pool = ThreadPool::<u32>::new(2).ok().unwrap();
    for v in [10u32, 20, 30] {
        assert_eq!(pool.execute(v), Ok(()));
    }
    assert!(pool.shutdown());
    // Worker 0 takes a job and keeps running it; worker 1 must take the
    // remaining jobs before it sees its terminate signal.
    assert!(matches!(pool.next_message(0), Some(Message::NewJob(10))));
    assert!(matches!(pool.next_message(1), Some(Message::NewJob(20))));
    assert!(pool.job_done(1));
    assert!(matches!(pool.next_message(1), Some(Message::NewJob(30))));
    assert!(pool.job_done(1));
    assert!(matches!(pool.next_message(1), Some(Message::Terminate)));
    assert!(!pool.is_stopped());
    assert!(pool.job_done(0));
    assert!(matches!(pool.next_message(0), Some(Message::Terminate)));
    assert!(pool.is_stopped());
}

#[test]
fn four_workers_ten_jobs_count_to_ten() {
    let mut pool = ThreadPool::<u32>::new(4).ok().unwrap();
    for _ in 0..10 {
        assert_eq!(pool.execute(1), Ok(()));
    }
    let mut counter = 0u64;
    run_until_quiet(&mut pool, &mut counter);
    assert!(pool.shutdown());
    run_until_quiet(&mut pool, &mut counter);
    assert!(pool.is_stopped());
    assert_eq!(counter, 10);
}

#[test]
fn stopped_worker_takes_nothing_more() {
    let mut pool = ThreadPool::<u32>::new(2).ok().unwrap();
    assert!(pool.shutdown());
    assert!(matches!(pool.next_message(0), Some(Message::Terminate)));
    assert!(pool.next_message(0).is_none());
    assert!(!pool.job_done(0));
    assert!(matches!(pool.next_message(1), Some(Message::Terminate)));
    assert!(pool.is_stopped());
}

#[test]
fn unknown_or_idle_worker_is_refused() {
    let mut pool = ThreadPool::<u32>::new(2).ok().unwrap();
    assert_eq!(pool.execute(4), Ok(()));
    assert!(pool.next_message(2).is_none());
    assert!(!pool.job_done(0));
    assert!(!pool.job_done(7));
    assert!(matches!(pool.next_message(1), Some(Message::NewJob(4))));
}

#[test]
fn worker_state_machine() {
    let mut w = Worker::new(5);
    assert_eq!(w.id, 5);
    assert_eq!(w.state, WorkerState::Idle);
    w.receive(&Message::NewJob(1u32));
    assert_eq!(w.state, WorkerState::Executing);
    w.finish_job();
    assert_eq!(w.state, WorkerState::Idle);
    w.receive(&Message::<u32>::Terminate);
    assert_eq!(w.state, WorkerState::Terminated);
    assert_eq!(w.id, 5);
}

#[test]
fn message_kind() {
    assert!(Message::<u32>::Terminate.is_terminate());
    assert!(!Message::NewJob(3u32).is_terminate());
}
