use workpool::errors::SubmissionError;
use workpool::pool::WorkerPool;
use workpool::worker::WorkerPhase;

#[test]
fn new_pool_has_idle_workers() {
    let p = WorkerPool::new(3);
    assert_eq!(p.worker_count(), 3);
    assert!(p.accepting());
    assert_eq!(p.submitted_count(), 0);
    assert_eq!(p.executed_count(), 0);
    assert_eq!(p.queued_count(), 0);
    for w in 0..3 {
        assert_eq!(p.worker_phase(w), WorkerPhase::Running);
    }
}

#[test]
fn shutdown_right_after_construction_stops_every_worker() {
    for size in 1..6 {
        let mut p = WorkerPool::new(size);
        p.shutdown();
        assert!(!p.accepting());
        assert_eq!(p.worker_count(), size);
        for w in 0..size {
            assert_eq!(p.worker_phase(w), WorkerPhase::Stopped);
        }
        assert_eq!(p.executed_count(), 0);
    }
}

#[test]
fn every_submitted_job_executes_exactly_once() {
    let mut p = WorkerPool::new(4);
    for expected in 0..8 {
        let id = p.submit().unwrap();
        assert_eq!(id, expected);
    }
    assert_eq!(p.queued_count(), 8);
    p.shutdown();
    assert_eq!(p.executed_count(), 8);
    let log = p.executed();
    for j in 0..8 {
        assert_eq!(log.iter().filter(|&&x| x == j).count(), 1);
    }
}

#[test]
fn submit_after_shutdown_is_rejected_and_never_runs() {
    let mut p = WorkerPool::new(2);
    p.submit().unwrap();
    p.shutdown();
    let executed_before = p.executed_count();
    let r = p.submit();
    assert_eq!(r, Err(SubmissionError));
    assert_eq!(p.submitted_count(), 1);
    p.shutdown();
    assert_eq!(p.executed_count(), executed_before);
    assert_eq!(p.executed_count(), 1);
}

#[test]
fn shutdown_is_idempotent() {
    let mut p = WorkerPool::new(3);
    p.submit().unwrap();
    p.submit().unwrap();
    p.shutdown();
    let log_before: Vec<usize> = p.executed().clone();
    p.shutdown();
    assert_eq!(p.executed(), &log_before);
    assert!(!p.accepting());
    for w in 0..3 {
        assert_eq!(p.worker_phase(w), WorkerPhase::Stopped);
    }
}

#[test]
fn single_worker_runs_jobs_in_submission_order() {
    let mut p = WorkerPool::new(1);
    p.submit().unwrap();
    p.submit().unwrap();
    p.shutdown();
    assert_eq!(p.executed(), &vec![0, 1]);
}

#[test]
fn single_worker_finishes_first_job_before_claiming_second() {
    let mut p = WorkerPool::new(1);
    p.submit().unwrap();
    p.submit().unwrap();
    let r = p.worker_receive(0);
    assert_eq!(r, workpool::channel::ReceiveOutcome::Job(0));
    assert_eq!(p.worker_phase(0), WorkerPhase::Executing(0));
    // The worker holds job 0; job 1 is still queued, untouched.
    assert_eq!(p.queued_count(), 1);
    assert_eq!(p.worker_finish(0, false), None);
    assert_eq!(p.executed(), &vec![0]);
    let r = p.worker_receive(0);
    assert_eq!(r, workpool::channel::ReceiveOutcome::Job(1));
    assert_eq!(p.worker_finish(0, false), None);
    assert_eq!(p.executed(), &vec![0, 1]);
    p.shutdown();
}

#[test]
fn all_workers_execute_simultaneously() {
    let size = 4;
    let mut p = WorkerPool::new(size);
    for _ in 0..size {
        p.submit().unwrap();
    }
    p.claim_all();
    let mut seen = vec![false; size];
    for w in 0..size {
        match p.worker_phase(w) {
            WorkerPhase::Executing(j) => {
                assert!(j < size);
                assert!(!seen[j]);
                seen[j] = true;
            }
            other => panic!("worker {} should be executing, found {:?}", w, other),
        }
    }
    p.shutdown();
    assert_eq!(p.executed_count(), size);
}

#[test]
fn fault_in_a_job_does_not_stop_the_worker() {
    let mut p = WorkerPool::new(1);
    p.submit().unwrap();
    p.submit().unwrap();
    p.worker_receive(0);
    let fault = p.worker_finish(0, true);
    assert_eq!(fault.unwrap().job, 0);
    // The worker is back to waiting, and the next job still runs on it.
    assert_eq!(p.worker_phase(0), WorkerPhase::Running);
    let r = p.worker_receive(0);
    assert_eq!(r, workpool::channel::ReceiveOutcome::Job(1));
    assert_eq!(p.worker_finish(0, false), None);
    p.shutdown();
    assert_eq!(p.executed(), &vec![0, 1]);
}

#[test]
fn counter_scenario_four_workers_eight_jobs() {
    // Eight counter-increment jobs on a pool of four workers: after
    // shutdown the counter has been incremented exactly eight times.
    let mut p = WorkerPool::new(4);
    for _ in 0..8 {
        p.submit().unwrap();
    }
    let mut counter: u64 = 0;
    // Two full rounds: every worker claims a job, then finishes it.
    for _round in 0..2 {
        p.claim_all();
        for w in 0..4 {
            if p.worker_finish(w, false).is_none() {
                counter += 1;
            }
        }
    }
    p.shutdown();
    assert_eq!(counter, 8);
    assert_eq!(p.executed_count(), 8);
}

#[test]
fn submissions_interleave_with_execution() {
    let mut p = WorkerPool::new(2);
    p.submit().unwrap();
    p.worker_receive(0);
    p.submit().unwrap();
    p.submit().unwrap();
    p.worker_finish(0, false);
    p.shutdown();
    assert_eq!(p.executed_count(), 3);
    let log = p.executed();
    for j in 0..3 {
        assert!(log.contains(&j));
    }
}
