use workpool::channel::{JobChannel, ReceiveOutcome, SendFailure};
use workpool::errors::{JobExecutionFault, SubmissionError, ThreadSpawnFailure};
use workpool::worker::{Worker, WorkerPhase};

#[test]
fn fresh_channel_counts() {
    let c = JobChannel::new();
    assert_eq!(c.pending(), 0);
    assert_eq!(c.sender_count(), 1);
    assert_eq!(c.receiver_count(), 1);
}

#[test]
fn channel_delivers_in_fifo_order() {
    let mut c = JobChannel::new();
    c.send(5).unwrap();
    c.send(7).unwrap();
    assert_eq!(c.pending(), 2);
    assert_eq!(c.receive(), ReceiveOutcome::Job(5));
    assert_eq!(c.receive(), ReceiveOutcome::Job(7));
    assert_eq!(c.pending(), 0);
}

#[test]
fn empty_open_channel_reports_pending() {
    let mut c = JobChannel::new();
    assert_eq!(c.receive(), ReceiveOutcome::Pending);
}

#[test]
fn end_of_stream_needs_empty_queue_and_no_senders() {
    let mut c = JobChannel::new();
    c.send(1).unwrap();
    c.drop_sender();
    assert_eq!(c.sender_count(), 0);
    // A queued job is still delivered after the last sender is gone.
    assert_eq!(c.receive(), ReceiveOutcome::Job(1));
    assert_eq!(c.receive(), ReceiveOutcome::EndOfStream);
}

#[test]
fn cloned_senders_keep_the_channel_open() {
    let mut c = JobChannel::new();
    c.clone_sender();
    assert_eq!(c.sender_count(), 2);
    c.drop_sender();
    assert_eq!(c.receive(), ReceiveOutcome::Pending);
    c.drop_sender();
    assert_eq!(c.receive(), ReceiveOutcome::EndOfStream);
}

#[test]
fn send_without_receivers_hands_the_job_back() {
    let mut c = JobChannel::new();
    c.drop_receiver();
    assert_eq!(c.receiver_count(), 0);
    assert_eq!(c.send(9), Err(SendFailure { job: 9 }));
    assert_eq!(c.pending(), 0);
}

#[test]
fn worker_lifecycle_transitions() {
    let mut w = Worker::new(2);
    assert_eq!(w.id, 2);
    assert_eq!(w.phase, WorkerPhase::Running);
    w.observe(ReceiveOutcome::Pending);
    assert_eq!(w.phase, WorkerPhase::Running);
    w.observe(ReceiveOutcome::Job(11));
    assert_eq!(w.phase, WorkerPhase::Executing(11));
    assert_eq!(w.complete(false), None);
    assert_eq!(w.phase, WorkerPhase::Running);
    w.observe(ReceiveOutcome::EndOfStream);
    assert_eq!(w.phase, WorkerPhase::Stopped);
}

#[test]
fn worker_reports_a_fault_and_keeps_running() {
    let mut w = Worker::new(0);
    w.observe(ReceiveOutcome::Job(3));
    let fault = w.complete(true);
    assert_eq!(fault, Some(JobExecutionFault { job: 3 }));
    assert_eq!(w.phase, WorkerPhase::Running);
}

#[test]
fn error_messages_name_the_condition() {
    assert_eq!(SubmissionError.message(), "pool is shut down; job rejected");
    let fault = JobExecutionFault { job: 4 };
    assert_eq!(fault.message(), "a job faulted; the worker keeps running");
    let spawn = ThreadSpawnFailure { worker: 1 };
    assert_eq!(spawn.message(), "could not spawn a worker thread");
    assert_eq!(spawn.worker, 1);
}
