//! The pool's error taxonomy.

use vstd::prelude::*;

verus! {

/// Returned by `WorkerPool::submit` once shutdown has begun: the channel is
/// closed, the job was not enqueued and will never run.  Recoverable by the
/// submitter; the pool itself is unaffected.
#[derive(Clone, Copy, Debug, PartialEq, Eq, Structural)]
pub struct SubmissionError;

impl SubmissionError {
    /// Short description for operator-facing reporting.
    pub fn message(&self) -> (m: &'static str)
        ensures
            m@ == "pool is shut down; job rejected"@,
    {
        "pool is shut down; job rejected"
    }
}

/// An internal failure while running a job body.  It is contained to that
/// one job: the worker that ran it keeps serving, and the channel stays
/// usable.  Carries the index of the job that faulted so the failure is
/// observable by the operator.
#[derive(Clone, Copy, Debug, PartialEq, Eq, Structural)]
pub struct JobExecutionFault {
    /// Submission index of the job whose body faulted.
    pub job: usize,
}

impl JobExecutionFault {
    /// Short description for operator-facing reporting.
    pub fn message(&self) -> (m: &'static str)
        ensures
            m@ == "a job faulted; the worker keeps running"@,
    {
        "a job faulted; the worker keeps running"
    }
}

/// Raised during pool construction when the runtime cannot create a
/// requested worker thread.  Fatal to construction: the constructor fails
/// atomically rather than returning a pool with fewer workers than asked.
#[derive(Clone, Copy, Debug, PartialEq, Eq, Structural)]
pub struct ThreadSpawnFailure {
    /// Ordinal index of the worker that could not be spawned.
    pub worker: usize,
}

impl ThreadSpawnFailure {
    /// Short description for operator-facing reporting.
    pub fn message(&self) -> (m: &'static str)
        ensures
            m@ == "could not spawn a worker thread"@,
    {
        "could not spawn a worker thread"
    }
}

} // verus!
