//! One worker's lifecycle: waiting, running a job, or stopped.
//!
//! A worker moves `Running -> Executing -> Running -> ... -> Stopped`.  The
//! only normal way to stop is observing end-of-stream on the channel; a
//! fault inside a job body never stops the worker.

use vstd::prelude::*;
use crate::channel::ReceiveOutcome;
use crate::errors::JobExecutionFault;

verus! {

/// Lifecycle phase of one worker.
#[derive(Clone, Copy, Debug, PartialEq, Eq, Structural)]
pub enum WorkerPhase {
    /// Waiting on the channel for the next job.
    Running,
    /// Running the job with this submission index.
    Executing(usize),
    /// Exited its loop after observing end-of-stream; never restarts.
    Stopped,
}

/// One worker: its ordinal index (for diagnostics) and its phase.
#[derive(Clone, Copy, Debug, PartialEq, Eq, Structural)]
pub struct Worker {
    /// Ordinal index, fixed at construction.
    pub id: usize,
    /// Current lifecycle phase.
    pub phase: WorkerPhase,
}

impl Worker {
    /// A fresh worker, waiting for its first job.
    pub fn new(id: usize) -> (w: Worker)
        ensures
            w.id == id,
            w.phase == WorkerPhase::Running,
    {
        Worker { id, phase: WorkerPhase::Running }
    }

    /// React to what the channel handed this waiting worker: a job moves it
    /// to `Executing`, end-of-stream stops it for good, and an empty but
    /// still-open channel leaves it waiting.
    pub fn observe(&mut self, outcome: ReceiveOutcome)
        requires
            old(self).phase == WorkerPhase::Running,
        ensures
            final(self).id == old(self).id,
            (match outcome {
                ReceiveOutcome::Job(j) => final(self).phase == WorkerPhase::Executing(j),
                ReceiveOutcome::Pending => final(self).phase == WorkerPhase::Running,
                ReceiveOutcome::EndOfStream => final(self).phase == WorkerPhase::Stopped,
            }),
    {
        match outcome {
            ReceiveOutcome::Job(j) => {
                self.phase = WorkerPhase::Executing(j);
            }
            ReceiveOutcome::Pending => {}
            ReceiveOutcome::EndOfStream => {
                self.phase = WorkerPhase::Stopped;
            }
        }
    }

    /// Finish the job in hand and go back to waiting.  A fault inside the
    /// job body is reported to the caller, never swallowed, and never stops
    /// the worker: the next job on this worker still runs.
    pub fn complete(&mut self, faulted: bool) -> (fault: Option<JobExecutionFault>)
        requires
            (old(self).phase matches WorkerPhase::Executing(_)),
        ensures
            final(self).id == old(self).id,
            final(self).phase == WorkerPhase::Running,
            (match old(self).phase {
                WorkerPhase::Executing(j) => fault == (if faulted {
                    Some((JobExecutionFault { job: j }))
                } else {
                    None::<JobExecutionFault>
                }),
                _ => false,
            }),
    {
        let fault = match self.phase {
            WorkerPhase::Executing(j) => if faulted {
                Some(JobExecutionFault { job: j })
            } else {
                None
            },
            _ => None,
        };
        self.phase = WorkerPhase::Running;
        fault
    }
}

} // verus!
