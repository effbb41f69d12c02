//! The job channel: an unbounded FIFO queue with counted sending and
//! receiving endpoints.
//!
//! Submitters push jobs through a sending endpoint; the pool's workers share
//! one logical receiving endpoint.  Delivery is exactly-once per job: a
//! dequeued job is gone from the queue.  End-of-stream is observed precisely
//! when the queue is empty and no sending endpoint remains.

use vstd::prelude::*;

verus! {

/// What polling the receiving end yields.
#[derive(Clone, Copy, Debug, PartialEq, Eq, Structural)]
pub enum ReceiveOutcome {
    /// The oldest queued job, removed from the queue and owned by exactly
    /// this receiver.
    Job(usize),
    /// Nothing queued but senders remain: the caller must wait and poll
    /// again.  A blocking receiver parks here.
    Pending,
    /// Nothing queued and every sending endpoint is gone: no job will ever
    /// arrive again.
    EndOfStream,
}

/// A job that could not be delivered because every receiving endpoint is
/// gone.  The job is handed back to the caller, never silently dropped.
#[derive(Clone, Copy, Debug, PartialEq, Eq, Structural)]
pub struct SendFailure {
    /// The job that was not delivered.
    pub job: usize,
}

/// The queue plus its endpoint counts.  Jobs are submission indices; the
/// runtime layer keeps the matching payloads.
pub struct JobChannel {
    queue: Vec<usize>,
    senders: usize,
    receivers: usize,
}

impl JobChannel {
    /// The queued jobs, oldest first.
    pub closed spec fn jobs(&self) -> Seq<usize> {
        self.queue@
    }

    /// How many sending endpoints are live.
    pub closed spec fn senders(&self) -> nat {
        self.senders as nat
    }

    /// How many receiving endpoints are live.
    pub closed spec fn receivers(&self) -> nat {
        self.receivers as nat
    }

    /// A fresh channel: empty queue, one sender, one receiver.
    pub fn new() -> (c: JobChannel)
        ensures
            c.jobs() == Seq::<usize>::empty(),
            c.senders() == 1,
            c.receivers() == 1,
    {
        let c = JobChannel { queue: Vec::new(), senders: 1, receivers: 1 };
        proof {
            assert(c.jobs() =~= Seq::<usize>::empty());
        }
        c
    }

    /// Enqueue a job.  Succeeds unless every receiving endpoint has been
    /// dropped, in which case the job comes back to the caller.
    pub fn send(&mut self, job: usize) -> (r: Result<(), SendFailure>)
        requires
            old(self).senders() > 0,
        ensures
            final(self).senders() == old(self).senders(),
            final(self).receivers() == old(self).receivers(),
            old(self).receivers() > 0 ==> r == Ok::<(), SendFailure>(()) && final(self).jobs()
                == old(self).jobs().push(job),
            old(self).receivers() == 0 ==> r == Err::<(), SendFailure>((SendFailure { job }))
                && final(self).jobs() == old(self).jobs(),
    {
        if self.receivers == 0 {
            Err(SendFailure { job })
        } else {
            self.queue.push(job);
            Ok(())
        }
    }

    /// Poll the receiving end: take the oldest job, or report why none is
    /// available.  Exactly-once delivery: a returned job is no longer queued.
    pub fn receive(&mut self) -> (r: ReceiveOutcome)
        requires
            old(self).receivers() > 0,
        ensures
            final(self).senders() == old(self).senders(),
            final(self).receivers() == old(self).receivers(),
            old(self).jobs().len() > 0 ==> r == ReceiveOutcome::Job(old(self).jobs()[0])
                && final(self).jobs() == old(self).jobs().skip(1),
            old(self).jobs().len() == 0 && old(self).senders() > 0 ==> r
                == ReceiveOutcome::Pending && *final(self) == *old(self),
            old(self).jobs().len() == 0 && old(self).senders() == 0 ==> r
                == ReceiveOutcome::EndOfStream && *final(self) == *old(self),
    {
        if self.queue.len() > 0 {
            let j = self.queue.remove(0);
            proof {
                assert(self.queue@ =~= old(self).jobs().skip(1));
            }
            ReceiveOutcome::Job(j)
        } else if self.senders == 0 {
            ReceiveOutcome::EndOfStream
        } else {
            ReceiveOutcome::Pending
        }
    }

    /// Register one more sending endpoint, for an additional submitter.
    pub fn clone_sender(&mut self)
        requires
            old(self).senders() > 0,
            old(self).senders() < usize::MAX,
        ensures
            final(self).jobs() == old(self).jobs(),
            final(self).senders() == old(self).senders() + 1,
            final(self).receivers() == old(self).receivers(),
    {
        self.senders = self.senders + 1;
    }

    /// Give up one sending endpoint.  Once the count reaches zero and the
    /// queue drains, every receiver observes end-of-stream.
    pub fn drop_sender(&mut self)
        requires
            old(self).senders() > 0,
        ensures
            final(self).jobs() == old(self).jobs(),
            final(self).senders() == old(self).senders() - 1,
            final(self).receivers() == old(self).receivers(),
    {
        self.senders = self.senders - 1;
    }

    /// Give up one receiving endpoint.  With none left, sends fail and hand
    /// the job back.
    pub fn drop_receiver(&mut self)
        requires
            old(self).receivers() > 0,
        ensures
            final(self).jobs() == old(self).jobs(),
            final(self).senders() == old(self).senders(),
            final(self).receivers() == old(self).receivers() - 1,
    {
        self.receivers = self.receivers - 1;
    }

    /// How many jobs are queued right now.
    pub fn pending(&self) -> (n: usize)
        ensures
            n == self.jobs().len(),
    {
        self.queue.len()
    }

    /// How many sending endpoints are live.
    pub fn sender_count(&self) -> (n: usize)
        ensures
            n == self.senders(),
    {
        self.senders
    }

    /// How many receiving endpoints are live.
    pub fn receiver_count(&self) -> (n: usize)
        ensures
            n == self.receivers(),
    {
        self.receivers
    }
}

} // verus!
