//! The worker pool: a fixed set of workers, one job channel, and the
//! submission and shutdown protocol.
//!
//! Jobs are named by their submission index `0, 1, 2, ...`.  The pool's
//! invariant ties everything together: the channel holds exactly the
//! submitted-but-unclaimed indices in submission order, each claimed index
//! is either being executed by exactly one worker or appears exactly once
//! in the execution log, and a stopped worker can only exist once the pool
//! is closed and the queue fully drained.

use vstd::prelude::*;
use crate::channel::{JobChannel, ReceiveOutcome};
use crate::errors::{JobExecutionFault, SubmissionError};
use crate::worker::{Worker, WorkerPhase};

verus! {

/// The submission indices `lo, lo + 1, ..., hi - 1`, in order.
pub open spec fn id_run(lo: int, hi: int) -> Seq<usize> {
    Seq::new((hi - lo) as nat, |i: int| (lo + i) as usize)
}

/// How much work a worker in this phase still owes before it can stop,
/// beyond draining the queue; drives the termination measure of the
/// shutdown drain.
pub open spec fn phase_weight(p: WorkerPhase) -> int {
    match p {
        WorkerPhase::Running => 1,
        WorkerPhase::Executing(_) => 2,
        WorkerPhase::Stopped => 0,
    }
}

/// A duplicate-free sequence of indices below `n` that contains every
/// index below `n` is a permutation of them: it has length exactly `n`.
proof fn lemma_distinct_below_len(log: Seq<usize>, n: int)
    requires
        0 <= n <= usize::MAX,
        log.no_duplicates(),
        forall|k: int| 0 <= k < log.len() ==> (#[trigger] log[k]) < n,
        forall|j: usize| 0 <= j < n ==> #[trigger] log.contains(j),
    ensures
        log.len() == n,
    decreases n,
{
    if n == 0 {
        if log.len() > 0 {
            assert(log[0] < 0);
        }
    } else {
        let v = (n - 1) as usize;
        assert(log.contains(v));
        let i = choose|i: int| 0 <= i < log.len() && log[i] == v;
        let rest = log.remove(i);
        log.remove_ensures(i);
        assert forall|k1: int, k2: int|
            0 <= k1 < rest.len() && 0 <= k2 < rest.len() && k1 != k2 implies rest[k1]
            != rest[k2] by {
            let p1: int = if k1 < i {
                k1
            } else {
                k1 + 1
            };
            let p2: int = if k2 < i {
                k2
            } else {
                k2 + 1
            };
            assert(rest[k1] == log[p1] && rest[k2] == log[p2]);
        }
        assert forall|k: int| 0 <= k < rest.len() implies (#[trigger] rest[k]) < n - 1 by {
            let p: int = if k < i {
                k
            } else {
                k + 1
            };
            assert(rest[k] == log[p]);
            assert(log[p] != log[i]);
        }
        assert forall|j: usize| 0 <= j < n - 1 implies #[trigger] rest.contains(j) by {
            assert(log.contains(j));
            let p = choose|p: int| 0 <= p < log.len() && log[p] == j;
            if p < i {
                assert(rest[p] == j);
            } else {
                assert(p != i);
                assert(rest[p - 1] == j);
            }
        }
        lemma_distinct_below_len(rest, n - 1);
    }
}

/// A fixed set of workers pulling jobs from one shared channel.
pub struct WorkerPool {
    workers: Vec<Worker>,
    channel: JobChannel,
    open: bool,
    submitted: usize,
    log: Vec<usize>,
}

impl WorkerPool {
    /// Number of workers; fixed at construction.
    pub closed spec fn size(&self) -> nat {
        self.workers@.len()
    }

    /// The workers, by ordinal index.
    pub closed spec fn worker_seq(&self) -> Seq<Worker> {
        self.workers@
    }

    /// Phase of worker `w`.
    pub closed spec fn phase_of(&self, w: int) -> WorkerPhase {
        self.workers@[w].phase
    }

    /// Whether the pool still accepts jobs: shutdown has not begun.
    pub closed spec fn is_open(&self) -> bool {
        self.open
    }

    /// How many jobs were ever accepted; also the next submission index.
    pub closed spec fn n_submitted(&self) -> int {
        self.submitted as int
    }

    /// How many jobs have left the queue, claimed by some worker.  Claims
    /// happen in submission order, so the claimed indices are exactly
    /// `0 .. n_claimed()`.
    pub closed spec fn n_claimed(&self) -> int {
        self.n_submitted() - self.channel.jobs().len()
    }

    /// The submission indices of finished jobs, in completion order.
    pub closed spec fn log_seq(&self) -> Seq<usize> {
        self.log@
    }

    /// Worker `w` is currently running job `j`.
    pub closed spec fn executing(&self, w: int, j: usize) -> bool {
        0 <= w < self.size() && self.phase_of(w) == WorkerPhase::Executing(j)
    }

    /// The pool's invariant.  Established by `new`, preserved by every
    /// operation.
    pub closed spec fn wf(&self) -> bool {
        &&& self.size() >= 1
        &&& self.channel.receivers() == 1
        &&& self.channel.senders() == (if self.open {
            1nat
        } else {
            0nat
        })
        &&& self.channel.jobs().len() <= self.n_submitted()
        &&& self.channel.jobs() == id_run(self.n_claimed(), self.n_submitted())
        &&& forall|w: int|
            0 <= w < self.size() ==> (#[trigger] self.worker_seq()[w]).id == w
        &&& forall|w: int, j: usize|
            #[trigger] self.executing(w, j) ==> j < self.n_claimed() && !self.log_seq().contains(
                j,
            )
        &&& forall|w1: int, w2: int, j: usize|
            #[trigger] self.executing(w1, j) && #[trigger] self.executing(w2, j) ==> w1 == w2
        &&& self.log_seq().no_duplicates()
        &&& forall|k: int|
            0 <= k < self.log_seq().len() ==> #[trigger] self.log_seq()[k] < self.n_claimed()
        &&& forall|j: usize|
            0 <= j < self.n_claimed() && !(#[trigger] self.log_seq().contains(j)) ==> exists|
                w: int,
            | self.executing(w, j)
        &&& forall|w: int|
            0 <= w < self.size() && #[trigger] self.phase_of(w) == WorkerPhase::Stopped ==> !self.open
                && self.n_claimed() == self.n_submitted()
        &&& (self.size() == 1 ==> self.log_seq() == id_run(0, self.log_seq().len() as int))
    }

    /// Build a pool of `size` workers, each waiting on a fresh channel whose
    /// single sending endpoint the pool holds.
    pub fn new(size: usize) -> (p: WorkerPool)
        requires
            1 <= size,
        ensures
            p.wf(),
            p.size() == size,
            p.is_open(),
            p.n_submitted() == 0,
            p.n_claimed() == 0,
            p.log_seq().len() == 0,
            forall|w: int| 0 <= w < size ==> #[trigger] p.phase_of(w) == WorkerPhase::Running,
    {
        let mut workers: Vec<Worker> = Vec::new();
        let mut id: usize = 0;
        while id < size
            invariant
                id <= size,
                workers@.len() == id,
                forall|w: int|
                    0 <= w < id ==> (#[trigger] workers@[w]).id == w && workers@[w].phase
                        == WorkerPhase::Running,
            decreases size - id,
        {
            workers.push(Worker::new(id));
            id = id + 1;
        }
        let p = WorkerPool {
            workers,
            channel: JobChannel::new(),
            open: true,
            submitted: 0,
            log: Vec::new(),
        };
        proof {
            assert(p.channel.jobs() =~= id_run(p.n_claimed(), p.n_submitted()));
            assert(p.log_seq() =~= id_run(0, 0));
        }
        p
    }

    /// Hand a job to the pool.  While the pool is open the job is queued
    /// and its submission index — the name the pool knows it by — is
    /// returned.  Once shutdown has begun nothing is queued and the
    /// submitter gets an explicit error: a rejected job never runs.
    pub fn submit(&mut self) -> (r: Result<usize, SubmissionError>)
        requires
            old(self).wf(),
            old(self).n_submitted() < usize::MAX,
        ensures
            final(self).wf(),
            final(self).size() == old(self).size(),
            final(self).is_open() == old(self).is_open(),
            final(self).worker_seq() == old(self).worker_seq(),
            final(self).log_seq() == old(self).log_seq(),
            final(self).n_claimed() == old(self).n_claimed(),
            forall|v: int|
                0 <= v < final(self).size() ==> #[trigger] final(self).phase_of(v) == old(
                    self,
                ).phase_of(v),
            old(self).is_open() ==> (r matches Ok(id) && id == old(self).n_submitted())
                && final(self).n_submitted() == old(self).n_submitted() + 1,
            !old(self).is_open() ==> r == Err::<usize, SubmissionError>(SubmissionError)
                && *final(self) == *old(self),
    {
        if !self.open {
            return Err(SubmissionError);
        }
        let id = self.submitted;
        self.submitted = self.submitted + 1;
        let _sent = self.channel.send(id);
        proof {
            assert(self.channel.jobs() =~= id_run(self.n_claimed(), self.n_submitted()));
            assert(self.n_claimed() == old(self).n_claimed());
            assert forall|w: int, j: usize|
                #[trigger] self.executing(w, j) == old(self).executing(w, j) by {}
            assert forall|w: int| 0 <= w < self.size() implies #[trigger] self.phase_of(w)
                == old(self).phase_of(w) by {}
            assert forall|j: usize|
                0 <= j < self.n_claimed() && !(#[trigger] self.log_seq().contains(
                    j,
                )) implies exists|w: int| self.executing(w, j) by {
                assert(!old(self).log_seq().contains(j));
                let w = choose|w: int| old(self).executing(w, j);
                assert(self.executing(w, j));
            }
        }
        Ok(id)
    }

    /// Let worker `w`, currently waiting, poll the channel.  With jobs
    /// queued it claims the oldest one — the lowest unclaimed submission
    /// index — and starts executing it; with the queue empty it stops if
    /// the pool is closed, and otherwise keeps waiting unchanged.  Other
    /// workers are untouched: workers already executing go on executing.
    pub fn worker_receive(&mut self, w: usize) -> (r: ReceiveOutcome)
        requires
            old(self).wf(),
            w < old(self).size(),
            old(self).phase_of(w as int) == WorkerPhase::Running,
        ensures
            final(self).wf(),
            final(self).size() == old(self).size(),
            final(self).is_open() == old(self).is_open(),
            final(self).n_submitted() == old(self).n_submitted(),
            final(self).log_seq() == old(self).log_seq(),
            forall|v: int|
                0 <= v < final(self).size() && v != w ==> #[trigger] final(self).phase_of(v)
                    == old(self).phase_of(v),
            old(self).n_claimed() < old(self).n_submitted() ==> r == ReceiveOutcome::Job(
                (old(self).n_claimed()) as usize,
            ) && final(self).phase_of(w as int) == WorkerPhase::Executing(
                (old(self).n_claimed()) as usize,
            ) && final(self).n_claimed() == old(self).n_claimed() + 1,
            old(self).n_claimed() == old(self).n_submitted() && !old(self).is_open() ==> r
                == ReceiveOutcome::EndOfStream && final(self).phase_of(w as int)
                == WorkerPhase::Stopped && final(self).n_claimed() == old(self).n_claimed(),
            old(self).n_claimed() == old(self).n_submitted() && old(self).is_open() ==> r
                == ReceiveOutcome::Pending && *final(self) == *old(self),
    {
        let outcome = self.channel.receive();
        match outcome {
            ReceiveOutcome::Pending => {},
            _ => {
                let mut wk = self.workers[w];
                wk.observe(outcome);
                self.workers[w] = wk;
            },
        }
        proof {
            let c = old(self).n_claimed();
            let s = old(self).n_submitted();
            assert(old(self).channel.jobs() == id_run(c, s));
            if c < s {
                assert(old(self).channel.jobs()[0] == c as usize);
                assert(self.channel.jobs() =~= id_run(c + 1, s));
                assert(self.worker_seq() == old(self).worker_seq().update(
                    w as int,
                    (Worker { id: w, phase: WorkerPhase::Executing(c as usize) }),
                ));
            }
            assert forall|v: int| 0 <= v < self.size() && v != w implies #[trigger] self.phase_of(
                v,
            ) == old(self).phase_of(v) by {}
            assert forall|v: int, j: usize|
                #[trigger] self.executing(v, j) && v != w implies old(self).executing(v, j) by {}
            assert forall|v: int, j: usize|
                old(self).executing(v, j) implies #[trigger] self.executing(v, j) by {
                assert(v != w);
            }
            assert forall|j: usize|
                0 <= j < self.n_claimed() && !(#[trigger] self.log_seq().contains(
                    j,
                )) implies exists|v: int| self.executing(v, j) by {
                if c < s && j == c as usize {
                    assert(self.executing(w as int, j));
                } else {
                    assert(!old(self).log_seq().contains(j));
                    let v = choose|v: int| old(self).executing(v, j);
                    assert(self.executing(v, j));
                }
            }
        }
        outcome
    }

    /// Worker `w` finishes the job it is running: the job's index is
    /// appended to the execution log — it ran exactly once — and the worker
    /// goes back to waiting.  A fault inside the job body is reported to
    /// the caller, never swallowed, and never stops the worker: jobs
    /// submitted later still run on this same worker.
    pub fn worker_finish(&mut self, w: usize, faulted: bool) -> (fault: Option<JobExecutionFault>)
        requires
            old(self).wf(),
            w < old(self).size(),
            (old(self).phase_of(w as int) matches WorkerPhase::Executing(_)),
        ensures
            final(self).wf(),
            final(self).size() == old(self).size(),
            final(self).is_open() == old(self).is_open(),
            final(self).n_submitted() == old(self).n_submitted(),
            final(self).n_claimed() == old(self).n_claimed(),
            final(self).phase_of(w as int) == WorkerPhase::Running,
            forall|v: int|
                0 <= v < final(self).size() && v != w ==> #[trigger] final(self).phase_of(v)
                    == old(self).phase_of(v),
            (match old(self).phase_of(w as int) {
                WorkerPhase::Executing(j) => final(self).log_seq() == old(self).log_seq().push(j)
                    && fault == (if faulted {
                    Some((JobExecutionFault { job: j }))
                } else {
                    None::<JobExecutionFault>
                }),
                _ => false,
            }),
    {
        let mut wk = self.workers[w];
        match wk.phase {
            WorkerPhase::Executing(j) => {
                let fault = wk.complete(faulted);
                self.workers[w] = wk;
                self.log.push(j);
                proof {
                    self.lemma_finish_wf(*old(self), w as int, j);
                }
                fault
            },
            _ => None,
        }
    }

    /// All invariant bookkeeping for one job completion: `prev` is the pool
    /// just before worker `w` finished job `j`, `self` the pool just after.
    proof fn lemma_finish_wf(&self, prev: WorkerPool, w: int, j: usize)
        requires
            prev.wf(),
            0 <= w < prev.size(),
            prev.phase_of(w) == WorkerPhase::Executing(j),
            self.channel == prev.channel,
            self.open == prev.open,
            self.submitted == prev.submitted,
            self.log_seq() == prev.log_seq().push(j),
            self.worker_seq() == prev.worker_seq().update(
                w,
                (Worker { id: prev.worker_seq()[w].id, phase: WorkerPhase::Running }),
            ),
        ensures
            self.wf(),
    {
        assert(prev.executing(w, j));
        assert(!prev.log_seq().contains(j));
        assert forall|v: int| 0 <= v < self.size() && v != w implies #[trigger] self.phase_of(v)
            == prev.phase_of(v) by {}
        assert forall|x: usize| #[trigger] self.log_seq().contains(x) implies prev.log_seq().contains(
            x,
        ) || x == j by {
            let k = choose|k: int| 0 <= k < self.log_seq().len() && self.log_seq()[k] == x;
            if k < prev.log_seq().len() {
                assert(prev.log_seq()[k] == x);
            }
        }
        assert forall|x: usize| prev.log_seq().contains(x) implies #[trigger] self.log_seq().contains(
            x,
        ) by {
            let k = choose|k: int| 0 <= k < prev.log_seq().len() && prev.log_seq()[k] == x;
            assert(self.log_seq()[k] == x);
        }
        assert(self.log_seq().contains(j)) by {
            assert(self.log_seq()[prev.log_seq().len() as int] == j);
        }
        assert forall|v: int, x: usize| #[trigger] self.executing(v, x) implies prev.executing(v, x)
            && x != j by {
            assert(v != w);
            assert(prev.executing(v, x));
            if x == j {
                assert(prev.executing(w, j));
            }
        }
        assert(self.log_seq().no_duplicates()) by {
            assert forall|k1: int, k2: int|
                0 <= k1 < self.log_seq().len() && 0 <= k2 < self.log_seq().len() && k1
                    != k2 implies self.log_seq()[k1] != self.log_seq()[k2] by {
                if k1 < prev.log_seq().len() && k2 < prev.log_seq().len() {
                    assert(prev.log_seq()[k1] != prev.log_seq()[k2]);
                } else if k1 < prev.log_seq().len() {
                    assert(self.log_seq()[k2] == j && prev.log_seq()[k1] == self.log_seq()[k1]);
                    assert(prev.log_seq().contains(self.log_seq()[k1]));
                } else if k2 < prev.log_seq().len() {
                    assert(self.log_seq()[k1] == j && prev.log_seq()[k2] == self.log_seq()[k2]);
                    assert(prev.log_seq().contains(self.log_seq()[k2]));
                }
            }
        }
        assert forall|x: usize|
            0 <= x < self.n_claimed() && !(#[trigger] self.log_seq().contains(x)) implies exists|
                v: int,
            | self.executing(v, x) by {
            assert(!prev.log_seq().contains(x));
            assert(x != j);
            let v = choose|v: int| prev.executing(v, x);
            assert(v != w);
            assert(self.executing(v, x));
        }
        if self.size() == 1 {
            assert(w == 0);
            let n = prev.log_seq().len() as int;
            assert(prev.log_seq() == id_run(0, n));
            assert forall|x: usize| x < n implies prev.log_seq().contains(x) by {
                assert(prev.log_seq()[x as int] == x);
            }
            assert(j >= n) by {
                if (j as int) < n {
                    assert(prev.log_seq().contains(j));
                }
            }
            assert(j < prev.n_claimed());
            assert forall|x: usize| 0 <= x < prev.n_claimed() implies prev.log_seq().contains(x)
                || x == j by {
                if !prev.log_seq().contains(x) {
                    let v = choose|v: int| prev.executing(v, x);
                    assert(v == 0 && w == 0);
                    assert(prev.phase_of(0) == WorkerPhase::Executing(x));
                }
            }
            assert(j == n) by {
                if j > n {
                    assert(n < prev.n_claimed());
                    assert(prev.log_seq().contains(n as usize) || n as usize == j);
                    if prev.log_seq().contains(n as usize) {
                        let k = choose|k: int|
                            0 <= k < prev.log_seq().len() && prev.log_seq()[k] == n as usize;
                        assert(prev.log_seq()[k] == k as usize);
                    }
                }
            }
            assert(self.log_seq() =~= id_run(0, n + 1));
        }
    }

    /// Shut the pool down: close the sending endpoint first — no further
    /// job can be enqueued — then run every worker to completion in index
    /// order.  Does not return before the queue has fully drained: every
    /// job accepted before this call has then executed exactly once, no job
    /// is dropped and none runs twice.  All workers have exited.  Calling
    /// it again is a no-op: everything is already closed and stopped.
    /// With a single worker the log is exactly the submission order.
    pub fn shutdown(&mut self)
        requires
            old(self).wf(),
        ensures
            final(self).wf(),
            final(self).size() == old(self).size(),
            !final(self).is_open(),
            final(self).n_submitted() == old(self).n_submitted(),
            forall|w: int|
                0 <= w < final(self).size() ==> #[trigger] final(self).phase_of(w)
                    == WorkerPhase::Stopped,
            final(self).log_seq().no_duplicates(),
            forall|j: usize|
                0 <= j < final(self).n_submitted() ==> #[trigger] final(self).log_seq().contains(j),
            final(self).log_seq().len() == final(self).n_submitted(),
            forall|k: int|
                0 <= k < final(self).log_seq().len() ==> #[trigger] final(self).log_seq()[k]
                    < final(self).n_submitted(),
            old(self).log_seq().is_prefix_of(final(self).log_seq()),
            final(self).size() == 1 ==> final(self).log_seq() == id_run(
                0,
                final(self).n_submitted(),
            ),
    {
        if self.open {
            self.channel.drop_sender();
            self.open = false;
            proof {
                assert forall|w: int, j: usize|
                    #[trigger] self.executing(w, j) == old(self).executing(w, j) by {}
                assert forall|w: int| 0 <= w < self.size() implies #[trigger] self.phase_of(w)
                    == old(self).phase_of(w) by {}
                assert forall|j: usize|
                    0 <= j < self.n_claimed() && !(#[trigger] self.log_seq().contains(
                        j,
                    )) implies exists|w: int| self.executing(w, j) by {
                    assert(!old(self).log_seq().contains(j));
                    let w = choose|w: int| old(self).executing(w, j);
                    assert(self.executing(w, j));
                }
            }
        }
        let size = self.workers.len();
        let mut w: usize = 0;
        while w < size
            invariant
                self.wf(),
                !self.is_open(),
                size == self.size(),
                self.size() == old(self).size(),
                self.n_submitted() == old(self).n_submitted(),
                self.log_seq().len() >= old(self).log_seq().len(),
                forall|k: int|
                    0 <= k < old(self).log_seq().len() ==> #[trigger] self.log_seq()[k] == old(
                        self,
                    ).log_seq()[k],
                w <= size,
                forall|v: int|
                    0 <= v < w ==> #[trigger] self.phase_of(v) == WorkerPhase::Stopped,
            decreases size - w,
        {
            loop
                invariant
                    self.wf(),
                    !self.is_open(),
                    size == self.size(),
                    self.size() == old(self).size(),
                    self.n_submitted() == old(self).n_submitted(),
                    self.log_seq().len() >= old(self).log_seq().len(),
                    forall|k: int|
                        0 <= k < old(self).log_seq().len() ==> #[trigger] self.log_seq()[k] == old(
                            self,
                        ).log_seq()[k],
                    w < size,
                    forall|v: int|
                        0 <= v < w ==> #[trigger] self.phase_of(v) == WorkerPhase::Stopped,
                ensures
                    self.phase_of(w as int) == WorkerPhase::Stopped,
                decreases 2 * (self.n_submitted() - self.n_claimed()) + phase_weight(
                    self.phase_of(w as int),
                ),
            {
                let ph = self.worker_phase(w);
                match ph {
                    WorkerPhase::Stopped => { break ; },
                    WorkerPhase::Running => {
                        let _outcome = self.worker_receive(w);
                    },
                    WorkerPhase::Executing(_) => {
                        let _fault = self.worker_finish(w, false);
                    },
                }
            }
            w = w + 1;
        }
        proof {
            assert(self.phase_of(0) == WorkerPhase::Stopped);
            assert(self.n_claimed() == self.n_submitted());
            assert forall|j: usize|
                0 <= j < self.n_submitted() implies #[trigger] self.log_seq().contains(j) by {
                if !self.log_seq().contains(j) {
                    let v = choose|v: int| self.executing(v, j);
                    assert(self.phase_of(v) == WorkerPhase::Executing(j));
                    assert(self.phase_of(v) == WorkerPhase::Stopped);
                }
            }
            if self.size() == 1 {
                let n = self.log_seq().len() as int;
                assert(self.log_seq() == id_run(0, n));
                if n < self.n_submitted() {
                    assert(self.log_seq().contains(n as usize));
                    let k = choose|k: int|
                        0 <= k < self.log_seq().len() && self.log_seq()[k] == n as usize;
                    assert(self.log_seq()[k] == k as usize);
                } else if n > self.n_submitted() {
                    let s = self.n_submitted();
                    assert(self.log_seq()[s] == s as usize);
                    assert(self.log_seq()[s] < self.n_claimed());
                }
                assert(n == self.n_submitted());
            }
            assert(old(self).log_seq() =~= self.log_seq().subrange(
                0,
                old(self).log_seq().len() as int,
            ));
            lemma_distinct_below_len(self.log_seq(), self.n_submitted());
        }
    }

    /// With every worker waiting and at least as many queued jobs as
    /// workers, one receive per worker puts the whole pool to work at
    /// once: worker `v` claims job `n_claimed() + v`, and afterwards all
    /// workers hold distinct jobs in the `Executing` phase simultaneously —
    /// a pool of size `K` really has `K` jobs in flight at the same time.
    pub fn claim_all(&mut self)
        requires
            old(self).wf(),
            forall|v: int|
                0 <= v < old(self).size() ==> #[trigger] old(self).phase_of(v)
                    == WorkerPhase::Running,
            old(self).n_submitted() - old(self).n_claimed() >= old(self).size(),
        ensures
            final(self).wf(),
            final(self).size() == old(self).size(),
            final(self).is_open() == old(self).is_open(),
            final(self).n_submitted() == old(self).n_submitted(),
            final(self).log_seq() == old(self).log_seq(),
            final(self).n_claimed() == old(self).n_claimed() + final(self).size(),
            forall|v: int|
                0 <= v < final(self).size() ==> #[trigger] final(self).phase_of(v)
                    == WorkerPhase::Executing(((old(self).n_claimed() + v) as usize)),
    {
        let size = self.workers.len();
        let mut w: usize = 0;
        while w < size
            invariant
                self.wf(),
                size == self.size(),
                self.size() == old(self).size(),
                self.is_open() == old(self).is_open(),
                self.n_submitted() == old(self).n_submitted(),
                self.log_seq() == old(self).log_seq(),
                w <= size,
                self.n_claimed() == old(self).n_claimed() + w,
                self.n_submitted() - old(self).n_claimed() >= size,
                forall|v: int|
                    0 <= v < w ==> #[trigger] self.phase_of(v) == WorkerPhase::Executing(
                        ((old(self).n_claimed() + v) as usize),
                    ),
                forall|v: int|
                    w <= v < size ==> #[trigger] self.phase_of(v) == WorkerPhase::Running,
            decreases size - w,
        {
            let _outcome = self.worker_receive(w);
            w = w + 1;
        }
    }

    /// Number of workers.
    pub fn worker_count(&self) -> (n: usize)
        ensures
            n == self.size(),
    {
        self.workers.len()
    }

    /// Whether the pool still accepts jobs.
    pub fn accepting(&self) -> (b: bool)
        ensures
            b == self.is_open(),
    {
        self.open
    }

    /// How many jobs were ever accepted.
    pub fn submitted_count(&self) -> (n: usize)
        ensures
            n == self.n_submitted(),
    {
        self.submitted
    }

    /// How many jobs have finished executing.
    pub fn executed_count(&self) -> (n: usize)
        ensures
            n == self.log_seq().len(),
    {
        self.log.len()
    }

    /// The finished jobs' submission indices, in completion order.
    pub fn executed(&self) -> (l: &Vec<usize>)
        ensures
            l@ == self.log_seq(),
    {
        &self.log
    }

    /// How many accepted jobs are still queued, not yet claimed.
    pub fn queued_count(&self) -> (n: usize)
        ensures
            n == self.n_submitted() - self.n_claimed(),
    {
        self.channel.pending()
    }

    /// Phase of worker `w`.
    pub fn worker_phase(&self, w: usize) -> (p: WorkerPhase)
        requires
            w < self.size(),
        ensures
            p == self.phase_of(w as int),
    {
        self.workers[w].phase
    }
}

} // verus!
