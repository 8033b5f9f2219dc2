//! The job queue as a state machine: what submitting, starting, ending, cancelling and
//! retrying a job does to the queue, and which jobs are to be run next because of it.
//!
//! Running a job is not done here. Whoever runs jobs calls [`JobManager::begin`] before
//! and [`JobManager::finish`] after, reports what those hand back, and runs the jobs that
//! they name.
use crate::jobs;
use crate::jobs::{
    apply_event, blocks_maintenance, buffer_event, is_cancellable, is_invalidation_error,
    job_uses_network, offline_gate_blocks, uses_appender, JobState, JobStatus, OFFLINE_RETRY_MS,
};
use crate::params;
use crate::params::Params;
use crate::reporter::{clone_opt, JobEvent, Report};
use crate::text;
use crate::text::{decimal, same};
use vstd::prelude::*;
use vstd::string::*;

verus! {

/// A submitted job.
pub struct JobSlot {
    pub id: String,
    pub job_type: String,
    /// When the job came, counted.
    pub seq: u64,
    /// Jobs submitted together share a cluster; a job on its own is a cluster of its own.
    pub cluster: String,
    pub params: Params,
    /// Whether the process may be killed while the job writes.
    pub interruptible: bool,
    pub state: JobState,
    /// The last events, for clients that join late.
    pub buffer: Vec<JobEvent>,
    /// The job has been asked to stop.
    pub cancel: bool,
    /// Counts the retries that were scheduled or called off, so that a timer that was
    /// overtaken can tell.
    pub retry_gen: u64,
}

/// What a client sees of a job.
pub struct JobSnapshot {
    pub id: String,
    pub job_type: String,
    pub status: String,
    pub value: u64,
    pub total: u64,
    pub message: String,
    pub interruptible: bool,
    pub cancellable: bool,
    pub path: Option<String>,
    pub error: Option<String>,
    pub started_at: Option<u64>,
    pub ended_at: Option<u64>,
    pub retry_at: Option<u64>,
}

/// The queue.
pub struct JobManager {
    /// All jobs, in the order in which they came.
    pub jobs: Vec<JobSlot>,
    /// The next number for a job or a batch.
    pub counter: u64,
    /// The database connections are being reopened.
    pub reopening: bool,
    /// A maintenance pass is owed.
    pub maintenance: bool,
    /// Jobs that stay queued behind a stuck one, as positions in `jobs`.
    pub held: Vec<usize>,
    /// The one network job that is paused because the machine is offline.
    pub offline_leader: Option<usize>,
}

/// How a job's run ended.
pub enum Outcome {
    Finished,
    /// With its message, and whether the cause was a lost connection.
    Failed { message: String, offline: bool },
}

/// What is to be done with a job whose turn has come.
pub enum Begin {
    /// Nothing but report that it was cancelled.
    Skip(Report),
    /// Nothing: it is held.
    Hold,
    Run,
}

/// What is to be done once a job's run has ended.
pub struct Finish {
    /// What to report; nothing for a job that went back into the queue.
    pub report: Option<Report>,
    /// The jobs to run again, as positions.
    pub dispatch: Vec<usize>,
    /// Start a timer for a retry, which is to say this number when it fires.
    pub retry: Option<u64>,
    /// Reopen the database connections.
    pub reopen: bool,
}

// ── What the queue is like ───────────────────────────────────────────────────

pub open spec fn job_id(seq: u64) -> Seq<char> {
    "job-"@ + text::dec(seq as nat)
}

pub open spec fn batch_id(seq: u64) -> Seq<char> {
    "batch-"@ + text::dec(seq as nat)
}

pub open spec fn slot_ok(j: JobSlot, counter: u64) -> bool {
    &&& j.id@ == job_id(j.seq)
    &&& j.seq < counter
    &&& j.buffer@.len() <= jobs::EVENT_BUFFER_CAP
    &&& j.interruptible == !jobs::appends(j.job_type@, params::param_flag(j.params, "fast"@))
}

impl JobManager {
    /// Jobs are numbered in the order in which they came; held jobs and the paused one
    /// are among them; the paused one uses the network; and nothing is held unless one
    /// is paused.
    pub open spec fn wf(&self) -> bool {
        &&& forall|i: int| 0 <= i < self.jobs@.len() ==> slot_ok(#[trigger] self.jobs@[i], self.counter)
        &&& forall|i: int, j: int|
            0 <= i < j < self.jobs@.len() ==> (#[trigger] self.jobs@[i]).seq < (
            #[trigger] self.jobs@[j]).seq
        &&& forall|k: int| 0 <= k < self.held@.len() ==> #[trigger] self.held@[k] < self.jobs@.len()
        &&& self.offline_leader is Some ==> self.offline_leader->0 < self.jobs@.len()
            && jobs::uses_network(self.jobs@[self.offline_leader->0 as int].job_type@)
        &&& self.offline_leader is None ==> self.held@.len() == 0
    }

    /// Job `k` blocks job `j`.
    pub open spec fn blocked_by(&self, j: int, k: int) -> bool {
        let a = self.jobs@[k];
        let b = self.jobs@[j];
        jobs::blocks(
            a.seq,
            a.cluster@,
            jobs::uses_network(a.job_type@),
            b.seq,
            b.cluster@,
            jobs::uses_network(b.job_type@),
        )
    }

    /// Job `k` is stuck: it is the paused one, or it is held.
    pub open spec fn is_stuck(&self, k: int) -> bool {
        ||| self.offline_leader is Some && self.offline_leader->0 == k
        ||| exists|h: int| 0 <= h < self.held@.len() && #[trigger] self.held@[h] == k
    }

    /// Job `j` has to stay queued: a stuck job blocks it.
    pub open spec fn must_hold(&self, j: int) -> bool {
        exists|k: int| #[trigger] self.is_stuck(k) && self.blocked_by(j, k)
    }

    /// Everything but job `j` is as it was in `before`, and so is what a job keeps for
    /// life.
    pub open spec fn only_job_changed(&self, before: JobManager, j: int) -> bool {
        &&& self.jobs@.len() == before.jobs@.len()
        &&& self.counter == before.counter
        &&& forall|i: int|
            0 <= i < self.jobs@.len() && i != j ==> #[trigger] self.jobs@[i] == before.jobs@[i]
        &&& 0 <= j < self.jobs@.len() ==> same_job(self.jobs@[j], before.jobs@[j])
    }
}

/// What a job keeps for life.
pub open spec fn same_job(a: JobSlot, b: JobSlot) -> bool {
    &&& a.id == b.id
    &&& a.job_type == b.job_type
    &&& a.seq == b.seq
    &&& a.cluster == b.cluster
    &&& a.params == b.params
    &&& a.interruptible == b.interruptible
}

/// The state of a job that goes back into the queue, with nothing to say.
pub open spec fn requeued(a: JobState, b: JobState) -> bool {
    &&& b.status is Queued
    &&& b.message@.len() == 0
    &&& b.retry_at is None
    &&& b.value == a.value && b.total == a.total && b.path == a.path && b.error == a.error
        && b.started_at == a.started_at && b.ended_at == a.ended_at
}

/// The positions among `held` whose jobs have not been asked to stop, in order.
pub open spec fn still_wanted(all: Seq<JobSlot>, held: Seq<usize>) -> Seq<usize> {
    held.filter(|h: usize| !all[h as int].cancel)
}

/// A job as it is when it has just come.
pub open spec fn new_slot(
    j: JobSlot,
    seq: u64,
    job_type: Seq<char>,
    p: Params,
    cluster: Option<Seq<char>>,
) -> bool {
    &&& j.seq == seq
    &&& j.id@ == job_id(seq)
    &&& j.job_type@ == job_type
    &&& j.params == p
    &&& j.cluster@ == (match cluster {
        Some(c) => c,
        None => job_id(seq),
    })
    &&& j.interruptible == !jobs::appends(job_type, params::param_flag(p, "fast"@))
    &&& jobs::is_fresh(j.state)
    &&& j.buffer@.len() == 0
    &&& !j.cancel
    &&& j.retry_gen == 0
}

fn numbered(prefix: &str, n: u64) -> (s: String)
    ensures
        s@ == prefix@ + text::dec(n as nat),
{
    let mut out: String = prefix.to_owned();
    let d: String = decimal(n);
    out.append(d.as_str());
    out
}

impl JobManager {
    pub fn new() -> (m: JobManager)
        ensures
            m.wf(),
            m.jobs@.len() == 0,
            m.counter == 1,
            !m.reopening,
            !m.maintenance,
            m.held@.len() == 0,
            m.offline_leader is None,
    {
        JobManager {
            jobs: Vec::new(),
            counter: 1,
            reopening: false,
            maintenance: false,
            held: Vec::new(),
            offline_leader: None,
        }
    }

    // ── Submitting ───────────────────────────────────────────────────────────

    /// A fresh cluster id for a batch of jobs that are to wait for each other.
    pub fn next_cluster_id(&mut self) -> (id: String)
        requires
            old(self).wf(),
            old(self).counter < u64::MAX,
        ensures
            final(self).wf(),
            id@ == batch_id(old(self).counter),
            final(self).counter == old(self).counter + 1,
            final(self).jobs == old(self).jobs,
            final(self).held == old(self).held,
            final(self).offline_leader == old(self).offline_leader,
            final(self).maintenance == old(self).maintenance,
            final(self).reopening == old(self).reopening,
    {
        let id: String = numbered("batch-", self.counter);
        self.counter = self.counter + 1;
        id
    }

    /// Enqueues a job on its own and returns its id. It is at the end of `jobs`, and to
    /// be run.
    pub fn submit(&mut self, job_type: String, p: Params) -> (id: String)
        requires
            old(self).wf(),
            old(self).counter < u64::MAX,
        ensures
            final(self).wf(),
            id@ == job_id(old(self).counter),
            final(self).counter == old(self).counter + 1,
            final(self).jobs@.len() == old(self).jobs@.len() + 1,
            final(self).jobs@.drop_last() == old(self).jobs@,
            new_slot(final(self).jobs@.last(), old(self).counter, job_type@, p, None),
            final(self).held == old(self).held,
            final(self).offline_leader == old(self).offline_leader,
            final(self).maintenance == old(self).maintenance,
            final(self).reopening == old(self).reopening,
    {
        self.submit_in_cluster(job_type, p, None)
    }

    /// Enqueues a job in a cluster, so that later jobs of the cluster wait for it while
    /// it is stuck; without one the job is its own cluster.
    pub fn submit_in_cluster(&mut self, job_type: String, p: Params, cluster: Option<String>) -> (id:
        String)
        requires
            old(self).wf(),
            old(self).counter < u64::MAX,
        ensures
            final(self).wf(),
            id@ == job_id(old(self).counter),
            final(self).counter == old(self).counter + 1,
            final(self).jobs@.len() == old(self).jobs@.len() + 1,
            final(self).jobs@.drop_last() == old(self).jobs@,
            new_slot(
                final(self).jobs@.last(),
                old(self).counter,
                job_type@,
                p,
                crate::reporter::opt_text(cluster),
            ),
            final(self).held == old(self).held,
            final(self).offline_leader == old(self).offline_leader,
            final(self).maintenance == old(self).maintenance,
            final(self).reopening == old(self).reopening,
    {
        let seq: u64 = self.counter;
        let id: String = numbered("job-", seq);
        self.counter = seq + 1;
        let interruptible: bool = !uses_appender(job_type.as_str(), p.flag("fast"));
        let cluster: String = match cluster {
            Some(c) => c,
            None => id.clone(),
        };
        let slot = JobSlot {
            id: id.clone(),
            job_type,
            seq,
            cluster,
            params: p,
            interruptible,
            state: JobState::queued(),
            buffer: Vec::new(),
            cancel: false,
            retry_gen: 0,
        };
        let ghost before = self.jobs@;
        self.jobs.push(slot);
        assert(self.jobs@.drop_last() =~= before);
        id
    }

    // ── Looking ──────────────────────────────────────────────────────────────

    /// The position of the job with the given id.
    pub fn get(&self, id: &str) -> (r: Option<usize>)
        ensures
            match r {
                Some(i) => i < self.jobs@.len() && self.jobs@[i as int].id@ == id@,
                None => forall|i: int|
                    0 <= i < self.jobs@.len() ==> (#[trigger] self.jobs@[i]).id@ != id@,
            },
    {
        let mut i: usize = 0;
        while i < self.jobs.len()
            invariant
                i <= self.jobs.len(),
                forall|k: int| 0 <= k < i ==> (#[trigger] self.jobs@[k]).id@ != id@,
            decreases self.jobs.len() - i,
        {
            if same(self.jobs[i].id.as_str(), id) {
                return Some(i);
            }
            i += 1;
        }
        None
    }

    /// What a client sees of the job at `j`.
    pub fn snapshot_at(&self, j: usize) -> (s: JobSnapshot)
        requires
            j < self.jobs@.len(),
        ensures
            shows(s, self.jobs@[j as int]),
    {
        let slot: &JobSlot = &self.jobs[j];
        JobSnapshot {
            id: slot.id.clone(),
            job_type: slot.job_type.clone(),
            status: slot.state.status.name(),
            value: slot.state.value,
            total: slot.state.total,
            message: slot.state.message.clone(),
            interruptible: slot.interruptible,
            cancellable: is_cancellable(slot.job_type.as_str()),
            path: clone_opt(&slot.state.path),
            error: clone_opt(&slot.state.error),
            started_at: slot.state.started_at,
            ended_at: slot.state.ended_at,
            retry_at: slot.state.retry_at,
        }
    }

    /// What a client sees of the job with the given id.
    pub fn snapshot(&self, id: &str) -> (s: Option<JobSnapshot>)
        ensures
            match s {
                Some(s) => exists|i: int|
                    0 <= i < self.jobs@.len() && (#[trigger] self.jobs@[i]).id@ == id@ && shows(
                        s,
                        self.jobs@[i],
                    ),
                None => forall|i: int|
                    0 <= i < self.jobs@.len() ==> (#[trigger] self.jobs@[i]).id@ != id@,
            },
    {
        match self.get(id) {
            Some(i) => Some(self.snapshot_at(i)),
            None => None,
        }
    }

    /// What a client sees of all jobs, in the order in which they came.
    pub fn list(&self) -> (out: Vec<JobSnapshot>)
        ensures
            out@.len() == self.jobs@.len(),
            forall|i: int| 0 <= i < out@.len() ==> shows(#[trigger] out@[i], self.jobs@[i]),
    {
        let mut out: Vec<JobSnapshot> = Vec::new();
        let mut i: usize = 0;
        while i < self.jobs.len()
            invariant
                i <= self.jobs.len(),
                out@.len() == i,
                forall|k: int| 0 <= k < i ==> shows(#[trigger] out@[k], self.jobs@[k]),
            decreases self.jobs.len() - i,
        {
            out.push(self.snapshot_at(i));
            i += 1;
        }
        out
    }

    // ── Events ───────────────────────────────────────────────────────────────

    /// Brings an event of job `j` into its state and its buffer.
    pub fn record_event(&mut self, j: usize, ev: &JobEvent, now: u64)
        requires
            old(self).wf(),
            j < old(self).jobs@.len(),
        ensures
            final(self).wf(),
            final(self).only_job_changed(*old(self), j as int),
            jobs::after_event(
                old(self).jobs@[j as int].state,
                *ev,
                now,
                final(self).jobs@[j as int].state,
            ),
            final(self).jobs@[j as int].buffer@ == jobs::buffered(
                old(self).jobs@[j as int].buffer@,
                *ev,
            ),
            final(self).jobs@[j as int].cancel == old(self).jobs@[j as int].cancel,
            final(self).jobs@[j as int].retry_gen == old(self).jobs@[j as int].retry_gen,
            final(self).held == old(self).held,
            final(self).offline_leader == old(self).offline_leader,
            final(self).maintenance == old(self).maintenance,
            final(self).reopening == old(self).reopening,
    {
        apply_event(&mut self.jobs[j].state, ev, now);
        let copy: JobEvent = ev.clone();
        buffer_event(&mut self.jobs[j].buffer, copy);
    }
}

/// What a client sees of a job.
pub open spec fn shows(s: JobSnapshot, j: JobSlot) -> bool {
    &&& s.id@ == j.id@
    &&& s.job_type@ == j.job_type@
    &&& s.status@ == jobs::status_text(j.state.status)
    &&& s.value == j.state.value
    &&& s.total == j.state.total
    &&& s.message@ == j.state.message@
    &&& s.interruptible == j.interruptible
    &&& s.cancellable == jobs::stops_midway(j.job_type@)
    &&& s.path == j.state.path
    &&& s.error == j.state.error
    &&& s.started_at == j.state.started_at
    &&& s.ended_at == j.state.ended_at
    &&& s.retry_at == j.state.retry_at
}


// ── Running ──────────────────────────────────────────────────────────────────

/// Nothing about the queue but the paused job, the held ones and job `j` is different.
pub open spec fn queue_kept(a: JobManager, b: JobManager, j: int) -> bool {
    &&& b.only_job_changed(a, j)
    &&& b.maintenance == a.maintenance
}

/// The paused job, if there was one, is let go, and the held jobs with it.
pub open spec fn is_released(a: JobManager, b: JobManager, dispatch: Seq<usize>) -> bool {
    &&& b.offline_leader is None
    &&& b.held@.len() == 0
    &&& dispatch == still_wanted(b.jobs@, a.held@)
}

/// The paused job and the held ones are as they were.
pub open spec fn is_kept_paused(a: JobManager, b: JobManager, dispatch: Seq<usize>) -> bool {
    &&& b.offline_leader == a.offline_leader
    &&& b.held == a.held
    &&& dispatch.len() == 0
}

impl JobManager {
    /// Whether job `j` has to stay queued because a stuck job that came before it is of
    /// its cluster, or because both use the network.
    pub fn gate_should_hold(&self, j: usize) -> (b: bool)
        requires
            self.wf(),
            j < self.jobs@.len(),
        ensures
            b == self.must_hold(j as int),
    {
        let mut stuck: Vec<(u64, &str, bool)> = Vec::new();
        let mut at: Ghost<Seq<int>> = Ghost(Seq::empty());
        if let Some(l) = self.offline_leader {
            let slot: &JobSlot = &self.jobs[l];
            stuck.push((slot.seq, slot.cluster.as_str(), job_uses_network(slot.job_type.as_str())));
            proof {
                at@ = at@.push(l as int);
            }
        }
        let ghost lead = at@.len();
        let mut i: usize = 0;
        while i < self.held.len()
            invariant
                self.wf(),
                i <= self.held.len(),
                at@.len() == stuck@.len(),
                at@.len() == lead + i,
                lead == (if self.offline_leader is Some {
                    1nat
                } else {
                    0nat
                }),
                self.offline_leader is Some ==> at@[0] == self.offline_leader->0,
                forall|h: int| 0 <= h < i ==> at@[lead + h] == #[trigger] self.held@[h],
                forall|k: int|
                    0 <= k < at@.len() ==> {
                        &&& 0 <= #[trigger] at@[k] < self.jobs@.len()
                        &&& self.is_stuck(at@[k])
                        &&& stuck@[k].0 == self.jobs@[at@[k]].seq
                        &&& stuck@[k].1@ == self.jobs@[at@[k]].cluster@
                        &&& stuck@[k].2 == jobs::uses_network(self.jobs@[at@[k]].job_type@)
                    },
            decreases self.held.len() - i,
        {
            let h: usize = self.held[i];
            let slot: &JobSlot = &self.jobs[h];
            stuck.push((slot.seq, slot.cluster.as_str(), job_uses_network(slot.job_type.as_str())));
            proof {
                assert(self.is_stuck(self.held@[i as int] as int));
                at@ = at@.push(h as int);
            }
            i += 1;
        }
        let job: &JobSlot = &self.jobs[j];
        let b: bool = offline_gate_blocks(
            job.seq,
            job.cluster.as_str(),
            job_uses_network(job.job_type.as_str()),
            &stuck,
        );
        proof {
            if b {
                let k = choose|k: int|
                    0 <= k < stuck@.len() && jobs::blocks(
                        (#[trigger] stuck@[k]).0,
                        stuck@[k].1@,
                        stuck@[k].2,
                        job.seq,
                        job.cluster@,
                        jobs::uses_network(job.job_type@),
                    );
                assert(self.is_stuck(at@[k]) && self.blocked_by(j as int, at@[k]));
            }
            if self.must_hold(j as int) {
                let k = choose|k: int| #[trigger] self.is_stuck(k) && self.blocked_by(j as int, k);
                if self.offline_leader is Some && self.offline_leader->0 == k {
                    assert(at@[0] == k);
                    assert(stuck@[0].0 == self.jobs@[k].seq);
                } else {
                    let h = choose|h: int| 0 <= h < self.held@.len() && #[trigger] self.held@[h] == k;
                    assert(at@[lead + h] == k);
                    assert(stuck@[lead + h].0 == self.jobs@[k].seq);
                }
            }
        }
        b
    }

    /// Job `j`'s turn has come. If it was asked to stop it is skipped; if a stuck job
    /// blocks it, it stays queued and is held; else it starts.
    pub fn begin(&mut self, j: usize, now: u64) -> (r: Begin)
        requires
            old(self).wf(),
            j < old(self).jobs@.len(),
        ensures
            final(self).wf(),
            queue_kept(*old(self), *final(self), j as int),
            final(self).reopening == old(self).reopening,
            final(self).offline_leader == old(self).offline_leader,
            final(self).jobs@[j as int].cancel == old(self).jobs@[j as int].cancel,
            final(self).jobs@[j as int].retry_gen == old(self).jobs@[j as int].retry_gen,
            final(self).jobs@[j as int].buffer == old(self).jobs@[j as int].buffer,
            if old(self).jobs@[j as int].cancel {
                &&& r matches Begin::Skip(Report::Cancelled { message }) && message@
                    == "Cancelled before it started"@
                &&& final(self).jobs@ == old(self).jobs@
                &&& final(self).held == old(self).held
            } else if old(self).must_hold(j as int) {
                &&& r is Hold
                &&& requeued(old(self).jobs@[j as int].state, final(self).jobs@[j as int].state)
                &&& final(self).held@ == old(self).held@.push(j)
            } else {
                &&& r is Run
                &&& final(self).held == old(self).held
                &&& is_started(
                    old(self).jobs@[j as int].state,
                    final(self).jobs@[j as int].state,
                    now,
                )
            },
    {
        if self.jobs[j].cancel {
            return Begin::Skip(
                Report::Cancelled { message: "Cancelled before it started".to_owned() },
            );
        }
        if self.gate_should_hold(j) {
            proof {
                let k = choose|k: int| #[trigger] self.is_stuck(k) && self.blocked_by(j as int, k);
                assert(self.offline_leader is Some);
            }
            self.requeue(j);
            return Begin::Hold;
        }
        self.jobs[j].state.status = JobStatus::Running;
        self.jobs[j].state.started_at = Some(now);
        self.jobs[j].state.retry_at = None;
        Begin::Run
    }

    /// Puts job `j` back into the queue, held behind a stuck one.
    fn requeue(&mut self, j: usize)
        requires
            old(self).wf(),
            j < old(self).jobs@.len(),
            old(self).offline_leader is Some,
        ensures
            final(self).wf(),
            queue_kept(*old(self), *final(self), j as int),
            final(self).reopening == old(self).reopening,
            final(self).offline_leader == old(self).offline_leader,
            final(self).held@ == old(self).held@.push(j),
            requeued(old(self).jobs@[j as int].state, final(self).jobs@[j as int].state),
            final(self).jobs@[j as int].cancel == old(self).jobs@[j as int].cancel,
            final(self).jobs@[j as int].retry_gen == old(self).jobs@[j as int].retry_gen,
            final(self).jobs@[j as int].buffer == old(self).jobs@[j as int].buffer,
    {
        self.jobs[j].state.status = JobStatus::Queued;
        self.jobs[j].state.message = String::new();
        self.jobs[j].state.retry_at = None;
        self.held.push(j);
    }

    /// Lets the paused job go and hands back the held jobs, which are to be run: all of
    /// them but those that were asked to stop meanwhile.
    pub fn release_held(&mut self) -> (dispatch: Vec<usize>)
        requires
            old(self).wf(),
        ensures
            final(self).wf(),
            is_released(*old(self), *final(self), dispatch@),
            final(self).jobs == old(self).jobs,
            final(self).counter == old(self).counter,
            final(self).maintenance == old(self).maintenance,
            final(self).reopening == old(self).reopening,
    {
        self.offline_leader = None;
        let mut dispatch: Vec<usize> = Vec::new();
        let mut i: usize = 0;
        let ghost held = self.held@;
        let ghost all = self.jobs@;
        let ghost wanted = |h: usize| !all[h as int].cancel;
        while i < self.held.len()
            invariant
                i <= self.held.len(),
                self.held@ == held,
                self.jobs@ == all,
                self.jobs == old(self).jobs,
                self.counter == old(self).counter,
                self.maintenance == old(self).maintenance,
                self.reopening == old(self).reopening,
                self.offline_leader is None,
                wanted == (|h: usize| !all[h as int].cancel),
                forall|k: int| 0 <= k < held.len() ==> #[trigger] held[k] < all.len(),
                dispatch@ == held.take(i as int).filter(wanted),
            decreases self.held.len() - i,
        {
            let h: usize = self.held[i];
            proof {
                let now = held.take(i + 1);
                assert(now.drop_last() =~= held.take(i as int));
                assert(now.last() == h);
                reveal(Seq::filter);
            }
            if !self.jobs[h].cancel {
                dispatch.push(h);
            }
            i += 1;
        }
        assert(held.take(i as int) =~= held);
        self.held = Vec::new();
        dispatch
    }

    /// Notes that a retry of job `j` comes after `delay_ms`, and returns the number that
    /// its timer is to say.
    fn schedule_retry(&mut self, j: usize, now: u64, delay_ms: u64) -> (gen: u64)
        requires
            old(self).wf(),
            j < old(self).jobs@.len(),
            now + delay_ms <= u64::MAX,
        ensures
            final(self).wf(),
            queue_kept(*old(self), *final(self), j as int),
            final(self).reopening == old(self).reopening,
            final(self).offline_leader == old(self).offline_leader,
            final(self).held == old(self).held,
            gen == old(self).jobs@[j as int].retry_gen.wrapping_add(1),
            final(self).jobs@[j as int].retry_gen == gen,
            final(self).jobs@[j as int].cancel == old(self).jobs@[j as int].cancel,
            final(self).jobs@[j as int].buffer == old(self).jobs@[j as int].buffer,
            final(self).jobs@[j as int].state == (JobState {
                retry_at: Some((now + delay_ms) as u64),
                ..old(self).jobs@[j as int].state
            }),
    {
        let gen: u64 = self.jobs[j].retry_gen.wrapping_add(1);
        self.jobs[j].retry_gen = gen;
        self.jobs[j].state.retry_at = Some(now + delay_ms);
        gen
    }

    /// Job `j`'s run has ended.
    ///
    /// A job that stopped because it was asked to is cancelled. A network job that got
    /// through proves that the connection is back, so everything held is let go. A
    /// network job that lost its connection pauses and is retried, unless another one is
    /// paused already, behind which it is then held. Any other failure is an error, and
    /// if the job was the paused one everything held behind it is let go; a failure that
    /// killed the database instance has its connections reopened, once.
    pub fn finish(&mut self, j: usize, outcome: Outcome, now: u64) -> (r: Finish)
        requires
            old(self).wf(),
            j < old(self).jobs@.len(),
            now + OFFLINE_RETRY_MS <= u64::MAX,
        ensures
            final(self).wf(),
            queue_kept(*old(self), *final(self), j as int),
            final(self).jobs@[j as int].cancel == old(self).jobs@[j as int].cancel,
            final(self).jobs@[j as int].buffer == old(self).jobs@[j as int].buffer,
            ({
                let before = *old(self);
                let after = *final(self);
                let job = before.jobs@[j as int];
                let net = jobs::uses_network(job.job_type@);
                match outcome {
                    Outcome::Finished => {
                        &&& after.jobs@ == before.jobs@
                        &&& after.reopening == before.reopening
                        &&& !r.reopen && r.retry is None
                        &&& if job.cancel {
                            &&& r.report matches Some(Report::Cancelled { message }) && message@ == "Cancelled"@
                            &&& is_kept_paused(before, after, r.dispatch@)
                        } else if net {
                            &&& r.report matches Some(Report::Done { message }) && message@ == ""@
                            &&& is_released(before, after, r.dispatch@)
                        } else {
                            &&& r.report matches Some(Report::Done { message }) && message@ == ""@
                            &&& is_kept_paused(before, after, r.dispatch@)
                        }
                    },
                    Outcome::Failed { message, offline } => if net && offline && !job.cancel {
                        &&& after.reopening == before.reopening
                        &&& !r.reopen
                        &&& r.dispatch@.len() == 0
                        &&& if before.offline_leader is None || before.offline_leader == Some(j) {
                            &&& r.report matches Some(Report::Waiting { message }) && message@ == "Offline — waiting for a connection; will retry"@
                            &&& after.offline_leader == Some(j)
                            &&& after.held == before.held
                            &&& r.retry == Some(job.retry_gen.wrapping_add(1))
                            &&& after.jobs@[j as int].retry_gen == job.retry_gen.wrapping_add(1)
                            &&& after.jobs@[j as int].state == (JobState {
                                retry_at: Some((now + OFFLINE_RETRY_MS) as u64),
                                ..job.state
                            })
                        } else {
                            &&& r.report is None
                            &&& r.retry is None
                            &&& after.offline_leader == before.offline_leader
                            &&& after.held@ == before.held@.push(j)
                            &&& after.jobs@[j as int].retry_gen == job.retry_gen
                            &&& requeued(job.state, after.jobs@[j as int].state)
                        }
                    } else {
                        let dead = text::contains(text::lowercase(message@), "invalidated"@);
                        &&& after.jobs@ == before.jobs@
                        &&& r.report matches Some(Report::Error { message: m }) && m@ == message@
                        &&& r.retry is None
                        &&& r.reopen == (dead && !before.reopening)
                        &&& after.reopening == (dead || before.reopening)
                        &&& if net && before.offline_leader == Some(j) {
                            is_released(before, after, r.dispatch@)
                        } else {
                            is_kept_paused(before, after, r.dispatch@)
                        }
                    },
                }
            }),
    {
        let net: bool = job_uses_network(self.jobs[j].job_type.as_str());
        let cancelled: bool = self.jobs[j].cancel;
        match outcome {
            Outcome::Finished => {
                if cancelled {
                    Finish {
                        report: Some(Report::Cancelled { message: "Cancelled".to_owned() }),
                        dispatch: Vec::new(),
                        retry: None,
                        reopen: false,
                    }
                } else {
                    let dispatch: Vec<usize> = if net {
                        self.release_held()
                    } else {
                        Vec::new()
                    };
                    Finish {
                        report: Some(Report::Done { message: "".to_owned() }),
                        dispatch,
                        retry: None,
                        reopen: false,
                    }
                }
            },
            Outcome::Failed { message, offline } => {
                if net && offline && !cancelled {
                    let lead: bool = match self.offline_leader {
                        None => {
                            self.offline_leader = Some(j);
                            true
                        },
                        Some(l) => l == j,
                    };
                    if lead {
                        let gen: u64 = self.schedule_retry(j, now, OFFLINE_RETRY_MS);
                        Finish {
                            report: Some(
                                Report::Waiting {
                                    message: "Offline — waiting for a connection; will retry".to_owned(),
                                },
                            ),
                            dispatch: Vec::new(),
                            retry: Some(gen),
                            reopen: false,
                        }
                    } else {
                        self.requeue(j);
                        Finish { report: None, dispatch: Vec::new(), retry: None, reopen: false }
                    }
                } else {
                    let mut reopen: bool = false;
                    if is_invalidation_error(message.as_str()) && !self.reopening {
                        self.reopening = true;
                        reopen = true;
                    }
                    let leads: bool = match self.offline_leader {
                        Some(l) => l == j,
                        None => false,
                    };
                    let dispatch: Vec<usize> = if net && leads {
                        self.release_held()
                    } else {
                        Vec::new()
                    };
                    Finish { report: Some(Report::Error { message }), dispatch, retry: None, reopen }
                }
            },
        }
    }

    /// The database connections are live again.
    pub fn reopened(&mut self)
        requires
            old(self).wf(),
        ensures
            final(self).wf(),
            *final(self) == (JobManager { reopening: false, ..*old(self) }),
    {
        self.reopening = false;
    }

    // ── Stopping and retrying ────────────────────────────────────────────────

    /// Asks the job with the given id to stop. One that has not started, or is paused,
    /// is cancelled at once; a running one stops on its next boundary. If it was the
    /// paused one, everything held behind it is let go. Returns whether there is such a
    /// job, and the jobs that are to be run.
    pub fn cancel(&mut self, id: &str, now: u64) -> (r: (bool, Vec<usize>))
        requires
            old(self).wf(),
        ensures
            final(self).wf(),
            final(self).maintenance == old(self).maintenance,
            final(self).reopening == old(self).reopening,
            !r.0 ==> *final(self) == *old(self) && r.1@.len() == 0 && forall|i: int|
                0 <= i < old(self).jobs@.len() ==> (#[trigger] old(self).jobs@[i]).id@ != id@,
            r.0 ==> exists|j: int|
                0 <= j < old(self).jobs@.len() && (#[trigger] old(self).jobs@[j]).id@ == id@
                    && is_cancelled(*old(self), *final(self), j, now, r.1@),
    {
        match self.get(id) {
            None => (false, Vec::new()),
            Some(j) => {
                self.jobs[j].cancel = true;
                self.jobs[j].retry_gen = self.jobs[j].retry_gen.wrapping_add(1);
                if self.jobs[j].state.status == JobStatus::Queued || self.jobs[j].state.status
                    == JobStatus::Waiting {
                    self.jobs[j].state.status = JobStatus::Cancelled;
                    self.jobs[j].state.message = "Cancelled".to_owned();
                    self.jobs[j].state.ended_at = Some(now);
                    self.jobs[j].state.retry_at = None;
                }
                let leads: bool = match self.offline_leader {
                    Some(l) => l == j,
                    None => false,
                };
                let dispatch: Vec<usize> = if leads {
                    self.release_held()
                } else {
                    Vec::new()
                };
                assert(old(self).jobs@[j as int].id@ == id@);
                assert(is_cancelled(*old(self), *self, j as int, now, dispatch@));
                (true, dispatch)
            },
        }
    }

    /// A retry timer of job `j` has fired. Returns whether the job is to be run: not if
    /// the timer was overtaken, the job asked to stop, or the job is no longer paused.
    pub fn timer_fired(&mut self, j: usize, gen: u64) -> (run: bool)
        requires
            old(self).wf(),
            j < old(self).jobs@.len(),
        ensures
            final(self).wf(),
            run == (old(self).jobs@[j as int].retry_gen == gen && !old(self).jobs@[j as int].cancel
                && old(self).jobs@[j as int].state.status is Waiting),
            !run ==> *final(self) == *old(self),
            run ==> final(self).only_job_changed(*old(self), j as int) && final(self).jobs@[j as int] == (JobSlot {
                state: JobState { retry_at: None, ..old(self).jobs@[j as int].state },
                ..old(self).jobs@[j as int]
            }) && final(self).held == old(self).held && final(self).offline_leader == old(self).offline_leader && final(self).maintenance == old(self).maintenance && final(self).reopening == old(self).reopening,
    {
        if self.jobs[j].retry_gen != gen || self.jobs[j].cancel {
            return false;
        }
        if self.jobs[j].state.status != JobStatus::Waiting {
            return false;
        }
        self.jobs[j].state.retry_at = None;
        true
    }

    /// Retries a paused job at once, and calls its timer off. Returns the job, which is
    /// to be run; nothing if there is no such job or it is not paused.
    pub fn retry_now(&mut self, id: &str) -> (r: Option<usize>)
        requires
            old(self).wf(),
        ensures
            final(self).wf(),
            match r {
                None => {
                    &&& *final(self) == *old(self)
                    &&& (forall|i: int|
                        0 <= i < old(self).jobs@.len() ==> (#[trigger] old(self).jobs@[i]).id@
                            != id@) || exists|i: int|
                        0 <= i < old(self).jobs@.len() && (#[trigger] old(self).jobs@[i]).id@ == id@
                            && !(old(self).jobs@[i].state.status is Waiting)
                },
                Some(j) => {
                    &&& j < old(self).jobs@.len()
                    &&& old(self).jobs@[j as int].id@ == id@
                    &&& old(self).jobs@[j as int].state.status is Waiting
                    &&& final(self).only_job_changed(*old(self), j as int)
                    &&& final(self).jobs@[j as int] == (JobSlot {
                        state: JobState { retry_at: None, ..old(self).jobs@[j as int].state },
                        retry_gen: old(self).jobs@[j as int].retry_gen.wrapping_add(1),
                        ..old(self).jobs@[j as int]
                    })
                    &&& final(self).held == old(self).held
                    &&& final(self).offline_leader == old(self).offline_leader
                    &&& final(self).maintenance == old(self).maintenance
                    &&& final(self).reopening == old(self).reopening
                },
            },
    {
        match self.get(id) {
            None => None,
            Some(j) => {
                if self.jobs[j].state.status != JobStatus::Waiting {
                    assert(old(self).jobs@[j as int].id@ == id@);
                    return None;
                }
                self.jobs[j].state.retry_at = None;
                self.jobs[j].retry_gen = self.jobs[j].retry_gen.wrapping_add(1);
                Some(j)
            },
        }
    }

    // ── Maintenance ──────────────────────────────────────────────────────────

    /// Whether a maintenance pass is owed and not yet enqueued.
    pub fn maintenance_owed(&self) -> (b: bool)
        ensures
            b == self.maintenance,
    {
        self.maintenance
    }

    /// Asks for a maintenance pass once the imports are through.
    pub fn request_maintenance(&mut self)
        requires
            old(self).wf(),
        ensures
            final(self).wf(),
            *final(self) == (JobManager { maintenance: true, ..*old(self) }),
    {
        self.maintenance = true;
    }

    /// Calls an owed maintenance pass off.
    pub fn clear_maintenance(&mut self)
        requires
            old(self).wf(),
        ensures
            final(self).wf(),
            *final(self) == (JobManager { maintenance: false, ..*old(self) }),
    {
        self.maintenance = false;
    }

    /// Some job that a maintenance pass has to wait for is queued, running or paused.
    pub open spec fn is_busy(&self) -> bool {
        exists|i: int|
            0 <= i < self.jobs@.len() && jobs::is_in_flight((#[trigger] self.jobs@[i]).state.status)
                && jobs::holds_maintenance(self.jobs@[i].job_type@)
    }

    fn busy(&self) -> (b: bool)
        ensures
            b == self.is_busy(),
    {
        let mut i: usize = 0;
        while i < self.jobs.len()
            invariant
                i <= self.jobs.len(),
                forall|k: int|
                    0 <= k < i ==> !(jobs::is_in_flight((#[trigger] self.jobs@[k]).state.status)
                        && jobs::holds_maintenance(self.jobs@[k].job_type@)),
            decreases self.jobs.len() - i,
        {
            if self.jobs[i].state.status.in_flight() && blocks_maintenance(
                self.jobs[i].job_type.as_str(),
            ) {
                return true;
            }
            i += 1;
        }
        false
    }

    /// If a maintenance pass is owed and nothing it has to wait for is in flight,
    /// enqueues the pass, once: the FIDE list is brought up to date if that is due, then
    /// players are identified, merged and renamed, then games are deduplicated, then
    /// positions indexed, all in one cluster. Returns how many jobs were enqueued; they
    /// are at the end of `jobs`, and to be run in order.
    pub fn maybe_run_maintenance(&mut self) -> (n: usize)
        requires
            old(self).wf(),
            old(self).counter <= u64::MAX - 7,
        ensures
            final(self).wf(),
            final(self).held == old(self).held,
            final(self).offline_leader == old(self).offline_leader,
            final(self).reopening == old(self).reopening,
            if old(self).maintenance && !old(self).is_busy() {
                &&& n == 6
                &&& !final(self).maintenance
                &&& final(self).counter == old(self).counter + 7
                &&& final(self).jobs@.len() == old(self).jobs@.len() + 6
                &&& final(self).jobs@.take(old(self).jobs@.len() as int) == old(self).jobs@
                &&& forall|k: int|
                    0 <= k < 6 ==> {
                        let slot = #[trigger] final(self).jobs@[old(self).jobs@.len() + k];
                        &&& slot.job_type@ == maintenance_step(k)
                        &&& slot.cluster@ == batch_id(old(self).counter)
                        &&& slot.seq == old(self).counter + 1 + k
                        &&& jobs::is_fresh(slot.state)
                        &&& !slot.cancel
                        &&& params::param_flag(slot.params, "if_due"@) == (k == 0)
                        &&& params::param_flag(slot.params, "fast"@) == (k == 5)
                        &&& slot.params.entries@.len() == (if k == 0 || k == 5 {
                            1nat
                        } else {
                            0
                        })
                    }
            } else {
                &&& n == 0
                &&& *final(self) == *old(self)
            },
    {
        if !self.maintenance {
            return 0;
        }
        if self.busy() {
            return 0;
        }
        self.maintenance = false;
        let ghost base = self.jobs@;
        let ghost first = self.counter;
        let c: String = self.next_cluster_id();
        let if_due: Params = Params::one_flag("if_due");
        let fast: Params = Params::one_flag("fast");
        proof {
            lemma_one_flag(if_due, "if_due"@);
            lemma_one_flag(fast, "fast"@);
            reveal_strlit("if_due");
            reveal_strlit("fast");
            assert("if_due"@.len() == 6);
            assert("fast"@.len() == 4);
        }
        self.submit_in_cluster("fide_refresh".to_owned(), if_due, Some(c.clone()));
        let ghost one = self.jobs@;
        let p: Params = Params::none();
        self.submit_in_cluster("resolve_fide".to_owned(), p, Some(c.clone()));
        let ghost two = self.jobs@;
        let p: Params = Params::none();
        self.submit_in_cluster("dedup_players".to_owned(), p, Some(c.clone()));
        let ghost three = self.jobs@;
        let p: Params = Params::none();
        self.submit_in_cluster("normalise".to_owned(), p, Some(c.clone()));
        let ghost four = self.jobs@;
        let p: Params = Params::none();
        self.submit_in_cluster("dedup_games".to_owned(), p, Some(c.clone()));
        let ghost five = self.jobs@;
        self.submit_in_cluster("index_positions".to_owned(), fast, Some(c));
        proof {
            let b = base.len() as int;
            let all = self.jobs@;
            assert(all[b + 5] == all.last());
            assert(all[b + 4] == five[b + 4] && five[b + 4] == five.last());
            assert(all[b + 3] == five[b + 3] && five[b + 3] == four[b + 3] && four[b + 3]
                == four.last());
            assert(all[b + 2] == five[b + 2] && five[b + 2] == four[b + 2] && four[b + 2]
                == three[b + 2] && three[b + 2] == three.last());
            assert(all[b + 1] == five[b + 1] && five[b + 1] == four[b + 1] && four[b + 1]
                == three[b + 1] && three[b + 1] == two[b + 1] && two[b + 1] == two.last());
            assert(all[b] == five[b] && five[b] == four[b] && four[b] == three[b] && three[b]
                == two[b] && two[b] == one[b] && one[b] == one.last());
            assert forall|i: int| 0 <= i < b implies all[i] == base[i] by {
                assert(all[i] == five[i] && five[i] == four[i] && four[i] == three[i] && three[i]
                    == two[i] && two[i] == one[i] && one[i] == base[i]);
            }
            assert(all.take(b) =~= base);
        }
        6
    }
}

proof fn lemma_one_flag(p: Params, key: Seq<char>)
    requires
        p.entries@.len() == 1,
        p.entries@[0].0@ == key,
        p.entries@[0].1 == params::ParamValue::Bool(true),
    ensures
        params::param_flag(p, key),
        forall|k: Seq<char>| k != key ==> !params::param_flag(p, k),
{
    assert(p.entries@.skip(1) =~= Seq::empty());
    assert forall|k: Seq<char>| k != key implies !params::param_flag(p, k) by {
        assert(params::find_param(p.entries@.skip(1), k) is None);
    }
}

/// The steps of a maintenance pass, in order.
pub open spec fn maintenance_step(k: int) -> Seq<char> {
    if k == 0 {
        "fide_refresh"@
    } else if k == 1 {
        "resolve_fide"@
    } else if k == 2 {
        "dedup_players"@
    } else if k == 3 {
        "normalise"@
    } else if k == 4 {
        "dedup_games"@
    } else {
        "index_positions"@
    }
}

/// A job that starts to run.
pub open spec fn is_started(a: JobState, b: JobState, now: u64) -> bool {
    b == (JobState { status: JobStatus::Running, started_at: Some(now), retry_at: None, ..a })
}

/// What asking job `j` to stop does.
pub open spec fn is_cancelled(
    a: JobManager,
    b: JobManager,
    j: int,
    now: u64,
    dispatch: Seq<usize>,
) -> bool {
    let was = a.jobs@[j];
    let is = b.jobs@[j];
    &&& b.only_job_changed(a, j)
    &&& is.cancel
    &&& is.retry_gen == was.retry_gen.wrapping_add(1)
    &&& is.buffer == was.buffer
    &&& if was.state.status is Queued || was.state.status is Waiting {
        &&& is.state.status is Cancelled
        &&& is.state.message@ == "Cancelled"@
        &&& is.state.ended_at == Some(now)
        &&& is.state.retry_at is None
        &&& is.state.value == was.state.value && is.state.total == was.state.total && is.state.path
            == was.state.path && is.state.error == was.state.error && is.state.started_at
            == was.state.started_at
    } else {
        is.state == was.state
    }
    &&& if a.offline_leader == Some(j as usize) {
        is_released(a, b, dispatch)
    } else {
        is_kept_paused(a, b, dispatch)
    }
}

// ── Laws ─────────────────────────────────────────────────────────────────────

/// No two jobs have the same id.
pub proof fn law_job_ids_are_unique(m: JobManager, i: int, j: int)
    requires
        m.wf(),
        0 <= i < m.jobs@.len(),
        0 <= j < m.jobs@.len(),
        m.jobs@[i].id@ == m.jobs@[j].id@,
    ensures
        i == j,
{
    let a = m.jobs@[i].seq;
    let b = m.jobs@[j].seq;
    assert(slot_ok(m.jobs@[i], m.counter) && slot_ok(m.jobs@[j], m.counter));
    lemma_numbered_apart("job-"@, a, b);
    if i < j {
        assert(m.jobs@[i].seq < m.jobs@[j].seq);
    } else if j < i {
        assert(m.jobs@[j].seq < m.jobs@[i].seq);
    }
}

proof fn lemma_numbered_apart(prefix: Seq<char>, a: u64, b: u64)
    requires
        prefix + text::dec(a as nat) == prefix + text::dec(b as nat),
    ensures
        a == b,
{
    let x = prefix + text::dec(a as nat);
    let y = prefix + text::dec(b as nat);
    assert(x.skip(prefix.len() as int) =~= text::dec(a as nat));
    assert(y.skip(prefix.len() as int) =~= text::dec(b as nat));
    text::law_decimal_reads_back(a as nat, u64::MAX as nat);
    text::law_decimal_reads_back(b as nat, u64::MAX as nat);
}

/// A batch's cluster is never that of a job on its own.
pub proof fn law_batches_are_not_jobs(a: u64, b: u64)
    ensures
        batch_id(a) != job_id(b),
{
    reveal_strlit("batch-");
    reveal_strlit("job-");
    assert(batch_id(a)[0] == 'b');
    assert(job_id(b)[0] == 'j');
}

/// While no job is paused nothing is held, so no job waits for ever.
pub proof fn law_nothing_is_held_without_a_paused_job(m: JobManager, j: int)
    requires
        m.wf(),
        m.offline_leader is None,
    ensures
        m.held@.len() == 0,
        !m.must_hold(j),
{
}

/// The paused job runs when it is tried again: it does not block itself, nor does any
/// held job that came after it.
pub proof fn law_paused_job_runs_again(m: JobManager, j: usize)
    requires
        m.wf(),
        m.offline_leader == Some(j),
        forall|h: int|
            0 <= h < m.held@.len() ==> m.jobs@[#[trigger] m.held@[h] as int].seq
                >= m.jobs@[j as int].seq,
    ensures
        !m.must_hold(j as int),
{
    assert forall|k: int| #[trigger] m.is_stuck(k) implies !m.blocked_by(j as int, k) by {
        if k != j {
            let h = choose|h: int| 0 <= h < m.held@.len() && #[trigger] m.held@[h] == k;
            assert(m.jobs@[m.held@[h] as int].seq >= m.jobs@[j as int].seq);
        }
    }
}

/// While a network job is paused, no network job that came after it starts.
pub proof fn law_later_network_jobs_wait(m: JobManager, l: usize, j: int)
    requires
        m.wf(),
        m.offline_leader == Some(l),
        0 <= j < m.jobs@.len(),
        jobs::uses_network(m.jobs@[j].job_type@),
        m.jobs@[j].seq > m.jobs@[l as int].seq,
    ensures
        m.must_hold(j),
{
    assert(m.is_stuck(l as int) && m.blocked_by(j, l as int));
}

// ── Laws of the queue ────────────────────────────────────────────────────────

/// A maintenance pass looks the federation's list up, finds players in it, merges them, and
/// only then looks at games and positions.
pub proof fn law_steps_of_maintenance()
    ensures
        maintenance_step(0) == "fide_refresh"@,
        maintenance_step(1) == "resolve_fide"@,
        maintenance_step(2) == "dedup_players"@,
        maintenance_step(3) == "normalise"@,
        maintenance_step(4) == "dedup_games"@,
        maintenance_step(5) == "index_positions"@,
{
}

/// Every step of a maintenance pass keeps the next pass waiting.
pub proof fn law_passes_wait_for_each_other(k: int)
    requires
        0 <= k < 6,
    ensures
        jobs::holds_maintenance(maintenance_step(k)),
{
}

/// What a client sees of a job is what the job is.
pub proof fn law_clients_see_the_job(s: JobSnapshot, j: JobSlot)
    requires
        shows(s, j),
    ensures
        s.id@ == j.id@,
        s.job_type@ == j.job_type@,
        j.state.status is Done ==> s.status@ == "done"@,
        j.state.status is Error ==> s.status@ == "error"@,
        s.value == j.state.value,
        s.total == j.state.total,
        s.message@ == j.state.message@,
        s.path == j.state.path,
        s.error == j.state.error,
        s.started_at == j.state.started_at,
        s.ended_at == j.state.ended_at,
        s.retry_at == j.state.retry_at,
        s.interruptible == j.interruptible,
{
}

/// A new job waits in a cluster of its own unless it is given one, and can be interrupted
/// unless it appends.
pub proof fn law_new_jobs(
    j: JobSlot,
    seq: u64,
    job_type: Seq<char>,
    p: Params,
    cluster: Option<Seq<char>>,
)
    requires
        new_slot(j, seq, job_type, p, cluster),
    ensures
        cluster is None ==> j.cluster@ == j.id@,
        cluster is Some ==> j.cluster@ == cluster->0,
        j.interruptible <==> !jobs::appends(job_type, params::param_flag(p, "fast"@)),
        j.state.status is Queued,
        !j.cancel,
        j.id@ == "job-"@ + text::dec(seq as nat),
{
}

/// The jobs that go on when a paused one is let go are those held that nobody cancelled.
pub proof fn law_cancelled_jobs_do_not_go_on(all: Seq<JobSlot>, held: Seq<usize>, h: usize)
    ensures
        still_wanted(all, held).contains(h) <==> held.contains(h) && !all[h as int].cancel,
{
    broadcast use vstd::seq_lib::group_filter_ensures;

    let p = |h: usize| !all[h as int].cancel;
    let kept = held.filter(p);
    if held.contains(h) && !all[h as int].cancel {
        let i = held.index_of(h);
        assert(p(held[i]));
        assert(kept.contains(held[i]));
    }
    if kept.contains(h) {
        held.lemma_filter_contains_rev(p, h);
        let i = kept.index_of(h);
        assert(p(kept[i]));
    }
}

/// A job that waits or is queued is over as soon as it is cancelled; one that runs is only
/// asked to stop.
pub proof fn law_cancelling(a: JobManager, b: JobManager, j: int, now: u64, dispatch: Seq<usize>)
    requires
        0 <= j < a.jobs@.len(),
        is_cancelled(a, b, j, now, dispatch),
    ensures
        b.jobs@[j].cancel,
        a.jobs@[j].state.status is Queued || a.jobs@[j].state.status is Waiting
            ==> b.jobs@[j].state.status is Cancelled && b.jobs@[j].state.ended_at == Some(now),
        a.jobs@[j].state.status is Running ==> b.jobs@[j].state == a.jobs@[j].state,
        forall|i: int|
            0 <= i < a.jobs@.len() && i != j ==> #[trigger] b.jobs@[i] == a.jobs@[i],
{
}

/// A job that starts runs from now on.
pub proof fn law_started_jobs_run(a: JobState, b: JobState, now: u64)
    requires
        is_started(a, b, now),
    ensures
        b.status is Running,
        b.started_at == Some(now),
        b.retry_at is None,
        b.value == a.value && b.total == a.total && b.message == a.message && b.error == a.error
            && b.path == a.path && b.ended_at == a.ended_at,
{
}

/// A maintenance pass waits as long as a job that it waits for is in flight.
pub proof fn law_maintenance_waits(m: JobManager, i: int)
    requires
        0 <= i < m.jobs@.len(),
    ensures
        (m.jobs@[i].state.status is Queued || m.jobs@[i].state.status is Running
            || m.jobs@[i].state.status is Waiting) && jobs::holds_maintenance(m.jobs@[i].job_type@)
            ==> m.is_busy(),
        (forall|k: int|
            0 <= k < m.jobs@.len() ==> (#[trigger] m.jobs@[k]).state.status is Done
                || m.jobs@[k].state.status is Error || m.jobs@[k].state.status is Cancelled)
            ==> !m.is_busy(),
{
}

/// A job that goes back into the queue keeps how far it came.
pub proof fn law_requeued_jobs_keep_their_state(a: JobState, b: JobState)
    requires
        requeued(a, b),
    ensures
        b.status is Queued,
        b.retry_at is None,
        b.message@.len() == 0,
        b.value == a.value && b.total == a.total && b.path == a.path && b.error == a.error,
        b.started_at == a.started_at && b.ended_at == a.ended_at,
{
}

} // verus!
