//! The scheduler: a pool of workers, fresh job ids, and the job table.
use crate::protocol::{
    AllocAssignment, IpAddress, JobAllocRequest, JobAllocResult, JobId, ServerId, SocketAddress,
    SERVER_CLIENTS_PORT,
};
use vstd::prelude::*;

verus! {

/// How many finished jobs the scheduler remembers.
pub const FINISHED_JOBS_RETAINED: usize = 64;

/// Where a job stands, as the scheduler sees it.
#[derive(Debug, Clone, Copy, PartialEq, Eq, Structural)]
pub enum JobState {
    AllocRequested,
    AllocSuccess,
    JobStarted,
    JobCompleted,
    JobFailed,
}

/// A job in the scheduler's table.
#[derive(Debug, Clone, Copy, PartialEq, Eq, Structural)]
pub struct JobStatus {
    pub job_id: JobId,
    pub server: ServerId,
    pub result: JobAllocResult,
    pub state: JobState,
}

/// The finished-jobs ring after `st` joins it: the oldest entry leaves once
/// the ring is full.
pub open spec fn ring_push(f: Seq<JobStatus>, st: JobStatus) -> Seq<JobStatus> {
    if f.len() < FINISHED_JOBS_RETAINED {
        f.push(st)
    } else {
        f.drop_first().push(st)
    }
}

/// The finished-jobs ring after each of `s` joins it, in order.
pub open spec fn ring_push_all(f: Seq<JobStatus>, s: Seq<JobStatus>) -> Seq<JobStatus>
    decreases s.len(),
{
    if s.len() == 0 {
        f
    } else {
        ring_push(ring_push_all(f, s.drop_last()), s.last())
    }
}

/// Whether a job runs on `server`.
pub open spec fn on_server(server: ServerId) -> spec_fn(JobStatus) -> bool {
    |st: JobStatus| st.server == server
}

/// Whether a job runs elsewhere than on `server`.
pub open spec fn off_server(server: ServerId) -> spec_fn(JobStatus) -> bool {
    |st: JobStatus| st.server != server
}

/// The jobs as they stand once their worker was lost.
pub open spec fn all_failed(s: Seq<JobStatus>) -> Seq<JobStatus> {
    s.map_values(|st: JobStatus| failed(st))
}

/// A job as it stands once its worker was lost.
pub open spec fn failed(st: JobStatus) -> JobStatus {
    JobStatus { state: JobState::JobFailed, ..st }
}

/// A worker in the pool.
#[derive(Debug, Clone, Copy, PartialEq, Eq, Structural)]
pub struct WorkerEntry {
    pub addr: SocketAddress,
    /// Whether its assignment channel is open.
    pub connected: bool,
}

/// What the scheduler decided for an allocation request.
#[derive(Debug, Clone, Copy, PartialEq, Eq, Structural)]
pub struct Allocation {
    /// The worker to notify.
    pub server: ServerId,
    /// The notice to send it.
    pub assignment: AllocAssignment,
    /// The answer for the client.
    pub result: JobAllocResult,
}

/// Why an allocation request could not be served.
#[derive(Debug, Clone, Copy, PartialEq, Eq, Structural)]
pub enum SchedulerError {
    /// No worker has an open channel.
    NoWorkers,
    /// Every job id has been handed out.
    JobIdsExhausted,
}

/// The scheduler's state.
pub struct SccacheScheduler {
    job_count: u64,
    jobs: Vec<JobStatus>,
    finished_jobs: Vec<JobStatus>,
    servers: Vec<WorkerEntry>,
    cursor: usize,
}

/// The address at which a worker serves clients.
pub open spec fn worker_client_addr(ip: IpAddress) -> SocketAddress {
    SocketAddress { ip, port: SERVER_CLIENTS_PORT }
}

/// Job ids handed out one after another are pairwise distinct, given that
/// each allocation takes the scheduler's next id (`next[i]` before the
/// `i`-th one) and the next id only grows in between.
pub proof fn lemma_job_ids_distinct(next: Seq<u64>, ids: Seq<JobId>)
    requires
        ids.len() <= next.len(),
        forall|i: int| 0 <= i < ids.len() ==> (#[trigger] ids[i]).0 == next[i],
        forall|i: int| 0 <= i && i + 1 < next.len() ==> #[trigger] next[i] < next[i + 1],
    ensures
        forall|i: int, j: int| 0 <= i < j < ids.len() ==> ids[i] != ids[j],
{
    assert forall|i: int, j: int| 0 <= i < j < ids.len() implies ids[i] != ids[j] by {
        lemma_increasing(next, i, j);
        assert(ids[i].0 == next[i]);
        assert(ids[j].0 == next[j]);
    }
}

proof fn lemma_increasing(next: Seq<u64>, i: int, j: int)
    requires
        0 <= i < j < next.len(),
        forall|k: int| 0 <= k && k + 1 < next.len() ==> #[trigger] next[k] < next[k + 1],
    ensures
        next[i] < next[j],
    decreases j - i,
{
    if j > i + 1 {
        lemma_increasing(next, i, j - 1);
    }
    assert(next[j - 1] < next[j]);
}

impl SccacheScheduler {
    /// The id the next allocation hands out.
    pub closed spec fn next_id(&self) -> u64 {
        self.job_count
    }

    /// The worker pool, in order of registration.
    pub closed spec fn workers(&self) -> Seq<WorkerEntry> {
        self.servers@
    }

    /// The jobs in flight.
    pub closed spec fn job_table(&self) -> Seq<JobStatus> {
        self.jobs@
    }

    /// The most recently finished jobs, oldest first.
    pub closed spec fn finished(&self) -> Seq<JobStatus> {
        self.finished_jobs@
    }

    pub closed spec fn wf(&self) -> bool {
        &&& forall|i: int| 0 <= i < self.jobs@.len() ==> (#[trigger] self.jobs@[i]).job_id.0 < self.job_count
        &&& self.finished_jobs@.len() <= FINISHED_JOBS_RETAINED
        &&& forall|i: int, j: int|
            0 <= i < j < self.jobs@.len() ==> (#[trigger] self.jobs@[i]).job_id != (
            #[trigger] self.jobs@[j]).job_id
    }

    /// A scheduler with no workers and no jobs; ids start from zero.
    pub fn new() -> (r: SccacheScheduler)
        ensures
            r.wf(),
            r.next_id() == 0,
            r.workers() == Seq::<WorkerEntry>::empty(),
            r.job_table() == Seq::<JobStatus>::empty(),
    {
        SccacheScheduler {
            job_count: 0,
            jobs: Vec::new(),
            finished_jobs: Vec::new(),
            servers: Vec::new(),
            cursor: 0,
        }
    }

    /// Adds a worker whose assignment channel has just opened.
    pub fn register_worker(&mut self, addr: SocketAddress) -> (r: Option<ServerId>)
        requires
            old(self).wf(),
        ensures
            final(self).wf(),
            final(self).next_id() == old(self).next_id(),
            final(self).job_table() == old(self).job_table(),
            r matches Some(s) ==> s.0 == old(self).workers().len() && final(self).workers()
                == old(self).workers().push(WorkerEntry { addr, connected: true }),
            r is None ==> final(self).workers() == old(self).workers() && old(self).workers().len()
                == u64::MAX,
    {
        if self.servers.len() as u64 == u64::MAX {
            return None;
        }
        let id = ServerId(self.servers.len() as u64);
        self.servers.push(WorkerEntry { addr, connected: true });
        Some(id)
    }

    /// Serves an allocation request: picks a connected worker, round robin,
    /// (every worker serves every toolchain)
    /// takes the next job id and records the job as `AllocRequested`. The
    /// caller then sends the assignment to the worker and answers the client.
    pub fn handle_allocation_request(&mut self, req: JobAllocRequest) -> (r: Result<
        Allocation,
        SchedulerError,
    >)
        requires
            old(self).wf(),
        ensures
            final(self).wf(),
            final(self).workers() == old(self).workers(),
            final(self).finished() == old(self).finished(),
            r is Err ==> final(self).next_id() == old(self).next_id() && final(self).job_table()
                == old(self).job_table(),
            r == Err::<Allocation, SchedulerError>(SchedulerError::JobIdsExhausted) <==> old(self).next_id() == u64::MAX,
            r == Err::<Allocation, SchedulerError>(SchedulerError::NoWorkers) <==> (old(self).next_id() < u64::MAX && forall|i: int|
                0 <= i < old(self).workers().len() ==> !(#[trigger] old(self).workers()[i]).connected),
            r matches Ok(a) ==> {
                &&& a.result.job_id.0 == old(self).next_id()
                &&& a.assignment.job_id == a.result.job_id
                &&& final(self).next_id() == old(self).next_id() + 1
                &&& 0 <= a.server.0 < old(self).workers().len()
                &&& old(self).workers()[a.server.0 as int].connected
                &&& a.result.addr == worker_client_addr(
                    old(self).workers()[a.server.0 as int].addr.ip,
                )
                &&& final(self).job_table().len() == old(self).job_table().len() + 1
                &&& final(self).job_table().drop_last() == old(self).job_table()
                &&& final(self).job_table().last().job_id == a.result.job_id
                &&& final(self).job_table().last().state == JobState::AllocRequested
                &&& final(self).job_table().last().server == a.server
            },
    {
        if self.job_count == u64::MAX {
            return Err(SchedulerError::JobIdsExhausted);
        }
        let n = self.servers.len();
        let start: usize = if self.cursor < n { self.cursor } else { 0 };
        let mut chosen: Option<usize> = None;
        let mut k: usize = start;
        while k < n && chosen.is_none()
            invariant
                n == self.servers@.len(),
                start <= k <= n,
                chosen matches Some(c) ==> c < n && self.servers@[c as int].connected,
                chosen is None ==> forall|j: int| start <= j < k ==> !(#[trigger] self.servers@[j]).connected,
            decreases n - k + if chosen is None { 1int } else { 0int },
        {
            if self.servers[k].connected {
                chosen = Some(k);
            } else {
                k = k + 1;
            }
        }
        let mut k: usize = 0;
        while k < start && chosen.is_none()
            invariant
                n == self.servers@.len(),
                start <= n,
                k <= start,
                chosen matches Some(c) ==> c < n && self.servers@[c as int].connected,
                chosen is None ==> forall|j: int|
                    (start <= j < n || 0 <= j < k) ==> !(#[trigger] self.servers@[j]).connected,
            decreases start - k + if chosen is None { 1int } else { 0int },
        {
            if self.servers[k].connected {
                chosen = Some(k);
            } else {
                k = k + 1;
            }
        }
        match chosen {
            None => {
                Err(SchedulerError::NoWorkers)
            },
            Some(idx) => {
                let job_id = JobId(self.job_count);
                self.job_count = self.job_count + 1;
                self.cursor = idx + 1;
                let server = ServerId(idx as u64);
                let result = JobAllocResult {
                    job_id,
                    addr: SocketAddress { ip: self.servers[idx].addr.ip, port: SERVER_CLIENTS_PORT },
                };
                let status = JobStatus { job_id, server, result, state: JobState::AllocRequested };
                self.jobs.push(status);
                assert(self.jobs@.drop_last() =~= old(self).jobs@);
                Ok(Allocation { server, assignment: AllocAssignment { job_id }, result })
            },
        }
    }

    /// Records that the job's assignment reached its worker: a job that was
    /// `AllocRequested` becomes `AllocSuccess`. Returns whether there was
    /// such a job.
    pub fn assignment_delivered(&mut self, job_id: JobId) -> (r: bool)
        requires
            old(self).wf(),
        ensures
            final(self).wf(),
            final(self).next_id() == old(self).next_id(),
            final(self).workers() == old(self).workers(),
            final(self).finished() == old(self).finished(),
            r == exists|i: int|
                0 <= i < old(self).job_table().len() && (#[trigger] old(self).job_table()[i]).job_id
                    == job_id && old(self).job_table()[i].state == JobState::AllocRequested,
            r ==> exists|i: int|
                0 <= i < old(self).job_table().len() && (#[trigger] old(self).job_table()[i]).job_id
                    == job_id && final(self).job_table() == old(self).job_table().update(
                    i,
                    JobStatus { state: JobState::AllocSuccess, ..old(self).job_table()[i] },
                ),
            !r ==> final(self).job_table() == old(self).job_table(),
    {
        self.transition(job_id, JobState::AllocRequested, JobState::AllocSuccess)
    }

    /// Records that the worker started the job: a job that was
    /// `AllocSuccess` becomes `JobStarted`. Returns whether there was such a
    /// job.
    pub fn job_started(&mut self, job_id: JobId) -> (r: bool)
        requires
            old(self).wf(),
        ensures
            final(self).wf(),
            final(self).next_id() == old(self).next_id(),
            final(self).workers() == old(self).workers(),
            final(self).finished() == old(self).finished(),
            r == exists|i: int|
                0 <= i < old(self).job_table().len() && (#[trigger] old(self).job_table()[i]).job_id
                    == job_id && old(self).job_table()[i].state == JobState::AllocSuccess,
            r ==> exists|i: int|
                0 <= i < old(self).job_table().len() && (#[trigger] old(self).job_table()[i]).job_id
                    == job_id && final(self).job_table() == old(self).job_table().update(
                    i,
                    JobStatus { state: JobState::JobStarted, ..old(self).job_table()[i] },
                ),
            !r ==> final(self).job_table() == old(self).job_table(),
    {
        self.transition(job_id, JobState::AllocSuccess, JobState::JobStarted)
    }

    /// Moves the job `job_id` from state `from` to state `to`.
    fn transition(&mut self, job_id: JobId, from: JobState, to: JobState) -> (r: bool)
        requires
            old(self).wf(),
        ensures
            final(self).wf(),
            final(self).job_count == old(self).job_count,
            final(self).servers == old(self).servers,
            final(self).finished_jobs == old(self).finished_jobs,
            r == exists|i: int|
                0 <= i < old(self).jobs@.len() && (#[trigger] old(self).jobs@[i]).job_id == job_id
                    && old(self).jobs@[i].state == from,
            r ==> exists|i: int|
                0 <= i < old(self).jobs@.len() && (#[trigger] old(self).jobs@[i]).job_id == job_id
                    && final(self).jobs@ == old(self).jobs@.update(
                    i,
                    JobStatus { state: to, ..old(self).jobs@[i] },
                ),
            !r ==> final(self).jobs@ == old(self).jobs@,
    {
        let mut i: usize = 0;
        while i < self.jobs.len()
            invariant
                old(self).wf(),
                self.jobs@ == old(self).jobs@,
                self.job_count == old(self).job_count,
                self.finished_jobs == old(self).finished_jobs,
                self.servers == old(self).servers,
                i <= self.jobs@.len(),
                forall|j: int|
                    0 <= j < i ==> !((#[trigger] self.jobs@[j]).job_id == job_id && self.jobs@[j].state
                        == from),
            decreases self.jobs@.len() - i,
        {
            let st = self.jobs[i];
            if st.job_id == job_id && st.state == from {
                let ghost before = self.jobs@;
                self.jobs.set(i, JobStatus { state: to, ..st });
                assert(self.jobs@[i as int].job_id == before[i as int].job_id);
                return true;
            }
            i = i + 1;
        }
        false
    }

    /// Records the end of a started or allocated job: it leaves the table
    /// and joins the finished ring as `JobCompleted`, or as `JobFailed` when
    /// it did not succeed. Returns whether there was such a job.
    pub fn job_finished(&mut self, job_id: JobId, succeeded: bool) -> (r: bool)
        requires
            old(self).wf(),
        ensures
            final(self).wf(),
            final(self).next_id() == old(self).next_id(),
            final(self).workers() == old(self).workers(),
            r == exists|i: int|
                0 <= i < old(self).job_table().len() && (#[trigger] old(self).job_table()[i]).job_id
                    == job_id,
            r ==> exists|i: int|
                0 <= i < old(self).job_table().len() && (#[trigger] old(self).job_table()[i]).job_id
                    == job_id && final(self).job_table() == old(self).job_table().remove(i)
                    && final(self).finished() == ring_push(
                    old(self).finished(),
                    JobStatus {
                        state: if succeeded {
                            JobState::JobCompleted
                        } else {
                            JobState::JobFailed
                        },
                        ..old(self).job_table()[i]
                    },
                ),
            !r ==> final(self).job_table() == old(self).job_table() && final(self).finished()
                == old(self).finished(),
    {
        let mut i: usize = 0;
        while i < self.jobs.len()
            invariant
                old(self).wf(),
                self.jobs@ == old(self).jobs@,
                self.job_count == old(self).job_count,
                self.finished_jobs == old(self).finished_jobs,
                self.servers == old(self).servers,
                i <= self.jobs@.len(),
                forall|j: int| 0 <= j < i ==> (#[trigger] self.jobs@[j]).job_id != job_id,
            decreases self.jobs@.len() - i,
        {
            if self.jobs[i].job_id == job_id {
                let ghost before = self.jobs@;
                let st = self.jobs.remove(i);
                assert forall|a: int| 0 <= a < self.jobs@.len() implies (#[trigger] self.jobs@[a]).job_id.0
                    < self.job_count by {
                    if a >= i {
                        assert(self.jobs@[a] == before[a + 1]);
                    }
                }
                assert forall|a: int, b: int| 0 <= a < b < self.jobs@.len() implies (#[trigger] self.jobs@[a]).job_id
                    != (#[trigger] self.jobs@[b]).job_id by {
                    let a0 = if a < i { a } else { a + 1 };
                    let b0 = if b < i { b } else { b + 1 };
                    assert(self.jobs@[a] == before[a0]);
                    assert(self.jobs@[b] == before[b0]);
                }
                let state = if succeeded { JobState::JobCompleted } else { JobState::JobFailed };
                self.retire(JobStatus { state, ..st });
                return true;
            }
            i = i + 1;
        }
        false
    }

    /// The worker's channel closed: it leaves the pool of connected workers,
    /// and each of its jobs fails and moves to the finished ring.
    pub fn worker_lost(&mut self, server: ServerId)
        requires
            old(self).wf(),
        ensures
            final(self).wf(),
            final(self).next_id() == old(self).next_id(),
            (server.0 as int) < old(self).workers().len() ==> final(self).workers()
                == old(self).workers().update(
                server.0 as int,
                WorkerEntry { connected: false, ..old(self).workers()[server.0 as int] },
            ),
            (server.0 as int) >= old(self).workers().len() ==> final(self).workers() == old(self).workers(),
            final(self).job_table() == old(self).job_table().filter(off_server(server)),
            final(self).finished() == ring_push_all(
                old(self).finished(),
                all_failed(old(self).job_table().filter(on_server(server))),
            ),
    {
        if server.0 < self.servers.len() as u64 {
            let idx = server.0 as usize;
            let w = self.servers[idx];
            self.servers.set(idx, WorkerEntry { connected: false, ..w });
        }
        let ghost old_jobs = self.jobs@;
        let ghost old_finished = self.finished_jobs@;
        let ghost keep = off_server(server);
        let ghost lost = on_server(server);
        let ghost srv = self.servers@;
        let mut kept: Vec<JobStatus> = Vec::new();
        let mut i: usize = 0;
        assert(old_jobs.subrange(0, 0).filter(keep) =~= Seq::<JobStatus>::empty()) by {
            reveal(Seq::filter);
        }
        assert(all_failed(old_jobs.subrange(0, 0).filter(lost)) =~= Seq::<JobStatus>::empty()) by {
            reveal(Seq::filter);
        }
        while i < self.jobs.len()
            invariant
                old_jobs == self.jobs@,
                i <= old_jobs.len(),
                kept@ == old_jobs.subrange(0, i as int).filter(keep),
                self.finished_jobs@ == ring_push_all(
                    old_finished,
                    all_failed(old_jobs.subrange(0, i as int).filter(lost)),
                ),
                self.servers@ == srv,
                keep == off_server(server),
                lost == on_server(server),
                forall|a: int, b: int|
                    0 <= a < b < old_jobs.len() ==> (#[trigger] old_jobs[a]).job_id != (
                    #[trigger] old_jobs[b]).job_id,
                forall|a: int| 0 <= a < old_jobs.len() ==> (#[trigger] old_jobs[a]).job_id.0 < self.job_count,
                self.finished_jobs@.len() <= FINISHED_JOBS_RETAINED,
                self.job_count == old(self).job_count,
                old_jobs == old(self).jobs@,
                forall|a: int|
                    0 <= a < kept@.len() ==> exists|j: int|
                        0 <= j < i && #[trigger] kept@[a] == old_jobs[j],
                forall|a: int, b: int|
                    0 <= a < b < kept@.len() ==> (#[trigger] kept@[a]).job_id != (
                    #[trigger] kept@[b]).job_id,
            decreases old_jobs.len() - i,
        {
            let st = self.jobs[i];
            let ghost pre = old_jobs.subrange(0, i as int);
            let ghost post = old_jobs.subrange(0, i + 1);
            assert(post.drop_last() =~= pre);
            proof {
                reveal(Seq::filter);
                assert(post.last() == st);
            }
            if st.server == server {
                let f = JobStatus { state: JobState::JobFailed, ..st };
                self.retire(f);
                assert(post.filter(lost) == pre.filter(lost).push(st));
                assert(all_failed(post.filter(lost)) =~= all_failed(pre.filter(lost)).push(f));
                assert(all_failed(post.filter(lost)).drop_last() =~= all_failed(pre.filter(lost)));
                assert(post.filter(keep) == pre.filter(keep));
            } else {
                proof {
                    assert forall|a: int| 0 <= a < kept@.len() implies (#[trigger] kept@[a]).job_id
                        != st.job_id by {
                        let j = choose|j: int| 0 <= j < i && #[trigger] kept@[a] == old_jobs[j];
                        assert(j < i);
                        assert(old_jobs[j].job_id != old_jobs[i as int].job_id);
                    }
                }
                kept.push(st);
                assert(post.filter(lost) == pre.filter(lost));
                assert(post.filter(keep) == pre.filter(keep).push(st));
            }
            i = i + 1;
        }
        assert(old_jobs.subrange(0, i as int) =~= old_jobs);
        self.jobs = kept;
    }

    /// The jobs in flight.
    pub fn jobs(&self) -> (r: Vec<JobStatus>)
        ensures
            r@ == self.job_table(),
    {
        let mut r: Vec<JobStatus> = Vec::new();
        let mut i: usize = 0;
        while i < self.jobs.len()
            invariant
                i <= self.jobs@.len(),
                r@ == self.jobs@.subrange(0, i as int),
            decreases self.jobs@.len() - i,
        {
            r.push(self.jobs[i]);
            i = i + 1;
            assert(r@ =~= self.jobs@.subrange(0, i as int));
        }
        assert(self.jobs@.subrange(0, i as int) =~= self.jobs@);
        r
    }

    /// The most recently finished jobs, oldest first.
    pub fn finished_jobs(&self) -> (r: Vec<JobStatus>)
        ensures
            r@ == self.finished(),
    {
        let mut r: Vec<JobStatus> = Vec::new();
        let mut i: usize = 0;
        while i < self.finished_jobs.len()
            invariant
                i <= self.finished_jobs@.len(),
                r@ == self.finished_jobs@.subrange(0, i as int),
            decreases self.finished_jobs@.len() - i,
        {
            r.push(self.finished_jobs[i]);
            i = i + 1;
            assert(r@ =~= self.finished_jobs@.subrange(0, i as int));
        }
        assert(self.finished_jobs@.subrange(0, i as int) =~= self.finished_jobs@);
        r
    }

    /// Adds a finished job to the ring, dropping the oldest once it is full.
    fn retire(&mut self, st: JobStatus)
        requires
            old(self).finished_jobs@.len() <= FINISHED_JOBS_RETAINED,
        ensures
            final(self).finished_jobs@ == ring_push(old(self).finished_jobs@, st),
            final(self).finished_jobs@.len() <= FINISHED_JOBS_RETAINED,
            final(self).jobs == old(self).jobs,
            final(self).servers == old(self).servers,
            final(self).job_count == old(self).job_count,
            final(self).cursor == old(self).cursor,
    {
        if self.finished_jobs.len() >= FINISHED_JOBS_RETAINED {
            self.finished_jobs.remove(0);
        }
        self.finished_jobs.push(st);
        assert(self.finished_jobs@ =~= ring_push(old(self).finished_jobs@, st));
    }
}

} // verus!
