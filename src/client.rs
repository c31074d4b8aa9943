//! The client daemon: its toolchain store, its map from weak toolchain keys
//! to strong ones, and the decisions of one distributed compile.
use crate::key::{content_hash, content_id};
use crate::protocol::{JobAllocResult, JobComplete, JobRequest, JobResult, SocketAddress, Toolchain};
use crate::request::opt_bytes;
use crate::store::{
    assoc_map, lemma_assoc_absent, lemma_assoc_at, lemma_assoc_push, stored_after,
    string_views, StoreError, TcCache,
};
use vstd::prelude::*;
use vstd::string::StringExecFns;

verus! {

/// The strong key that a weak key resolves to: the one recorded, or else the
/// content hash of the toolchain archive that was packaged for it.
pub open spec fn resolve_weak(
    m: Map<Seq<char>, Seq<char>>,
    weak: Seq<char>,
    packaged: Seq<u8>,
) -> Seq<char> {
    if m.contains_key(weak) {
        m[weak]
    } else {
        content_hash(packaged)
    }
}

/// The weak map after resolving `weak`: a new entry only where there was
/// none.
pub open spec fn weak_map_after(
    m: Map<Seq<char>, Seq<char>>,
    weak: Seq<char>,
    packaged: Seq<u8>,
) -> Map<Seq<char>, Seq<char>> {
    if m.contains_key(weak) {
        m
    } else {
        m.insert(weak, content_hash(packaged))
    }
}

/// Once a weak key has been resolved, resolving it again gives the same
/// strong key and leaves the map as it is, whatever would have been
/// packaged the second time.
pub proof fn lemma_weak_key_resolved_once(
    m: Map<Seq<char>, Seq<char>>,
    weak: Seq<char>,
    first: Seq<u8>,
    later: Seq<u8>,
)
    ensures
        weak_map_after(m, weak, first).contains_key(weak),
        resolve_weak(weak_map_after(m, weak, first), weak, later) == resolve_weak(m, weak, first),
        weak_map_after(weak_map_after(m, weak, first), weak, later) == weak_map_after(
            m,
            weak,
            first,
        ),
{
}

/// The weak key of a compiler: its path, `-`, and the digest of its
/// executable.
pub fn weak_toolchain_key(executable: &str, digest: &str) -> (r: String)
    ensures
        r@ == executable@ + seq!['-'] + digest@,
{
    let mut r = String::from_str(executable);
    proof {
        reveal_strlit("-");
    }
    r.append("-");
    r.append(digest);
    r
}

/// The client daemon's toolchain state.
pub struct SccacheDaemonClient {
    cache: TcCache,
    weak_keys: Vec<String>,
    strong_keys: Vec<String>,
}

impl SccacheDaemonClient {
    /// The map from weak toolchain keys to strong ones.
    pub closed spec fn weak_map(&self) -> Map<Seq<char>, Seq<char>> {
        assoc_map(string_views(self.weak_keys@), string_views(self.strong_keys@))
    }

    /// The archives in the client's toolchain store.
    pub closed spec fn store(&self) -> Map<Seq<char>, Seq<u8>> {
        self.cache@
    }

    pub closed spec fn wf(&self) -> bool {
        self.weak_keys@.len() == self.strong_keys@.len() && self.cache.wf()
    }

    /// A client with an empty store and an empty weak map.
    pub fn new() -> (r: SccacheDaemonClient)
        ensures
            r.wf(),
            r.weak_map() == Map::<Seq<char>, Seq<char>>::empty(),
            r.store() == Map::<Seq<char>, Seq<u8>>::empty(),
    {
        let r = SccacheDaemonClient {
            cache: TcCache::new(),
            weak_keys: Vec::new(),
            strong_keys: Vec::new(),
        };
        assert(r.weak_map() =~= Map::<Seq<char>, Seq<char>>::empty());
        r
    }

    /// The strong key recorded for `weak_key`, if any.
    pub fn weak_to_strong(&self, weak_key: &str) -> (r: Option<String>)
        requires
            self.wf(),
        ensures
            r matches Some(s) ==> self.weak_map().contains_key(weak_key@) && s@ == self.weak_map()[weak_key@],
            r is None ==> !self.weak_map().contains_key(weak_key@),
    {
        let k = String::from_str(weak_key);
        let mut i: usize = self.weak_keys.len();
        while i > 0
            invariant
                self.wf(),
                k@ == weak_key@,
                i <= self.weak_keys@.len(),
                forall|j: int| i <= j < self.weak_keys@.len() ==> self.weak_keys@[j]@ != k@,
            decreases i,
        {
            if self.weak_keys[i - 1] == k {
                proof {
                    lemma_assoc_at(
                        string_views(self.weak_keys@),
                        string_views(self.strong_keys@),
                        k@,
                        i - 1,
                    );
                    assert(string_views(self.strong_keys@)[i - 1] == self.strong_keys@[i - 1]@);
                }
                return Some(self.strong_keys[i - 1].clone());
            }
            i = i - 1;
        }
        proof {
            lemma_assoc_absent(string_views(self.weak_keys@), string_views(self.strong_keys@), k@);
        }
        None
    }

    /// Records that `weak_key` resolves to `key`.
    pub fn record_weak(&mut self, weak_key: String, key: String)
        requires
            old(self).wf(),
        ensures
            final(self).wf(),
            final(self).weak_map() == old(self).weak_map().insert(weak_key@, key@),
            final(self).store() == old(self).store(),
    {
        let ghost ws = string_views(self.weak_keys@);
        let ghost ss = string_views(self.strong_keys@);
        let ghost w = weak_key@;
        let ghost s = key@;
        self.weak_keys.push(weak_key);
        self.strong_keys.push(key);
        proof {
            assert(string_views(self.weak_keys@) =~= ws.push(w));
            assert(string_views(self.strong_keys@) =~= ss.push(s));
            lemma_assoc_push(ws, ss, w, s);
        }
    }

    /// A client whose weak map holds `entries`, later entries overriding
    /// earlier ones with the same weak key.
    pub fn from_weak_entries(entries: Vec<(String, String)>) -> (r: SccacheDaemonClient)
        ensures
            r.wf(),
            r.store() == Map::<Seq<char>, Seq<u8>>::empty(),
            r.weak_map() == assoc_map(
                entries@.map_values(|e: (String, String)| e.0@),
                entries@.map_values(|e: (String, String)| e.1@),
            ),
    {
        let mut r = SccacheDaemonClient::new();
        let mut entries = entries;
        let ghost all = entries@;
        let mut rest: Vec<(String, String)> = Vec::new();
        // Reverse so that popping yields the entries in order.
        while entries.len() > 0
            invariant
                rest@.len() + entries@.len() == all.len(),
                entries@ == all.subrange(0, entries@.len() as int),
                forall|j: int| 0 <= j < rest@.len() ==> #[trigger] rest@[j] == all[all.len() - 1 - j],
            decreases entries@.len(),
        {
            let e = entries.pop().unwrap();
            rest.push(e);
            assert(entries@ =~= all.subrange(0, entries@.len() as int));
        }
        let ghost n = all.len();
        while rest.len() > 0
            invariant
                r.wf(),
                r.store() == Map::<Seq<char>, Seq<u8>>::empty(),
                rest@.len() <= n,
                n == all.len(),
                forall|j: int| 0 <= j < rest@.len() ==> #[trigger] rest@[j] == all[n - 1 - j],
                r.weak_map() == assoc_map(
                    all.subrange(0, n - rest@.len()).map_values(|e: (String, String)| e.0@),
                    all.subrange(0, n - rest@.len()).map_values(|e: (String, String)| e.1@),
                ),
            decreases rest@.len(),
        {
            let ghost before = all.subrange(0, n - rest@.len());
            let e = rest.pop().unwrap();
            let ghost after = all.subrange(0, n - rest@.len());
            proof {
                assert(after =~= before.push(e));
                assert(after.map_values(|e: (String, String)| e.0@) =~= before.map_values(
                    |e: (String, String)| e.0@,
                ).push(e.0@));
                assert(after.map_values(|e: (String, String)| e.1@) =~= before.map_values(
                    |e: (String, String)| e.1@,
                ).push(e.1@));
                lemma_assoc_push(
                    before.map_values(|e: (String, String)| e.0@),
                    before.map_values(|e: (String, String)| e.1@),
                    e.0@,
                    e.1@,
                );
            }
            r.record_weak(e.0, e.1);
        }
        assert(all.subrange(0, n as int) =~= all);
        r
    }

    /// The weak map's entries, oldest first; later entries override earlier
    /// ones with the same weak key.
    pub fn weak_entries(&self) -> (r: Vec<(String, String)>)
        requires
            self.wf(),
        ensures
            assoc_map(
                r@.map_values(|e: (String, String)| e.0@),
                r@.map_values(|e: (String, String)| e.1@),
            ) == self.weak_map(),
    {
        let mut r: Vec<(String, String)> = Vec::new();
        let mut i: usize = 0;
        while i < self.weak_keys.len()
            invariant
                self.wf(),
                i <= self.weak_keys@.len(),
                r@.len() == i,
                forall|j: int|
                    0 <= j < i ==> (#[trigger] r@[j]).0@ == self.weak_keys@[j]@ && r@[j].1@
                        == self.strong_keys@[j]@,
            decreases self.weak_keys@.len() - i,
        {
            r.push((self.weak_keys[i].clone(), self.strong_keys[i].clone()));
            i = i + 1;
        }
        assert(r@.map_values(|e: (String, String)| e.0@) =~= string_views(self.weak_keys@));
        assert(r@.map_values(|e: (String, String)| e.1@) =~= string_views(self.strong_keys@));
        r
    }

    /// The toolchain archive stored under `key`.
    pub fn get_toolchain_cache(&self, key: &str) -> (r: Result<Vec<u8>, StoreError>)
        requires
            self.wf(),
        ensures
            r matches Ok(b) ==> self.store().contains_key(key@) && b@ == self.store()[key@],
            r is Err ==> !self.store().contains_key(key@),
    {
        self.cache.get(key)
    }

    /// Stores `data` under its content hash, which it returns.
    pub fn insert_toolchain(&mut self, data: Vec<u8>) -> (r: String)
        requires
            old(self).wf(),
        ensures
            final(self).wf(),
            r@ == content_hash(data@),
            final(self).store() == stored_after(old(self).store(), r@, data@),
            final(self).weak_map() == old(self).weak_map(),
    {
        let strong = content_id(data.as_slice());
        self.cache.insert(strong.as_str(), data);
        strong
    }

    /// The strong key of the toolchain whose weak key is `weak_key`. Where
    /// the weak map has none, `create` packages the toolchain, the archive
    /// goes into the store under its content hash, and the weak map records
    /// that hash; `create` is called only then. A packaging that fails
    /// leaves the weak map and the store as they were.
    pub fn put_toolchain_cache<F: FnOnce() -> Option<Vec<u8>>>(&mut self, weak_key: &str, create: F) -> (r:
        Result<String, DistError>)
        requires
            old(self).wf(),
            !old(self).weak_map().contains_key(weak_key@) ==> create.requires(()),
        ensures
            final(self).wf(),
            old(self).weak_map().contains_key(weak_key@) ==> {
                &&& r matches Ok(s) && s@ == old(self).weak_map()[weak_key@]
                &&& final(self).weak_map() == old(self).weak_map()
                &&& final(self).store() == old(self).store()
            },
            !old(self).weak_map().contains_key(weak_key@) ==> exists|b: Option<Vec<u8>>|
                {
                    &&& create.ensures((), b)
                    &&& match b {
                        None => {
                            &&& r == Err::<String, DistError>(DistError::ToolchainPackaging)
                            &&& final(self).weak_map() == old(self).weak_map()
                            &&& final(self).store() == old(self).store()
                        },
                        Some(v) => {
                            &&& r matches Ok(s) && s@ == resolve_weak(old(self).weak_map(), weak_key@, v@)
                            &&& final(self).weak_map() == weak_map_after(
                                old(self).weak_map(),
                                weak_key@,
                                v@,
                            )
                            &&& final(self).store() == stored_after(old(self).store(), content_hash(v@), v@)
                        },
                    }
                },
    {
        match self.weak_to_strong(weak_key) {
            Some(strong) => Ok(strong),
            None => {
                let made = create();
                let ghost m = made;
                match made {
                    None => {
                        assert(create.ensures((), m));
                        Err(DistError::ToolchainPackaging)
                    },
                    Some(data) => {
                        let strong = self.insert_toolchain(data);
                        self.record_weak(String::from_str(weak_key), strong.clone());
                        assert(create.ensures((), m));
                        Ok(strong)
                    },
                }
            },
        }
    }

    /// The toolchain of the compiler whose weak key is `weak_key`: the
    /// default image with the strong key of its archive, packaged by
    /// `create` where the weak map has none.
    pub fn resolve_toolchain<F: FnOnce() -> Option<Vec<u8>>>(&mut self, weak_key: &str, create: F) -> (r:
        Result<Toolchain, DistError>)
        requires
            old(self).wf(),
            !old(self).weak_map().contains_key(weak_key@) ==> create.requires(()),
        ensures
            final(self).wf(),
            r matches Ok(t) ==> t.docker_img@ == DEFAULT_IMAGE@ && final(self).weak_map().contains_key(weak_key@)
                && t.archive_id@ == final(self).weak_map()[weak_key@],
            old(self).weak_map().contains_key(weak_key@) ==> r is Ok && final(self).weak_map() == old(self).weak_map()
                && final(self).store() == old(self).store(),
            r is Err ==> r == Err::<Toolchain, DistError>(DistError::ToolchainPackaging)
                && final(self).weak_map() == old(self).weak_map() && final(self).store() == old(self).store(),
    {
        match self.put_toolchain_cache(weak_key, create) {
            Ok(strong) => Ok(Toolchain { docker_img: String::from_str(DEFAULT_IMAGE), archive_id: strong }),
            Err(e) => Err(e),
        }
    }
}

/// The image that packaged toolchains are unpacked into.
pub const DEFAULT_IMAGE: &'static str = "aidanhs/busybox";

/// `creating `, which starts the line where the packager names its archive.
pub open spec fn creating_prefix() -> Seq<u8> {
    seq![0x63u8, 0x72u8, 0x65u8, 0x61u8, 0x74u8, 0x69u8, 0x6eu8, 0x67u8, 0x20u8]
}

/// The path that the first line of `out` starting with `creating ` names,
/// if there is such a line.
pub open spec fn packaged_archive(lines: Seq<Seq<u8>>) -> Option<Seq<u8>>
    decreases lines.len(),
{
    if lines.len() == 0 {
        None
    } else if crate::bytes::starts_with(lines[0], creating_prefix()) {
        Some(lines[0].subrange(creating_prefix().len() as int, lines[0].len() as int))
    } else {
        packaged_archive(lines.drop_first())
    }
}

/// The archive path that the packager reports on its standard output: what
/// follows `creating ` on the first line that starts with it.
pub fn packaged_archive_path(stdout: &[u8]) -> (r: Option<Vec<u8>>)
    ensures
        opt_bytes(r) == packaged_archive(crate::worker::split_lines(stdout@)),
{
    let lines = crate::worker::split_diff_lines(stdout);
    let ghost ls = crate::worker::views(lines@);
    let prefix: Vec<u8> = vec![0x63u8, 0x72u8, 0x65u8, 0x61u8, 0x74u8, 0x69u8, 0x6eu8, 0x67u8, 0x20u8];
    assert(prefix@ =~= creating_prefix());
    let mut i: usize = 0;
    assert(ls.subrange(0, ls.len() as int) =~= ls);
    while i < lines.len()
        invariant
            i <= lines@.len(),
            ls == crate::worker::views(lines@),
            ls == crate::worker::split_lines(stdout@),
            prefix@ == creating_prefix(),
            packaged_archive(ls) == packaged_archive(ls.subrange(i as int, ls.len() as int)),
        decreases lines@.len() - i,
    {
        let line = &lines[i];
        let ghost rest = ls.subrange(i as int, ls.len() as int);
        assert(rest[0] == line@);
        if line.len() >= prefix.len() && crate::bytes::bytes_eq(
            vstd::slice::slice_subrange(line.as_slice(), 0, prefix.len()),
            prefix.as_slice(),
        ) {
            let path = vstd::slice::slice_to_vec(
                vstd::slice::slice_subrange(line.as_slice(), prefix.len(), line.len()),
            );
            assert(path@ =~= line@.subrange(creating_prefix().len() as int, line@.len() as int));
            assert(crate::bytes::starts_with(line@, creating_prefix()));
            assert(packaged_archive(rest) == Some(path@));
            return Some(path);
        }
        assert(!crate::bytes::starts_with(line@, creating_prefix()));
        assert(rest.drop_first() =~= ls.subrange(i + 1, ls.len() as int));
        i = i + 1;
    }
    None
}

/// Where one distributed compile stands.
#[derive(Debug, Clone, Copy, PartialEq, Eq, Structural)]
pub enum Phase {
    /// Waiting for the scheduler's allocation.
    Allocating,
    /// The job went to the worker without the toolchain archive.
    Submitted,
    /// The job went to the worker again, with the toolchain archive.
    Uploaded,
    /// Nothing more to do.
    Finished,
}

/// What the client learnt since its last step.
#[derive(Debug, Clone)]
pub enum ClientEvent {
    /// The scheduler allocated a job.
    Allocated(JobAllocResult),
    /// The worker answered the job request.
    Answered(JobResult),
    /// The scheduler could not be reached.
    SchedulerUnavailable,
    /// The worker could not be reached.
    WorkerUnavailable,
}

/// Why a distributed compile failed.
#[derive(Debug, Clone, Copy, PartialEq, Eq, Structural)]
pub enum DistError {
    SchedulerUnavailable,
    WorkerUnavailable,
    /// The worker asked for the toolchain again after it was sent.
    ToolchainRejected,
    /// The toolchain archive is not in the client's store.
    ToolchainMissing,
    /// An event that does not fit the compile's phase.
    Unexpected,
    /// Packaging the toolchain failed.
    ToolchainPackaging,
}

/// What the client is to do next.
#[derive(Debug, Clone)]
pub enum ClientAction {
    /// Send the session's job to the worker at this address.
    SendJob(SocketAddress),
    /// The compile finished on the worker.
    Complete(JobComplete),
    /// The compile failed.
    Fail(DistError),
}

/// One distributed compile, from allocation to result.
pub struct CompileSession {
    /// The job to send.
    pub job: JobRequest,
    /// The worker that was allocated, once known.
    pub worker: Option<SocketAddress>,
    pub phase: Phase,
}

/// The job's toolchain data, seen as bytes.
pub open spec fn data_view(d: Option<Vec<u8>>) -> Option<Seq<u8>> {
    match d {
        Some(b) => Some(b@),
        None => None,
    }
}

impl CompileSession {
    /// Once the job was sent, the session knows its worker.
    pub open spec fn inv(&self) -> bool {
        (self.phase == Phase::Submitted || self.phase == Phase::Uploaded) ==> self.worker is Some
    }

    /// A compile that waits for its allocation; the job goes out without
    /// the toolchain archive.
    pub fn new(job: JobRequest) -> (r: CompileSession)
        ensures
            r.inv(),
            r.phase == Phase::Allocating,
            r.worker is None,
            r.job.toolchain@ == job.toolchain@,
            r.job.toolchain_data is None,
    {
        let mut job = job;
        job.toolchain_data = None;
        CompileSession { job, worker: None, phase: Phase::Allocating }
    }

    /// Takes one event and says what to do: send the job once allocated;
    /// on the worker's first request for the toolchain, attach the archive
    /// from the client's store and send again; hand back a completed
    /// result; fail on anything else.
    pub fn step(&mut self, client: &SccacheDaemonClient, event: ClientEvent) -> (r: ClientAction)
        requires
            client.wf(),
            old(self).inv(),
        ensures
            final(self).inv(),
            final(self).job.toolchain@ == old(self).job.toolchain@,
            final(self).job.command == old(self).job.command,
            final(self).job.inputs_archive == old(self).job.inputs_archive,
            final(self).job.outputs == old(self).job.outputs,
            match (old(self).phase, event) {
                (Phase::Allocating, ClientEvent::Allocated(a)) => {
                    &&& r == ClientAction::SendJob(a.addr)
                    &&& final(self).phase == Phase::Submitted
                    &&& final(self).worker == Some(a.addr)
                    &&& final(self).job.toolchain_data == old(self).job.toolchain_data
                },
                (Phase::Allocating, ClientEvent::SchedulerUnavailable) => {
                    &&& r == ClientAction::Fail(DistError::SchedulerUnavailable)
                    &&& final(self).phase == Phase::Finished
                },
                (Phase::Submitted, ClientEvent::Answered(JobResult::NeedToolchain)) => {
                    let id = old(self).job.toolchain.archive_id@;
                    if client.store().contains_key(id) {
                        &&& old(self).worker matches Some(w)
                        &&& r == ClientAction::SendJob(w)
                        &&& final(self).phase == Phase::Uploaded
                        &&& data_view(final(self).job.toolchain_data) == Some(client.store()[id])
                        &&& final(self).worker == old(self).worker
                    } else {
                        &&& r == ClientAction::Fail(DistError::ToolchainMissing)
                        &&& final(self).phase == Phase::Finished
                    }
                },
                (Phase::Uploaded, ClientEvent::Answered(JobResult::NeedToolchain)) => {
                    &&& r == ClientAction::Fail(DistError::ToolchainRejected)
                    &&& final(self).phase == Phase::Finished
                },
                (Phase::Submitted, ClientEvent::Answered(JobResult::Complete(c)))
                | (Phase::Uploaded, ClientEvent::Answered(JobResult::Complete(c))) => {
                    &&& r == ClientAction::Complete(c)
                    &&& final(self).phase == Phase::Finished
                },
                (Phase::Submitted, ClientEvent::WorkerUnavailable)
                | (Phase::Uploaded, ClientEvent::WorkerUnavailable) => {
                    &&& r == ClientAction::Fail(DistError::WorkerUnavailable)
                    &&& final(self).phase == Phase::Finished
                },
                _ => {
                    &&& r == ClientAction::Fail(DistError::Unexpected)
                    &&& final(self).phase == Phase::Finished
                },
            },
    {
        match (self.phase, event) {
            (Phase::Allocating, ClientEvent::Allocated(a)) => {
                self.worker = Some(a.addr);
                self.phase = Phase::Submitted;
                ClientAction::SendJob(a.addr)
            },
            (Phase::Allocating, ClientEvent::SchedulerUnavailable) => {
                self.phase = Phase::Finished;
                ClientAction::Fail(DistError::SchedulerUnavailable)
            },
            (Phase::Submitted, ClientEvent::Answered(JobResult::NeedToolchain)) => {
                match self.worker {
                    Some(w) => match client.get_toolchain_cache(self.job.toolchain.archive_id.as_str()) {
                        Ok(data) => {
                            self.job.toolchain_data = Some(data);
                            self.phase = Phase::Uploaded;
                            ClientAction::SendJob(w)
                        },
                        Err(_) => {
                            self.phase = Phase::Finished;
                            ClientAction::Fail(DistError::ToolchainMissing)
                        },
                    },
                    None => {
                        self.phase = Phase::Finished;
                        ClientAction::Fail(DistError::Unexpected)
                    },
                }
            },
            (Phase::Uploaded, ClientEvent::Answered(JobResult::NeedToolchain)) => {
                self.phase = Phase::Finished;
                ClientAction::Fail(DistError::ToolchainRejected)
            },
            (Phase::Submitted, ClientEvent::Answered(JobResult::Complete(c)))
            | (Phase::Uploaded, ClientEvent::Answered(JobResult::Complete(c))) => {
                self.phase = Phase::Finished;
                ClientAction::Complete(c)
            },
            (Phase::Submitted, ClientEvent::WorkerUnavailable)
            | (Phase::Uploaded, ClientEvent::WorkerUnavailable) => {
                self.phase = Phase::Finished;
                ClientAction::Fail(DistError::WorkerUnavailable)
            },
            _ => {
                self.phase = Phase::Finished;
                ClientAction::Fail(DistError::Unexpected)
            },
        }
    }
}

} // verus!
