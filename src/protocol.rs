//! Values exchanged between client, scheduler and build worker.
use vstd::prelude::*;

verus! {

/// A packaged compiler and the container image it runs in.
#[derive(Debug, Clone, Hash, Eq)]
pub struct Toolchain {
    /// The container image the toolchain is unpacked into.
    pub docker_img: String,
    /// Content hash of the packaged toolchain archive.
    pub archive_id: String,
}

impl PartialEq for Toolchain {
    fn eq(&self, o: &Toolchain) -> (r: bool)
        ensures
            r == (self@ == o@),
    {
        self.docker_img == o.docker_img && self.archive_id == o.archive_id
    }
}

impl vstd::std_specs::cmp::PartialEqSpecImpl for Toolchain {
    open spec fn obeys_eq_spec() -> bool {
        true
    }

    open spec fn eq_spec(&self, o: &Toolchain) -> bool {
        self@ == o@
    }
}

impl View for Toolchain {
    type V = (Seq<char>, Seq<char>);

    open spec fn view(&self) -> (Seq<char>, Seq<char>) {
        (self.docker_img@, self.archive_id@)
    }
}

impl Toolchain {
    /// A copy of the toolchain.
    pub fn duplicate(&self) -> (r: Toolchain)
        ensures
            r@ == self@,
    {
        Toolchain { docker_img: self.docker_img.clone(), archive_id: self.archive_id.clone() }
    }
}

/// Exit code and captured streams of a finished process.
#[derive(Debug, Clone)]
pub struct ProcessOutput {
    /// The exit code; `None` when a signal ended the process.
    pub code: Option<i32>,
    pub stdout: Vec<u8>,
    pub stderr: Vec<u8>,
}

/// A job identifier, unique within one scheduler's lifetime.
#[derive(Debug, Clone, Copy, Hash, PartialEq, Eq, Structural)]
pub struct JobId(pub u64);

/// Index of a worker in the scheduler's pool.
#[derive(Debug, Clone, Copy, Hash, PartialEq, Eq, Structural)]
pub struct ServerId(pub u64);

/// An IP address.
#[derive(Debug, Clone, Copy, Hash, PartialEq, Eq, Structural)]
pub enum IpAddress {
    V4(u32),
    V6(u128),
}

/// An IP address and a port.
#[derive(Debug, Clone, Copy, Hash, PartialEq, Eq, Structural)]
pub struct SocketAddress {
    pub ip: IpAddress,
    pub port: u16,
}

/// Port on which the scheduler accepts workers.
pub const SCHEDULER_SERVERS_PORT: u16 = 10500;

/// Port on which the scheduler accepts allocation requests from clients.
pub const SCHEDULER_CLIENTS_PORT: u16 = 10501;

/// Port on which a worker accepts job requests from clients.
pub const SERVER_CLIENTS_PORT: u16 = 10502;

/// A compiler invocation; paths and arguments are raw byte strings.
#[derive(Debug, Clone)]
pub struct CompileCommand {
    pub executable: Vec<u8>,
    pub arguments: Vec<Vec<u8>>,
    pub env_vars: Vec<(Vec<u8>, Vec<u8>)>,
    pub cwd: Vec<u8>,
}

/// A compile job sent from a client to a worker.
#[derive(Debug, Clone)]
pub struct JobRequest {
    pub command: CompileCommand,
    /// A tar archive of the job's inputs, unpacked at the container root.
    pub inputs_archive: Vec<u8>,
    /// Paths, relative to the command's directory, to bring back.
    pub outputs: Vec<Vec<u8>>,
    pub toolchain: Toolchain,
    /// The toolchain archive, sent when the worker asked for it.
    pub toolchain_data: Option<Vec<u8>>,
}

/// A worker's answer to a job request.
#[derive(Debug, Clone)]
pub enum JobResult {
    Complete(JobComplete),
    NeedToolchain,
}

/// A finished job: the compiler's output and the files it produced.
#[derive(Debug, Clone)]
pub struct JobComplete {
    pub output: ProcessOutput,
    pub outputs: Vec<(Vec<u8>, Vec<u8>)>,
}

/// A client's request for a build slot.
#[derive(Debug, Clone)]
pub struct JobAllocRequest {
    pub toolchain: Toolchain,
}

/// The scheduler's answer: a job id and where to send the job.
#[derive(Debug, Clone, Copy, PartialEq, Eq, Structural)]
pub struct JobAllocResult {
    pub job_id: JobId,
    pub addr: SocketAddress,
}

/// Scheduler-to-worker notice that a job id is to be expected.
#[derive(Debug, Clone, Copy, PartialEq, Eq, Structural)]
pub struct AllocAssignment {
    pub job_id: JobId,
}

/// What a build produced.
#[derive(Debug, Clone)]
pub struct BuildResult {
    pub output: ProcessOutput,
    pub outputs: Vec<(Vec<u8>, Vec<u8>)>,
}

} // verus!
