use sccache_dist::protocol::{
    IpAddress, JobAllocRequest, JobId, ServerId, SocketAddress, Toolchain, SERVER_CLIENTS_PORT,
};
use sccache_dist::scheduler::{JobState, SccacheScheduler, SchedulerError};

fn busybox_toolchain() -> Toolchain {
    Toolchain { docker_img: "busybox".to_string(), archive_id: "abc".to_string() }
}

fn addr(last: u32) -> SocketAddress {
    SocketAddress { ip: IpAddress::V4(0x7f00_0000 + last), port: 4000 }
}

#[test]
fn allocation_without_workers_fails() {
    let mut s = SccacheScheduler::new();
    let r = s.handle_allocation_request(JobAllocRequest { toolchain: busybox_toolchain() });
    assert_eq!(r.err(), Some(SchedulerError::NoWorkers));
    assert!(s.jobs().is_empty());
}

#[test]
fn job_ids_are_distinct() {
    let mut s = SccacheScheduler::new();
    assert_eq!(s.register_worker(addr(1)), Some(ServerId(0)));
    let mut ids = Vec::new();
    for _ in 0..50 {
        let a = s.handle_allocation_request(JobAllocRequest { toolchain: busybox_toolchain() }).unwrap();
        assert_eq!(a.assignment.job_id, a.result.job_id);
        assert_eq!(a.result.addr, SocketAddress { ip: IpAddress::V4(0x7f00_0001), port: SERVER_CLIENTS_PORT });
        ids.push(a.result.job_id);
    }
    for i in 0..ids.len() {
        assert_eq!(ids[i], JobId(i as u64));
        for j in 0..i {
            assert_ne!(ids[i], ids[j]);
        }
    }
}

#[test]
fn allocation_goes_round_robin_and_is_recorded() {
    let mut s = SccacheScheduler::new();
    s.register_worker(addr(1));
    s.register_worker(addr(2));
    let a = s.handle_allocation_request(JobAllocRequest { toolchain: busybox_toolchain() }).unwrap();
    let b = s.handle_allocation_request(JobAllocRequest { toolchain: busybox_toolchain() }).unwrap();
    let c = s.handle_allocation_request(JobAllocRequest { toolchain: busybox_toolchain() }).unwrap();
    assert_eq!(a.server, ServerId(0));
    assert_eq!(b.server, ServerId(1));
    assert_eq!(c.server, ServerId(0));
    let jobs = s.jobs();
    assert_eq!(jobs.len(), 3);
    assert!(jobs.iter().all(|j| j.state == JobState::AllocRequested));
    assert!(s.assignment_delivered(a.result.job_id));
    assert!(!s.assignment_delivered(a.result.job_id));
    assert_eq!(s.jobs()[0].state, JobState::AllocSuccess);
}

#[test]
fn losing_a_worker_fails_its_jobs() {
    let mut s = SccacheScheduler::new();
    s.register_worker(addr(1));
    s.register_worker(addr(2));
    let a = s.handle_allocation_request(JobAllocRequest { toolchain: busybox_toolchain() }).unwrap();
    let b = s.handle_allocation_request(JobAllocRequest { toolchain: busybox_toolchain() }).unwrap();
    s.worker_lost(a.server);
    let jobs = s.jobs();
    assert_eq!(jobs.len(), 1);
    assert_eq!(jobs[0].job_id, b.result.job_id);
    let finished = s.finished_jobs();
    assert_eq!(finished.len(), 1);
    assert_eq!(finished[0].job_id, a.result.job_id);
    assert_eq!(finished[0].state, JobState::JobFailed);
    let c = s.handle_allocation_request(JobAllocRequest { toolchain: busybox_toolchain() }).unwrap();
    assert_eq!(c.server, b.server);
    s.worker_lost(b.server);
    let r = s.handle_allocation_request(JobAllocRequest { toolchain: busybox_toolchain() });
    assert_eq!(r.err(), Some(SchedulerError::NoWorkers));
}

#[test]
fn job_lifecycle_ends_in_the_finished_ring() {
    let mut s = SccacheScheduler::new();
    s.register_worker(addr(1));
    let a = s.handle_allocation_request(JobAllocRequest { toolchain: busybox_toolchain() }).unwrap();
    let b = s.handle_allocation_request(JobAllocRequest { toolchain: busybox_toolchain() }).unwrap();
    assert!(!s.job_started(a.result.job_id));
    assert!(s.assignment_delivered(a.result.job_id));
    assert!(s.job_started(a.result.job_id));
    assert_eq!(s.jobs()[0].state, JobState::JobStarted);
    assert!(s.job_finished(a.result.job_id, true));
    assert!(!s.job_finished(a.result.job_id, true));
    assert!(s.job_finished(b.result.job_id, false));
    assert!(s.jobs().is_empty());
    let finished = s.finished_jobs();
    assert_eq!(finished.len(), 2);
    assert_eq!(finished[0].state, JobState::JobCompleted);
    assert_eq!(finished[1].state, JobState::JobFailed);
}

#[test]
fn finished_ring_is_bounded() {
    let mut s = SccacheScheduler::new();
    s.register_worker(addr(1));
    let mut last = JobId(0);
    for _ in 0..100 {
        let a = s.handle_allocation_request(JobAllocRequest { toolchain: busybox_toolchain() }).unwrap();
        assert!(s.job_finished(a.result.job_id, true));
        last = a.result.job_id;
    }
    let finished = s.finished_jobs();
    assert_eq!(finished.len(), sccache_dist::scheduler::FINISHED_JOBS_RETAINED);
    assert_eq!(finished[finished.len() - 1].job_id, last);
    assert_eq!(finished[0].job_id, JobId(100 - sccache_dist::scheduler::FINISHED_JOBS_RETAINED as u64));
}
