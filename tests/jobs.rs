use sccache_dist::client::{ClientAction, ClientEvent, CompileSession, DistError, Phase, SccacheDaemonClient};
use sccache_dist::compiler::{CCompiler, CCompilerKind, ParsedArguments};
use sccache_dist::key::{hash_key, Language};
use sccache_dist::protocol::{
    CompileCommand, IpAddress, JobAllocResult, JobComplete, JobId, JobRequest, JobResult,
    ProcessOutput, SocketAddress, Toolchain,
};
use sccache_dist::request::{dist_requests, input_archive_path, inputs_archive, job_requests, rewrite_language_arg};
use sccache_dist::worker::{
    exec_args, image_name, plan_cleanup, CleanupPlan, ContainerSource, SccacheBuilder,
    SccacheDaemonServer, ServerDecision,
};

fn bytes(items: &[&str]) -> Vec<Vec<u8>> {
    items.iter().map(|s| s.as_bytes().to_vec()).collect()
}

fn toolchain(archive_id: &str) -> Toolchain {
    Toolchain { docker_img: "aidanhs/busybox".to_string(), archive_id: archive_id.to_string() }
}

fn command(args: &[&str]) -> CompileCommand {
    CompileCommand {
        executable: b"/usr/bin/cc".to_vec(),
        arguments: bytes(args),
        env_vars: vec![],
        cwd: b"/home/me/src".to_vec(),
    }
}

fn job(archive_id: &str) -> JobRequest {
    JobRequest {
        command: command(&["-x", "c", "-c", "foo.c"]),
        inputs_archive: vec![1, 2, 3],
        outputs: vec![b"foo.o".to_vec()],
        toolchain: toolchain(archive_id),
        toolchain_data: None,
    }
}

fn complete() -> JobResult {
    JobResult::Complete(JobComplete {
        output: ProcessOutput { code: Some(0), stdout: vec![], stderr: vec![] },
        outputs: vec![(b"/home/me/src/foo.o".to_vec(), b"obj".to_vec())],
    })
}

fn allocation() -> JobAllocResult {
    JobAllocResult {
        job_id: JobId(0),
        addr: SocketAddress { ip: IpAddress::V4(0x7f00_0001), port: 10502 },
    }
}

#[test]
fn language_rewrite_for_preprocessed_input() {
    let mut args = bytes(&["-x", "c++", "-c", "foo.cpp"]);
    rewrite_language_arg(&mut args, Language::Cxx);
    assert_eq!(args, bytes(&["-x", "c++-cpp-output", "-c", "foo.cpp"]));
    let mut args = bytes(&["-c", "-x", "c", "foo.c", "-x", "c"]);
    rewrite_language_arg(&mut args, Language::C);
    assert_eq!(args, bytes(&["-c", "-x", "cpp-output", "foo.c", "-x", "c"]));
    let mut args = bytes(&["-x", "objective-c", "a.m"]);
    rewrite_language_arg(&mut args, Language::ObjectiveC);
    assert_eq!(args, bytes(&["-x", "objective-c-cpp-output", "a.m"]));
    let mut args = bytes(&["-x", "objective-c++", "a.mm"]);
    rewrite_language_arg(&mut args, Language::ObjectiveCxx);
    assert_eq!(args, bytes(&["-x", "objective-c++-cpp-output", "a.mm"]));
    let mut args = bytes(&["-c", "foo.c"]);
    rewrite_language_arg(&mut args, Language::C);
    assert_eq!(args, bytes(&["-c", "foo.c"]));
}

#[test]
fn input_path_in_archive() {
    assert_eq!(input_archive_path(b"/home/me", b"foo.c"), Some(b"home/me/foo.c".to_vec()));
    assert_eq!(input_archive_path(b"/home/me/", b"foo.c"), Some(b"home/me/foo.c".to_vec()));
    assert_eq!(input_archive_path(b"/home/me", b"/tmp/foo.c"), Some(b"tmp/foo.c".to_vec()));
    assert_eq!(input_archive_path(b"relative", b"foo.c"), None);
}

#[test]
fn inputs_archive_holds_the_source() {
    let archive = inputs_archive(b"/src", b"foo.c", b"int x;", 0o644, 0).unwrap();
    assert_eq!(archive.len() % 512, 0);
    assert!(archive.len() >= 1024);
    assert_eq!(&archive[..9], b"src/foo.c");
    assert_eq!(&archive[512..518], b"int x;");
    assert!(inputs_archive(b"src", b"foo.c", b"int x;", 0o644, 0).is_none());
}

#[test]
fn dist_requests_build_the_job() {
    let (a, j) = dist_requests(
        command(&["-x", "c", "-c", "foo.c"]),
        Language::C,
        b"foo.c",
        b"int x;",
        0o644,
        0,
        vec![b"foo.o".to_vec()],
        toolchain("abc"),
    )
    .unwrap();
    assert_eq!(a.toolchain, toolchain("abc"));
    assert_eq!(j.toolchain, toolchain("abc"));
    assert!(j.toolchain_data.is_none());
    assert_eq!(j.outputs, vec![b"foo.o".to_vec()]);
    assert_eq!(j.command.arguments, bytes(&["-x", "cpp-output", "-c", "foo.c"]));
    assert_eq!(&j.inputs_archive[..16], b"home/me/src/foo.");
}

#[test]
fn cold_toolchain_is_uploaded_once() {
    let mut client = SccacheDaemonClient::new();
    let archive_id = client.put_toolchain_cache("/usr/bin/cc-abcd", || Some(b"archive".to_vec())).unwrap();
    let mut server = SccacheDaemonServer::new();
    let mut session = CompileSession::new(job(&archive_id));
    let action = session.step(&client, ClientEvent::Allocated(allocation()));
    assert!(matches!(action, ClientAction::SendJob(a) if a == allocation().addr));
    assert!(session.job.toolchain_data.is_none());
    let first = server.handle_compile_request(session.job.clone());
    let answer = match first {
        ServerDecision::Reply(r) => r,
        ServerDecision::Build(_) => panic!("the worker has no toolchain yet"),
    };
    let action = session.step(&client, ClientEvent::Answered(answer));
    assert!(matches!(action, ClientAction::SendJob(_)));
    assert_eq!(session.phase, Phase::Uploaded);
    assert_eq!(session.job.toolchain_data, Some(b"archive".to_vec()));
    match server.handle_compile_request(session.job.clone()) {
        ServerDecision::Build(j) => assert!(j.toolchain_data.is_none()),
        ServerDecision::Reply(_) => panic!("the toolchain was sent"),
    }
    let action = session.step(&client, ClientEvent::Answered(complete()));
    assert!(matches!(action, ClientAction::Complete(_)));
    assert_eq!(session.phase, Phase::Finished);
    // Warm toolchain: the next job builds at once.
    match server.handle_compile_request(job(&archive_id)) {
        ServerDecision::Build(_) => {}
        ServerDecision::Reply(_) => panic!("the worker has the toolchain"),
    }
}

#[test]
fn warm_toolchain_completes_directly() {
    let client = SccacheDaemonClient::new();
    let mut session = CompileSession::new(job("abc"));
    session.step(&client, ClientEvent::Allocated(allocation()));
    let action = session.step(&client, ClientEvent::Answered(complete()));
    assert!(matches!(action, ClientAction::Complete(c) if c.outputs.len() == 1));
}

#[test]
fn session_failures() {
    let client = SccacheDaemonClient::new();
    let mut s = CompileSession::new(job("abc"));
    assert!(matches!(s.step(&client, ClientEvent::SchedulerUnavailable), ClientAction::Fail(DistError::SchedulerUnavailable)));
    let mut s = CompileSession::new(job("abc"));
    s.step(&client, ClientEvent::Allocated(allocation()));
    assert!(matches!(
        s.step(&client, ClientEvent::Answered(JobResult::NeedToolchain)),
        ClientAction::Fail(DistError::ToolchainMissing)
    ));
    let mut client = SccacheDaemonClient::new();
    let id = client.put_toolchain_cache("w", || Some(b"tc".to_vec())).unwrap();
    let mut s = CompileSession::new(job(&id));
    s.step(&client, ClientEvent::Allocated(allocation()));
    s.step(&client, ClientEvent::Answered(JobResult::NeedToolchain));
    assert!(matches!(
        s.step(&client, ClientEvent::Answered(JobResult::NeedToolchain)),
        ClientAction::Fail(DistError::ToolchainRejected)
    ));
    let mut s = CompileSession::new(job("abc"));
    s.step(&client, ClientEvent::Allocated(allocation()));
    assert!(matches!(s.step(&client, ClientEvent::WorkerUnavailable), ClientAction::Fail(DistError::WorkerUnavailable)));
    let mut s = CompileSession::new(job("abc"));
    assert!(matches!(s.step(&client, ClientEvent::Answered(complete())), ClientAction::Fail(DistError::Unexpected)));
}

#[test]
fn additions_only_recycle_the_container() {
    let diff = b"A /home\nA /home/me\nA /home/me/src\nA /home/me/src/foo.c\nA /home/me/src/foo.o\nA /tmp/x\n";
    match plan_cleanup(diff) {
        CleanupPlan::Recycle(paths) => assert_eq!(paths, bytes(&["/home", "/tmp/x"])),
        CleanupPlan::Discard => panic!("only additions"),
    }
    match plan_cleanup(b"A /ab\nA /abc\n") {
        CleanupPlan::Recycle(paths) => assert_eq!(paths, bytes(&["/ab", "/abc"])),
        CleanupPlan::Discard => panic!("only additions"),
    }
    match plan_cleanup(b"") {
        CleanupPlan::Recycle(paths) => assert!(paths.is_empty()),
        CleanupPlan::Discard => panic!("no changes"),
    }
}

#[test]
fn dirty_container_is_discarded() {
    assert!(matches!(plan_cleanup(b"A /tmp/x\nD /usr/bin/cc\n"), CleanupPlan::Discard));
    assert!(matches!(plan_cleanup(b"C /etc\n"), CleanupPlan::Discard));
    assert!(matches!(plan_cleanup(b"garbage\n"), CleanupPlan::Discard));
    let tc = toolchain("abc");
    let mut builder = SccacheBuilder::new();
    assert!(matches!(builder.take_container(&tc), ContainerSource::NeedsImage));
    let image = builder.record_image(tc.clone(), image_name(&tc));
    assert_eq!(image, "sccache-builder-abc");
    assert!(matches!(builder.take_container(&tc), ContainerSource::FromImage(ref i) if i == "sccache-builder-abc"));
    // The container was discarded, so it never went back to the pool.
    assert!(matches!(builder.take_container(&tc), ContainerSource::FromImage(_)));
}

#[test]
fn clean_container_is_reused() {
    let tc = toolchain("abc");
    let other = toolchain("def");
    let mut builder = SccacheBuilder::new();
    builder.record_image(tc.clone(), "img".to_string());
    assert_eq!(builder.record_image(tc.clone(), "img2".to_string()), "img");
    builder.return_container(tc.clone(), "c1".to_string());
    assert!(matches!(builder.take_container(&other), ContainerSource::NeedsImage));
    assert!(matches!(builder.take_container(&tc), ContainerSource::Recycled(ref c) if c == "c1"));
    assert!(matches!(builder.take_container(&tc), ContainerSource::FromImage(_)));
}

#[test]
fn exec_arguments() {
    let mut cmd = command(&["-c", "foo.c"]);
    cmd.env_vars = vec![(b"PATH".to_vec(), b"/bin".to_vec())];
    assert_eq!(
        exec_args("cid", &cmd),
        bytes(&[
            "exec", "-e", "PATH=/bin", "cid", "/busybox", "sh", "-c",
            "cd \"$1\" && shift && exec \"$@\"", "/usr/bin/cc", "/home/me/src", "/usr/bin/cc",
            "-c", "foo.c",
        ])
    );
}

#[test]
fn preprocessor_result_becomes_a_key() {
    let compiler = CCompiler::new(CCompilerKind::GCC, b"/usr/bin/cc".to_vec(), "abcd".to_string());
    assert_eq!(compiler.kind(), CCompilerKind::GCC);
    let parsed = ParsedArguments {
        input: b"foo.c".to_vec(),
        language: Language::C,
        depfile: None,
        outputs: vec![("obj".to_string(), b"out/foo.o".to_vec())],
        preprocessor_args: vec![],
        common_args: bytes(&["-O2"]),
        msvc_show_includes: false,
        profile_generate: false,
    };
    assert_eq!(parsed.output_pretty(), "foo.o");
    assert_eq!(parsed.output_paths(), vec![b"out/foo.o".to_vec()]);
    let hasher = compiler.hasher(parsed.clone());
    assert_eq!(hasher.output_pretty(), "foo.o");
    let ok = ProcessOutput { code: Some(0), stdout: b"int x;".to_vec(), stderr: vec![] };
    let h = hasher.generate_hash_key(&[], ok).unwrap();
    assert_eq!(h.key, hash_key("abcd", Language::C, &bytes(&["-O2"]), &[], b"int x;"));
    assert_eq!(h.weak_toolchain_key, "/usr/bin/cc-abcd");
    assert_eq!(h.preprocessed, b"int x;".to_vec());
    let bad = ProcessOutput { code: Some(1), stdout: b"partial".to_vec(), stderr: b"error".to_vec() };
    let e = hasher.generate_hash_key(&[], bad).err().unwrap();
    assert_eq!(e.code, Some(1));
    assert!(e.stdout.is_empty());
    assert_eq!(e.stderr, b"error".to_vec());
    let none = ParsedArguments { outputs: vec![], ..parsed };
    assert_eq!(none.output_pretty(), "Unknown filename");
}

#[test]
fn unarchivable_input_gives_no_job() {
    // tar refuses `..` in archive paths.
    assert!(inputs_archive(b"/src", b"../foo.c", b"int x;", 0o644, 0).is_none());
    let r = dist_requests(
        command(&["-x", "c", "-c", "../foo.c"]),
        Language::C,
        b"../foo.c",
        b"int x;",
        0o644,
        0,
        vec![],
        toolchain("abc"),
    );
    assert!(r.is_none());
}

#[test]
fn job_requests_from_an_archive() {
    let (a, j) = job_requests(command(&["-x", "c++", "a.cc"]), Language::Cxx, vec![9, 9], vec![], toolchain("t"));
    assert_eq!(a.toolchain, toolchain("t"));
    assert_eq!(j.inputs_archive, vec![9, 9]);
    assert_eq!(j.command.arguments, bytes(&["-x", "c++-cpp-output", "a.cc"]));
    assert!(j.toolchain_data.is_none());
}
