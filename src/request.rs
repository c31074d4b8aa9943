//! Turning a preprocessed compilation into a job for a build worker.
use crate::key::{args_view, Language, SLASH};
use crate::protocol::{CompileCommand, JobAllocRequest, JobRequest, Toolchain};
use vstd::prelude::*;
use vstd::string::{StrSliceExecFns, StringSliceAdditionalSpecFns};

verus! {

/// The `-x` flag, whose value names the input language.
pub open spec fn is_x_flag(a: Seq<u8>) -> bool {
    a == seq![0x2du8, 0x78u8]
}

/// The language name that tells the compiler its input is already
/// preprocessed.
pub open spec fn preprocessed_tag(l: Language) -> Seq<u8> {
    match l {
        Language::C => "cpp-output".spec_bytes(),
        Language::Cxx => "c++-cpp-output".spec_bytes(),
        Language::ObjectiveC => "objective-c-cpp-output".spec_bytes(),
        Language::ObjectiveCxx => "objective-c++-cpp-output".spec_bytes(),
    }
}

/// `j` is the value of the first `-x` flag: the first argument after that
/// flag which is not itself `-x`.
pub open spec fn is_language_value(args: Seq<Seq<u8>>, j: int) -> bool {
    &&& 0 <= j < args.len()
    &&& !is_x_flag(args[j])
    &&& exists|i: int| 0 <= i < j && is_x_flag(#[trigger] args[i])
    &&& forall|k: int|
        0 <= k < j && !is_x_flag(#[trigger] args[k]) ==> forall|i: int|
            0 <= i < k ==> !is_x_flag(#[trigger] args[i])
}

/// The arguments with the value of the first `-x` flag replaced by the
/// preprocessed form of `l`; unchanged where there is no such value.
pub open spec fn with_preprocessed_language(args: Seq<Seq<u8>>, l: Language) -> Seq<Seq<u8>> {
    if exists|j: int| is_language_value(args, j) {
        args.update(choose|j: int| is_language_value(args, j), preprocessed_tag(l))
    } else {
        args
    }
}

/// At most one argument is the value of the first `-x` flag.
pub proof fn lemma_language_value_unique(args: Seq<Seq<u8>>, j1: int, j2: int)
    requires
        is_language_value(args, j1),
        is_language_value(args, j2),
    ensures
        j1 == j2,
{
    if j1 < j2 {
        let i = choose|i: int| 0 <= i < j1 && is_x_flag(#[trigger] args[i]);
        assert(!is_x_flag(args[j1]));
        assert(!is_x_flag(args[i]));
    } else if j2 < j1 {
        let i = choose|i: int| 0 <= i < j2 && is_x_flag(#[trigger] args[i]);
        assert(!is_x_flag(args[j2]));
        assert(!is_x_flag(args[i]));
    }
}

/// The preprocessed form of a language's name, as bytes.
pub fn preprocessed_language(l: Language) -> (r: Vec<u8>)
    ensures
        r@ == preprocessed_tag(l),
{
    match l {
        Language::C => "cpp-output".as_bytes_vec(),
        Language::Cxx => "c++-cpp-output".as_bytes_vec(),
        Language::ObjectiveC => "objective-c-cpp-output".as_bytes_vec(),
        Language::ObjectiveCxx => "objective-c++-cpp-output".as_bytes_vec(),
    }
}

/// Tells the compiler that its input is preprocessed: the value of the first
/// `-x` flag becomes the preprocessed form of `language`.
pub fn rewrite_language_arg(args: &mut Vec<Vec<u8>>, language: Language)
    ensures
        args_view(final(args)@) == with_preprocessed_language(args_view(old(args)@), language),
{
    let ghost a = args_view(args@);
    let flag: Vec<u8> = vec![0x2du8, 0x78u8];
    assert(flag@ =~= seq![0x2du8, 0x78u8]);
    let mut seen = false;
    let mut k: usize = 0;
    while k < args.len()
        invariant
            k <= args@.len(),
            a == args_view(args@),
            a == args_view(old(args)@),
            flag@ == seq![0x2du8, 0x78u8],
            seen == exists|i: int| 0 <= i < k && is_x_flag(#[trigger] a[i]),
            forall|k2: int|
                0 <= k2 < k && !is_x_flag(#[trigger] a[k2]) ==> forall|i: int|
                    0 <= i < k2 ==> !is_x_flag(#[trigger] a[i]),
        decreases args@.len() - k,
    {
        let is_flag = crate::bytes::bytes_eq(args[k].as_slice(), flag.as_slice());
        assert(a[k as int] == args@[k as int]@);
        if is_flag {
            seen = true;
        } else if seen {
            assert(is_language_value(a, k as int));
            proof {
                assert forall|j: int| is_language_value(a, j) implies j == k by {
                    lemma_language_value_unique(a, j, k as int);
                }
            }
            let tag = preprocessed_language(language);
            args.set(k, tag);
            assert(args_view(args@) =~= a.update(k as int, preprocessed_tag(language)));
            return;
        }
        k = k + 1;
    }
    assert forall|j: int| !is_language_value(a, j) by {
        if 0 <= j < a.len() && !is_x_flag(a[j]) {
            assert(forall|i: int| 0 <= i < j ==> !is_x_flag(#[trigger] a[i]));
        }
    }
}

/// The path of the command's input file joined to its working directory.
pub open spec fn joined_path(cwd: Seq<u8>, input: Seq<u8>) -> Seq<u8> {
    if input.len() > 0 && input[0] == SLASH {
        input
    } else if cwd.len() == 0 || cwd.last() == SLASH {
        cwd + input
    } else {
        cwd + seq![SLASH] + input
    }
}

/// Where the input file sits in the inputs archive: its absolute path
/// without the leading `/`; none when that path is not absolute.
pub open spec fn archive_path(cwd: Seq<u8>, input: Seq<u8>) -> Option<Seq<u8>> {
    let p = joined_path(cwd, input);
    if p.len() > 0 && p[0] == SLASH {
        Some(p.subrange(1, p.len() as int))
    } else {
        None
    }
}

/// `input` resolved against the directory `cwd`.
pub fn join_path(cwd: &[u8], input: &[u8]) -> (r: Vec<u8>)
    requires
        cwd@.len() + input@.len() + 1 <= usize::MAX,
    ensures
        r@ == joined_path(cwd@, input@),
{
    let mut p: Vec<u8> = Vec::new();
    if input.len() > 0 && input[0] == SLASH {
        crate::bytes::push_all(&mut p, input);
    } else if cwd.len() == 0 || cwd[cwd.len() - 1] == SLASH {
        crate::bytes::push_all(&mut p, cwd);
        crate::bytes::push_all(&mut p, input);
    } else {
        crate::bytes::push_all(&mut p, cwd);
        p.push(SLASH);
        crate::bytes::push_all(&mut p, input);
    }
    assert(p@ =~= joined_path(cwd@, input@));
    p
}

/// The path of the input file in the inputs archive.
pub fn input_archive_path(cwd: &[u8], input: &[u8]) -> (r: Option<Vec<u8>>)
    requires
        cwd@.len() + input@.len() + 1 <= usize::MAX,
    ensures
        r matches Some(p) ==> archive_path(cwd@, input@) == Some(p@),
        r is None ==> archive_path(cwd@, input@) is None,
{
    let p = join_path(cwd, input);
    if p.len() > 0 && p[0] == SLASH {
        let mut out: Vec<u8> = Vec::new();
        crate::bytes::push_all(&mut out, vstd::slice::slice_subrange(p.as_slice(), 1, p.len()));
        Some(out)
    } else {
        None
    }
}

/// A ustar archive holding one regular file at `path` with contents `data`,
/// permission bits `mode` and modification time `mtime`; none where the path
/// cannot stand in such an archive.
pub uninterp spec fn ustar_single_file(path: Seq<u8>, data: Seq<u8>, mode: u32, mtime: u64) -> Option<Seq<u8>>;

/// Bytes, if any, seen as a sequence.
pub open spec fn opt_bytes(b: Option<Vec<u8>>) -> Option<Seq<u8>> {
    match b {
        Some(v) => Some(v@),
        None => None,
    }
}

/// Relies on tar's `Header::new_ustar`, `Header::set_path`,
/// `Header::set_entry_type`, `Header::set_size`, `Header::set_mode`,
/// `Header::set_mtime`, `Header::set_cksum`,
/// `Builder::append` and `Builder::into_inner`: what it returns is an archive
/// of that one file, or a failure, either fixed by the values given. It
/// fails on a path that is not UTF-8 or that tar refuses.
#[verifier::external_body]
fn tar_single_file(path: &[u8], data: &[u8], mode: u32, mtime: u64) -> (r: Option<Vec<u8>>)
    ensures
        opt_bytes(r) == ustar_single_file(path@, data@, mode, mtime),
{
    let mut header = tar::Header::new_ustar();
    header.set_path(std::str::from_utf8(path).ok()?).ok()?;
    header.set_entry_type(tar::EntryType::Regular);
    header.set_size(data.len() as u64);
    header.set_mode(mode);
    header.set_mtime(mtime);
    header.set_cksum();
    let mut builder = tar::Builder::new(Vec::new());
    builder.append(&header, data).ok()?;
    builder.into_inner().ok()
}

/// The inputs archive of a job: the preprocessed source at the path of the
/// input file, under the container root.
pub fn inputs_archive(cwd: &[u8], input: &[u8], preprocessed: &[u8], mode: u32, mtime: u64) -> (r:
    Option<Vec<u8>>)
    requires
        cwd@.len() + input@.len() + 1 <= usize::MAX,
    ensures
        opt_bytes(r) == match archive_path(cwd@, input@) {
            Some(p) => ustar_single_file(p, preprocessed@, mode, mtime),
            None => None,
        },
{
    match input_archive_path(cwd, input) {
        None => None,
        Some(p) => tar_single_file(p.as_slice(), preprocessed, mode, mtime),
    }
}

/// The allocation request and the job request for a compilation whose
/// inputs archive is given; the command's `-x` value is rewritten for
/// preprocessed input, and the job goes out without the toolchain archive.
pub fn job_requests(
    command: CompileCommand,
    language: Language,
    inputs_archive: Vec<u8>,
    outputs: Vec<Vec<u8>>,
    toolchain: Toolchain,
) -> (r: (JobAllocRequest, JobRequest))
    ensures
        r.0.toolchain@ == toolchain@,
        r.1.toolchain@ == toolchain@,
        r.1.toolchain_data is None,
        r.1.outputs@ == outputs@,
        r.1.inputs_archive@ == inputs_archive@,
        r.1.command.executable@ == command.executable@,
        r.1.command.cwd@ == command.cwd@,
        r.1.command.env_vars@ == command.env_vars@,
        args_view(r.1.command.arguments@) == with_preprocessed_language(
            args_view(command.arguments@),
            language,
        ),
{
    let mut command = command;
    rewrite_language_arg(&mut command.arguments, language);
    let alloc = JobAllocRequest { toolchain: toolchain.duplicate() };
    let job = JobRequest { command, inputs_archive, outputs, toolchain, toolchain_data: None };
    (alloc, job)
}

/// Builds the allocation request and the job request for a compilation
/// whose preprocessed source is `preprocessed`: the inputs archive holds it
/// at the input's path, `mode` and `mtime` describing the source file. Fails
/// exactly where that archive cannot be built.
pub fn dist_requests(
    command: CompileCommand,
    language: Language,
    input: &[u8],
    preprocessed: &[u8],
    mode: u32,
    mtime: u64,
    outputs: Vec<Vec<u8>>,
    toolchain: Toolchain,
) -> (r: Option<(JobAllocRequest, JobRequest)>)
    requires
        command.cwd@.len() + input@.len() + 1 <= usize::MAX,
    ensures
        archive_path(command.cwd@, input@) is None ==> r is None,
        archive_path(command.cwd@, input@) matches Some(p) ==> (r is Some <==> ustar_single_file(
            p,
            preprocessed@,
            mode,
            mtime,
        ) is Some),
        r matches Some((alloc, job)) ==> {
            &&& alloc.toolchain@ == toolchain@
            &&& job.toolchain@ == toolchain@
            &&& job.toolchain_data is None
            &&& job.outputs@ == outputs@
            &&& job.command.executable@ == command.executable@
            &&& job.command.cwd@ == command.cwd@
            &&& job.command.env_vars@ == command.env_vars@
            &&& args_view(job.command.arguments@) == with_preprocessed_language(
                args_view(command.arguments@),
                language,
            )
            &&& archive_path(command.cwd@, input@) matches Some(p)
            &&& ustar_single_file(p, preprocessed@, mode, mtime) == Some(job.inputs_archive@)
        },
{
    let archive = inputs_archive(command.cwd.as_slice(), input, preprocessed, mode, mtime);
    match archive {
        None => None,
        Some(inputs_archive) => Some(job_requests(command, language, inputs_archive, outputs, toolchain)),
    }
}

} // verus!
