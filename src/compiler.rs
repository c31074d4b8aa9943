//! The C-family compiler front: parsed arguments, the compiler's identity,
//! and what becomes of the preprocessor's result.
use crate::client::weak_toolchain_key;
use crate::key::{args_view, cache_key, env_view, hash_key, key_material, Language, SLASH};
use crate::protocol::ProcessOutput;
use vstd::prelude::*;
use vstd::string::{StringExecFns, StringSliceAdditionalSpecFns};
use vstd::utf8::encode_utf8;

verus! {

/// Supported C compilers.
#[derive(Debug, Clone, Copy, PartialEq, Eq, Structural)]
pub enum CCompilerKind {
    GCC,
    Clang,
    MSVC,
}

/// A byte string read as UTF-8, each invalid sequence replaced by U+FFFD.
pub uninterp spec fn utf8_lossy_of(b: Seq<u8>) -> Seq<char>;

/// Relies on `String::from_utf8_lossy`: the result depends on the bytes
/// alone.
#[verifier::external_body]
fn utf8_lossy(b: &[u8]) -> (r: String)
    ensures
        r@ == utf8_lossy_of(b@),
{
    String::from_utf8_lossy(b).into_owned()
}

/// The results of parsing a compiler command line.
#[derive(Debug, Clone)]
pub struct ParsedArguments {
    /// The input source file.
    pub input: Vec<u8>,
    /// The language of the input source file.
    pub language: Language,
    /// The file in which to generate dependencies.
    pub depfile: Option<Vec<u8>>,
    /// Output files, keyed by a simple name such as `obj`.
    pub outputs: Vec<(String, Vec<u8>)>,
    /// Arguments for the preprocessor.
    pub preprocessor_args: Vec<Vec<u8>>,
    /// Arguments for the preprocessor or the compiler.
    pub common_args: Vec<Vec<u8>>,
    /// Whether `-showIncludes` was passed to MSVC.
    pub msvc_show_includes: bool,
    /// Whether the compilation generates profiling data.
    pub profile_generate: bool,
}

/// The path of the first output named `obj`.
pub open spec fn obj_output(outputs: Seq<(String, Vec<u8>)>) -> Option<Seq<u8>>
    decreases outputs.len(),
{
    if outputs.len() == 0 {
        None
    } else if outputs[0].0@ == "obj"@ {
        Some(outputs[0].1@)
    } else {
        obj_output(outputs.drop_first())
    }
}

/// What follows the last `/` of a path.
pub open spec fn last_component(p: Seq<u8>) -> Seq<u8> {
    p.subrange(crate::key::file_name_start(p), p.len() as int)
}

/// The file name of the object output, for messages.
pub open spec fn output_pretty_spec(outputs: Seq<(String, Vec<u8>)>) -> Seq<char> {
    match obj_output(outputs) {
        Some(p) => if last_component(p).len() > 0 {
            utf8_lossy_of(last_component(p))
        } else {
            "Unknown filename"@
        },
        None => "Unknown filename"@,
    }
}

impl ParsedArguments {
    /// The file name of the object output, or `Unknown filename`.
    pub fn output_pretty(&self) -> (r: String)
        ensures
            r@ == output_pretty_spec(self.outputs@),
    {
        let mut i: usize = 0;
        let obj = String::from_str("obj");
        assert(self.outputs@.subrange(0, self.outputs@.len() as int) =~= self.outputs@);
        while i < self.outputs.len()
            invariant
                i <= self.outputs@.len(),
                obj@ == "obj"@,
                obj_output(self.outputs@) == obj_output(self.outputs@.subrange(i as int, self.outputs@.len() as int)),
            decreases self.outputs@.len() - i,
        {
            let ghost rest = self.outputs@.subrange(i as int, self.outputs@.len() as int);
            assert(rest[0] == self.outputs@[i as int]);
            if self.outputs[i].0 == obj {
                let p = &self.outputs[i].1;
                let mut start: usize = p.len();
                assert(p@.subrange(0, start as int) =~= p@);
                while start > 0 && p[start - 1] != SLASH
                    invariant
                        start <= p@.len(),
                        crate::key::file_name_start(p@) == crate::key::file_name_start(p@.subrange(0, start as int)),
                    decreases start,
                {
                    assert(p@.subrange(0, start as int - 1) =~= p@.subrange(0, start as int).drop_last());
                    start = start - 1;
                }
                if start == p.len() {
                    return String::from_str("Unknown filename");
                }
                return utf8_lossy(vstd::slice::slice_subrange(p.as_slice(), start, p.len()));
            }
            assert(rest.drop_first() =~= self.outputs@.subrange(i + 1, self.outputs@.len() as int));
            i = i + 1;
        }
        String::from_str("Unknown filename")
    }

    /// The paths of the outputs, in order.
    pub fn output_paths(&self) -> (r: Vec<Vec<u8>>)
        ensures
            r@.len() == self.outputs@.len(),
            forall|i: int| 0 <= i < r@.len() ==> (#[trigger] r@[i])@ == self.outputs@[i].1@,
    {
        let mut r: Vec<Vec<u8>> = Vec::new();
        let mut i: usize = 0;
        while i < self.outputs.len()
            invariant
                i <= self.outputs@.len(),
                r@.len() == i,
                forall|k: int| 0 <= k < i ==> (#[trigger] r@[k])@ == self.outputs@[k].1@,
            decreases self.outputs@.len() - i,
        {
            r.push(vstd::slice::slice_to_vec(self.outputs[i].1.as_slice()));
            i = i + 1;
        }
        r
    }
}

/// A C-family compiler: its executable and the digest of its contents.
#[derive(Debug, Clone)]
pub struct CCompiler {
    pub executable: Vec<u8>,
    pub executable_digest: String,
    pub kind: CCompilerKind,
}

/// What hashing a compilation gives.
#[derive(Debug, Clone)]
pub struct HashResult {
    /// The cache key.
    pub key: String,
    /// The compiler's weak toolchain key.
    pub weak_toolchain_key: String,
    /// The preprocessed source, to ship with the job.
    pub preprocessed: Vec<u8>,
}

/// A compiler together with the parsed arguments of one invocation.
#[derive(Debug, Clone)]
pub struct CCompilerHasher {
    pub parsed_args: ParsedArguments,
    pub executable: Vec<u8>,
    pub executable_digest: String,
    pub kind: CCompilerKind,
}

impl CCompiler {
    /// A compiler whose executable at `executable` has contents digest
    /// `executable_digest`.
    pub fn new(kind: CCompilerKind, executable: Vec<u8>, executable_digest: String) -> (r: CCompiler)
        ensures
            r.kind == kind,
            r.executable == executable,
            r.executable_digest == executable_digest,
    {
        CCompiler { executable, executable_digest, kind }
    }

    /// The kind of compiler.
    pub fn kind(&self) -> (r: CCompilerKind)
        ensures
            r == self.kind,
    {
        self.kind
    }

    /// The hasher for one invocation of this compiler.
    pub fn hasher(&self, parsed_args: ParsedArguments) -> (r: CCompilerHasher)
        ensures
            r.parsed_args == parsed_args,
            r.executable@ == self.executable@,
            r.executable_digest@ == self.executable_digest@,
            r.kind == self.kind,
    {
        CCompilerHasher {
            parsed_args,
            executable: vstd::slice::slice_to_vec(self.executable.as_slice()),
            executable_digest: self.executable_digest.clone(),
            kind: self.kind,
        }
    }
}

impl CCompilerHasher {
    /// The file name of the object output, or `Unknown filename`.
    pub fn output_pretty(&self) -> (r: String)
        ensures
            r@ == output_pretty_spec(self.parsed_args.outputs@),
    {
        self.parsed_args.output_pretty()
    }

    /// Turns the preprocessor's result into the cache key: on success the
    /// key of the preprocessed output with the parsed arguments and the
    /// environment; on failure the preprocessor's exit code and stderr, its
    /// partial output dropped.
    pub fn generate_hash_key(
        &self,
        env_vars: &[(Vec<u8>, Vec<u8>)],
        preprocessor: ProcessOutput,
    ) -> (r: Result<HashResult, ProcessOutput>)
        requires
            key_material(
                encode_utf8(self.executable_digest@),
                self.parsed_args.language,
                args_view(self.parsed_args.common_args@),
                env_view(env_vars@),
                preprocessor.stdout@,
            ).len() <= usize::MAX / 2,
        ensures
            preprocessor.code == Some(0i32) <==> r is Ok,
            r matches Ok(h) ==> {
                &&& h.key@ == cache_key(
                    encode_utf8(self.executable_digest@),
                    self.parsed_args.language,
                    args_view(self.parsed_args.common_args@),
                    env_view(env_vars@),
                    preprocessor.stdout@,
                )
                &&& h.weak_toolchain_key@ == utf8_lossy_of(self.executable@) + seq!['-']
                    + self.executable_digest@
                &&& h.preprocessed@ == preprocessor.stdout@
            },
            r matches Err(o) ==> {
                &&& o.code == preprocessor.code
                &&& o.stderr == preprocessor.stderr
                &&& o.stdout@.len() == 0
            },
    {
        match preprocessor.code {
            Some(0i32) => {},
            _ => {
                return Err(ProcessOutput {
                    code: preprocessor.code,
                    stdout: Vec::new(),
                    stderr: preprocessor.stderr,
                });
            },
        }
        let digest = self.executable_digest.as_str();
        let key = hash_key(
            digest,
            self.parsed_args.language,
            self.parsed_args.common_args.as_slice(),
            env_vars,
            preprocessor.stdout.as_slice(),
        );
        let exe = utf8_lossy(self.executable.as_slice());
        let weak = weak_toolchain_key(exe.as_str(), digest);
        Ok(HashResult { key, weak_toolchain_key: weak, preprocessed: preprocessor.stdout })
    }
}

} // verus!
