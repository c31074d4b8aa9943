//! Cache keys for C-family compilations.
//!
//! A key is the lowercase hex SHA-512 digest of a byte string assembled from
//! the compiler digest, a version byte, the language tag, the arguments, the
//! code-generation environment variables and the preprocessed source.
use crate::bytes::{bytes_eq, lemma_middle_differs, push_all};
use vstd::prelude::*;
use vstd::slice::slice_subrange;
use vstd::string::{StrSliceExecFns, StringSliceAdditionalSpecFns};

verus! {

/// The source language of a compilation.
#[derive(Debug, Clone, Copy, PartialEq, Eq, Structural)]
pub enum Language {
    C,
    Cxx,
    ObjectiveC,
    ObjectiveCxx,
}

/// `/`, the path separator.
pub const SLASH: u8 = 0x2f;

/// `.`, which starts a file extension.
pub const DOT: u8 = 0x2e;

/// `=`, between an environment variable's name and value.
pub const EQUALS: u8 = 0x3d;

/// Bumped whenever the bytes fed into a cache key change shape.
pub const CACHE_VERSION: u8 = 0x36;

/// The language tag that enters a cache key, as ASCII bytes: `c`, `c++`,
/// `objc` or `objc++`.
pub open spec fn language_tag(l: Language) -> Seq<u8> {
    match l {
        Language::C => seq![0x63u8],
        Language::Cxx => seq![0x63u8, 0x2bu8, 0x2bu8],
        Language::ObjectiveC => seq![0x6fu8, 0x62u8, 0x6au8, 0x63u8],
        Language::ObjectiveCxx => seq![0x6fu8, 0x62u8, 0x6au8, 0x63u8, 0x2bu8, 0x2bu8],
    }
}

/// The language that a file extension denotes: `c`; `cc`, `cpp` or `cxx`;
/// `m`; `mm`.
pub open spec fn language_of_extension(e: Seq<u8>) -> Option<Language> {
    if e == seq![0x63u8] {
        Some(Language::C)
    } else if e == seq![0x63u8, 0x63u8] || e == seq![0x63u8, 0x70u8, 0x70u8] || e == seq![0x63u8, 0x78u8, 0x78u8] {
        Some(Language::Cxx)
    } else if e == seq![0x6du8] {
        Some(Language::ObjectiveC)
    } else if e == seq![0x6du8, 0x6du8] {
        Some(Language::ObjectiveCxx)
    } else {
        None
    }
}

/// Index just past the last `/` of `p`, or 0 when there is none.
pub open spec fn file_name_start(p: Seq<u8>) -> int
    decreases p.len(),
{
    if p.len() == 0 {
        0
    } else if p.last() == SLASH {
        p.len() as int
    } else {
        file_name_start(p.drop_last())
    }
}

/// Index of the last `.` of `n`, or -1 when there is none.
pub open spec fn last_dot(n: Seq<u8>) -> int
    decreases n.len(),
{
    if n.len() == 0 {
        -1
    } else if n.last() == DOT {
        n.len() - 1
    } else {
        last_dot(n.drop_last())
    }
}

/// The extension of the last path component: what follows its last `.`,
/// where that `.` is not the component's first byte.
pub open spec fn name_extension(p: Seq<u8>) -> Option<Seq<u8>> {
    let n = p.subrange(file_name_start(p), p.len() as int);
    let d = last_dot(n);
    if d <= 0 {
        None
    } else {
        Some(n.subrange(d + 1, n.len() as int))
    }
}

/// `p` without trailing separators and trailing `.` components, which do
/// not change the path's file name.
pub open spec fn trim_path_end(p: Seq<u8>) -> Seq<u8>
    decreases p.len(),
{
    if p.len() > 0 && p.last() == SLASH {
        trim_path_end(p.drop_last())
    } else if p.len() >= 2 && p.last() == DOT && p[p.len() - 2] == SLASH {
        trim_path_end(p.drop_last())
    } else {
        p
    }
}

/// The extension of a path's file name: what follows the last `.` of its
/// last component, where that `.` is not the component's first byte;
/// trailing separators and `.` components are passed over.
pub open spec fn extension_of(p: Seq<u8>) -> Option<Seq<u8>> {
    name_extension(trim_path_end(p))
}

impl Language {
    /// The language of a source file, from the extension of its name.
    pub fn from_file_name(file: &[u8]) -> (r: Option<Language>)
        ensures
            r == (match extension_of(file@) {
                Some(e) => language_of_extension(e),
                None => None,
            }),
    {
        let mut end: usize = file.len();
        assert(file@.subrange(0, end as int) =~= file@);
        while (end > 0 && file[end - 1] == SLASH) || (end >= 2 && file[end - 1] == DOT && file[end
            - 2] == SLASH)
            invariant
                end <= file@.len(),
                trim_path_end(file@) == trim_path_end(file@.subrange(0, end as int)),
            decreases end,
        {
            assert(file@.subrange(0, end as int - 1) =~= file@.subrange(0, end as int).drop_last());
            end = end - 1;
        }
        let trimmed = slice_subrange(file, 0, end);
        assert(trimmed@ =~= file@.subrange(0, end as int));
        Self::from_last_name(trimmed)
    }

    /// The language of the last component of `file`, by its extension.
    fn from_last_name(file: &[u8]) -> (r: Option<Language>)
        ensures
            r == (match name_extension(file@) {
                Some(e) => language_of_extension(e),
                None => None,
            }),
    {
        let mut start: usize = file.len();
        assert(file@.subrange(0, start as int) =~= file@);
        while start > 0 && file[start - 1] != SLASH
            invariant
                start <= file@.len(),
                file_name_start(file@) == file_name_start(file@.subrange(0, start as int)),
            decreases start,
        {
            assert(file@.subrange(0, start as int - 1) =~= file@.subrange(
                0,
                start as int,
            ).drop_last());
            start = start - 1;
        }
        let ghost n = file@.subrange(start as int, file@.len() as int);
        let mut j: usize = file.len();
        assert(n.subrange(0, j - start) =~= n);
        while j > start && file[j - 1] != DOT
            invariant
                start <= j <= file@.len(),
                n == file@.subrange(start as int, file@.len() as int),
                last_dot(n) == last_dot(n.subrange(0, j - start)),
            decreases j,
        {
            assert(n.subrange(0, j - 1 - start) =~= n.subrange(0, j - start).drop_last());
            j = j - 1;
        }
        if j - start <= 1 {
            return None;
        }
        let ext = slice_subrange(file, j, file.len());
        assert(ext@ =~= n.subrange(last_dot(n) + 1, n.len() as int));
        Self::from_extension(ext)
    }

    /// The language that a file extension denotes, if any.
    pub fn from_extension(e: &[u8]) -> (r: Option<Language>)
        ensures
            r == language_of_extension(e@),
    {
        let c: Vec<u8> = vec![0x63u8];
        let cc: Vec<u8> = vec![0x63u8, 0x63u8];
        let cpp: Vec<u8> = vec![0x63u8, 0x70u8, 0x70u8];
        let cxx: Vec<u8> = vec![0x63u8, 0x78u8, 0x78u8];
        let m: Vec<u8> = vec![0x6du8];
        let mm: Vec<u8> = vec![0x6du8, 0x6du8];
        assert(c@ =~= seq![0x63u8]);
        assert(cc@ =~= seq![0x63u8, 0x63u8]);
        assert(cpp@ =~= seq![0x63u8, 0x70u8, 0x70u8]);
        assert(cxx@ =~= seq![0x63u8, 0x78u8, 0x78u8]);
        assert(m@ =~= seq![0x6du8]);
        assert(mm@ =~= seq![0x6du8, 0x6du8]);
        if bytes_eq(e, c.as_slice()) {
            Some(Language::C)
        } else if bytes_eq(e, cc.as_slice()) || bytes_eq(e, cpp.as_slice()) || bytes_eq(
            e,
            cxx.as_slice(),
        ) {
            Some(Language::Cxx)
        } else if bytes_eq(e, m.as_slice()) {
            Some(Language::ObjectiveC)
        } else if bytes_eq(e, mm.as_slice()) {
            Some(Language::ObjectiveCxx)
        } else {
            None
        }
    }

    /// The language's name, as it enters a cache key.
    pub fn as_str(&self) -> (r: &'static str)
        ensures
            r@ == ascii_chars(language_tag(*self)),
    {
        match *self {
            Language::C => {
                proof {
                    reveal_strlit("c");
                }
                assert(ascii_chars(language_tag(*self)) =~= seq!['c']);
                "c"
            },
            Language::Cxx => {
                proof {
                    reveal_strlit("c++");
                }
                assert(ascii_chars(language_tag(*self)) =~= seq!['c', '+', '+']);
                "c++"
            },
            Language::ObjectiveC => {
                proof {
                    reveal_strlit("objc");
                }
                assert(ascii_chars(language_tag(*self)) =~= seq!['o', 'b', 'j', 'c']);
                "objc"
            },
            Language::ObjectiveCxx => {
                proof {
                    reveal_strlit("objc++");
                }
                assert(ascii_chars(language_tag(*self)) =~= seq!['o', 'b', 'j', 'c', '+', '+']);
                "objc++"
            },
        }
    }

    /// The language's tag as bytes.
    pub fn tag_bytes(&self) -> (r: Vec<u8>)
        ensures
            r@ == language_tag(*self),
    {
        let r: Vec<u8> = match *self {
            Language::C => vec![0x63u8],
            Language::Cxx => vec![0x63u8, 0x2bu8, 0x2bu8],
            Language::ObjectiveC => vec![0x6fu8, 0x62u8, 0x6au8, 0x63u8],
            Language::ObjectiveCxx => vec![0x6fu8, 0x62u8, 0x6au8, 0x63u8, 0x2bu8, 0x2bu8],
        };
        assert(r@ =~= language_tag(*self));
        r
    }
}


/// ASCII bytes read as characters.
pub open spec fn ascii_chars(b: Seq<u8>) -> Seq<char> {
    b.map_values(|x: u8| x as char)
}

/// The arguments' bytes, one after another.
pub open spec fn args_material(args: Seq<Seq<u8>>) -> Seq<u8>
    decreases args.len(),
{
    if args.len() == 0 {
        Seq::empty()
    } else {
        args_material(args.drop_last()) + args.last()
    }
}

/// Environment variables that change code generation without showing in
/// the arguments, and so enter the cache key.
pub open spec fn is_keyed_env_var(name: Seq<u8>) -> bool {
    name == "MACOSX_DEPLOYMENT_TARGET".spec_bytes() || name
        == "IPHONEOS_DEPLOYMENT_TARGET".spec_bytes()
}

/// What one environment entry contributes: `name=value` for a keyed
/// variable, nothing for any other.
pub open spec fn env_entry_material(e: (Seq<u8>, Seq<u8>)) -> Seq<u8> {
    if is_keyed_env_var(e.0) {
        e.0 + seq![EQUALS] + e.1
    } else {
        Seq::empty()
    }
}

/// The environment's contribution, entries in order.
pub open spec fn env_material(env: Seq<(Seq<u8>, Seq<u8>)>) -> Seq<u8>
    decreases env.len(),
{
    if env.len() == 0 {
        Seq::empty()
    } else {
        env_material(env.drop_last()) + env_entry_material(env.last())
    }
}

/// The bytes that are digested into a cache key.
pub open spec fn key_material(
    compiler_digest: Seq<u8>,
    language: Language,
    args: Seq<Seq<u8>>,
    env: Seq<(Seq<u8>, Seq<u8>)>,
    preprocessed: Seq<u8>,
) -> Seq<u8> {
    compiler_digest + seq![CACHE_VERSION] + language_tag(language) + args_material(args)
        + env_material(env) + preprocessed
}

/// The SHA-512 digest of a byte string.
pub uninterp spec fn sha512_of(data: Seq<u8>) -> Seq<u8>;

/// A lowercase hex digit of a value below 16.
pub open spec fn hex_digit(n: u8) -> u8 {
    if n < 10 {
        (0x30 + n) as u8
    } else {
        (0x57 + n) as u8
    }
}

/// Lowercase hex, two digits per byte, most significant first.
pub open spec fn hex_of(b: Seq<u8>) -> Seq<u8>
    decreases b.len(),
{
    if b.len() == 0 {
        Seq::empty()
    } else {
        hex_of(b.drop_last()) + seq![hex_digit(b.last() / 16), hex_digit(b.last() % 16)]
    }
}

/// The lowercase hex SHA-512 digest of a byte string: how cache keys and
/// toolchain archives are named.
pub open spec fn content_hash(data: Seq<u8>) -> Seq<char> {
    ascii_chars(hex_of(sha512_of(data)))
}

/// The cache key of a compilation.
pub open spec fn cache_key(
    compiler_digest: Seq<u8>,
    language: Language,
    args: Seq<Seq<u8>>,
    env: Seq<(Seq<u8>, Seq<u8>)>,
    preprocessed: Seq<u8>,
) -> Seq<char> {
    content_hash(key_material(compiler_digest, language, args, env, preprocessed))
}

/// The arguments as byte strings.
pub open spec fn args_view(args: Seq<Vec<u8>>) -> Seq<Seq<u8>> {
    args.map_values(|a: Vec<u8>| a@)
}

/// The environment as pairs of byte strings.
pub open spec fn env_view(env: Seq<(Vec<u8>, Vec<u8>)>) -> Seq<(Seq<u8>, Seq<u8>)> {
    env.map_values(|e: (Vec<u8>, Vec<u8>)| (e.0@, e.1@))
}

/// Relies on sha2's `Sha512::digest`, the SHA-512 digest of the bytes given,
/// which depends on those bytes alone and is 64 bytes long.
#[verifier::external_body]
fn sha512(data: &[u8]) -> (r: Vec<u8>)
    ensures
        r@ == sha512_of(data@),
        r@.len() == 64,
{
    <sha2::Sha512 as sha2::Digest>::digest(data).to_vec()
}

/// Relies on `String::from_utf8`: ASCII bytes are valid UTF-8, each byte one
/// character.
#[verifier::external_body]
fn ascii_string(b: Vec<u8>) -> (r: String)
    requires
        forall|i: int| 0 <= i < b@.len() ==> b@[i] < 128,
    ensures
        r@ == ascii_chars(b@),
{
    String::from_utf8(b).unwrap_or_default()
}

proof fn lemma_hex_len(b: Seq<u8>)
    ensures
        hex_of(b).len() == 2 * b.len(),
    decreases b.len(),
{
    if b.len() > 0 {
        lemma_hex_len(b.drop_last());
    }
}

/// Lowercase hex of `b`.
pub fn hex_encode(b: &[u8]) -> (r: Vec<u8>)
    requires
        2 * b@.len() <= usize::MAX,
    ensures
        r@ == hex_of(b@),
        forall|i: int| 0 <= i < r@.len() ==> r@[i] < 128,
{
    let mut r: Vec<u8> = Vec::new();
    let mut i: usize = 0;
    assert(b@.subrange(0, 0) =~= Seq::<u8>::empty());
    while i < b.len()
        invariant
            i <= b@.len(),
            r@ == hex_of(b@.subrange(0, i as int)),
            forall|k: int| 0 <= k < r@.len() ==> r@[k] < 128,
        decreases b@.len() - i,
    {
        let x = b[i];
        let hi = x / 16;
        let lo = x % 16;
        let dh: u8 = if hi < 10 { 0x30 + hi } else { 0x57 + hi };
        let dl: u8 = if lo < 10 { 0x30 + lo } else { 0x57 + lo };
        r.push(dh);
        r.push(dl);
        assert(b@.subrange(0, i + 1).drop_last() =~= b@.subrange(0, i as int));
        i = i + 1;
        assert(r@ =~= hex_of(b@.subrange(0, i as int)));
    }
    assert(b@.subrange(0, i as int) =~= b@);
    r
}

/// The names of the environment variables that enter a cache key.
pub fn cached_env_vars() -> (r: Vec<Vec<u8>>)
    ensures
        r@.len() == 2,
        r@[0]@ == "MACOSX_DEPLOYMENT_TARGET".spec_bytes(),
        r@[1]@ == "IPHONEOS_DEPLOYMENT_TARGET".spec_bytes(),
        forall|i: int| 0 <= i < 2 ==> is_keyed_env_var(#[trigger] r@[i]@),
{
    let mac = "MACOSX_DEPLOYMENT_TARGET".as_bytes_vec();
    let ios = "IPHONEOS_DEPLOYMENT_TARGET".as_bytes_vec();
    vec![mac, ios]
}

/// Whether an environment variable enters a cache key.
pub fn is_cached_env_var(name: &[u8]) -> (r: bool)
    ensures
        r == is_keyed_env_var(name@),
{
    let mac = "MACOSX_DEPLOYMENT_TARGET".as_bytes_vec();
    let ios = "IPHONEOS_DEPLOYMENT_TARGET".as_bytes_vec();
    bytes_eq(name, mac.as_slice()) || bytes_eq(name, ios.as_slice())
}

/// Concatenation commutes with the arguments' contribution.
pub proof fn lemma_args_material_concat(a: Seq<Seq<u8>>, b: Seq<Seq<u8>>)
    ensures
        args_material(a + b) == args_material(a) + args_material(b),
    decreases b.len(),
{
    if b.len() == 0 {
        assert(a + b =~= a);
        assert(args_material(a) + args_material(b) =~= args_material(a));
    } else {
        assert((a + b).drop_last() =~= a + b.drop_last());
        lemma_args_material_concat(a, b.drop_last());
        assert(args_material(a + b) =~= args_material(a) + args_material(b));
    }
}

/// Concatenation commutes with the environment's contribution.
pub proof fn lemma_env_material_concat(a: Seq<(Seq<u8>, Seq<u8>)>, b: Seq<(Seq<u8>, Seq<u8>)>)
    ensures
        env_material(a + b) == env_material(a) + env_material(b),
    decreases b.len(),
{
    if b.len() == 0 {
        assert(a + b =~= a);
        assert(env_material(a) + env_material(b) =~= env_material(a));
    } else {
        assert((a + b).drop_last() =~= a + b.drop_last());
        lemma_env_material_concat(a, b.drop_last());
        assert(env_material(a + b) =~= env_material(a) + env_material(b));
    }
}

/// Computes the cache key of compiling `preprocessor_output` as `language`
/// with `arguments` and `env_vars`, using the compiler whose digest is
/// `compiler_digest`.
pub fn hash_key(
    compiler_digest: &str,
    language: Language,
    arguments: &[Vec<u8>],
    env_vars: &[(Vec<u8>, Vec<u8>)],
    preprocessor_output: &[u8],
) -> (r: String)
    requires
        key_material(
            compiler_digest.spec_bytes(),
            language,
            args_view(arguments@),
            env_view(env_vars@),
            preprocessor_output@,
        ).len() <= usize::MAX / 2,
    ensures
        r@ == cache_key(
            compiler_digest.spec_bytes(),
            language,
            args_view(arguments@),
            env_view(env_vars@),
            preprocessor_output@,
        ),
{
    let ghost args = args_view(arguments@);
    let ghost env = env_view(env_vars@);
    let ghost total = key_material(
        compiler_digest.spec_bytes(),
        language,
        args,
        env,
        preprocessor_output@,
    );
    let ghost head = compiler_digest.spec_bytes() + seq![CACHE_VERSION] + language_tag(language);
    proof {
        lemma_args_material_concat(args, Seq::empty());
        lemma_env_material_concat(env, Seq::empty());
    }
    let mut m: Vec<u8> = compiler_digest.as_bytes_vec();
    m.push(CACHE_VERSION);
    let tag = language.tag_bytes();
    push_all(&mut m, tag.as_slice());
    assert(m@ =~= head);
    let mut i: usize = 0;
    while i < arguments.len()
        invariant
            i <= arguments@.len(),
            args == args_view(arguments@),
            env == env_view(env_vars@),
            total == head + args_material(args) + env_material(env) + preprocessor_output@,
            total.len() <= usize::MAX / 2,
            m@ == head + args_material(args.subrange(0, i as int)),
        decreases arguments@.len() - i,
    {
        proof {
            lemma_args_material_concat(args.subrange(0, i + 1), args.subrange(i + 1, args.len() as int));
            assert(args.subrange(0, i + 1) + args.subrange(i + 1, args.len() as int) =~= args);
            assert(args.subrange(0, i + 1).drop_last() =~= args.subrange(0, i as int));
        }
        push_all(&mut m, arguments[i].as_slice());
        i = i + 1;
    }
    assert(args.subrange(0, i as int) =~= args);
    let mut j: usize = 0;
    while j < env_vars.len()
        invariant
            j <= env_vars@.len(),
            env == env_view(env_vars@),
            total == head + args_material(args) + env_material(env) + preprocessor_output@,
            total.len() <= usize::MAX / 2,
            m@ == head + args_material(args) + env_material(env.subrange(0, j as int)),
        decreases env_vars@.len() - j,
    {
        proof {
            lemma_env_material_concat(env.subrange(0, j + 1), env.subrange(j + 1, env.len() as int));
            assert(env.subrange(0, j + 1) + env.subrange(j + 1, env.len() as int) =~= env);
            assert(env.subrange(0, j + 1).drop_last() =~= env.subrange(0, j as int));
        }
        let name = &env_vars[j].0;
        let value = &env_vars[j].1;
        if is_cached_env_var(name.as_slice()) {
            push_all(&mut m, name.as_slice());
            m.push(EQUALS);
            push_all(&mut m, value.as_slice());
        }
        j = j + 1;
        assert(m@ =~= head + args_material(args) + env_material(env.subrange(0, j as int)));
    }
    assert(env.subrange(0, j as int) =~= env);
    push_all(&mut m, preprocessor_output);
    assert(m@ =~= total);
    content_id(m.as_slice())
}

/// The content hash of `data`.
pub fn content_id(data: &[u8]) -> (r: String)
    ensures
        r@ == content_hash(data@),
{
    let digest = sha512(data);
    let hex = hex_encode(digest.as_slice());
    ascii_string(hex)
}

proof fn lemma_args_material_single(x: Seq<u8>)
    ensures
        args_material(seq![x]) == x,
{
    let s = seq![x];
    assert(s.drop_last() =~= Seq::<Seq<u8>>::empty());
    assert(s.last() == x);
    assert(args_material(s.drop_last()) == Seq::<u8>::empty());
    assert(Seq::<u8>::empty() + x =~= x);
}

proof fn lemma_env_material_single(e: (Seq<u8>, Seq<u8>))
    ensures
        env_material(seq![e]) == env_entry_material(e),
{
    let s = seq![e];
    assert(s.drop_last() =~= Seq::<(Seq<u8>, Seq<u8>)>::empty());
    assert(s.last() == e);
    assert(env_material(s.drop_last()) == Seq::<u8>::empty());
    assert(Seq::<u8>::empty() + env_entry_material(e) =~= env_entry_material(e));
}

/// The environment's contribution around one entry that is inserted at `i`.
proof fn lemma_env_material_insert(env: Seq<(Seq<u8>, Seq<u8>)>, i: int, e: (Seq<u8>, Seq<u8>))
    requires
        0 <= i <= env.len(),
    ensures
        env_material(env.insert(i, e)) == env_material(env.subrange(0, i)) + env_entry_material(e)
            + env_material(env.subrange(i, env.len() as int)),
        env_material(env) == env_material(env.subrange(0, i)) + env_material(
            env.subrange(i, env.len() as int),
        ),
{
    let pre = env.subrange(0, i);
    let post = env.subrange(i, env.len() as int);
    assert(env =~= pre + post);
    assert(env.insert(i, e) =~= pre + seq![e] + post);
    lemma_env_material_concat(pre, post);
    lemma_env_material_concat(pre + seq![e], post);
    lemma_env_material_concat(pre, seq![e]);
    lemma_env_material_single(e);
}

/// The environment's contribution around its entry at `i`.
proof fn lemma_env_material_around(env: Seq<(Seq<u8>, Seq<u8>)>, i: int)
    requires
        0 <= i < env.len(),
    ensures
        env_material(env) == env_material(env.subrange(0, i)) + env_entry_material(env[i])
            + env_material(env.subrange(i + 1, env.len() as int)),
{
    let pre = env.subrange(0, i);
    let post = env.subrange(i + 1, env.len() as int);
    assert(env =~= pre + seq![env[i]] + post);
    lemma_env_material_concat(pre + seq![env[i]], post);
    lemma_env_material_concat(pre, seq![env[i]]);
    lemma_env_material_single(env[i]);
}

/// A cache key is a function of its inputs: equal inputs give the same key,
/// in every call and every process.
pub proof fn lemma_key_deterministic(
    d1: Seq<u8>,
    l1: Language,
    a1: Seq<Seq<u8>>,
    e1: Seq<(Seq<u8>, Seq<u8>)>,
    pre1: Seq<u8>,
    d2: Seq<u8>,
    l2: Language,
    a2: Seq<Seq<u8>>,
    e2: Seq<(Seq<u8>, Seq<u8>)>,
    pre2: Seq<u8>,
)
    requires
        d1 == d2,
        l1 == l2,
        a1 == a2,
        e1 == e2,
        pre1 == pre2,
    ensures
        cache_key(d1, l1, a1, e1, pre1) == cache_key(d2, l2, a2, e2, pre2),
{
}

/// Inserting an environment variable that is not keyed, anywhere in the
/// list, leaves the cache key unchanged.
pub proof fn lemma_unkeyed_env_var_ignored(
    d: Seq<u8>,
    l: Language,
    args: Seq<Seq<u8>>,
    env: Seq<(Seq<u8>, Seq<u8>)>,
    p: Seq<u8>,
    i: int,
    name: Seq<u8>,
    value: Seq<u8>,
)
    requires
        0 <= i <= env.len(),
        !is_keyed_env_var(name),
    ensures
        cache_key(d, l, args, env.insert(i, (name, value)), p) == cache_key(d, l, args, env, p),
{
    lemma_env_material_insert(env, i, (name, value));
    assert(env_material(env.insert(i, (name, value))) =~= env_material(env));
}

/// Changing the compiler digest changes the bytes that are digested into
/// the key (the key then differs unless SHA-512 collides).
pub proof fn lemma_key_material_digest_sensitive(
    d1: Seq<u8>,
    d2: Seq<u8>,
    l: Language,
    args: Seq<Seq<u8>>,
    env: Seq<(Seq<u8>, Seq<u8>)>,
    p: Seq<u8>,
)
    requires
        d1 != d2,
    ensures
        key_material(d1, l, args, env, p) != key_material(d2, l, args, env, p),
{
    let e = Seq::<u8>::empty();
    let b = seq![CACHE_VERSION] + language_tag(l) + args_material(args) + env_material(env) + p;
    lemma_middle_differs(e, d1, d2, b);
    assert(key_material(d1, l, args, env, p) =~= e + d1 + b);
    assert(key_material(d2, l, args, env, p) =~= e + d2 + b);
}

/// Changing the language changes the bytes that are digested into the key.
pub proof fn lemma_key_material_language_sensitive(
    d: Seq<u8>,
    l1: Language,
    l2: Language,
    args: Seq<Seq<u8>>,
    env: Seq<(Seq<u8>, Seq<u8>)>,
    p: Seq<u8>,
)
    requires
        l1 != l2,
    ensures
        key_material(d, l1, args, env, p) != key_material(d, l2, args, env, p),
{
    let a = d + seq![CACHE_VERSION];
    let b = args_material(args) + env_material(env) + p;
    assert(language_tag(l1) != language_tag(l2)) by {
        let t1 = language_tag(l1);
        let t2 = language_tag(l2);
        if t1.len() == t2.len() {
            assert(t1[0] != t2[0] || t1 != t2);
        }
    }
    lemma_middle_differs(a, language_tag(l1), language_tag(l2), b);
    assert(key_material(d, l1, args, env, p) =~= a + language_tag(l1) + b);
    assert(key_material(d, l2, args, env, p) =~= a + language_tag(l2) + b);
}

/// Replacing one argument by a different one changes the bytes that are
/// digested into the key.
pub proof fn lemma_key_material_arg_sensitive(
    d: Seq<u8>,
    l: Language,
    args: Seq<Seq<u8>>,
    env: Seq<(Seq<u8>, Seq<u8>)>,
    p: Seq<u8>,
    i: int,
    v: Seq<u8>,
)
    requires
        0 <= i < args.len(),
        v != args[i],
    ensures
        key_material(d, l, args.update(i, v), env, p) != key_material(d, l, args, env, p),
{
    let pre = args.subrange(0, i);
    let post = args.subrange(i + 1, args.len() as int);
    assert(args =~= pre + seq![args[i]] + post);
    assert(args.update(i, v) =~= pre + seq![v] + post);
    lemma_args_material_concat(pre + seq![args[i]], post);
    lemma_args_material_concat(pre, seq![args[i]]);
    lemma_args_material_concat(pre + seq![v], post);
    lemma_args_material_concat(pre, seq![v]);
    lemma_args_material_single(args[i]);
    lemma_args_material_single(v);
    let a = d + seq![CACHE_VERSION] + language_tag(l) + args_material(pre);
    let b = args_material(post) + env_material(env) + p;
    lemma_middle_differs(a, v, args[i], b);
    assert(key_material(d, l, args.update(i, v), env, p) =~= a + v + b);
    assert(key_material(d, l, args, env, p) =~= a + args[i] + b);
}

/// Inserting a keyed environment variable, anywhere in the list, changes the
/// bytes that are digested into the key; so does removing one, read the
/// other way round.
pub proof fn lemma_key_material_keyed_env_added(
    d: Seq<u8>,
    l: Language,
    args: Seq<Seq<u8>>,
    env: Seq<(Seq<u8>, Seq<u8>)>,
    p: Seq<u8>,
    i: int,
    name: Seq<u8>,
    value: Seq<u8>,
)
    requires
        0 <= i <= env.len(),
        is_keyed_env_var(name),
    ensures
        key_material(d, l, args, env.insert(i, (name, value)), p) != key_material(
            d,
            l,
            args,
            env,
            p,
        ),
{
    lemma_env_material_insert(env, i, (name, value));
    let a = d + seq![CACHE_VERSION] + language_tag(l) + args_material(args) + env_material(
        env.subrange(0, i),
    );
    let b = env_material(env.subrange(i, env.len() as int)) + p;
    let x = env_entry_material((name, value));
    assert(x.len() > 0);
    lemma_middle_differs(a, x, Seq::empty(), b);
    assert(key_material(d, l, args, env.insert(i, (name, value)), p) =~= a + x + b);
    assert(key_material(d, l, args, env, p) =~= a + Seq::empty() + b);
}

/// Changing the value of a keyed environment variable changes the bytes
/// that are digested into the key.
pub proof fn lemma_key_material_keyed_env_changed(
    d: Seq<u8>,
    l: Language,
    args: Seq<Seq<u8>>,
    env: Seq<(Seq<u8>, Seq<u8>)>,
    p: Seq<u8>,
    i: int,
    value: Seq<u8>,
)
    requires
        0 <= i < env.len(),
        is_keyed_env_var(env[i].0),
        value != env[i].1,
    ensures
        key_material(d, l, args, env.update(i, (env[i].0, value)), p) != key_material(
            d,
            l,
            args,
            env,
            p,
        ),
{
    let name = env[i].0;
    let env2 = env.update(i, (name, value));
    lemma_env_material_around(env, i);
    lemma_env_material_around(env2, i);
    assert(env2.subrange(0, i) =~= env.subrange(0, i));
    assert(env2.subrange(i + 1, env2.len() as int) =~= env.subrange(i + 1, env.len() as int));
    let x = env_entry_material((name, value));
    let y = env_entry_material(env[i]);
    assert(x != y) by {
        lemma_middle_differs(name + seq![EQUALS], value, env[i].1, Seq::empty());
        assert(x =~= name + seq![EQUALS] + value + Seq::empty());
        assert(y =~= name + seq![EQUALS] + env[i].1 + Seq::empty());
    }
    let a = d + seq![CACHE_VERSION] + language_tag(l) + args_material(args) + env_material(
        env.subrange(0, i),
    );
    let b = env_material(env.subrange(i + 1, env.len() as int)) + p;
    lemma_middle_differs(a, x, y, b);
    assert(key_material(d, l, args, env2, p) =~= a + x + b);
    assert(key_material(d, l, args, env, p) =~= a + y + b);
}

/// Changing the preprocessed source changes the bytes that are digested into
/// the key.
pub proof fn lemma_key_material_source_sensitive(
    d: Seq<u8>,
    l: Language,
    args: Seq<Seq<u8>>,
    env: Seq<(Seq<u8>, Seq<u8>)>,
    pre1: Seq<u8>,
    pre2: Seq<u8>,
)
    requires
        pre1 != pre2,
    ensures
        key_material(d, l, args, env, pre1) != key_material(d, l, args, env, pre2),
{
    let a = d + seq![CACHE_VERSION] + language_tag(l) + args_material(args) + env_material(env);
    let e = Seq::<u8>::empty();
    lemma_middle_differs(a, pre1, pre2, e);
    assert(key_material(d, l, args, env, pre1) =~= a + pre1 + e);
    assert(key_material(d, l, args, env, pre2) =~= a + pre2 + e);
}

} // verus!
