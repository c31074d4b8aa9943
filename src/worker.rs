//! The build worker's decisions: whether a job can run, which container it
//! runs in, and how a used container is cleaned for the next job.
use crate::key::{args_view, env_view, EQUALS};
use crate::protocol::{AllocAssignment, CompileCommand, JobId, JobRequest, JobResult, Toolchain};
use crate::store::{
    assoc_map, lemma_assoc_absent, lemma_assoc_at, lemma_assoc_push, stored_after, string_views,
    TcCache,
};
use vstd::prelude::*;
use vstd::string::{StrSliceExecFns, StringExecFns, StringSliceAdditionalSpecFns};

verus! {

/// `\n`, which ends a line of the runtime's diff output.
pub const NEWLINE: u8 = 0x0a;

/// ` `, between a diff entry's kind and its path.
pub const SPACE: u8 = 0x20;

/// The kind of a filesystem change in a container.
#[derive(Debug, Clone, Copy, PartialEq, Eq, Structural)]
pub enum ChangeKind {
    Added,
    Changed,
    Deleted,
    Other,
}

/// The change kind that a diff line's letter stands for: `A`, `C`, `D`.
pub open spec fn kind_of(b: u8) -> ChangeKind {
    if b == 0x41u8 {
        ChangeKind::Added
    } else if b == 0x43u8 {
        ChangeKind::Changed
    } else if b == 0x44u8 {
        ChangeKind::Deleted
    } else {
        ChangeKind::Other
    }
}

/// `s` split at every newline, as `split('\n')` does: at least one piece.
pub open spec fn split_lines(s: Seq<u8>) -> Seq<Seq<u8>>
    decreases s.len(),
{
    if s.len() == 0 {
        seq![Seq::empty()]
    } else {
        let r = split_lines(s.drop_last());
        if s.last() == NEWLINE {
            r.push(Seq::empty())
        } else {
            r.update(r.len() - 1, r.last().push(s.last()))
        }
    }
}

/// A diff line: a kind letter, a space, and a path.
pub open spec fn parse_entry(line: Seq<u8>) -> Option<(ChangeKind, Seq<u8>)> {
    if line.len() >= 2 && line[1] == SPACE {
        Some((kind_of(line[0]), line.subrange(2, line.len() as int)))
    } else {
        None
    }
}

/// The entries of the diff's lines, empty lines skipped; none when a line
/// is malformed.
pub open spec fn parse_lines(lines: Seq<Seq<u8>>) -> Option<Seq<(ChangeKind, Seq<u8>)>>
    decreases lines.len(),
{
    if lines.len() == 0 {
        Some(Seq::empty())
    } else {
        match parse_lines(lines.drop_last()) {
            None => None,
            Some(es) => if lines.last().len() == 0 {
                Some(es)
            } else {
                match parse_entry(lines.last()) {
                    None => None,
                    Some(e) => Some(es.push(e)),
                }
            },
        }
    }
}

/// Whether `p` is `base` or lies inside the directory `base`.
pub open spec fn path_under(p: Seq<u8>, base: Seq<u8>) -> bool {
    ||| p == base
    ||| base.len() < p.len() && p.subrange(0, base.len() as int) == base && p[base.len() as int]
        == crate::key::SLASH
    ||| base.len() > 0 && base.last() == crate::key::SLASH && base.len() <= p.len() && p.subrange(
        0,
        base.len() as int,
    ) == base
}

/// The added paths that cleaning deletes, in order: each path unless it lies
/// under the last path deleted before it (deleting a directory deletes what
/// it holds).
pub open spec fn kept_paths(paths: Seq<Seq<u8>>) -> Seq<Seq<u8>>
    decreases paths.len(),
{
    if paths.len() == 0 {
        Seq::empty()
    } else {
        let k = kept_paths(paths.drop_last());
        if k.len() > 0 && path_under(paths.last(), k.last()) {
            k
        } else {
            k.push(paths.last())
        }
    }
}

/// How a container is cleaned after a job, read from the runtime's diff
/// output: the paths to delete when every change is an addition; none when
/// the container is to be discarded.
pub open spec fn cleanup_plan(diff: Seq<u8>) -> Option<Seq<Seq<u8>>> {
    match parse_lines(split_lines(diff)) {
        None => None,
        Some(es) => if forall|i: int| 0 <= i < es.len() ==> (#[trigger] es[i]).0 == ChangeKind::Added {
            Some(kept_paths(es.map_values(|e: (ChangeKind, Seq<u8>)| e.1)))
        } else {
            None
        },
    }
}

/// Cleaning after a job that only added entries removes all of them: each
/// added path lies under a deleted path, and every deleted path is one of
/// the added ones.
pub proof fn lemma_cleanup_covers_additions(paths: Seq<Seq<u8>>)
    ensures
        forall|i: int|
            0 <= i < paths.len() ==> exists|j: int|
                0 <= j < kept_paths(paths).len() && path_under(
                    #[trigger] paths[i],
                    kept_paths(paths)[j],
                ),
        forall|j: int|
            0 <= j < kept_paths(paths).len() ==> exists|i: int|
                0 <= i < paths.len() && #[trigger] kept_paths(paths)[j] == paths[i],
    decreases paths.len(),
{
    if paths.len() > 0 {
        let init = paths.drop_last();
        lemma_cleanup_covers_additions(init);
        let k = kept_paths(init);
        let n = paths.len() - 1;
        assert forall|i: int| 0 <= i < paths.len() implies exists|j: int|
            0 <= j < kept_paths(paths).len() && path_under(
                #[trigger] paths[i],
                kept_paths(paths)[j],
            ) by {
            if i < n {
                assert(paths[i] == init[i]);
                let j = choose|j: int| 0 <= j < k.len() && path_under(init[i], k[j]);
                assert(kept_paths(paths)[j] == k[j]);
            } else if k.len() > 0 && path_under(paths.last(), k.last()) {
                assert(kept_paths(paths)[k.len() - 1] == k.last());
            } else {
                assert(kept_paths(paths)[k.len() as int] == paths[n]);
            }
        }
        assert forall|j: int| 0 <= j < kept_paths(paths).len() implies exists|i: int|
            0 <= i < paths.len() && #[trigger] kept_paths(paths)[j] == paths[i] by {
            if j < k.len() {
                let i = choose|i: int| 0 <= i < init.len() && k[j] == init[i];
                assert(paths[i] == init[i]);
            } else {
                assert(kept_paths(paths)[j] == paths[n]);
            }
        }
    }
}

/// What cleaning a container takes.
#[derive(Debug, Clone)]
pub enum CleanupPlan {
    /// Delete these paths, then return the container to its pool.
    Recycle(Vec<Vec<u8>>),
    /// Force-remove the container.
    Discard,
}

/// Byte strings seen as sequences.
pub open spec fn views(s: Seq<Vec<u8>>) -> Seq<Seq<u8>> {
    s.map_values(|x: Vec<u8>| x@)
}

/// The lines of `s`, as `split('\n')` gives them.
pub fn split_diff_lines(s: &[u8]) -> (r: Vec<Vec<u8>>)
    ensures
        views(r@) == split_lines(s@),
{
    let mut lines: Vec<Vec<u8>> = Vec::new();
    let mut cur: Vec<u8> = Vec::new();
    let mut i: usize = 0;
    assert(s@.subrange(0, 0) =~= Seq::<u8>::empty());
    assert(views(lines@).push(cur@) =~= split_lines(s@.subrange(0, 0)));
    while i < s.len()
        invariant
            i <= s@.len(),
            views(lines@).push(cur@) == split_lines(s@.subrange(0, i as int)),
        decreases s@.len() - i,
    {
        let ghost before = views(lines@).push(cur@);
        assert(s@.subrange(0, i + 1).drop_last() =~= s@.subrange(0, i as int));
        let b = s[i];
        if b == NEWLINE {
            let done = cur;
            cur = Vec::new();
            lines.push(done);
            assert(views(lines@).push(cur@) =~= before.push(Seq::empty()));
        } else {
            cur.push(b);
            assert(views(lines@).push(cur@) =~= before.update(
                before.len() - 1,
                before.last().push(b),
            ));
        }
        i = i + 1;
    }
    assert(s@.subrange(0, i as int) =~= s@);
    lines.push(cur);
    lines
}

/// The kind that a diff line's letter stands for.
pub fn change_kind(b: u8) -> (r: ChangeKind)
    ensures
        r == kind_of(b),
{
    if b == 0x41u8 {
        ChangeKind::Added
    } else if b == 0x43u8 {
        ChangeKind::Changed
    } else if b == 0x44u8 {
        ChangeKind::Deleted
    } else {
        ChangeKind::Other
    }
}

/// Reads the runtime's diff output and decides how to clean the container:
/// delete the added paths when every change is an addition (a path under one
/// just deleted is skipped), discard the container otherwise, or when the
/// output is malformed.
pub fn plan_cleanup(diff: &[u8]) -> (r: CleanupPlan)
    ensures
        match r {
            CleanupPlan::Recycle(ps) => cleanup_plan(diff@) == Some(views(ps@)),
            CleanupPlan::Discard => cleanup_plan(diff@) is None,
        },
{
    let lines = split_diff_lines(diff);
    let ghost ls = views(lines@);
    let mut paths: Vec<Vec<u8>> = Vec::new();
    let mut all_added = true;
    let mut i: usize = 0;
    while i < lines.len()
        invariant
            i <= lines@.len(),
            ls == views(lines@),
            ls == split_lines(diff@),
            parse_lines(ls.subrange(0, i as int)) matches Some(es) && views(paths@) == es.map_values(
                |e: (ChangeKind, Seq<u8>)| e.1,
            ) && all_added == forall|k: int|
                0 <= k < es.len() ==> (#[trigger] es[k]).0 == ChangeKind::Added,
        decreases lines@.len() - i,
    {
        let ghost es = parse_lines(ls.subrange(0, i as int))->0;
        assert(ls.subrange(0, i + 1).drop_last() =~= ls.subrange(0, i as int));
        assert(ls.subrange(0, i + 1).last() == lines@[i as int]@);
        let line = &lines[i];
        if line.len() == 0 {
        } else if line.len() >= 2 && line[1] == SPACE {
            let kind = change_kind(line[0]);
            let path = vstd::slice::slice_to_vec(vstd::slice::slice_subrange(line.as_slice(), 2, line.len()));
            let ghost e = (kind, path@);
            assert(parse_entry(lines@[i as int]@) == Some(e));
            let ghost old_paths = paths@;
            assert(views(old_paths) == es.map_values(|e: (ChangeKind, Seq<u8>)| e.1));
            paths.push(path);
            assert(views(paths@) =~= views(old_paths).push(e.1));
            assert(es.push(e).map_values(|e: (ChangeKind, Seq<u8>)| e.1) =~= es.map_values(
                |e: (ChangeKind, Seq<u8>)| e.1,
            ).push(e.1));
            if kind != ChangeKind::Added {
                all_added = false;
                assert(es.push(e)[es.len() as int].0 != ChangeKind::Added);
            }
            assert(all_added == forall|k: int|
                0 <= k < es.push(e).len() ==> (#[trigger] es.push(e)[k]).0 == ChangeKind::Added) by {
                assert forall|k: int| 0 <= k < es.len() implies es.push(e)[k] == es[k] by {}
            }
        } else {
            assert(parse_entry(lines@[i as int]@) is None);
            assert(parse_lines(ls.subrange(0, i + 1)) is None);
            proof {
                lemma_parse_none_extends(ls, i as int + 1);
            }
            return CleanupPlan::Discard;
        }
        i = i + 1;
    }
    assert(ls.subrange(0, i as int) =~= ls);
    if !all_added {
        return CleanupPlan::Discard;
    }
    let ghost ps = views(paths@);
    let mut kept: Vec<Vec<u8>> = Vec::new();
    let mut j: usize = 0;
    assert(ps.subrange(0, 0) =~= Seq::<Seq<u8>>::empty());
    while j < paths.len()
        invariant
            j <= paths@.len(),
            ps == views(paths@),
            views(kept@) == kept_paths(ps.subrange(0, j as int)),
        decreases paths@.len() - j,
    {
        assert(ps.subrange(0, j + 1).drop_last() =~= ps.subrange(0, j as int));
        assert(ps.subrange(0, j + 1).last() == paths@[j as int]@);
        let p = &paths[j];
        let skip = kept.len() > 0 && is_under(p.as_slice(), kept[kept.len() - 1].as_slice());
        if !skip {
            kept.push(vstd::slice::slice_to_vec(p.as_slice()));
        }
        assert(views(kept@) =~= kept_paths(ps.subrange(0, j + 1)));
        j = j + 1;
    }
    assert(ps.subrange(0, j as int) =~= ps);
    CleanupPlan::Recycle(kept)
}

/// Once a prefix of the lines is malformed, all of them are.
proof fn lemma_parse_none_extends(ls: Seq<Seq<u8>>, n: int)
    requires
        0 <= n <= ls.len(),
        parse_lines(ls.subrange(0, n)) is None,
    ensures
        parse_lines(ls) is None,
    decreases ls.len() - n,
{
    if n < ls.len() {
        assert(ls.subrange(0, n + 1).drop_last() =~= ls.subrange(0, n));
        lemma_parse_none_extends(ls, n + 1);
    } else {
        assert(ls.subrange(0, n) =~= ls);
    }
}

/// Whether `p` is `base` or lies inside the directory `base`.
pub fn is_under(p: &[u8], base: &[u8]) -> (r: bool)
    ensures
        r == path_under(p@, base@),
{
    if base.len() > p.len() {
        assert(p@ != base@);
        return false;
    }
    let prefix = vstd::slice::slice_subrange(p, 0, base.len());
    if !crate::bytes::bytes_eq(prefix, base) {
        assert(p@ != base@) by {
            if p@ == base@ {
                assert(prefix@ =~= base@);
            }
        }
        return false;
    }
    if base.len() == p.len() {
        assert(p@ =~= base@);
        return true;
    }
    p[base.len()] == crate::key::SLASH || (base.len() > 0 && base[base.len() - 1] == crate::key::SLASH)
}

/// The name of the image materialised for a toolchain.
pub fn image_name(tc: &Toolchain) -> (r: String)
    ensures
        r@ == "sccache-builder-"@ + tc.archive_id@,
{
    let mut r = String::from_str("sccache-builder-");
    r.append(tc.archive_id.as_str());
    r
}

/// Toolchains seen as pairs of strings.
pub open spec fn tc_views(s: Seq<Toolchain>) -> Seq<(Seq<char>, Seq<char>)> {
    s.map_values(|t: Toolchain| t@)
}

/// Where the container for a job comes from.
#[derive(Debug, Clone)]
pub enum ContainerSource {
    /// An idle container that served this toolchain before.
    Recycled(String),
    /// A fresh container started from the toolchain's image.
    FromImage(String),
    /// The toolchain's image has yet to be materialised.
    NeedsImage,
}

/// The build worker's images and idle containers.
pub struct SccacheBuilder {
    image_tcs: Vec<Toolchain>,
    image_names: Vec<String>,
    idle_tcs: Vec<Toolchain>,
    idle_ids: Vec<String>,
}

impl SccacheBuilder {
    /// The materialised images, by toolchain.
    pub closed spec fn images(&self) -> Map<(Seq<char>, Seq<char>), Seq<char>> {
        assoc_map(tc_views(self.image_tcs@), string_views(self.image_names@))
    }

    /// The idle containers, each with the toolchain it serves.
    pub closed spec fn idle(&self) -> Seq<((Seq<char>, Seq<char>), Seq<char>)> {
        Seq::new(self.idle_tcs@.len(), |i: int| (self.idle_tcs@[i]@, self.idle_ids@[i]@))
    }

    pub closed spec fn wf(&self) -> bool {
        self.image_tcs@.len() == self.image_names@.len() && self.idle_tcs@.len()
            == self.idle_ids@.len()
    }

    /// No images and no containers.
    pub fn new() -> (r: SccacheBuilder)
        ensures
            r.wf(),
            r.images() == Map::<(Seq<char>, Seq<char>), Seq<char>>::empty(),
            r.idle() == Seq::<((Seq<char>, Seq<char>), Seq<char>)>::empty(),
    {
        let r = SccacheBuilder {
            image_tcs: Vec::new(),
            image_names: Vec::new(),
            idle_tcs: Vec::new(),
            idle_ids: Vec::new(),
        };
        assert(r.images() =~= Map::<(Seq<char>, Seq<char>), Seq<char>>::empty());
        assert(r.idle() =~= Seq::<((Seq<char>, Seq<char>), Seq<char>)>::empty());
        r
    }

    /// The image recorded for `tc`, if any.
    pub fn image_for(&self, tc: &Toolchain) -> (r: Option<String>)
        requires
            self.wf(),
        ensures
            r matches Some(n) ==> self.images().contains_key(tc@) && n@ == self.images()[tc@],
            r is None ==> !self.images().contains_key(tc@),
    {
        let mut i: usize = self.image_tcs.len();
        while i > 0
            invariant
                self.wf(),
                i <= self.image_tcs@.len(),
                forall|j: int| i <= j < self.image_tcs@.len() ==> self.image_tcs@[j]@ != tc@,
            decreases i,
        {
            if self.image_tcs[i - 1] == *tc {
                proof {
                    lemma_assoc_at(
                        tc_views(self.image_tcs@),
                        string_views(self.image_names@),
                        tc@,
                        i - 1,
                    );
                    assert(string_views(self.image_names@)[i - 1] == self.image_names@[i - 1]@);
                }
                let n = self.image_names[i - 1].clone();
                return Some(n);
            }
            i = i - 1;
        }
        proof {
            lemma_assoc_absent(tc_views(self.image_tcs@), string_views(self.image_names@), tc@);
        }
        None
    }

    /// Records the image materialised for `tc`, unless one is recorded
    /// already; returns the image to use.
    pub fn record_image(&mut self, tc: Toolchain, name: String) -> (r: String)
        requires
            old(self).wf(),
        ensures
            final(self).wf(),
            final(self).idle() == old(self).idle(),
            old(self).images().contains_key(tc@) ==> final(self).images() == old(self).images()
                && r@ == old(self).images()[tc@],
            !old(self).images().contains_key(tc@) ==> final(self).images() == old(self).images().insert(tc@, name@) && r@ == name@,
    {
        match self.image_for(&tc) {
            Some(existing) => existing,
            None => {
                let ghost ts = tc_views(self.image_tcs@);
                let ghost ns = string_views(self.image_names@);
                let ghost t = tc@;
                let ghost nv = name@;
                let r = name.clone();
                self.image_tcs.push(tc);
                self.image_names.push(name);
                proof {
                    assert(tc_views(self.image_tcs@) =~= ts.push(t));
                    assert(string_views(self.image_names@) =~= ns.push(nv));
                    lemma_assoc_push(ts, ns, t, nv);
                    assert(self.idle() =~= old(self).idle());
                }
                r
            },
        }
    }

    /// Where the container for a job on `tc` comes from: the most recently
    /// returned idle container of `tc`, which leaves the pool; else a fresh
    /// one from the toolchain's image; else the image is needed first.
    pub fn take_container(&mut self, tc: &Toolchain) -> (r: ContainerSource)
        requires
            old(self).wf(),
        ensures
            final(self).wf(),
            final(self).images() == old(self).images(),
            match r {
                ContainerSource::Recycled(cid) => exists|i: int|
                    0 <= i < old(self).idle().len() && old(self).idle()[i] == (tc@, cid@) && final(self).idle() == old(self).idle().remove(i)
                        && forall|j: int| i < j < old(self).idle().len() ==> (#[trigger] old(self).idle()[j]).0 != tc@,
                ContainerSource::FromImage(name) => {
                    &&& forall|i: int|
                        0 <= i < old(self).idle().len() ==> (#[trigger] old(self).idle()[i]).0 != tc@
                    &&& old(self).images().contains_key(tc@)
                    &&& name@ == old(self).images()[tc@]
                    &&& final(self).idle() == old(self).idle()
                },
                ContainerSource::NeedsImage => {
                    &&& forall|i: int|
                        0 <= i < old(self).idle().len() ==> (#[trigger] old(self).idle()[i]).0 != tc@
                    &&& !old(self).images().contains_key(tc@)
                    &&& final(self).idle() == old(self).idle()
                },
            },
    {
        let mut i: usize = self.idle_tcs.len();
        while i > 0
            invariant
                self.wf(),
                self.image_tcs == old(self).image_tcs,
                self.image_names == old(self).image_names,
                self.idle_tcs == old(self).idle_tcs,
                self.idle_ids == old(self).idle_ids,
                i <= self.idle_tcs@.len(),
                forall|j: int| i <= j < self.idle_tcs@.len() ==> self.idle_tcs@[j]@ != tc@,
            decreases i,
        {
            if self.idle_tcs[i - 1] == *tc {
                let ghost before = self.idle();
                let k = i - 1;
                self.idle_tcs.remove(k);
                let cid = self.idle_ids.remove(k);
                assert(self.idle() =~= before.remove(k as int));
                assert(before[k as int] == (tc@, cid@));
                assert(forall|j: int| k < j < before.len() ==> (#[trigger] before[j]).0 != tc@);
                assert(self.images() =~= old(self).images());
                return ContainerSource::Recycled(cid);
            }
            i = i - 1;
        }
        match self.image_for(tc) {
            Some(name) => ContainerSource::FromImage(name),
            None => ContainerSource::NeedsImage,
        }
    }

    /// Returns a cleaned container to the pool of `tc`.
    pub fn return_container(&mut self, tc: Toolchain, cid: String)
        requires
            old(self).wf(),
        ensures
            final(self).wf(),
            final(self).images() == old(self).images(),
            final(self).idle() == old(self).idle().push((tc@, cid@)),
    {
        self.idle_tcs.push(tc);
        self.idle_ids.push(cid);
        assert(self.idle() =~= old(self).idle().push((tc@, cid@)));
    }
}

/// The container last returned to a toolchain's pool is the one its next
/// job gets: in the pool after `(tc, cid)` joined it, the only idle entry of
/// `tc` with no later entry of `tc` is that one, and taking it leaves the
/// pool as it was before.
pub proof fn lemma_returned_container_reused(
    idle: Seq<((Seq<char>, Seq<char>), Seq<char>)>,
    tc: (Seq<char>, Seq<char>),
    cid: Seq<char>,
    i: int,
)
    requires
        0 <= i < idle.len() + 1,
        idle.push((tc, cid))[i].0 == tc,
        forall|j: int| i < j < idle.len() + 1 ==> (#[trigger] idle.push((tc, cid))[j]).0 != tc,
    ensures
        i == idle.len(),
        idle.push((tc, cid))[i] == (tc, cid),
        idle.push((tc, cid)).remove(i) == idle,
{
    if i < idle.len() {
        assert(idle.push((tc, cid))[idle.len() as int].0 == tc);
    }
    assert(idle.push((tc, cid)).remove(i) =~= idle);
}

/// What the worker does with a job request.
#[derive(Debug, Clone)]
pub enum ServerDecision {
    /// Build it; the toolchain archive is in the store.
    Build(JobRequest),
    /// Answer at once.
    Reply(JobResult),
}

/// The worker's toolchain store and the job ids it was told to expect.
pub struct SccacheDaemonServer {
    cache: TcCache,
    expected: Vec<JobId>,
}

impl SccacheDaemonServer {
    /// The archives in the worker's toolchain store.
    pub closed spec fn store(&self) -> Map<Seq<char>, Seq<u8>> {
        self.cache@
    }

    /// The job ids announced by the scheduler, in order of arrival.
    pub closed spec fn expected_jobs(&self) -> Seq<JobId> {
        self.expected@
    }

    pub closed spec fn wf(&self) -> bool {
        self.cache.wf()
    }

    /// A worker with an empty store.
    pub fn new() -> (r: SccacheDaemonServer)
        ensures
            r.wf(),
            r.store() == Map::<Seq<char>, Seq<u8>>::empty(),
            r.expected_jobs() == Seq::<JobId>::empty(),
    {
        SccacheDaemonServer { cache: TcCache::new(), expected: Vec::new() }
    }

    /// The toolchain archive stored under `key`.
    pub fn get_toolchain(&self, key: &str) -> (r: Result<Vec<u8>, crate::store::StoreError>)
        requires
            self.wf(),
        ensures
            r matches Ok(b) ==> self.store().contains_key(key@) && b@ == self.store()[key@],
            r is Err ==> !self.store().contains_key(key@),
    {
        self.cache.get(key)
    }

    /// Records an assignment from the scheduler; no container work yet.
    pub fn handle_allocation_assign(&mut self, alloc: AllocAssignment)
        requires
            old(self).wf(),
        ensures
            final(self).wf(),
            final(self).store() == old(self).store(),
            final(self).expected_jobs() == old(self).expected_jobs().push(alloc.job_id),
    {
        self.expected.push(alloc.job_id);
    }

    /// The first step of a job: store the toolchain archive that came with
    /// it (an archive already stored stays), then build if the store holds
    /// the job's toolchain, else ask the client for it.
    pub fn handle_compile_request(&mut self, req: JobRequest) -> (r: ServerDecision)
        requires
            old(self).wf(),
        ensures
            final(self).wf(),
            final(self).expected_jobs() == old(self).expected_jobs(),
            final(self).store() == match req.toolchain_data {
                Some(d) => stored_after(old(self).store(), req.toolchain.archive_id@, d@),
                None => old(self).store(),
            },
            match r {
                ServerDecision::Build(job) => {
                    &&& final(self).store().contains_key(req.toolchain.archive_id@)
                    &&& job.command == req.command
                    &&& job.inputs_archive == req.inputs_archive
                    &&& job.outputs == req.outputs
                    &&& job.toolchain == req.toolchain
                    &&& job.toolchain_data is None
                },
                ServerDecision::Reply(res) => {
                    &&& !final(self).store().contains_key(req.toolchain.archive_id@)
                    &&& res is NeedToolchain
                },
            },
    {
        let mut req = req;
        let data = req.toolchain_data.take();
        match data {
            Some(d) => {
                self.cache.insert(req.toolchain.archive_id.as_str(), d);
            },
            None => {},
        }
        if self.cache.contains_key(req.toolchain.archive_id.as_str()) {
            ServerDecision::Build(req)
        } else {
            ServerDecision::Reply(JobResult::NeedToolchain)
        }
    }
}

/// The `-e NAME=VALUE` arguments that set the command's environment.
pub open spec fn env_flags(env: Seq<(Seq<u8>, Seq<u8>)>) -> Seq<Seq<u8>>
    decreases env.len(),
{
    if env.len() == 0 {
        Seq::empty()
    } else {
        env_flags(env.drop_last()) + seq!["-e".spec_bytes(), env.last().0 + seq![EQUALS] + env.last().1]
    }
}

/// The shell line run in the container: change to the directory given as
/// the first argument, then run the rest.
pub open spec fn shell_line() -> Seq<u8> {
    "cd \"$1\" && shift && exec \"$@\"".spec_bytes()
}

/// The arguments of the runtime's `exec` verb that run `command` in the
/// container `cid`.
pub open spec fn exec_argv(
    cid: Seq<u8>,
    executable: Seq<u8>,
    cwd: Seq<u8>,
    args: Seq<Seq<u8>>,
    env: Seq<(Seq<u8>, Seq<u8>)>,
) -> Seq<Seq<u8>> {
    seq!["exec".spec_bytes()] + env_flags(env) + seq![
        cid,
        "/busybox".spec_bytes(),
        "sh".spec_bytes(),
        "-c".spec_bytes(),
        shell_line(),
        executable,
        cwd,
        executable,
    ] + args
}

/// The runtime arguments that run `command` inside the container `cid`:
/// its environment set, in its working directory.
pub fn exec_args(cid: &str, command: &CompileCommand) -> (r: Vec<Vec<u8>>)
    requires
        forall|i: int|
            0 <= i < command.env_vars@.len() ==> (#[trigger] command.env_vars@[i]).0@.len()
                + command.env_vars@[i].1@.len() + 1 <= usize::MAX,
    ensures
        views(r@) == exec_argv(
            cid.spec_bytes(),
            command.executable@,
            command.cwd@,
            args_view(command.arguments@),
            env_view(command.env_vars@),
        ),
{
    let ghost env = env_view(command.env_vars@);
    let mut r: Vec<Vec<u8>> = Vec::new();
    r.push("exec".as_bytes_vec());
    let ghost head = views(r@);
    assert(head =~= seq!["exec".spec_bytes()]);
    let mut i: usize = 0;
    assert(env.subrange(0, 0) =~= Seq::<(Seq<u8>, Seq<u8>)>::empty());
    while i < command.env_vars.len()
        invariant
            i <= command.env_vars@.len(),
            env == env_view(command.env_vars@),
            head == seq!["exec".spec_bytes()],
            views(r@) == head + env_flags(env.subrange(0, i as int)),
            forall|k: int|
                0 <= k < command.env_vars@.len() ==> (#[trigger] command.env_vars@[k]).0@.len()
                    + command.env_vars@[k].1@.len() + 1 <= usize::MAX,
        decreases command.env_vars@.len() - i,
    {
        assert(env.subrange(0, i + 1).drop_last() =~= env.subrange(0, i as int));
        assert(env.subrange(0, i + 1).last() == (command.env_vars@[i as int].0@, command.env_vars@[i as int].1@));
        let mut kv: Vec<u8> = Vec::new();
        crate::bytes::push_all(&mut kv, command.env_vars[i].0.as_slice());
        kv.push(EQUALS);
        crate::bytes::push_all(&mut kv, command.env_vars[i].1.as_slice());
        assert(kv@ =~= command.env_vars@[i as int].0@ + seq![EQUALS] + command.env_vars@[i as int].1@);
        assert(env[i as int] == (command.env_vars@[i as int].0@, command.env_vars@[i as int].1@));
        let ghost before = views(r@);
        let e = "-e".as_bytes_vec();
        let ghost ev = e@;
        let ghost kvv = kv@;
        r.push(e);
        r.push(kv);
        assert(views(r@) =~= before + seq![ev, kvv]);
        assert(views(r@) =~= before + seq!["-e".spec_bytes(), env.subrange(0, i + 1).last().0 + seq![EQUALS] + env.subrange(0, i + 1).last().1]);
        i = i + 1;
    }
    assert(env.subrange(0, i as int) =~= env);
    let ghost mid = views(r@);
    r.push(cid.as_bytes_vec());
    r.push("/busybox".as_bytes_vec());
    r.push("sh".as_bytes_vec());
    r.push("-c".as_bytes_vec());
    r.push("cd \"$1\" && shift && exec \"$@\"".as_bytes_vec());
    r.push(vstd::slice::slice_to_vec(command.executable.as_slice()));
    r.push(vstd::slice::slice_to_vec(command.cwd.as_slice()));
    r.push(vstd::slice::slice_to_vec(command.executable.as_slice()));
    let ghost mid2 = views(r@);
    assert(mid2 =~= mid + seq![
        cid.spec_bytes(),
        "/busybox".spec_bytes(),
        "sh".spec_bytes(),
        "-c".spec_bytes(),
        shell_line(),
        command.executable@,
        command.cwd@,
        command.executable@,
    ]);
    let mut j: usize = 0;
    while j < command.arguments.len()
        invariant
            j <= command.arguments@.len(),
            views(r@) == mid2 + args_view(command.arguments@).subrange(0, j as int),
        decreases command.arguments@.len() - j,
    {
        let a = vstd::slice::slice_to_vec(command.arguments[j].as_slice());
        assert(args_view(command.arguments@)[j as int] == a@);
        let ghost before = views(r@);
        r.push(a);
        assert(views(r@) =~= before.push(args_view(command.arguments@)[j as int]));
        j = j + 1;
        assert(views(r@) =~= mid2 + args_view(command.arguments@).subrange(0, j as int));
    }
    assert(args_view(command.arguments@).subrange(0, j as int) =~= args_view(command.arguments@));
    assert(views(r@) =~= exec_argv(
        cid.spec_bytes(),
        command.executable@,
        command.cwd@,
        args_view(command.arguments@),
        env_view(command.env_vars@),
    ));
    r
}

} // verus!
