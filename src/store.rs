//! Toolchain archives: a content-addressed blob store, and the client's map
//! from weak toolchain keys to the archives' content hashes.
use vstd::prelude::*;
use vstd::string::StringExecFns;

verus! {

/// The value of the last entry whose key is `k`, in a list of keys and a
/// parallel list of values.
pub open spec fn assoc<K, V>(keys: Seq<K>, vals: Seq<V>, k: K) -> Option<V>
    decreases keys.len(),
{
    if keys.len() == 0 || vals.len() != keys.len() {
        None
    } else if keys.last() == k {
        Some(vals.last())
    } else {
        assoc(keys.drop_last(), vals.drop_last(), k)
    }
}

/// The map that parallel lists of keys and values stand for.
pub open spec fn assoc_map<K, V>(keys: Seq<K>, vals: Seq<V>) -> Map<K, V> {
    Map::new(|k: K| assoc(keys, vals, k) is Some, |k: K| assoc(keys, vals, k)->0)
}

pub proof fn lemma_assoc_push<K, V>(keys: Seq<K>, vals: Seq<V>, k: K, v: V)
    requires
        keys.len() == vals.len(),
    ensures
        assoc_map(keys.push(k), vals.push(v)) == assoc_map(keys, vals).insert(k, v),
{
    assert(keys.push(k).drop_last() =~= keys);
    assert(vals.push(v).drop_last() =~= vals);
    assert(assoc_map(keys.push(k), vals.push(v)) =~= assoc_map(keys, vals).insert(k, v));
}

/// Views of a list of strings.
pub open spec fn string_views(s: Seq<String>) -> Seq<Seq<char>> {
    s.map_values(|x: String| x@)
}

/// Views of a list of byte strings.
pub open spec fn bytes_views(s: Seq<Vec<u8>>) -> Seq<Seq<u8>> {
    s.map_values(|x: Vec<u8>| x@)
}

/// Index of the last key equal to `k`, if any.
fn find_last(keys: &Vec<String>, k: &String) -> (r: Option<usize>)
    ensures
        r matches Some(i) ==> i < keys@.len() && keys@[i as int]@ == k@ && forall|j: int|
            i < j < keys@.len() ==> keys@[j]@ != k@,
        r is None ==> forall|j: int| 0 <= j < keys@.len() ==> keys@[j]@ != k@,
{
    let mut i: usize = keys.len();
    while i > 0
        invariant
            i <= keys@.len(),
            forall|j: int| i <= j < keys@.len() ==> keys@[j]@ != k@,
        decreases i,
    {
        if keys[i - 1] == *k {
            return Some(i - 1);
        }
        i = i - 1;
    }
    None
}

pub proof fn lemma_assoc_at<K, V>(keys: Seq<K>, vals: Seq<V>, k: K, i: int)
    requires
        keys.len() == vals.len(),
        0 <= i < keys.len(),
        keys[i] == k,
        forall|j: int| i < j < keys.len() ==> keys[j] != k,
    ensures
        assoc(keys, vals, k) == Some(vals[i]),
    decreases keys.len(),
{
    if i < keys.len() - 1 {
        lemma_assoc_at(keys.drop_last(), vals.drop_last(), k, i);
    }
}

pub proof fn lemma_assoc_absent<K, V>(keys: Seq<K>, vals: Seq<V>, k: K)
    requires
        keys.len() == vals.len(),
        forall|j: int| 0 <= j < keys.len() ==> keys[j] != k,
    ensures
        assoc(keys, vals, k) is None,
    decreases keys.len(),
{
    if keys.len() > 0 {
        lemma_assoc_absent(keys.drop_last(), vals.drop_last(), k);
    }
}

/// The store after an attempt to put `created` under `k`: an entry that is
/// already there stays as it is.
pub open spec fn stored_after(m: Map<Seq<char>, Seq<u8>>, k: Seq<char>, created: Seq<u8>) -> Map<
    Seq<char>,
    Seq<u8>,
> {
    if m.contains_key(k) {
        m
    } else {
        m.insert(k, created)
    }
}

/// The first write under a key wins: reading the key afterwards gives
/// exactly the bytes that were written, and a second write under it changes
/// nothing.
pub proof fn lemma_store_first_write_wins(
    m: Map<Seq<char>, Seq<u8>>,
    k: Seq<char>,
    first: Seq<u8>,
    second: Seq<u8>,
)
    requires
        !m.contains_key(k),
    ensures
        stored_after(m, k, first).contains_key(k),
        stored_after(m, k, first)[k] == first,
        stored_after(stored_after(m, k, first), k, second) == stored_after(m, k, first),
{
}

/// Why a store could not hand out an entry.
#[derive(Debug, Clone, Copy, PartialEq, Eq, Structural)]
pub enum StoreError {
    NotInCache,
}

/// A content-addressed store of toolchain archives, keyed by the archives'
/// content hashes.
pub struct TcCache {
    keys: Vec<String>,
    blobs: Vec<Vec<u8>>,
}

impl View for TcCache {
    type V = Map<Seq<char>, Seq<u8>>;

    closed spec fn view(&self) -> Map<Seq<char>, Seq<u8>> {
        assoc_map(string_views(self.keys@), bytes_views(self.blobs@))
    }
}

impl TcCache {
    /// The store is well formed: one blob per key.
    pub closed spec fn wf(&self) -> bool {
        self.keys@.len() == self.blobs@.len()
    }

    /// An empty store.
    pub fn new() -> (r: TcCache)
        ensures
            r.wf(),
            r@ == Map::<Seq<char>, Seq<u8>>::empty(),
    {
        let r = TcCache { keys: Vec::new(), blobs: Vec::new() };
        assert(r@ =~= Map::<Seq<char>, Seq<u8>>::empty());
        r
    }

    /// Whether the store holds an entry under `key`.
    pub fn contains_key(&self, key: &str) -> (r: bool)
        requires
            self.wf(),
        ensures
            r == self@.contains_key(key@),
    {
        let k = String::from_str(key);
        let found = find_last(&self.keys, &k);
        proof {
            self.lemma_find(k@, found);
        }
        found.is_some()
    }

    proof fn lemma_find(&self, k: Seq<char>, found: Option<usize>)
        requires
            self.wf(),
            found matches Some(i) ==> i < self.keys@.len() && self.keys@[i as int]@ == k
                && forall|j: int| i < j < self.keys@.len() ==> self.keys@[j]@ != k,
            found is None ==> forall|j: int| 0 <= j < self.keys@.len() ==> self.keys@[j]@ != k,
        ensures
            found matches Some(i) ==> self@.contains_key(k) && self@[k] == self.blobs@[i as int]@,
            found is None ==> !self@.contains_key(k),
    {
        let ks = string_views(self.keys@);
        let vs = bytes_views(self.blobs@);
        match found {
            Some(i) => {
                lemma_assoc_at(ks, vs, k, i as int);
            },
            None => {
                lemma_assoc_absent(ks, vs, k);
            },
        }
    }

    /// The archive stored under `key`.
    pub fn get(&self, key: &str) -> (r: Result<Vec<u8>, StoreError>)
        requires
            self.wf(),
        ensures
            r matches Ok(b) ==> self@.contains_key(key@) && b@ == self@[key@],
            r is Err ==> !self@.contains_key(key@) && r == Err::<Vec<u8>, StoreError>(
                StoreError::NotInCache,
            ),
    {
        let k = String::from_str(key);
        let found = find_last(&self.keys, &k);
        proof {
            self.lemma_find(k@, found);
        }
        match found {
            Some(i) => Ok(vstd::slice::slice_to_vec(self.blobs[i].as_slice())),
            None => Err(StoreError::NotInCache),
        }
    }

    /// Stores what `create` returns under `key`, calling `create` only when
    /// the store has no entry under `key`; an existing entry stays as it is.
    /// Returns whether it stored.
    pub fn insert_with<F: FnOnce() -> Vec<u8>>(&mut self, key: &str, create: F) -> (inserted:
        bool)
        requires
            old(self).wf(),
            !old(self)@.contains_key(key@) ==> create.requires(()),
        ensures
            final(self).wf(),
            inserted == !old(self)@.contains_key(key@),
            !inserted ==> final(self)@ == old(self)@,
            inserted ==> exists|b: Vec<u8>|
                create.ensures((), b) && final(self)@ == stored_after(old(self)@, key@, b@),
    {
        if self.contains_key(key) {
            return false;
        }
        let b = create();
        self.insert(key, b)
    }

    /// Stores `data` under `key` unless the store has an entry there already.
    /// Returns whether it stored.
    pub fn insert(&mut self, key: &str, data: Vec<u8>) -> (inserted: bool)
        requires
            old(self).wf(),
        ensures
            final(self).wf(),
            inserted == !old(self)@.contains_key(key@),
            final(self)@ == stored_after(old(self)@, key@, data@),
    {
        if self.contains_key(key) {
            return false;
        }
        let b = data;
        let ghost gb = b;
        let ghost ks = string_views(self.keys@);
        let ghost vs = bytes_views(self.blobs@);
        self.keys.push(String::from_str(key));
        self.blobs.push(b);
        proof {
            assert(string_views(self.keys@) =~= ks.push(key@));
            assert(bytes_views(self.blobs@) =~= vs.push(gb@));
            lemma_assoc_push(ks, vs, key@, gb@);
        }
        true
    }
}

} // verus!
