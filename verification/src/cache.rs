//! The cache of file contents, keyed by the absolute path of the file.
use vstd::prelude::*;
use vstd::hash_map::StringHashMap;

verus! {

/// What the cache gives back for `key`.
pub open spec fn cached(m: Map<Seq<char>, Seq<u8>>, key: Seq<char>) -> Option<Seq<u8>> {
    if m.contains_key(key) {
        Some(m[key])
    } else {
        None
    }
}

/// The cache after memoizing `content` under `key`: an entry already there stays.
pub open spec fn remembered(m: Map<Seq<char>, Seq<u8>>, key: Seq<char>, content: Seq<u8>) -> Map<
    Seq<char>,
    Seq<u8>,
> {
    if m.contains_key(key) {
        m
    } else {
        m.insert(key, content)
    }
}

/// File contents by the absolute path of the file.
pub struct FileCache {
    entries: StringHashMap<Vec<u8>>,
}

impl View for FileCache {
    type V = Map<Seq<char>, Seq<u8>>;

    closed spec fn view(&self) -> Map<Seq<char>, Seq<u8>> {
        Map::new(|k: Seq<char>| self.entries@.contains_key(k), |k: Seq<char>| self.entries@[k]@)
    }
}

/// A copy of a byte vector.
fn copy_bytes(v: &Vec<u8>) -> (r: Vec<u8>)
    ensures
        r@ == v@,
{
    let r = v.clone();
    assert(r@ =~= v@);
    r
}

impl FileCache {
    /// An empty cache.
    pub fn new() -> (r: Self)
        ensures
            r@ == Map::<Seq<char>, Seq<u8>>::empty(),
    {
        let r = FileCache { entries: StringHashMap::new() };
        assert(r@ =~= Map::<Seq<char>, Seq<u8>>::empty());
        r
    }

    /// The cached content of `key`, if any.
    pub fn lookup(&self, key: &str) -> (r: Option<Vec<u8>>)
        ensures
            match r {
                Some(c) => cached(self@, key@) == Some(c@),
                None => cached(self@, key@) is None,
            },
    {
        match self.entries.get(key) {
            Some(content) => Some(copy_bytes(content)),
            None => None,
        }
    }

    /// Stores `content` under `key` unless an entry is there already, and
    /// gives `content` back.
    pub fn remember(&mut self, key: String, content: Vec<u8>) -> (r: Vec<u8>)
        ensures
            r@ == content@,
            final(self)@ == remembered(old(self)@, key@, content@),
    {
        if !self.entries.contains_key(key.as_str()) {
            let stored = copy_bytes(&content);
            self.entries.insert(key, stored);
        }
        assert(self@ =~= remembered(old(self)@, key@, content@));
        content
    }

    /// Finishes a read of the file keyed by `key` that missed the cache: read
    /// content is remembered and given back; a failed read (`None`) leaves the
    /// cache alone.
    pub fn finish_read(&mut self, key: String, read: Option<Vec<u8>>) -> (r: Option<Vec<u8>>)
        ensures
            match read {
                Some(content) => r is Some && r->Some_0@ == content@ && final(self)@ == remembered(
                    old(self)@,
                    key@,
                    content@,
                ),
                None => r is None && final(self)@ == old(self)@,
            },
    {
        match read {
            Some(content) => {
                let given = self.remember(key, content);
                Some(given)
            },
            None => None,
        }
    }

    /// Forgets the entry of `key`.
    pub fn remove(&mut self, key: &str)
        ensures
            final(self)@ == old(self)@.remove(key@),
    {
        self.entries.remove(key);
        assert(self@ =~= old(self)@.remove(key@));
    }
}

/// Once content is remembered under a key, a lookup of that key gives the
/// content back, unless the key already held content, which stays.
pub proof fn lemma_lookup_after_remember(
    m: Map<Seq<char>, Seq<u8>>,
    key: Seq<char>,
    content: Seq<u8>,
)
    ensures
        cached(remembered(m, key, content), key) == Some(
            if m.contains_key(key) {
                m[key]
            } else {
                content
            },
        ),
{
}

/// Remembering content under one key leaves every other key as it was.
pub proof fn lemma_remember_keeps_other_keys(
    m: Map<Seq<char>, Seq<u8>>,
    key: Seq<char>,
    content: Seq<u8>,
    other: Seq<char>,
)
    requires
        other != key,
    ensures
        cached(remembered(m, key, content), other) == cached(m, other),
{
}

/// Remembering twice under the same key keeps the first content.
pub proof fn lemma_remember_keeps_first(
    m: Map<Seq<char>, Seq<u8>>,
    key: Seq<char>,
    first: Seq<u8>,
    second: Seq<u8>,
)
    ensures
        remembered(remembered(m, key, first), key, second) == remembered(m, key, first),
        cached(remembered(remembered(m, key, first), key, second), key) == cached(
            remembered(m, key, first),
            key,
        ),
{
}

/// After a key is removed, a lookup of it misses, and every other key is as it was.
pub proof fn lemma_lookup_after_remove(m: Map<Seq<char>, Seq<u8>>, key: Seq<char>, other: Seq<char>)
    ensures
        cached(m.remove(key), key) is None,
        other != key ==> cached(m.remove(key), other) == cached(m, other),
{
}

/// What the cache holds after remembering, in terms of its entries: the key
/// is present; its value is the old one when the key was there, the new
/// content otherwise; every other key keeps its presence and value. A lookup
/// gives the value exactly for present keys.
pub proof fn lemma_remembered_entries(
    m: Map<Seq<char>, Seq<u8>>,
    key: Seq<char>,
    content: Seq<u8>,
    other: Seq<char>,
)
    ensures
        remembered(m, key, content).contains_key(key),
        remembered(m, key, content)[key] == (if m.contains_key(key) {
            m[key]
        } else {
            content
        }),
        other != key ==> (remembered(m, key, content).contains_key(other) == m.contains_key(other)
            && remembered(m, key, content)[other] == m[other]),
        cached(m, other) == (if m.contains_key(other) {
            Some(m[other])
        } else {
            None
        }),
{
}

} // verus!
