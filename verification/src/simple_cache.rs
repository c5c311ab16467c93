//! The simplest cache: a map from keys to entries, with no size bound,
//! expiry or encryption. Prefetched data lands here.
use vstd::prelude::*;
use crate::text::owned;
use crate::text_map::TextMap;

verus! {

/// Data held by the simple cache.
#[derive(Debug, Clone, PartialEq, Eq)]
pub struct CacheEntry {
    pub data: String,
}

impl CacheEntry {
    /// An entry equal to this one.
    pub fn duplicate(&self) -> (r: CacheEntry)
        ensures
            r == *self,
    {
        CacheEntry { data: self.data.clone() }
    }
}

/// A map from keys to entries.
pub struct SimpleCache {
    store: TextMap<CacheEntry>,
}

impl View for SimpleCache {
    type V = Map<Seq<char>, CacheEntry>;

    closed spec fn view(&self) -> Map<Seq<char>, CacheEntry> {
        self.store@
    }
}

impl SimpleCache {
    /// The store is well formed.
    pub closed spec fn wf(&self) -> bool {
        self.store.wf()
    }

    /// An empty cache.
    pub fn new() -> (c: Self)
        ensures
            c.wf(),
            c@ == Map::<Seq<char>, CacheEntry>::empty(),
    {
        SimpleCache { store: TextMap::new() }
    }

    /// Stores `value` under `key`, replacing what was there.
    pub fn set(&mut self, key: String, value: CacheEntry)
        requires
            old(self).wf(),
        ensures
            final(self).wf(),
            final(self)@ == old(self)@.insert(key@, value),
    {
        self.store.insert(key, value);
    }

    /// The entry stored under `key`, if any.
    pub fn get(&self, key: &str) -> (r: Option<CacheEntry>)
        requires
            self.wf(),
        ensures
            match r {
                Some(e) => self@.dom().contains(key@) && e == self@[key@],
                None => !self@.dom().contains(key@),
            },
    {
        match self.store.get(key) {
            Some(e) => Some(e.duplicate()),
            None => None,
        }
    }

    /// The number of entries.
    pub fn len(&self) -> (n: usize)
        requires
            self.wf(),
        ensures
            n == self@.dom().len(),
    {
        self.store.len()
    }
}

/// The data loaded for `key` when it is prefetched: "Data for <key>".
pub fn load_data_for_key(key: &str) -> (e: CacheEntry)
    ensures
        e.data@ == "Data for "@ + key@,
{
    let mut data = owned("Data for ");
    data.append(key);
    CacheEntry { data }
}

/// Get after set: a key reads back the entry last stored under it, and
/// storing under one key leaves every other key as it was.
pub proof fn law_simple_get_after_set(
    m: Map<Seq<char>, CacheEntry>,
    key: Seq<char>,
    value: CacheEntry,
    other: Seq<char>,
)
    ensures
        m.insert(key, value).dom().contains(key),
        m.insert(key, value)[key] == value,
        other != key ==> (m.insert(key, value).dom().contains(other) == m.dom().contains(other)
            && m.insert(key, value)[other] == m[other]),
{
}

} // verus!
