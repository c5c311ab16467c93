//! The disk cache's in-memory map: string keys to entries that carry a
//! (possibly encrypted) value, an optional expiry time and an access count.
//! When the map outgrows its capacity, the least frequently accessed entries
//! are evicted, ties going to the entry that expires first.
use vstd::prelude::*;
use vstd::utf8::*;
use crate::assoc::{
    keys_unique, lemma_to_map_dom, lemma_to_map_index, lemma_to_map_len, lemma_to_map_push,
    lemma_to_map_remove, lemma_to_map_update, to_map,
};
use crate::clock::{now_millis, CLOCK_BOUND_MILLIS};
use crate::crypto::{
    base64_len, is_ciphertext_of, lemma_ciphertext_is_not_value, opened_text, plaintext_len_handled, EncryptionService, MAX_PLAINTEXT_LEN,
};
use crate::errors::CacheError;

verus! {

/// A cached value with its expiry time (milliseconds since the epoch) and
/// the number of reads it has seen.
#[derive(Debug, Clone, PartialEq, Eq)]
pub struct CacheEntry {
    pub value: String,
    pub expiry: Option<i64>,
    pub access_count: usize,
}

/// The mathematical content of a `CacheEntry`.
pub struct EntryView {
    pub value: Seq<char>,
    pub expiry: Option<i64>,
    pub access_count: nat,
}

impl View for CacheEntry {
    type V = EntryView;

    open spec fn view(&self) -> EntryView {
        EntryView { value: self.value@, expiry: self.expiry, access_count: self.access_count as nat }
    }
}

/// An entry has expired once its expiry time is not after `now`.
pub open spec fn entry_expired(e: EntryView, now: i64) -> bool {
    e.expiry matches Some(t) && t <= now
}

/// The expiry of an entry written at `now` with time-to-live `ttl`.
pub open spec fn expiry_after(ttl: Option<u64>, now: i64) -> Option<i64> {
    match ttl {
        Some(d) => Some((now + d) as i64),
        None => None,
    }
}

/// The time an entry is ranked by: its expiry, or `now` when it has none.
pub open spec fn expiry_or(e: EntryView, now: i64) -> int {
    match e.expiry {
        Some(t) => t as int,
        None => now as int,
    }
}

/// `a` goes no later than `b` when evicting: it has fewer accesses, or as
/// many and (where expiry breaks ties) an expiry no later.
pub open spec fn evicts_before(a: EntryView, b: EntryView, now: i64, by_expiry: bool) -> bool {
    ||| a.access_count < b.access_count
    ||| (a.access_count == b.access_count && (!by_expiry || expiry_or(a, now) <= expiry_or(b, now)))
}

/// `after` keeps exactly `target` entries of `before`, unchanged, and every
/// entry dropped goes no later than every entry kept.
pub open spec fn keeps_highest(
    before: Map<Seq<char>, EntryView>,
    after: Map<Seq<char>, EntryView>,
    target: nat,
    now: i64,
    by_expiry: bool,
) -> bool {
    &&& after.dom().subset_of(before.dom())
    &&& after.dom().len() == target
    &&& forall|k: Seq<char>| #[trigger] after.dom().contains(k) ==> after[k] == before[k]
    &&& forall|r: Seq<char>, k: Seq<char>|
        #![trigger before.dom().contains(r), after.dom().contains(k)]
        before.dom().contains(r) && !after.dom().contains(r) && after.dom().contains(k)
            ==> evicts_before(before[r], before[k], now, by_expiry)
}

/// Trimming `before` down to `target` entries: nothing happens when it
/// already fits.
pub open spec fn trimmed(
    before: Map<Seq<char>, EntryView>,
    after: Map<Seq<char>, EntryView>,
    target: nat,
    now: i64,
    by_expiry: bool,
) -> bool {
    if before.dom().len() <= target {
        after == before
    } else {
        keeps_highest(before, after, target, now, by_expiry)
    }
}

/// The eviction that runs after each write: the cache is trimmed to its
/// capacity, ranking by access count and then by expiry.
pub open spec fn evicted(
    before: Map<Seq<char>, EntryView>,
    after: Map<Seq<char>, EntryView>,
    capacity: nat,
    now: i64,
) -> bool {
    trimmed(before, after, capacity, now, true)
}

/// The effect of writing `stored` under `key` at `now`: the entry is
/// (re)placed with no accesses, then the cache is evicted down to capacity.
pub open spec fn written(
    before: Map<Seq<char>, EntryView>,
    after: Map<Seq<char>, EntryView>,
    key: Seq<char>,
    stored: Seq<char>,
    ttl: Option<u64>,
    now: i64,
    capacity: nat,
) -> bool {
    evicted(
        before.insert(key, EntryView { value: stored, expiry: expiry_after(ttl, now), access_count: 0 }),
        after,
        capacity,
        now,
    )
}

/// A read counts an access to the entry it finds, expired or not.
pub open spec fn touched(m: Map<Seq<char>, EntryView>, key: Seq<char>) -> Map<
    Seq<char>,
    EntryView,
> {
    if m.dom().contains(key) {
        m.insert(key, EntryView { access_count: m[key].access_count + 1, ..m[key] })
    } else {
        m
    }
}

/// What a read of `key` at `now` answers: nothing for a missing or expired
/// entry, else the value, opened with the cipher key where there is one.
pub open spec fn expected_get(
    m: Map<Seq<char>, EntryView>,
    cipher: Option<Seq<u8>>,
    key: Seq<char>,
    now: i64,
) -> Result<Option<Seq<char>>, CacheError> {
    if !m.dom().contains(key) || entry_expired(m[key], now) {
        Ok(None)
    } else {
        match cipher {
            None => Ok(Some(m[key].value)),
            Some(k) => match opened_text(k, m[key].value) {
                Some(v) => Ok(Some(v)),
                None => Err(CacheError::DecryptionError),
            },
        }
    }
}

/// A read's answer as mathematical values.
pub open spec fn get_outcome(r: Result<Option<String>, CacheError>) -> Result<
    Option<Seq<char>>,
    CacheError,
> {
    match r {
        Ok(Some(s)) => Ok(Some(s@)),
        Ok(None) => Ok(None),
        Err(e) => Err(e),
    }
}

/// A read of `key` at `now` answered `out`, as `expected_get` says, and a
/// live entry that holds an encryption of `v` answers `v`.
pub open spec fn get_meets(
    m: Map<Seq<char>, EntryView>,
    cipher: Option<Seq<u8>>,
    key: Seq<char>,
    now: i64,
    out: Result<Option<Seq<char>>, CacheError>,
) -> bool {
    &&& out == expected_get(m, cipher, key, now)
    &&& forall|v: Seq<char>|
        #![trigger is_ciphertext_of(cipher->Some_0, m[key].value, v)]
        m.dom().contains(key) && !entry_expired(m[key], now) && cipher is Some && is_ciphertext_of(
            cipher->Some_0,
            m[key].value,
            v,
        ) ==> out == Ok::<Option<Seq<char>>, CacheError>(Some(v))
}

/// The outcome of writing `value` under `key` at `now`: a plain value is
/// stored as it is; with a cipher key the value is stored sealed, never as
/// itself (refused
/// when AES-GCM cannot take it, leaving the cache unchanged).
pub open spec fn set_effect(
    before: Map<Seq<char>, EntryView>,
    after: Map<Seq<char>, EntryView>,
    cipher: Option<Seq<u8>>,
    key: Seq<char>,
    value: Seq<char>,
    ttl: Option<u64>,
    now: i64,
    capacity: nat,
    out: Result<(), CacheError>,
) -> bool {
    match cipher {
        None => out is Ok && written(before, after, key, value, ttl, now, capacity),
        Some(k) => if encode_utf8(value).len() <= MAX_PLAINTEXT_LEN {
            &&& out is Ok
            &&& exists|stored: Seq<char>|
                #[trigger] is_ciphertext_of(k, stored, value) && stored != value && written(
                    before,
                    after,
                    key,
                    stored,
                    ttl,
                    now,
                    capacity,
                )
        } else {
            out == Err::<(), CacheError>(CacheError::EncryptionError) && after == before
        },
    }
}

/// The map without the entries that have expired at `now`.
pub open spec fn purged(m: Map<Seq<char>, EntryView>, now: i64) -> Map<Seq<char>, EntryView> {
    Map::new(|k: Seq<char>| m.dom().contains(k) && !entry_expired(m[k], now), |k: Seq<char>| m[k])
}

/// The key/entry pairs of a list as mathematical values.
pub open spec fn items_view(items: Seq<(String, CacheEntry)>) -> Seq<(Seq<char>, EntryView)> {
    Seq::new(items.len(), |i: int| (items[i].0@, items[i].1@))
}

/// Some entry of `m` does not open under the cipher key.
pub open spec fn has_unreadable_entry(m: Map<Seq<char>, EntryView>, cipher: Option<Seq<u8>>) -> bool {
    cipher is Some && exists|k: Seq<char>|
        #[trigger] m.dom().contains(k) && opened_text(cipher->Some_0, m[k].value) is None
}

/// Whether `a` goes no later than `b` when evicting.
fn evicts_before_exec(a: &CacheEntry, b: &CacheEntry, now: i64, by_expiry: bool) -> (r: bool)
    ensures
        r == evicts_before(a@, b@, now, by_expiry),
{
    if a.access_count < b.access_count {
        true
    } else if a.access_count > b.access_count {
        false
    } else if !by_expiry {
        true
    } else {
        let ea = match a.expiry {
            Some(t) => t,
            None => now,
        };
        let eb = match b.expiry {
            Some(t) => t,
            None => now,
        };
        ea <= eb
    }
}

impl CacheEntry {
    /// Whether the entry has expired at `now`.
    pub fn is_expired_at(&self, now: i64) -> (r: bool)
        ensures
            r == entry_expired(self@, now),
    {
        match self.expiry {
            Some(t) => t <= now,
            None => false,
        }
    }

    /// Whether the entry has expired by the wall clock. An entry without an
    /// expiry never has.
    pub fn is_expired(&self) -> (r: bool)
        ensures
            self.expiry is None ==> !r,
            exists|now: i64| 0 <= now < CLOCK_BOUND_MILLIS && r == entry_expired(self@, now),
    {
        let now = now_millis();
        self.is_expired_at(now)
    }

    /// An entry with the same fields.
    pub fn duplicate(&self) -> (r: CacheEntry)
        ensures
            r@ == self@,
    {
        CacheEntry { value: self.value.clone(), expiry: self.expiry, access_count: self.access_count }
    }
}

/// The disk cache's map, its capacity and, where encryption is on, the
/// service that seals and opens values.
pub struct DiskCache {
    keys: Vec<String>,
    entries: Vec<CacheEntry>,
    max_cache_size: usize,
    encryption: Option<EncryptionService>,
}

impl View for DiskCache {
    type V = Map<Seq<char>, EntryView>;

    closed spec fn view(&self) -> Map<Seq<char>, EntryView> {
        to_map(self.pairs())
    }
}

impl DiskCache {
    /// The entries in storage order.
    closed spec fn pairs(&self) -> Seq<(Seq<char>, EntryView)> {
        Seq::new(self.keys@.len(), |i: int| (self.keys@[i]@, self.entries@[i]@))
    }

    /// Keys and entries pair up, and no key occurs twice.
    pub closed spec fn wf(&self) -> bool {
        &&& self.keys@.len() == self.entries@.len()
        &&& keys_unique(self.pairs())
    }

    /// The number of entries the cache keeps after evicting.
    pub closed spec fn capacity(&self) -> nat {
        self.max_cache_size as nat
    }

    /// The encryption key, where encryption is on.
    pub closed spec fn cipher_key(&self) -> Option<Seq<u8>> {
        match self.encryption {
            Some(s) => Some(s.key()),
            None => None,
        }
    }

    proof fn lemma_view_facts(&self)
        requires
            self.wf(),
        ensures
            self@.dom().finite(),
            self@.dom().len() == self.keys@.len(),
            forall|i: int|
                0 <= i < self.keys@.len() ==> #[trigger] self@.dom().contains(self.keys@[i]@)
                    && self@[self.keys@[i]@] == self.entries@[i]@,
            forall|k: Seq<char>| #[trigger]
                self@.dom().contains(k) ==> exists|i: int|
                    0 <= i < self.keys@.len() && self.keys@[i]@ == k,
    {
        let p = self.pairs();
        lemma_to_map_dom(p);
        lemma_to_map_len(p);
        assert forall|i: int| 0 <= i < self.keys@.len() implies #[trigger] self@.dom().contains(
            self.keys@[i]@,
        ) && self@[self.keys@[i]@] == self.entries@[i]@ by {
            lemma_to_map_index(p, i);
        }
        assert forall|k: Seq<char>| #[trigger] self@.dom().contains(k) implies exists|i: int|
            0 <= i < self.keys@.len() && self.keys@[i]@ == k by {
            let i = choose|i: int| 0 <= i < p.len() && p[i].0 == k;
            assert(self.keys@[i]@ == k);
        }
    }

    /// A well-formed cache holds finitely many entries, one per stored key.
    pub proof fn lemma_finite(&self)
        requires
            self.wf(),
        ensures
            self@.dom().finite(),
    {
        self.lemma_view_facts();
    }

    /// An empty cache that keeps at most `initial_cache_size` entries and
    /// encrypts values with `encryption` where it is given.
    pub fn new(initial_cache_size: usize, encryption: Option<EncryptionService>) -> (r: Self)
        ensures
            r.wf(),
            r@ == Map::<Seq<char>, EntryView>::empty(),
            r.capacity() == initial_cache_size,
            r.cipher_key() == match encryption {
                Some(s) => Some(s.key()),
                None => None::<Seq<u8>>,
            },
    {
        let r = DiskCache { keys: Vec::new(), entries: Vec::new(), max_cache_size: initial_cache_size, encryption };
        assert(r.pairs() =~= Seq::<(Seq<char>, EntryView)>::empty());
        r
    }

    /// The number of entries.
    pub fn len(&self) -> (n: usize)
        requires
            self.wf(),
        ensures
            n == self@.dom().len(),
    {
        proof {
            self.lemma_view_facts();
        }
        self.keys.len()
    }

    /// The capacity the cache evicts down to.
    pub fn max_cache_size(&self) -> (n: usize)
        ensures
            n == self.capacity(),
    {
        self.max_cache_size
    }

    /// Whether values are stored encrypted.
    pub fn encryption_enabled(&self) -> (b: bool)
        ensures
            b == self.cipher_key() is Some,
    {
        self.encryption.is_some()
    }

    /// The number of reads the entry under `key` has seen, if present.
    pub fn access_count(&self, key: &str) -> (r: Option<usize>)
        requires
            self.wf(),
        ensures
            match r {
                Some(n) => self@.dom().contains(key@) && n == self@[key@].access_count,
                None => !self@.dom().contains(key@),
            },
    {
        proof {
            self.lemma_view_facts();
        }
        match self.find(&key.to_owned()) {
            Some(i) => {
                proof {
                    assert(self@.dom().contains(self.keys@[i as int]@));
                }
                Some(self.entries[i].access_count)
            },
            None => None,
        }
    }

    /// The position of `key`, if it is present.
    fn find(&self, key: &String) -> (r: Option<usize>)
        requires
            self.wf(),
        ensures
            match r {
                Some(i) => i < self.keys@.len() && self.keys@[i as int]@ == key@,
                None => !self@.dom().contains(key@),
            },
    {
        proof {
            self.lemma_view_facts();
        }
        let mut i: usize = 0;
        while i < self.keys.len()
            invariant
                self.wf(),
                i <= self.keys@.len(),
                forall|j: int| 0 <= j < i ==> self.keys@[j]@ != key@,
            decreases self.keys@.len() - i,
        {
            if self.keys[i] == *key {
                return Some(i);
            }
            i = i + 1;
        }
        proof {
            if self@.dom().contains(key@) {
                let j = choose|j: int| 0 <= j < self.keys@.len() && self.keys@[j]@ == key@;
                assert(self.keys@[j]@ == key@);
            }
        }
        None
    }

    /// The position of an entry that goes no later than any other.
    fn lowest_index(&self, now: i64, by_expiry: bool) -> (best: usize)
        requires
            self.wf(),
            self.keys@.len() > 0,
        ensures
            best < self.keys@.len(),
            forall|j: int|
                0 <= j < self.keys@.len() ==> evicts_before(
                    self.entries@[best as int]@,
                    #[trigger] self.entries@[j]@,
                    now,
                    by_expiry,
                ),
    {
        let n = self.entries.len();
        let mut best: usize = 0;
        let mut j: usize = 1;
        while j < n
            invariant
                n == self.entries@.len(),
                best < j <= n,
                forall|m: int|
                    0 <= m < j ==> evicts_before(
                        self.entries@[best as int]@,
                        #[trigger] self.entries@[m]@,
                        now,
                        by_expiry,
                    ),
            decreases n - j,
        {
            if !evicts_before_exec(&self.entries[best], &self.entries[j], now, by_expiry) {
                best = j;
            }
            j = j + 1;
        }
        best
    }

    /// Removes the entry at position `i`.
    fn remove_at(&mut self, i: usize)
        requires
            old(self).wf(),
            i < old(self).keys@.len(),
        ensures
            final(self).wf(),
            final(self)@ == old(self)@.remove(old(self).keys@[i as int]@),
            final(self).keys@.len() == old(self).keys@.len() - 1,
            final(self).pairs() == old(self).pairs().remove(i as int),
            final(self).capacity() == old(self).capacity(),
            final(self).cipher_key() == old(self).cipher_key(),
    {
        let ghost p = self.pairs();
        self.keys.remove(i);
        self.entries.remove(i);
        proof {
            assert(self.pairs() =~= p.remove(i as int));
            lemma_to_map_remove(p, i as int);
        }
    }

    /// Evicts the lowest-ranked entries until at most `target` remain.
    fn remove_lowest(&mut self, target: usize, now: i64, by_expiry: bool)
        requires
            old(self).wf(),
        ensures
            final(self).wf(),
            trimmed(old(self)@, final(self)@, target as nat, now, by_expiry),
            final(self).capacity() == old(self).capacity(),
            final(self).cipher_key() == old(self).cipher_key(),
    {
        let ghost before = self@;
        proof {
            self.lemma_view_facts();
        }
        while self.keys.len() > target
            invariant
                self.wf(),
                self.capacity() == old(self).capacity(),
                self.cipher_key() == old(self).cipher_key(),
                before == old(self)@,
                self@.dom().subset_of(before.dom()),
                self@.dom().len() == self.keys@.len(),
                before.dom().len() > target ==> self.keys@.len() >= target,
                before.dom().len() <= target ==> self@ == before,
                forall|k: Seq<char>| #[trigger] self@.dom().contains(k) ==> self@[k] == before[k],
                forall|r: Seq<char>, k: Seq<char>|
                    #![trigger before.dom().contains(r), self@.dom().contains(k)]
                    before.dom().contains(r) && !self@.dom().contains(r) && self@.dom().contains(k)
                        ==> evicts_before(before[r], before[k], now, by_expiry),
            decreases self.keys@.len(),
        {
            let i = self.lowest_index(now, by_expiry);
            let ghost mid = self@;
            let ghost gone = self.keys@[i as int]@;
            proof {
                self.lemma_view_facts();
                assert forall|k: Seq<char>| #[trigger] mid.dom().contains(k) implies evicts_before(
                    mid[gone],
                    mid[k],
                    now,
                    by_expiry,
                ) by {
                    let j = choose|j: int| 0 <= j < self.keys@.len() && self.keys@[j]@ == k;
                    assert(self@.dom().contains(self.keys@[i as int]@));
                    assert(self@.dom().contains(self.keys@[j]@));
                    assert(evicts_before(self.entries@[i as int]@, self.entries@[j]@, now, by_expiry));
                }
            }
            self.remove_at(i);
            proof {
                self.lemma_view_facts();
                assert forall|r: Seq<char>, k: Seq<char>|
                    #![trigger before.dom().contains(r), self@.dom().contains(k)]
                    before.dom().contains(r) && !self@.dom().contains(r) && self@.dom().contains(k)
                        implies evicts_before(before[r], before[k], now, by_expiry) by {
                    assert(mid.dom().contains(k));
                    if r != gone {
                        assert(!mid.dom().contains(r));
                    }
                }
            }
        }
        proof {
            self.lemma_view_facts();
        }
    }

    /// The eviction run after each write: when the cache holds more than its
    /// capacity, the least frequently accessed entries (the earliest to
    /// expire among equals, an entry without expiry counting as expiring
    /// now) are removed until it fits.
    pub fn evict_if_necessary_at(&mut self, now: i64)
        requires
            old(self).wf(),
        ensures
            final(self).wf(),
            evicted(old(self)@, final(self)@, old(self).capacity(), now),
            final(self).capacity() == old(self).capacity(),
            final(self).cipher_key() == old(self).cipher_key(),
    {
        let target = self.max_cache_size;
        self.remove_lowest(target, now, true);
    }

    /// `evict_if_necessary_at` by the wall clock.
    pub fn evict_if_necessary(&mut self)
        requires
            old(self).wf(),
        ensures
            final(self).wf(),
            exists|now: i64| evicted(old(self)@, final(self)@, old(self).capacity(), now),
            final(self).capacity() == old(self).capacity(),
            final(self).cipher_key() == old(self).cipher_key(),
    {
        let now = now_millis();
        self.evict_if_necessary_at(now);
    }

    /// When the cache holds more entries than its capacity, removes the least
    /// frequently accessed ones until it fits.
    pub fn cleanup_least_frequently_used(&mut self)
        requires
            old(self).wf(),
        ensures
            final(self).wf(),
            trimmed(old(self)@, final(self)@, old(self).capacity(), 0, false),
            final(self).capacity() == old(self).capacity(),
            final(self).cipher_key() == old(self).cipher_key(),
    {
        let target = self.max_cache_size;
        self.remove_lowest(target, 0, false);
    }

    /// Places `entry` under `key`, replacing any entry there.
    fn put(&mut self, key: String, entry: CacheEntry)
        requires
            old(self).wf(),
        ensures
            final(self).wf(),
            final(self)@ == old(self)@.insert(key@, entry@),
            final(self).capacity() == old(self).capacity(),
            final(self).cipher_key() == old(self).cipher_key(),
    {
        let ghost p = self.pairs();
        let ghost ev = entry@;
        match self.find(&key) {
            Some(i) => {
                self.entries.set(i, entry);
                proof {
                    assert(self.pairs() =~= p.update(i as int, (p[i as int].0, ev)));
                    lemma_to_map_update(p, i as int, ev);
                }
            },
            None => {
                let ghost kv = key@;
                self.keys.push(key);
                self.entries.push(entry);
                proof {
                    assert(self.pairs() =~= p.push((kv, ev)));
                    lemma_to_map_push(p, kv, ev);
                }
            },
        }
    }

    /// Writes `value` under `key` at time `now`, to expire `ttl`
    /// milliseconds later where a time-to-live is given. With encryption on,
    /// the value is stored sealed under a fresh nonce. The entry starts with
    /// no accesses, and the cache is then evicted down to its capacity.
    pub fn set_at(&mut self, key: &str, value: &str, ttl: Option<u64>, now: i64) -> (r: Result<
        (),
        CacheError,
    >)
        requires
            old(self).wf(),
            ttl matches Some(d) ==> now + d <= i64::MAX,
            old(self).cipher_key() is Some ==> plaintext_len_handled(encode_utf8(value@).len()),
            old(self).cipher_key() is Some && encode_utf8(value@).len() <= MAX_PLAINTEXT_LEN
                ==> base64_len(encode_utf8(value@).len() + 16) <= usize::MAX,
        ensures
            final(self).wf(),
            final(self).capacity() == old(self).capacity(),
            final(self).cipher_key() == old(self).cipher_key(),
            set_effect(
                old(self)@,
                final(self)@,
                old(self).cipher_key(),
                key@,
                value@,
                ttl,
                now,
                old(self).capacity(),
                r,
            ),
    {
        let ghost before = self@;
        let stored = match &self.encryption {
            Some(svc) => match svc.encrypt(value) {
                Ok(s) => s,
                Err(e) => {
                    return Err(e);
                },
            },
            None => value.to_owned(),
        };
        let expiry = match ttl {
            Some(d) => Some((now as i128 + d as i128) as i64),
            None => None,
        };
        let ghost sv = stored@;
        proof {
            match self.cipher_key() {
                Some(ck) => {
                    assert(is_ciphertext_of(ck, sv, value@));
                    lemma_ciphertext_is_not_value(ck, sv, value@);
                },
                None => {
                    assert(sv == value@);
                },
            }
        }
        let entry = CacheEntry { value: stored, expiry, access_count: 0 };
        self.put(key.to_owned(), entry);
        let ghost inserted = self@;
        self.evict_if_necessary_at(now);
        proof {
            assert(inserted == before.insert(
                key@,
                EntryView { value: sv, expiry: expiry_after(ttl, now), access_count: 0 },
            ));
            assert(written(before, self@, key@, sv, ttl, now, self.capacity()));
        }
        Ok(())
    }

    /// `set_at` at the wall clock's time.
    pub fn set(&mut self, key: &str, value: &str, ttl: Option<u64>) -> (r: Result<(), CacheError>)
        requires
            old(self).wf(),
            ttl matches Some(d) ==> d + CLOCK_BOUND_MILLIS <= i64::MAX,
            old(self).cipher_key() is Some ==> plaintext_len_handled(encode_utf8(value@).len()),
            old(self).cipher_key() is Some && encode_utf8(value@).len() <= MAX_PLAINTEXT_LEN
                ==> base64_len(encode_utf8(value@).len() + 16) <= usize::MAX,
        ensures
            final(self).wf(),
            final(self).capacity() == old(self).capacity(),
            final(self).cipher_key() == old(self).cipher_key(),
            exists|now: i64|
                0 <= now < CLOCK_BOUND_MILLIS && set_effect(
                    old(self)@,
                    final(self)@,
                    old(self).cipher_key(),
                    key@,
                    value@,
                    ttl,
                    now,
                    old(self).capacity(),
                    r,
                ),
    {
        let now = now_millis();
        self.set_at(key, value, ttl, now)
    }

    /// Reads `key` at time `now`. A found entry has its access counted,
    /// expired or not; an expired or missing entry reads as nothing; with
    /// encryption on, the stored text is opened.
    pub fn get_at(&mut self, key: &str, now: i64) -> (r: Result<Option<String>, CacheError>)
        requires
            old(self).wf(),
            old(self)@.dom().contains(key@) ==> old(self)@[key@].access_count < usize::MAX,
        ensures
            final(self).wf(),
            final(self)@ == touched(old(self)@, key@),
            final(self).capacity() == old(self).capacity(),
            final(self).cipher_key() == old(self).cipher_key(),
            get_meets(old(self)@, old(self).cipher_key(), key@, now, get_outcome(r)),
    {
        let ghost before = self@;
        let k = key.to_owned();
        proof {
            self.lemma_view_facts();
        }
        match self.find(&k) {
            None => {
                proof {
                    assert(touched(before, key@) == before);
                }
                Ok(None)
            },
            Some(i) => {
                let ghost p = self.pairs();
                proof {
                    assert(self@.dom().contains(self.keys@[i as int]@));
                }
                let updated = CacheEntry {
                    value: self.entries[i].value.clone(),
                    expiry: self.entries[i].expiry,
                    access_count: self.entries[i].access_count + 1,
                };
                let expired = updated.is_expired_at(now);
                self.entries.set(i, updated);
                proof {
                    assert(self.pairs() =~= p.update(
                        i as int,
                        (p[i as int].0, self.entries@[i as int]@),
                    ));
                    lemma_to_map_update(p, i as int, self.entries@[i as int]@);
                    assert(self@ =~= touched(before, key@));
                }
                if expired {
                    return Ok(None);
                }
                match &self.encryption {
                    Some(svc) => match svc.decrypt(self.entries[i].value.as_str()) {
                        Ok(v) => Ok(Some(v)),
                        Err(e) => Err(e),
                    },
                    None => Ok(Some(self.entries[i].value.clone())),
                }
            },
        }
    }

    /// `get_at` at the wall clock's time.
    pub fn get(&mut self, key: &str) -> (r: Result<Option<String>, CacheError>)
        requires
            old(self).wf(),
            old(self)@.dom().contains(key@) ==> old(self)@[key@].access_count < usize::MAX,
        ensures
            final(self).wf(),
            final(self)@ == touched(old(self)@, key@),
            final(self).capacity() == old(self).capacity(),
            final(self).cipher_key() == old(self).cipher_key(),
            exists|now: i64|
                0 <= now < CLOCK_BOUND_MILLIS && get_meets(
                    old(self)@,
                    old(self).cipher_key(),
                    key@,
                    now,
                    get_outcome(r),
                ),
    {
        let now = now_millis();
        self.get_at(key, now)
    }

    /// Drops every entry that has expired at `now`.
    pub fn cleanup_at(&mut self, now: i64)
        requires
            old(self).wf(),
        ensures
            final(self).wf(),
            final(self)@ == purged(old(self)@, now),
            final(self).capacity() == old(self).capacity(),
            final(self).cipher_key() == old(self).cipher_key(),
    {
        let ghost before = self@;
        proof {
            self.lemma_view_facts();
        }
        let mut i: usize = 0;
        while i < self.keys.len()
            invariant
                self.wf(),
                self.capacity() == old(self).capacity(),
                self.cipher_key() == old(self).cipher_key(),
                i <= self.keys@.len(),
                self@.dom().subset_of(before.dom()),
                forall|k: Seq<char>| #[trigger] self@.dom().contains(k) ==> self@[k] == before[k],
                forall|k: Seq<char>|
                    #[trigger] before.dom().contains(k) && !entry_expired(before[k], now)
                        ==> self@.dom().contains(k),
                forall|j: int| 0 <= j < i ==> !entry_expired(#[trigger] self.entries@[j]@, now),
                forall|k: Seq<char>|
                    #[trigger] self@.dom().contains(k) && entry_expired(before[k], now)
                        ==> exists|j: int| i <= j < self.keys@.len() && self.keys@[j]@ == k,
            decreases self.keys@.len() - i,
        {
            let ghost old_keys = self.keys@;
            let ghost old_entries = self.entries@;
            let ghost old_pairs = self.pairs();
            let ghost mid = self@;
            proof {
                self.lemma_view_facts();
            }
            if self.entries[i].is_expired_at(now) {
                self.remove_at(i);
                proof {
                    self.lemma_view_facts();
                    assert forall|j: int| 0 <= j < i implies !entry_expired(
                        #[trigger] self.entries@[j]@,
                        now,
                    ) by {
                        assert(self.pairs()[j].1 == self.entries@[j]@);
                        assert(self.pairs()[j] == old_pairs[j]);
                        assert(old_pairs[j].1 == old_entries[j]@);
                    }
                    assert forall|k: Seq<char>|
                        #[trigger] self@.dom().contains(k) && entry_expired(
                            before[k],
                            now,
                        ) implies exists|j: int| i <= j < self.keys@.len() && self.keys@[j]@ == k by {
                        assert(mid.dom().contains(k));
                        let j = choose|j: int| i <= j < old_keys.len() && old_keys[j]@ == k;
                        assert(j != i);
                        assert(self.pairs()[j - 1] == old_pairs[j]);
                        assert(old_pairs[j].0 == old_keys[j]@);
                        assert(self.pairs()[j - 1].0 == self.keys@[j - 1]@);
                    }
                }
            } else {
                proof {
                    assert forall|k: Seq<char>|
                        #[trigger] self@.dom().contains(k) && entry_expired(
                            before[k],
                            now,
                        ) implies exists|j: int| i + 1 <= j < self.keys@.len() && self.keys@[j]@ == k by {
                        let j = choose|j: int| i <= j < self.keys@.len() && self.keys@[j]@ == k;
                        assert(self@.dom().contains(self.keys@[j]@));
                        assert(j != i);
                    }
                }
                i = i + 1;
            }
        }
        proof {
            self.lemma_view_facts();
            assert(self@ =~= purged(before, now));
        }
    }

    /// `cleanup_at` at the wall clock's time.
    pub fn cleanup(&mut self)
        requires
            old(self).wf(),
        ensures
            final(self).wf(),
            exists|now: i64| 0 <= now < CLOCK_BOUND_MILLIS && final(self)@ == purged(old(self)@, now),
            final(self).capacity() == old(self).capacity(),
            final(self).cipher_key() == old(self).cipher_key(),
    {
        let now = now_millis();
        self.cleanup_at(now)
    }

    /// Replaces the whole map by the given pairs (a later pair overriding an
    /// earlier one with the same key). With encryption on, every entry must
    /// then open under the key, else the map stays replaced and
    /// `IntegrityError` is reported.
    pub fn load_entries(&mut self, items: Vec<(String, CacheEntry)>) -> (r: Result<(), CacheError>)
        requires
            old(self).wf(),
        ensures
            final(self).wf(),
            final(self)@ == to_map(items_view(items@)),
            final(self).capacity() == old(self).capacity(),
            final(self).cipher_key() == old(self).cipher_key(),
            r is Err <==> has_unreadable_entry(final(self)@, old(self).cipher_key()),
            r is Err ==> r == Err::<(), CacheError>(CacheError::IntegrityError),
    {
        self.keys = Vec::new();
        self.entries = Vec::new();
        let ghost iv = items_view(items@);
        proof {
            assert(self.pairs() =~= Seq::<(Seq<char>, EntryView)>::empty());
            assert(iv.take(0) =~= Seq::<(Seq<char>, EntryView)>::empty());
        }
        let mut i: usize = 0;
        while i < items.len()
            invariant
                self.wf(),
                self.capacity() == old(self).capacity(),
                self.cipher_key() == old(self).cipher_key(),
                iv == items_view(items@),
                i <= items@.len(),
                self@ == to_map(iv.take(i as int)),
            decreases items@.len() - i,
        {
            let k = items[i].0.clone();
            let e = items[i].1.duplicate();
            self.put(k, e);
            proof {
                assert(iv.take(i + 1).drop_last() =~= iv.take(i as int));
            }
            i = i + 1;
        }
        proof {
            assert(iv.take(items@.len() as int) =~= iv);
            self.lemma_view_facts();
        }
        match &self.encryption {
            None => Ok(()),
            Some(svc) => {
                let mut j: usize = 0;
                while j < self.entries.len()
                    invariant
                        self.wf(),
                        self.cipher_key() == Some(svc.key()),
                        self.cipher_key() == old(self).cipher_key(),
                        self.capacity() == old(self).capacity(),
                        self@ == to_map(iv),
                        iv == items_view(items@),
                        j <= self.entries@.len(),
                        forall|m: int|
                            0 <= m < j ==> opened_text(svc.key(), #[trigger] self.entries@[m]@.value)
                                is Some,
                    decreases self.entries@.len() - j,
                {
                    match svc.decrypt(self.entries[j].value.as_str()) {
                        Ok(_) => {},
                        Err(_) => {
                            proof {
                                self.lemma_view_facts();
                                assert(self@.dom().contains(self.keys@[j as int]@));
                            }
                            return Err(CacheError::IntegrityError);
                        },
                    }
                    j = j + 1;
                }
                proof {
                    self.lemma_view_facts();
                    assert forall|k: Seq<char>| #[trigger] self@.dom().contains(k) implies opened_text(
                        svc.key(),
                        self@[k].value,
                    ) is Some by {
                        let m = choose|m: int| 0 <= m < self.keys@.len() && self.keys@[m]@ == k;
                        assert(self@.dom().contains(self.keys@[m]@));
                    }
                }
                Ok(())
            },
        }
    }

    /// The pairs of the map, for writing it out.
    pub fn snapshot(&self) -> (items: Vec<(String, CacheEntry)>)
        requires
            self.wf(),
        ensures
            keys_unique(items_view(items@)),
            to_map(items_view(items@)) == self@,
    {
        let mut items: Vec<(String, CacheEntry)> = Vec::new();
        let mut i: usize = 0;
        while i < self.keys.len()
            invariant
                self.wf(),
                i <= self.keys@.len(),
                items@.len() == i,
                items_view(items@) == self.pairs().take(i as int),
            decreases self.keys@.len() - i,
        {
            let k = self.keys[i].clone();
            let e = self.entries[i].duplicate();
            let ghost before_push = items@;
            items.push((k, e));
            proof {
                assert forall|m: int| 0 <= m < i + 1 implies #[trigger] items_view(items@)[m]
                    == self.pairs().take(i + 1)[m] by {
                    if m < i {
                        assert(items@[m] == before_push[m]);
                        assert(items_view(before_push)[m] == self.pairs().take(i as int)[m]);
                    }
                }
                assert(items_view(items@) =~= self.pairs().take(i + 1));
            }
            i = i + 1;
        }
        proof {
            assert(self.pairs().take(self.keys@.len() as int) =~= self.pairs());
        }
        items
    }
}

} // verus!

verus! {

/// Read after write: once a value has been written, a read of its key gives
/// the value back (opened again where the cache encrypts), as long as the
/// write did not have to evict beyond the cache's capacity and the entry
/// has not expired.
pub proof fn law_read_after_write(
    before: Map<Seq<char>, EntryView>,
    after: Map<Seq<char>, EntryView>,
    cipher: Option<Seq<u8>>,
    key: Seq<char>,
    value: Seq<char>,
    ttl: Option<u64>,
    now: i64,
    capacity: nat,
    later: i64,
    out: Result<Option<Seq<char>>, CacheError>,
)
    requires
        before.dom().finite(),
        set_effect(before, after, cipher, key, value, ttl, now, capacity, Ok(())),
        before.dom().insert(key).len() <= capacity,
        ttl matches Some(d) ==> now + d <= i64::MAX && later < now + d,
        get_meets(after, cipher, key, later, out),
    ensures
        out == Ok::<Option<Seq<char>>, CacheError>(Some(value)),
{
    let stored = match cipher {
        None => value,
        Some(ck) => choose|stored: Seq<char>|
            #[trigger] is_ciphertext_of(ck, stored, value) && written(
                before,
                after,
                key,
                stored,
                ttl,
                now,
                capacity,
            ),
    };
    let e = EntryView { value: stored, expiry: expiry_after(ttl, now), access_count: 0 };
    let inserted = before.insert(key, e);
    assert(inserted.dom() =~= before.dom().insert(key));
    assert(after == inserted);
    assert(after[key] == e);
    assert(!entry_expired(after[key], later));
    if let Some(ck) = cipher {
        assert(is_ciphertext_of(ck, after[key].value, value));
    }
}

/// A write leaves the cache holding no more entries than its capacity.
pub proof fn law_write_respects_capacity(
    before: Map<Seq<char>, EntryView>,
    after: Map<Seq<char>, EntryView>,
    key: Seq<char>,
    stored: Seq<char>,
    ttl: Option<u64>,
    now: i64,
    capacity: nat,
)
    requires
        before.dom().finite(),
        written(before, after, key, stored, ttl, now, capacity),
    ensures
        after.dom().len() <= capacity,
{
}

/// Eviction keeps the most used entries: no entry that was evicted had been
/// read more often than an entry that was kept.
pub proof fn law_eviction_spares_more_used(
    before: Map<Seq<char>, EntryView>,
    after: Map<Seq<char>, EntryView>,
    capacity: nat,
    now: i64,
    gone: Seq<char>,
    kept: Seq<char>,
)
    requires
        evicted(before, after, capacity, now),
        before.dom().contains(gone),
        !after.dom().contains(gone),
        after.dom().contains(kept),
    ensures
        before[gone].access_count <= before[kept].access_count,
        after[kept] == before[kept],
{
}

/// A read changes nothing but the access count of the entry it finds.
pub proof fn law_read_only_counts(m: Map<Seq<char>, EntryView>, key: Seq<char>)
    ensures
        touched(m, key).dom() == m.dom(),
        forall|k: Seq<char>| #[trigger]
            touched(m, key).dom().contains(k) ==> touched(m, key)[k].value == m[k].value
                && touched(m, key)[k].expiry == m[k].expiry,
        m.dom().contains(key) ==> touched(m, key)[key].access_count == m[key].access_count + 1,
        forall|k: Seq<char>|
            #[trigger] touched(m, key).dom().contains(k) && k != key ==> touched(m, key)[k] == m[k],
{
    if m.dom().contains(key) {
        assert(touched(m, key).dom() =~= m.dom());
    }
}

/// Cleanup drops exactly the expired entries and keeps the others as they
/// were.
pub proof fn law_cleanup_drops_exactly_expired(m: Map<Seq<char>, EntryView>, now: i64, k: Seq<char>)
    ensures
        purged(m, now).dom().contains(k) <==> m.dom().contains(k) && !entry_expired(m[k], now),
        purged(m, now).dom().contains(k) ==> purged(m, now)[k] == m[k],
{
}

} // verus!

verus! {

/// A read of a key whose entry carries an expiry no later than the read
/// time answers nothing, whether or not the cache encrypts.
pub proof fn law_expired_read_answers_nothing(
    m: Map<Seq<char>, EntryView>,
    cipher: Option<Seq<u8>>,
    key: Seq<char>,
    now: i64,
    t: i64,
    out: Result<Option<Seq<char>>, CacheError>,
)
    requires
        get_meets(m, cipher, key, now, out),
        m.dom().contains(key),
        m[key].expiry == Some(t),
        t <= now,
    ensures
        out == Ok::<Option<Seq<char>>, CacheError>(None),
{
}

/// A read of a key the cache does not hold answers nothing, whether or not
/// the cache encrypts.
pub proof fn law_missing_read_answers_nothing(
    m: Map<Seq<char>, EntryView>,
    cipher: Option<Seq<u8>>,
    key: Seq<char>,
    now: i64,
    out: Result<Option<Seq<char>>, CacheError>,
)
    requires
        get_meets(m, cipher, key, now, out),
        !m.dom().contains(key),
    ensures
        out == Ok::<Option<Seq<char>>, CacheError>(None),
{
}

/// Without encryption, a read of a live entry answers the stored value
/// itself.
pub proof fn law_plain_read_answers_stored_value(
    m: Map<Seq<char>, EntryView>,
    key: Seq<char>,
    now: i64,
    out: Result<Option<Seq<char>>, CacheError>,
)
    requires
        get_meets(m, None, key, now, out),
        m.dom().contains(key),
        m[key].expiry is None || now < m[key].expiry->Some_0,
    ensures
        out == Ok::<Option<Seq<char>>, CacheError>(Some(m[key].value)),
{
}

/// A successful write at `now` leaves the entry it wrote (unless evicted)
/// with no accesses and an expiry `ttl` after `now` (none without a
/// time-to-live), with encryption on as well as off; without encryption it
/// holds the value itself.
pub proof fn law_write_sets_entry(
    before: Map<Seq<char>, EntryView>,
    after: Map<Seq<char>, EntryView>,
    cipher: Option<Seq<u8>>,
    key: Seq<char>,
    value: Seq<char>,
    ttl: Option<u64>,
    now: i64,
    capacity: nat,
    out: Result<(), CacheError>,
)
    requires
        set_effect(before, after, cipher, key, value, ttl, now, capacity, out),
        out is Ok,
        ttl matches Some(d) ==> now + d <= i64::MAX,
        after.dom().contains(key),
    ensures
        after[key].access_count == 0,
        ttl is None ==> after[key].expiry is None,
        ttl matches Some(d) ==> (after[key].expiry matches Some(t) && t == now + d),
        cipher is None ==> after[key].value == value,
        cipher matches Some(k) ==> is_ciphertext_of(k, after[key].value, value),
{
    let stored = match cipher {
        None => value,
        Some(ck) => choose|stored: Seq<char>|
            #[trigger] is_ciphertext_of(ck, stored, value) && stored != value && written(
                before,
                after,
                key,
                stored,
                ttl,
                now,
                capacity,
            ),
    };
    let e = EntryView { value: stored, expiry: expiry_after(ttl, now), access_count: 0 };
    let inserted = before.insert(key, e);
    assert(inserted.dom().contains(key));
    assert(after[key] == inserted[key]);
}

/// Once its time-to-live has run out, a written value reads as nothing,
/// whether the cache encrypts or not and whether it was evicted or not.
pub proof fn law_write_then_late_read(
    before: Map<Seq<char>, EntryView>,
    after: Map<Seq<char>, EntryView>,
    cipher: Option<Seq<u8>>,
    key: Seq<char>,
    value: Seq<char>,
    d: u64,
    now: i64,
    capacity: nat,
    later: i64,
    out: Result<Option<Seq<char>>, CacheError>,
)
    requires
        set_effect(before, after, cipher, key, value, Some(d), now, capacity, Ok(())),
        now + d <= i64::MAX,
        now + d <= later,
        get_meets(after, cipher, key, later, out),
    ensures
        out == Ok::<Option<Seq<char>>, CacheError>(None),
{
    if after.dom().contains(key) {
        law_write_sets_entry(before, after, cipher, key, value, Some(d), now, capacity, Ok(()));
        law_expired_read_answers_nothing(after, cipher, key, later, after[key].expiry->Some_0, out);
    }
}

} // verus!
