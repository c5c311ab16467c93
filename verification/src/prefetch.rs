//! Access-pattern prefetching: the time between the last two accesses of
//! each key is recorded, and keys accessed again within five seconds are
//! loaded into the cache ahead of their next read.
use vstd::prelude::*;
use crate::clock::{now_millis, CLOCK_BOUND_MILLIS};
use crate::simple_cache::{load_data_for_key, SimpleCache};
use crate::text_map::TextMap;

verus! {

/// Keys whose accesses come closer together than this (in milliseconds)
/// are prefetched.
pub const PREFETCH_WINDOW_MILLIS: u64 = 5000;

/// When a key was last accessed and how long before that its previous
/// access was (milliseconds).
#[derive(Debug, Clone, Copy, PartialEq, Eq)]
pub struct AccessRecord {
    pub last_access: i64,
    pub frequency: u64,
}

/// Time from `from` to `to`, zero when `to` is earlier (as
/// `Instant::duration_since` saturates).
pub open spec fn elapsed(from: i64, to: i64) -> u64 {
    if from <= to {
        (to - from) as u64
    } else {
        0
    }
}

/// The records after an access of `key` at `now`. A first access counts as
/// following itself, so its frequency is zero.
pub open spec fn accessed(m: Map<Seq<char>, AccessRecord>, key: Seq<char>, now: i64) -> Map<
    Seq<char>,
    AccessRecord,
> {
    let last = if m.dom().contains(key) {
        m[key].last_access
    } else {
        now
    };
    m.insert(key, AccessRecord { last_access: now, frequency: elapsed(last, now) })
}

/// A record is hot when its two latest accesses are within the window.
pub open spec fn is_hot(r: AccessRecord) -> bool {
    r.frequency < PREFETCH_WINDOW_MILLIS
}

/// The keys of `m` that are hot.
pub open spec fn hot_keys(m: Map<Seq<char>, AccessRecord>) -> Set<Seq<char>> {
    Set::new(|k: Seq<char>| m.dom().contains(k) && is_hot(m[k]))
}

/// The text of a list of strings.
pub open spec fn texts(v: Seq<String>) -> Seq<Seq<char>> {
    v.map_values(|s: String| s@)
}

/// Tracks accesses per key.
pub struct Prefetcher {
    access_records: TextMap<AccessRecord>,
}

impl View for Prefetcher {
    type V = Map<Seq<char>, AccessRecord>;

    closed spec fn view(&self) -> Map<Seq<char>, AccessRecord> {
        self.access_records@
    }
}

impl Prefetcher {
    /// The records are well formed.
    pub closed spec fn wf(&self) -> bool {
        self.access_records.wf()
    }

    /// A prefetcher that has seen no access.
    pub fn new() -> (p: Self)
        ensures
            p.wf(),
            p@ == Map::<Seq<char>, AccessRecord>::empty(),
    {
        Prefetcher { access_records: TextMap::new() }
    }

    /// Records an access of `key` at `now`.
    pub fn record_access_at(&mut self, key: &str, now: i64)
        requires
            old(self).wf(),
        ensures
            final(self).wf(),
            final(self)@ == accessed(old(self)@, key@, now),
    {
        let last = match self.access_records.get(key) {
            Some(r) => r.last_access,
            None => now,
        };
        let frequency: u64 = if last <= now {
            (now as i128 - last as i128) as u64
        } else {
            0
        };
        self.access_records.insert(key.to_owned(), AccessRecord { last_access: now, frequency });
    }

    /// Records an access of `key` at the wall clock's time.
    pub fn record_access(&mut self, key: &str)
        requires
            old(self).wf(),
        ensures
            final(self).wf(),
            exists|now: i64| 0 <= now < CLOCK_BOUND_MILLIS && final(self)@ == accessed(old(self)@, key@, now),
    {
        let now = now_millis();
        self.record_access_at(key, now);
    }

    /// The hot keys, each once.
    pub fn keys_to_prefetch(&self) -> (keys: Vec<String>)
        requires
            self.wf(),
        ensures
            texts(keys@).no_duplicates(),
            texts(keys@).to_set() == hot_keys(self@),
    {
        proof {
            self.access_records.lemma_key_seq();
        }
        let ghost ks = self.access_records.key_seq();
        let n = self.access_records.len();
        let mut keys: Vec<String> = Vec::new();
        let mut i: usize = 0;
        while i < n
            invariant
                self.wf(),
                ks == self.access_records.key_seq(),
                ks.no_duplicates(),
                n == ks.len(),
                i <= n,
                forall|j: int| 0 <= j < ks.len() ==> #[trigger] self@.dom().contains(ks[j]),
                texts(keys@).no_duplicates(),
                forall|k: Seq<char>|
                    #[trigger] texts(keys@).contains(k) <==> exists|j: int|
                        0 <= j < i && ks[j] == k && is_hot(self@[k]),
            decreases n - i,
        {
            let k = self.access_records.key_at(i);
            let r = self.access_records.value_at(i);
            if r.frequency < PREFETCH_WINDOW_MILLIS {
                let ghost before = keys@;
                keys.push(k.clone());
                proof {
                    assert(texts(keys@) =~= texts(before).push(ks[i as int]));
                    if texts(before).contains(ks[i as int]) {
                        let j = choose|j: int| 0 <= j < i && ks[j] == ks[i as int] && is_hot(self@[ks[i as int]]);
                        assert(false);
                    }
                    assert forall|kk: Seq<char>| #[trigger] texts(keys@).contains(kk) <==> exists|j: int|
                        0 <= j < i + 1 && ks[j] == kk && is_hot(self@[kk]) by {
                        if texts(keys@).contains(kk) && kk != ks[i as int] {
                            assert(texts(before).contains(kk)) by {
                                let m = choose|m: int| 0 <= m < texts(keys@).len() && texts(keys@)[m] == kk;
                                assert(texts(before)[m] == kk);
                            }
                        }
                        if exists|j: int| 0 <= j < i + 1 && ks[j] == kk && is_hot(self@[kk]) {
                            if kk != ks[i as int] {
                                let j = choose|j: int| 0 <= j < i + 1 && ks[j] == kk && is_hot(self@[kk]);
                                assert(texts(before).contains(kk));
                                let m = choose|m: int| 0 <= m < texts(before).len() && texts(before)[m] == kk;
                                assert(texts(keys@)[m] == kk);
                            } else {
                                assert(texts(keys@)[texts(keys@).len() - 1] == kk);
                            }
                        }
                    }
                }
            }
            i = i + 1;
        }
        proof {
            assert forall|k: Seq<char>| texts(keys@).to_set().contains(k) <==> hot_keys(self@).contains(k) by {
                if hot_keys(self@).contains(k) {
                    assert(ks.contains(k));
                    let j = choose|j: int| 0 <= j < ks.len() && ks[j] == k;
                    assert(texts(keys@).contains(k));
                }
            }
            assert(texts(keys@).to_set() =~= hot_keys(self@));
        }
        keys
    }

    /// Loads every hot key into `cache` ("Data for <key>"), and returns the
    /// keys it prefetched.
    pub fn predict_and_prefetch(&self, cache: &mut SimpleCache) -> (keys: Vec<String>)
        requires
            self.wf(),
            old(cache).wf(),
        ensures
            final(cache).wf(),
            texts(keys@).no_duplicates(),
            texts(keys@).to_set() == hot_keys(self@),
            final(cache)@.dom() == old(cache)@.dom().union(hot_keys(self@)),
            forall|k: Seq<char>|
                #[trigger] hot_keys(self@).contains(k) ==> final(cache)@[k].data@ == "Data for "@ + k,
            forall|k: Seq<char>|
                #[trigger] old(cache)@.dom().contains(k) && !hot_keys(self@).contains(k)
                    ==> final(cache)@[k] == old(cache)@[k],
    {
        let keys = self.keys_to_prefetch();
        let mut i: usize = 0;
        let ghost hot = hot_keys(self@);
        while i < keys.len()
            invariant
                cache.wf(),
                i <= keys@.len(),
                texts(keys@).no_duplicates(),
                texts(keys@).to_set() == hot,
                cache@.dom() == old(cache)@.dom().union(texts(keys@).take(i as int).to_set()),
                forall|j: int|
                    0 <= j < i ==> #[trigger] cache@[texts(keys@)[j]].data@ == "Data for "@ + texts(keys@)[j],
                forall|k: Seq<char>|
                    #[trigger] old(cache)@.dom().contains(k) && !texts(keys@).take(i as int).contains(k)
                        ==> cache@[k] == old(cache)@[k],
            decreases keys@.len() - i,
        {
            let data = load_data_for_key(keys[i].as_str());
            let ghost before = cache@;
            let ghost ki = texts(keys@)[i as int];
            cache.set(keys[i].clone(), data);
            proof {
                let t = texts(keys@);
                assert(t.take(i + 1) =~= t.take(i as int).push(ki));
                let t1 = t.take(i + 1);
                let t0 = t.take(i as int);
                assert forall|x: Seq<char>| t1.contains(x) <==> (t0.contains(x) || x == ki) by {
                    if t1.contains(x) {
                        let m = choose|m: int| 0 <= m < t1.len() && t1[m] == x;
                        if m < i {
                            assert(t0[m] == x);
                        }
                    }
                    if t0.contains(x) {
                        let m = choose|m: int| 0 <= m < t0.len() && t0[m] == x;
                        assert(t1[m] == x);
                    }
                    if x == ki {
                        assert(t1[i as int] == x);
                    }
                }
                assert(t.take(i + 1).to_set() =~= t.take(i as int).to_set().insert(ki));
                assert(cache@.dom() =~= old(cache)@.dom().union(t.take(i + 1).to_set()));
                assert forall|j: int| 0 <= j < i + 1 implies #[trigger] cache@[t[j]].data@ == "Data for "@ + t[j] by {
                    if j < i {
                        assert(t[j] != ki);
                    }
                }
                assert forall|k: Seq<char>|
                    #[trigger] old(cache)@.dom().contains(k) && !t.take(i + 1).contains(k) implies cache@[k]
                    == old(cache)@[k] by {
                    assert(k != ki) by {
                        assert(t.take(i + 1)[i as int] == ki);
                    }
                    if t.take(i as int).contains(k) {
                        let m = choose|m: int| 0 <= m < i && t.take(i as int)[m] == k;
                        assert(t.take(i + 1)[m] == k);
                    }
                }
            }
            i = i + 1;
        }
        proof {
            let t = texts(keys@);
            assert(t.take(keys@.len() as int) =~= t);
            assert forall|k: Seq<char>| #[trigger] hot_keys(self@).contains(k) implies cache@[k].data@
                == "Data for "@ + k by {
                assert(t.to_set().contains(k));
                let j = choose|j: int| 0 <= j < t.len() && t[j] == k;
            }
        }
        keys
    }
}

} // verus!

verus! {

/// An access of a key at `now` records `now` as its last access and leaves
/// every other key's record as it was.
pub proof fn law_access_records_its_time(
    m: Map<Seq<char>, AccessRecord>,
    key: Seq<char>,
    now: i64,
    other: Seq<char>,
)
    ensures
        accessed(m, key, now).dom().contains(key),
        accessed(m, key, now)[key].last_access == now,
        other != key ==> (accessed(m, key, now).dom().contains(other) == m.dom().contains(other)
            && accessed(m, key, now)[other] == m[other]),
{
}

/// The frequency an access records is the time since the key's previous
/// access (zero for a first access, or when the clock went backwards).
pub proof fn law_access_frequency(m: Map<Seq<char>, AccessRecord>, key: Seq<char>, now: i64)
    ensures
        !m.dom().contains(key) ==> accessed(m, key, now)[key].frequency == 0,
        m.dom().contains(key) && m[key].last_access <= now ==> accessed(m, key, now)[key].frequency
            == now - m[key].last_access,
        m.dom().contains(key) && m[key].last_access > now ==> accessed(m, key, now)[key].frequency
            == 0,
{
}

/// Two accesses of a key in a row: the second records the time between
/// them, and the key is hot exactly when they are less than five seconds
/// apart.
pub proof fn law_consecutive_accesses(m: Map<Seq<char>, AccessRecord>, key: Seq<char>, t1: i64, t2: i64)
    requires
        t1 <= t2,
    ensures
        accessed(accessed(m, key, t1), key, t2)[key].frequency == t2 - t1,
        hot_keys(accessed(accessed(m, key, t1), key, t2)).contains(key) <==> t2 - t1 < 5000,
{
}

} // verus!
