//! Prefetching values out of the disk cache into a side list, so that later
//! lookups of those keys need not touch the cache.
use vstd::prelude::*;
use crate::cache::{expected_get, touched, DiskCache, EntryView};
use crate::clock::{now_millis, CLOCK_BOUND_MILLIS};
use crate::errors::CacheError;
use crate::text_map::TextMap;

verus! {

/// The disk cache's map and the prefetch list after reading `keys` in
/// order at `now`: each read counts an access, and each value it yields is
/// put on the list.
pub open spec fn prefetched(
    storage: Map<Seq<char>, EntryView>,
    list: Map<Seq<char>, Seq<char>>,
    cipher: Option<Seq<u8>>,
    keys: Seq<Seq<char>>,
    now: i64,
) -> (Map<Seq<char>, EntryView>, Map<Seq<char>, Seq<char>>)
    decreases keys.len(),
{
    if keys.len() == 0 {
        (storage, list)
    } else {
        let (s, l) = prefetched(storage, list, cipher, keys.drop_last(), now);
        let k = keys.last();
        let l2 = match expected_get(s, cipher, k, now) {
            Ok(Some(v)) => l.insert(k, v),
            _ => l,
        };
        (touched(s, k), l2)
    }
}

/// Reading keys never changes which keys the cache holds, and adds at most
/// one access per read.
pub proof fn lemma_prefetched_counts(
    storage: Map<Seq<char>, EntryView>,
    list: Map<Seq<char>, Seq<char>>,
    cipher: Option<Seq<u8>>,
    keys: Seq<Seq<char>>,
    now: i64,
)
    ensures
        prefetched(storage, list, cipher, keys, now).0.dom() == storage.dom(),
        forall|k: Seq<char>| #[trigger]
            storage.dom().contains(k) ==> prefetched(storage, list, cipher, keys, now).0[k].access_count
                <= storage[k].access_count + keys.len(),
    decreases keys.len(),
{
    if keys.len() > 0 {
        lemma_prefetched_counts(storage, list, cipher, keys.drop_last(), now);
        let s = prefetched(storage, list, cipher, keys.drop_last(), now).0;
        let k = keys.last();
        if s.dom().contains(k) {
            assert(touched(s, k).dom() =~= s.dom());
        }
    }
}

/// Keeps the values prefetched per key.
pub struct PerformanceOptimizer {
    prefetch_list: TextMap<String>,
}

impl View for PerformanceOptimizer {
    type V = Map<Seq<char>, Seq<char>>;

    closed spec fn view(&self) -> Map<Seq<char>, Seq<char>> {
        self.prefetch_list@.map_values(|s: String| s@)
    }
}

/// The text of a list of strings.
pub open spec fn key_texts(v: Seq<String>) -> Seq<Seq<char>> {
    v.map_values(|s: String| s@)
}

impl PerformanceOptimizer {
    /// The list is well formed.
    pub closed spec fn wf(&self) -> bool {
        self.prefetch_list.wf()
    }

    /// An optimizer with nothing prefetched.
    pub fn new() -> (o: Self)
        ensures
            o.wf(),
            o@ == Map::<Seq<char>, Seq<char>>::empty(),
    {
        let o = PerformanceOptimizer { prefetch_list: TextMap::new() };
        assert(o@ =~= Map::<Seq<char>, Seq<char>>::empty());
        o
    }

    /// Reads each of `keys` from `storage` at `now`, in order, and keeps
    /// every value found.
    pub fn prefetch_data_at(&mut self, storage: &mut DiskCache, keys: &Vec<String>, now: i64)
        requires
            old(self).wf(),
            old(storage).wf(),
            forall|k: Seq<char>| #[trigger]
                old(storage)@.dom().contains(k) ==> old(storage)@[k].access_count + keys@.len()
                    < usize::MAX,
        ensures
            final(self).wf(),
            final(storage).wf(),
            final(storage).capacity() == old(storage).capacity(),
            final(storage).cipher_key() == old(storage).cipher_key(),
            (final(storage)@, final(self)@) == prefetched(
                old(storage)@,
                old(self)@,
                old(storage).cipher_key(),
                key_texts(keys@),
                now,
            ),
    {
        let ghost ks = key_texts(keys@);
        let ghost cipher = storage.cipher_key();
        let mut i: usize = 0;
        proof {
            assert(ks.take(0) =~= Seq::<Seq<char>>::empty());
        }
        while i < keys.len()
            invariant
                self.wf(),
                storage.wf(),
                storage.capacity() == old(storage).capacity(),
                cipher == old(storage).cipher_key(),
                storage.cipher_key() == cipher,
                ks == key_texts(keys@),
                i <= keys@.len(),
                forall|k: Seq<char>| #[trigger]
                    old(storage)@.dom().contains(k) ==> old(storage)@[k].access_count + keys@.len()
                        < usize::MAX,
                (storage@, self@) == prefetched(old(storage)@, old(self)@, cipher, ks.take(i as int), now),
            decreases keys@.len() - i,
        {
            proof {
                lemma_prefetched_counts(old(storage)@, old(self)@, cipher, ks.take(i as int), now);
                assert(ks.take(i + 1).drop_last() =~= ks.take(i as int));
                assert(ks.take(i + 1).last() == keys@[i as int]@);
            }
            let r = storage.get_at(keys[i].as_str(), now);
            let ghost list_before = self@;
            match r {
                Ok(Some(v)) => {
                    self.prefetch_list.insert(keys[i].clone(), v);
                    proof {
                        assert(self@ =~= list_before.insert(keys@[i as int]@, v@));
                    }
                },
                _ => {},
            }
            i = i + 1;
        }
        proof {
            assert(ks.take(keys@.len() as int) =~= ks);
        }
    }

    /// `prefetch_data_at` at the wall clock's time.
    pub fn prefetch_data(&mut self, storage: &mut DiskCache, keys: &Vec<String>)
        requires
            old(self).wf(),
            old(storage).wf(),
            forall|k: Seq<char>| #[trigger]
                old(storage)@.dom().contains(k) ==> old(storage)@[k].access_count + keys@.len()
                    < usize::MAX,
        ensures
            final(self).wf(),
            final(storage).wf(),
            final(storage).capacity() == old(storage).capacity(),
            final(storage).cipher_key() == old(storage).cipher_key(),
            exists|now: i64|
                0 <= now < CLOCK_BOUND_MILLIS && (final(storage)@, final(self)@) == #[trigger] prefetched(
                    old(storage)@,
                    old(self)@,
                    old(storage).cipher_key(),
                    key_texts(keys@),
                    now,
                ),
    {
        let now = now_millis();
        self.prefetch_data_at(storage, keys, now);
    }

    /// The value prefetched for `key`, if any.
    pub fn get_prefetched_data(&self, key: &str) -> (r: Option<String>)
        requires
            self.wf(),
        ensures
            match r {
                Some(v) => self@.dom().contains(key@) && v@ == self@[key@],
                None => !self@.dom().contains(key@),
            },
    {
        match self.prefetch_list.get(key) {
            Some(v) => Some(v.clone()),
            None => None,
        }
    }
}

} // verus!

verus! {

/// How many times `k` occurs in `keys`.
pub open spec fn occurrences(keys: Seq<Seq<char>>, k: Seq<char>) -> nat
    decreases keys.len(),
{
    if keys.len() == 0 {
        0
    } else {
        occurrences(keys.drop_last(), k) + if keys.last() == k {
            1nat
        } else {
            0nat
        }
    }
}

/// Prefetching reads every listed key once per occurrence: each entry's
/// access count grows by the number of times its key is listed, and
/// nothing else about the cache changes.
pub proof fn law_prefetch_reads_each_occurrence(
    storage: Map<Seq<char>, EntryView>,
    list: Map<Seq<char>, Seq<char>>,
    cipher: Option<Seq<u8>>,
    keys: Seq<Seq<char>>,
    now: i64,
    k: Seq<char>,
)
    requires
        storage.dom().contains(k),
    ensures
        prefetched(storage, list, cipher, keys, now).0.dom() == storage.dom(),
        prefetched(storage, list, cipher, keys, now).0[k].access_count == storage[k].access_count
            + occurrences(keys, k),
        prefetched(storage, list, cipher, keys, now).0[k].value == storage[k].value,
        prefetched(storage, list, cipher, keys, now).0[k].expiry == storage[k].expiry,
    decreases keys.len(),
{
    lemma_prefetched_counts(storage, list, cipher, keys, now);
    if keys.len() > 0 {
        law_prefetch_reads_each_occurrence(storage, list, cipher, keys.drop_last(), now, k);
    }
}

/// Prefetching one more key after others: the key is read from the cache
/// as the earlier reads left it, and whatever value that read finds is
/// what the list then holds for it, whatever the list held before; a read
/// that finds nothing leaves the list as it was.
pub proof fn law_prefetch_keeps_found_value(
    storage: Map<Seq<char>, EntryView>,
    list: Map<Seq<char>, Seq<char>>,
    cipher: Option<Seq<u8>>,
    keys: Seq<Seq<char>>,
    k: Seq<char>,
    now: i64,
)
    ensures
        ({
            let (s, l) = prefetched(storage, list, cipher, keys, now);
            let (s2, l2) = prefetched(storage, list, cipher, keys.push(k), now);
            &&& s2 == touched(s, k)
            &&& (expected_get(s, cipher, k, now) matches Ok(Some(v)) ==> l2.dom().contains(k)
                && l2[k] == v)
            &&& (!(expected_get(s, cipher, k, now) is Ok && expected_get(s, cipher, k, now)->Ok_0
                is Some) ==> l2 == l)
            &&& forall|j: Seq<char>| #[trigger] l.dom().contains(j) && j != k ==> l2.dom().contains(j)
                && l2[j] == l[j]
        }),
{
    assert(keys.push(k).drop_last() =~= keys);
}

/// A single prefetch of a key whose read finds `v` puts exactly `v` on the
/// list, whatever the list held for that key before.
pub proof fn law_prefetch_single_key(
    storage: Map<Seq<char>, EntryView>,
    list: Map<Seq<char>, Seq<char>>,
    cipher: Option<Seq<u8>>,
    k: Seq<char>,
    now: i64,
    v: Seq<char>,
)
    requires
        expected_get(storage, cipher, k, now) == Ok::<Option<Seq<char>>, CacheError>(Some(v)),
    ensures
        prefetched(storage, list, cipher, seq![k], now).1 == list.insert(k, v),
        prefetched(storage, list, cipher, seq![k], now).0 == touched(storage, k),
{
    let ks = seq![k];
    assert(ks.drop_last() =~= Seq::<Seq<char>>::empty());
    assert(ks.last() == k);
    assert(prefetched(storage, list, cipher, Seq::<Seq<char>>::empty(), now) == (storage, list));
    assert(prefetched(storage, list, cipher, ks.drop_last(), now) == (storage, list));
}

} // verus!
