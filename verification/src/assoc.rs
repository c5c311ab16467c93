//! Association lists: a sequence of key/value pairs read as a map in which a
//! later pair overrides an earlier one with the same key.
use vstd::prelude::*;

verus! {

/// No key occurs twice in `s`.
pub open spec fn keys_unique<K, V>(s: Seq<(K, V)>) -> bool {
    forall|i: int, j: int| 0 <= i < s.len() && 0 <= j < s.len() && i != j ==> s[i].0 != s[j].0
}

/// The map that inserting the pairs of `s` in order builds.
pub open spec fn to_map<K, V>(s: Seq<(K, V)>) -> Map<K, V>
    decreases s.len(),
{
    if s.len() == 0 {
        Map::empty()
    } else {
        to_map(s.drop_last()).insert(s.last().0, s.last().1)
    }
}

/// A key is in the map exactly when some pair carries it; the map is finite.
pub proof fn lemma_to_map_dom<K, V>(s: Seq<(K, V)>)
    ensures
        to_map(s).dom().finite(),
        forall|k: K| #[trigger]
            to_map(s).dom().contains(k) <==> exists|i: int| 0 <= i < s.len() && s[i].0 == k,
    decreases s.len(),
{
    if s.len() > 0 {
        let t = s.drop_last();
        lemma_to_map_dom(t);
        assert forall|k: K| #[trigger]
            to_map(s).dom().contains(k) <==> exists|i: int| 0 <= i < s.len() && s[i].0 == k by {
            if to_map(s).dom().contains(k) {
                if k == s.last().0 {
                    assert(s[s.len() - 1].0 == k);
                } else {
                    let i = choose|i: int| 0 <= i < t.len() && t[i].0 == k;
                    assert(s[i].0 == k);
                }
            }
            if exists|i: int| 0 <= i < s.len() && s[i].0 == k {
                let i = choose|i: int| 0 <= i < s.len() && s[i].0 == k;
                if i < s.len() - 1 {
                    assert(t[i].0 == k);
                }
            }
        }
    }
}

/// Removing the last pair keeps the keys unique.
pub proof fn lemma_unique_drop_last<K, V>(s: Seq<(K, V)>)
    requires
        keys_unique(s),
        s.len() > 0,
    ensures
        keys_unique(s.drop_last()),
{
    let t = s.drop_last();
    assert forall|i: int, j: int| 0 <= i < t.len() && 0 <= j < t.len() && i != j implies t[i].0
        != t[j].0 by {
        assert(t[i] == s[i]);
        assert(t[j] == s[j]);
    }
}

/// With unique keys, each pair is what the map holds for its key.
pub proof fn lemma_to_map_index<K, V>(s: Seq<(K, V)>, i: int)
    requires
        keys_unique(s),
        0 <= i < s.len(),
    ensures
        to_map(s).dom().contains(s[i].0),
        to_map(s)[s[i].0] == s[i].1,
    decreases s.len(),
{
    if i < s.len() - 1 {
        let t = s.drop_last();
        lemma_unique_drop_last(s);
        lemma_to_map_index(t, i);
        assert(t[i] == s[i]);
        assert(s[i].0 != s[s.len() - 1].0);
    }
}

/// With unique keys, the map has as many keys as the list has pairs.
pub proof fn lemma_to_map_len<K, V>(s: Seq<(K, V)>)
    requires
        keys_unique(s),
    ensures
        to_map(s).dom().len() == s.len(),
    decreases s.len(),
{
    lemma_to_map_dom(s);
    if s.len() > 0 {
        let t = s.drop_last();
        lemma_unique_drop_last(s);
        lemma_to_map_len(t);
        lemma_to_map_dom(t);
        let k = s.last().0;
        if to_map(t).dom().contains(k) {
            let i = choose|i: int| 0 <= i < t.len() && t[i].0 == k;
            assert(s[i].0 == s[s.len() - 1].0);
        }
    }
}

/// Appending a pair whose key is new keeps the keys unique and inserts it.
pub proof fn lemma_to_map_push<K, V>(s: Seq<(K, V)>, k: K, v: V)
    requires
        keys_unique(s),
        !to_map(s).dom().contains(k),
    ensures
        keys_unique(s.push((k, v))),
        to_map(s.push((k, v))) == to_map(s).insert(k, v),
{
    let u = s.push((k, v));
    lemma_to_map_dom(s);
    assert(u.drop_last() =~= s);
    assert forall|i: int, j: int| 0 <= i < u.len() && 0 <= j < u.len() && i != j implies u[i].0
        != u[j].0 by {
        if i == s.len() {
            assert(s[j].0 == u[j].0);
        } else if j == s.len() {
            assert(s[i].0 == u[i].0);
        } else {
            assert(s[i] == u[i] && s[j] == u[j]);
        }
    }
}

/// Removing the pair at `i` keeps the keys unique and removes its key.
pub proof fn lemma_to_map_remove<K, V>(s: Seq<(K, V)>, i: int)
    requires
        keys_unique(s),
        0 <= i < s.len(),
    ensures
        keys_unique(s.remove(i)),
        to_map(s.remove(i)) == to_map(s).remove(s[i].0),
    decreases s.len(),
{
    let r = s.remove(i);
    assert forall|a: int, b: int| 0 <= a < r.len() && 0 <= b < r.len() && a != b implies r[a].0
        != r[b].0 by {
        let a2 = if a < i { a } else { a + 1 };
        let b2 = if b < i { b } else { b + 1 };
        assert(r[a] == s[a2] && r[b] == s[b2]);
    }
    let t = s.drop_last();
    lemma_unique_drop_last(s);
    lemma_to_map_dom(t);
    let last = s.last();
    if !to_map(t).dom().contains(last.0) {
    } else {
        let j = choose|j: int| 0 <= j < t.len() && t[j].0 == last.0;
        assert(s[j].0 == s[s.len() - 1].0);
    }
    if i == s.len() - 1 {
        assert(r =~= t);
        assert(to_map(s).remove(s[i].0) =~= to_map(t));
    } else {
        lemma_to_map_remove(t, i);
        assert(r =~= t.remove(i).push(last));
        assert(r.drop_last() =~= t.remove(i));
        assert(t[i] == s[i]);
        assert(s[i].0 != last.0);
        assert(to_map(r) =~= to_map(s).remove(s[i].0));
    }
}

/// Replacing the value of the pair at `i` keeps the keys unique and
/// overwrites the map at its key.
pub proof fn lemma_to_map_update<K, V>(s: Seq<(K, V)>, i: int, v: V)
    requires
        keys_unique(s),
        0 <= i < s.len(),
    ensures
        keys_unique(s.update(i, (s[i].0, v))),
        to_map(s.update(i, (s[i].0, v))) == to_map(s).insert(s[i].0, v),
    decreases s.len(),
{
    let u = s.update(i, (s[i].0, v));
    assert forall|a: int, b: int| 0 <= a < u.len() && 0 <= b < u.len() && a != b implies u[a].0
        != u[b].0 by {
        assert(u[a].0 == s[a].0 && u[b].0 == s[b].0);
    }
    let t = s.drop_last();
    let last = s.last();
    if i == s.len() - 1 {
        assert(u.drop_last() =~= t);
        assert(to_map(u) =~= to_map(s).insert(s[i].0, v));
    } else {
        lemma_unique_drop_last(s);
        lemma_to_map_update(t, i, v);
        assert(t[i] == s[i]);
        assert(u.drop_last() =~= t.update(i, (s[i].0, v)));
        assert(u.last() == last);
        assert(s[i].0 != last.0);
        assert(to_map(u) =~= to_map(s).insert(s[i].0, v));
    }
}

} // verus!
