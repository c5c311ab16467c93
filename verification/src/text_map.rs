//! A map from strings to values, kept as a list of distinct keys beside
//! their values.
use vstd::prelude::*;
use crate::assoc::{
    keys_unique, lemma_to_map_dom, lemma_to_map_index, lemma_to_map_len, lemma_to_map_push,
    lemma_to_map_update, to_map,
};

verus! {

/// A map from strings to values.
pub struct TextMap<V> {
    keys: Vec<String>,
    values: Vec<V>,
}

impl<V> View for TextMap<V> {
    type V = Map<Seq<char>, V>;

    closed spec fn view(&self) -> Map<Seq<char>, V> {
        to_map(self.pairs())
    }
}

impl<V> TextMap<V> {
    closed spec fn pairs(&self) -> Seq<(Seq<char>, V)> {
        Seq::new(self.keys@.len(), |i: int| (self.keys@[i]@, self.values@[i]))
    }

    /// Keys and values pair up, and no key occurs twice.
    pub closed spec fn wf(&self) -> bool {
        &&& self.keys@.len() == self.values@.len()
        &&& keys_unique(self.pairs())
    }

    /// The keys in storage order.
    pub closed spec fn key_seq(&self) -> Seq<Seq<char>> {
        Seq::new(self.keys@.len(), |i: int| self.keys@[i]@)
    }

    /// The key sequence lists each key of the map exactly once.
    pub proof fn lemma_key_seq(&self)
        requires
            self.wf(),
        ensures
            self.key_seq().len() == self@.dom().len(),
            self.key_seq().no_duplicates(),
            self@.dom().finite(),
            forall|k: Seq<char>| #[trigger] self@.dom().contains(k) <==> self.key_seq().contains(k),
            forall|i: int|
                0 <= i < self.key_seq().len() ==> #[trigger] self@.dom().contains(self.key_seq()[i]),
    {
        let p = self.pairs();
        lemma_to_map_dom(p);
        lemma_to_map_len(p);
        assert forall|k: Seq<char>| #[trigger] self@.dom().contains(k) <==> self.key_seq().contains(
            k,
        ) by {
            if self@.dom().contains(k) {
                let i = choose|i: int| 0 <= i < p.len() && p[i].0 == k;
                assert(self.key_seq()[i] == k);
            }
            if self.key_seq().contains(k) {
                let i = choose|i: int| 0 <= i < self.key_seq().len() && self.key_seq()[i] == k;
                assert(p[i].0 == k);
            }
        }
        assert forall|i: int, j: int|
            0 <= i < self.key_seq().len() && 0 <= j < self.key_seq().len() && i != j implies self.key_seq()[i]
            != self.key_seq()[j] by {
            assert(p[i].0 == self.key_seq()[i] && p[j].0 == self.key_seq()[j]);
        }
        assert forall|i: int| 0 <= i < self.key_seq().len() implies #[trigger] self@.dom().contains(
            self.key_seq()[i],
        ) by {
            assert(self.key_seq().contains(self.key_seq()[i]));
        }
    }

    /// An empty map.
    pub fn new() -> (m: Self)
        ensures
            m.wf(),
            m@ == Map::<Seq<char>, V>::empty(),
    {
        let m = TextMap { keys: Vec::new(), values: Vec::new() };
        assert(m.pairs() =~= Seq::<(Seq<char>, V)>::empty());
        m
    }

    /// The number of keys.
    pub fn len(&self) -> (n: usize)
        requires
            self.wf(),
        ensures
            n == self@.dom().len(),
            n == self.key_seq().len(),
    {
        proof {
            self.lemma_key_seq();
        }
        self.keys.len()
    }

    /// The position of `key`, if present.
    fn find(&self, key: &String) -> (r: Option<usize>)
        requires
            self.wf(),
        ensures
            match r {
                Some(i) => i < self.keys@.len() && self.keys@[i as int]@ == key@,
                None => !self@.dom().contains(key@),
            },
    {
        let mut i: usize = 0;
        while i < self.keys.len()
            invariant
                self.wf(),
                i <= self.keys@.len(),
                forall|j: int| 0 <= j < i ==> self.keys@[j]@ != key@,
            decreases self.keys@.len() - i,
        {
            if self.keys[i] == *key {
                return Some(i);
            }
            i = i + 1;
        }
        proof {
            lemma_to_map_dom(self.pairs());
            if self@.dom().contains(key@) {
                let j = choose|j: int| 0 <= j < self.pairs().len() && self.pairs()[j].0 == key@;
                assert(self.keys@[j]@ == key@);
            }
        }
        None
    }

    /// The value held under `key`, if any.
    pub fn get(&self, key: &str) -> (r: Option<&V>)
        requires
            self.wf(),
        ensures
            match r {
                Some(v) => self@.dom().contains(key@) && *v == self@[key@],
                None => !self@.dom().contains(key@),
            },
    {
        let k = key.to_owned();
        match self.find(&k) {
            Some(i) => {
                proof {
                    lemma_to_map_index(self.pairs(), i as int);
                }
                Some(&self.values[i])
            },
            None => None,
        }
    }

    /// Places `value` under `key`, replacing what was there.
    pub fn insert(&mut self, key: String, value: V)
        requires
            old(self).wf(),
        ensures
            final(self).wf(),
            final(self)@ == old(self)@.insert(key@, value),
    {
        let ghost p = self.pairs();
        let ghost kv = key@;
        match self.find(&key) {
            Some(i) => {
                let ghost old_vals = self.values@;
                self.values.set(i, value);
                proof {
                    assert(self.pairs() =~= p.update(i as int, (p[i as int].0, self.values@[i as int])));
                    lemma_to_map_update(p, i as int, self.values@[i as int]);
                }
            },
            None => {
                self.keys.push(key);
                self.values.push(value);
                proof {
                    let v = self.values@[self.values@.len() - 1];
                    assert(self.pairs() =~= p.push((kv, v)));
                    lemma_to_map_push(p, kv, v);
                }
            },
        }
    }

    /// The key at position `i`.
    pub fn key_at(&self, i: usize) -> (k: &String)
        requires
            self.wf(),
            i < self.key_seq().len(),
        ensures
            k@ == self.key_seq()[i as int],
    {
        &self.keys[i]
    }

    /// The value at position `i`: the one held under the key at `i`.
    pub fn value_at(&self, i: usize) -> (v: &V)
        requires
            self.wf(),
            i < self.key_seq().len(),
        ensures
            *v == self@[self.key_seq()[i as int]],
    {
        proof {
            lemma_to_map_index(self.pairs(), i as int);
        }
        &self.values[i]
    }
}

} // verus!
