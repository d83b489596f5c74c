//! A map kept in two parallel vectors, one key to a slot.

use crate::collections::vec_set::lemma_remove_keeps_distinct;
use crate::types::Key;
use vstd::prelude::*;

verus! {

/// A finite map. Its model is the mathematical map from each key it holds to that key's
/// value.
pub struct VecMap<K: Key, V> {
    keys: Vec<K>,
    vals: Vec<V>,
}

impl<K: Key, V> View for VecMap<K, V> {
    type V = Map<K, V>;

    closed spec fn view(&self) -> Map<K, V> {
        Map::new(|k: K| self.keys@.contains(k), |k: K| self.vals@[self.keys@.index_of(k)])
    }
}

/// The keys of a list of entries, in the order of the entries.
pub open spec fn keys_of<K, V>(entries: Seq<(K, V)>) -> Seq<K> {
    entries.map_values(|e: (K, V)| e.0)
}

/// The map that a list of entries with distinct keys spells out.
pub open spec fn map_of<K, V>(entries: Seq<(K, V)>) -> Map<K, V> {
    Map::new(
        |k: K| keys_of(entries).contains(k),
        |k: K| entries[keys_of(entries).index_of(k)].1,
    )
}

/// The entry at each position of a list with distinct keys is what the map of the list
/// holds for its key.
pub proof fn lemma_map_of_entry<K, V>(entries: Seq<(K, V)>, i: int)
    requires
        keys_of(entries).no_duplicates(),
        0 <= i < entries.len(),
    ensures
        map_of(entries).contains_key(entries[i].0),
        map_of(entries)[entries[i].0] == entries[i].1,
{
    lemma_index_of_distinct(keys_of(entries), i);
}

/// The map of a list of entries has the keys of the list and no others, finitely many.
pub proof fn lemma_map_of_dom<K, V>(entries: Seq<(K, V)>)
    requires
        keys_of(entries).no_duplicates(),
    ensures
        map_of(entries).dom().finite(),
        map_of(entries).dom().len() == entries.len(),
        forall|k: K| map_of(entries).contains_key(k) <==> keys_of(entries).contains(k),
{
    broadcast use vstd::seq_lib::seq_to_set_is_finite;

    keys_of(entries).unique_seq_to_set();
    assert(map_of(entries).dom() =~= keys_of(entries).to_set());
}

proof fn lemma_index_of_distinct<K>(s: Seq<K>, i: int)
    requires
        s.no_duplicates(),
        0 <= i < s.len(),
    ensures
        s.index_of(s[i]) == i,
        s.contains(s[i]),
{
    assert(s.contains(s[i]));
    let j = s.index_of(s[i]);
    assert(0 <= j < s.len() && s[j] == s[i]);
}

impl<K: Key, V> VecMap<K, V> {
    /// Every key has one slot and no key is held twice.
    pub closed spec fn wf(&self) -> bool {
        &&& self.keys@.len() == self.vals@.len()
        &&& self.keys@.no_duplicates()
    }

    /// The keys in the order in which `key_at` hands them out.
    pub closed spec fn order(&self) -> Seq<K> {
        self.keys@
    }

    /// The order lists every key of the map exactly once.
    pub proof fn lemma_order(&self)
        requires
            self.wf(),
        ensures
            self.order().no_duplicates(),
            self@.dom().finite(),
            self@.dom().len() == self.order().len(),
            self@.dom() == self.order().to_set(),
            forall|k: K| self@.contains_key(k) <==> self.order().contains(k),
    {
        broadcast use vstd::seq_lib::seq_to_set_is_finite;

        self.keys@.unique_seq_to_set();
        assert(self@.dom() =~= self.keys@.to_set());
    }

    /// The empty map.
    pub fn new() -> (m: Self)
        ensures
            m.wf(),
            m@ == Map::<K, V>::empty(),
            m.order() == Seq::<K>::empty(),
    {
        let m = VecMap { keys: Vec::new(), vals: Vec::new() };
        assert(m@ =~= Map::<K, V>::empty());
        m
    }

    fn find(&self, key: &K) -> (r: Option<usize>)
        requires
            self.wf(),
        ensures
            match r {
                Some(i) => i < self.keys@.len() && self.keys@[i as int] == *key
                    && self.keys@.index_of(*key) == i,
                None => !self.keys@.contains(*key),
            },
    {
        let mut i: usize = 0;
        while i < self.keys.len()
            invariant
                self.wf(),
                i <= self.keys@.len(),
                forall|j: int| 0 <= j < i ==> self.keys@[j] != *key,
            decreases self.keys@.len() - i,
        {
            if self.keys[i].same(key) {
                proof {
                    lemma_index_of_distinct(self.keys@, i as int);
                }
                return Some(i);
            }
            i += 1;
        }
        None
    }

    /// The number of keys.
    pub fn len(&self) -> (n: usize)
        requires
            self.wf(),
        ensures
            n == self@.dom().len(),
            n == self.order().len(),
    {
        proof {
            self.lemma_order();
        }
        self.keys.len()
    }

    /// Whether `key` has a value.
    pub fn contains_key(&self, key: &K) -> (r: bool)
        requires
            self.wf(),
        ensures
            r == self@.contains_key(*key),
    {
        self.find(key).is_some()
    }

    /// The value of `key`, if it has one.
    pub fn get(&self, key: &K) -> (r: Option<&V>)
        requires
            self.wf(),
        ensures
            match r {
                Some(v) => self@.contains_key(*key) && *v == self@[*key],
                None => !self@.contains_key(*key),
            },
    {
        match self.find(key) {
            Some(i) => Some(&self.vals[i]),
            None => None,
        }
    }

    /// The key at position `i` of the order.
    pub fn key_at(&self, i: usize) -> (k: K)
        requires
            self.wf(),
            i < self.order().len(),
        ensures
            k == self.order()[i as int],
            self@.contains_key(k),
    {
        assert(self.keys@.contains(self.keys@[i as int]));
        self.keys[i]
    }

    /// The value of the key at position `i` of the order.
    pub fn value_at(&self, i: usize) -> (v: &V)
        requires
            self.wf(),
            i < self.order().len(),
        ensures
            self@.contains_key(self.order()[i as int]),
            *v == self@[self.order()[i as int]],
    {
        proof {
            lemma_index_of_distinct(self.keys@, i as int);
        }
        &self.vals[i]
    }

    /// Gives `key` the value `value`; returns the value it had before, if any.
    pub fn insert(&mut self, key: K, value: V) -> (previous: Option<V>)
        requires
            old(self).wf(),
        ensures
            final(self).wf(),
            final(self)@ == old(self)@.insert(key, value),
            previous == if old(self)@.contains_key(key) {
                Some(old(self)@[key])
            } else {
                None::<V>
            },
    {
        let ghost keys_before = self.keys@;
        let ghost vals_before = self.vals@;
        match self.find(&key) {
            Some(i) => {
                self.vals.push(value);
                let previous = self.vals.swap_remove(i);
                proof {
                    assert(self.vals@ =~= vals_before.update(i as int, value));
                    assert forall|k: K| self.keys@.contains(k) implies #[trigger] self@[k] == old(
                        self,
                    )@.insert(key, value)[k] by {
                        let j = self.keys@.index_of(k);
                        lemma_index_of_distinct(self.keys@, j);
                    }
                    assert(self@ =~= old(self)@.insert(key, value));
                }
                Some(previous)
            },
            None => {
                self.keys.push(key);
                self.vals.push(value);
                proof {
                    let n = keys_before.len() as int;
                    assert forall|a: int, b: int|
                        0 <= a < self.keys@.len() && 0 <= b < self.keys@.len() && a != b implies self.keys@[a]
                        != self.keys@[b] by {
                        if a < n {
                            assert(keys_before.contains(keys_before[a]));
                        }
                        if b < n {
                            assert(keys_before.contains(keys_before[b]));
                        }
                    }
                    assert forall|k: K| self.keys@.contains(k) <==> (keys_before.contains(k) || k
                        == key) by {
                        if self.keys@.contains(k) {
                            let j = self.keys@.index_of(k);
                            if j < n {
                                assert(keys_before[j] == k);
                            }
                        }
                        if keys_before.contains(k) {
                            let j = keys_before.index_of(k);
                            assert(self.keys@[j] == k);
                        }
                        if k == key {
                            assert(self.keys@[n] == k);
                        }
                    }
                    assert forall|k: K| self.keys@.contains(k) implies #[trigger] self@[k] == old(
                        self,
                    )@.insert(key, value)[k] by {
                        let j = self.keys@.index_of(k);
                        lemma_index_of_distinct(self.keys@, j);
                        if j < n {
                            lemma_index_of_distinct(keys_before, j);
                        }
                    }
                    assert(self@ =~= old(self)@.insert(key, value));
                }
                None
            },
        }
    }

    /// The entries of the map, each key once.
    pub fn into_entries(self) -> (entries: Vec<(K, V)>)
        requires
            self.wf(),
        ensures
            keys_of(entries@).no_duplicates(),
            map_of(entries@) == self@,
    {
        let ghost keys0 = self.keys@;
        let ghost vals0 = self.vals@;
        let ghost n = keys0.len() as int;
        let VecMap { keys, vals } = self;
        let mut keys = keys;
        let mut vals = vals;
        let mut entries: Vec<(K, V)> = Vec::new();
        while keys.len() > 0
            invariant
                keys@.len() == vals@.len(),
                keys@.len() + entries@.len() == n,
                n == keys0.len() == vals0.len(),
                keys@ == keys0.subrange(0, keys@.len() as int),
                vals@ == vals0.subrange(0, vals@.len() as int),
                forall|j: int|
                    0 <= j < entries@.len() ==> #[trigger] entries@[j] == (
                        keys0[n - 1 - j],
                        vals0[n - 1 - j],
                    ),
            decreases keys@.len(),
        {
            let k = keys.pop().unwrap();
            let v = vals.pop().unwrap();
            entries.push((k, v));
        }
        proof {
            let ks = keys_of(entries@);
            assert forall|a: int, b: int| 0 <= a < ks.len() && 0 <= b < ks.len() && a != b implies ks[a]
                != ks[b] by {
                assert(ks[a] == entries@[a].0 && ks[b] == entries@[b].0);
            }
            assert forall|k: K| ks.contains(k) <==> keys0.contains(k) by {
                if ks.contains(k) {
                    let j = ks.index_of(k);
                    assert(entries@[j].0 == k);
                    assert(keys0[n - 1 - j] == k);
                }
                if keys0.contains(k) {
                    let i = keys0.index_of(k);
                    assert(ks[n - 1 - i] == entries@[n - 1 - i].0);
                }
            }
            assert forall|k: K| ks.contains(k) implies #[trigger] map_of(entries@)[k] == vals0[keys0.index_of(
                k,
            )] by {
                let j = ks.index_of(k);
                assert(ks[j] == entries@[j].0);
                lemma_index_of_distinct(keys0, n - 1 - j);
            }
            assert(map_of(entries@) =~= Map::new(
                |k: K| keys0.contains(k),
                |k: K| vals0[keys0.index_of(k)],
            ));
        }
        entries
    }

    /// The map that `entries` spells out, or `None` when two entries have the same key.
    pub fn from_entries(entries: Vec<(K, V)>) -> (r: Option<VecMap<K, V>>)
        ensures
            match r {
                Some(m) => m.wf() && keys_of(entries@).no_duplicates() && m@ == map_of(entries@),
                None => !keys_of(entries@).no_duplicates(),
            },
    {
        let ghost all = entries@;
        let ghost n = all.len() as int;
        let mut rest = entries;
        let mut m: VecMap<K, V> = VecMap::new();
        proof {
            assert(map_of(all.subrange(n, n)) =~= Map::<K, V>::empty());
        }
        while rest.len() > 0
            invariant
                all == entries@,
                n == all.len(),
                rest@.len() <= n,
                rest@ == all.subrange(0, rest@.len() as int),
                m.wf(),
                keys_of(all.subrange(rest@.len() as int, n)).no_duplicates(),
                m@ == map_of(all.subrange(rest@.len() as int, n)),
            decreases rest@.len(),
        {
            let ghost i = rest@.len() - 1;
            let ghost tail = all.subrange(i + 1, n);
            let ghost more = all.subrange(i, n);
            let entry = rest.pop().unwrap();
            let key = entry.0;
            proof {
                assert(entry == all[i]);
                assert(more =~= seq![all[i]] + tail);
                lemma_map_of_dom(tail);
            }
            if m.contains_key(&key) {
                proof {
                    assert(keys_of(tail).contains(key));
                    let j = keys_of(tail).index_of(key);
                    assert(keys_of(tail)[j] == key);
                    assert(keys_of(all)[i] == key);
                    assert(keys_of(all)[i + 1 + j] == tail[j].0);
                    assert(keys_of(all)[i] == keys_of(all)[i + 1 + j]);
                }
                return None;
            }
            m.insert(key, entry.1);
            proof {
                let ks = keys_of(more);
                assert forall|a: int, b: int| 0 <= a < ks.len() && 0 <= b < ks.len() && a
                    != b implies ks[a] != ks[b] by {
                    if a > 0 {
                        assert(ks[a] == keys_of(tail)[a - 1]);
                    }
                    if b > 0 {
                        assert(ks[b] == keys_of(tail)[b - 1]);
                    }
                }
                assert forall|k: K| ks.contains(k) <==> (keys_of(tail).contains(k) || k == key) by {
                    if ks.contains(k) {
                        let j = ks.index_of(k);
                        if j > 0 {
                            assert(keys_of(tail)[j - 1] == k);
                        }
                    }
                    if keys_of(tail).contains(k) {
                        let j = keys_of(tail).index_of(k);
                        assert(ks[j + 1] == k);
                    }
                    if k == key {
                        assert(ks[0] == k);
                    }
                }
                assert forall|k: K| ks.contains(k) implies #[trigger] map_of(more)[k] == map_of(
                    tail,
                ).insert(key, entry.1)[k] by {
                    let j = ks.index_of(k);
                    lemma_index_of_distinct(ks, j);
                    if j > 0 {
                        assert(keys_of(tail)[j - 1] == k);
                        lemma_index_of_distinct(keys_of(tail), j - 1);
                    }
                }
                assert(map_of(more) =~= map_of(tail).insert(key, entry.1));
            }
        }
        proof {
            assert(all.subrange(0, n) =~= all);
        }
        Some(m)
    }

    /// Takes `key` out of the map; returns the value it had, if any.
    pub fn remove(&mut self, key: &K) -> (previous: Option<V>)
        requires
            old(self).wf(),
        ensures
            final(self).wf(),
            final(self)@ == old(self)@.remove(*key),
            previous == if old(self)@.contains_key(*key) {
                Some(old(self)@[*key])
            } else {
                None::<V>
            },
    {
        let ghost keys_before = self.keys@;
        let ghost vals_before = self.vals@;
        match self.find(key) {
            Some(i) => {
                self.keys.remove(i);
                let previous = self.vals.remove(i);
                proof {
                    lemma_remove_keeps_distinct(keys_before, i as int);
                    assert forall|k: K| self.keys@.contains(k) implies #[trigger] self@[k] == old(
                        self,
                    )@.remove(*key)[k] by {
                        let j = self.keys@.index_of(k);
                        lemma_index_of_distinct(self.keys@, j);
                        if j < i {
                            lemma_index_of_distinct(keys_before, j);
                        } else {
                            lemma_index_of_distinct(keys_before, j + 1);
                        }
                    }
                    assert(self@ =~= old(self)@.remove(*key));
                }
                Some(previous)
            },
            None => {
                assert(self@ =~= self@.remove(*key));
                None
            },
        }
    }
}

} // verus!
