//! A set kept in a vector without repetitions.

use crate::types::Key;
use vstd::prelude::*;

verus! {

/// A finite set of keys. Its model is the mathematical set of the keys it holds.
pub struct VecSet<K: Key> {
    items: Vec<K>,
}

impl<K: Key> View for VecSet<K> {
    type V = Set<K>;

    closed spec fn view(&self) -> Set<K> {
        self.items@.to_set()
    }
}

impl<K: Key> VecSet<K> {
    /// No key is held twice.
    pub closed spec fn wf(&self) -> bool {
        self.items@.no_duplicates()
    }

    /// The keys in the order in which `at` hands them out.
    pub closed spec fn order(&self) -> Seq<K> {
        self.items@
    }

    /// The order lists every member exactly once.
    pub proof fn lemma_order(&self)
        requires
            self.wf(),
        ensures
            self.order().no_duplicates(),
            self@.finite(),
            self@.len() == self.order().len(),
            self@ == self.order().to_set(),
            forall|k: K| self@.contains(k) <==> self.order().contains(k),
    {
        broadcast use vstd::seq_lib::seq_to_set_is_finite;

        self.items@.unique_seq_to_set();
    }

    /// The empty set.
    pub fn new() -> (s: Self)
        ensures
            s.wf(),
            s@ == Set::<K>::empty(),
            s.order() == Seq::<K>::empty(),
    {
        let s = VecSet { items: Vec::new() };
        assert(s@ =~= Set::<K>::empty());
        s
    }

    fn find(&self, key: &K) -> (r: Option<usize>)
        ensures
            match r {
                Some(i) => i < self.items@.len() && self.items@[i as int] == *key,
                None => !self.items@.contains(*key),
            },
    {
        let mut i: usize = 0;
        while i < self.items.len()
            invariant
                i <= self.items@.len(),
                forall|j: int| 0 <= j < i ==> self.items@[j] != *key,
            decreases self.items@.len() - i,
        {
            if self.items[i].same(key) {
                return Some(i);
            }
            i += 1;
        }
        None
    }

    /// The number of members.
    pub fn len(&self) -> (n: usize)
        requires
            self.wf(),
        ensures
            n == self@.len(),
            n == self.order().len(),
    {
        proof {
            self.lemma_order();
        }
        self.items.len()
    }

    /// Whether the set has no member.
    pub fn is_empty(&self) -> (r: bool)
        requires
            self.wf(),
        ensures
            r == (self@ == Set::<K>::empty()),
            r == (self.order().len() == 0),
    {
        proof {
            self.lemma_order();
            if self.items@.len() == 0 {
                assert(self@ =~= Set::<K>::empty());
            } else {
                assert(self.items@.contains(self.items@[0]));
                assert(self@.contains(self.items@[0]));
            }
        }
        self.items.len() == 0
    }

    /// Whether `key` is a member.
    pub fn contains(&self, key: &K) -> (r: bool)
        ensures
            r == self@.contains(*key),
    {
        self.find(key).is_some()
    }

    /// The member at position `i` of the order.
    pub fn at(&self, i: usize) -> (k: K)
        requires
            i < self.order().len(),
        ensures
            k == self.order()[i as int],
            self@.contains(k),
    {
        assert(self.items@.contains(self.items@[i as int]));
        self.items[i]
    }

    /// Adds `key`; returns whether it was new.
    pub fn insert(&mut self, key: K) -> (added: bool)
        requires
            old(self).wf(),
        ensures
            final(self).wf(),
            final(self)@ == old(self)@.insert(key),
            added == !old(self)@.contains(key),
    {
        match self.find(&key) {
            Some(_) => {
                assert(self@ =~= self@.insert(key));
                false
            },
            None => {
                let ghost before = self.items@;
                self.items.push(key);
                proof {
                    assert forall|i: int, j: int|
                        0 <= i < self.items@.len() && 0 <= j < self.items@.len() && i != j implies self.items@[i]
                        != self.items@[j] by {
                        if i < before.len() {
                            assert(before.contains(before[i]));
                        }
                        if j < before.len() {
                            assert(before.contains(before[j]));
                        }
                    }
                    assert forall|k: K| self.items@.to_set().contains(k) <==> before.to_set().insert(
                        key,
                    ).contains(k) by {
                        if self.items@.contains(k) {
                            let i = self.items@.index_of(k);
                            if i < before.len() {
                                assert(before[i] == k);
                                assert(before.contains(k));
                            }
                        }
                        if before.contains(k) {
                            let i = before.index_of(k);
                            assert(self.items@[i] == k);
                        }
                        if k == key {
                            assert(self.items@[before.len() as int] == k);
                        }
                    }
                    assert(self.items@.to_set() =~= before.to_set().insert(key));
                }
                true
            },
        }
    }

    /// The set of the items of `items`.
    pub fn from_vec(items: &Vec<K>) -> (s: Self)
        ensures
            s.wf(),
            s@ == items@.to_set(),
    {
        let mut s = VecSet::new();
        let mut i: usize = 0;
        while i < items.len()
            invariant
                i <= items@.len(),
                s.wf(),
                s@ == items@.subrange(0, i as int).to_set(),
            decreases items@.len() - i,
        {
            s.insert(items[i]);
            proof {
                let before = items@.subrange(0, i as int);
                let after = items@.subrange(0, i + 1);
                assert(after =~= before.push(items@[i as int]));
                assert forall|k: K| after.to_set().contains(k) <==> before.to_set().insert(
                    items@[i as int],
                ).contains(k) by {
                    if after.contains(k) {
                        let j = after.index_of(k);
                        if j < i {
                            assert(before[j] == k);
                        }
                    }
                    if before.contains(k) {
                        let j = before.index_of(k);
                        assert(after[j] == k);
                    }
                    if k == items@[i as int] {
                        assert(after[i as int] == k);
                    }
                }
                assert(after.to_set() =~= before.to_set().insert(items@[i as int]));
            }
            i += 1;
        }
        assert(items@.subrange(0, items@.len() as int) =~= items@);
        s
    }

    /// The members as a list, each once.
    pub fn into_vec(self) -> (items: Vec<K>)
        requires
            self.wf(),
        ensures
            items@.no_duplicates(),
            items@.to_set() == self@,
            items@ == self.order(),
    {
        self.items
    }

    /// Takes `key` out; returns whether it was a member.
    pub fn remove(&mut self, key: &K) -> (removed: bool)
        requires
            old(self).wf(),
        ensures
            final(self).wf(),
            final(self)@ == old(self)@.remove(*key),
            removed == old(self)@.contains(*key),
    {
        match self.find(key) {
            Some(i) => {
                let ghost before = self.items@;
                self.items.remove(i);
                proof {
                    lemma_remove_keeps_distinct(before, i as int);
                    assert(self.items@.to_set() =~= before.to_set().remove(*key));
                }
                true
            },
            None => {
                assert(self@ =~= self@.remove(*key));
                false
            },
        }
    }
}

impl VecSet<u32> {
    /// The set of the numbers below `n`.
    pub fn below(n: u32) -> (s: Self)
        ensures
            s.wf(),
            s@ == Set::new(|i: u32| i < n),
    {
        let mut items: Vec<u32> = Vec::new();
        let mut i: u32 = 0;
        while i < n
            invariant
                i <= n,
                items@.len() == i,
                forall|j: int| 0 <= j < i ==> items@[j] == j,
            decreases n - i,
        {
            items.push(i);
            i += 1;
        }
        let s = VecSet { items };
        proof {
            assert forall|k: u32| s@.contains(k) <==> k < n by {
                if k < n {
                    assert(items@[k as int] == k);
                }
            }
            assert(s@ =~= Set::new(|i: u32| i < n));
        }
        s
    }
}

/// The items of a prefix that is one longer are those of the prefix and the item that
/// follows it.
pub proof fn lemma_prefix_set_grows<K>(s: Seq<K>, i: int)
    requires
        0 <= i < s.len(),
    ensures
        s.subrange(0, i + 1).to_set() == s.subrange(0, i).to_set().insert(s[i]),
        s.subrange(0, i + 1) == s.subrange(0, i).push(s[i]),
        s.no_duplicates() ==> !s.subrange(0, i).contains(s[i]),
{
    let before = s.subrange(0, i);
    let after = s.subrange(0, i + 1);
    assert(after =~= before.push(s[i]));
    assert forall|k: K| after.to_set().contains(k) <==> before.to_set().insert(s[i]).contains(
        k,
    ) by {
        if after.contains(k) {
            let j = after.index_of(k);
            if j < i {
                assert(before[j] == k);
            }
        }
        if before.contains(k) {
            let j = before.index_of(k);
            assert(after[j] == k);
        }
        if k == s[i] {
            assert(after[i] == k);
        }
    }
    assert(after.to_set() =~= before.to_set().insert(s[i]));
    if s.no_duplicates() && before.contains(s[i]) {
        let j = before.index_of(s[i]);
        assert(s[j] == s[i]);
    }
}

/// Taking one position out of a sequence without repetitions leaves a sequence without
/// repetitions that holds every other item and no longer the one removed.
pub proof fn lemma_remove_keeps_distinct<K>(s: Seq<K>, i: int)
    requires
        s.no_duplicates(),
        0 <= i < s.len(),
    ensures
        s.remove(i).no_duplicates(),
        !s.remove(i).contains(s[i]),
        forall|k: K| k != s[i] ==> (s.remove(i).contains(k) <==> s.contains(k)),
        forall|j: int| 0 <= j < i ==> s.remove(i)[j] == s[j],
        forall|j: int| i <= j < s.len() - 1 ==> s.remove(i)[j] == s[j + 1],
{
    let r = s.remove(i);
    assert forall|k: K| k != s[i] implies (r.contains(k) <==> s.contains(k)) by {
        if s.contains(k) {
            let j = s.index_of(k);
            if j < i {
                assert(r[j] == k);
            } else {
                assert(r[j - 1] == k);
            }
        }
        if r.contains(k) {
            let j = r.index_of(k);
            if j < i {
                assert(s[j] == k);
            } else {
                assert(s[j + 1] == k);
            }
        }
    }
    if r.contains(s[i]) {
        let j = r.index_of(s[i]);
        if j < i {
            assert(s[j] == s[i]);
        } else {
            assert(s[j + 1] == s[i]);
        }
    }
}

} // verus!
