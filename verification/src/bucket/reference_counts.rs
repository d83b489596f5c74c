//! How many files refer to each blob.

use crate::collections::vec_map::VecMap;
use vstd::prelude::*;

verus! {

/// A counter per content hash. A hash without an entry counts zero.
pub struct ReferenceCounts {
    counts: VecMap<crate::types::Hash, u32>,
}

impl View for ReferenceCounts {
    type V = Map<crate::types::Hash, nat>;

    /// The map from each hash that is referred to, to the number of its references.
    closed spec fn view(&self) -> Map<crate::types::Hash, nat> {
        self.counts@.map_values(|c: u32| c as nat)
    }
}

impl ReferenceCounts {
    /// No entry holds zero.
    pub closed spec fn wf(&self) -> bool {
        &&& self.counts.wf()
        &&& forall|h: crate::types::Hash| #[trigger]
            self.counts@.contains_key(h) ==> self.counts@[h] >= 1
    }

    /// The number of references to `hash`.
    pub open spec fn count(&self, hash: crate::types::Hash) -> nat {
        if self@.contains_key(hash) {
            self@[hash]
        } else {
            0
        }
    }

    /// Every entry is at least one and fits the counter, and there are finitely many.
    pub proof fn lemma_view(&self)
        requires
            self.wf(),
        ensures
            self@.dom().finite(),
            forall|h: crate::types::Hash| #[trigger]
                self@.contains_key(h) ==> 1 <= self@[h] <= u32::MAX,
            forall|h: crate::types::Hash| self.count(h) <= u32::MAX,
    {
        self.counts.lemma_order();
        assert(self@.dom() =~= self.counts@.dom());
        assert forall|h: crate::types::Hash| #[trigger] self@.contains_key(h) implies 1 <= self@[h]
            <= u32::MAX by {
            assert(self.counts@.contains_key(h));
        }
    }

    /// No hash is referred to.
    pub fn new() -> (r: Self)
        ensures
            r.wf(),
            r@ == Map::<crate::types::Hash, nat>::empty(),
    {
        let r = ReferenceCounts { counts: VecMap::new() };
        assert(r@ =~= Map::<crate::types::Hash, nat>::empty());
        r
    }

    /// The number of references to `hash`.
    pub fn get(&self, hash: &crate::types::Hash) -> (r: u32)
        requires
            self.wf(),
        ensures
            r == self.count(*hash),
    {
        match self.counts.get(hash) {
            Some(c) => *c,
            None => 0,
        }
    }

    /// Counts one more reference to `hash`; returns the new count.
    pub fn incr(&mut self, hash: crate::types::Hash) -> (r: u32)
        requires
            old(self).wf(),
            old(self).count(hash) < u32::MAX,
        ensures
            final(self).wf(),
            r == old(self).count(hash) + 1,
            final(self)@ == old(self)@.insert(hash, old(self).count(hash) + 1),
    {
        let current: u32 = match self.counts.get(&hash) {
            Some(c) => *c,
            None => 0,
        };
        let next: u32 = current + 1;
        self.counts.insert(hash, next);
        proof {
            assert(self@ =~= old(self)@.insert(hash, old(self).count(hash) + 1));
        }
        next
    }

    /// Counts one reference to `hash` less; returns the new count. A hash that is not
    /// referred to stays at zero.
    pub fn decr(&mut self, hash: crate::types::Hash) -> (r: u32)
        requires
            old(self).wf(),
        ensures
            final(self).wf(),
            r == final(self).count(hash),
            final(self)@ == if old(self).count(hash) > 1 {
                old(self)@.insert(hash, (old(self).count(hash) - 1) as nat)
            } else {
                old(self)@.remove(hash)
            },
    {
        let current: u32 = match self.counts.get(&hash) {
            Some(c) => *c,
            None => 0,
        };
        if current > 1 {
            let next: u32 = current - 1;
            self.counts.insert(hash, next);
            proof {
                assert(self@ =~= old(self)@.insert(hash, (old(self).count(hash) - 1) as nat));
            }
            next
        } else {
            self.counts.remove(&hash);
            proof {
                assert(self@ =~= old(self)@.remove(hash));
            }
            0
        }
    }
}

} // verus!
