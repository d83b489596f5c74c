//! The reverse index from each accessor to the files that name it.

use crate::collections::vec_map::VecMap;
use crate::collections::vec_set::VecSet;
use crate::types::{AccessorId, FileId};
use vstd::prelude::*;

verus! {

/// For each accessor, the files it may read. An accessor without files has no entry.
pub struct AccessorsMap {
    map: VecMap<AccessorId, VecSet<FileId>>,
}

impl View for AccessorsMap {
    type V = Map<AccessorId, Set<FileId>>;

    closed spec fn view(&self) -> Map<AccessorId, Set<FileId>> {
        self.map@.map_values(|s: VecSet<FileId>| s@)
    }
}

impl AccessorsMap {
    /// Every entry is a sound set with at least one file.
    pub closed spec fn wf(&self) -> bool {
        &&& self.map.wf()
        &&& forall|a: AccessorId| #[trigger]
            self.map@.contains_key(a) ==> self.map@[a].wf() && self.map@[a]@ != Set::<
                FileId,
            >::empty()
    }

    /// The files that name `accessor_id`.
    pub open spec fn files_of(&self, accessor_id: AccessorId) -> Set<FileId> {
        if self@.contains_key(accessor_id) {
            self@[accessor_id]
        } else {
            Set::empty()
        }
    }

    /// There are finitely many entries, each a finite set with at least one file.
    pub proof fn lemma_view(&self)
        requires
            self.wf(),
        ensures
            self@.dom().finite(),
            forall|a: AccessorId| #[trigger]
                self@.contains_key(a) ==> self@[a].finite() && self@[a] != Set::<FileId>::empty(),
            forall|a: AccessorId| #[trigger] self.files_of(a).finite(),
    {
        self.map.lemma_order();
        assert(self@.dom() =~= self.map@.dom());
        assert forall|a: AccessorId| #[trigger] self@.contains_key(a) implies self@[a].finite()
            && self@[a] != Set::<FileId>::empty() by {
            assert(self.map@.contains_key(a));
            self.map@[a].lemma_order();
        }
    }

    /// No accessor has a file.
    pub fn new() -> (r: Self)
        ensures
            r.wf(),
            r@ == Map::<AccessorId, Set<FileId>>::empty(),
    {
        let r = AccessorsMap { map: VecMap::new() };
        assert(r@ =~= Map::<AccessorId, Set<FileId>>::empty());
        r
    }

    /// The files that name `accessor_id`, in no particular order, each once.
    pub fn file_ids(&self, accessor_id: &AccessorId) -> (ids: Vec<FileId>)
        requires
            self.wf(),
        ensures
            ids@.no_duplicates(),
            ids@.to_set() == self.files_of(*accessor_id),
    {
        let mut ids: Vec<FileId> = Vec::new();
        match self.map.get(accessor_id) {
            None => {
                assert(ids@.to_set() =~= Set::<FileId>::empty());
            },
            Some(set) => {
                proof {
                    set.lemma_order();
                }
                let n = set.len();
                let mut i: usize = 0;
                while i < n
                    invariant
                        i <= n,
                        n == set.order().len(),
                        ids@ == set.order().subrange(0, i as int),
                    decreases n - i,
                {
                    ids.push(set.at(i));
                    assert(set.order().subrange(0, i as int).push(set.order()[i as int])
                        =~= set.order().subrange(0, i + 1));
                    i += 1;
                }
                assert(set.order().subrange(0, n as int) =~= set.order());
            },
        }
        ids
    }

    /// Records that `file_id` names `accessor_id`.
    pub fn link(&mut self, accessor_id: AccessorId, file_id: FileId)
        requires
            old(self).wf(),
        ensures
            final(self).wf(),
            final(self)@ == old(self)@.insert(
                accessor_id,
                old(self).files_of(accessor_id).insert(file_id),
            ),
    {
        let mut set = match self.map.remove(&accessor_id) {
            Some(set) => set,
            None => VecSet::new(),
        };
        set.insert(file_id);
        proof {
            assert(set@.contains(file_id));
        }
        self.map.insert(accessor_id, set);
        proof {
            assert(self@ =~= old(self)@.insert(
                accessor_id,
                old(self).files_of(accessor_id).insert(file_id),
            ));
            assert forall|a: AccessorId| #[trigger] self.map@.contains_key(a) implies self.map@[a].wf()
                && self.map@[a]@ != Set::<FileId>::empty() by {
                if a != accessor_id {
                    assert(old(self).map@.contains_key(a));
                }
            }
        }
    }

    /// Records that `file_id` no longer names `accessor_id`.
    pub fn unlink(&mut self, accessor_id: AccessorId, file_id: &FileId)
        requires
            old(self).wf(),
        ensures
            final(self).wf(),
            final(self)@ == if old(self).files_of(accessor_id).remove(*file_id) == Set::<
                FileId,
            >::empty() {
                old(self)@.remove(accessor_id)
            } else {
                old(self)@.insert(accessor_id, old(self).files_of(accessor_id).remove(*file_id))
            },
    {
        match self.map.remove(&accessor_id) {
            None => {
                proof {
                    assert(old(self).files_of(accessor_id).remove(*file_id) =~= Set::<
                        FileId,
                    >::empty());
                    assert(self@ =~= old(self)@.remove(accessor_id));
                }
            },
            Some(set) => {
                let mut set = set;
                set.remove(file_id);
                if set.is_empty() {
                    proof {
                        assert(self@ =~= old(self)@.remove(accessor_id));
                    }
                } else {
                    self.map.insert(accessor_id, set);
                    proof {
                        assert(self@ =~= old(self)@.insert(
                            accessor_id,
                            old(self).files_of(accessor_id).remove(*file_id),
                        ));
                    }
                }
                proof {
                    assert forall|a: AccessorId| #[trigger] self.map@.contains_key(a) implies self.map@[a].wf()
                        && self.map@[a]@ != Set::<FileId>::empty() by {
                        if a != accessor_id {
                            assert(old(self).map@.contains_key(a));
                        }
                    }
                }
            },
        }
    }

    /// Forgets `accessor_id`; returns the files that named it, if there were any.
    pub fn remove(&mut self, accessor_id: &AccessorId) -> (r: Option<VecSet<FileId>>)
        requires
            old(self).wf(),
        ensures
            final(self).wf(),
            final(self)@ == old(self)@.remove(*accessor_id),
            match r {
                Some(set) => old(self)@.contains_key(*accessor_id) && set.wf() && set@ == old(
                    self,
                )@[*accessor_id],
                None => !old(self)@.contains_key(*accessor_id),
            },
    {
        let r = self.map.remove(accessor_id);
        proof {
            assert(self@ =~= old(self)@.remove(*accessor_id));
            assert forall|a: AccessorId| #[trigger] self.map@.contains_key(a) implies self.map@[a].wf()
                && self.map@[a]@ != Set::<FileId>::empty() by {
                assert(old(self).map@.contains_key(a));
            }
        }
        r
    }
}

} // verus!
