//! Which bucket owns the bytes of each content hash, and which users refer to them.

use crate::collections::vec_map::{keys_of, lemma_map_of_entry, map_of, VecMap};
use crate::collections::vec_set::VecSet;
use crate::types::{CanisterId, UserId};
use vstd::prelude::*;

verus! {

/// What the index knows of one blob.
pub struct BlobRecord {
    pub size: u64,
    pub bucket: CanisterId,
    pub users: VecSet<UserId>,
}

/// The model of a blob record.
pub struct BlobRecordView {
    pub size: u64,
    pub bucket: CanisterId,
    pub users: Set<UserId>,
}

impl View for BlobRecord {
    type V = BlobRecordView;

    open spec fn view(&self) -> BlobRecordView {
        BlobRecordView { size: self.size, bucket: self.bucket, users: self.users@ }
    }
}

/// The blob that one more user refers to: a new record for a hash that had none.
pub open spec fn record_with_user(
    blobs: Map<crate::types::Hash, BlobRecordView>,
    hash: crate::types::Hash,
    size: u64,
    bucket: CanisterId,
    user_id: UserId,
) -> BlobRecordView {
    if blobs.contains_key(hash) {
        BlobRecordView { users: blobs[hash].users.insert(user_id), ..blobs[hash] }
    } else {
        BlobRecordView { size, bucket, users: set![user_id] }
    }
}

/// Whether `user_id` refers to the blob `hash`.
pub open spec fn user_refers_to(
    blobs: Map<crate::types::Hash, BlobRecordView>,
    user_id: UserId,
    hash: crate::types::Hash,
) -> bool {
    blobs.contains_key(hash) && blobs[hash].users.contains(user_id)
}

/// The records once `user_id` no longer refers to `hash`: the record goes when the blob was
/// deleted or no user is left, and nothing changes if the user did not refer to the blob.
pub open spec fn records_without_reference(
    blobs: Map<crate::types::Hash, BlobRecordView>,
    hash: crate::types::Hash,
    user_id: UserId,
    blob_deleted: bool,
) -> Map<crate::types::Hash, BlobRecordView> {
    if !user_refers_to(blobs, user_id, hash) {
        blobs
    } else if blob_deleted || blobs[hash].users.remove(user_id) == Set::<UserId>::empty() {
        blobs.remove(hash)
    } else {
        blobs.insert(
            hash,
            BlobRecordView { users: blobs[hash].users.remove(user_id), ..blobs[hash] },
        )
    }
}

/// The directory of blobs.
pub struct BlobBuckets {
    map: VecMap<crate::types::Hash, BlobRecord>,
}

impl View for BlobBuckets {
    type V = Map<crate::types::Hash, BlobRecordView>;

    closed spec fn view(&self) -> Map<crate::types::Hash, BlobRecordView> {
        self.map@.map_values(|r: BlobRecord| r@)
    }
}

impl BlobBuckets {
    /// Every record holds a sound set of users.
    pub closed spec fn wf(&self) -> bool {
        &&& self.map.wf()
        &&& forall|h: crate::types::Hash| #[trigger]
            self.map@.contains_key(h) ==> self.map@[h].users.wf()
    }

    /// There are finitely many records, each with finitely many users.
    pub proof fn lemma_view(&self)
        requires
            self.wf(),
        ensures
            self@.dom().finite(),
            forall|h: crate::types::Hash| #[trigger]
                self@.contains_key(h) ==> self@[h].users.finite(),
    {
        self.map.lemma_order();
        assert(self@.dom() =~= self.map@.dom());
        assert forall|h: crate::types::Hash| #[trigger] self@.contains_key(h) implies self@[h].users.finite() by {
            assert(self.map@.contains_key(h));
            self.map@[h].users.lemma_order();
        }
    }

    /// The directory without any blob.
    pub fn new() -> (r: Self)
        ensures
            r.wf(),
            r@ == Map::<crate::types::Hash, BlobRecordView>::empty(),
    {
        let r = BlobBuckets { map: VecMap::new() };
        assert(r@ =~= Map::<crate::types::Hash, BlobRecordView>::empty());
        r
    }

    /// The records as a list of entries, each hash once.
    pub fn into_entries(self) -> (entries: Vec<(crate::types::Hash, BlobRecord)>)
        requires
            self.wf(),
        ensures
            keys_of(entries@).no_duplicates(),
            map_of(entries@).map_values(|r: BlobRecord| r@) == self@,
            forall|i: int| 0 <= i < entries@.len() ==> (#[trigger] entries@[i]).1.users.wf(),
    {
        let ghost records = self.map@;
        let entries = self.map.into_entries();
        proof {
            assert forall|i: int| 0 <= i < entries@.len() implies (#[trigger] entries@[i]).1.users.wf() by {
                lemma_map_of_entry(entries@, i);
                assert(records.contains_key(entries@[i].0));
            }
        }
        entries
    }

    /// The directory that `entries` spells out, or `None` when a hash is listed twice.
    pub fn from_entries(entries: Vec<(crate::types::Hash, BlobRecord)>) -> (r: Option<BlobBuckets>)
        requires
            forall|i: int| 0 <= i < entries@.len() ==> (#[trigger] entries@[i]).1.users.wf(),
        ensures
            r is Some <==> keys_of(entries@).no_duplicates(),
            r matches Some(blobs) ==> blobs.wf() && blobs@ == map_of(entries@).map_values(
                |r: BlobRecord| r@,
            ),
    {
        match VecMap::from_entries(entries) {
            None => None,
            Some(map) => {
                proof {
                    assert forall|h: crate::types::Hash| #[trigger]
                        map@.contains_key(h) implies map@[h].users.wf() by {
                        let i = keys_of(entries@).index_of(h);
                        assert(keys_of(entries@)[i] == h);
                        lemma_map_of_entry(entries@, i);
                    }
                }
                Some(BlobBuckets { map })
            },
        }
    }

    /// The record of the blob `hash`, if there is one.
    pub fn get(&self, hash: &crate::types::Hash) -> (r: Option<&BlobRecord>)
        requires
            self.wf(),
        ensures
            match r {
                Some(record) => self@.contains_key(*hash) && record@ == self@[*hash]
                    && record.users.wf(),
                None => !self@.contains_key(*hash),
            },
    {
        self.map.get(hash)
    }

    /// The bucket that owns the blob `hash`, if it is known.
    pub fn bucket(&self, hash: &crate::types::Hash) -> (r: Option<CanisterId>)
        requires
            self.wf(),
        ensures
            r == (if self@.contains_key(*hash) {
                Some(self@[*hash].bucket)
            } else {
                None
            }),
    {
        match self.map.get(hash) {
            Some(record) => Some(record.bucket),
            None => None,
        }
    }

    /// Whether `user_id` refers to the blob `hash`.
    pub fn user_owns_blob(&self, user_id: &UserId, hash: &crate::types::Hash) -> (r: bool)
        requires
            self.wf(),
        ensures
            r == user_refers_to(self@, *user_id, *hash),
    {
        match self.map.get(hash) {
            Some(record) => record.users.contains(user_id),
            None => false,
        }
    }

    /// Records that `user_id` refers to the blob `hash`. A hash without a record gets one,
    /// with the size and the bucket given; a record that exists keeps its size and its
    /// bucket.
    pub fn add(
        &mut self,
        hash: crate::types::Hash,
        size: u64,
        bucket: CanisterId,
        user_id: UserId,
    )
        requires
            old(self).wf(),
        ensures
            final(self).wf(),
            final(self)@ == old(self)@.insert(
                hash,
                record_with_user(old(self)@, hash, size, bucket, user_id),
            ),
    {
        let mut record = match self.map.remove(&hash) {
            Some(record) => record,
            None => BlobRecord { size, bucket, users: VecSet::new() },
        };
        record.users.insert(user_id);
        self.map.insert(hash, record);
        proof {
            assert(record_with_user(old(self)@, hash, size, bucket, user_id).users
                =~= self.map@[hash].users@);
            assert(self@ =~= old(self)@.insert(
                hash,
                record_with_user(old(self)@, hash, size, bucket, user_id),
            ));
            assert forall|h: crate::types::Hash| #[trigger]
                self.map@.contains_key(h) implies self.map@[h].users.wf() by {
                if h != hash {
                    assert(old(self).map@.contains_key(h));
                }
            }
        }
    }

    /// Records that `user_id` no longer refers to the blob `hash`; returns the size of the
    /// blob if the user did refer to it. The record goes when the blob was deleted or no user
    /// is left.
    pub fn remove(&mut self, hash: crate::types::Hash, user_id: UserId, blob_deleted: bool) -> (r:
        Option<u64>)
        requires
            old(self).wf(),
        ensures
            final(self).wf(),
            r == (if user_refers_to(old(self)@, user_id, hash) {
                Some(old(self)@[hash].size)
            } else {
                None
            }),
            final(self)@ == records_without_reference(old(self)@, hash, user_id, blob_deleted),
    {
        let refers = match self.map.get(&hash) {
            Some(record) => record.users.contains(&user_id),
            None => false,
        };
        if !refers {
            return None;
        }
        let removed = self.map.remove(&hash);
        let mut record = removed.unwrap();
        let size = record.size;
        record.users.remove(&user_id);
        if blob_deleted || record.users.is_empty() {
            proof {
                assert(self@ =~= old(self)@.remove(hash));
            }
        } else {
            self.map.insert(hash, record);
            proof {
                assert(self@ =~= old(self)@.insert(
                    hash,
                    BlobRecordView {
                        users: old(self)@[hash].users.remove(user_id),
                        ..old(self)@[hash]
                    },
                ));
            }
        }
        proof {
            assert forall|h: crate::types::Hash| #[trigger]
                self.map@.contains_key(h) implies self.map@[h].users.wf() by {
                if h != hash {
                    assert(old(self).map@.contains_key(h));
                }
            }
        }
        Some(size)
    }
}

} // verus!
