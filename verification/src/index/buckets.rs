//! The directory of buckets.

use crate::bucket::DATA_LIMIT_BYTES;
use crate::index::bucket_sync_state::{BucketSyncState, EventToSync};
use crate::sync::{SyncQueue, SyncQueueView};
use crate::types::{CanisterId, Key};
use vstd::prelude::*;

verus! {

/// What the index knows of one bucket.
pub struct BucketRecord {
    pub canister_id: CanisterId,
    pub used_bytes: u64,
    pub full: bool,
    pub sync_state: BucketSyncState,
}

/// The model of a bucket record.
pub struct BucketRecordView {
    pub canister_id: CanisterId,
    pub used_bytes: u64,
    pub full: bool,
    pub sync_state: SyncQueueView<EventToSync>,
}

impl View for BucketRecord {
    type V = BucketRecordView;

    open spec fn view(&self) -> BucketRecordView {
        BucketRecordView {
            canister_id: self.canister_id,
            used_bytes: self.used_bytes,
            full: self.full,
            sync_state: self.sync_state@,
        }
    }
}

impl BucketRecordView {
    /// Whether the bucket can take a blob of `file_size` bytes: it is not marked full and
    /// stays within its limit.
    pub open spec fn fits(self, file_size: u64) -> bool {
        !self.full && self.used_bytes + file_size <= DATA_LIMIT_BYTES
    }

    /// The same bucket with one more event to hear of.
    pub open spec fn with_event(self, event: EventToSync) -> BucketRecordView {
        BucketRecordView {
            sync_state: SyncQueueView {
                queue: self.sync_state.queue.push(event),
                in_progress: self.sync_state.in_progress,
            },
            ..self
        }
    }
}

/// Whether the bucket at position `i` is the one to allocate for a blob of `file_size`
/// bytes: it can take the blob, no bucket that can take it holds fewer bytes, and it comes
/// first among those that hold as few.
pub open spec fn is_allocation(buckets: Seq<BucketRecordView>, file_size: u64, i: int) -> bool {
    &&& 0 <= i < buckets.len()
    &&& buckets[i].fits(file_size)
    &&& forall|j: int|
        0 <= j < buckets.len() && (#[trigger] buckets[j]).fits(file_size) ==> buckets[i].used_bytes
            <= buckets[j].used_bytes
    &&& forall|j: int|
        0 <= j < i && (#[trigger] buckets[j]).fits(file_size) ==> buckets[i].used_bytes
            < buckets[j].used_bytes
}

/// The bucket to allocate for a blob of `file_size` bytes, if any can take it.
pub open spec fn allocated(buckets: Seq<BucketRecordView>, file_size: u64) -> Option<CanisterId> {
    if exists|i: int| is_allocation(buckets, file_size, i) {
        Some(buckets[choose|i: int| is_allocation(buckets, file_size, i)].canister_id)
    } else {
        None
    }
}

/// At most one position is the one to allocate.
pub proof fn lemma_allocation_unique(
    buckets: Seq<BucketRecordView>,
    file_size: u64,
    i: int,
    j: int,
)
    requires
        is_allocation(buckets, file_size, i),
        is_allocation(buckets, file_size, j),
    ensures
        i == j,
{
}

/// Whether a bucket of the directory has the identifier `canister_id`.
pub open spec fn has_bucket(buckets: Seq<BucketRecordView>, canister_id: CanisterId) -> bool {
    exists|i: int| 0 <= i < buckets.len() && (#[trigger] buckets[i]).canister_id == canister_id
}

/// The buckets that the index knows, in the order in which they were added.
pub struct Buckets {
    records: Vec<BucketRecord>,
}

impl View for Buckets {
    type V = Seq<BucketRecordView>;

    closed spec fn view(&self) -> Seq<BucketRecordView> {
        self.records@.map_values(|r: BucketRecord| r@)
    }
}

impl Buckets {
    /// No two buckets have the same identifier.
    pub open spec fn wf(&self) -> bool {
        forall|i: int, j: int|
            0 <= i < j < self@.len() ==> (#[trigger] self@[i]).canister_id
                != (#[trigger] self@[j]).canister_id
    }

    /// The directory without any bucket.
    pub fn new() -> (r: Self)
        ensures
            r.wf(),
            r@ == Seq::<BucketRecordView>::empty(),
    {
        let r = Buckets { records: Vec::new() };
        assert(r@ =~= Seq::<BucketRecordView>::empty());
        r
    }

    /// The records of the buckets, in the order of the directory.
    pub fn into_records(self) -> (records: Vec<BucketRecord>)
        ensures
            records@.map_values(|r: BucketRecord| r@) == self@,
    {
        self.records
    }

    /// The directory with the buckets `records`, or `None` when two of them have the same
    /// identifier.
    pub fn from_records(records: Vec<BucketRecord>) -> (r: Option<Buckets>)
        ensures
            match r {
                Some(buckets) => buckets.wf() && buckets@ == records@.map_values(
                    |r: BucketRecord| r@,
                ),
                None => exists|i: int, j: int|
                    0 <= i < j < records@.len() && (#[trigger] records@[i]).canister_id
                        == (#[trigger] records@[j]).canister_id,
            },
    {
        let mut j: usize = 0;
        while j < records.len()
            invariant
                j <= records@.len(),
                forall|a: int, b: int|
                    0 <= a < b < j ==> (#[trigger] records@[a]).canister_id
                        != (#[trigger] records@[b]).canister_id,
            decreases records@.len() - j,
        {
            let mut i: usize = 0;
            while i < j
                invariant
                    i <= j < records@.len(),
                    forall|a: int|
                        0 <= a < i ==> (#[trigger] records@[a]).canister_id
                            != records@[j as int].canister_id,
                decreases j - i,
            {
                if records[i].canister_id.same(&records[j].canister_id) {
                    return None;
                }
                i += 1;
            }
            j += 1;
        }
        let buckets = Buckets { records };
        proof {
            assert forall|a: int, b: int| 0 <= a < b < buckets@.len() implies (
            #[trigger] buckets@[a]).canister_id != (#[trigger] buckets@[b]).canister_id by {
                assert(buckets@[a] == records@[a]@);
                assert(buckets@[b] == records@[b]@);
            }
        }
        Some(buckets)
    }

    /// The number of buckets.
    pub fn len(&self) -> (n: usize)
        ensures
            n == self@.len(),
    {
        self.records.len()
    }

    fn find(&self, canister_id: &CanisterId) -> (r: Option<usize>)
        ensures
            match r {
                Some(i) => i < self@.len() && self@[i as int].canister_id == *canister_id,
                None => !has_bucket(self@, *canister_id),
            },
    {
        let mut i: usize = 0;
        while i < self.records.len()
            invariant
                i <= self.records@.len(),
                self@.len() == self.records@.len(),
                forall|j: int| 0 <= j < i ==> (#[trigger] self@[j]).canister_id != *canister_id,
            decreases self.records@.len() - i,
        {
            if self.records[i].canister_id.same(canister_id) {
                assert(self@[i as int] == self.records@[i as int]@);
                return Some(i);
            }
            assert(self@[i as int] == self.records@[i as int]@);
            i += 1;
        }
        None
    }

    /// The record of the bucket `canister_id`, if the index knows it.
    pub fn get(&self, canister_id: &CanisterId) -> (r: Option<&BucketRecord>)
        ensures
            match r {
                Some(record) => has_bucket(self@, *canister_id) && record.canister_id
                    == *canister_id && self@.contains(record@),
                None => !has_bucket(self@, *canister_id),
            },
    {
        match self.find(canister_id) {
            Some(i) => {
                assert(self@[i as int] == self.records@[i as int]@);
                Some(&self.records[i])
            },
            None => None,
        }
    }

    /// Adds the bucket `canister_id`, empty and with nothing to hear of, at the end of the
    /// directory; returns whether it was new. A bucket that the index knows stays as it is.
    pub fn add(&mut self, canister_id: CanisterId) -> (added: bool)
        requires
            old(self).wf(),
        ensures
            final(self).wf(),
            added == !has_bucket(old(self)@, canister_id),
            final(self)@ == (if added {
                old(self)@.push(
                    BucketRecordView {
                        canister_id,
                        used_bytes: 0,
                        full: false,
                        sync_state: SyncQueueView {
                            queue: Seq::<EventToSync>::empty(),
                            in_progress: false,
                        },
                    },
                )
            } else {
                old(self)@
            }),
    {
        match self.find(&canister_id) {
            Some(_) => false,
            None => {
                let record = BucketRecord {
                    canister_id,
                    used_bytes: 0,
                    full: false,
                    sync_state: SyncQueue::new(),
                };
                let ghost view = record@;
                self.records.push(record);
                proof {
                    assert(self@ =~= old(self)@.push(view));
                }
                true
            },
        }
    }

    /// Records how many bytes the bucket `canister_id` holds and whether it is full; returns
    /// whether the index knows the bucket.
    pub fn set_usage(&mut self, canister_id: &CanisterId, used_bytes: u64, full: bool) -> (known:
        bool)
        requires
            old(self).wf(),
        ensures
            final(self).wf(),
            known == has_bucket(old(self)@, *canister_id),
            final(self)@.len() == old(self)@.len(),
            forall|i: int|
                0 <= i < old(self)@.len() ==> #[trigger] final(self)@[i] == (if old(
                    self,
                )@[i].canister_id == *canister_id {
                    BucketRecordView { used_bytes, full, ..old(self)@[i] }
                } else {
                    old(self)@[i]
                }),
    {
        match self.find(canister_id) {
            None => false,
            Some(i) => {
                let mut record = self.records.remove(i);
                record.used_bytes = used_bytes;
                record.full = full;
                let ghost view = record@;
                self.records.insert(i, record);
                proof {
                    assert(self@ =~= old(self)@.update(i as int, view));
                    assert forall|k: int| 0 <= k < old(self)@.len() implies #[trigger] self@[k] == (
                    if old(self)@[k].canister_id == *canister_id {
                        BucketRecordView { used_bytes, full, ..old(self)@[k] }
                    } else {
                        old(self)@[k]
                    }) by {
                        if k != i {
                            if k < i {
                                assert(old(self)@[k].canister_id != old(self)@[i as int].canister_id);
                            } else {
                                assert(old(self)@[i as int].canister_id != old(self)@[k].canister_id);
                            }
                        }
                    }
                }
                true
            },
        }
    }

    /// The bucket for a new blob of `file_size` bytes: among the buckets that can take it the
    /// one that holds the fewest bytes, the first of them in the directory if several hold as
    /// few. `None` when no bucket can take the blob.
    pub fn allocate(&self, file_size: u64) -> (r: Option<CanisterId>)
        ensures
            r == allocated(self@, file_size),
            r is None <==> forall|i: int|
                0 <= i < self@.len() ==> !(#[trigger] self@[i]).fits(file_size),
    {
        let mut best: Option<usize> = None;
        let mut i: usize = 0;
        while i < self.records.len()
            invariant
                i <= self.records@.len(),
                self@.len() == self.records@.len(),
                match best {
                    Some(b) => b < i && is_allocation(self@.subrange(0, i as int), file_size, b as int),
                    None => forall|j: int|
                        0 <= j < i ==> !(#[trigger] self@[j]).fits(file_size),
                },
            decreases self.records@.len() - i,
        {
            let record = &self.records[i];
            assert(self@[i as int] == record@);
            let fits = !record.full && record.used_bytes <= DATA_LIMIT_BYTES && file_size
                <= DATA_LIMIT_BYTES - record.used_bytes;
            let ghost before = self@.subrange(0, i as int);
            let ghost after = self@.subrange(0, i + 1);
            proof {
                assert(after =~= before.push(self@[i as int]));
            }
            if fits {
                let better = match best {
                    Some(b) => {
                        assert(before[b as int] == self@[b as int]);
                        assert(self@[b as int] == self.records@[b as int]@);
                        record.used_bytes < self.records[b].used_bytes
                    },
                    None => true,
                };
                if better {
                    proof {
                        assert forall|j: int| 0 <= j < after.len() && (#[trigger] after[j]).fits(
                            file_size,
                        ) implies after[i as int].used_bytes <= after[j].used_bytes by {
                            if j < i {
                                assert(before[j] == after[j]);
                            }
                        }
                        assert forall|j: int| 0 <= j < i && (#[trigger] after[j]).fits(
                            file_size,
                        ) implies after[i as int].used_bytes < after[j].used_bytes by {
                            assert(before[j] == after[j]);
                        }
                    }
                    best = Some(i);
                } else {
                    proof {
                        let b = best->0 as int;
                        assert forall|j: int| 0 <= j < after.len() && (#[trigger] after[j]).fits(
                            file_size,
                        ) implies after[b].used_bytes <= after[j].used_bytes by {
                            if j < i {
                                assert(before[j] == after[j]);
                            }
                        }
                        assert forall|j: int| 0 <= j < b && (#[trigger] after[j]).fits(
                            file_size,
                        ) implies after[b].used_bytes < after[j].used_bytes by {
                            assert(before[j] == after[j]);
                        }
                    }
                }
            } else {
                proof {
                    match best {
                        Some(b) => {
                            let b = b as int;
                            assert forall|j: int|
                                0 <= j < after.len() && (#[trigger] after[j]).fits(
                                    file_size,
                                ) implies after[b].used_bytes <= after[j].used_bytes by {
                                assert(before[j] == after[j]);
                            }
                            assert forall|j: int| 0 <= j < b && (#[trigger] after[j]).fits(
                                file_size,
                            ) implies after[b].used_bytes < after[j].used_bytes by {
                                assert(before[j] == after[j]);
                            }
                        },
                        None => {},
                    }
                }
            }
            i += 1;
        }
        proof {
            assert(self@.subrange(0, self@.len() as int) =~= self@);
        }
        match best {
            Some(b) => {
                proof {
                    assert(self@[b as int] == self.records@[b as int]@);
                    assert(is_allocation(self@, file_size, b as int));
                    let chosen = choose|i: int| is_allocation(self@, file_size, i);
                    lemma_allocation_unique(self@, file_size, chosen, b as int);
                }
                Some(self.records[b].canister_id)
            },
            None => {
                proof {
                    assert forall|i: int| !is_allocation(self@, file_size, i) by {
                        if is_allocation(self@, file_size, i) {
                            assert(self@[i].fits(file_size));
                        }
                    }
                }
                None
            },
        }
    }

    /// Puts `event` at the end of the queue of every bucket.
    pub fn sync_event(&mut self, event: EventToSync)
        ensures
            old(self).wf() ==> final(self).wf(),
            final(self)@.len() == old(self)@.len(),
            forall|i: int|
                0 <= i < old(self)@.len() ==> #[trigger] final(self)@[i] == old(
                    self,
                )@[i].with_event(event),
    {
        let mut i: usize = 0;
        while i < self.records.len()
            invariant
                i <= self.records@.len(),
                self@.len() == old(self)@.len(),
                self@.len() == self.records@.len(),
                forall|k: int| 0 <= k < i ==> #[trigger] self@[k] == old(self)@[k].with_event(event),
                forall|k: int| i <= k < self@.len() ==> #[trigger] self@[k] == old(self)@[k],
            decreases self.records@.len() - i,
        {
            let ghost before = self@;
            let mut record = self.records.remove(i);
            assert(before[i as int] == record@);
            record.sync_state.enqueue(event);
            let ghost view = record@;
            self.records.insert(i, record);
            proof {
                assert(self@ =~= before.update(i as int, view));
            }
            i += 1;
        }
    }
}

/// A bucket that is allocated can take the blob, and no bucket that can take it holds fewer
/// bytes.
pub proof fn lemma_allocation_is_least_loaded(
    buckets: Seq<BucketRecordView>,
    file_size: u64,
    i: int,
    j: int,
)
    requires
        is_allocation(buckets, file_size, i),
        0 <= j < buckets.len(),
        buckets[j].fits(file_size),
    ensures
        buckets[i].used_bytes + file_size <= DATA_LIMIT_BYTES,
        buckets[i].used_bytes <= buckets[j].used_bytes,
{
}

} // verus!
