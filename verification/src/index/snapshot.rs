//! The state of the index as plain lists, to keep it at rest and to bring it back.

use crate::collections::vec_map::{keys_of, map_of, VecMap};
use crate::collections::vec_set::VecSet;
use crate::index::blob_buckets::{BlobBuckets, BlobRecord};
use crate::index::buckets::{BucketRecord, Buckets};
use crate::index::data::{Data, DataView, UserRecord};
use crate::types::{CanisterId, CanisterWasm, Cycles, Principal, UserId};
use crate::upgrade::{CanistersRequiringUpgrade, CanistersRequiringUpgradeView, FailedUpgrade};
use vstd::prelude::*;

verus! {

/// The parts of the state of the index, each as a list.
pub struct DataSnapshot {
    pub service_principals: Vec<Principal>,
    pub bucket_canister_wasm: CanisterWasm,
    pub users: Vec<(UserId, UserRecord)>,
    pub blob_buckets: Vec<(crate::types::Hash, BlobRecord)>,
    pub buckets: Vec<BucketRecord>,
    pub upgrades_pending: Vec<CanisterId>,
    pub upgrades_in_progress: Vec<CanisterId>,
    pub upgrades_failed: Vec<FailedUpgrade>,
    pub total_cycles_spent_on_canisters: Cycles,
    pub test_mode: bool,
}

impl DataSnapshot {
    /// The users, the blobs and the buckets that the snapshot lists.
    pub open spec fn data_view(&self) -> DataView {
        DataView {
            service_principals: self.service_principals@.to_set(),
            users: map_of(self.users@),
            blob_buckets: map_of(self.blob_buckets@).map_values(|r: BlobRecord| r@),
            buckets: self.buckets@.map_values(|r: BucketRecord| r@),
        }
    }

    /// The upgrades that the snapshot lists.
    pub open spec fn upgrades_view(&self) -> CanistersRequiringUpgradeView {
        CanistersRequiringUpgradeView {
            pending: self.upgrades_pending@,
            in_progress: self.upgrades_in_progress@.to_set(),
            failed: self.upgrades_failed@,
        }
    }

    /// The sets of users in the records of the blobs are sound.
    pub open spec fn sets_wf(&self) -> bool {
        forall|i: int|
            0 <= i < self.blob_buckets@.len() ==> (#[trigger] self.blob_buckets@[i]).1.users.wf()
    }

    /// Whether the snapshot is that of an index: no user, no hash and no bucket is listed
    /// twice.
    pub open spec fn valid(&self) -> bool {
        &&& keys_of(self.users@).no_duplicates()
        &&& keys_of(self.blob_buckets@).no_duplicates()
        &&& forall|i: int, j: int|
            0 <= i < j < self.buckets@.len() ==> (#[trigger] self.buckets@[i]).canister_id
                != (#[trigger] self.buckets@[j]).canister_id
    }
}

impl Data {
    /// Whether `self` is the index that `snapshot` lists.
    pub open spec fn is_listed_by(&self, snapshot: DataSnapshot) -> bool {
        &&& self@ == snapshot.data_view()
        &&& self.canisters_requiring_upgrade@ == snapshot.upgrades_view()
        &&& self.bucket_canister_wasm == snapshot.bucket_canister_wasm
        &&& self.total_cycles_spent_on_canisters == snapshot.total_cycles_spent_on_canisters
        &&& self.test_mode == snapshot.test_mode
    }

    /// Takes the state apart into lists.
    pub fn into_snapshot(self) -> (snapshot: DataSnapshot)
        requires
            self.wf(),
        ensures
            snapshot.sets_wf(),
            snapshot.valid(),
            self.is_listed_by(snapshot),
    {
        let ghost buckets_view = self.buckets@;
        let Data {
            service_principals,
            bucket_canister_wasm,
            users,
            blob_buckets,
            buckets,
            canisters_requiring_upgrade,
            total_cycles_spent_on_canisters,
            test_mode,
        } = self;
        let parts = canisters_requiring_upgrade.into_parts();
        let snapshot = DataSnapshot {
            service_principals: service_principals.into_vec(),
            bucket_canister_wasm,
            users: users.into_entries(),
            blob_buckets: blob_buckets.into_entries(),
            buckets: buckets.into_records(),
            upgrades_pending: parts.0,
            upgrades_in_progress: parts.1,
            upgrades_failed: parts.2,
            total_cycles_spent_on_canisters,
            test_mode,
        };
        proof {
            assert forall|i: int, j: int| 0 <= i < j < snapshot.buckets@.len() implies (
            #[trigger] snapshot.buckets@[i]).canister_id
                != (#[trigger] snapshot.buckets@[j]).canister_id by {
                assert(buckets_view[i] == snapshot.buckets@[i]@);
                assert(buckets_view[j] == snapshot.buckets@[j]@);
            }
        }
        snapshot
    }

    /// Builds the index that `snapshot` lists, or `None` when the snapshot is not that of an
    /// index.
    pub fn from_snapshot(snapshot: DataSnapshot) -> (r: Option<Data>)
        requires
            snapshot.sets_wf(),
        ensures
            r is Some <==> snapshot.valid(),
            r matches Some(data) ==> data.wf() && data.is_listed_by(snapshot),
    {
        let DataSnapshot {
            service_principals,
            bucket_canister_wasm,
            users,
            blob_buckets,
            buckets,
            upgrades_pending,
            upgrades_in_progress,
            upgrades_failed,
            total_cycles_spent_on_canisters,
            test_mode,
        } = snapshot;
        let users = match VecMap::from_entries(users) {
            Some(users) => users,
            None => {
                return None;
            },
        };
        let blob_buckets = match BlobBuckets::from_entries(blob_buckets) {
            Some(blob_buckets) => blob_buckets,
            None => {
                return None;
            },
        };
        let ghost records = buckets@;
        let buckets = match Buckets::from_records(buckets) {
            Some(buckets) => buckets,
            None => {
                return None;
            },
        };
        proof {
            assert forall|i: int, j: int| 0 <= i < j < records.len() implies (
            #[trigger] records[i]).canister_id != (#[trigger] records[j]).canister_id by {
                assert(buckets@[i] == records[i]@);
                assert(buckets@[j] == records[j]@);
            }
        }
        Some(
            Data {
                service_principals: VecSet::from_vec(&service_principals),
                bucket_canister_wasm,
                users,
                blob_buckets,
                buckets,
                canisters_requiring_upgrade: CanistersRequiringUpgrade::from_parts(
                    upgrades_pending,
                    upgrades_in_progress,
                    upgrades_failed,
                ),
                total_cycles_spent_on_canisters,
                test_mode,
            },
        )
    }
}

/// An index that is taken apart and built again is the same index: the snapshot that
/// `into_snapshot` makes of an index is one that `from_snapshot` accepts, and what
/// `from_snapshot` builds of it has the same users, blobs, buckets and upgrades.
pub proof fn lemma_snapshot_round_trip(
    taken_apart: Data,
    snapshot: DataSnapshot,
    restored: Option<Data>,
)
    requires
        snapshot.valid(),
        taken_apart.is_listed_by(snapshot),
        restored is Some <==> snapshot.valid(),
        restored matches Some(data) ==> data.is_listed_by(snapshot),
    ensures
        restored matches Some(data) && data@ == taken_apart@
            && data.canisters_requiring_upgrade@ == taken_apart.canisters_requiring_upgrade@
            && data.bucket_canister_wasm == taken_apart.bucket_canister_wasm
            && data.total_cycles_spent_on_canisters == taken_apart.total_cycles_spent_on_canisters
            && data.test_mode == taken_apart.test_mode,
{
}

} // verus!
