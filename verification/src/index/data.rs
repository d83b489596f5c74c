//! The state of the index and how reports from the buckets change it.

use crate::collections::map_sum::{lemma_sum_insert, lemma_sum_remove, sum_values};
use crate::collections::vec_map::VecMap;
use crate::collections::vec_set::VecSet;
use crate::index::blob_buckets::{
    record_with_user, records_without_reference, user_refers_to, BlobBuckets, BlobRecordView,
};
use crate::index::buckets::{has_bucket, BucketRecordView, Buckets};
use crate::types::{
    BlobReferenceAdded, BlobReferenceRejected, BlobReferenceRejectedReason, BlobReferenceRemoved,
    CanisterId, CanisterWasm, Cycles, Environment, Principal, UserId,
};
use crate::upgrade::CanistersRequiringUpgrade;
use vstd::prelude::*;

verus! {

/// A user's allowance and what is charged to it.
#[derive(Clone, Copy, Debug, PartialEq, Eq)]
pub struct UserRecord {
    pub byte_limit: u64,
    pub bytes_used: u64,
}

/// The model of the index as far as allowances and routing go.
pub struct DataView {
    pub service_principals: Set<Principal>,
    pub users: Map<UserId, UserRecord>,
    pub blob_buckets: Map<crate::types::Hash, BlobRecordView>,
    pub buckets: Seq<BucketRecordView>,
}

impl DataView {
    /// The blobs that are charged to `user_id`, each with its size.
    pub open spec fn charges(self, user_id: UserId) -> Map<crate::types::Hash, nat> {
        Map::new(
            |hash: crate::types::Hash| user_refers_to(self.blob_buckets, user_id, hash),
            |hash: crate::types::Hash| self.blob_buckets[hash].size as nat,
        )
    }

    /// Whether every user is charged the sizes of the blobs that the user refers to, each
    /// once, and nothing else, and only users refer to blobs.
    pub open spec fn accounted(self) -> bool {
        &&& forall|user_id: UserId| #[trigger]
            self.users.contains_key(user_id) ==> self.users[user_id].bytes_used == sum_values(
                self.charges(user_id),
            )
        &&& forall|user_id: UserId, hash: crate::types::Hash| #[trigger]
            user_refers_to(self.blob_buckets, user_id, hash) ==> self.users.contains_key(user_id)
    }

    /// Whether the report `added` charges its user: the user is known, does not refer to the
    /// blob yet and has the allowance for it.
    pub open spec fn charges_reference(self, added: BlobReferenceAdded) -> bool {
        &&& self.users.contains_key(added.uploaded_by)
        &&& !user_refers_to(self.blob_buckets, added.uploaded_by, added.blob_hash)
        &&& self.users[added.uploaded_by].bytes_used + added.blob_size
            <= self.users[added.uploaded_by].byte_limit
    }

    /// What the index answers to the report `added`.
    pub open spec fn add_blob_reference_result(self, added: BlobReferenceAdded) -> Result<
        (),
        BlobReferenceRejected,
    > {
        if !self.users.contains_key(added.uploaded_by) {
            Err(
                BlobReferenceRejected {
                    blob_id: added.blob_id,
                    reason: BlobReferenceRejectedReason::UserNotFound,
                },
            )
        } else if user_refers_to(self.blob_buckets, added.uploaded_by, added.blob_hash) {
            Ok(())
        } else if self.users[added.uploaded_by].bytes_used + added.blob_size
            > self.users[added.uploaded_by].byte_limit {
            Err(
                BlobReferenceRejected {
                    blob_id: added.blob_id,
                    reason: BlobReferenceRejectedReason::AllowanceReached,
                },
            )
        } else {
            Ok(())
        }
    }

    /// The index after the report `added` from `bucket`.
    pub open spec fn add_blob_reference(
        self,
        bucket: CanisterId,
        added: BlobReferenceAdded,
    ) -> DataView {
        if self.charges_reference(added) {
            DataView {
                users: self.users.insert(
                    added.uploaded_by,
                    UserRecord {
                        bytes_used: (self.users[added.uploaded_by].bytes_used
                            + added.blob_size) as u64,
                        ..self.users[added.uploaded_by]
                    },
                ),
                blob_buckets: self.blob_buckets.insert(
                    added.blob_hash,
                    record_with_user(
                        self.blob_buckets,
                        added.blob_hash,
                        added.blob_size,
                        bucket,
                        added.uploaded_by,
                    ),
                ),
                ..self
            }
        } else {
            self
        }
    }

    /// Whether the report `removed` releases a reference that is recorded.
    pub open spec fn releases_reference(self, removed: BlobReferenceRemoved) -> bool {
        user_refers_to(self.blob_buckets, removed.uploaded_by, removed.blob_hash)
    }

    /// Whether the size of the blob of `removed` can be taken off what its user is charged.
    pub open spec fn can_refund(self, removed: BlobReferenceRemoved) -> bool {
        self.releases_reference(removed) && self.users.contains_key(removed.uploaded_by)
            ==> self.users[removed.uploaded_by].bytes_used
            >= self.blob_buckets[removed.blob_hash].size
    }

    /// The index after the report `removed`.
    pub open spec fn remove_blob_reference(self, removed: BlobReferenceRemoved) -> DataView {
        if self.releases_reference(removed) {
            DataView {
                users: if self.users.contains_key(removed.uploaded_by) {
                    self.users.insert(
                        removed.uploaded_by,
                        UserRecord {
                            bytes_used: (self.users[removed.uploaded_by].bytes_used
                                - self.blob_buckets[removed.blob_hash].size) as u64,
                            ..self.users[removed.uploaded_by]
                        },
                    )
                } else {
                    self.users
                },
                blob_buckets: records_without_reference(
                    self.blob_buckets,
                    removed.blob_hash,
                    removed.uploaded_by,
                    removed.blob_deleted,
                ),
                ..self
            }
        } else {
            self
        }
    }
}

/// A report that charges its user keeps the accounts right, provided that it gives the blob
/// the size under which the blob is recorded, if it is recorded.
pub proof fn lemma_add_keeps_accounts(v: DataView, bucket: CanisterId, added: BlobReferenceAdded)
    requires
        v.accounted(),
        v.blob_buckets.dom().finite(),
        v.blob_buckets.contains_key(added.blob_hash) ==> v.blob_buckets[added.blob_hash].size
            == added.blob_size,
    ensures
        v.add_blob_reference(bucket, added).accounted(),
{
    let w = v.add_blob_reference(bucket, added);
    if v.charges_reference(added) {
        let user = added.uploaded_by;
        let hash = added.blob_hash;
        assert forall|u: UserId| #[trigger] w.users.contains_key(u) implies w.users[u].bytes_used
            == sum_values(w.charges(u)) by {
            assert(v.users.contains_key(u));
            assert(v.charges(u).dom().subset_of(v.blob_buckets.dom()));
            vstd::set_lib::lemma_len_subset(v.charges(u).dom(), v.blob_buckets.dom());
            if u == user {
                assert(w.charges(u) =~= v.charges(u).insert(hash, added.blob_size as nat));
                lemma_sum_insert(v.charges(u), hash, added.blob_size as nat);
            } else {
                assert(w.charges(u) =~= v.charges(u));
            }
        }
        assert forall|u: UserId, h: crate::types::Hash| #[trigger]
            user_refers_to(w.blob_buckets, u, h) implies w.users.contains_key(u) by {
            if !(u == user && h == hash) {
                assert(user_refers_to(v.blob_buckets, u, h));
            }
        }
    }
}

/// A report that releases a reference keeps the accounts right, provided that a blob that
/// was deleted had no other user.
pub proof fn lemma_remove_keeps_accounts(v: DataView, removed: BlobReferenceRemoved)
    requires
        v.accounted(),
        v.blob_buckets.dom().finite(),
        v.can_refund(removed),
        removed.blob_deleted && v.releases_reference(removed) ==> v.blob_buckets[removed.blob_hash].users.remove(
            removed.uploaded_by,
        ) == Set::<UserId>::empty(),
    ensures
        v.remove_blob_reference(removed).accounted(),
{
    let w = v.remove_blob_reference(removed);
    if v.releases_reference(removed) {
        let user = removed.uploaded_by;
        let hash = removed.blob_hash;
        let others = v.blob_buckets[hash].users.remove(user);
        assert forall|u: UserId| #[trigger] w.users.contains_key(u) implies w.users[u].bytes_used
            == sum_values(w.charges(u)) by {
            assert(v.users.contains_key(u));
            assert(v.charges(u).dom().subset_of(v.blob_buckets.dom()));
            vstd::set_lib::lemma_len_subset(v.charges(u).dom(), v.blob_buckets.dom());
            if u == user {
                assert(w.charges(u) =~= v.charges(u).remove(hash));
                lemma_sum_remove(v.charges(u), hash);
            } else {
                if v.blob_buckets[hash].users.contains(u) {
                    assert(others.contains(u));
                }
                assert(w.charges(u) =~= v.charges(u));
            }
        }
        assert forall|u: UserId, h: crate::types::Hash| #[trigger]
            user_refers_to(w.blob_buckets, u, h) implies w.users.contains_key(u) by {
            assert(user_refers_to(v.blob_buckets, u, h));
        }
    }
}

/// A user whose accounts are right is charged at least the size of each blob that the user
/// refers to, so that a reference can always be refunded.
pub proof fn lemma_accounted_can_refund(v: DataView, removed: BlobReferenceRemoved)
    requires
        v.accounted(),
        v.blob_buckets.dom().finite(),
    ensures
        v.can_refund(removed),
{
    let user = removed.uploaded_by;
    if v.releases_reference(removed) && v.users.contains_key(user) {
        assert(v.charges(user).dom().subset_of(v.blob_buckets.dom()));
        vstd::set_lib::lemma_len_subset(v.charges(user).dom(), v.blob_buckets.dom());
        lemma_sum_remove(v.charges(user), removed.blob_hash);
    }
}

/// The same report delivered twice charges its user once: the second delivery is accepted
/// and changes nothing.
pub proof fn lemma_add_twice_charges_once(
    v: DataView,
    bucket: CanisterId,
    again_from: CanisterId,
    added: BlobReferenceAdded,
)
    requires
        v.add_blob_reference_result(added) is Ok,
    ensures
        v.add_blob_reference(bucket, added).add_blob_reference_result(added) is Ok,
        v.add_blob_reference(bucket, added).add_blob_reference(again_from, added)
            == v.add_blob_reference(bucket, added),
{
    let w = v.add_blob_reference(bucket, added);
    assert(user_refers_to(w.blob_buckets, added.uploaded_by, added.blob_hash));
}

/// A release delivered twice refunds its user once: the second delivery changes nothing.
pub proof fn lemma_remove_twice_refunds_once(v: DataView, removed: BlobReferenceRemoved)
    ensures
        v.remove_blob_reference(removed).remove_blob_reference(removed)
            == v.remove_blob_reference(removed),
{
    let w = v.remove_blob_reference(removed);
    assert(!user_refers_to(w.blob_buckets, removed.uploaded_by, removed.blob_hash));
}

/// The state of the index.
pub struct Data {
    pub service_principals: VecSet<Principal>,
    pub bucket_canister_wasm: CanisterWasm,
    pub users: VecMap<UserId, UserRecord>,
    pub blob_buckets: BlobBuckets,
    pub buckets: Buckets,
    pub canisters_requiring_upgrade: CanistersRequiringUpgrade,
    pub total_cycles_spent_on_canisters: Cycles,
    pub test_mode: bool,
}

impl View for Data {
    type V = DataView;

    open spec fn view(&self) -> DataView {
        DataView {
            service_principals: self.service_principals@,
            users: self.users@,
            blob_buckets: self.blob_buckets@,
            buckets: self.buckets@,
        }
    }
}

impl Data {
    /// The containers are sound.
    pub open spec fn wf(&self) -> bool {
        &&& self.service_principals.wf()
        &&& self.users.wf()
        &&& self.blob_buckets.wf()
        &&& self.buckets.wf()
        &&& self.canisters_requiring_upgrade.wf()
    }

    /// The index of a new deployment: the given service principals and bucket code, no user,
    /// no blob and no bucket.
    pub fn new(
        service_principals: Vec<Principal>,
        bucket_canister_wasm: CanisterWasm,
        test_mode: bool,
    ) -> (data: Data)
        ensures
            data.wf(),
            data@ == (DataView {
                service_principals: service_principals@.to_set(),
                users: Map::empty(),
                blob_buckets: Map::empty(),
                buckets: Seq::empty(),
            }),
            data@.accounted(),
            data.bucket_canister_wasm == bucket_canister_wasm,
            data.total_cycles_spent_on_canisters == 0,
            data.test_mode == test_mode,
    {
        Data {
            service_principals: VecSet::from_vec(&service_principals),
            bucket_canister_wasm,
            users: VecMap::new(),
            blob_buckets: BlobBuckets::new(),
            buckets: Buckets::new(),
            canisters_requiring_upgrade: CanistersRequiringUpgrade::new(),
            total_cycles_spent_on_canisters: 0,
            test_mode,
        }
    }

    /// Takes the report that a user refers to a blob in `bucket`.
    ///
    /// A report for an unknown user is rejected. A report for a blob that the user refers to
    /// already is accepted and changes nothing. Otherwise the size of the blob is charged to
    /// the user, unless it would take the user above the limit, in which case the report is
    /// rejected; a blob that the index did not know is recorded with its size in `bucket`.
    pub fn add_blob_reference(&mut self, bucket: CanisterId, br_added: BlobReferenceAdded) -> (r:
        Result<(), BlobReferenceRejected>)
        requires
            old(self).wf(),
        ensures
            final(self).wf(),
            r == old(self)@.add_blob_reference_result(br_added),
            final(self)@ == old(self)@.add_blob_reference(bucket, br_added),
            old(self)@.accounted() && (old(self)@.blob_buckets.contains_key(br_added.blob_hash)
                ==> old(self)@.blob_buckets[br_added.blob_hash].size == br_added.blob_size)
                ==> final(self)@.accounted(),
    {
        proof {
            self.blob_buckets.lemma_view();
            if old(self)@.accounted() && (old(self)@.blob_buckets.contains_key(br_added.blob_hash)
                ==> old(self)@.blob_buckets[br_added.blob_hash].size == br_added.blob_size) {
                lemma_add_keeps_accounts(old(self)@, bucket, br_added);
            }
        }
        let user = match self.users.get(&br_added.uploaded_by) {
            None => {
                return Err(
                    BlobReferenceRejected {
                        blob_id: br_added.blob_id,
                        reason: BlobReferenceRejectedReason::UserNotFound,
                    },
                );
            },
            Some(user) => *user,
        };
        if self.blob_buckets.user_owns_blob(&br_added.uploaded_by, &br_added.blob_hash) {
            return Ok(());
        }
        if user.bytes_used > user.byte_limit || br_added.blob_size > user.byte_limit
            - user.bytes_used {
            return Err(
                BlobReferenceRejected {
                    blob_id: br_added.blob_id,
                    reason: BlobReferenceRejectedReason::AllowanceReached,
                },
            );
        }
        self.users.insert(
            br_added.uploaded_by,
            UserRecord {
                byte_limit: user.byte_limit,
                bytes_used: user.bytes_used + br_added.blob_size,
            },
        );
        self.blob_buckets.add(
            br_added.blob_hash,
            br_added.blob_size,
            bucket,
            br_added.uploaded_by,
        );
        Ok(())
    }

    /// Takes the report that a user no longer refers to a blob.
    ///
    /// A report for a reference that is not recorded changes nothing. Otherwise the size
    /// under which the blob is recorded is taken off what the user is charged, the user no
    /// longer refers to the blob, and the record of the blob goes if the bucket has deleted
    /// the bytes or no user is left.
    pub fn remove_blob_reference(&mut self, bucket: CanisterId, br_removed: BlobReferenceRemoved)
        requires
            old(self).wf(),
            old(self)@.can_refund(br_removed),
        ensures
            final(self).wf(),
            final(self)@ == old(self)@.remove_blob_reference(br_removed),
            old(self)@.accounted() && (br_removed.blob_deleted && old(self)@.releases_reference(
                br_removed,
            ) ==> old(self)@.blob_buckets[br_removed.blob_hash].users.remove(
                br_removed.uploaded_by,
            ) == Set::<UserId>::empty()) ==> final(self)@.accounted(),
    {
        proof {
            self.blob_buckets.lemma_view();
            if old(self)@.accounted() && (br_removed.blob_deleted && old(
                self,
            )@.releases_reference(br_removed) ==> old(
                self,
            )@.blob_buckets[br_removed.blob_hash].users.remove(br_removed.uploaded_by) == Set::<
                UserId,
            >::empty()) {
                lemma_remove_keeps_accounts(old(self)@, br_removed);
            }
        }
        let blob_size = self.blob_buckets.remove(
            br_removed.blob_hash,
            br_removed.uploaded_by,
            br_removed.blob_deleted,
        );
        match blob_size {
            None => {},
            Some(blob_size) => {
                let user = match self.users.get(&br_removed.uploaded_by) {
                    None => None,
                    Some(user) => Some(*user),
                };
                match user {
                    None => {},
                    Some(user) => {
                        self.users.insert(
                            br_removed.uploaded_by,
                            UserRecord {
                                byte_limit: user.byte_limit,
                                bytes_used: user.bytes_used - blob_size,
                            },
                        );
                    },
                }
            },
        }
    }
}

/// The state of the index together with what the host tells of the request at hand.
pub struct RuntimeState {
    pub env: Environment,
    pub data: Data,
}

impl RuntimeState {
    /// The state `data` as seen in a request described by `env`.
    pub fn new(env: Environment, data: Data) -> (state: RuntimeState)
        ensures
            state.env == env,
            state.data == data,
    {
        RuntimeState { env, data }
    }

    /// Whether the caller is one of the service principals.
    pub fn is_caller_service_principal(&self) -> (r: bool)
        ensures
            r == self.data@.service_principals.contains(self.env.caller),
    {
        let caller = self.env.caller;
        self.data.service_principals.contains(&caller)
    }

    /// Whether the caller is one of the buckets that the index knows.
    pub fn is_caller_bucket(&self) -> (r: bool)
        ensures
            r == has_bucket(self.data@.buckets, self.env.caller),
    {
        let caller = self.env.caller;
        self.data.buckets.get(&caller).is_some()
    }
}

} // verus!
