//! The state of a bucket.

use crate::bucket::files::Files;
use crate::bucket::index_sync_state::{EventToSync, IndexSyncState};
use crate::bucket::model::FilesView;
use crate::collections::vec_set::VecSet;
use crate::sync::{SyncQueue, SyncQueueView};
use crate::types::{CanisterId, Environment, Key, TimestampMillis, UserId};
use vstd::prelude::*;

verus! {

/// The state of a bucket: the index it answers to, the users that may upload, the content
/// store and the events that the index has not heard of yet.
pub struct Data {
    pub index_canister_id: CanisterId,
    pub users: VecSet<UserId>,
    pub files: Files,
    pub index_sync_state: IndexSyncState,
    pub created: TimestampMillis,
}

impl Data {
    /// The set of users and the content store are sound.
    pub open spec fn wf(&self) -> bool {
        self.users.wf() && self.files.wf()
    }

    /// The bucket of the index `index_canister_id`, created at `now`: no user, no file, no
    /// event.
    pub fn new(index_canister_id: CanisterId, now: TimestampMillis) -> (data: Data)
        ensures
            data.wf(),
            data.index_canister_id == index_canister_id,
            data.created == now,
            data.users@ == Set::<UserId>::empty(),
            data.files@ == FilesView::empty(),
            data.index_sync_state@ == (SyncQueueView {
                queue: Seq::<EventToSync>::empty(),
                in_progress: false,
            }),
    {
        Data {
            index_canister_id,
            users: VecSet::new(),
            files: Files::new(),
            index_sync_state: SyncQueue::new(),
            created: now,
        }
    }
}

/// The state of a bucket together with what the host tells of the request at hand.
pub struct RuntimeState {
    pub env: Environment,
    pub data: Data,
}

impl RuntimeState {
    /// The state `data` as seen in a request described by `env`.
    pub fn new(env: Environment, data: Data) -> (state: RuntimeState)
        ensures
            state.env == env,
            state.data == data,
    {
        RuntimeState { env, data }
    }

    /// Whether the caller is the index that the bucket answers to.
    pub fn is_caller_index_canister(&self) -> (r: bool)
        ensures
            r == (self.env.caller == self.data.index_canister_id),
    {
        self.env.caller.same(&self.data.index_canister_id)
    }

    /// Whether the caller is a user that may upload.
    pub fn is_caller_known_user(&self) -> (r: bool)
        ensures
            r == self.data.users@.contains(self.env.caller),
    {
        self.data.users.contains(&self.env.caller)
    }
}

} // verus!
