//! What the index owes one bucket.

use crate::sync::SyncQueue;
use crate::types::{AccessorId, UserId};
use vstd::prelude::*;

verus! {

/// A change of membership that a bucket must hear of.
#[derive(Clone, Copy, Debug, PartialEq, Eq)]
pub enum EventToSync {
    UserAdded(UserId),
    UserRemoved(UserId),
    AccessorRemoved(AccessorId),
}

/// The events that wait for one bucket, oldest first.
pub type BucketSyncState = SyncQueue<EventToSync>;

} // verus!
