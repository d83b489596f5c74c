//! What a bucket owes the index.

use crate::sync::SyncQueue;
use crate::types::{FileAdded, FileRemoved};
use vstd::prelude::*;

verus! {

/// A change of the files of a bucket that the index must hear of.
#[derive(Clone, Copy, Debug, PartialEq, Eq)]
pub enum EventToSync {
    FileAdded(FileAdded),
    FileRemoved(FileRemoved),
}

/// The events that wait for the index, oldest first.
pub type IndexSyncState = SyncQueue<EventToSync>;

/// The events that tell the index of the deletions `removed`, in the same order.
pub open spec fn removal_events(removed: Seq<FileRemoved>) -> Seq<EventToSync> {
    removed.map_values(|r: FileRemoved| EventToSync::FileRemoved(r))
}

} // verus!
