//! The request to upload a chunk.

use crate::bucket::data::RuntimeState;
use crate::bucket::files::{PutChunkResult, PutChunkResultSuccess};
use crate::bucket::index_sync_state::EventToSync;
use crate::bucket::model::FilesView;
use crate::bucket::pending_file::{PutChunkArgs, UploadChunkArgs};
use crate::hasher::digest;
use crate::types::FileAdded;
use vstd::prelude::*;

verus! {

impl FilesView {
    /// The events that a chunk owes the index: the event that tells of the upload when the
    /// chunk opens it and is accepted with the whole upload, and none otherwise.
    pub open spec fn upload_events(self, args: PutChunkArgs, actual_hash: crate::types::Hash) -> Seq<
        EventToSync,
    > {
        match self.put_chunk_result(args, actual_hash) {
            PutChunkResult::Success(
                PutChunkResultSuccess { file_added: Some(event), .. },
            ) => seq![EventToSync::FileAdded(event)],
            _ => Seq::empty(),
        }
    }
}

/// Takes a chunk from the caller.
///
/// A caller that is not a user of the bucket is turned away: `None`, and nothing changes.
/// The chunk of a user goes to the content store in the user's name and at the time of the
/// request, and the event that an accepted first chunk carries joins the queue for the
/// index.
pub fn upload_chunk_impl(args: UploadChunkArgs, runtime_state: &mut RuntimeState) -> (r: Option<
    PutChunkResult,
>)
    requires
        old(runtime_state).data.wf(),
        old(runtime_state).data.files@.files.dom().len() < u32::MAX,
    ensures
        final(runtime_state).data.wf(),
        final(runtime_state).env == old(runtime_state).env,
        final(runtime_state).data.index_canister_id == old(runtime_state).data.index_canister_id,
        final(runtime_state).data.created == old(runtime_state).data.created,
        final(runtime_state).data.users == old(runtime_state).data.users,
        final(runtime_state).data.index_sync_state@.in_progress == old(
            runtime_state,
        ).data.index_sync_state@.in_progress,
        ({
            let env = old(runtime_state).env;
            let v = old(runtime_state).data.files@;
            let w = final(runtime_state).data.files@;
            let put = PutChunkArgs::of(env.caller, args, env.now);
            let hash = digest(v.pending_after(put).bytes);
            let queue = old(runtime_state).data.index_sync_state@.queue;
            if old(runtime_state).data.users@.contains(env.caller) {
                &&& r == Some(v.put_chunk_result(put, hash))
                &&& w == v.after_put_chunk(put, hash)
                &&& final(runtime_state).data.index_sync_state@.queue == queue + v.upload_events(
                    put,
                    hash,
                )
            } else {
                &&& r is None
                &&& w == v
                &&& final(runtime_state).data.index_sync_state@.queue == queue
            }
        }),
{
    let caller = runtime_state.env.caller;
    let now = runtime_state.env.now;
    if !runtime_state.data.users.contains(&caller) {
        return None;
    }
    let ghost queue = runtime_state.data.index_sync_state@.queue;
    let result = runtime_state.data.files.put_chunk(PutChunkArgs::new(caller, args, now));
    match result {
        PutChunkResult::Success(success) => {
            match success.file_added {
                Some(event) => {
                    runtime_state.data.index_sync_state.enqueue(EventToSync::FileAdded(event));
                    proof {
                        assert(runtime_state.data.index_sync_state@.queue =~= queue
                            + seq![EventToSync::FileAdded(event)]);
                    }
                },
                None => {
                    proof {
                        assert(queue + Seq::<EventToSync>::empty() =~= queue);
                    }
                },
            }
        },
        _ => {
            proof {
                assert(queue + Seq::<EventToSync>::empty() =~= queue);
            }
        },
    }
    Some(result)
}

} // verus!
