//! The request to delete files, and its answer.

use crate::bucket::data::RuntimeState;
use crate::bucket::files::RemoveFileResult;
use crate::bucket::index_sync_state::{removal_events, EventToSync};
use crate::bucket::model::{
    blobs_in_use, lemma_blob_stored_iff_in_use, lemma_consistent_is_made_of, FileView,
};
use crate::bucket::purge::lemma_blobs_in_use_shrink;
use crate::bucket::removal_log::{
    is_removal_log, lemma_removal_log_concat, lemma_removal_log_empty, lemma_removal_log_single,
};
use crate::collections::vec_set::lemma_prefix_set_grows;
use crate::types::{FileId, FileRemoved, UserId};
use vstd::prelude::*;

verus! {

/// The files to delete.
pub struct Args {
    pub file_ids: Vec<FileId>,
}

/// Why a file was not deleted.
#[derive(Clone, Copy, Debug, PartialEq, Eq)]
pub enum DeleteFileFailureReason {
    NotFound,
    NotAuthorized,
}

/// A file that was not deleted, and why.
#[derive(Clone, Copy, Debug, PartialEq, Eq)]
pub struct DeleteFileFailure {
    pub file_id: FileId,
    pub reason: DeleteFileFailureReason,
}

/// The files that were deleted and those that were not.
pub struct Response {
    pub success: Vec<FileId>,
    pub failures: Vec<DeleteFileFailure>,
}

/// Why the request at position `j` of `ids` fails when `caller` asks, or `None` when it
/// deletes the file: a file that is not there, or that an earlier request of the list has
/// deleted, is not found, and a file of another uploader may not be deleted.
pub open spec fn failure_at(
    files: Map<FileId, FileView>,
    caller: UserId,
    ids: Seq<FileId>,
    j: int,
) -> Option<DeleteFileFailureReason> {
    if !files.contains_key(ids[j]) {
        Some(DeleteFileFailureReason::NotFound)
    } else if files[ids[j]].uploaded_by != caller {
        Some(DeleteFileFailureReason::NotAuthorized)
    } else if ids.subrange(0, j).contains(ids[j]) {
        Some(DeleteFileFailureReason::NotFound)
    } else {
        None
    }
}

/// The files that the first `n` requests of `ids` delete, in the order of the requests.
pub open spec fn deleted_by(
    files: Map<FileId, FileView>,
    caller: UserId,
    ids: Seq<FileId>,
    n: int,
) -> Seq<FileId>
    decreases n,
{
    if n <= 0 {
        Seq::empty()
    } else if failure_at(files, caller, ids, n - 1) is None {
        deleted_by(files, caller, ids, n - 1).push(ids[n - 1])
    } else {
        deleted_by(files, caller, ids, n - 1)
    }
}

/// The failures among the first `n` requests of `ids`, in the order of the requests.
pub open spec fn failed_by(
    files: Map<FileId, FileView>,
    caller: UserId,
    ids: Seq<FileId>,
    n: int,
) -> Seq<DeleteFileFailure>
    decreases n,
{
    if n <= 0 {
        Seq::empty()
    } else {
        match failure_at(files, caller, ids, n - 1) {
            Some(reason) => failed_by(files, caller, ids, n - 1).push(
                DeleteFileFailure { file_id: ids[n - 1], reason },
            ),
            None => failed_by(files, caller, ids, n - 1),
        }
    }
}

/// The files of `files` that `caller` uploaded and `ids` names.
pub open spec fn deletable(files: Map<FileId, FileView>, caller: UserId, ids: Seq<FileId>) -> Set<
    FileId,
> {
    Set::new(
        |file_id: FileId|
            ids.contains(file_id) && files.contains_key(file_id) && files[file_id].uploaded_by
                == caller,
    )
}

/// Deletes the files that the caller names and uploaded.
///
/// The requests are taken in order. A file that the caller uploaded is deleted, with its
/// blob if no other file refers to it, and the event of the deletion joins the queue for the
/// index. A file that is not there is reported as not found, and a file of another uploader
/// as not authorized.
pub fn delete_files_impl(args: Args, runtime_state: &mut RuntimeState) -> (r: Response)
    requires
        old(runtime_state).data.wf(),
    ensures
        final(runtime_state).data.wf(),
        final(runtime_state).env == old(runtime_state).env,
        final(runtime_state).data.index_canister_id == old(runtime_state).data.index_canister_id,
        final(runtime_state).data.created == old(runtime_state).data.created,
        final(runtime_state).data.users == old(runtime_state).data.users,
        r.success@ == deleted_by(
            old(runtime_state).data.files@.files,
            old(runtime_state).env.caller,
            args.file_ids@,
            args.file_ids@.len() as int,
        ),
        r.failures@ == failed_by(
            old(runtime_state).data.files@.files,
            old(runtime_state).env.caller,
            args.file_ids@,
            args.file_ids@.len() as int,
        ),
        final(runtime_state).data.files@ == old(runtime_state).data.files@.keeping(
            old(runtime_state).data.files@.files.remove_keys(
                deletable(
                    old(runtime_state).data.files@.files,
                    old(runtime_state).env.caller,
                    args.file_ids@,
                ),
            ),
        ),
        final(runtime_state).data.index_sync_state@.in_progress == old(
            runtime_state,
        ).data.index_sync_state@.in_progress,
        exists|deletions: Seq<FileRemoved>|
            {
                &&& #[trigger] is_removal_log(
                    old(runtime_state).data.files@.files,
                    deletable(
                        old(runtime_state).data.files@.files,
                        old(runtime_state).env.caller,
                        args.file_ids@,
                    ),
                    deletions,
                )
                &&& deletions.map_values(|d: FileRemoved| d.file_id) == r.success@
                &&& final(runtime_state).data.index_sync_state@.queue == old(
                    runtime_state,
                ).data.index_sync_state@.queue + removal_events(deletions)
            },
{
    let ghost v0 = runtime_state.data.files@;
    let ghost queue0 = runtime_state.data.index_sync_state@.queue;
    let ghost ids = args.file_ids@;
    let caller = runtime_state.env.caller;
    let mut success: Vec<FileId> = Vec::new();
    let mut failures: Vec<DeleteFileFailure> = Vec::new();
    let ghost mut deletions: Seq<FileRemoved> = Seq::empty();
    proof {
        runtime_state.data.files.lemma_consistent();
        lemma_removal_log_empty(v0.files);
        assert(deletable(v0.files, caller, ids.subrange(0, 0)) =~= Set::<FileId>::empty());
        assert(v0.files.remove_keys(Set::<FileId>::empty()) =~= v0.files);
        assert forall|h: crate::types::Hash|
            v0.blobs.contains_key(h) <==> blobs_in_use(v0.blobs, v0.files).contains_key(h) by {
            lemma_blob_stored_iff_in_use(v0, h);
        }
        assert(v0.blobs =~= blobs_in_use(v0.blobs, v0.files));
        assert(deletions.map_values(|d: FileRemoved| d.file_id) =~= success@);
        assert(queue0 + removal_events(deletions) =~= queue0);
    }
    let mut i: usize = 0;
    while i < args.file_ids.len()
        invariant
            i <= ids.len(),
            ids == args.file_ids@,
            caller == old(runtime_state).env.caller,
            v0 == old(runtime_state).data.files@,
            queue0 == old(runtime_state).data.index_sync_state@.queue,
            runtime_state.data.wf(),
            runtime_state.env == old(runtime_state).env,
            runtime_state.data.index_canister_id == old(runtime_state).data.index_canister_id,
            runtime_state.data.created == old(runtime_state).data.created,
            runtime_state.data.users == old(runtime_state).data.users,
            runtime_state.data.index_sync_state@.in_progress == old(
                runtime_state,
            ).data.index_sync_state@.in_progress,
            success@ == deleted_by(v0.files, caller, ids, i as int),
            failures@ == failed_by(v0.files, caller, ids, i as int),
            runtime_state.data.files@.pending_files == v0.pending_files,
            runtime_state.data.files@.files == v0.files.remove_keys(
                deletable(v0.files, caller, ids.subrange(0, i as int)),
            ),
            runtime_state.data.files@.blobs == blobs_in_use(
                v0.blobs,
                runtime_state.data.files@.files,
            ),
            is_removal_log(
                v0.files,
                deletable(v0.files, caller, ids.subrange(0, i as int)),
                deletions,
            ),
            deletions.map_values(|d: FileRemoved| d.file_id) == success@,
            runtime_state.data.index_sync_state@.queue == queue0 + removal_events(deletions),
        decreases ids.len() - i,
    {
        let file_id = args.file_ids[i];
        let ghost cur = runtime_state.data.files@;
        let ghost log = deletions;
        let ghost done = deletable(v0.files, caller, ids.subrange(0, i as int));
        proof {
            lemma_prefix_set_grows(ids, i as int);
            runtime_state.data.files.lemma_consistent();
            assert(ids.subrange(0, i + 1).contains(file_id)) by {
                assert(ids.subrange(0, i + 1)[i as int] == file_id);
            }
            assert forall|f: FileId|
                ids.subrange(0, i + 1).contains(f) <==> ids.subrange(0, i as int).contains(f) || f
                    == file_id by {
                assert(ids.subrange(0, i + 1).to_set().contains(f) <==> ids.subrange(
                    0,
                    i + 1,
                ).contains(f));
                assert(ids.subrange(0, i as int).to_set().contains(f) <==> ids.subrange(
                    0,
                    i as int,
                ).contains(f));
            }
        }
        match runtime_state.data.files.remove(caller, file_id) {
            RemoveFileResult::Success(event) => {
                runtime_state.data.index_sync_state.enqueue(EventToSync::FileRemoved(event));
                success.push(file_id);
                proof {
                    let now = runtime_state.data.files@;
                    deletions = log.push(event);
                    lemma_removal_log_single(cur, file_id);
                    lemma_removal_log_concat(
                        v0.files,
                        done,
                        log,
                        cur.files,
                        set![file_id],
                        seq![event],
                    );
                    assert(deletions =~= log + seq![event]);
                    assert(done.union(set![file_id]) =~= deletable(
                        v0.files,
                        caller,
                        ids.subrange(0, i + 1),
                    ));
                    assert(now.files =~= v0.files.remove_keys(
                        deletable(v0.files, caller, ids.subrange(0, i + 1)),
                    ));
                    assert forall|h: crate::types::Hash|
                        now.blobs.contains_key(h) <==> blobs_in_use(cur.blobs, now.files).contains_key(
                            h,
                        ) by {
                        runtime_state.data.files.lemma_consistent();
                        lemma_blob_stored_iff_in_use(now, h);
                    }
                    assert(now.blobs =~= blobs_in_use(cur.blobs, now.files));
                    lemma_blobs_in_use_shrink(v0.blobs, cur.files, now.files);
                    assert(deletions.map_values(|d: FileRemoved| d.file_id) =~= success@);
                    assert(runtime_state.data.index_sync_state@.queue =~= queue0 + removal_events(
                        deletions,
                    ));
                }
            },
            RemoveFileResult::NotAuthorized => {
                failures.push(
                    DeleteFileFailure { file_id, reason: DeleteFileFailureReason::NotAuthorized },
                );
                proof {
                    assert(done =~= deletable(v0.files, caller, ids.subrange(0, i + 1)));
                }
            },
            RemoveFileResult::NotFound => {
                failures.push(
                    DeleteFileFailure { file_id, reason: DeleteFileFailureReason::NotFound },
                );
                proof {
                    assert(done =~= deletable(v0.files, caller, ids.subrange(0, i + 1)));
                }
            },
        }
        i += 1;
    }
    proof {
        assert(ids.subrange(0, ids.len() as int) =~= ids);
        runtime_state.data.files.lemma_consistent();
        lemma_consistent_is_made_of(runtime_state.data.files@);
    }
    Response { success, failures }
}

} // verus!
