//! What the index tells a bucket: users that joined, users that left and accessors that
//! were revoked.

use crate::bucket::data::RuntimeState;
use crate::bucket::index_sync_state::{removal_events, EventToSync};
use crate::bucket::model::{
    blobs_in_use, lemma_blob_stored_iff_in_use, lemma_consistent_is_made_of, FileView,
};
use crate::bucket::purge::{
    after_purge, gone, lemma_blobs_in_use_shrink, lemma_purge_nothing,
    lemma_purge_one_more_accessor, lemma_purge_one_more_user, uploads_of,
};
use crate::bucket::removal_log::{
    is_removal_log, lemma_removal_log_concat, lemma_removal_log_empty,
};
use crate::collections::vec_set::lemma_prefix_set_grows;
use crate::sync::MAX_EVENTS_TO_SYNC_PER_BATCH;
use crate::types::{AccessorId, FileId, FileRemoved, UserId};
use vstd::prelude::*;

verus! {

/// The changes of membership since the last batch.
pub struct Args {
    pub users_added: Vec<UserId>,
    pub users_removed: Vec<UserId>,
    pub accessors_removed: Vec<AccessorId>,
}

/// The deletions that the changes brought about, as far as one answer holds them.
pub struct SuccessResult {
    pub files_removed: Vec<FileRemoved>,
}

/// The answer of a bucket to a batch.
pub enum Response {
    Success(SuccessResult),
}

impl Args {
    /// The users that leave and were users when they left: those named as removed that were
    /// users before or are named as added.
    pub open spec fn leaving(self, users: Set<UserId>) -> Set<UserId> {
        self.users_removed@.to_set().intersect(users.union(self.users_added@.to_set()))
    }

    /// The users once the batch is taken: those before and those added, but for those
    /// removed.
    pub open spec fn users_after(self, users: Set<UserId>) -> Set<UserId> {
        users.union(self.users_added@.to_set()).difference(self.users_removed@.to_set())
    }

    /// The files once the batch is taken: the uploads of the users that leave are deleted, as
    /// are the files whose accessors are all revoked; the others no longer name a revoked
    /// accessor.
    pub open spec fn files_after(self, users: Set<UserId>, files: Map<FileId, FileView>) -> Map<
        FileId,
        FileView,
    > {
        after_purge(files, self.leaving(users), self.accessors_removed@.to_set())
    }
}

/// The number of deletions that go into the answer.
pub open spec fn answered(deletions: int) -> int {
    if deletions > MAX_EVENTS_TO_SYNC_PER_BATCH {
        MAX_EVENTS_TO_SYNC_PER_BATCH as int
    } else {
        deletions
    }
}

/// Whether `after` and `response` are what a batch `args` from the index makes of `before`.
///
/// The users added have joined the users of the bucket and the users removed have left
/// them. Every file that a leaving user uploaded is deleted, no file names a revoked
/// accessor, and a file that named only revoked accessors is deleted. Blobs that no file
/// refers to any more are dropped. The answer lists the deletions, at most
/// `MAX_EVENTS_TO_SYNC_PER_BATCH` of them, and the rest has joined the queue of events for
/// the index.
pub open spec fn batch_taken(
    before: RuntimeState,
    args: Args,
    after: RuntimeState,
    response: Response,
) -> bool {
    &&& after.env == before.env
    &&& after.data.index_canister_id == before.data.index_canister_id
    &&& after.data.created == before.data.created
    &&& after.data.users@ == args.users_after(before.data.users@)
    &&& after.data.files@ == before.data.files@.keeping(
        args.files_after(before.data.users@, before.data.files@.files),
    )
    &&& after.data.index_sync_state@.in_progress == before.data.index_sync_state@.in_progress
    &&& response matches Response::Success(result) && exists|deletions: Seq<FileRemoved>|
        {
            &&& #[trigger] is_removal_log(
                before.data.files@.files,
                gone(before.data.files@.files, after.data.files@.files),
                deletions,
            )
            &&& result.files_removed@ == deletions.subrange(0, answered(deletions.len() as int))
            &&& after.data.index_sync_state@.queue == before.data.index_sync_state@.queue
                + removal_events(
                deletions.subrange(answered(deletions.len() as int), deletions.len() as int),
            )
        }
}

/// Takes a batch from the caller, if the caller is the index of the bucket. Any other caller
/// is turned away: `None`, and nothing changes.
pub fn c2c_sync_index(args: Args, runtime_state: &mut RuntimeState) -> (r: Option<Response>)
    requires
        old(runtime_state).data.wf(),
    ensures
        final(runtime_state).data.wf(),
        match r {
            Some(response) => old(runtime_state).env.caller == old(
                runtime_state,
            ).data.index_canister_id && batch_taken(
                *old(runtime_state),
                args,
                *final(runtime_state),
                response,
            ),
            None => old(runtime_state).env.caller != old(runtime_state).data.index_canister_id
                && *final(runtime_state) == *old(runtime_state),
        },
{
    if runtime_state.is_caller_index_canister() {
        Some(c2c_sync_index_impl(args, runtime_state))
    } else {
        None
    }
}

/// Takes a batch from the index.
///
/// The users added join the users of the bucket. Each user removed leaves them, and every
/// file that such a user uploaded is deleted. Each accessor removed is revoked: no file
/// names it any more, and a file that named only revoked accessors is deleted. Blobs that no
/// file refers to any more are dropped. The answer lists the deletions, at most
/// `MAX_EVENTS_TO_SYNC_PER_BATCH` of them; the rest joins the queue of events for the index.
pub fn c2c_sync_index_impl(args: Args, runtime_state: &mut RuntimeState) -> (r: Response)
    requires
        old(runtime_state).data.wf(),
    ensures
        final(runtime_state).data.wf(),
        batch_taken(*old(runtime_state), args, *final(runtime_state), r),
{
    let ghost users0 = runtime_state.data.users@;
    let ghost v0 = runtime_state.data.files@;
    let Args { users_added, users_removed, accessors_removed } = args;
    let ghost added = users_added@.to_set();
    let ghost args0 = Args { users_added, users_removed, accessors_removed };

    let mut i: usize = 0;
    while i < users_added.len()
        invariant
            i <= users_added@.len(),
            runtime_state.data.wf(),
            runtime_state.env == old(runtime_state).env,
            runtime_state.data.index_canister_id == old(runtime_state).data.index_canister_id,
            runtime_state.data.created == old(runtime_state).data.created,
            runtime_state.data.files == old(runtime_state).data.files,
            runtime_state.data.index_sync_state == old(runtime_state).data.index_sync_state,
            runtime_state.data.users@ == users0.union(
                users_added@.subrange(0, i as int).to_set(),
            ),
        decreases users_added@.len() - i,
    {
        proof {
            lemma_prefix_set_grows(users_added@, i as int);
        }
        runtime_state.data.users.insert(users_added[i]);
        proof {
            assert(runtime_state.data.users@ =~= users0.union(
                users_added@.subrange(0, i + 1).to_set(),
            ));
        }
        i += 1;
    }
    let ghost users1 = users0.union(added);
    proof {
        assert(users_added@.subrange(0, users_added@.len() as int) =~= users_added@);
        runtime_state.data.files.lemma_consistent();
        lemma_purge_nothing(v0.files);
        lemma_removal_log_empty(v0.files);
        assert(gone(v0.files, v0.files) =~= Set::<FileId>::empty());
        assert(users_removed@.subrange(0, 0).to_set() =~= Set::<UserId>::empty());
        assert(Set::<UserId>::empty().intersect(users1) =~= Set::<UserId>::empty());
        assert(users1.difference(Set::<UserId>::empty()) =~= users1);
        assert forall|h: crate::types::Hash|
            v0.blobs.contains_key(h) <==> blobs_in_use(v0.blobs, v0.files).contains_key(h) by {
            lemma_blob_stored_iff_in_use(v0, h);
        }
        assert(v0.blobs =~= blobs_in_use(v0.blobs, v0.files));
    }

    let mut files_removed: Vec<FileRemoved> = Vec::new();
    let mut j: usize = 0;
    while j < users_removed.len()
        invariant
            j <= users_removed@.len(),
            users1 == users0.union(added),
            v0 == old(runtime_state).data.files@,
            runtime_state.data.wf(),
            runtime_state.env == old(runtime_state).env,
            runtime_state.data.index_canister_id == old(runtime_state).data.index_canister_id,
            runtime_state.data.created == old(runtime_state).data.created,
            runtime_state.data.index_sync_state == old(runtime_state).data.index_sync_state,
            runtime_state.data.users@ == users1.difference(
                users_removed@.subrange(0, j as int).to_set(),
            ),
            runtime_state.data.files@.pending_files == v0.pending_files,
            runtime_state.data.files@.files == after_purge(
                v0.files,
                users_removed@.subrange(0, j as int).to_set().intersect(users1),
                Set::empty(),
            ),
            runtime_state.data.files@.blobs == blobs_in_use(
                v0.blobs,
                runtime_state.data.files@.files,
            ),
            is_removal_log(
                v0.files,
                gone(v0.files, runtime_state.data.files@.files),
                files_removed@,
            ),
        decreases users_removed@.len() - j,
    {
        let user_id = users_removed[j];
        let ghost cur = runtime_state.data.files@;
        let ghost log = files_removed@;
        let ghost left = users_removed@.subrange(0, j as int).to_set().intersect(users1);
        let ghost users_cur = runtime_state.data.users@;
        proof {
            lemma_prefix_set_grows(users_removed@, j as int);
        }
        let was_user = runtime_state.data.users.remove(&user_id);
        proof {
            assert(runtime_state.data.users@ =~= users1.difference(
                users_removed@.subrange(0, j + 1).to_set(),
            ));
        }
        if was_user {
            let mut more = runtime_state.data.files.remove_user_files(user_id);
            let ghost log2 = more@;
            files_removed.append(&mut more);
            proof {
                let now = runtime_state.data.files@;
                lemma_purge_one_more_user(v0.files, left, Set::empty(), user_id);
                assert(users_removed@.subrange(0, j + 1).to_set().intersect(users1)
                    =~= left.insert(user_id));
                lemma_removal_log_concat(
                    v0.files,
                    gone(v0.files, cur.files),
                    log,
                    cur.files,
                    uploads_of(cur.files, user_id),
                    log2,
                );
                assert(gone(v0.files, cur.files).union(uploads_of(cur.files, user_id)) =~= gone(
                    v0.files,
                    now.files,
                ));
                lemma_blobs_in_use_shrink(v0.blobs, cur.files, now.files);
            }
        } else {
            proof {
                assert(users_removed@.subrange(0, j + 1).to_set().intersect(users1) =~= left);
            }
        }
        j += 1;
    }
    let ghost leaving = users_removed@.to_set().intersect(users1);
    proof {
        assert(users_removed@.subrange(0, users_removed@.len() as int) =~= users_removed@);
        assert(accessors_removed@.subrange(0, 0).to_set() =~= Set::<AccessorId>::empty());
    }

    let mut k: usize = 0;
    while k < accessors_removed.len()
        invariant
            k <= accessors_removed@.len(),
            v0 == old(runtime_state).data.files@,
            runtime_state.data.wf(),
            runtime_state.env == old(runtime_state).env,
            runtime_state.data.index_canister_id == old(runtime_state).data.index_canister_id,
            runtime_state.data.created == old(runtime_state).data.created,
            runtime_state.data.index_sync_state == old(runtime_state).data.index_sync_state,
            runtime_state.data.users@ == users1.difference(users_removed@.to_set()),
            runtime_state.data.files@.pending_files == v0.pending_files,
            runtime_state.data.files@.files == after_purge(
                v0.files,
                leaving,
                accessors_removed@.subrange(0, k as int).to_set(),
            ),
            runtime_state.data.files@.blobs == blobs_in_use(
                v0.blobs,
                runtime_state.data.files@.files,
            ),
            is_removal_log(
                v0.files,
                gone(v0.files, runtime_state.data.files@.files),
                files_removed@,
            ),
        decreases accessors_removed@.len() - k,
    {
        let accessor_id = accessors_removed[k];
        let ghost cur = runtime_state.data.files@;
        let ghost log = files_removed@;
        let ghost revoked = accessors_removed@.subrange(0, k as int).to_set();
        proof {
            lemma_prefix_set_grows(accessors_removed@, k as int);
        }
        let mut more = runtime_state.data.files.remove_accessor(&accessor_id);
        let ghost log2 = more@;
        files_removed.append(&mut more);
        proof {
            let now = runtime_state.data.files@;
            lemma_purge_one_more_accessor(cur, v0.files, leaving, revoked, accessor_id);
            lemma_removal_log_concat(
                v0.files,
                gone(v0.files, cur.files),
                log,
                cur.files,
                cur.orphans_of(accessor_id),
                log2,
            );
            assert(gone(v0.files, cur.files).union(cur.orphans_of(accessor_id)) =~= gone(
                v0.files,
                now.files,
            ));
            lemma_blobs_in_use_shrink(v0.blobs, cur.files, now.files);
        }
        k += 1;
    }
    proof {
        assert(accessors_removed@.subrange(0, accessors_removed@.len() as int)
            =~= accessors_removed@);
    }

    let ghost deletions = files_removed@;
    let ghost queue0 = runtime_state.data.index_sync_state@.queue;
    if files_removed.len() > MAX_EVENTS_TO_SYNC_PER_BATCH {
        let excess = files_removed.split_off(MAX_EVENTS_TO_SYNC_PER_BATCH);
        let mut e: usize = 0;
        while e < excess.len()
            invariant
                e <= excess@.len(),
                runtime_state.data.wf(),
                runtime_state.env == old(runtime_state).env,
                runtime_state.data.index_canister_id == old(runtime_state).data.index_canister_id,
                runtime_state.data.created == old(runtime_state).data.created,
                runtime_state.data.users@ == users1.difference(users_removed@.to_set()),
                runtime_state.data.files@.pending_files == v0.pending_files,
                runtime_state.data.files@.files == after_purge(
                    v0.files,
                    leaving,
                    accessors_removed@.to_set(),
                ),
                runtime_state.data.files@.blobs == blobs_in_use(
                    v0.blobs,
                    runtime_state.data.files@.files,
                ),
                runtime_state.data.index_sync_state@.in_progress == old(
                    runtime_state,
                ).data.index_sync_state@.in_progress,
                runtime_state.data.index_sync_state@.queue == queue0 + removal_events(
                    excess@.subrange(0, e as int),
                ),
            decreases excess@.len() - e,
        {
            runtime_state.data.index_sync_state.enqueue(EventToSync::FileRemoved(excess[e]));
            proof {
                assert(excess@.subrange(0, e + 1) =~= excess@.subrange(0, e as int).push(
                    excess@[e as int],
                ));
                assert(runtime_state.data.index_sync_state@.queue =~= queue0 + removal_events(
                    excess@.subrange(0, e + 1),
                ));
            }
            e += 1;
        }
        proof {
            assert(excess@.subrange(0, excess@.len() as int) =~= excess@);
        }
    } else {
        proof {
            assert(deletions.subrange(0, deletions.len() as int) =~= deletions);
            assert(queue0 + removal_events(
                deletions.subrange(deletions.len() as int, deletions.len() as int),
            ) =~= queue0);
        }
    }
    proof {
        assert(args0.leaving(users0) == leaving);
        runtime_state.data.files.lemma_consistent();
        lemma_consistent_is_made_of(runtime_state.data.files@);
    }
    Response::Success(SuccessResult { files_removed })
}

} // verus!
