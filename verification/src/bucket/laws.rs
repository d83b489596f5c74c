//! What holds of every content store, and of uploads and deletions taken together.

use crate::bucket::files::{Files, PutChunkResult, RemoveFileResult};
use crate::bucket::model::FilesView;
use crate::bucket::snapshot::FilesSnapshot;
use crate::bucket::pending_file::{
    lemma_absorb_agrees, lemma_completed_holds_content, lemma_chunk_bounds, PutChunkArgs,
};
use crate::bucket::MAX_BLOB_SIZE_BYTES;
use crate::collections::map_sum::sum_values;
use crate::hasher::digest;
use crate::types::{AccessorId, FileId, UserId};
use vstd::prelude::*;

verus! {

impl Files {
    /// The count of a stored blob is the number of files with its hash, and at least one.
    pub proof fn lemma_count_is_number_of_files(&self, hash: crate::types::Hash)
        requires
            self.wf(),
            self@.blobs.contains_key(hash),
        ensures
            self@.reference_count(hash) == self@.files_with_hash(hash).len(),
            self@.reference_count(hash) >= 1,
    {
        self.lemma_consistent();
    }

    /// A hash counts zero references exactly when no blob is stored for it.
    pub proof fn lemma_unreferenced_iff_not_stored(&self, hash: crate::types::Hash)
        requires
            self.wf(),
        ensures
            self@.reference_count(hash) == 0 <==> !self@.blobs.contains_key(hash),
    {
        self.lemma_consistent();
        assert(self@.blobs.contains_key(hash) <==> self@.reference_count(hash) > 0);
    }

    /// The bytes in use are the sum of the lengths of the blobs, whatever the number of
    /// files that refer to each.
    pub proof fn lemma_bytes_used_is_sum_of_blobs(&self)
        requires
            self.wf(),
        ensures
            self@.bytes_used == sum_values(self@.blob_sizes()),
    {
        self.lemma_consistent();
    }

    /// The reverse index lists a file for an accessor exactly when the file names the
    /// accessor.
    pub proof fn lemma_index_mirrors_files(&self, accessor_id: AccessorId, file_id: FileId)
        requires
            self.wf(),
        ensures
            self@.files_of(accessor_id).contains(file_id) <==> (self@.files.contains_key(file_id)
                && self@.files[file_id].accessors.contains(accessor_id)),
    {
        self.lemma_consistent();
    }

    /// No identifier is at once that of a completed and of a pending file.
    pub proof fn lemma_completed_and_pending_are_disjoint(&self, file_id: FileId)
        requires
            self.wf(),
        ensures
            !(self@.files.contains_key(file_id) && self@.pending_files.contains_key(file_id)),
    {
        self.lemma_consistent();
    }
}

/// A store that is taken apart and built again is the same store: the snapshot that
/// `into_snapshot` makes of a store is one that `from_snapshot` accepts, and what
/// `from_snapshot` builds of it is the store that was taken apart.
pub proof fn lemma_snapshot_round_trip(
    taken_apart: Files,
    snapshot: FilesSnapshot,
    restored: Option<Files>,
)
    requires
        snapshot.valid(),
        taken_apart@ == snapshot.store(),
        restored is Some <==> snapshot.valid(),
        restored matches Some(store) ==> store@ == snapshot.store(),
    ensures
        restored matches Some(store) && store@ == taken_apart@,
{
}

/// A file that has been deleted is not found when its deletion is asked for again.
pub proof fn lemma_removed_file_is_not_found(
    before: FilesView,
    after: FilesView,
    uploaded_by: UserId,
    again_by: UserId,
    file_id: FileId,
)
    requires
        before.remove_result(uploaded_by, file_id) is Success,
        after == before.after_remove(uploaded_by, file_id),
    ensures
        after.remove_result(again_by, file_id) == RemoveFileResult::NotFound,
        after.after_remove(again_by, file_id) == after,
{
}

/// A chunk that opens an upload of no bytes is refused.
pub proof fn lemma_empty_upload_is_refused(
    v: FilesView,
    args: PutChunkArgs,
    actual_hash: crate::types::Hash,
)
    requires
        args.total_size == 0,
        !v.pending_files.contains_key(args.file_id),
    ensures
        !v.accepts(args),
        v.put_chunk_result(args, actual_hash) == (if v.files.contains_key(args.file_id) {
            PutChunkResult::FileAlreadyExists
        } else {
            PutChunkResult::ChunkIndexTooHigh
        }),
{
}

/// A declared size above the limit is refused as too big, and one at the limit is not.
pub proof fn lemma_size_limit(v: FilesView, args: PutChunkArgs, actual_hash: crate::types::Hash)
    ensures
        args.total_size > MAX_BLOB_SIZE_BYTES ==> v.put_chunk_result(args, actual_hash)
            == PutChunkResult::FileTooBig(MAX_BLOB_SIZE_BYTES),
        args.total_size <= MAX_BLOB_SIZE_BYTES ==> !(v.put_chunk_result(args, actual_hash)
            is FileTooBig),
{
}

/// The chunk at a place of the blob is accepted when it is awaited and has the size that
/// the place asks for: the size of a chunk, or for the last chunk what is left of the blob.
pub proof fn lemma_awaited_chunk_of_right_size_is_accepted(v: FilesView, args: PutChunkArgs)
    requires
        args.total_size <= MAX_BLOB_SIZE_BYTES,
        !v.files.contains_key(args.file_id),
        args.chunk_index < v.pending_before(args).chunk_count(),
        v.pending_before(args).remaining_chunks.contains(args.chunk_index),
    ensures
        v.accepts(args) <==> args.bytes@.len() == v.pending_before(args).expected_chunk_size(
            args.chunk_index as int,
        ),
{
}

/// An upload returns what was submitted.
///
/// When the chunks absorbed so far are those of `content`, the chunk of `args` is the one
/// that `content` has at its place and completes the upload, the hash declared is that of
/// `content` and no blob with that hash is stored yet, then the blob stored under that hash
/// is `content`.
pub proof fn lemma_upload_round_trip(v: FilesView, args: PutChunkArgs, content: Seq<u8>)
    requires
        v.consistent(),
        v.completes(args),
        content.len() == v.pending_before(args).total_size,
        v.pending_before(args).agrees_with(content),
        args.bytes@ == v.pending_before(args).chunk_of(content, args.chunk_index),
        v.pending_before(args).hash == digest(content),
        !v.blobs.contains_key(digest(content)),
    ensures
        v.after_put_chunk(args, digest(v.pending_after(args).bytes)).blobs.contains_key(
            digest(content),
        ),
        v.after_put_chunk(args, digest(v.pending_after(args).bytes)).blobs[digest(content)]
            == content,
        v.put_chunk_result(args, digest(v.pending_after(args).bytes)) is Success,
{
    let before = v.pending_before(args);
    assert(before.well_formed()) by {
        if v.pending_files.contains_key(args.file_id) {
        } else {
            assert(before == args.fresh());
        }
    }
    lemma_chunk_bounds(before.chunk_size, before.total_size, args.chunk_index as int);
    lemma_absorb_agrees(before, args.chunk_index, args.bytes@, content);
    let after = v.pending_after(args);
    assert(after.well_formed()) by {
        assert(after.bytes.len() == before.bytes.len());
    }
    lemma_completed_holds_content(after, content);
}

} // verus!
