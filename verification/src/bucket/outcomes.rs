//! What the operations of the content store return and leave behind, stated over the model
//! of the store.

use crate::bucket::files::{
    HashMismatch, PutChunkResult, PutChunkResultSuccess, RemoveFileResult,
};
use crate::bucket::model::{
    lemma_file_added, lemma_file_deleted, lemma_files_with_hash, FileView, FilesView,
};
use crate::bucket::pending_file::{AddChunkResult, PendingFileView, PutChunkArgs};
use crate::bucket::MAX_BLOB_SIZE_BYTES;
use crate::types::{AccessorId, FileAdded, FileId, FileRemoved, TimestampMillis, UserId};
use vstd::prelude::*;

verus! {

impl PendingFileView {
    /// The file that this upload becomes when it completes at time `now`.
    pub open spec fn completed_file(self, now: TimestampMillis) -> FileView {
        FileView {
            uploaded_by: self.uploaded_by,
            created: now,
            accessors: self.accessors,
            hash: self.hash,
            mime_type: self.mime_type,
        }
    }
}

impl FilesView {
    /// The pending file that the chunk of `args` is offered to: the one that is stored, or
    /// the one that `args` opens.
    pub open spec fn pending_before(self, args: PutChunkArgs) -> PendingFileView {
        if self.pending_files.contains_key(args.file_id) {
            self.pending_files[args.file_id]
        } else {
            args.fresh()
        }
    }

    /// That pending file once the chunk is absorbed.
    pub open spec fn pending_after(self, args: PutChunkArgs) -> PendingFileView {
        self.pending_before(args).absorb(args.chunk_index, args.bytes@)
    }

    /// The event that an accepted chunk carries: one on the chunk that opens the upload, none
    /// on the others.
    pub open spec fn file_added(self, args: PutChunkArgs) -> Option<FileAdded> {
        if self.pending_files.contains_key(args.file_id) {
            None
        } else {
            Some(
                FileAdded {
                    uploaded_by: args.uploaded_by,
                    file_id: args.file_id,
                    hash: args.hash,
                    size: args.total_size,
                },
            )
        }
    }

    /// Whether the chunk of `args` is accepted: the blob is not too big, the identifier is
    /// not that of a completed file and the chunk passes the checks of the pending file.
    pub open spec fn accepts(self, args: PutChunkArgs) -> bool {
        &&& args.total_size <= MAX_BLOB_SIZE_BYTES
        &&& !self.files.contains_key(args.file_id)
        &&& self.pending_before(args).check(args.chunk_index, args.bytes@.len()) is Success
    }

    /// Whether the chunk of `args` is accepted and is the last that the upload awaited.
    pub open spec fn completes(self, args: PutChunkArgs) -> bool {
        self.accepts(args) && self.pending_after(args).is_completed()
    }

    /// The event that tells of the deletion of the file `file_id`.
    pub open spec fn file_removed(self, file_id: FileId) -> FileRemoved {
        FileRemoved {
            file_id,
            uploaded_by: self.files[file_id].uploaded_by,
            hash: self.files[file_id].hash,
            blob_deleted: self.reference_count(self.files[file_id].hash) == 1,
        }
    }

    /// The blobs once the file `file_id` is deleted: its blob goes if no other file refers
    /// to it.
    pub open spec fn blobs_without_file(self, file_id: FileId) -> Map<
        crate::types::Hash,
        Seq<u8>,
    > {
        if self.reference_count(self.files[file_id].hash) == 1 {
            self.blobs.remove(self.files[file_id].hash)
        } else {
            self.blobs
        }
    }

    /// The files that name `accessor_id` and no other accessor.
    pub open spec fn orphans_of(self, accessor_id: AccessorId) -> Set<FileId> {
        Set::new(
            |file_id: FileId|
                self.files.contains_key(file_id) && self.files[file_id].orphaned_without(
                    accessor_id,
                ),
        )
    }

    /// The files once `accessor_id` is revoked: those that named only it are gone, and no
    /// other names it any more.
    pub open spec fn files_without_accessor(self, accessor_id: AccessorId) -> Map<
        FileId,
        FileView,
    > {
        Map::new(
            |file_id: FileId|
                self.files.contains_key(file_id) && !self.files[file_id].orphaned_without(
                    accessor_id,
                ),
            |file_id: FileId| self.files[file_id].without_accessor(accessor_id),
        )
    }

    /// Whether `uploaders` lists the uploaders of the files with the hash `hash`, one entry
    /// for each file.
    pub open spec fn is_uploader_list(
        self,
        hash: crate::types::Hash,
        uploaders: Seq<UserId>,
    ) -> bool {
        exists|ids: Seq<FileId>| #[trigger]
            self.lists_uploaders(hash, ids, uploaders)
    }

    /// Whether `ids` names each file with the hash `hash` once and `uploaders` holds, at each
    /// position, the uploader of the file that `ids` names there.
    pub open spec fn lists_uploaders(
        self,
        hash: crate::types::Hash,
        ids: Seq<FileId>,
        uploaders: Seq<UserId>,
    ) -> bool {
        &&& ids.no_duplicates()
        &&& ids.to_set() == self.files_with_hash(hash)
        &&& uploaders == ids.map_values(|file_id: FileId| self.files[file_id].uploaded_by)
    }

    /// What `remove` returns when `uploaded_by` asks to delete `file_id`.
    pub open spec fn remove_result(self, uploaded_by: UserId, file_id: FileId) -> RemoveFileResult {
        if !self.files.contains_key(file_id) {
            RemoveFileResult::NotFound
        } else if self.files[file_id].uploaded_by != uploaded_by {
            RemoveFileResult::NotAuthorized
        } else {
            RemoveFileResult::Success(self.file_removed(file_id))
        }
    }

    /// What `put_chunk` returns for `args` when the assembled bytes hash to `actual_hash`.
    pub open spec fn put_chunk_result(
        self,
        args: PutChunkArgs,
        actual_hash: crate::types::Hash,
    ) -> PutChunkResult {
        if args.total_size > MAX_BLOB_SIZE_BYTES {
            PutChunkResult::FileTooBig(MAX_BLOB_SIZE_BYTES)
        } else if self.files.contains_key(args.file_id) {
            PutChunkResult::FileAlreadyExists
        } else {
            match self.pending_before(args).check(args.chunk_index, args.bytes@.len()) {
                AddChunkResult::ChunkIndexTooHigh => PutChunkResult::ChunkIndexTooHigh,
                AddChunkResult::ChunkSizeMismatch(m) => PutChunkResult::ChunkSizeMismatch(m),
                AddChunkResult::ChunkAlreadyExists => PutChunkResult::ChunkAlreadyExists,
                AddChunkResult::Success => {
                    let after = self.pending_after(args);
                    if !after.is_completed() {
                        PutChunkResult::Success(
                            PutChunkResultSuccess {
                                file_completed: false,
                                file_added: self.file_added(args),
                            },
                        )
                    } else if actual_hash != after.hash {
                        PutChunkResult::HashMismatch(
                            HashMismatch {
                                provided_hash: after.hash,
                                actual_hash,
                                chunk_count: after.chunk_count() as u32,
                            },
                        )
                    } else {
                        PutChunkResult::Success(
                            PutChunkResultSuccess {
                                file_completed: true,
                                file_added: self.file_added(args),
                            },
                        )
                    }
                },
            }
        }
    }

    /// The store with one more file `file_id`, whose content is `bytes`: the file is linked
    /// to its accessors and counted, and the bytes are stored unless a blob with the hash of
    /// the file is stored already.
    pub open spec fn with_file(self, file_id: FileId, file: FileView, bytes: Seq<u8>) -> FilesView {
        FilesView {
            files: self.files.insert(file_id, file),
            pending_files: self.pending_files,
            blobs: if self.blobs.contains_key(file.hash) {
                self.blobs
            } else {
                self.blobs.insert(file.hash, bytes)
            },
            reference_counts: self.reference_counts.insert(
                file.hash,
                self.reference_count(file.hash) + 1,
            ),
            accessors_index: Map::new(
                |a: AccessorId| self.accessors_index.contains_key(a) || file.accessors.contains(a),
                |a: AccessorId|
                    if file.accessors.contains(a) {
                        self.files_of(a).insert(file_id)
                    } else {
                        self.files_of(a)
                    },
            ),
            bytes_used: if self.blobs.contains_key(file.hash) {
                self.bytes_used
            } else {
                self.bytes_used + bytes.len()
            },
        }
    }

    /// The store without the file `file_id`: the file is unlinked from its accessors and no
    /// longer counted, and its blob goes if no other file refers to it.
    pub open spec fn without_file(self, file_id: FileId) -> FilesView {
        let hash = self.files[file_id].hash;
        FilesView {
            files: self.files.remove(file_id),
            pending_files: self.pending_files,
            blobs: self.blobs_without_file(file_id),
            reference_counts: if self.reference_count(hash) > 1 {
                self.reference_counts.insert(hash, (self.reference_count(hash) - 1) as nat)
            } else {
                self.reference_counts.remove(hash)
            },
            accessors_index: Map::new(
                |a: AccessorId| self.files_of(a).remove(file_id) != Set::<FileId>::empty(),
                |a: AccessorId| self.files_of(a).remove(file_id),
            ),
            bytes_used: if self.reference_count(hash) == 1 {
                (self.bytes_used - self.blobs[hash].len()) as nat
            } else {
                self.bytes_used
            },
        }
    }

    /// The store with other pending files.
    pub open spec fn with_pending_files(self, pending_files: Map<FileId, PendingFileView>) -> FilesView {
        FilesView { pending_files, ..self }
    }

    /// The store after `put_chunk` took the chunk of `args`, when the assembled bytes hash
    /// to `actual_hash`.
    ///
    /// A chunk that is refused changes nothing. A chunk that is accepted is absorbed by its
    /// pending file. When no chunk is awaited any more the upload leaves the pending files,
    /// whatever its bytes hash to, and becomes a file if they hash to what was declared.
    pub open spec fn after_put_chunk(
        self,
        args: PutChunkArgs,
        actual_hash: crate::types::Hash,
    ) -> FilesView {
        let after = self.pending_after(args);
        if !self.accepts(args) {
            self
        } else if !self.completes(args) {
            self.with_pending_files(self.pending_files.insert(args.file_id, after))
        } else if actual_hash != after.hash {
            self.with_pending_files(self.pending_files.remove(args.file_id))
        } else {
            self.with_pending_files(self.pending_files.remove(args.file_id)).with_file(
                args.file_id,
                after.completed_file(args.now),
                after.bytes,
            )
        }
    }

    /// The store after `remove` was asked by `uploaded_by` to delete `file_id`.
    pub open spec fn after_remove(self, uploaded_by: UserId, file_id: FileId) -> FilesView {
        if self.remove_result(uploaded_by, file_id) is Success {
            self.without_file(file_id)
        } else {
            self
        }
    }
}

/// Adding a file that is new to a consistent store gives a consistent store.
pub proof fn lemma_with_file_consistent(
    v: FilesView,
    file_id: FileId,
    file: FileView,
    bytes: Seq<u8>,
)
    requires
        v.consistent(),
        !v.files.contains_key(file_id),
        !v.pending_files.contains_key(file_id),
        file.accessors.finite(),
        v.files.dom().len() < u32::MAX,
        bytes.len() <= MAX_BLOB_SIZE_BYTES,
    ensures
        v.with_file(file_id, file, bytes).consistent(),
{
    let w = v.with_file(file_id, file, bytes);
    assert forall|a: AccessorId| #[trigger]
        w.accessors_index.contains_key(a) implies w.accessors_index[a] != Set::<FileId>::empty() by {
        if file.accessors.contains(a) {
            assert(w.accessors_index[a].contains(file_id));
        }
    }
    lemma_file_added(v, w, file_id, file, bytes);
}

/// Deleting a file of a consistent store gives a consistent store.
pub proof fn lemma_without_file_consistent(v: FilesView, file_id: FileId)
    requires
        v.consistent(),
        v.files.contains_key(file_id),
    ensures
        v.without_file(file_id).consistent(),
{
    let w = v.without_file(file_id);
    let hash = v.files[file_id].hash;
    lemma_files_with_hash(v, hash);
    assert(v.files_with_hash(hash).contains(file_id));
    assert(v.reference_count(hash) == v.files_with_hash(hash).len());
    assert(v.files_with_hash(hash).len() == v.files_with_hash(hash).remove(file_id).len() + 1);
    assert(v.blobs.contains_key(hash) <==> v.reference_count(hash) > 0);
    assert(v.blob_sizes().dom() =~= v.blobs.dom());
    crate::collections::map_sum::lemma_sum_remove(v.blob_sizes(), hash);
    assert forall|a: AccessorId| #[trigger] w.files_of(a) == v.files_of(a).remove(file_id) by {
        if !w.accessors_index.contains_key(a) {
            assert(v.files_of(a).remove(file_id) == Set::<FileId>::empty());
        }
    }
    lemma_file_deleted(v, w, file_id);
}

} // verus!
