//! The content store under its older names: a file is a blob reference.
//!
//! The store behind it is the same, with the same checks on every chunk.

use crate::bucket::files::{self, Files};
use crate::bucket::model::FilesView;
use crate::bucket::pending_file::{self, ChunkSizeMismatch, PendingFile, UploadChunkArgs};
use crate::bucket::removal_log::is_removal_log;
use crate::collections::vec_set::VecSet;
use crate::hasher::digest;
use crate::types::{
    AccessorId, BlobId, BlobReferenceAdded, BlobReferenceRemoved, FileRemoved, TimestampMillis,
    UserId,
};
use vstd::prelude::*;

verus! {

/// An upload under way, under its older name.
pub type PendingBlob = PendingFile;

/// A reference to a blob: who uploaded it, who may read it, which blob and since when.
pub struct BlobReference {
    pub uploaded_by: UserId,
    pub accessors: VecSet<AccessorId>,
    pub hash: crate::types::Hash,
    pub created: TimestampMillis,
}

/// A chunk as the store takes it: the request, who sent it and when.
pub struct PutChunkArgs {
    pub uploaded_by: UserId,
    pub blob_id: BlobId,
    pub hash: crate::types::Hash,
    pub mime_type: String,
    pub accessors: Vec<AccessorId>,
    pub chunk_index: u32,
    pub chunk_size: u32,
    pub total_size: u64,
    pub bytes: Vec<u8>,
    pub now: TimestampMillis,
}

impl PutChunkArgs {
    /// The same chunk in terms of a file.
    pub open spec fn as_file_chunk(self) -> pending_file::PutChunkArgs {
        pending_file::PutChunkArgs {
            uploaded_by: self.uploaded_by,
            file_id: self.blob_id,
            hash: self.hash,
            mime_type: self.mime_type,
            accessors: self.accessors,
            chunk_index: self.chunk_index,
            chunk_size: self.chunk_size,
            total_size: self.total_size,
            bytes: self.bytes,
            now: self.now,
        }
    }

    /// The request `upload_chunk_args`, sent by `uploaded_by` at time `now`.
    pub fn new(uploaded_by: UserId, now: TimestampMillis, upload_chunk_args: UploadChunkArgs) -> (args:
        Self)
        ensures
            args.as_file_chunk() == pending_file::PutChunkArgs::of(
                uploaded_by,
                upload_chunk_args,
                now,
            ),
    {
        PutChunkArgs {
            uploaded_by,
            blob_id: upload_chunk_args.file_id,
            hash: upload_chunk_args.hash,
            mime_type: upload_chunk_args.mime_type,
            accessors: upload_chunk_args.accessors,
            chunk_index: upload_chunk_args.chunk_index,
            chunk_size: upload_chunk_args.chunk_size,
            total_size: upload_chunk_args.total_size,
            bytes: upload_chunk_args.bytes,
            now,
        }
    }
}

/// The declared and the computed hash of an upload whose bytes were not what was declared.
#[derive(Clone, Copy, Debug, PartialEq, Eq)]
pub struct HashMismatch {
    pub provided_hash: crate::types::Hash,
    pub actual_hash: crate::types::Hash,
}

/// What an accepted chunk brought about.
#[derive(Clone, Copy, Debug, PartialEq, Eq)]
pub struct PutChunkResultSuccess {
    pub blob_completed: bool,
    pub blob_reference_added: Option<BlobReferenceAdded>,
}

/// What became of a chunk.
#[derive(Clone, Copy, Debug, PartialEq, Eq)]
pub enum PutChunkResult {
    Success(PutChunkResultSuccess),
    BlobAlreadyExists,
    BlobTooBig(u64),
    ChunkAlreadyExists,
    ChunkIndexTooHigh,
    ChunkSizeMismatch(ChunkSizeMismatch),
    HashMismatch(HashMismatch),
}

impl PutChunkResult {
    /// The outcome `result` under the older names.
    pub open spec fn of(result: files::PutChunkResult) -> PutChunkResult {
        match result {
            files::PutChunkResult::Success(success) => PutChunkResult::Success(
                PutChunkResultSuccess {
                    blob_completed: success.file_completed,
                    blob_reference_added: match success.file_added {
                        Some(added) => Some(BlobReferenceAdded::of(added)),
                        None => None,
                    },
                },
            ),
            files::PutChunkResult::FileAlreadyExists => PutChunkResult::BlobAlreadyExists,
            files::PutChunkResult::FileTooBig(limit) => PutChunkResult::BlobTooBig(limit),
            files::PutChunkResult::ChunkAlreadyExists => PutChunkResult::ChunkAlreadyExists,
            files::PutChunkResult::ChunkIndexTooHigh => PutChunkResult::ChunkIndexTooHigh,
            files::PutChunkResult::ChunkSizeMismatch(m) => PutChunkResult::ChunkSizeMismatch(m),
            files::PutChunkResult::HashMismatch(m) => PutChunkResult::HashMismatch(
                HashMismatch { provided_hash: m.provided_hash, actual_hash: m.actual_hash },
            ),
        }
    }
}

/// What became of a request to drop a blob reference.
#[derive(Clone, Copy, Debug, PartialEq, Eq)]
pub enum RemoveBlobReferenceResult {
    Success(BlobReferenceRemoved),
    NotAuthorized,
    NotFound,
}

impl RemoveBlobReferenceResult {
    /// The outcome `result` under the older names.
    pub open spec fn of(result: files::RemoveFileResult) -> RemoveBlobReferenceResult {
        match result {
            files::RemoveFileResult::Success(removed) => RemoveBlobReferenceResult::Success(
                BlobReferenceRemoved::of(removed),
            ),
            files::RemoveFileResult::NotAuthorized => RemoveBlobReferenceResult::NotAuthorized,
            files::RemoveFileResult::NotFound => RemoveBlobReferenceResult::NotFound,
        }
    }
}

/// The reports that tell of the deletions `removed`, in the same order.
pub open spec fn references_removed(removed: Seq<FileRemoved>) -> Seq<BlobReferenceRemoved> {
    removed.map_values(|r: FileRemoved| BlobReferenceRemoved::of(r))
}

/// The content store under its older names.
pub struct Blobs {
    files: Files,
}

impl View for Blobs {
    type V = FilesView;

    /// The model of the store, in which a blob reference is a file.
    closed spec fn view(&self) -> FilesView {
        self.files@
    }
}

impl Blobs {
    /// The store is sound.
    pub closed spec fn wf(&self) -> bool {
        self.files.wf()
    }

    /// A sound store is consistent.
    pub proof fn lemma_consistent(&self)
        requires
            self.wf(),
        ensures
            self@.consistent(),
    {
        self.files.lemma_consistent();
    }

    /// The store without any blob.
    pub fn new() -> (blobs: Self)
        ensures
            blobs.wf(),
            blobs@ == FilesView::empty(),
    {
        Blobs { files: Files::new() }
    }

    /// Who uploaded `blob_id`: the uploader of the reference, else of the upload under way.
    pub fn uploaded_by(&self, blob_id: &BlobId) -> (r: Option<UserId>)
        requires
            self.wf(),
        ensures
            r == if self@.files.contains_key(*blob_id) {
                Some(self@.files[*blob_id].uploaded_by)
            } else if self@.pending_files.contains_key(*blob_id) {
                Some(self@.pending_files[*blob_id].uploaded_by)
            } else {
                None
            },
    {
        self.files.uploaded_by(blob_id)
    }

    /// Takes one chunk of an upload, with every check that the store makes on a chunk.
    pub fn put_chunk(&mut self, args: PutChunkArgs) -> (r: PutChunkResult)
        requires
            old(self).wf(),
            old(self)@.files.dom().len() < u32::MAX,
        ensures
            final(self).wf(),
            ({
                let chunk = args.as_file_chunk();
                let hash = digest(old(self)@.pending_after(chunk).bytes);
                &&& r == PutChunkResult::of(old(self)@.put_chunk_result(chunk, hash))
                &&& final(self)@ == old(self)@.after_put_chunk(chunk, hash)
            }),
    {
        let chunk = pending_file::PutChunkArgs {
            uploaded_by: args.uploaded_by,
            file_id: args.blob_id,
            hash: args.hash,
            mime_type: args.mime_type,
            accessors: args.accessors,
            chunk_index: args.chunk_index,
            chunk_size: args.chunk_size,
            total_size: args.total_size,
            bytes: args.bytes,
            now: args.now,
        };
        match self.files.put_chunk(chunk) {
            files::PutChunkResult::Success(success) => PutChunkResult::Success(
                PutChunkResultSuccess {
                    blob_completed: success.file_completed,
                    blob_reference_added: match success.file_added {
                        Some(added) => Some(BlobReferenceAdded::from(added)),
                        None => None,
                    },
                },
            ),
            files::PutChunkResult::FileAlreadyExists => PutChunkResult::BlobAlreadyExists,
            files::PutChunkResult::FileTooBig(limit) => PutChunkResult::BlobTooBig(limit),
            files::PutChunkResult::ChunkAlreadyExists => PutChunkResult::ChunkAlreadyExists,
            files::PutChunkResult::ChunkIndexTooHigh => PutChunkResult::ChunkIndexTooHigh,
            files::PutChunkResult::ChunkSizeMismatch(m) => PutChunkResult::ChunkSizeMismatch(m),
            files::PutChunkResult::HashMismatch(m) => PutChunkResult::HashMismatch(
                HashMismatch { provided_hash: m.provided_hash, actual_hash: m.actual_hash },
            ),
        }
    }

    /// Drops the reference `blob_id` on behalf of `uploaded_by`.
    ///
    /// Nothing changes when there is no such reference or when somebody else uploaded it.
    /// Otherwise the reference goes, and the blob with it if nothing else refers to it.
    pub fn remove_blob_reference(&mut self, uploaded_by: UserId, blob_id: BlobId) -> (r:
        RemoveBlobReferenceResult)
        requires
            old(self).wf(),
        ensures
            final(self).wf(),
            r == RemoveBlobReferenceResult::of(old(self)@.remove_result(uploaded_by, blob_id)),
            final(self)@ == old(self)@.after_remove(uploaded_by, blob_id),
    {
        match self.files.remove(uploaded_by, blob_id) {
            files::RemoveFileResult::Success(removed) => RemoveBlobReferenceResult::Success(
                BlobReferenceRemoved::from(removed),
            ),
            files::RemoveFileResult::NotAuthorized => RemoveBlobReferenceResult::NotAuthorized,
            files::RemoveFileResult::NotFound => RemoveBlobReferenceResult::NotFound,
        }
    }

    /// Drops the upload under way `blob_id`; returns whether there was one.
    pub fn remove_pending_blob(&mut self, blob_id: &BlobId) -> (r: bool)
        requires
            old(self).wf(),
        ensures
            final(self).wf(),
            r == old(self)@.pending_files.contains_key(*blob_id),
            final(self)@ == old(self)@.with_pending_files(
                old(self)@.pending_files.remove(*blob_id),
            ),
    {
        self.files.remove_pending_file(blob_id)
    }

    /// Revokes `accessor_id`: no reference names it any more, and a reference that named no
    /// other accessor is dropped, with its blob if nothing else refers to it. Returns the
    /// reports of the references dropped.
    pub fn remove_accessor(&mut self, accessor_id: &AccessorId) -> (r: Vec<BlobReferenceRemoved>)
        requires
            old(self).wf(),
        ensures
            final(self).wf(),
            final(self)@ == old(self)@.keeping(old(self)@.files_without_accessor(*accessor_id)),
            exists|removed: Seq<FileRemoved>| #[trigger]
                is_removal_log(old(self)@.files, old(self)@.orphans_of(*accessor_id), removed)
                    && r@ == references_removed(removed),
    {
        let removed = self.files.remove_accessor(accessor_id);
        let mut reports: Vec<BlobReferenceRemoved> = Vec::new();
        let mut i: usize = 0;
        while i < removed.len()
            invariant
                i <= removed@.len(),
                reports@ == references_removed(removed@.subrange(0, i as int)),
                is_removal_log(old(self)@.files, old(self)@.orphans_of(*accessor_id), removed@),
            decreases removed@.len() - i,
        {
            reports.push(BlobReferenceRemoved::from(removed[i]));
            proof {
                assert(removed@.subrange(0, i + 1) =~= removed@.subrange(0, i as int).push(
                    removed@[i as int],
                ));
                assert(reports@ =~= references_removed(removed@.subrange(0, i + 1)));
            }
            i += 1;
        }
        proof {
            assert(removed@.subrange(0, removed@.len() as int) =~= removed@);
        }
        reports
    }

    /// Whether a blob with this hash is stored.
    pub fn contains_hash(&self, hash: &crate::types::Hash) -> (r: bool)
        requires
            self.wf(),
        ensures
            r == self@.blobs.contains_key(*hash),
    {
        self.files.contains_hash(hash)
    }

    /// The reference `blob_id`, if there is one.
    pub fn get(&self, blob_id: &BlobId) -> (r: Option<BlobReference>)
        requires
            self.wf(),
        ensures
            match r {
                Some(reference) => self@.files.contains_key(*blob_id) && reference.uploaded_by
                    == self@.files[*blob_id].uploaded_by && reference.hash
                    == self@.files[*blob_id].hash && reference.created
                    == self@.files[*blob_id].created && reference.accessors@
                    == self@.files[*blob_id].accessors && reference.accessors.wf(),
                None => !self@.files.contains_key(*blob_id),
            },
    {
        match self.files.get(blob_id) {
            None => None,
            Some(file) => {
                let mut accessors: VecSet<AccessorId> = VecSet::new();
                proof {
                    file.accessors.lemma_order();
                }
                let n = file.accessors.len();
                let mut i: usize = 0;
                while i < n
                    invariant
                        i <= n,
                        n == file.accessors.order().len(),
                        accessors.wf(),
                        accessors@ == file.accessors.order().subrange(0, i as int).to_set(),
                    decreases n - i,
                {
                    proof {
                        crate::collections::vec_set::lemma_prefix_set_grows(
                            file.accessors.order(),
                            i as int,
                        );
                    }
                    accessors.insert(file.accessors.at(i));
                    i += 1;
                }
                proof {
                    assert(file.accessors.order().subrange(0, n as int)
                        =~= file.accessors.order());
                    file.accessors.lemma_order();
                }
                Some(
                    BlobReference {
                        uploaded_by: file.uploaded_by,
                        accessors,
                        hash: file.hash,
                        created: file.created,
                    },
                )
            },
        }
    }
}

} // verus!
