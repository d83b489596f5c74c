//! The content store of a bucket.

use crate::bucket::accessors_map::AccessorsMap;
use crate::bucket::model::{
    blobs_in_use, lemma_accessor_detached, lemma_blob_stored_iff_in_use, lemma_bytes_bound,
    lemma_empty_consistent, lemma_file_added, lemma_file_deleted, lemma_files_with_hash,
    lemma_consistent_is_made_of, lemma_pending_changed, lemma_store_is_determined, FileView,
    FilesView,
};
use crate::bucket::outcomes::{lemma_with_file_consistent, lemma_without_file_consistent};
use crate::bucket::pending_file::{
    AddChunkResult, ChunkSizeMismatch, PendingFile, PendingFileView, PutChunkArgs,
};
use crate::bucket::purge::{uploads_of, without_uploads_of};
use crate::bucket::reference_counts::ReferenceCounts;
use crate::bucket::removal_log::{
    is_removal_log, lemma_removal_log_concat, lemma_removal_log_empty, lemma_removal_log_single,
};
use crate::bucket::snapshot::FilesSnapshot;
use crate::bucket::{DATA_LIMIT_BYTES, MAX_BLOB_SIZE_BYTES};
use crate::collections::map_sum::lemma_sum_remove;
use crate::collections::vec_map::{keys_of, lemma_map_of_dom, lemma_map_of_entry, map_of, VecMap};
use crate::collections::vec_set::{lemma_prefix_set_grows, VecSet};
use crate::hasher::{digest, hash_bytes};
use crate::types::{AccessorId, FileAdded, FileId, FileRemoved, Key, TimestampMillis, UserId};
use vstd::prelude::*;

verus! {

/// A completed upload: a named reference to a blob.
pub struct File {
    pub uploaded_by: UserId,
    pub created: TimestampMillis,
    pub accessors: VecSet<AccessorId>,
    pub hash: crate::types::Hash,
    pub mime_type: String,
}

impl View for File {
    type V = FileView;

    open spec fn view(&self) -> FileView {
        FileView {
            uploaded_by: self.uploaded_by,
            created: self.created,
            accessors: self.accessors@,
            hash: self.hash,
            mime_type: self.mime_type@,
        }
    }
}

/// The declared and the computed hash of an upload whose bytes were not what was declared.
#[derive(Clone, Copy, Debug, PartialEq, Eq)]
pub struct HashMismatch {
    pub provided_hash: crate::types::Hash,
    pub actual_hash: crate::types::Hash,
    pub chunk_count: u32,
}

/// What an accepted chunk brought about.
#[derive(Clone, Copy, Debug, PartialEq, Eq)]
pub struct PutChunkResultSuccess {
    /// Whether this chunk completed the file.
    pub file_completed: bool,
    /// The event for the index, on the chunk that opened the upload.
    pub file_added: Option<FileAdded>,
}

/// What became of a chunk.
#[derive(Clone, Copy, Debug, PartialEq, Eq)]
pub enum PutChunkResult {
    Success(PutChunkResultSuccess),
    FileAlreadyExists,
    FileTooBig(u64),
    ChunkAlreadyExists,
    ChunkIndexTooHigh,
    ChunkSizeMismatch(ChunkSizeMismatch),
    HashMismatch(HashMismatch),
}

/// What became of a request to delete a file.
#[derive(Clone, Copy, Debug, PartialEq, Eq)]
pub enum RemoveFileResult {
    Success(FileRemoved),
    NotAuthorized,
    NotFound,
}

/// Counts for the operator.
#[derive(Clone, Copy, Debug, PartialEq, Eq)]
pub struct Metrics {
    pub file_count: u32,
    pub blob_count: u32,
}

/// Whether the list that `listed` keeps for `hash` names `file_id`.
spec fn names(
    listed: Map<crate::types::Hash, Seq<FileId>>,
    hash: crate::types::Hash,
    file_id: FileId,
) -> bool {
    listed.contains_key(hash) && listed[hash].contains(file_id)
}

/// The content store: completed files, pending files, blobs and what is derived from them.
pub struct Files {
    files: VecMap<FileId, File>,
    pending_files: VecMap<FileId, PendingFile>,
    reference_counts: ReferenceCounts,
    accessors_map: AccessorsMap,
    blobs: VecMap<crate::types::Hash, Vec<u8>>,
    bytes_used: u64,
}

impl View for Files {
    type V = FilesView;

    closed spec fn view(&self) -> FilesView {
        FilesView {
            files: self.files@.map_values(|f: File| f@),
            pending_files: self.pending_files@.map_values(|p: PendingFile| p@),
            blobs: self.blobs@.map_values(|b: Vec<u8>| b@),
            reference_counts: self.reference_counts@,
            accessors_index: self.accessors_map@,
            bytes_used: self.bytes_used as nat,
        }
    }
}

impl Files {
    /// The containers are sound and the model is consistent.
    pub closed spec fn wf(&self) -> bool {
        &&& self.parts_wf()
        &&& self@.consistent()
    }

    /// The containers are sound.
    closed spec fn parts_wf(&self) -> bool {
        &&& self.files.wf()
        &&& self.pending_files.wf()
        &&& self.blobs.wf()
        &&& self.reference_counts.wf()
        &&& self.accessors_map.wf()
        &&& forall|file_id: FileId| #[trigger]
            self.files@.contains_key(file_id) ==> self.files@[file_id].accessors.wf()
        &&& forall|file_id: FileId| #[trigger]
            self.pending_files@.contains_key(file_id) ==> self.pending_files@[file_id].wf()
    }

    /// A sound store is consistent.
    pub proof fn lemma_consistent(&self)
        requires
            self.wf(),
        ensures
            self@.consistent(),
    {
    }

    /// The store without any file.
    pub fn new() -> (files: Self)
        ensures
            files.wf(),
            files@ == FilesView::empty(),
    {
        let files = Files {
            files: VecMap::new(),
            pending_files: VecMap::new(),
            reference_counts: ReferenceCounts::new(),
            accessors_map: AccessorsMap::new(),
            blobs: VecMap::new(),
            bytes_used: 0,
        };
        proof {
            lemma_empty_consistent();
            assert(files@.files =~= Map::<FileId, FileView>::empty());
            assert(files@.pending_files =~= Map::<FileId, PendingFileView>::empty());
            assert(files@.blobs =~= Map::<crate::types::Hash, Seq<u8>>::empty());
        }
        files
    }

    /// The completed file `file_id`, if there is one.
    pub fn get(&self, file_id: &FileId) -> (r: Option<&File>)
        requires
            self.wf(),
        ensures
            match r {
                Some(file) => self@.files.contains_key(*file_id) && file@ == self@.files[*file_id]
                    && file.accessors.wf(),
                None => !self@.files.contains_key(*file_id),
            },
    {
        self.files.get(file_id)
    }

    /// The pending file `file_id`, if there is one.
    pub fn pending_file(&self, file_id: &FileId) -> (r: Option<&PendingFile>)
        requires
            self.wf(),
        ensures
            match r {
                Some(pending) => self@.pending_files.contains_key(*file_id) && pending@
                    == self@.pending_files[*file_id] && pending.wf(),
                None => !self@.pending_files.contains_key(*file_id),
            },
    {
        self.pending_files.get(file_id)
    }

    /// The bytes of the blob `hash`, if it is stored.
    pub fn blob_bytes(&self, hash: &crate::types::Hash) -> (r: Option<&Vec<u8>>)
        requires
            self.wf(),
        ensures
            match r {
                Some(bytes) => self@.blobs.contains_key(*hash) && bytes@ == self@.blobs[*hash],
                None => !self@.blobs.contains_key(*hash),
            },
    {
        self.blobs.get(hash)
    }

    /// Who uploaded `file_id`: the uploader of the completed file, else of the pending file.
    pub fn uploaded_by(&self, file_id: &FileId) -> (r: Option<UserId>)
        requires
            self.wf(),
        ensures
            r == if self@.files.contains_key(*file_id) {
                Some(self@.files[*file_id].uploaded_by)
            } else if self@.pending_files.contains_key(*file_id) {
                Some(self@.pending_files[*file_id].uploaded_by)
            } else {
                None
            },
    {
        match self.files.get(file_id) {
            Some(file) => Some(file.uploaded_by),
            None => match self.pending_files.get(file_id) {
                Some(pending) => Some(pending.uploaded_by),
                None => None,
            },
        }
    }

    /// Whether a blob with this hash is stored.
    pub fn contains_hash(&self, hash: &crate::types::Hash) -> (r: bool)
        requires
            self.wf(),
        ensures
            r == self@.blobs.contains_key(*hash),
    {
        self.blobs.contains_key(hash)
    }

    /// The length of the blob `hash`, if it is stored.
    pub fn data_size(&self, hash: &crate::types::Hash) -> (r: Option<u64>)
        requires
            self.wf(),
        ensures
            r == if self@.blobs.contains_key(*hash) {
                Some(self@.blobs[*hash].len() as u64)
            } else {
                None
            },
    {
        match self.blobs.get(hash) {
            Some(bytes) => {
                assert(self@.blobs[*hash].len() <= MAX_BLOB_SIZE_BYTES);
                Some(bytes.len() as u64)
            },
            None => None,
        }
    }

    /// The bytes that the bucket can still take before it reaches its limit; negative once
    /// it holds more.
    pub fn bytes_remaining(&self) -> (r: i64)
        requires
            self.wf(),
        ensures
            r == DATA_LIMIT_BYTES - self@.bytes_used,
    {
        proof {
            lemma_bytes_bound(self@);
        }
        (DATA_LIMIT_BYTES as i64) - (self.bytes_used as i64)
    }

    /// The number of files and of blobs.
    pub fn metrics(&self) -> (r: Metrics)
        requires
            self.wf(),
        ensures
            r.file_count == self@.files.dom().len(),
            r.blob_count == self@.blobs.dom().len(),
    {
        proof {
            assert(self@.files.dom() =~= self.files@.dom());
            assert(self@.blobs.dom() =~= self.blobs@.dom());
            self.lemma_blobs_le_files();
        }
        Metrics { file_count: self.files.len() as u32, blob_count: self.blobs.len() as u32 }
    }

    /// There are no more blobs than files.
    proof fn lemma_blobs_le_files(&self)
        requires
            self.wf(),
        ensures
            self@.blobs.dom().len() <= self@.files.dom().len(),
    {
        let v = self@;
        assert(v.blobs.dom() =~= v.reference_counts.dom()) by {
            assert forall|h: crate::types::Hash|
                v.blobs.dom().contains(h) <==> v.reference_counts.dom().contains(h) by {
                assert(v.blobs.contains_key(h) <==> v.reference_count(h) > 0);
            }
        }
        crate::collections::map_sum::lemma_sum_at_least_len(v.reference_counts);
    }

    /// Stores `bytes` under `hash` unless a blob with that hash is stored already.
    fn add_blob_if_not_exists(&mut self, hash: crate::types::Hash, bytes: Vec<u8>)
        requires
            old(self).blobs.wf(),
            old(self).bytes_used + bytes@.len() <= u64::MAX,
        ensures
            final(self).blobs.wf(),
            final(self).blobs@ == (if old(self).blobs@.contains_key(hash) {
                old(self).blobs@
            } else {
                old(self).blobs@.insert(hash, bytes)
            }),
            final(self).bytes_used == (if old(self).blobs@.contains_key(hash) {
                old(self).bytes_used as int
            } else {
                old(self).bytes_used + bytes@.len()
            }),
            final(self).files == old(self).files,
            final(self).pending_files == old(self).pending_files,
            final(self).reference_counts == old(self).reference_counts,
            final(self).accessors_map == old(self).accessors_map,
    {
        if !self.blobs.contains_key(&hash) {
            self.bytes_used = self.bytes_used + bytes.len() as u64;
            self.blobs.insert(hash, bytes);
        }
    }

    /// Drops the blob `hash`, if it is stored.
    fn remove_blob(&mut self, hash: &crate::types::Hash)
        requires
            old(self).blobs.wf(),
            old(self).blobs@.contains_key(*hash) ==> old(self).blobs@[*hash]@.len() <= old(
                self,
            ).bytes_used,
        ensures
            final(self).blobs.wf(),
            final(self).blobs@ == old(self).blobs@.remove(*hash),
            final(self).bytes_used == (if old(self).blobs@.contains_key(*hash) {
                old(self).bytes_used - old(self).blobs@[*hash]@.len()
            } else {
                old(self).bytes_used as int
            }),
            final(self).files == old(self).files,
            final(self).pending_files == old(self).pending_files,
            final(self).reference_counts == old(self).reference_counts,
            final(self).accessors_map == old(self).accessors_map,
    {
        match self.blobs.remove(hash) {
            Some(bytes) => {
                self.bytes_used = self.bytes_used - bytes.len() as u64;
            },
            None => {},
        }
    }

    /// Turns a pending file that has all its chunks into a file: links its accessors, counts
    /// the reference and stores the bytes if the blob is new.
    fn insert_completed_file(
        &mut self,
        file_id: FileId,
        completed_file: PendingFile,
        now: TimestampMillis,
    )
        requires
            old(self).wf(),
            !old(self)@.files.contains_key(file_id),
            !old(self)@.pending_files.contains_key(file_id),
            old(self)@.files.dom().len() < u32::MAX,
            completed_file.wf(),
        ensures
            final(self).wf(),
            final(self)@ == old(self)@.with_file(
                file_id,
                completed_file@.completed_file(now),
                completed_file.bytes@,
            ),
    {
        let ghost v = self@;
        let ghost file_view = completed_file@.completed_file(now);
        let PendingFile { uploaded_by, hash, mime_type, accessors, bytes, .. } = completed_file;
        proof {
            accessors.lemma_order();
        }
        let n = accessors.len();
        let mut i: usize = 0;
        while i < n
            invariant
                i <= n,
                n == accessors.order().len(),
                accessors.wf(),
                self.accessors_map.wf(),
                self.files == old(self).files,
                self.pending_files == old(self).pending_files,
                self.reference_counts == old(self).reference_counts,
                self.blobs == old(self).blobs,
                self.bytes_used == old(self).bytes_used,
                forall|a: AccessorId| #[trigger]
                    self.accessors_map.files_of(a) == (if accessors.order().subrange(
                        0,
                        i as int,
                    ).contains(a) {
                        old(self).accessors_map.files_of(a).insert(file_id)
                    } else {
                        old(self).accessors_map.files_of(a)
                    }),
            decreases n - i,
        {
            let accessor_id = accessors.at(i);
            let ghost before = self.accessors_map;
            self.accessors_map.link(accessor_id, file_id);
            proof {
                accessors.lemma_order();
                let done = accessors.order().subrange(0, i as int);
                let next = accessors.order().subrange(0, i + 1);
                assert(next =~= done.push(accessor_id));
                assert(!done.contains(accessor_id)) by {
                    if done.contains(accessor_id) {
                        let j = done.index_of(accessor_id);
                        assert(accessors.order()[j] == accessors.order()[i as int]);
                    }
                }
                assert forall|a: AccessorId| #[trigger]
                    self.accessors_map.files_of(a) == (if next.contains(a) {
                        old(self).accessors_map.files_of(a).insert(file_id)
                    } else {
                        old(self).accessors_map.files_of(a)
                    }) by {
                    assert(before.files_of(a) == (if done.contains(a) {
                        old(self).accessors_map.files_of(a).insert(file_id)
                    } else {
                        old(self).accessors_map.files_of(a)
                    }));
                    if a == accessor_id {
                        assert(next[i as int] == a);
                    } else {
                        if done.contains(a) {
                            let j = done.index_of(a);
                            assert(next[j] == a);
                        }
                        if next.contains(a) {
                            let j = next.index_of(a);
                            assert(done[j] == a);
                        }
                    }
                }
            }
            i += 1;
        }
        proof {
            assert(accessors.order().subrange(0, n as int) =~= accessors.order());
            assert forall|a: AccessorId| #[trigger]
                self.accessors_map.files_of(a) == (if file_view.accessors.contains(a) {
                    v.files_of(a).insert(file_id)
                } else {
                    v.files_of(a)
                }) by {
                assert(file_view.accessors.contains(a) <==> accessors.order().contains(a));
                assert(v.files_of(a) == old(self).accessors_map.files_of(a));
            }
            lemma_bytes_bound(v);
            lemma_files_with_hash(v, hash);
            assert(v.reference_count(hash) == v.files_with_hash(hash).len());
        }
        let file = File { uploaded_by, created: now, accessors, hash, mime_type };
        self.files.insert(file_id, file);
        self.reference_counts.incr(hash);
        let ghost bytes_view = bytes@;
        self.add_blob_if_not_exists(hash, bytes);
        proof {
            let w = self@;
            assert(w.files =~= v.files.insert(file_id, file_view));
            assert(w.pending_files =~= v.pending_files);
            assert(w.blobs =~= (if v.blobs.contains_key(hash) {
                v.blobs
            } else {
                v.blobs.insert(hash, bytes_view)
            }));
            self.accessors_map.lemma_view();
            assert forall|a: AccessorId| #[trigger]
                w.files_of(a) == (if file_view.accessors.contains(a) {
                    v.files_of(a).insert(file_id)
                } else {
                    v.files_of(a)
                }) by {
                assert(w.files_of(a) == self.accessors_map.files_of(a));
            }
            lemma_file_added(v, w, file_id, file_view, bytes_view);
            assert forall|f: FileId| #[trigger] self.files@.contains_key(f) implies self.files@[f].accessors.wf() by {
                if f != file_id {
                    assert(old(self).files@.contains_key(f));
                }
            }
            lemma_with_file_consistent(v, file_id, file_view, bytes_view);
            lemma_store_is_determined(w, v.with_file(file_id, file_view, bytes_view));
        }
    }

    /// Deletes the file `file_id`: unlinks its accessors, counts one reference less and drops
    /// the blob with its last reference.
    fn delete_file(&mut self, file_id: FileId) -> (r: FileRemoved)
        requires
            old(self).wf(),
            old(self)@.files.contains_key(file_id),
        ensures
            final(self).wf(),
            r == old(self)@.file_removed(file_id),
            final(self)@ == old(self)@.without_file(file_id),
    {
        let ghost v = self@;
        let ghost file_view = v.files[file_id];
        let removed = self.files.remove(&file_id);
        let file = removed.unwrap();
        assert(file@ == file_view);
        assert(file.accessors.wf());
        proof {
            file.accessors.lemma_order();
        }
        let n = file.accessors.len();
        let mut i: usize = 0;
        while i < n
            invariant
                i <= n,
                n == file.accessors.order().len(),
                file.accessors.wf(),
                self.accessors_map.wf(),
                self.files@ == old(self).files@.remove(file_id),
                self.files.wf(),
                self.pending_files == old(self).pending_files,
                self.reference_counts == old(self).reference_counts,
                self.blobs == old(self).blobs,
                self.bytes_used == old(self).bytes_used,
                forall|a: AccessorId| #[trigger]
                    self.accessors_map.files_of(a) == (if file.accessors.order().subrange(
                        0,
                        i as int,
                    ).contains(a) {
                        old(self).accessors_map.files_of(a).remove(file_id)
                    } else {
                        old(self).accessors_map.files_of(a)
                    }),
            decreases n - i,
        {
            let accessor_id = file.accessors.at(i);
            let ghost before = self.accessors_map;
            self.accessors_map.unlink(accessor_id, &file_id);
            proof {
                file.accessors.lemma_order();
                let done = file.accessors.order().subrange(0, i as int);
                let next = file.accessors.order().subrange(0, i + 1);
                assert(next =~= done.push(accessor_id));
                assert(!done.contains(accessor_id)) by {
                    if done.contains(accessor_id) {
                        let j = done.index_of(accessor_id);
                        assert(file.accessors.order()[j] == file.accessors.order()[i as int]);
                    }
                }
                assert forall|a: AccessorId| #[trigger]
                    self.accessors_map.files_of(a) == (if next.contains(a) {
                        old(self).accessors_map.files_of(a).remove(file_id)
                    } else {
                        old(self).accessors_map.files_of(a)
                    }) by {
                    assert(before.files_of(a) == (if done.contains(a) {
                        old(self).accessors_map.files_of(a).remove(file_id)
                    } else {
                        old(self).accessors_map.files_of(a)
                    }));
                    if a == accessor_id {
                        assert(next[i as int] == a);
                        assert(self.accessors_map.files_of(a) =~= before.files_of(a).remove(
                            file_id,
                        ));
                    } else {
                        if done.contains(a) {
                            let j = done.index_of(a);
                            assert(next[j] == a);
                        }
                        if next.contains(a) {
                            let j = next.index_of(a);
                            assert(done[j] == a);
                        }
                    }
                }
            }
            i += 1;
        }
        let hash = file.hash;
        proof {
            assert(file.accessors.order().subrange(0, n as int) =~= file.accessors.order());
            lemma_files_with_hash(v, hash);
            assert(v.files_with_hash(hash).contains(file_id));
            assert(v.reference_count(hash) == v.files_with_hash(hash).len());
            assert(v.files_with_hash(hash).len() == v.files_with_hash(hash).remove(file_id).len()
                + 1);
            assert(v.blobs.contains_key(hash) <==> v.reference_count(hash) > 0);
            assert(v.blob_sizes().dom() =~= v.blobs.dom());
            lemma_sum_remove(v.blob_sizes(), hash);
        }
        let mut blob_deleted = false;
        if self.reference_counts.decr(hash) == 0 {
            self.remove_blob(&hash);
            blob_deleted = true;
        }
        proof {
            let w = self@;
            assert(w.files =~= v.files.remove(file_id));
            assert(w.pending_files =~= v.pending_files);
            assert(w.blobs =~= v.blobs_without_file(file_id));
            self.accessors_map.lemma_view();
            assert forall|a: AccessorId| #[trigger]
                w.files_of(a) == v.files_of(a).remove(file_id) by {
                assert(w.files_of(a) == self.accessors_map.files_of(a));
                assert(v.files_of(a) == old(self).accessors_map.files_of(a));
                assert(file_view.accessors.contains(a) <==> file.accessors.order().contains(a));
                assert(v.files_of(a).contains(file_id) <==> (v.files.contains_key(file_id)
                    && v.files[file_id].accessors.contains(a)));
                if !file_view.accessors.contains(a) {
                    assert(v.files_of(a).remove(file_id) =~= v.files_of(a));
                }
            }
            lemma_file_deleted(v, w, file_id);
            assert forall|f: FileId| #[trigger] self.files@.contains_key(f) implies self.files@[f].accessors.wf() by {
                assert(old(self).files@.contains_key(f));
            }
            lemma_without_file_consistent(v, file_id);
            lemma_store_is_determined(w, v.without_file(file_id));
        }
        FileRemoved { file_id, uploaded_by: file.uploaded_by, hash, blob_deleted }
    }

    /// Deletes the file `file_id` on behalf of `uploaded_by`.
    ///
    /// Nothing changes when there is no such file (`NotFound`) or when somebody else uploaded
    /// it (`NotAuthorized`). Otherwise the file goes, and its blob with it if no other file
    /// refers to it.
    pub fn remove(&mut self, uploaded_by: UserId, file_id: FileId) -> (r: RemoveFileResult)
        requires
            old(self).wf(),
        ensures
            final(self).wf(),
            r == old(self)@.remove_result(uploaded_by, file_id),
            final(self)@ == old(self)@.after_remove(uploaded_by, file_id),
    {
        let authorized = match self.files.get(&file_id) {
            None => {
                return RemoveFileResult::NotFound;
            },
            Some(file) => file.uploaded_by.same(&uploaded_by),
        };
        if !authorized {
            RemoveFileResult::NotAuthorized
        } else {
            RemoveFileResult::Success(self.delete_file(file_id))
        }
    }

    /// Drops the pending file `file_id`; returns whether there was one.
    pub fn remove_pending_file(&mut self, file_id: &FileId) -> (r: bool)
        requires
            old(self).wf(),
        ensures
            final(self).wf(),
            r == old(self)@.pending_files.contains_key(*file_id),
            final(self)@ == old(self)@.with_pending_files(
                old(self)@.pending_files.remove(*file_id),
            ),
    {
        self.take_pending(*file_id).is_some()
    }

    /// Takes `accessor_id` off the file `file_id`, which names it. A file that named no other
    /// accessor is deleted, and the event of its deletion returned.
    fn detach_accessor(&mut self, accessor_id: AccessorId, file_id: FileId) -> (r: Option<
        FileRemoved,
    >)
        requires
            old(self).wf(),
            old(self)@.files.contains_key(file_id),
            old(self)@.files[file_id].accessors.contains(accessor_id),
        ensures
            final(self).wf(),
            final(self)@.pending_files == old(self)@.pending_files,
            r == (if old(self)@.files[file_id].orphaned_without(accessor_id) {
                Some(old(self)@.file_removed(file_id))
            } else {
                None
            }),
            final(self)@.files == (if old(self)@.files[file_id].orphaned_without(accessor_id) {
                old(self)@.files.remove(file_id)
            } else {
                old(self)@.files.insert(
                    file_id,
                    old(self)@.files[file_id].without_accessor(accessor_id),
                )
            }),
            final(self)@.blobs == (if old(self)@.files[file_id].orphaned_without(accessor_id) {
                old(self)@.blobs_without_file(file_id)
            } else {
                old(self)@.blobs
            }),
    {
        let ghost v = self@;
        let ghost accessors = v.files[file_id].accessors;
        let only = match self.files.get(&file_id) {
            Some(file) => file.accessors.len() == 1,
            None => false,
        };
        proof {
            assert(accessors.finite());
            assert(accessors.len() == accessors.remove(accessor_id).len() + 1);
            if accessors.remove(accessor_id).len() == 0 {
                assert(accessors.remove(accessor_id) =~= Set::<AccessorId>::empty());
            }
        }
        if only {
            Some(self.delete_file(file_id))
        } else {
            let removed = self.files.remove(&file_id);
            let mut file = removed.unwrap();
            file.accessors.remove(&accessor_id);
            self.files.insert(file_id, file);
            self.accessors_map.unlink(accessor_id, &file_id);
            proof {
                let w = self@;
                assert(w.files =~= v.files.insert(
                    file_id,
                    v.files[file_id].without_accessor(accessor_id),
                ));
                assert(w.pending_files =~= v.pending_files);
                assert(w.blobs =~= v.blobs);
                self.accessors_map.lemma_view();
                assert forall|a: AccessorId| #[trigger]
                    w.files_of(a) == (if a == accessor_id {
                        v.files_of(a).remove(file_id)
                    } else {
                        v.files_of(a)
                    }) by {
                    assert(w.files_of(a) == self.accessors_map.files_of(a));
                    assert(v.files_of(a) == old(self).accessors_map.files_of(a));
                    if a == accessor_id {
                        assert(w.files_of(a) =~= v.files_of(a).remove(file_id));
                    }
                }
                lemma_accessor_detached(v, w, file_id, accessor_id);
                assert forall|f: FileId| #[trigger] self.files@.contains_key(f) implies self.files@[f].accessors.wf() by {
                    if f != file_id {
                        assert(old(self).files@.contains_key(f));
                    }
                }
            }
            None
        }
    }

    /// Revokes `accessor_id`.
    ///
    /// Every file that names it stops naming it. A file that named no other accessor is
    /// deleted, whoever uploaded it, and its blob with it if no other file refers to it.
    /// Files that did not name it stay as they are. Returns the events of the deletions.
    pub fn remove_accessor(&mut self, accessor_id: &AccessorId) -> (removed: Vec<FileRemoved>)
        requires
            old(self).wf(),
        ensures
            final(self).wf(),
            final(self)@ == old(self)@.keeping(old(self)@.files_without_accessor(*accessor_id)),
            is_removal_log(old(self)@.files, old(self)@.orphans_of(*accessor_id), removed@),
    {
        let ghost v = self@;
        let a = *accessor_id;
        let mut removed: Vec<FileRemoved> = Vec::new();
        let ids = self.accessors_map.file_ids(accessor_id);
        proof {
            lemma_removal_log_empty(v.files);
            assert(v.files_of(a) == self.accessors_map.files_of(a));
            assert(Set::new(
                |f: FileId|
                    ids@.subrange(0, 0).contains(f) && v.files.contains_key(f)
                        && v.files[f].orphaned_without(a),
            ) =~= Set::<FileId>::empty());
        }
        let mut i: usize = 0;
        while i < ids.len()
            invariant
                i <= ids@.len(),
                a == *accessor_id,
                v == old(self)@,
                v.consistent(),
                ids@.no_duplicates(),
                ids@.to_set() == v.files_of(a),
                self.wf(),
                self@.pending_files == v.pending_files,
                forall|f: FileId| #[trigger]
                    self@.files.contains_key(f) <==> v.files.contains_key(f) && !(ids@.subrange(
                        0,
                        i as int,
                    ).contains(f) && v.files[f].orphaned_without(a)),
                forall|f: FileId| #[trigger]
                    self@.files.contains_key(f) ==> self@.files[f] == (if ids@.subrange(
                        0,
                        i as int,
                    ).contains(f) {
                        v.files[f].without_accessor(a)
                    } else {
                        v.files[f]
                    }),
                forall|h: crate::types::Hash| #[trigger]
                    self@.blobs.contains_key(h) ==> v.blobs.contains_key(h) && self@.blobs[h]
                        == v.blobs[h],
                is_removal_log(
                    v.files,
                    Set::new(
                        |f: FileId|
                            ids@.subrange(0, i as int).contains(f) && v.files.contains_key(f)
                                && v.files[f].orphaned_without(a),
                    ),
                    removed@,
                ),
            decreases ids@.len() - i,
        {
            let file_id = ids[i];
            let ghost cur = self@;
            let ghost log = removed@;
            let ghost done = ids@.subrange(0, i as int);
            let ghost next = ids@.subrange(0, i + 1);
            let ghost deleted = Set::new(
                |f: FileId|
                    done.contains(f) && v.files.contains_key(f) && v.files[f].orphaned_without(a),
            );
            proof {
                assert(next =~= done.push(file_id));
                assert(!done.contains(file_id)) by {
                    if done.contains(file_id) {
                        let j = done.index_of(file_id);
                        assert(ids@[j] == ids@[i as int]);
                    }
                }
                assert(ids@.contains(file_id));
                assert(v.files_of(a).contains(file_id));
                assert(v.files.contains_key(file_id) && v.files[file_id].accessors.contains(a));
                assert(cur.files.contains_key(file_id));
                assert(cur.files[file_id] == v.files[file_id]);
                self.lemma_consistent();
            }
            let event = self.detach_accessor(a, file_id);
            match event {
                Some(event) => {
                    removed.push(event);
                    proof {
                        lemma_removal_log_single(cur, file_id);
                        lemma_removal_log_concat(
                            v.files,
                            deleted,
                            log,
                            cur.files,
                            set![file_id],
                            seq![event],
                        );
                        assert(removed@ =~= log + seq![event]);
                        assert(Set::new(
                            |f: FileId|
                                next.contains(f) && v.files.contains_key(f)
                                    && v.files[f].orphaned_without(a),
                        ) =~= deleted.union(set![file_id])) by {
                            assert forall|f: FileId|
                                next.contains(f) <==> done.contains(f) || f == file_id by {
                                if done.contains(f) {
                                    let j = done.index_of(f);
                                    assert(next[j] == f);
                                }
                                if next.contains(f) {
                                    let j = next.index_of(f);
                                    if j < i {
                                        assert(done[j] == f);
                                    }
                                }
                                if f == file_id {
                                    assert(next[i as int] == f);
                                }
                            }
                        }
                    }
                },
                None => {
                    proof {
                        assert(Set::new(
                            |f: FileId|
                                next.contains(f) && v.files.contains_key(f)
                                    && v.files[f].orphaned_without(a),
                        ) =~= deleted) by {
                            assert forall|f: FileId|
                                next.contains(f) <==> done.contains(f) || f == file_id by {
                                if done.contains(f) {
                                    let j = done.index_of(f);
                                    assert(next[j] == f);
                                }
                                if next.contains(f) {
                                    let j = next.index_of(f);
                                    if j < i {
                                        assert(done[j] == f);
                                    }
                                }
                                if f == file_id {
                                    assert(next[i as int] == f);
                                }
                            }
                        }
                    }
                },
            }
            proof {
                assert forall|f: FileId|
                    next.contains(f) <==> done.contains(f) || f == file_id by {
                    if done.contains(f) {
                        let j = done.index_of(f);
                        assert(next[j] == f);
                    }
                    if next.contains(f) {
                        let j = next.index_of(f);
                        if j < i {
                            assert(done[j] == f);
                        }
                    }
                    if f == file_id {
                        assert(next[i as int] == f);
                    }
                }
                assert forall|f: FileId| #[trigger]
                    self@.files.contains_key(f) <==> v.files.contains_key(f) && !(next.contains(f)
                        && v.files[f].orphaned_without(a)) by {
                    assert(cur.files.contains_key(f) <==> v.files.contains_key(f) && !(
                    done.contains(f) && v.files[f].orphaned_without(a)));
                }
                assert forall|f: FileId| #[trigger] self@.files.contains_key(f) implies self@.files[f]
                    == (if next.contains(f) {
                    v.files[f].without_accessor(a)
                } else {
                    v.files[f]
                }) by {
                    if f != file_id {
                        assert(cur.files.contains_key(f));
                    }
                }
                assert forall|h: crate::types::Hash| #[trigger]
                    self@.blobs.contains_key(h) implies v.blobs.contains_key(h) && self@.blobs[h]
                    == v.blobs[h] by {
                    assert(cur.blobs.contains_key(h));
                }
            }
            i += 1;
        }
        proof {
            let w = self@;
            let done = ids@.subrange(0, ids@.len() as int);
            assert(done =~= ids@);
            self.lemma_consistent();
            assert forall|f: FileId| ids@.contains(f) <==> (v.files.contains_key(f)
                && v.files[f].accessors.contains(a)) by {
                assert(ids@.to_set().contains(f) <==> ids@.contains(f));
                assert(v.files_of(a).contains(f) <==> (v.files.contains_key(f)
                    && v.files[f].accessors.contains(a)));
            }
            assert forall|f: FileId| #[trigger]
                w.files.contains_key(f) <==> v.files_without_accessor(a).contains_key(f) by {
                assert(w.files.contains_key(f) <==> v.files.contains_key(f) && !(done.contains(f)
                    && v.files[f].orphaned_without(a)));
            }
            assert forall|f: FileId| #[trigger] w.files.contains_key(f) implies w.files[f]
                == v.files_without_accessor(a)[f] by {
                if !ids@.contains(f) {
                    assert(v.files[f].accessors.remove(a) =~= v.files[f].accessors);
                }
            }
            assert(w.files =~= v.files_without_accessor(a));
            assert(Set::new(
                |f: FileId|
                    done.contains(f) && v.files.contains_key(f) && v.files[f].orphaned_without(a),
            ) =~= v.orphans_of(a));
            assert forall|h: crate::types::Hash|
                w.blobs.contains_key(h) <==> blobs_in_use(v.blobs, w.files).contains_key(h) by {
                lemma_blob_stored_iff_in_use(w, h);
            }
            assert(w.blobs =~= blobs_in_use(v.blobs, w.files));
            lemma_consistent_is_made_of(w);
        }
        removed
    }

    /// The files that `user_id` uploaded, in no particular order, each once.
    pub fn files_uploaded_by(&self, user_id: &UserId) -> (ids: Vec<FileId>)
        requires
            self.wf(),
        ensures
            ids@.no_duplicates(),
            ids@.to_set() == uploads_of(self@.files, *user_id),
    {
        let mut ids: Vec<FileId> = Vec::new();
        proof {
            self.files.lemma_order();
        }
        let n = self.files.len();
        let mut i: usize = 0;
        while i < n
            invariant
                i <= n,
                n == self.files.order().len(),
                self.files.wf(),
                self.files.order().no_duplicates(),
                ids@.no_duplicates(),
                forall|f: FileId|
                    ids@.contains(f) <==> self.files.order().subrange(0, i as int).contains(f)
                        && self.files@[f].uploaded_by == *user_id,
            decreases n - i,
        {
            let file_id = self.files.key_at(i);
            let file = self.files.value_at(i);
            let ghost before = ids@;
            proof {
                lemma_prefix_set_grows(self.files.order(), i as int);
            }
            if file.uploaded_by.same(user_id) {
                ids.push(file_id);
                proof {
                    assert(!before.contains(file_id));
                    assert forall|a: int, b: int|
                        0 <= a < ids@.len() && 0 <= b < ids@.len() && a != b implies ids@[a]
                        != ids@[b] by {
                        if a < before.len() {
                            assert(before.contains(before[a]));
                        }
                        if b < before.len() {
                            assert(before.contains(before[b]));
                        }
                    }
                }
            }
            proof {
                let done = self.files.order().subrange(0, i as int);
                let next = self.files.order().subrange(0, i + 1);
                assert forall|f: FileId|
                    ids@.contains(f) <==> next.contains(f) && self.files@[f].uploaded_by
                        == *user_id by {
                    assert(next.to_set().contains(f) <==> next.contains(f));
                    assert(done.to_set().contains(f) <==> done.contains(f));
                    assert(before.contains(f) <==> done.contains(f) && self.files@[f].uploaded_by
                        == *user_id);
                    if ids@.contains(f) {
                        let j = ids@.index_of(f);
                        if j < before.len() {
                            assert(before[j] == f);
                        }
                    }
                    if before.contains(f) {
                        let j = before.index_of(f);
                        assert(ids@[j] == f);
                    }
                    if f == file_id && file.uploaded_by == *user_id {
                        assert(ids@[before.len() as int] == f);
                    }
                }
            }
            i += 1;
        }
        proof {
            assert(self.files.order().subrange(0, n as int) =~= self.files.order());
            assert forall|f: FileId|
                ids@.to_set().contains(f) <==> uploads_of(self@.files, *user_id).contains(f) by {
                assert(ids@.to_set().contains(f) <==> ids@.contains(f));
                assert(self@.files.contains_key(f) <==> self.files@.contains_key(f));
            }
            assert(ids@.to_set() =~= uploads_of(self@.files, *user_id));
        }
        ids
    }

    /// Deletes every file that `user_id` uploaded, and each blob that no other file refers
    /// to. Returns the events of the deletions.
    pub fn remove_user_files(&mut self, user_id: UserId) -> (removed: Vec<FileRemoved>)
        requires
            old(self).wf(),
        ensures
            final(self).wf(),
            final(self)@ == old(self)@.keeping(without_uploads_of(old(self)@.files, user_id)),
            is_removal_log(old(self)@.files, uploads_of(old(self)@.files, user_id), removed@),
    {
        let ghost v = self@;
        let mut removed: Vec<FileRemoved> = Vec::new();
        let ids = self.files_uploaded_by(&user_id);
        proof {
            lemma_removal_log_empty(v.files);
            assert(ids@.subrange(0, 0).to_set() =~= Set::<FileId>::empty());
            assert(v.files.remove_keys(Set::<FileId>::empty()) =~= v.files);
        }
        let mut i: usize = 0;
        while i < ids.len()
            invariant
                i <= ids@.len(),
                v == old(self)@,
                ids@.no_duplicates(),
                ids@.to_set() == uploads_of(v.files, user_id),
                self.wf(),
                self@.pending_files == v.pending_files,
                self@.files == v.files.remove_keys(ids@.subrange(0, i as int).to_set()),
                forall|h: crate::types::Hash| #[trigger]
                    self@.blobs.contains_key(h) ==> v.blobs.contains_key(h) && self@.blobs[h]
                        == v.blobs[h],
                is_removal_log(v.files, ids@.subrange(0, i as int).to_set(), removed@),
            decreases ids@.len() - i,
        {
            let file_id = ids[i];
            let ghost cur = self@;
            let ghost log = removed@;
            let ghost done = ids@.subrange(0, i as int).to_set();
            proof {
                lemma_prefix_set_grows(ids@, i as int);
                assert(ids@.to_set().contains(file_id));
                assert(v.files.contains_key(file_id));
                assert(!done.contains(file_id));
                assert(cur.files.contains_key(file_id));
                self.lemma_consistent();
                lemma_removal_log_single(cur, file_id);
            }
            let event = self.delete_file(file_id);
            removed.push(event);
            proof {
                lemma_removal_log_concat(
                    v.files,
                    done,
                    log,
                    cur.files,
                    set![file_id],
                    seq![event],
                );
                assert(removed@ =~= log + seq![event]);
                assert(done.union(set![file_id]) =~= done.insert(file_id));
                assert(self@.files =~= v.files.remove_keys(done.insert(file_id)));
                assert forall|h: crate::types::Hash| #[trigger]
                    self@.blobs.contains_key(h) implies v.blobs.contains_key(h) && self@.blobs[h]
                    == v.blobs[h] by {
                    assert(cur.blobs.contains_key(h));
                }
            }
            i += 1;
        }
        proof {
            let w = self@;
            assert(ids@.subrange(0, ids@.len() as int) =~= ids@);
            self.lemma_consistent();
            assert forall|h: crate::types::Hash|
                w.blobs.contains_key(h) <==> blobs_in_use(v.blobs, w.files).contains_key(h) by {
                lemma_blob_stored_iff_in_use(w, h);
            }
            assert(w.blobs =~= blobs_in_use(v.blobs, w.files));
            lemma_consistent_is_made_of(w);
        }
        removed
    }

    /// For each blob, the uploaders of the files that refer to it: one entry for each file,
    /// so that a user who uploaded the same content twice is listed twice.
    pub fn reference_counts(&self) -> (r: VecMap<crate::types::Hash, Vec<UserId>>)
        requires
            self.wf(),
        ensures
            r.wf(),
            r@.dom() == self@.blobs.dom(),
            forall|hash: crate::types::Hash| #[trigger]
                r@.contains_key(hash) ==> self@.is_uploader_list(hash, r@[hash]@),
    {
        let mut r: VecMap<crate::types::Hash, Vec<UserId>> = VecMap::new();
        let ghost mut listed: Map<crate::types::Hash, Seq<FileId>> = Map::empty();
        let ghost v = self@;
        proof {
            self.files.lemma_order();
        }
        let n = self.files.len();
        let mut i: usize = 0;
        while i < n
            invariant
                i <= n,
                n == self.files.order().len(),
                v == self@,
                self.files.wf(),
                self.files.order().no_duplicates(),
                r.wf(),
                r@.dom() == listed.dom(),
                forall|h: crate::types::Hash| #[trigger]
                    listed.contains_key(h) ==> listed[h].no_duplicates() && listed[h].len() > 0
                        && r@[h]@ == listed[h].map_values(
                        |file_id: FileId| v.files[file_id].uploaded_by,
                    ),
                forall|h: crate::types::Hash, f: FileId| #[trigger]
                    names(listed, h, f) <==> self.files.order().subrange(0, i as int).contains(f)
                        && v.files[f].hash == h,
            decreases n - i,
        {
            let file_id = self.files.key_at(i);
            let file = self.files.value_at(i);
            let hash = file.hash;
            let ghost before = listed;
            let ghost done = self.files.order().subrange(0, i as int);
            let ghost next = self.files.order().subrange(0, i + 1);
            let ghost old_ids = if before.contains_key(hash) {
                before[hash]
            } else {
                Seq::<FileId>::empty()
            };
            proof {
                lemma_prefix_set_grows(self.files.order(), i as int);
                assert(v.files.contains_key(file_id));
                assert(v.files[file_id] == file@);
            }
            let mut list = match r.remove(&hash) {
                Some(list) => list,
                None => Vec::new(),
            };
            assert(list@ == old_ids.map_values(|f: FileId| v.files[f].uploaded_by)) by {
                if !before.contains_key(hash) {
                    assert(list@ =~= old_ids.map_values(|f: FileId| v.files[f].uploaded_by));
                }
            }
            list.push(file.uploaded_by);
            r.insert(hash, list);
            proof {
                let new_ids = old_ids.push(file_id);
                listed = before.insert(hash, new_ids);
                assert(r@.dom() =~= listed.dom());
                assert(!old_ids.contains(file_id)) by {
                    if old_ids.contains(file_id) {
                        assert(names(before, hash, file_id));
                        assert(done.contains(file_id));
                    }
                }
                assert(new_ids.no_duplicates()) by {
                    assert forall|a: int, b: int|
                        0 <= a < new_ids.len() && 0 <= b < new_ids.len() && a != b implies new_ids[a]
                        != new_ids[b] by {
                        if a < old_ids.len() {
                            assert(old_ids.contains(old_ids[a]));
                        }
                        if b < old_ids.len() {
                            assert(old_ids.contains(old_ids[b]));
                        }
                    }
                }
                assert(r@[hash]@ =~= new_ids.map_values(|f: FileId| v.files[f].uploaded_by));
                assert forall|h: crate::types::Hash| #[trigger]
                    listed.contains_key(h) implies listed[h].no_duplicates() && listed[h].len() > 0
                    && r@[h]@ == listed[h].map_values(|f: FileId| v.files[f].uploaded_by) by {
                    if h != hash {
                        assert(before.contains_key(h));
                    }
                }
                assert forall|h: crate::types::Hash, f: FileId| #[trigger]
                    names(listed, h, f) <==> next.contains(f) && v.files[f].hash == h by {
                    assert(next.to_set().contains(f) <==> next.contains(f));
                    assert(done.to_set().contains(f) <==> done.contains(f));
                    assert(names(before, h, f) <==> done.contains(f) && v.files[f].hash == h);
                    if h == hash {
                        if new_ids.contains(f) {
                            let j = new_ids.index_of(f);
                            if j < old_ids.len() {
                                assert(old_ids[j] == f);
                                assert(old_ids.contains(f));
                                assert(before.contains_key(hash));
                            }
                        }
                        if old_ids.contains(f) {
                            let j = old_ids.index_of(f);
                            assert(new_ids[j] == f);
                        }
                        if f == file_id {
                            assert(new_ids[old_ids.len() as int] == f);
                        }
                    }
                }
            }
            i += 1;
        }
        proof {
            assert(self.files.order().subrange(0, n as int) =~= self.files.order());
            self.lemma_consistent();
            assert forall|h: crate::types::Hash| r@.dom().contains(h) <==> v.blobs.dom().contains(
                h,
            ) by {
                lemma_blob_stored_iff_in_use(v, h);
                if listed.contains_key(h) {
                    let f = listed[h][0];
                    assert(listed[h].contains(f));
                    assert(names(listed, h, f));
                    assert(self.files.order().contains(f));
                    assert(self.files@.contains_key(f));
                    assert(v.files.contains_key(f) && v.files[f].hash == h);
                }
                if crate::bucket::model::hash_in_use(v.files, h) {
                    let f = choose|f: FileId| #[trigger]
                        v.files.contains_key(f) && v.files[f].hash == h;
                    assert(self.files@.contains_key(f));
                    assert(self.files.order().contains(f));
                    assert(names(listed, h, f));
                }
            }
            assert(r@.dom() =~= v.blobs.dom());
            assert forall|h: crate::types::Hash| #[trigger] r@.contains_key(h) implies v.is_uploader_list(
                h,
                r@[h]@,
            ) by {
                assert(listed.contains_key(h));
                assert forall|f: FileId|
                    listed[h].to_set().contains(f) <==> v.files_with_hash(h).contains(f) by {
                    assert(listed[h].to_set().contains(f) <==> listed[h].contains(f));
                    assert(names(listed, h, f) <==> self.files.order().contains(f)
                        && v.files[f].hash == h);
                    assert(v.files.contains_key(f) <==> self.files@.contains_key(f));
                    assert(self.files@.contains_key(f) <==> self.files.order().contains(f));
                }
                assert(listed[h].to_set() =~= v.files_with_hash(h));
                assert(v.lists_uploaders(h, listed[h], r@[h]@));
            }
        }
        r
    }

    /// Takes the store apart into the lists of its files, its pending files and its blobs.
    pub fn into_snapshot(self) -> (snapshot: FilesSnapshot)
        requires
            self.wf(),
        ensures
            snapshot.sets_wf(),
            snapshot.valid(),
            self@ == snapshot.store(),
    {
        let ghost v = self@;
        let ghost files0 = self.files@;
        let ghost pending0 = self.pending_files@;
        let ghost blobs0 = self.blobs@;
        proof {
            self.files.lemma_order();
            assert(v.files.dom() =~= files0.dom());
            lemma_consistent_is_made_of(v);
        }
        let Files { files, pending_files, blobs, .. } = self;
        let snapshot = FilesSnapshot {
            files: files.into_entries(),
            pending_files: pending_files.into_entries(),
            blobs: blobs.into_entries(),
        };
        proof {
            lemma_map_of_dom(snapshot.files@);
            lemma_map_of_dom(snapshot.blobs@);
            lemma_map_of_dom(snapshot.pending_files@);
            assert forall|i: int| 0 <= i < snapshot.files@.len() implies (
            #[trigger] snapshot.files@[i]).1.accessors.wf() && snapshot.blobs_view().contains_key(
                snapshot.files@[i].1.hash,
            ) by {
                lemma_map_of_entry(snapshot.files@, i);
                let f = snapshot.files@[i].0;
                assert(files0.contains_key(f));
                assert(v.files.contains_key(f) && v.files[f].hash == snapshot.files@[i].1.hash);
                lemma_blob_stored_iff_in_use(v, snapshot.files@[i].1.hash);
            }
            assert forall|i: int| 0 <= i < snapshot.blobs@.len() implies (
            #[trigger] snapshot.blobs@[i]).1@.len() <= MAX_BLOB_SIZE_BYTES && crate::bucket::model::hash_in_use(
                snapshot.files_view(),
                snapshot.blobs@[i].0,
            ) by {
                lemma_map_of_entry(snapshot.blobs@, i);
                let h = snapshot.blobs@[i].0;
                assert(blobs0.contains_key(h));
                assert(v.blobs.contains_key(h));
                lemma_blob_stored_iff_in_use(v, h);
            }
            assert forall|i: int| 0 <= i < snapshot.pending_files@.len() implies {
                &&& (#[trigger] snapshot.pending_files@[i]).1.wf_sets()
                &&& !snapshot.files_view().contains_key(snapshot.pending_files@[i].0)
                &&& snapshot.pending_files@[i].1@.well_formed()
                &&& !snapshot.pending_files@[i].1@.is_completed()
            } by {
                lemma_map_of_entry(snapshot.pending_files@, i);
                let f = snapshot.pending_files@[i].0;
                assert(pending0.contains_key(f));
                assert(v.pending_files.contains_key(f));
                assert(!(v.files.contains_key(f) && v.pending_files.contains_key(f)));
            }
        }
        snapshot
    }

    /// Builds the store that `snapshot` lists, or `None` when the snapshot is not that of a
    /// store.
    pub fn from_snapshot(snapshot: FilesSnapshot) -> (r: Option<Files>)
        requires
            snapshot.sets_wf(),
        ensures
            r is Some <==> snapshot.valid(),
            r matches Some(store) ==> store.wf() && store@ == snapshot.store(),
    {
        let ghost files0 = snapshot.files@;
        let ghost pending0 = snapshot.pending_files@;
        let ghost blobs0 = snapshot.blobs@;
        let ghost n = files0.len() as int;
        let ghost m = pending0.len() as int;
        let FilesSnapshot { files, pending_files, blobs } = snapshot;
        if files.len() > u32::MAX as usize {
            return None;
        }
        let mut blob_map = match VecMap::from_entries(blobs) {
            Some(map) => map,
            None => {
                return None;
            },
        };
        proof {
            lemma_map_of_dom(blobs0);
            blob_map.lemma_order();
        }
        let blob_count = blob_map.len();
        let mut b: usize = 0;
        while b < blob_count
            invariant
                b <= blob_count,
                blob_count == blob_map.order().len(),
                blob_map.wf(),
                blob_map@ == map_of(blobs0),
                blobs0 == snapshot.blobs@,
                keys_of(blobs0).no_duplicates(),
                forall|j: int|
                    0 <= j < b ==> blob_map@[blob_map.order()[j]]@.len() <= MAX_BLOB_SIZE_BYTES,
            decreases blob_count - b,
        {
            if blob_map.value_at(b).len() > MAX_BLOB_SIZE_BYTES as usize {
                proof {
                    let h = blob_map.order()[b as int];
                    assert(keys_of(blobs0).contains(h));
                    let i = keys_of(blobs0).index_of(h);
                    lemma_map_of_entry(blobs0, i);
                    assert(blobs0[i].0 == h);
                }
                return None;
            }
            b += 1;
        }
        proof {
            assert forall|h: crate::types::Hash| #[trigger]
                blob_map@.contains_key(h) implies blob_map@[h]@.len() <= MAX_BLOB_SIZE_BYTES by {
                let j = blob_map.order().index_of(h);
                assert(blob_map.order()[j] == h);
            }
            assert forall|i: int| 0 <= i < blobs0.len() implies (#[trigger] blobs0[i]).1@.len()
                <= MAX_BLOB_SIZE_BYTES by {
                lemma_map_of_entry(blobs0, i);
            }
        }
        let ghost blob_model = blob_map@;
        let mut store = Files::new();
        let mut rest = files;
        proof {
            assert(map_of(files0.subrange(n, n)).map_values(|f: File| f@) =~= Map::<
                FileId,
                FileView,
            >::empty());
            assert(store@.blobs =~= Map::<crate::types::Hash, Seq<u8>>::empty());
            assert(blob_map@ =~= blob_model.remove_keys(store@.blobs.dom()));
        }
        while rest.len() > 0
            invariant
                files0 == snapshot.files@,
                blobs0 == snapshot.blobs@,
                n == files0.len() <= u32::MAX,
                rest@.len() <= n,
                rest@ == files0.subrange(0, rest@.len() as int),
                forall|i: int| 0 <= i < files0.len() ==> (#[trigger] files0[i]).1.accessors.wf(),
                store.wf(),
                keys_of(files0.subrange(rest@.len() as int, n)).no_duplicates(),
                store@.files == map_of(files0.subrange(rest@.len() as int, n)).map_values(
                    |f: File| f@,
                ),
                store@.pending_files == Map::<FileId, PendingFileView>::empty(),
                blob_map.wf(),
                blob_model == map_of(blobs0),
                keys_of(blobs0).no_duplicates(),
                forall|h: crate::types::Hash| #[trigger]
                    blob_model.contains_key(h) ==> blob_model[h]@.len() <= MAX_BLOB_SIZE_BYTES,
                blob_map@ == blob_model.remove_keys(store@.blobs.dom()),
                forall|h: crate::types::Hash| #[trigger]
                    store@.blobs.contains_key(h) ==> blob_model.contains_key(h) && store@.blobs[h]
                        == blob_model[h]@,
            decreases rest@.len(),
        {
            let ghost i = rest@.len() - 1;
            let ghost tail = files0.subrange(i + 1, n);
            let ghost more = files0.subrange(i, n);
            let ghost before = store@;
            let entry = rest.pop().unwrap();
            let file_id = entry.0;
            let file = entry.1;
            proof {
                assert(entry == files0[i]);
                assert(more =~= seq![files0[i]] + tail);
                lemma_map_of_dom(tail);
                store.lemma_consistent();
                assert(before.files.dom() =~= map_of(tail).dom());
                assert(before.files.dom().len() < u32::MAX);
            }
            if store.files.contains_key(&file_id) {
                proof {
                    assert(keys_of(tail).contains(file_id));
                    let j = keys_of(tail).index_of(file_id);
                    assert(keys_of(tail)[j] == file_id);
                    assert(keys_of(files0)[i] == file_id);
                    assert(keys_of(files0)[i + 1 + j] == tail[j].0);
                    assert(keys_of(files0)[i] == keys_of(files0)[i + 1 + j]);
                }
                return None;
            }
            let hash = file.hash;
            let bytes = if store.blobs.contains_key(&hash) {
                Vec::new()
            } else {
                match blob_map.remove(&hash) {
                    Some(bytes) => bytes,
                    None => {
                        proof {
                            assert(!blob_model.contains_key(hash));
                            assert(!map_of(blobs0).map_values(|b: Vec<u8>| b@).contains_key(hash));
                            assert(files0[i].1.hash == hash);
                        }
                        return None;
                    },
                }
            };
            let ghost file_view = file@;
            let completed = PendingFile {
                uploaded_by: file.uploaded_by,
                created: file.created,
                hash,
                mime_type: file.mime_type,
                accessors: file.accessors,
                chunk_size: 0,
                total_size: bytes.len() as u64,
                remaining_chunks: VecSet::new(),
                bytes,
            };
            proof {
                completed.accessors.lemma_order();
                completed.remaining_chunks.lemma_order();
                assert(completed@.completed_file(file.created) == file_view);
            }
            store.insert_completed_file(file_id, completed, file.created);
            proof {
                let ks = keys_of(more);
                assert forall|a: int, c: int| 0 <= a < ks.len() && 0 <= c < ks.len() && a
                    != c implies ks[a] != ks[c] by {
                    if a > 0 {
                        assert(ks[a] == keys_of(tail)[a - 1]);
                    }
                    if c > 0 {
                        assert(ks[c] == keys_of(tail)[c - 1]);
                    }
                }
                lemma_map_of_dom(more);
                assert forall|k: FileId| ks.contains(k) <==> (keys_of(tail).contains(k) || k
                    == file_id) by {
                    if ks.contains(k) {
                        let j = ks.index_of(k);
                        if j > 0 {
                            assert(keys_of(tail)[j - 1] == k);
                        }
                    }
                    if keys_of(tail).contains(k) {
                        let j = keys_of(tail).index_of(k);
                        assert(ks[j + 1] == k);
                    }
                    if k == file_id {
                        assert(ks[0] == k);
                    }
                }
                assert forall|k: FileId| ks.contains(k) implies #[trigger] map_of(more)[k] == map_of(
                    tail,
                ).insert(file_id, files0[i].1)[k] by {
                    let j = ks.index_of(k);
                    lemma_map_of_entry(more, j);
                    if j > 0 {
                        assert(keys_of(tail)[j - 1] == k);
                        lemma_map_of_entry(tail, j - 1);
                    }
                }
                assert(map_of(more) =~= map_of(tail).insert(file_id, files0[i].1));
                assert(store@.files =~= map_of(more).map_values(|f: File| f@));
                assert(blob_map@ =~= blob_model.remove_keys(store@.blobs.dom()));
            }
        }
        proof {
            assert(files0.subrange(0, n) =~= files0);
            store.lemma_consistent();
        }
        if blob_map.len() != 0 {
            proof {
                blob_map.lemma_order();
                let h = blob_map.order()[0];
                assert(blob_map.order().contains(h));
                assert(blob_map@.contains_key(h));
                assert(blob_model.contains_key(h) && !store@.blobs.contains_key(h));
                lemma_blob_stored_iff_in_use(store@, h);
                assert(keys_of(blobs0).contains(h));
                let i = keys_of(blobs0).index_of(h);
                assert(blobs0[i].0 == h);
            }
            return None;
        }
        proof {
            blob_map.lemma_order();
            assert forall|h: crate::types::Hash|
                store@.blobs.contains_key(h) <==> blob_model.contains_key(h) by {
                if blob_model.contains_key(h) && !store@.blobs.contains_key(h) {
                    assert(blob_map@.contains_key(h));
                    assert(blob_map@.dom().contains(h));
                    assert(blob_map@.dom().len() == 0);
                    assert(blob_map@.dom() =~= Set::<crate::types::Hash>::empty());
                }
            }
            assert(store@.blobs =~= map_of(blobs0).map_values(|b: Vec<u8>| b@));
            assert forall|i: int| 0 <= i < files0.len() implies map_of(blobs0).map_values(
                |b: Vec<u8>| b@,
            ).contains_key((#[trigger] files0[i]).1.hash) by {
                lemma_map_of_entry(files0, i);
                let f = files0[i].0;
                assert(store@.files.contains_key(f) && store@.files[f].hash == files0[i].1.hash);
                lemma_blob_stored_iff_in_use(store@, files0[i].1.hash);
            }
            assert forall|i: int| 0 <= i < blobs0.len() implies crate::bucket::model::hash_in_use(
                store@.files,
                (#[trigger] blobs0[i]).0,
            ) by {
                lemma_map_of_entry(blobs0, i);
                lemma_blob_stored_iff_in_use(store@, blobs0[i].0);
            }
            assert(map_of(pending0.subrange(m, m)).map_values(|p: PendingFile| p@) =~= Map::<
                FileId,
                PendingFileView,
            >::empty());
            assert(snapshot.files_and_blobs_valid());
        }
        let ghost files_model = store@.files;
        let ghost blobs_model = store@.blobs;
        let mut waiting = pending_files;
        while waiting.len() > 0
            invariant
                pending0 == snapshot.pending_files@,
                snapshot.files_and_blobs_valid(),
                files_model == snapshot.files_view(),
                m == pending0.len(),
                waiting@.len() <= m,
                waiting@ == pending0.subrange(0, waiting@.len() as int),
                forall|i: int| 0 <= i < pending0.len() ==> (#[trigger] pending0[i]).1.wf_sets(),
                store.wf(),
                store@.files == files_model,
                store@.blobs == blobs_model,
                keys_of(pending0.subrange(waiting@.len() as int, m)).no_duplicates(),
                store@.pending_files == map_of(
                    pending0.subrange(waiting@.len() as int, m),
                ).map_values(|p: PendingFile| p@),
                forall|i: int|
                    waiting@.len() <= i < m ==> {
                        &&& !files_model.contains_key((#[trigger] pending0[i]).0)
                        &&& pending0[i].1@.well_formed()
                        &&& !pending0[i].1@.is_completed()
                    },
            decreases waiting@.len(),
        {
            let ghost i = waiting@.len() - 1;
            let ghost tail = pending0.subrange(i + 1, m);
            let ghost more = pending0.subrange(i, m);
            let entry = waiting.pop().unwrap();
            let file_id = entry.0;
            let pending = entry.1;
            proof {
                assert(entry == pending0[i]);
                assert(more =~= seq![pending0[i]] + tail);
                lemma_map_of_dom(tail);
            }
            if store.pending_files.contains_key(&file_id) {
                proof {
                    assert(store@.pending_files.contains_key(file_id));
                    assert(map_of(tail).contains_key(file_id));
                    assert(keys_of(tail).contains(file_id));
                    let j = keys_of(tail).index_of(file_id);
                    assert(keys_of(tail)[j] == file_id);
                    assert(keys_of(pending0)[i] == file_id);
                    assert(keys_of(pending0)[i + 1 + j] == tail[j].0);
                    assert(keys_of(pending0)[i] == keys_of(pending0)[i + 1 + j]);
                }
                return None;
            }
            if store.files.contains_key(&file_id) || !pending.is_well_formed()
                || pending.is_completed() {
                proof {
                    assert(store@.files.contains_key(file_id) <==> store.files@.contains_key(
                        file_id,
                    ));
                    assert(pending0[i].0 == file_id);
                }
                return None;
            }
            proof {
                assert(store@.pending_files.dom() =~= map_of(tail).dom());
                assert(!store@.pending_files.contains_key(file_id));
                assert(!keys_of(tail).contains(file_id));
            }
            store.store_pending(file_id, pending);
            proof {
                let ks = keys_of(more);
                assert forall|a: int, c: int| 0 <= a < ks.len() && 0 <= c < ks.len() && a
                    != c implies ks[a] != ks[c] by {
                    if a > 0 {
                        assert(ks[a] == keys_of(tail)[a - 1]);
                    }
                    if c > 0 {
                        assert(ks[c] == keys_of(tail)[c - 1]);
                    }
                }
                lemma_map_of_dom(more);
                assert forall|k: FileId| ks.contains(k) <==> (keys_of(tail).contains(k) || k
                    == file_id) by {
                    if ks.contains(k) {
                        let j = ks.index_of(k);
                        if j > 0 {
                            assert(keys_of(tail)[j - 1] == k);
                        }
                    }
                    if keys_of(tail).contains(k) {
                        let j = keys_of(tail).index_of(k);
                        assert(ks[j + 1] == k);
                    }
                    if k == file_id {
                        assert(ks[0] == k);
                    }
                }
                assert forall|k: FileId| ks.contains(k) implies #[trigger] map_of(more)[k] == map_of(
                    tail,
                ).insert(file_id, pending0[i].1)[k] by {
                    let j = ks.index_of(k);
                    lemma_map_of_entry(more, j);
                    if j > 0 {
                        assert(keys_of(tail)[j - 1] == k);
                        lemma_map_of_entry(tail, j - 1);
                    }
                }
                assert(map_of(more) =~= map_of(tail).insert(file_id, pending0[i].1));
                assert(store@.pending_files =~= map_of(more).map_values(|p: PendingFile| p@));
            }
        }
        proof {
            assert(pending0.subrange(0, m) =~= pending0);
            store.lemma_consistent();
            lemma_consistent_is_made_of(store@);
        }
        Some(store)
    }

    /// Takes the pending file `file_id` out of the store, if there is one.
    fn take_pending(&mut self, file_id: FileId) -> (r: Option<PendingFile>)
        requires
            old(self).wf(),
        ensures
            final(self).wf(),
            final(self)@ == old(self)@.with_pending_files(
                old(self)@.pending_files.remove(file_id),
            ),
            match r {
                Some(pending) => old(self)@.pending_files.contains_key(file_id) && pending@ == old(
                    self,
                )@.pending_files[file_id] && pending.wf(),
                None => !old(self)@.pending_files.contains_key(file_id),
            },
    {
        let r = self.pending_files.remove(&file_id);
        proof {
            let v = old(self)@;
            let w = self@;
            assert(w.pending_files =~= v.pending_files.remove(file_id));
            assert forall|f: FileId| #[trigger]
                self.pending_files@.contains_key(f) implies self.pending_files@[f].wf() by {
                assert(old(self).pending_files@.contains_key(f));
            }
            assert forall|f: FileId| #[trigger]
                w.pending_files.contains_key(f) implies w.pending_files[f].well_formed()
                && !w.pending_files[f].is_completed() && !v.files.contains_key(f) by {
                assert(v.pending_files.contains_key(f));
                assert(!(v.files.contains_key(f) && v.pending_files.contains_key(f)));
            }
            lemma_pending_changed(v, w);
        }
        r
    }

    /// Puts a pending file that still awaits chunks into the store.
    fn store_pending(&mut self, file_id: FileId, pending: PendingFile)
        requires
            old(self).wf(),
            !old(self)@.files.contains_key(file_id),
            pending.wf(),
            !pending@.is_completed(),
        ensures
            final(self).wf(),
            final(self)@ == old(self)@.with_pending_files(
                old(self)@.pending_files.insert(file_id, pending@),
            ),
    {
        self.pending_files.insert(file_id, pending);
        proof {
            let v = old(self)@;
            let w = self@;
            assert(w.pending_files =~= v.pending_files.insert(file_id, pending@));
            assert forall|f: FileId| #[trigger]
                self.pending_files@.contains_key(f) implies self.pending_files@[f].wf() by {
                if f != file_id {
                    assert(old(self).pending_files@.contains_key(f));
                }
            }
            assert forall|f: FileId| #[trigger]
                w.pending_files.contains_key(f) implies w.pending_files[f].well_formed()
                && !w.pending_files[f].is_completed() && !v.files.contains_key(f) by {
                if f != file_id {
                    assert(v.pending_files.contains_key(f));
                    assert(!(v.files.contains_key(f) && v.pending_files.contains_key(f)));
                }
            }
            lemma_pending_changed(v, w);
        }
    }

    /// Takes one chunk of an upload.
    ///
    /// The chunk is refused, and the store stays as it is, when the declared size is above
    /// the limit, when a completed file has the identifier, or when the chunk fails a check
    /// of the pending file (its number, then its size, then whether it is still awaited).
    /// The first chunk of an identifier opens the pending file and carries the event for the
    /// index. The chunk that leaves none awaited ends the upload: the assembled bytes are
    /// hashed, and the upload becomes a file if the hash is the declared one and is dropped
    /// if it is not.
    pub fn put_chunk(&mut self, args: PutChunkArgs) -> (r: PutChunkResult)
        requires
            old(self).wf(),
            old(self)@.files.dom().len() < u32::MAX,
        ensures
            final(self).wf(),
            r == old(self)@.put_chunk_result(args, digest(old(self)@.pending_after(args).bytes)),
            final(self)@ == old(self)@.after_put_chunk(
                args,
                digest(old(self)@.pending_after(args).bytes),
            ),
    {
        if args.total_size > MAX_BLOB_SIZE_BYTES {
            return PutChunkResult::FileTooBig(MAX_BLOB_SIZE_BYTES);
        }
        if self.files.contains_key(&args.file_id) {
            return PutChunkResult::FileAlreadyExists;
        }
        let ghost v = self@;
        let file_id = args.file_id;
        let now = args.now;
        let file_added: Option<FileAdded>;
        let pending: PendingFile;
        let result: AddChunkResult;
        match self.take_pending(file_id) {
            None => {
                file_added = Some(
                    FileAdded {
                        uploaded_by: args.uploaded_by,
                        file_id,
                        hash: args.hash,
                        size: args.total_size,
                    },
                );
                let opened = PendingFile::from(args);
                pending = opened.0;
                result = opened.1;
                proof {
                    assert(self@.pending_files =~= v.pending_files);
                }
                match result {
                    AddChunkResult::Success => {},
                    AddChunkResult::ChunkAlreadyExists => {
                        return PutChunkResult::ChunkAlreadyExists;
                    },
                    AddChunkResult::ChunkIndexTooHigh => {
                        return PutChunkResult::ChunkIndexTooHigh;
                    },
                    AddChunkResult::ChunkSizeMismatch(m) => {
                        return PutChunkResult::ChunkSizeMismatch(m);
                    },
                }
            },
            Some(stored) => {
                file_added = None;
                let mut stored = stored;
                result = stored.add_chunk(args.chunk_index, args.bytes);
                pending = stored;
                match result {
                    AddChunkResult::Success => {},
                    AddChunkResult::ChunkAlreadyExists => {
                        self.store_pending(file_id, pending);
                        proof {
                            assert(self@.pending_files =~= v.pending_files);
                        }
                        return PutChunkResult::ChunkAlreadyExists;
                    },
                    AddChunkResult::ChunkIndexTooHigh => {
                        self.store_pending(file_id, pending);
                        proof {
                            assert(self@.pending_files =~= v.pending_files);
                        }
                        return PutChunkResult::ChunkIndexTooHigh;
                    },
                    AddChunkResult::ChunkSizeMismatch(m) => {
                        self.store_pending(file_id, pending);
                        proof {
                            assert(self@.pending_files =~= v.pending_files);
                        }
                        return PutChunkResult::ChunkSizeMismatch(m);
                    },
                }
            },
        }
        assert(pending@ == v.pending_after(args));
        if !pending.is_completed() {
            self.store_pending(file_id, pending);
            proof {
                assert(self@.pending_files =~= v.pending_files.insert(
                    file_id,
                    v.pending_after(args),
                ));
            }
            return PutChunkResult::Success(
                PutChunkResultSuccess { file_completed: false, file_added },
            );
        }
        let actual_hash = hash_bytes(&pending.bytes);
        match self.finish_upload(file_id, pending, actual_hash, now) {
            Err(mismatch) => PutChunkResult::HashMismatch(mismatch),
            Ok(()) => PutChunkResult::Success(
                PutChunkResultSuccess { file_completed: true, file_added },
            ),
        }
    }

    /// Ends an upload whose chunks are all there and whose bytes hash to `actual_hash`.
    ///
    /// When `actual_hash` is the declared hash the upload becomes the file `file_id`; its
    /// bytes are stored unless a blob with that hash is stored already. When it is not, the
    /// upload is dropped, the store stays as it is and the two hashes are returned.
    pub fn finish_upload(
        &mut self,
        file_id: FileId,
        completed_file: PendingFile,
        actual_hash: crate::types::Hash,
        now: TimestampMillis,
    ) -> (r: Result<(), HashMismatch>)
        requires
            old(self).wf(),
            !old(self)@.files.contains_key(file_id),
            !old(self)@.pending_files.contains_key(file_id),
            old(self)@.files.dom().len() < u32::MAX,
            completed_file.wf(),
        ensures
            final(self).wf(),
            r == (if actual_hash == completed_file.hash {
                Ok::<(), HashMismatch>(())
            } else {
                Err::<(), HashMismatch>(
                    HashMismatch {
                        provided_hash: completed_file.hash,
                        actual_hash,
                        chunk_count: completed_file@.chunk_count() as u32,
                    },
                )
            }),
            final(self)@ == (if actual_hash == completed_file.hash {
                old(self)@.with_file(
                    file_id,
                    completed_file@.completed_file(now),
                    completed_file.bytes@,
                )
            } else {
                old(self)@
            }),
    {
        if !actual_hash.same(&completed_file.hash) {
            let chunk_count = completed_file.chunk_count();
            return Err(
                HashMismatch { provided_hash: completed_file.hash, actual_hash, chunk_count },
            );
        }
        self.insert_completed_file(file_id, completed_file, now);
        Ok(())
    }
}

} // verus!
