//! The mathematical model of a bucket's content store and the invariant that ties its parts
//! together.

use crate::bucket::pending_file::PendingFileView;
use crate::bucket::MAX_BLOB_SIZE_BYTES;
use crate::collections::map_sum::{
    lemma_sum_at_least_len, lemma_sum_bound, lemma_sum_insert, lemma_sum_remove, lemma_sum_update,
    sum_values,
};
use crate::types::{AccessorId, FileId, TimestampMillis, UserId};
use vstd::prelude::*;
use vstd::set_lib::lemma_len_subset;

verus! {

/// The model of a stored file.
pub struct FileView {
    pub uploaded_by: UserId,
    pub created: TimestampMillis,
    pub accessors: Set<AccessorId>,
    pub hash: crate::types::Hash,
    pub mime_type: Seq<char>,
}

impl FileView {
    /// Whether `accessor_id` is the only accessor that the file names.
    pub open spec fn orphaned_without(self, accessor_id: AccessorId) -> bool {
        self.accessors.contains(accessor_id) && self.accessors.remove(accessor_id) == Set::<
            AccessorId,
        >::empty()
    }

    /// The same file, no longer naming `accessor_id`.
    pub open spec fn without_accessor(self, accessor_id: AccessorId) -> FileView {
        FileView { accessors: self.accessors.remove(accessor_id), ..self }
    }
}

/// The model of a content store.
pub struct FilesView {
    /// The completed files.
    pub files: Map<FileId, FileView>,
    /// The uploads that still await chunks.
    pub pending_files: Map<FileId, PendingFileView>,
    /// The stored bytes, by content hash.
    pub blobs: Map<crate::types::Hash, Seq<u8>>,
    /// The number of files that refer to each blob.
    pub reference_counts: Map<crate::types::Hash, nat>,
    /// The files that name each accessor.
    pub accessors_index: Map<AccessorId, Set<FileId>>,
    /// The number of bytes that the blobs take.
    pub bytes_used: nat,
}

impl FilesView {
    /// The files whose content is the blob `hash`.
    pub open spec fn files_with_hash(self, hash: crate::types::Hash) -> Set<FileId> {
        Set::new(|file_id: FileId| self.files.contains_key(file_id) && self.files[file_id].hash == hash)
    }

    /// The recorded number of references to `hash`; zero without a record.
    pub open spec fn reference_count(self, hash: crate::types::Hash) -> nat {
        if self.reference_counts.contains_key(hash) {
            self.reference_counts[hash]
        } else {
            0
        }
    }

    /// The files recorded for `accessor_id`; none without a record.
    pub open spec fn files_of(self, accessor_id: AccessorId) -> Set<FileId> {
        if self.accessors_index.contains_key(accessor_id) {
            self.accessors_index[accessor_id]
        } else {
            Set::empty()
        }
    }

    /// The length of each blob.
    pub open spec fn blob_sizes(self) -> Map<crate::types::Hash, nat> {
        self.blobs.map_values(|bytes: Seq<u8>| bytes.len())
    }

    /// The invariant of a content store.
    pub open spec fn consistent(self) -> bool {
        &&& self.files.dom().finite()
        &&& self.files.dom().len() <= u32::MAX
        &&& self.pending_files.dom().finite()
        &&& self.blobs.dom().finite()
        &&& self.reference_counts.dom().finite()
        // No identifier is both completed and pending.
        &&& forall|file_id: FileId|
            !(#[trigger] self.files.contains_key(file_id) && self.pending_files.contains_key(
                file_id,
            ))
        // A count is the number of files with that hash.
        &&& forall|hash: crate::types::Hash| #[trigger]
            self.reference_count(hash) == self.files_with_hash(hash).len()
        // A blob is stored exactly while it is referred to.
        &&& forall|hash: crate::types::Hash| #[trigger]
            self.blobs.contains_key(hash) <==> self.reference_count(hash) > 0
        // The bytes in use are the bytes of the blobs, each counted once.
        &&& self.bytes_used == sum_values(self.blob_sizes())
        // The reverse index lists a file for an accessor exactly when the file names it.
        &&& forall|accessor_id: AccessorId, file_id: FileId| #[trigger]
            self.files_of(accessor_id).contains(file_id) <==> (self.files.contains_key(file_id)
                && self.files[file_id].accessors.contains(accessor_id))
        // Pending files are well formed and await at least one chunk.
        &&& forall|file_id: FileId| #[trigger]
            self.pending_files.contains_key(file_id) ==> self.pending_files[file_id].well_formed()
                && !self.pending_files[file_id].is_completed()
        &&& forall|hash: crate::types::Hash| #[trigger]
            self.blobs.contains_key(hash) ==> self.blobs[hash].len() <= MAX_BLOB_SIZE_BYTES
        &&& forall|file_id: FileId| #[trigger]
            self.files.contains_key(file_id) ==> self.files[file_id].accessors.finite()
        // Neither derived map holds an entry that says nothing.
        &&& forall|hash: crate::types::Hash| #[trigger]
            self.reference_counts.contains_key(hash) ==> self.reference_counts[hash] >= 1
        &&& forall|accessor_id: AccessorId| #[trigger]
            self.accessors_index.contains_key(accessor_id) ==> self.accessors_index[accessor_id]
                != Set::<FileId>::empty()
        // Every file is counted once.
        &&& sum_values(self.reference_counts) == self.files.dom().len()
    }

    /// The store without any file.
    pub open spec fn empty() -> FilesView {
        FilesView {
            files: Map::empty(),
            pending_files: Map::empty(),
            blobs: Map::empty(),
            reference_counts: Map::empty(),
            accessors_index: Map::empty(),
            bytes_used: 0,
        }
    }
}

/// Whether some file of `files` has the hash `hash`.
pub open spec fn hash_in_use(files: Map<FileId, FileView>, hash: crate::types::Hash) -> bool {
    exists|file_id: FileId| #[trigger] files.contains_key(file_id) && files[file_id].hash == hash
}

/// The blobs of `blobs` that a file of `files` refers to.
pub open spec fn blobs_in_use(
    blobs: Map<crate::types::Hash, Seq<u8>>,
    files: Map<FileId, FileView>,
) -> Map<crate::types::Hash, Seq<u8>> {
    blobs.restrict(Set::new(|hash: crate::types::Hash| hash_in_use(files, hash)))
}

/// A blob is stored exactly while some file has its hash.
pub proof fn lemma_blob_stored_iff_in_use(v: FilesView, hash: crate::types::Hash)
    requires
        v.consistent(),
    ensures
        v.blobs.contains_key(hash) <==> hash_in_use(v.files, hash),
{
    lemma_files_with_hash(v, hash);
    let same = v.files_with_hash(hash);
    assert(v.reference_count(hash) == same.len());
    assert(v.blobs.contains_key(hash) <==> v.reference_count(hash) > 0);
    if same.len() > 0 {
        let f = same.choose();
        assert(same.contains(f));
        assert(v.files.contains_key(f) && v.files[f].hash == hash);
    }
    if hash_in_use(v.files, hash) {
        let f = choose|f: FileId| #[trigger] v.files.contains_key(f) && v.files[f].hash == hash;
        assert(same.contains(f));
        assert(same.len() == same.remove(f).len() + 1);
    }
}

/// The files with one hash are among the files, so they are finite and no more than those.
pub proof fn lemma_files_with_hash(v: FilesView, hash: crate::types::Hash)
    requires
        v.files.dom().finite(),
    ensures
        v.files_with_hash(hash).finite(),
        v.files_with_hash(hash).len() <= v.files.dom().len(),
{
    assert(v.files_with_hash(hash).subset_of(v.files.dom()));
    lemma_len_subset(v.files_with_hash(hash), v.files.dom());
}

/// The empty store is consistent.
pub proof fn lemma_empty_consistent()
    ensures
        FilesView::empty().consistent(),
{
    let v = FilesView::empty();
    assert forall|hash: crate::types::Hash| #[trigger]
        v.reference_count(hash) == v.files_with_hash(hash).len() by {
        assert(v.files_with_hash(hash) =~= Set::<FileId>::empty());
    }
    assert(v.blob_sizes() =~= Map::<crate::types::Hash, nat>::empty());
    crate::collections::map_sum::lemma_sum_empty::<crate::types::Hash>();
}

/// The bytes in use are bounded by the number of files times the greatest blob size.
pub proof fn lemma_bytes_bound(v: FilesView)
    requires
        v.consistent(),
    ensures
        v.bytes_used <= v.files.dom().len() * MAX_BLOB_SIZE_BYTES,
        v.bytes_used <= u32::MAX * MAX_BLOB_SIZE_BYTES,
{
    let sizes = v.blob_sizes();
    assert(sizes.dom() =~= v.blobs.dom());
    lemma_sum_bound(sizes, MAX_BLOB_SIZE_BYTES as nat);
    assert(v.blobs.dom() =~= v.reference_counts.dom()) by {
        assert forall|h: crate::types::Hash|
            v.blobs.dom().contains(h) <==> v.reference_counts.dom().contains(h) by {
            assert(v.blobs.contains_key(h) <==> v.reference_count(h) > 0);
        }
    }
    lemma_sum_at_least_len(v.reference_counts);
    let blobs = v.blobs.dom().len();
    let files = v.files.dom().len();
    assert(blobs * MAX_BLOB_SIZE_BYTES <= files * MAX_BLOB_SIZE_BYTES) by (nonlinear_arith)
        requires
            blobs <= files,
    ;
    assert(files * MAX_BLOB_SIZE_BYTES <= u32::MAX * MAX_BLOB_SIZE_BYTES) by (nonlinear_arith)
        requires
            files <= u32::MAX,
    ;
}

/// Changing only the pending files keeps the store consistent, as long as they are well
/// formed, await a chunk and have no identifier of a completed file.
pub proof fn lemma_pending_changed(v: FilesView, w: FilesView)
    requires
        v.consistent(),
        w.files == v.files,
        w.blobs == v.blobs,
        w.reference_counts == v.reference_counts,
        w.accessors_index == v.accessors_index,
        w.bytes_used == v.bytes_used,
        w.pending_files.dom().finite(),
        forall|file_id: FileId| #[trigger]
            w.pending_files.contains_key(file_id) ==> w.pending_files[file_id].well_formed()
                && !w.pending_files[file_id].is_completed() && !v.files.contains_key(file_id),
    ensures
        w.consistent(),
{
    assert forall|h: crate::types::Hash| #[trigger]
        w.reference_count(h) == w.files_with_hash(h).len() by {
        assert(v.reference_count(h) == v.files_with_hash(h).len());
        assert(w.files_with_hash(h) =~= v.files_with_hash(h));
    }
    assert forall|h: crate::types::Hash| #[trigger]
        w.blobs.contains_key(h) <==> w.reference_count(h) > 0 by {
        assert(v.blobs.contains_key(h) <==> v.reference_count(h) > 0);
    }
    assert forall|a: AccessorId, f: FileId| #[trigger]
        w.files_of(a).contains(f) <==> (w.files.contains_key(f) && w.files[f].accessors.contains(
            a,
        )) by {
        assert(v.files_of(a).contains(f) <==> (v.files.contains_key(f)
            && v.files[f].accessors.contains(a)));
    }
}

/// Adding a file that is new to the store, with its links, its count and, if the blob is
/// new, its bytes, keeps the store consistent.
pub proof fn lemma_file_added(
    v: FilesView,
    w: FilesView,
    file_id: FileId,
    file: FileView,
    bytes: Seq<u8>,
)
    requires
        v.consistent(),
        !v.files.contains_key(file_id),
        !v.pending_files.contains_key(file_id),
        file.accessors.finite(),
        v.files.dom().len() < u32::MAX,
        bytes.len() <= MAX_BLOB_SIZE_BYTES,
        w.files == v.files.insert(file_id, file),
        w.pending_files == v.pending_files,
        w.reference_counts == v.reference_counts.insert(
            file.hash,
            v.reference_count(file.hash) + 1,
        ),
        forall|a: AccessorId| #[trigger]
            w.files_of(a) == (if file.accessors.contains(a) {
                v.files_of(a).insert(file_id)
            } else {
                v.files_of(a)
            }),
        forall|a: AccessorId| #[trigger]
            w.accessors_index.contains_key(a) ==> w.accessors_index[a] != Set::<FileId>::empty(),
        w.blobs == (if v.blobs.contains_key(file.hash) {
            v.blobs
        } else {
            v.blobs.insert(file.hash, bytes)
        }),
        w.bytes_used == (if v.blobs.contains_key(file.hash) {
            v.bytes_used
        } else {
            v.bytes_used + bytes.len()
        }),
    ensures
        w.consistent(),
{
    let hash = file.hash;
    assert forall|h: crate::types::Hash| #[trigger]
        w.reference_count(h) == w.files_with_hash(h).len() by {
        lemma_files_with_hash(v, h);
        assert(v.reference_count(h) == v.files_with_hash(h).len());
        if h == hash {
            assert(w.files_with_hash(h) =~= v.files_with_hash(h).insert(file_id));
        } else {
            assert(w.files_with_hash(h) =~= v.files_with_hash(h));
        }
    }
    assert forall|h: crate::types::Hash| #[trigger]
        w.blobs.contains_key(h) <==> w.reference_count(h) > 0 by {
        assert(v.blobs.contains_key(h) <==> v.reference_count(h) > 0);
    }
    assert(w.bytes_used == sum_values(w.blob_sizes())) by {
        if v.blobs.contains_key(hash) {
        } else {
            assert(v.blob_sizes().dom() =~= v.blobs.dom());
            assert(w.blob_sizes() =~= v.blob_sizes().insert(hash, bytes.len()));
            lemma_sum_insert(v.blob_sizes(), hash, bytes.len());
        }
    }
    assert forall|a: AccessorId, f: FileId| #[trigger]
        w.files_of(a).contains(f) <==> (w.files.contains_key(f) && w.files[f].accessors.contains(
            a,
        )) by {
        assert(v.files_of(a).contains(f) <==> (v.files.contains_key(f)
            && v.files[f].accessors.contains(a)));
        assert(w.files_of(a) == (if file.accessors.contains(a) {
            v.files_of(a).insert(file_id)
        } else {
            v.files_of(a)
        }));
    }
    assert forall|f: FileId|
        !(#[trigger] w.files.contains_key(f) && w.pending_files.contains_key(f)) by {
        if f != file_id {
            assert(!(v.files.contains_key(f) && v.pending_files.contains_key(f)));
        }
    }
    assert forall|h: crate::types::Hash| #[trigger]
        w.blobs.contains_key(h) implies w.blobs[h].len() <= MAX_BLOB_SIZE_BYTES by {
        if v.blobs.contains_key(h) {
            assert(v.blobs[h].len() <= MAX_BLOB_SIZE_BYTES);
        }
    }
    assert(sum_values(w.reference_counts) == w.files.dom().len()) by {
        if v.reference_counts.contains_key(hash) {
            lemma_sum_update(v.reference_counts, hash, v.reference_count(hash) + 1);
        } else {
            lemma_sum_insert(v.reference_counts, hash, 1);
        }
    }
}

/// Deleting a file, with its links, its count and, if it was the last to refer to its blob,
/// the bytes, keeps the store consistent.
pub proof fn lemma_file_deleted(v: FilesView, w: FilesView, file_id: FileId)
    requires
        v.consistent(),
        v.files.contains_key(file_id),
        w.files == v.files.remove(file_id),
        w.pending_files == v.pending_files,
        w.reference_counts == (if v.reference_count(v.files[file_id].hash) > 1 {
            v.reference_counts.insert(
                v.files[file_id].hash,
                (v.reference_count(v.files[file_id].hash) - 1) as nat,
            )
        } else {
            v.reference_counts.remove(v.files[file_id].hash)
        }),
        forall|a: AccessorId| #[trigger] w.files_of(a) == v.files_of(a).remove(file_id),
        forall|a: AccessorId| #[trigger]
            w.accessors_index.contains_key(a) ==> w.accessors_index[a] != Set::<FileId>::empty(),
        w.blobs == (if v.reference_count(v.files[file_id].hash) == 1 {
            v.blobs.remove(v.files[file_id].hash)
        } else {
            v.blobs
        }),
        w.bytes_used + (if v.reference_count(v.files[file_id].hash) == 1 {
            v.blobs[v.files[file_id].hash].len()
        } else {
            0
        }) == v.bytes_used,
    ensures
        w.consistent(),
{
    let hash = v.files[file_id].hash;
    lemma_files_with_hash(v, hash);
    assert(v.files_with_hash(hash).contains(file_id));
    assert(v.reference_count(hash) == v.files_with_hash(hash).len());
    assert(v.reference_count(hash) >= 1) by {
        assert(v.files_with_hash(hash).len() == v.files_with_hash(hash).remove(file_id).len()
            + 1);
    }
    assert forall|h: crate::types::Hash| #[trigger]
        w.reference_count(h) == w.files_with_hash(h).len() by {
        lemma_files_with_hash(v, h);
        assert(v.reference_count(h) == v.files_with_hash(h).len());
        if h == hash {
            assert(w.files_with_hash(h) =~= v.files_with_hash(h).remove(file_id));
        } else {
            assert(w.files_with_hash(h) =~= v.files_with_hash(h));
        }
    }
    assert forall|h: crate::types::Hash| #[trigger]
        w.blobs.contains_key(h) <==> w.reference_count(h) > 0 by {
        assert(v.blobs.contains_key(h) <==> v.reference_count(h) > 0);
    }
    assert(w.bytes_used == sum_values(w.blob_sizes())) by {
        if v.reference_count(hash) == 1 {
            assert(v.blobs.contains_key(hash));
            assert(v.blob_sizes().dom() =~= v.blobs.dom());
            assert(w.blob_sizes() =~= v.blob_sizes().remove(hash));
            lemma_sum_remove(v.blob_sizes(), hash);
        }
    }
    assert forall|a: AccessorId, f: FileId| #[trigger]
        w.files_of(a).contains(f) <==> (w.files.contains_key(f) && w.files[f].accessors.contains(
            a,
        )) by {
        assert(v.files_of(a).contains(f) <==> (v.files.contains_key(f)
            && v.files[f].accessors.contains(a)));
        assert(w.files_of(a) == v.files_of(a).remove(file_id));
    }
    assert forall|f: FileId|
        !(#[trigger] w.files.contains_key(f) && w.pending_files.contains_key(f)) by {
        assert(!(v.files.contains_key(f) && v.pending_files.contains_key(f)));
    }
    assert forall|h: crate::types::Hash| #[trigger]
        w.blobs.contains_key(h) implies w.blobs[h].len() <= MAX_BLOB_SIZE_BYTES by {
        assert(v.blobs.contains_key(h));
        assert(v.blobs[h].len() <= MAX_BLOB_SIZE_BYTES);
    }
    assert forall|f: FileId| #[trigger] w.files.contains_key(f) implies w.files[f].accessors.finite() by {
        assert(v.files.contains_key(f));
    }
    assert(sum_values(w.reference_counts) == w.files.dom().len()) by {
        assert(v.reference_counts.contains_key(hash));
        if v.reference_count(hash) > 1 {
            lemma_sum_update(v.reference_counts, hash, (v.reference_count(hash) - 1) as nat);
        } else {
            lemma_sum_remove(v.reference_counts, hash);
        }
    }
    assert forall|h: crate::types::Hash| #[trigger]
        w.reference_counts.contains_key(h) implies w.reference_counts[h] >= 1 by {
        if h != hash {
            assert(v.reference_counts.contains_key(h));
        }
    }
}

/// Taking one accessor off a file, in the file and in the reverse index, keeps the store
/// consistent.
pub proof fn lemma_accessor_detached(
    v: FilesView,
    w: FilesView,
    file_id: FileId,
    accessor_id: AccessorId,
)
    requires
        v.consistent(),
        v.files.contains_key(file_id),
        w.files == v.files.insert(file_id, v.files[file_id].without_accessor(accessor_id)),
        w.pending_files == v.pending_files,
        w.reference_counts == v.reference_counts,
        w.blobs == v.blobs,
        w.bytes_used == v.bytes_used,
        forall|a: AccessorId| #[trigger]
            w.files_of(a) == (if a == accessor_id {
                v.files_of(a).remove(file_id)
            } else {
                v.files_of(a)
            }),
        forall|a: AccessorId| #[trigger]
            w.accessors_index.contains_key(a) ==> w.accessors_index[a] != Set::<FileId>::empty(),
    ensures
        w.consistent(),
{
    assert(w.files.dom() =~= v.files.dom());
    assert forall|h: crate::types::Hash| #[trigger]
        w.reference_count(h) == w.files_with_hash(h).len() by {
        assert(v.reference_count(h) == v.files_with_hash(h).len());
        assert(w.files_with_hash(h) =~= v.files_with_hash(h));
    }
    assert forall|h: crate::types::Hash| #[trigger]
        w.blobs.contains_key(h) <==> w.reference_count(h) > 0 by {
        assert(v.blobs.contains_key(h) <==> v.reference_count(h) > 0);
    }
    assert forall|a: AccessorId, f: FileId| #[trigger]
        w.files_of(a).contains(f) <==> (w.files.contains_key(f) && w.files[f].accessors.contains(
            a,
        )) by {
        assert(v.files_of(a).contains(f) <==> (v.files.contains_key(f)
            && v.files[f].accessors.contains(a)));
        assert(w.files_of(a) == (if a == accessor_id {
            v.files_of(a).remove(file_id)
        } else {
            v.files_of(a)
        }));
    }
    assert forall|f: FileId|
        !(#[trigger] w.files.contains_key(f) && w.pending_files.contains_key(f)) by {
        assert(!(v.files.contains_key(f) && v.pending_files.contains_key(f)));
    }
    assert forall|f: FileId| #[trigger] w.files.contains_key(f) implies w.files[f].accessors.finite() by {
        assert(v.files.contains_key(f));
        assert(v.files[f].accessors.finite());
    }
}

/// The store that the files `files`, the pending files `pending_files` and the blobs `blobs`
/// make up: every hash counts the files that have it, every accessor is listed with the
/// files that name it, and the bytes in use are those of the blobs.
pub open spec fn made_of(
    files: Map<FileId, FileView>,
    pending_files: Map<FileId, PendingFileView>,
    blobs: Map<crate::types::Hash, Seq<u8>>,
) -> FilesView {
    FilesView {
        files,
        pending_files,
        blobs,
        reference_counts: Map::new(
            |hash: crate::types::Hash| hash_in_use(files, hash),
            |hash: crate::types::Hash|
                Set::new(
                    |file_id: FileId| files.contains_key(file_id) && files[file_id].hash == hash,
                ).len(),
        ),
        accessors_index: Map::new(
            |a: AccessorId|
                exists|file_id: FileId| #[trigger]
                    files.contains_key(file_id) && files[file_id].accessors.contains(a),
            |a: AccessorId|
                Set::new(
                    |file_id: FileId|
                        files.contains_key(file_id) && files[file_id].accessors.contains(a),
                ),
        ),
        bytes_used: sum_values(blobs.map_values(|bytes: Seq<u8>| bytes.len())),
    }
}

impl FilesView {
    /// The store that keeps the files `files`, the pending files as they are and, of the
    /// blobs, those that `files` refer to.
    pub open spec fn keeping(self, files: Map<FileId, FileView>) -> FilesView {
        made_of(files, self.pending_files, blobs_in_use(self.blobs, files))
    }
}

/// A consistent store is the one that its files, its pending files and its blobs make up.
pub proof fn lemma_consistent_is_made_of(v: FilesView)
    requires
        v.consistent(),
    ensures
        v == made_of(v.files, v.pending_files, v.blobs),
{
    let w = made_of(v.files, v.pending_files, v.blobs);
    assert forall|h: crate::types::Hash|
        v.reference_counts.contains_key(h) <==> w.reference_counts.contains_key(h) by {
        lemma_blob_stored_iff_in_use(v, h);
        assert(v.blobs.contains_key(h) <==> v.reference_count(h) > 0);
    }
    assert forall|h: crate::types::Hash| #[trigger]
        v.reference_counts.contains_key(h) implies v.reference_counts[h]
        == w.reference_counts[h] by {
        assert(v.reference_count(h) == v.files_with_hash(h).len());
    }
    assert(v.reference_counts =~= w.reference_counts);
    assert forall|a: AccessorId|
        v.accessors_index.contains_key(a) <==> w.accessors_index.contains_key(a) by {
        if v.accessors_index.contains_key(a) {
            let listed = v.accessors_index[a];
            assert(listed != Set::<FileId>::empty());
            if forall|f: FileId| !listed.contains(f) {
                assert(listed =~= Set::<FileId>::empty());
            }
            let f = choose|f: FileId| listed.contains(f);
            assert(v.files_of(a).contains(f));
            assert(v.files.contains_key(f) && v.files[f].accessors.contains(a));
        }
        if w.accessors_index.contains_key(a) {
            let f = choose|f: FileId| #[trigger]
                v.files.contains_key(f) && v.files[f].accessors.contains(a);
            assert(v.files_of(a).contains(f));
        }
    }
    assert forall|a: AccessorId| #[trigger]
        v.accessors_index.contains_key(a) implies v.accessors_index[a]
        == w.accessors_index[a] by {
        assert forall|f: FileId|
            v.accessors_index[a].contains(f) <==> w.accessors_index[a].contains(f) by {
            assert(v.files_of(a).contains(f) <==> (v.files.contains_key(f)
                && v.files[f].accessors.contains(a)));
        }
        assert(v.accessors_index[a] =~= w.accessors_index[a]);
    }
    assert(v.accessors_index =~= w.accessors_index);
}

/// A consistent store is determined by its files, its pending files and its blobs: the
/// counts, the reverse index and the bytes in use follow from them.
pub proof fn lemma_store_is_determined(v: FilesView, w: FilesView)
    requires
        v.consistent(),
        w.consistent(),
        v.files == w.files,
        v.pending_files == w.pending_files,
        v.blobs == w.blobs,
    ensures
        v == w,
{
    assert forall|h: crate::types::Hash|
        v.reference_counts.contains_key(h) <==> w.reference_counts.contains_key(h) by {
        assert(v.reference_count(h) == v.files_with_hash(h).len());
        assert(w.reference_count(h) == w.files_with_hash(h).len());
    }
    assert forall|h: crate::types::Hash| #[trigger]
        v.reference_counts.contains_key(h) implies v.reference_counts[h]
        == w.reference_counts[h] by {
        assert(v.reference_count(h) == v.files_with_hash(h).len());
        assert(w.reference_count(h) == w.files_with_hash(h).len());
    }
    assert(v.reference_counts =~= w.reference_counts);
    assert forall|a: AccessorId| v.files_of(a) == w.files_of(a) by {
        assert forall|f: FileId| v.files_of(a).contains(f) <==> w.files_of(a).contains(f) by {
            assert(v.files_of(a).contains(f) <==> (v.files.contains_key(f)
                && v.files[f].accessors.contains(a)));
            assert(w.files_of(a).contains(f) <==> (w.files.contains_key(f)
                && w.files[f].accessors.contains(a)));
        }
        assert(v.files_of(a) =~= w.files_of(a));
    }
    assert forall|a: AccessorId|
        v.accessors_index.contains_key(a) <==> w.accessors_index.contains_key(a) by {
        assert(v.files_of(a) == w.files_of(a));
    }
    assert forall|a: AccessorId| #[trigger]
        v.accessors_index.contains_key(a) implies v.accessors_index[a]
        == w.accessors_index[a] by {
        assert(v.files_of(a) == w.files_of(a));
    }
    assert(v.accessors_index =~= w.accessors_index);
}

} // verus!
