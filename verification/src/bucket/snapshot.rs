//! The content of a store as plain lists, to keep it at rest and to bring it back.

use crate::bucket::files::File;
use crate::bucket::model::{hash_in_use, made_of, FileView, FilesView};
use crate::bucket::pending_file::{PendingFile, PendingFileView};
use crate::bucket::MAX_BLOB_SIZE_BYTES;
use crate::collections::vec_map::{keys_of, map_of};
use crate::types::FileId;
use vstd::prelude::*;

verus! {

/// The files, the pending files and the blobs of a store, each as a list of entries.
pub struct FilesSnapshot {
    pub files: Vec<(FileId, File)>,
    pub pending_files: Vec<(FileId, PendingFile)>,
    pub blobs: Vec<(crate::types::Hash, Vec<u8>)>,
}

impl FilesSnapshot {
    /// The files that the snapshot lists.
    pub open spec fn files_view(&self) -> Map<FileId, FileView> {
        map_of(self.files@).map_values(|f: File| f@)
    }

    /// The pending files that the snapshot lists.
    pub open spec fn pending_view(&self) -> Map<FileId, PendingFileView> {
        map_of(self.pending_files@).map_values(|p: PendingFile| p@)
    }

    /// The blobs that the snapshot lists.
    pub open spec fn blobs_view(&self) -> Map<crate::types::Hash, Seq<u8>> {
        map_of(self.blobs@).map_values(|b: Vec<u8>| b@)
    }

    /// The store that the snapshot lists.
    pub open spec fn store(&self) -> FilesView {
        made_of(self.files_view(), self.pending_view(), self.blobs_view())
    }

    /// The sets inside the entries are sound.
    pub open spec fn sets_wf(&self) -> bool {
        &&& forall|i: int|
            0 <= i < self.files@.len() ==> (#[trigger] self.files@[i]).1.accessors.wf()
        &&& forall|i: int|
            0 <= i < self.pending_files@.len() ==> (#[trigger] self.pending_files@[i]).1.wf_sets()
    }

    /// Whether the files and the blobs of the snapshot are those of a store: no identifier
    /// and no hash is listed twice, every file has its blob and every blob a file, no blob
    /// is bigger than a blob may be, and the files can be counted in 32 bits.
    pub open spec fn files_and_blobs_valid(&self) -> bool {
        &&& keys_of(self.files@).no_duplicates()
        &&& keys_of(self.blobs@).no_duplicates()
        &&& self.files@.len() <= u32::MAX
        &&& forall|i: int|
            0 <= i < self.blobs@.len() ==> (#[trigger] self.blobs@[i]).1@.len()
                <= MAX_BLOB_SIZE_BYTES
        &&& forall|i: int|
            0 <= i < self.files@.len() ==> self.blobs_view().contains_key(
                (#[trigger] self.files@[i]).1.hash,
            )
        &&& forall|i: int|
            0 <= i < self.blobs@.len() ==> hash_in_use(
                self.files_view(),
                (#[trigger] self.blobs@[i]).0,
            )
    }

    /// Whether the pending files of the snapshot are those of a store: no identifier is
    /// listed twice or is that of a completed file, and every pending file is well formed
    /// and awaits a chunk.
    pub open spec fn pending_files_valid(&self) -> bool {
        &&& keys_of(self.pending_files@).no_duplicates()
        &&& forall|i: int|
            0 <= i < self.pending_files@.len() ==> {
                &&& !self.files_view().contains_key((#[trigger] self.pending_files@[i]).0)
                &&& self.pending_files@[i].1@.well_formed()
                &&& !self.pending_files@[i].1@.is_completed()
            }
    }

    /// Whether the snapshot is that of a store.
    pub open spec fn valid(&self) -> bool {
        self.files_and_blobs_valid() && self.pending_files_valid()
    }
}

impl PendingFile {
    /// The two sets of the pending file are sound.
    pub open spec fn wf_sets(&self) -> bool {
        self.accessors.wf() && self.remaining_chunks.wf()
    }
}

} // verus!
