//! What a list of deletion events says about the files that were deleted.

use crate::bucket::model::{lemma_files_with_hash, FileView, FilesView};
use crate::types::{FileId, FileRemoved};
use vstd::prelude::*;

verus! {

/// Whether one of the events of `log` at the positions up to `last` tells of `file_id`.
pub open spec fn listed_up_to(log: Seq<FileRemoved>, file_id: FileId, last: int) -> bool {
    exists|k: int| 0 <= k <= last && k < log.len() && #[trigger] log[k].file_id == file_id
}

/// Whether `log` tells of the deletion of exactly the files `deleted` out of `files`.
///
/// Every event names a deleted file with its uploader and hash, no file is named twice and
/// every deleted file is named. An event says that the blob was deleted exactly when, with
/// it, every file with that hash has been named.
pub open spec fn is_removal_log(
    files: Map<FileId, FileView>,
    deleted: Set<FileId>,
    log: Seq<FileRemoved>,
) -> bool {
    &&& forall|j: int|
        0 <= j < log.len() ==> deleted.contains(#[trigger] log[j].file_id) && files.contains_key(
            log[j].file_id,
        ) && log[j].uploaded_by == files[log[j].file_id].uploaded_by && log[j].hash
            == files[log[j].file_id].hash
    &&& forall|j: int, k: int|
        0 <= j < k < log.len() ==> #[trigger] log[j].file_id != #[trigger] log[k].file_id
    &&& forall|file_id: FileId| #[trigger]
        deleted.contains(file_id) ==> listed_up_to(log, file_id, log.len() - 1)
    &&& forall|j: int|
        0 <= j < log.len() ==> ((#[trigger] log[j]).blob_deleted <==> all_listed(
            files,
            log,
            log[j].hash,
            j,
        ))
}

/// Whether every file of `files` with the hash `hash` is named by `log` at a position up to
/// `last`.
pub open spec fn all_listed(
    files: Map<FileId, FileView>,
    log: Seq<FileRemoved>,
    hash: crate::types::Hash,
    last: int,
) -> bool {
    forall|file_id: FileId|
        #[trigger] files.contains_key(file_id) && files[file_id].hash == hash ==> listed_up_to(
            log,
            file_id,
            last,
        )
}

/// The empty list tells of the deletion of no file.
pub proof fn lemma_removal_log_empty(files: Map<FileId, FileView>)
    ensures
        is_removal_log(files, Set::<FileId>::empty(), Seq::<FileRemoved>::empty()),
{
}

/// The event of one deletion is a list for that one file.
pub proof fn lemma_removal_log_single(v: FilesView, file_id: FileId)
    requires
        v.consistent(),
        v.files.contains_key(file_id),
    ensures
        is_removal_log(v.files, set![file_id], seq![v.file_removed(file_id)]),
{
    let log = seq![v.file_removed(file_id)];
    let hash = v.files[file_id].hash;
    let same = v.files_with_hash(hash);
    lemma_files_with_hash(v, hash);
    assert(same.contains(file_id));
    assert(v.reference_count(hash) == same.len());
    assert(same.len() == same.remove(file_id).len() + 1);
    assert(log[0].file_id == file_id);
    assert forall|f: FileId| #[trigger] set![file_id].contains(f) implies listed_up_to(
        log,
        f,
        log.len() - 1,
    ) by {
        assert(log[0].file_id == f);
    }
    if log[0].blob_deleted {
        assert(same.remove(file_id).len() == 0);
        assert forall|f: FileId|
            #[trigger] v.files.contains_key(f) && v.files[f].hash == hash implies listed_up_to(
            log,
            f,
            0,
        ) by {
            if f != file_id {
                assert(same.contains(f));
                assert(same.remove(file_id).contains(f));
                assert(same.remove(file_id) =~= Set::<FileId>::empty());
            }
            assert(log[0].file_id == file_id);
        }
        assert(all_listed(v.files, log, hash, 0));
    }
    if all_listed(v.files, log, hash, 0) {
        assert forall|f: FileId| !same.remove(file_id).contains(f) by {
            if same.remove(file_id).contains(f) {
                assert(v.files.contains_key(f) && v.files[f].hash == hash);
                assert(listed_up_to(log, f, 0));
            }
        }
        assert(same.remove(file_id) =~= Set::<FileId>::empty());
    }
}

/// Two lists, the second made on the files that the first left, are together a list for all
/// the files deleted.
pub proof fn lemma_removal_log_concat(
    files0: Map<FileId, FileView>,
    deleted1: Set<FileId>,
    log1: Seq<FileRemoved>,
    files1: Map<FileId, FileView>,
    deleted2: Set<FileId>,
    log2: Seq<FileRemoved>,
)
    requires
        is_removal_log(files0, deleted1, log1),
        is_removal_log(files1, deleted2, log2),
        forall|f: FileId| #[trigger]
            files1.contains_key(f) <==> files0.contains_key(f) && !deleted1.contains(f),
        forall|f: FileId| #[trigger]
            files1.contains_key(f) ==> files1[f].hash == files0[f].hash && files1[f].uploaded_by
                == files0[f].uploaded_by,
    ensures
        is_removal_log(files0, deleted1.union(deleted2), log1 + log2),
{
    let log = log1 + log2;
    let n1 = log1.len() as int;
    let deleted = deleted1.union(deleted2);
    assert forall|j: int| 0 <= j < log.len() implies deleted.contains(#[trigger] log[j].file_id)
        && files0.contains_key(log[j].file_id) && log[j].uploaded_by
        == files0[log[j].file_id].uploaded_by && log[j].hash == files0[log[j].file_id].hash by {
        if j < n1 {
            assert(log[j] == log1[j]);
        } else {
            assert(log[j] == log2[j - n1]);
            assert(files1.contains_key(log2[j - n1].file_id));
        }
    }
    assert forall|j: int, k: int| 0 <= j < k < log.len() implies #[trigger] log[j].file_id
        != #[trigger] log[k].file_id by {
        if k < n1 {
            assert(log[j] == log1[j] && log[k] == log1[k]);
        } else if j >= n1 {
            assert(log[j] == log2[j - n1] && log[k] == log2[k - n1]);
        } else {
            assert(log[j] == log1[j] && log[k] == log2[k - n1]);
            assert(deleted1.contains(log1[j].file_id));
            assert(files1.contains_key(log2[k - n1].file_id));
        }
    }
    assert forall|f: FileId| #[trigger] deleted.contains(f) implies listed_up_to(
        log,
        f,
        log.len() - 1,
    ) by {
        if deleted1.contains(f) {
            assert(listed_up_to(log1, f, log1.len() - 1));
            let k = choose|k: int|
                0 <= k <= log1.len() - 1 && k < log1.len() && #[trigger] log1[k].file_id == f;
            assert(log[k].file_id == f);
        } else {
            assert(listed_up_to(log2, f, log2.len() - 1));
            let k = choose|k: int|
                0 <= k <= log2.len() - 1 && k < log2.len() && #[trigger] log2[k].file_id == f;
            assert(log[n1 + k].file_id == f);
        }
    }
    assert forall|j: int| 0 <= j < log.len() implies ((#[trigger] log[j]).blob_deleted
        <==> all_listed(files0, log, log[j].hash, j)) by {
        let hash = log[j].hash;
        if j < n1 {
            assert(log[j] == log1[j]);
            assert(log1[j].blob_deleted <==> all_listed(files0, log1, hash, j));
            if all_listed(files0, log1, hash, j) {
                assert forall|f: FileId|
                    #[trigger] files0.contains_key(f) && files0[f].hash
                        == hash implies listed_up_to(log, f, j) by {
                    assert(listed_up_to(log1, f, j));
                    let k = choose|k: int|
                        0 <= k <= j && k < log1.len() && #[trigger] log1[k].file_id == f;
                    assert(log[k].file_id == f);
                }
            }
            if all_listed(files0, log, hash, j) {
                assert forall|f: FileId|
                    #[trigger] files0.contains_key(f) && files0[f].hash
                        == hash implies listed_up_to(log1, f, j) by {
                    assert(listed_up_to(log, f, j));
                    let k = choose|k: int|
                        0 <= k <= j && k < log.len() && #[trigger] log[k].file_id == f;
                    assert(log1[k].file_id == f);
                }
            }
        } else {
            let j2 = j - n1;
            assert(log[j] == log2[j2]);
            assert(log2[j2].blob_deleted <==> all_listed(files1, log2, hash, j2));
            if all_listed(files1, log2, hash, j2) {
                assert forall|f: FileId|
                    #[trigger] files0.contains_key(f) && files0[f].hash
                        == hash implies listed_up_to(log, f, j) by {
                    if deleted1.contains(f) {
                        assert(listed_up_to(log1, f, log1.len() - 1));
                        let k = choose|k: int|
                            0 <= k <= log1.len() - 1 && k < log1.len()
                                && #[trigger] log1[k].file_id == f;
                        assert(log[k].file_id == f);
                    } else {
                        assert(files1.contains_key(f));
                        assert(listed_up_to(log2, f, j2));
                        let k = choose|k: int|
                            0 <= k <= j2 && k < log2.len() && #[trigger] log2[k].file_id == f;
                        assert(log[n1 + k].file_id == f);
                    }
                }
            }
            if all_listed(files0, log, hash, j) {
                assert forall|f: FileId|
                    #[trigger] files1.contains_key(f) && files1[f].hash
                        == hash implies listed_up_to(log2, f, j2) by {
                    assert(files0.contains_key(f) && files0[f].hash == hash);
                    assert(listed_up_to(log, f, j));
                    let k = choose|k: int|
                        0 <= k <= j && k < log.len() && #[trigger] log[k].file_id == f;
                    if k < n1 {
                        assert(log[k] == log1[k]);
                        assert(deleted1.contains(log1[k].file_id));
                    } else {
                        assert(log2[k - n1].file_id == f);
                    }
                }
            }
        }
    }
}

} // verus!
