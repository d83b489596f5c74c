//! The files that remain when users leave and accessors are revoked.

use crate::bucket::model::{blobs_in_use, hash_in_use, FileView, FilesView};
use crate::types::{AccessorId, FileId, UserId};
use vstd::prelude::*;

verus! {

impl FileView {
    /// Whether the file names an accessor and all those it names are among `accessors`.
    pub open spec fn orphaned_by(self, accessors: Set<AccessorId>) -> bool {
        self.accessors != Set::<AccessorId>::empty() && self.accessors.subset_of(accessors)
    }

    /// The same file, no longer naming any of `accessors`.
    pub open spec fn without(self, accessors: Set<AccessorId>) -> FileView {
        FileView { accessors: self.accessors.difference(accessors), ..self }
    }
}

/// The files of `files` that remain when the uploads of `users` are deleted and `accessors`
/// are revoked: a file goes when one of `users` uploaded it, or when it named an accessor
/// and names none any more; the others no longer name any of `accessors`.
pub open spec fn after_purge(
    files: Map<FileId, FileView>,
    users: Set<UserId>,
    accessors: Set<AccessorId>,
) -> Map<FileId, FileView> {
    Map::new(
        |file_id: FileId|
            files.contains_key(file_id) && !users.contains(files[file_id].uploaded_by)
                && !files[file_id].orphaned_by(accessors),
        |file_id: FileId| files[file_id].without(accessors),
    )
}

/// The files of `files` that are not in `remaining`.
pub open spec fn gone(files: Map<FileId, FileView>, remaining: Map<FileId, FileView>) -> Set<
    FileId,
> {
    Set::new(|file_id: FileId| files.contains_key(file_id) && !remaining.contains_key(file_id))
}

/// The files of `files` that `user_id` uploaded.
pub open spec fn uploads_of(files: Map<FileId, FileView>, user_id: UserId) -> Set<FileId> {
    Set::new(|file_id: FileId| files.contains_key(file_id) && files[file_id].uploaded_by == user_id)
}

/// The files of `files` that `user_id` did not upload.
pub open spec fn without_uploads_of(files: Map<FileId, FileView>, user_id: UserId) -> Map<
    FileId,
    FileView,
> {
    files.remove_keys(uploads_of(files, user_id))
}

/// When nobody leaves and nothing is revoked, every file remains as it is.
pub proof fn lemma_purge_nothing(files: Map<FileId, FileView>)
    ensures
        after_purge(files, Set::empty(), Set::empty()) == files,
{
    let purged = after_purge(files, Set::empty(), Set::empty());
    assert forall|f: FileId| files.contains_key(f) implies purged.contains_key(f) && purged[f]
        == files[f] by {
        let accessors = files[f].accessors;
        if accessors != Set::<AccessorId>::empty() && accessors.subset_of(Set::empty()) {
            assert(accessors =~= Set::<AccessorId>::empty());
        }
        assert(accessors.difference(Set::empty()) =~= accessors);
    }
    assert(purged =~= files);
}

/// Deleting the uploads of one more user from what a purge left is the purge with that user
/// among those who leave.
pub proof fn lemma_purge_one_more_user(
    files: Map<FileId, FileView>,
    users: Set<UserId>,
    accessors: Set<AccessorId>,
    user_id: UserId,
)
    ensures
        without_uploads_of(after_purge(files, users, accessors), user_id) == after_purge(
            files,
            users.insert(user_id),
            accessors,
        ),
{
    assert(without_uploads_of(after_purge(files, users, accessors), user_id) =~= after_purge(
        files,
        users.insert(user_id),
        accessors,
    ));
}

/// Revoking one more accessor in what a purge left is the purge with that accessor among
/// those revoked.
pub proof fn lemma_purge_one_more_accessor(
    v: FilesView,
    files: Map<FileId, FileView>,
    users: Set<UserId>,
    accessors: Set<AccessorId>,
    accessor_id: AccessorId,
)
    requires
        v.files == after_purge(files, users, accessors),
    ensures
        v.files_without_accessor(accessor_id) == after_purge(
            files,
            users,
            accessors.insert(accessor_id),
        ),
{
    let left = v.files_without_accessor(accessor_id);
    let right = after_purge(files, users, accessors.insert(accessor_id));
    let more = accessors.insert(accessor_id);
    assert forall|f: FileId| left.contains_key(f) <==> right.contains_key(f) by {
        if files.contains_key(f) && !users.contains(files[f].uploaded_by) {
            let all = files[f].accessors;
            let rest = all.difference(accessors);
            if v.files.contains_key(f) {
                assert(v.files[f].accessors == rest);
                if left.contains_key(f) {
                    // Some accessor outside `more` is named, or none was ever named.
                    if all != Set::<AccessorId>::empty() && all.subset_of(more) {
                        assert(!all.subset_of(accessors));
                        let x = choose|x: AccessorId| all.contains(x) && !accessors.contains(x);
                        assert(x == accessor_id);
                        assert(rest.contains(accessor_id));
                        assert(rest.remove(accessor_id) =~= Set::<AccessorId>::empty()) by {
                            assert forall|y: AccessorId| !rest.remove(accessor_id).contains(y) by {
                                if rest.remove(accessor_id).contains(y) {
                                    assert(all.contains(y));
                                    assert(more.contains(y));
                                }
                            }
                        }
                    }
                } else {
                    assert(rest.contains(accessor_id));
                    assert(rest.remove(accessor_id) == Set::<AccessorId>::empty());
                    assert(all.contains(accessor_id));
                    assert forall|y: AccessorId| all.contains(y) implies more.contains(y) by {
                        if !more.contains(y) {
                            assert(rest.remove(accessor_id).contains(y));
                        }
                    }
                }
            } else {
                assert(files[f].orphaned_by(accessors));
                assert(all.subset_of(more));
            }
        }
    }
    assert forall|f: FileId| left.contains_key(f) implies left[f] == right[f] by {
        assert(files[f].accessors.difference(accessors).remove(accessor_id)
            =~= files[f].accessors.difference(more));
    }
    assert(left =~= right);
}

/// The blobs in use by fewer files are those of the blobs in use by more files that the
/// fewer still use.
pub proof fn lemma_blobs_in_use_shrink(
    blobs: Map<crate::types::Hash, Seq<u8>>,
    more: Map<FileId, FileView>,
    fewer: Map<FileId, FileView>,
)
    requires
        forall|f: FileId| #[trigger]
            fewer.contains_key(f) ==> more.contains_key(f) && more[f].hash == fewer[f].hash,
    ensures
        blobs_in_use(blobs_in_use(blobs, more), fewer) == blobs_in_use(blobs, fewer),
{
    let left = blobs_in_use(blobs_in_use(blobs, more), fewer);
    let right = blobs_in_use(blobs, fewer);
    assert forall|h: crate::types::Hash| left.contains_key(h) <==> right.contains_key(h) by {
        if hash_in_use(fewer, h) {
            let f = choose|f: FileId| #[trigger] fewer.contains_key(f) && fewer[f].hash == h;
            assert(more.contains_key(f) && more[f].hash == h);
            assert(hash_in_use(more, h));
        }
    }
    assert(left =~= right);
}

} // verus!
