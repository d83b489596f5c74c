use open_storage::bucket::files::{
    Files, HashMismatch, PutChunkResult, PutChunkResultSuccess, RemoveFileResult,
};
use open_storage::bucket::pending_file::{
    calc_chunk_count, AddChunkResult, ChunkSizeMismatch, PendingFile, PutChunkArgs,
    UploadChunkArgs,
};
use open_storage::bucket::{DATA_LIMIT_BYTES, MAX_BLOB_SIZE_BYTES};
use open_storage::types::{FileAdded, FileRemoved, Principal};
use sha2::{Digest, Sha256};

fn principal(n: u8) -> Principal {
    Principal::from_slice(&[n]).unwrap()
}

fn sha256(bytes: &[u8]) -> [u8; 32] {
    Sha256::digest(bytes).into()
}

fn content(len: usize) -> Vec<u8> {
    (0..len).map(|i| (i * 7 + 3) as u8).collect()
}

fn chunk(
    uploaded_by: Principal,
    file_id: u128,
    hash: [u8; 32],
    accessors: Vec<Principal>,
    chunk_index: u32,
    chunk_size: u32,
    total_size: u64,
    bytes: Vec<u8>,
    now: u64,
) -> PutChunkArgs {
    PutChunkArgs::new(
        uploaded_by,
        UploadChunkArgs {
            file_id,
            hash,
            mime_type: String::from("text/plain"),
            accessors,
            chunk_index,
            chunk_size,
            total_size,
            bytes,
        },
        now,
    )
}

fn upload(files: &mut Files, uploaded_by: Principal, file_id: u128, accessors: Vec<Principal>, data: &[u8]) {
    let hash = sha256(data);
    let result = files.put_chunk(chunk(
        uploaded_by,
        file_id,
        hash,
        accessors,
        0,
        data.len() as u32,
        data.len() as u64,
        data.to_vec(),
        1,
    ));
    assert_eq!(
        result,
        PutChunkResult::Success(PutChunkResultSuccess {
            file_completed: true,
            file_added: Some(FileAdded { uploaded_by, file_id, hash, size: data.len() as u64 }),
        })
    );
}

#[test]
fn new_store_is_empty() {
    let files = Files::new();
    assert_eq!(files.metrics().file_count, 0);
    assert_eq!(files.metrics().blob_count, 0);
    assert_eq!(files.bytes_remaining(), DATA_LIMIT_BYTES as i64);
    assert!(files.get(&1).is_none());
    assert!(files.uploaded_by(&1).is_none());
}

#[test]
fn single_small_upload_in_two_chunks() {
    let data = content(100);
    let hash = sha256(&data);
    let user = principal(1);
    let mut files = Files::new();

    let first = files.put_chunk(chunk(user, 1, hash, vec![], 0, 64, 100, data[..64].to_vec(), 10));
    assert_eq!(
        first,
        PutChunkResult::Success(PutChunkResultSuccess {
            file_completed: false,
            file_added: Some(FileAdded { uploaded_by: user, file_id: 1, hash, size: 100 }),
        })
    );
    assert!(files.get(&1).is_none());
    assert!(files.pending_file(&1).is_some());
    assert_eq!(files.uploaded_by(&1), Some(user));
    assert!(!files.contains_hash(&hash));

    let second = files.put_chunk(chunk(user, 1, hash, vec![], 1, 64, 100, data[64..].to_vec(), 20));
    assert_eq!(
        second,
        PutChunkResult::Success(PutChunkResultSuccess { file_completed: true, file_added: None })
    );
    let file = files.get(&1).unwrap();
    assert_eq!(file.uploaded_by, user);
    assert_eq!(file.hash, hash);
    assert_eq!(file.created, 20);
    assert_eq!(file.mime_type, "text/plain");
    assert!(files.pending_file(&1).is_none());
    assert_eq!(files.blob_bytes(&hash).unwrap(), &data);
    assert_eq!(files.data_size(&hash), Some(100));
    assert_eq!(files.metrics().file_count, 1);
    assert_eq!(files.metrics().blob_count, 1);
    assert_eq!(files.bytes_remaining(), DATA_LIMIT_BYTES as i64 - 100);
}

#[test]
fn same_content_is_stored_once() {
    let data = content(100);
    let hash = sha256(&data);
    let mut files = Files::new();
    upload(&mut files, principal(1), 1, vec![], &data);

    let first = files.put_chunk(chunk(principal(2), 2, hash, vec![], 0, 64, 100, data[..64].to_vec(), 10));
    assert!(matches!(first, PutChunkResult::Success(s) if !s.file_completed && s.file_added.is_some()));
    let second = files.put_chunk(chunk(principal(2), 2, hash, vec![], 1, 64, 100, data[64..].to_vec(), 20));
    assert_eq!(
        second,
        PutChunkResult::Success(PutChunkResultSuccess { file_completed: true, file_added: None })
    );

    assert!(files.get(&1).is_some());
    assert!(files.get(&2).is_some());
    assert_eq!(files.blob_bytes(&hash).unwrap().len(), 100);
    assert_eq!(files.metrics().file_count, 2);
    assert_eq!(files.metrics().blob_count, 1);
    assert_eq!(files.bytes_remaining(), DATA_LIMIT_BYTES as i64 - 100);

    // The blob stays until the last file that refers to it goes.
    assert_eq!(
        files.remove(principal(1), 1),
        RemoveFileResult::Success(FileRemoved {
            file_id: 1,
            uploaded_by: principal(1),
            hash,
            blob_deleted: false,
        })
    );
    assert!(files.contains_hash(&hash));
    assert_eq!(
        files.remove(principal(2), 2),
        RemoveFileResult::Success(FileRemoved {
            file_id: 2,
            uploaded_by: principal(2),
            hash,
            blob_deleted: true,
        })
    );
    assert!(!files.contains_hash(&hash));
    assert_eq!(files.bytes_remaining(), DATA_LIMIT_BYTES as i64);
    assert_eq!(files.metrics().blob_count, 0);
}

#[test]
fn only_the_uploader_may_remove() {
    let data = content(10);
    let hash = sha256(&data);
    let mut files = Files::new();
    upload(&mut files, principal(1), 1, vec![principal(9)], &data);

    assert_eq!(files.remove(principal(2), 1), RemoveFileResult::NotAuthorized);
    assert!(files.get(&1).is_some());
    assert!(files.contains_hash(&hash));
    assert_eq!(files.metrics().file_count, 1);
    assert_eq!(files.bytes_remaining(), DATA_LIMIT_BYTES as i64 - 10);
}

#[test]
fn removing_twice_is_not_found() {
    let data = content(10);
    let mut files = Files::new();
    upload(&mut files, principal(1), 1, vec![], &data);
    assert!(matches!(files.remove(principal(1), 1), RemoveFileResult::Success(_)));
    assert_eq!(files.remove(principal(1), 1), RemoveFileResult::NotFound);
    assert_eq!(files.remove(principal(1), 77), RemoveFileResult::NotFound);
    assert_eq!(files.metrics().file_count, 0);
    assert_eq!(files.metrics().blob_count, 0);
}

#[test]
fn revoking_an_accessor_cascades() {
    let data = content(50);
    let hash = sha256(&data);
    let (a1, a2) = (principal(11), principal(12));
    let mut files = Files::new();
    upload(&mut files, principal(1), 1, vec![a1, a2], &data);
    upload(&mut files, principal(2), 2, vec![a1], &data);

    let removed = files.remove_accessor(&a1);
    assert_eq!(
        removed,
        vec![FileRemoved { file_id: 2, uploaded_by: principal(2), hash, blob_deleted: false }]
    );
    let survivor = files.get(&1).unwrap();
    assert!(!survivor.accessors.contains(&a1));
    assert!(survivor.accessors.contains(&a2));
    assert_eq!(survivor.accessors.len(), 1);
    assert!(files.get(&2).is_none());
    assert!(files.contains_hash(&hash));
    assert_eq!(files.metrics().blob_count, 1);

    // Revoking the last accessor deletes the file and, with it, the blob.
    let removed = files.remove_accessor(&a2);
    assert_eq!(
        removed,
        vec![FileRemoved { file_id: 1, uploaded_by: principal(1), hash, blob_deleted: true }]
    );
    assert!(!files.contains_hash(&hash));
    assert_eq!(files.bytes_remaining(), DATA_LIMIT_BYTES as i64);
    assert!(files.remove_accessor(&a2).is_empty());
}

#[test]
fn revoking_leaves_files_without_accessors_alone() {
    let data = content(5);
    let mut files = Files::new();
    upload(&mut files, principal(1), 1, vec![], &data);
    assert!(files.remove_accessor(&principal(11)).is_empty());
    assert!(files.get(&1).is_some());
}

#[test]
fn wrong_hash_drops_the_upload() {
    let data = content(100);
    let other = content(99);
    let declared = sha256(&other);
    let actual = sha256(&data);
    assert_ne!(declared, actual);
    let user = principal(1);
    let mut files = Files::new();

    let first = files.put_chunk(chunk(user, 1, declared, vec![], 0, 64, 100, data[..64].to_vec(), 10));
    assert!(matches!(first, PutChunkResult::Success(_)));
    let second = files.put_chunk(chunk(user, 1, declared, vec![], 1, 64, 100, data[64..].to_vec(), 20));
    assert_eq!(
        second,
        PutChunkResult::HashMismatch(HashMismatch {
            provided_hash: declared,
            actual_hash: actual,
            chunk_count: 2,
        })
    );
    assert!(files.pending_file(&1).is_none());
    assert!(files.get(&1).is_none());
    assert_eq!(files.metrics().blob_count, 0);

    // The identifier is free again for bytes that do hash to what is declared.
    upload(&mut files, user, 1, vec![], &other);
    assert_eq!(files.blob_bytes(&declared).unwrap(), &other);
}

#[test]
fn wrong_hash_on_a_single_chunk() {
    let data = content(10);
    let declared = [7u8; 32];
    let mut files = Files::new();
    let result = files.put_chunk(chunk(principal(1), 1, declared, vec![], 0, 10, 10, data.clone(), 10));
    assert_eq!(
        result,
        PutChunkResult::HashMismatch(HashMismatch {
            provided_hash: declared,
            actual_hash: sha256(&data),
            chunk_count: 1,
        })
    );
    assert!(files.pending_file(&1).is_none());
}

#[test]
fn chunks_in_any_order_give_back_the_content() {
    let data = content(1000);
    let hash = sha256(&data);
    let user = principal(1);
    let order = [3u32, 0, 9, 1, 2, 8, 7, 5, 4, 6];
    let mut files = Files::new();
    for (n, index) in order.iter().enumerate() {
        let start = *index as usize * 100;
        let result = files.put_chunk(chunk(
            user,
            5,
            hash,
            vec![],
            *index,
            100,
            1000,
            data[start..start + 100].to_vec(),
            n as u64,
        ));
        let last = n == order.len() - 1;
        match result {
            PutChunkResult::Success(s) => {
                assert_eq!(s.file_completed, last);
                assert_eq!(s.file_added.is_some(), n == 0);
            }
            other => panic!("chunk {} was refused: {:?}", index, other),
        }
    }
    assert_eq!(files.blob_bytes(&hash).unwrap(), &data);
}

#[test]
fn last_chunk_carries_the_remainder() {
    let data = content(250);
    let hash = sha256(&data);
    let user = principal(1);
    let mut files = Files::new();
    // The last of three chunks of 100 must carry 50 bytes.
    assert!(matches!(
        files.put_chunk(chunk(user, 1, hash, vec![], 0, 100, 250, data[..100].to_vec(), 1)),
        PutChunkResult::Success(_)
    ));
    assert_eq!(
        files.put_chunk(chunk(user, 1, hash, vec![], 2, 100, 250, data[150..].to_vec(), 1)),
        PutChunkResult::ChunkSizeMismatch(ChunkSizeMismatch { expected_size: 50, actual_size: 100 })
    );
    assert_eq!(
        files.put_chunk(chunk(user, 1, hash, vec![], 2, 100, 250, data[200..249].to_vec(), 1)),
        PutChunkResult::ChunkSizeMismatch(ChunkSizeMismatch { expected_size: 50, actual_size: 49 })
    );
    assert!(matches!(
        files.put_chunk(chunk(user, 1, hash, vec![], 2, 100, 250, data[200..].to_vec(), 1)),
        PutChunkResult::Success(_)
    ));
    assert_eq!(
        files.put_chunk(chunk(user, 1, hash, vec![], 1, 100, 250, data[100..200].to_vec(), 1)),
        PutChunkResult::Success(PutChunkResultSuccess { file_completed: true, file_added: None })
    );
    assert_eq!(files.blob_bytes(&hash).unwrap(), &data);
}

#[test]
fn last_chunk_of_an_exact_multiple_is_a_whole_chunk() {
    let data = content(200);
    let hash = sha256(&data);
    let user = principal(1);
    let mut files = Files::new();
    assert!(matches!(
        files.put_chunk(chunk(user, 1, hash, vec![], 0, 100, 200, data[..100].to_vec(), 1)),
        PutChunkResult::Success(_)
    ));
    assert_eq!(
        files.put_chunk(chunk(user, 1, hash, vec![], 1, 100, 200, data[100..199].to_vec(), 1)),
        PutChunkResult::ChunkSizeMismatch(ChunkSizeMismatch { expected_size: 100, actual_size: 99 })
    );
    assert_eq!(
        files.put_chunk(chunk(user, 1, hash, vec![], 1, 100, 200, data[100..].to_vec(), 1)),
        PutChunkResult::Success(PutChunkResultSuccess { file_completed: true, file_added: None })
    );
}

#[test]
fn chunk_index_too_high() {
    let data = content(200);
    let hash = sha256(&data);
    let mut files = Files::new();
    assert_eq!(
        files.put_chunk(chunk(principal(1), 1, hash, vec![], 2, 100, 200, data[..100].to_vec(), 1)),
        PutChunkResult::ChunkIndexTooHigh
    );
    // A chunk that is refused opens no upload.
    assert!(files.pending_file(&1).is_none());
}

#[test]
fn chunk_already_exists() {
    let data = content(200);
    let hash = sha256(&data);
    let user = principal(1);
    let mut files = Files::new();
    assert!(matches!(
        files.put_chunk(chunk(user, 1, hash, vec![], 0, 100, 200, data[..100].to_vec(), 1)),
        PutChunkResult::Success(_)
    ));
    assert_eq!(
        files.put_chunk(chunk(user, 1, hash, vec![], 0, 100, 200, data[..100].to_vec(), 1)),
        PutChunkResult::ChunkAlreadyExists
    );
    // The upload goes on after a refused chunk.
    assert_eq!(
        files.put_chunk(chunk(user, 1, hash, vec![], 1, 100, 200, data[100..].to_vec(), 1)),
        PutChunkResult::Success(PutChunkResultSuccess { file_completed: true, file_added: None })
    );
}

#[test]
fn file_already_exists() {
    let data = content(10);
    let hash = sha256(&data);
    let mut files = Files::new();
    upload(&mut files, principal(1), 1, vec![], &data);
    assert_eq!(
        files.put_chunk(chunk(principal(1), 1, hash, vec![], 0, 10, 10, data.clone(), 1)),
        PutChunkResult::FileAlreadyExists
    );
}

#[test]
fn empty_upload_is_refused() {
    let mut files = Files::new();
    let result = files.put_chunk(chunk(principal(1), 1, sha256(&[]), vec![], 0, 64, 0, vec![], 1));
    assert_eq!(result, PutChunkResult::ChunkIndexTooHigh);
    assert!(files.pending_file(&1).is_none());
    assert!(files.get(&1).is_none());
}

#[test]
fn chunk_size_zero_is_refused() {
    let mut files = Files::new();
    let result = files.put_chunk(chunk(principal(1), 1, [0u8; 32], vec![], 0, 0, 10, vec![], 1));
    assert_eq!(result, PutChunkResult::ChunkIndexTooHigh);
    assert!(files.pending_file(&1).is_none());
}

#[test]
fn size_limit() {
    let mut files = Files::new();
    let too_big = files.put_chunk(chunk(
        principal(1),
        1,
        [0u8; 32],
        vec![],
        0,
        1 << 19,
        MAX_BLOB_SIZE_BYTES + 1,
        vec![0u8; 1 << 19],
        1,
    ));
    assert_eq!(too_big, PutChunkResult::FileTooBig(MAX_BLOB_SIZE_BYTES));
    assert!(files.pending_file(&1).is_none());

    let at_limit = files.put_chunk(chunk(
        principal(1),
        1,
        [0u8; 32],
        vec![],
        0,
        1 << 19,
        MAX_BLOB_SIZE_BYTES,
        vec![1u8; 1 << 19],
        1,
    ));
    assert_eq!(
        at_limit,
        PutChunkResult::Success(PutChunkResultSuccess {
            file_completed: false,
            file_added: Some(FileAdded {
                uploaded_by: principal(1),
                file_id: 1,
                hash: [0u8; 32],
                size: MAX_BLOB_SIZE_BYTES,
            }),
        })
    );
    let pending = files.pending_file(&1).unwrap();
    assert_eq!(pending.chunk_count(), 2048);
    assert_eq!(pending.remaining_chunks.len(), 2047);
    assert!(files.remove_pending_file(&1));
    assert!(!files.remove_pending_file(&1));
}

#[test]
fn chunk_counts() {
    assert_eq!(calc_chunk_count(64, 100), 2);
    assert_eq!(calc_chunk_count(100, 100), 1);
    assert_eq!(calc_chunk_count(100, 101), 2);
    assert_eq!(calc_chunk_count(1, 5), 5);
    assert_eq!(calc_chunk_count(64, 0), 0);
    assert_eq!(calc_chunk_count(0, 5), 0);
}

#[test]
fn pending_file_on_its_own() {
    let data = content(100);
    let (mut pending, first) =
        PendingFile::from(chunk(principal(1), 1, [0u8; 32], vec![principal(3), principal(3)], 1, 64, 100, data[64..].to_vec(), 5));
    assert_eq!(first, AddChunkResult::Success);
    assert_eq!(pending.created, 5);
    assert_eq!(pending.accessors.len(), 1);
    assert_eq!(pending.chunk_count(), 2);
    assert_eq!(pending.expected_chunk_size(0), Some(64));
    assert_eq!(pending.expected_chunk_size(1), Some(36));
    assert_eq!(pending.expected_chunk_size(2), None);
    assert!(!pending.is_completed());
    assert_eq!(&pending.bytes[..64], &[0u8; 64][..]);
    assert_eq!(&pending.bytes[64..], &data[64..]);
    assert_eq!(pending.add_chunk(1, data[64..].to_vec()), AddChunkResult::ChunkAlreadyExists);
    assert_eq!(pending.add_chunk(2, vec![]), AddChunkResult::ChunkIndexTooHigh);
    assert_eq!(
        pending.add_chunk(0, vec![1, 2, 3]),
        AddChunkResult::ChunkSizeMismatch(ChunkSizeMismatch { expected_size: 64, actual_size: 3 })
    );
    assert_eq!(pending.add_chunk(0, data[..64].to_vec()), AddChunkResult::Success);
    assert!(pending.is_completed());
    assert_eq!(pending.bytes, data);
}

#[test]
fn finish_upload_takes_the_hash_as_given() {
    let data = content(10);
    let (pending, _) = PendingFile::from(chunk(principal(1), 1, [1u8; 32], vec![], 0, 10, 10, data.clone(), 5));
    assert!(pending.is_completed());
    let mut files = Files::new();
    assert_eq!(
        files.finish_upload(1, pending, [2u8; 32], 6),
        Err(HashMismatch { provided_hash: [1u8; 32], actual_hash: [2u8; 32], chunk_count: 1 })
    );
    assert!(files.get(&1).is_none());

    let (pending, _) = PendingFile::from(chunk(principal(1), 1, [1u8; 32], vec![], 0, 10, 10, data.clone(), 5));
    assert_eq!(files.finish_upload(1, pending, [1u8; 32], 6), Ok(()));
    assert_eq!(files.get(&1).unwrap().created, 6);
    assert_eq!(files.blob_bytes(&[1u8; 32]).unwrap(), &data);
}

#[test]
fn uploads_of_a_user_are_listed_and_removed() {
    let mut files = Files::new();
    upload(&mut files, principal(1), 1, vec![], &content(10));
    upload(&mut files, principal(2), 2, vec![], &content(10));
    upload(&mut files, principal(1), 3, vec![], &content(20));
    let mut ids = files.files_uploaded_by(&principal(1));
    ids.sort();
    assert_eq!(ids, vec![1, 3]);

    let mut removed = files.remove_user_files(principal(1));
    removed.sort_by_key(|r| r.file_id);
    assert_eq!(
        removed,
        vec![
            FileRemoved {
                file_id: 1,
                uploaded_by: principal(1),
                hash: sha256(&content(10)),
                blob_deleted: false,
            },
            FileRemoved {
                file_id: 3,
                uploaded_by: principal(1),
                hash: sha256(&content(20)),
                blob_deleted: true,
            },
        ]
    );
    assert_eq!(files.metrics().file_count, 1);
    assert_eq!(files.metrics().blob_count, 1);
    assert_eq!(files.bytes_remaining(), DATA_LIMIT_BYTES as i64 - 10);
}

#[test]
fn snapshot_brings_the_store_back() {
    let data = content(300);
    let hash = sha256(&data);
    let (a1, a2) = (principal(11), principal(12));
    let mut files = Files::new();
    upload(&mut files, principal(1), 1, vec![a1, a2], &data);
    upload(&mut files, principal(2), 2, vec![a1], &data);
    upload(&mut files, principal(2), 3, vec![], &content(20));
    assert!(matches!(
        files.put_chunk(chunk(principal(3), 4, hash, vec![a2], 1, 100, 300, data[100..200].to_vec(), 9)),
        PutChunkResult::Success(_)
    ));

    let snapshot = files.into_snapshot();
    assert_eq!(snapshot.files.len(), 3);
    assert_eq!(snapshot.pending_files.len(), 1);
    assert_eq!(snapshot.blobs.len(), 2);
    let mut restored = Files::from_snapshot(snapshot).unwrap();

    assert_eq!(restored.metrics().file_count, 3);
    assert_eq!(restored.metrics().blob_count, 2);
    assert_eq!(restored.bytes_remaining(), DATA_LIMIT_BYTES as i64 - 320);
    assert_eq!(restored.blob_bytes(&hash).unwrap(), &data);
    let first = restored.get(&1).unwrap();
    assert_eq!(first.uploaded_by, principal(1));
    assert_eq!(first.created, 1);
    assert_eq!(first.mime_type, "text/plain");
    assert!(first.accessors.contains(&a1) && first.accessors.contains(&a2));
    let pending = restored.pending_file(&4).unwrap();
    assert_eq!(pending.remaining_chunks.len(), 2);
    assert_eq!(&pending.bytes[100..200], &data[100..200]);

    // The store goes on where it was: counts and links are there again.
    assert_eq!(
        restored.remove_accessor(&a1),
        vec![FileRemoved { file_id: 2, uploaded_by: principal(2), hash, blob_deleted: false }]
    );
    assert!(matches!(
        restored.put_chunk(chunk(principal(3), 4, hash, vec![a2], 0, 100, 300, data[..100].to_vec(), 10)),
        PutChunkResult::Success(s) if !s.file_completed && s.file_added.is_none()
    ));
    assert_eq!(
        restored.put_chunk(chunk(principal(3), 4, hash, vec![a2], 2, 100, 300, data[200..].to_vec(), 11)),
        PutChunkResult::Success(PutChunkResultSuccess { file_completed: true, file_added: None })
    );
    assert_eq!(
        restored.remove(principal(1), 1),
        RemoveFileResult::Success(FileRemoved {
            file_id: 1,
            uploaded_by: principal(1),
            hash,
            blob_deleted: false,
        })
    );
}

#[test]
fn snapshot_of_no_store_is_refused() {
    let data = content(10);
    let mut files = Files::new();
    upload(&mut files, principal(1), 1, vec![], &data);
    upload(&mut files, principal(1), 2, vec![], &content(11));

    // A blob without a file.
    let mut snapshot = files.into_snapshot();
    let orphan = snapshot.files.pop().unwrap();
    assert!(Files::from_snapshot(snapshot).is_none());

    // A file without its blob.
    let mut files = Files::new();
    upload(&mut files, principal(1), 1, vec![], &data);
    let mut snapshot = files.into_snapshot();
    snapshot.files.push(orphan);
    assert!(Files::from_snapshot(snapshot).is_none());

    // The same identifier twice.
    let mut files = Files::new();
    upload(&mut files, principal(1), 1, vec![], &data);
    upload(&mut files, principal(1), 2, vec![], &data);
    let mut snapshot = files.into_snapshot();
    snapshot.files[0].0 = snapshot.files[1].0;
    assert!(Files::from_snapshot(snapshot).is_none());

    // A pending file under the identifier of a file.
    let mut files = Files::new();
    upload(&mut files, principal(1), 1, vec![], &data);
    assert!(matches!(
        files.put_chunk(chunk(principal(1), 2, sha256(&data), vec![], 0, 5, 10, data[..5].to_vec(), 1)),
        PutChunkResult::Success(_)
    ));
    let mut snapshot = files.into_snapshot();
    snapshot.pending_files[0].0 = 1;
    assert!(Files::from_snapshot(snapshot).is_none());

    // A pending file whose buffer has not the size declared.
    let mut files = Files::new();
    assert!(matches!(
        files.put_chunk(chunk(principal(1), 2, sha256(&data), vec![], 0, 5, 10, data[..5].to_vec(), 1)),
        PutChunkResult::Success(_)
    ));
    let mut snapshot = files.into_snapshot();
    snapshot.pending_files[0].1.bytes.pop();
    assert!(Files::from_snapshot(snapshot).is_none());

    // The empty snapshot is the empty store.
    let snapshot = Files::new().into_snapshot();
    assert!(snapshot.files.is_empty() && snapshot.blobs.is_empty());
    assert_eq!(Files::from_snapshot(snapshot).unwrap().metrics().file_count, 0);
}
