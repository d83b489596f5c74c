use open_storage::bucket::blobs::{
    Blobs, HashMismatch, PutChunkArgs, PutChunkResult, PutChunkResultSuccess,
    RemoveBlobReferenceResult,
};
use open_storage::bucket::files::Files;
use open_storage::bucket::pending_file::{ChunkSizeMismatch, UploadChunkArgs};
use open_storage::bucket::accessors_map::AccessorsMap;
use open_storage::bucket::reference_counts::ReferenceCounts;
use open_storage::bucket::MAX_BLOB_SIZE_BYTES;
use open_storage::types::{BlobReferenceAdded, BlobReferenceRemoved, Principal};
use sha2::{Digest, Sha256};

fn principal(n: u8) -> Principal {
    Principal::from_slice(&[n]).unwrap()
}

fn sha256(bytes: &[u8]) -> [u8; 32] {
    Sha256::digest(bytes).into()
}

fn chunk(user: u8, blob_id: u128, hash: [u8; 32], accessors: &[u8], index: u32, size: u32, total: u64, bytes: &[u8]) -> PutChunkArgs {
    PutChunkArgs::new(
        principal(user),
        7,
        UploadChunkArgs {
            file_id: blob_id,
            hash,
            mime_type: String::from("image/png"),
            accessors: accessors.iter().map(|a| principal(*a)).collect(),
            chunk_index: index,
            chunk_size: size,
            total_size: total,
            bytes: bytes.to_vec(),
        },
    )
}

#[test]
fn blob_references_follow_the_store() {
    let data: Vec<u8> = (0..100u8).collect();
    let hash = sha256(&data);
    let mut blobs = Blobs::new();
    assert_eq!(
        blobs.put_chunk(chunk(1, 1, hash, &[11], 0, 64, 100, &data[..64])),
        PutChunkResult::Success(PutChunkResultSuccess {
            blob_completed: false,
            blob_reference_added: Some(BlobReferenceAdded {
                uploaded_by: principal(1),
                blob_id: 1,
                blob_hash: hash,
                blob_size: 100,
            }),
        })
    );
    assert_eq!(blobs.uploaded_by(&1), Some(principal(1)));
    assert_eq!(
        blobs.put_chunk(chunk(1, 1, hash, &[11], 0, 64, 100, &data[..64])),
        PutChunkResult::ChunkAlreadyExists
    );
    assert_eq!(
        blobs.put_chunk(chunk(1, 1, hash, &[11], 1, 64, 100, &data[64..99])),
        PutChunkResult::ChunkSizeMismatch(ChunkSizeMismatch { expected_size: 36, actual_size: 35 })
    );
    assert_eq!(blobs.put_chunk(chunk(1, 1, hash, &[11], 2, 64, 100, &[])), PutChunkResult::ChunkIndexTooHigh);
    assert_eq!(
        blobs.put_chunk(chunk(1, 1, hash, &[11], 1, 64, 100, &data[64..])),
        PutChunkResult::Success(PutChunkResultSuccess { blob_completed: true, blob_reference_added: None })
    );
    assert!(blobs.contains_hash(&hash));
    let reference = blobs.get(&1).unwrap();
    assert_eq!(reference.uploaded_by, principal(1));
    assert_eq!(reference.hash, hash);
    assert_eq!(reference.created, 7);
    assert!(reference.accessors.contains(&principal(11)));
    assert_eq!(
        blobs.put_chunk(chunk(1, 1, hash, &[], 0, 64, 100, &data[..64])),
        PutChunkResult::BlobAlreadyExists
    );
    assert_eq!(
        blobs.put_chunk(chunk(1, 2, hash, &[], 0, 64, MAX_BLOB_SIZE_BYTES + 1, &data[..64])),
        PutChunkResult::BlobTooBig(MAX_BLOB_SIZE_BYTES)
    );
    assert_eq!(
        blobs.put_chunk(chunk(1, 2, [0u8; 32], &[], 0, 3, 3, b"abc")),
        PutChunkResult::HashMismatch(HashMismatch { provided_hash: [0u8; 32], actual_hash: sha256(b"abc") })
    );

    assert_eq!(blobs.remove_blob_reference(principal(2), 1), RemoveBlobReferenceResult::NotAuthorized);
    assert_eq!(blobs.remove_blob_reference(principal(1), 5), RemoveBlobReferenceResult::NotFound);
    assert_eq!(
        blobs.remove_accessor(&principal(11)),
        vec![BlobReferenceRemoved { uploaded_by: principal(1), blob_hash: hash, blob_deleted: true }]
    );
    assert!(!blobs.contains_hash(&hash));
    assert!(blobs.get(&1).is_none());
}

#[test]
fn blob_reference_is_removed_by_its_uploader() {
    let mut blobs = Blobs::new();
    let hash = sha256(b"abc");
    assert!(matches!(
        blobs.put_chunk(chunk(1, 1, hash, &[], 0, 3, 3, b"abc")),
        PutChunkResult::Success(s) if s.blob_completed
    ));
    assert!(matches!(
        blobs.put_chunk(chunk(1, 2, hash, &[], 0, 2, 3, b"ab")),
        PutChunkResult::Success(s) if !s.blob_completed
    ));
    assert!(blobs.remove_pending_blob(&2));
    assert!(!blobs.remove_pending_blob(&2));
    assert_eq!(
        blobs.remove_blob_reference(principal(1), 1),
        RemoveBlobReferenceResult::Success(BlobReferenceRemoved {
            uploaded_by: principal(1),
            blob_hash: hash,
            blob_deleted: true,
        })
    );
    assert_eq!(blobs.uploaded_by(&1), None);
}

#[test]
fn counts_go_up_and_down() {
    let mut counts = ReferenceCounts::new();
    let (h1, h2) = ([1u8; 32], [2u8; 32]);
    assert_eq!(counts.get(&h1), 0);
    assert_eq!(counts.incr(h1), 1);
    assert_eq!(counts.incr(h1), 2);
    assert_eq!(counts.incr(h2), 1);
    assert_eq!(counts.decr(h1), 1);
    assert_eq!(counts.get(&h1), 1);
    assert_eq!(counts.decr(h1), 0);
    assert_eq!(counts.decr(h1), 0);
    assert_eq!(counts.get(&h2), 1);
}

#[test]
fn accessors_are_linked_and_unlinked() {
    let mut map = AccessorsMap::new();
    let (a, b) = (principal(1), principal(2));
    map.link(a, 1);
    map.link(a, 2);
    map.link(a, 1);
    map.link(b, 1);
    let mut ids = map.file_ids(&a);
    ids.sort();
    assert_eq!(ids, vec![1, 2]);
    map.unlink(a, &1);
    map.unlink(a, &7);
    assert_eq!(map.file_ids(&a), vec![2]);
    map.unlink(a, &2);
    assert!(map.file_ids(&a).is_empty());
    assert!(map.remove(&a).is_none());
    let taken = map.remove(&b).unwrap();
    assert_eq!(taken.len(), 1);
    assert!(taken.contains(&1));
    assert!(map.file_ids(&b).is_empty());
}

#[test]
fn uploaders_are_listed_by_blob() {
    let mut files = Files::new();
    for (user, file_id, data) in [(1u8, 1u128, &b"one"[..]), (2, 2, b"one"), (1, 3, b"one"), (3, 4, b"two")] {
        let result = files.put_chunk(open_storage::bucket::pending_file::PutChunkArgs::new(
            principal(user),
            UploadChunkArgs {
                file_id,
                hash: sha256(data),
                mime_type: String::new(),
                accessors: vec![],
                chunk_index: 0,
                chunk_size: 3,
                total_size: 3,
                bytes: data.to_vec(),
            },
            0,
        ));
        assert!(matches!(result, open_storage::bucket::files::PutChunkResult::Success(_)));
    }
    let counts = files.reference_counts();
    assert_eq!(counts.len(), 2);
    let mut one: Vec<Vec<u8>> = counts.get(&sha256(b"one")).unwrap().iter().map(|u| u.to_vec()).collect();
    one.sort();
    assert_eq!(one, vec![vec![1], vec![1], vec![2]]);
    assert_eq!(counts.get(&sha256(b"two")).unwrap(), &vec![principal(3)]);
}
