use open_storage::bucket::c2c_sync_index::{
    c2c_sync_index, c2c_sync_index_impl, Args as SyncArgs, Response as SyncResponse,
};
use open_storage::bucket::data::{Data, RuntimeState};
use open_storage::bucket::delete_files::{
    delete_files_impl, Args as DeleteArgs, DeleteFileFailure, DeleteFileFailureReason,
};
use open_storage::bucket::files::{PutChunkResult, PutChunkResultSuccess};
use open_storage::bucket::index_sync_state::EventToSync;
use open_storage::bucket::pending_file::UploadChunkArgs;
use open_storage::bucket::upload_chunk::upload_chunk_impl;
use open_storage::sync::MAX_EVENTS_TO_SYNC_PER_BATCH;
use open_storage::types::{Environment, FileAdded, FileRemoved, Principal};
use sha2::{Digest, Sha256};

fn principal(n: u8) -> Principal {
    Principal::from_slice(&[n]).unwrap()
}

fn sha256(bytes: &[u8]) -> [u8; 32] {
    Sha256::digest(bytes).into()
}

const INDEX: u8 = 200;

fn bucket(users: &[u8]) -> RuntimeState {
    let mut state =
        RuntimeState::new(Environment { caller: principal(INDEX), now: 0 }, Data::new(principal(INDEX), 0));
    let response = c2c_sync_index_impl(
        SyncArgs {
            users_added: users.iter().map(|u| principal(*u)).collect(),
            users_removed: vec![],
            accessors_removed: vec![],
        },
        &mut state,
    );
    let SyncResponse::Success(result) = response;
    assert!(result.files_removed.is_empty());
    state
}

fn upload(state: &mut RuntimeState, user: u8, file_id: u128, accessors: &[u8], data: &[u8]) -> Option<PutChunkResult> {
    state.env.caller = principal(user);
    state.env.now += 1;
    upload_chunk_impl(
        UploadChunkArgs {
            file_id,
            hash: sha256(data),
            mime_type: String::from("application/octet-stream"),
            accessors: accessors.iter().map(|a| principal(*a)).collect(),
            chunk_index: 0,
            chunk_size: data.len() as u32,
            total_size: data.len() as u64,
            bytes: data.to_vec(),
        },
        state,
    )
}

fn drain(state: &mut RuntimeState) -> Vec<EventToSync> {
    let mut all = Vec::new();
    while let Some(batch) = state.data.index_sync_state.try_start_sync() {
        all.extend(batch);
        state.data.index_sync_state.mark_sync_completed();
    }
    all
}

#[test]
fn only_users_of_the_bucket_upload() {
    let mut state = bucket(&[1]);
    assert!(state.is_caller_index_canister());
    assert_eq!(upload(&mut state, 2, 1, &[], b"abc"), None);
    assert!(!state.is_caller_known_user());
    assert!(state.data.files.get(&1).is_none());
    assert_eq!(state.data.index_sync_state.len(), 0);

    let added = FileAdded { uploaded_by: principal(1), file_id: 1, hash: sha256(b"abc"), size: 3 };
    assert_eq!(
        upload(&mut state, 1, 1, &[], b"abc"),
        Some(PutChunkResult::Success(PutChunkResultSuccess {
            file_completed: true,
            file_added: Some(added),
        }))
    );
    assert!(state.is_caller_known_user());
    assert!(!state.is_caller_index_canister());
    assert_eq!(state.data.files.get(&1).unwrap().created, 2);
    assert_eq!(drain(&mut state), vec![EventToSync::FileAdded(added)]);

    // A refused chunk owes the index nothing.
    assert_eq!(upload(&mut state, 1, 1, &[], b"abc"), Some(PutChunkResult::FileAlreadyExists));
    assert_eq!(state.data.index_sync_state.len(), 0);
}

#[test]
fn delete_files_reports_each_request() {
    let mut state = bucket(&[1, 2]);
    upload(&mut state, 1, 1, &[], b"one");
    upload(&mut state, 1, 2, &[], b"two");
    upload(&mut state, 2, 3, &[], b"two");
    drain(&mut state);

    state.env.caller = principal(1);
    let response = delete_files_impl(DeleteArgs { file_ids: vec![2, 3, 9, 1, 2] }, &mut state);
    assert_eq!(response.success, vec![2, 1]);
    assert_eq!(
        response.failures,
        vec![
            DeleteFileFailure { file_id: 3, reason: DeleteFileFailureReason::NotAuthorized },
            DeleteFileFailure { file_id: 9, reason: DeleteFileFailureReason::NotFound },
            DeleteFileFailure { file_id: 2, reason: DeleteFileFailureReason::NotFound },
        ]
    );
    assert!(state.data.files.get(&1).is_none());
    assert!(state.data.files.get(&2).is_none());
    assert!(state.data.files.get(&3).is_some());
    assert!(state.data.files.contains_hash(&sha256(b"two")));
    assert!(!state.data.files.contains_hash(&sha256(b"one")));
    assert_eq!(
        drain(&mut state),
        vec![
            EventToSync::FileRemoved(FileRemoved {
                file_id: 2,
                uploaded_by: principal(1),
                hash: sha256(b"two"),
                blob_deleted: false,
            }),
            EventToSync::FileRemoved(FileRemoved {
                file_id: 1,
                uploaded_by: principal(1),
                hash: sha256(b"one"),
                blob_deleted: true,
            }),
        ]
    );
}

#[test]
fn batch_from_the_index() {
    let mut state = bucket(&[1, 2, 3]);
    upload(&mut state, 1, 1, &[11], b"one");
    upload(&mut state, 1, 2, &[], b"two");
    upload(&mut state, 2, 3, &[11, 12], b"one");
    upload(&mut state, 2, 4, &[12], b"four");
    upload(&mut state, 3, 5, &[13], b"five");
    upload(&mut state, 3, 6, &[], b"six");
    drain(&mut state);

    let response = c2c_sync_index_impl(
        SyncArgs {
            users_added: vec![principal(4), principal(5)],
            users_removed: vec![principal(1), principal(5), principal(9), principal(1)],
            accessors_removed: vec![principal(12), principal(13), principal(14)],
        },
        &mut state,
    );
    let SyncResponse::Success(result) = response;
    let mut removed = result.files_removed;
    removed.sort_by_key(|r| r.file_id);
    let ids: Vec<u128> = removed.iter().map(|r| r.file_id).collect();
    assert_eq!(ids, vec![1, 2, 4, 5]);
    assert_eq!(
        removed[0],
        FileRemoved { file_id: 1, uploaded_by: principal(1), hash: sha256(b"one"), blob_deleted: false }
    );
    assert!(removed[1].blob_deleted);
    assert!(removed[2].blob_deleted);
    assert!(removed[3].blob_deleted);

    for (user, known) in [(1u8, false), (2, true), (3, true), (4, true), (5, false), (9, false)] {
        assert_eq!(state.data.users.contains(&principal(user)), known);
    }
    // File 3 named two accessors and keeps the one that was not revoked.
    let kept = state.data.files.get(&3).unwrap();
    assert!(kept.accessors.contains(&principal(11)));
    assert_eq!(kept.accessors.len(), 1);
    // File 6 never named an accessor and stays.
    assert!(state.data.files.get(&6).is_some());
    assert_eq!(state.data.files.metrics().file_count, 2);
    assert_eq!(state.data.files.metrics().blob_count, 2);
    assert!(state.data.files.contains_hash(&sha256(b"one")));
    assert!(state.data.files.contains_hash(&sha256(b"six")));
    assert_eq!(state.data.index_sync_state.len(), 0);
}

#[test]
fn deletions_beyond_one_answer_are_queued() {
    let mut state = bucket(&[1]);
    let total = MAX_EVENTS_TO_SYNC_PER_BATCH + 3;
    state.env.caller = principal(1);
    for n in 0..total {
        let result = state.data.files.put_chunk(
            open_storage::bucket::pending_file::PutChunkArgs::new(
                principal(1),
                UploadChunkArgs {
                    file_id: n as u128,
                    hash: sha256(b"x"),
                    mime_type: String::new(),
                    accessors: vec![],
                    chunk_index: 0,
                    chunk_size: 1,
                    total_size: 1,
                    bytes: b"x".to_vec(),
                },
                0,
            ),
        );
        assert!(matches!(result, PutChunkResult::Success(s) if s.file_completed));
    }
    let response = c2c_sync_index_impl(
        SyncArgs { users_added: vec![], users_removed: vec![principal(1)], accessors_removed: vec![] },
        &mut state,
    );
    let SyncResponse::Success(result) = response;
    assert_eq!(result.files_removed.len(), MAX_EVENTS_TO_SYNC_PER_BATCH);
    assert_eq!(state.data.index_sync_state.len(), 3);
    assert_eq!(state.data.files.metrics().file_count, 0);
    assert_eq!(state.data.files.metrics().blob_count, 0);
    let queued = drain(&mut state);
    let mut ids: Vec<u128> = result.files_removed.iter().map(|r| r.file_id).collect();
    for event in &queued {
        match event {
            EventToSync::FileRemoved(r) => ids.push(r.file_id),
            other => panic!("unexpected event {:?}", other),
        }
    }
    // Only the deletion that left no file with the hash reports the blob as deleted.
    let deleted: Vec<bool> = result
        .files_removed
        .iter()
        .map(|r| r.blob_deleted)
        .chain(queued.iter().map(|e| matches!(e, EventToSync::FileRemoved(r) if r.blob_deleted)))
        .collect();
    assert_eq!(deleted.iter().filter(|d| **d).count(), 1);
    assert!(deleted[total - 1]);
    ids.sort();
    assert_eq!(ids, (0..total as u128).collect::<Vec<u128>>());
}

#[test]
fn only_the_index_sends_batches() {
    let mut state = bucket(&[1]);
    upload(&mut state, 1, 1, &[], b"one");
    state.env.caller = principal(1);
    let batch = || SyncArgs { users_added: vec![], users_removed: vec![principal(1)], accessors_removed: vec![] };
    assert!(c2c_sync_index(batch(), &mut state).is_none());
    assert!(state.data.users.contains(&principal(1)));
    assert!(state.data.files.get(&1).is_some());
    state.env.caller = principal(INDEX);
    let Some(SyncResponse::Success(result)) = c2c_sync_index(batch(), &mut state) else {
        panic!("the index was turned away");
    };
    assert_eq!(result.files_removed.len(), 1);
    assert!(!state.data.users.contains(&principal(1)));
    assert!(state.data.files.get(&1).is_none());
}
