use open_storage::index::add_user;
use open_storage::index::allocated_bucket;
use open_storage::index::allocated_bucket_v2;
use open_storage::index::bucket_sync_state::EventToSync;
use open_storage::index::c2c_sync_bucket::{c2c_sync_bucket, c2c_sync_bucket_impl, Args, Event, Response};
use open_storage::index::can_forward;
use open_storage::index::data::{Data, RuntimeState, UserRecord};
use open_storage::index::queries::{allocated_bucket as allocated_bucket_v1, allocated_bucket_impl, reference_counts_impl};
use open_storage::index::updates::{add_user, add_user_impl};
use open_storage::index::DEFAULT_CHUNK_SIZE_BYTES;
use open_storage::bucket::DATA_LIMIT_BYTES;
use open_storage::types::{
    BlobReferenceAdded, BlobReferenceRejected, BlobReferenceRejectedReason, BlobReferenceRemoved,
    CanisterWasm, Environment, Principal, ProjectedAllowance, Version,
};

fn principal(n: u8) -> Principal {
    Principal::from_slice(&[n]).unwrap()
}

fn state(caller: Principal) -> RuntimeState {
    let wasm = CanisterWasm { version: Version { major: 1, minor: 0, patch: 0 }, module: vec![] };
    RuntimeState::new(Environment { caller, now: 0 }, Data::new(vec![principal(100)], wasm, false))
}

fn state_with_user(user: Principal, byte_limit: u64, bytes_used: u64) -> RuntimeState {
    let mut state = state(user);
    state.data.users.insert(user, UserRecord { byte_limit, bytes_used });
    state
}

fn added(user: Principal, hash: [u8; 32], size: u64) -> BlobReferenceAdded {
    BlobReferenceAdded { uploaded_by: user, blob_id: 1, blob_hash: hash, blob_size: size }
}

#[test]
fn quota_gating() {
    let user = principal(1);
    let mut state = state(user);
    assert_eq!(
        add_user_impl(add_user::Args { user_id: user, byte_limit: 1000 }, &mut state),
        add_user::Response::Success
    );
    state.data.buckets.add(principal(50));
    let known = [1u8; 32];
    assert_eq!(state.data.add_blob_reference(principal(50), added(user, known, 900)), Ok(()));
    assert_eq!(state.data.users.get(&user).unwrap().bytes_used, 900);

    let novel = allocated_bucket_impl(
        allocated_bucket_v2::Args { file_hash: [2u8; 32], file_size: 200 },
        &state,
    );
    assert_eq!(
        novel,
        allocated_bucket_v2::Response::AllowanceExceeded(ProjectedAllowance {
            byte_limit: 1000,
            bytes_used: 900,
            bytes_used_after_upload: 1100,
            bytes_used_after_operation: 1100,
        })
    );

    let again = allocated_bucket_impl(
        allocated_bucket_v2::Args { file_hash: known, file_size: 200 },
        &state,
    );
    let allowance = ProjectedAllowance {
        byte_limit: 1000,
        bytes_used: 900,
        bytes_used_after_upload: 900,
        bytes_used_after_operation: 900,
    };
    assert_eq!(
        again,
        allocated_bucket_v2::Response::Success(allocated_bucket_v2::SuccessResult {
            canister_id: principal(50),
            chunk_size: DEFAULT_CHUNK_SIZE_BYTES,
            byte_limit: 1000,
            bytes_used: 900,
            bytes_used_after_upload: 900,
            projected_allowance: allowance,
        })
    );
}

#[test]
fn allocation_needs_a_user_and_a_bucket() {
    let user = principal(1);
    let args = allocated_bucket_v2::Args { file_hash: [2u8; 32], file_size: 200 };
    let mut state = state(user);
    assert_eq!(allocated_bucket_impl(args, &state), allocated_bucket_v2::Response::UserNotFound);
    add_user_impl(add_user::Args { user_id: user, byte_limit: 1000 }, &mut state);
    assert_eq!(allocated_bucket_impl(args, &state), allocated_bucket_v2::Response::BucketUnavailable);
    state.data.buckets.add(principal(50));
    assert!(matches!(
        allocated_bucket_impl(args, &state),
        allocated_bucket_v2::Response::Success(r) if r.canister_id == principal(50) && r.chunk_size == 524_288
            && r.bytes_used_after_upload == 200
    ));
}

#[test]
fn older_form_drops_the_figures() {
    let user = principal(1);
    let args = allocated_bucket::Args { blob_hash: [2u8; 32], blob_size: 200 };
    let mut state = state(user);
    assert_eq!(allocated_bucket_v1(args, &state), allocated_bucket::Response::UserNotFound);
    add_user_impl(add_user::Args { user_id: user, byte_limit: 100 }, &mut state);
    assert_eq!(allocated_bucket_v1(args, &state), allocated_bucket::Response::AllowanceReached);
    add_user_impl(add_user::Args { user_id: principal(2), byte_limit: 1000 }, &mut state);
    state.env.caller = principal(2);
    assert_eq!(allocated_bucket_v1(args, &state), allocated_bucket::Response::BucketUnavailable);
    state.data.buckets.add(principal(50));
    assert_eq!(
        allocated_bucket_v1(args, &state),
        allocated_bucket::Response::Success(allocated_bucket::Result {
            canister_id: principal(50),
            chunk_size: DEFAULT_CHUNK_SIZE_BYTES,
        })
    );
    assert_eq!(
        allocated_bucket_v2::Args::from(args),
        allocated_bucket_v2::Args { file_hash: [2u8; 32], file_size: 200 }
    );
}

#[test]
fn allocation_prefers_the_least_loaded_bucket() {
    let mut state = state_with_user(principal(1), u64::MAX, 0);
    for n in [50u8, 51, 52, 53] {
        assert!(state.data.buckets.add(principal(n)));
    }
    assert!(!state.data.buckets.add(principal(50)));
    assert!(state.data.buckets.set_usage(&principal(50), 500, false));
    assert!(state.data.buckets.set_usage(&principal(51), 100, true));
    assert!(state.data.buckets.set_usage(&principal(52), 300, false));
    assert!(state.data.buckets.set_usage(&principal(53), 300, false));
    assert!(!state.data.buckets.set_usage(&principal(54), 0, false));
    assert_eq!(state.data.buckets.len(), 4);
    assert_eq!(state.data.buckets.allocate(10), Some(principal(52)));
    assert_eq!(state.data.buckets.allocate(DATA_LIMIT_BYTES - 300), Some(principal(52)));
    assert_eq!(state.data.buckets.allocate(DATA_LIMIT_BYTES - 299), None);
    assert_eq!(state.data.buckets.allocate(u64::MAX), None);
    assert!(state.data.buckets.set_usage(&principal(52), DATA_LIMIT_BYTES, false));
    assert_eq!(state.data.buckets.allocate(1), Some(principal(53)));
    assert_eq!(state.data.buckets.allocate(0), Some(principal(53)));
}

#[test]
fn known_blob_goes_to_its_bucket() {
    let user = principal(1);
    let mut state = state_with_user(user, 1000, 0);
    state.data.buckets.add(principal(50));
    state.data.buckets.add(principal(51));
    state.data.buckets.set_usage(&principal(50), 10, false);
    let hash = [3u8; 32];
    assert_eq!(state.data.add_blob_reference(principal(50), added(principal(1), hash, 10)), Ok(()));
    state.data.users.insert(principal(2), UserRecord { byte_limit: 1000, bytes_used: 0 });
    state.env.caller = principal(2);
    assert!(matches!(
        allocated_bucket_impl(allocated_bucket_v2::Args { file_hash: hash, file_size: 10 }, &state),
        allocated_bucket_v2::Response::Success(r) if r.canister_id == principal(50)
    ));
    assert!(matches!(
        allocated_bucket_impl(allocated_bucket_v2::Args { file_hash: [4u8; 32], file_size: 10 }, &state),
        allocated_bucket_v2::Response::Success(r) if r.canister_id == principal(51)
    ));
}

#[test]
fn can_forward_projects_the_allowance() {
    let user = principal(1);
    let mut state = state(user);
    let args = can_forward::Args { file_hash: [1u8; 32], file_size: 600 };
    assert_eq!(reference_counts_impl(args, &state), can_forward::Response::UserNotFound);
    add_user_impl(add_user::Args { user_id: user, byte_limit: 1000 }, &mut state);
    assert_eq!(
        reference_counts_impl(args, &state),
        can_forward::Response::Success(ProjectedAllowance {
            byte_limit: 1000,
            bytes_used: 0,
            bytes_used_after_upload: 600,
            bytes_used_after_operation: 600,
        })
    );
    assert_eq!(state.data.add_blob_reference(principal(50), added(user, [1u8; 32], 600)), Ok(()));
    assert_eq!(
        reference_counts_impl(args, &state),
        can_forward::Response::Success(ProjectedAllowance {
            byte_limit: 1000,
            bytes_used: 600,
            bytes_used_after_upload: 600,
            bytes_used_after_operation: 600,
        })
    );
    assert_eq!(
        reference_counts_impl(can_forward::Args { file_hash: [2u8; 32], file_size: 401 }, &state),
        can_forward::Response::AllowanceExceeded(ProjectedAllowance {
            byte_limit: 1000,
            bytes_used: 600,
            bytes_used_after_upload: 1001,
            bytes_used_after_operation: 1001,
        })
    );
    assert!(matches!(
        reference_counts_impl(can_forward::Args { file_hash: [2u8; 32], file_size: 400 }, &state),
        can_forward::Response::Success(_)
    ));
}

#[test]
fn same_reference_twice_charges_once() {
    let user = principal(1);
    let mut state = state_with_user(user, 1000, 0);
    let event = added(user, [1u8; 32], 400);
    assert_eq!(state.data.add_blob_reference(principal(50), event), Ok(()));
    assert_eq!(state.data.add_blob_reference(principal(50), event), Ok(()));
    assert_eq!(state.data.users.get(&user).unwrap().bytes_used, 400);
    assert_eq!(state.data.blob_buckets.get(&[1u8; 32]).unwrap().users.len(), 1);
    assert!(state.data.blob_buckets.user_owns_blob(&user, &[1u8; 32]));
    assert_eq!(state.data.blob_buckets.bucket(&[1u8; 32]), Some(principal(50)));
}

#[test]
fn references_are_rejected() {
    let user = principal(1);
    let mut state = state_with_user(user, 1000, 0);
    assert_eq!(
        state.data.add_blob_reference(principal(50), added(principal(2), [1u8; 32], 1)),
        Err(BlobReferenceRejected { blob_id: 1, reason: BlobReferenceRejectedReason::UserNotFound })
    );
    assert_eq!(
        state.data.add_blob_reference(principal(50), added(user, [1u8; 32], 1001)),
        Err(BlobReferenceRejected { blob_id: 1, reason: BlobReferenceRejectedReason::AllowanceReached })
    );
    assert_eq!(
        state.data.add_blob_reference(principal(50), added(user, [1u8; 32], u64::MAX)),
        Err(BlobReferenceRejected { blob_id: 1, reason: BlobReferenceRejectedReason::AllowanceReached })
    );
    assert_eq!(state.data.users.get(&user).unwrap().bytes_used, 0);
    assert!(state.data.blob_buckets.get(&[1u8; 32]).is_none());
    assert_eq!(state.data.add_blob_reference(principal(50), added(user, [1u8; 32], 1000)), Ok(()));
    assert_eq!(state.data.users.get(&user).unwrap().bytes_used, 1000);
}

#[test]
fn references_are_released() {
    let (u1, u2) = (principal(1), principal(2));
    let mut state = state_with_user(u1, 1000, 0);
    state.data.users.insert(u2, UserRecord { byte_limit: 1000, bytes_used: 0 });
    let hash = [1u8; 32];
    assert_eq!(state.data.add_blob_reference(principal(50), added(u1, hash, 300)), Ok(()));
    assert_eq!(state.data.add_blob_reference(principal(51), added(u2, hash, 300)), Ok(()));
    // The blob stays with the bucket that had it first.
    assert_eq!(state.data.blob_buckets.bucket(&hash), Some(principal(50)));

    let released = BlobReferenceRemoved { uploaded_by: u1, blob_hash: hash, blob_deleted: false };
    state.data.remove_blob_reference(principal(50), released);
    assert_eq!(state.data.users.get(&u1).unwrap().bytes_used, 0);
    assert_eq!(state.data.users.get(&u2).unwrap().bytes_used, 300);
    assert!(!state.data.blob_buckets.user_owns_blob(&u1, &hash));
    assert!(state.data.blob_buckets.user_owns_blob(&u2, &hash));
    // Delivered again, the release changes nothing.
    state.data.remove_blob_reference(principal(50), released);
    assert_eq!(state.data.users.get(&u1).unwrap().bytes_used, 0);
    assert_eq!(state.data.users.get(&u2).unwrap().bytes_used, 300);

    // The last release drops the record, and the hash can go to another bucket.
    state.data.remove_blob_reference(
        principal(50),
        BlobReferenceRemoved { uploaded_by: u2, blob_hash: hash, blob_deleted: true },
    );
    assert_eq!(state.data.users.get(&u2).unwrap().bytes_used, 0);
    assert!(state.data.blob_buckets.get(&hash).is_none());
    assert_eq!(state.data.add_blob_reference(principal(51), added(u2, hash, 300)), Ok(()));
    assert_eq!(state.data.blob_buckets.bucket(&hash), Some(principal(51)));
    assert_eq!(state.data.blob_buckets.get(&hash).unwrap().size, 300);
}

#[test]
fn last_user_leaving_drops_the_record() {
    let user = principal(1);
    let mut state = state_with_user(user, 1000, 0);
    let hash = [1u8; 32];
    assert_eq!(state.data.add_blob_reference(principal(50), added(user, hash, 300)), Ok(()));
    state.data.remove_blob_reference(
        principal(50),
        BlobReferenceRemoved { uploaded_by: user, blob_hash: hash, blob_deleted: false },
    );
    assert!(state.data.blob_buckets.get(&hash).is_none());
    // A release of what was never recorded changes nothing.
    state.data.remove_blob_reference(
        principal(50),
        BlobReferenceRemoved { uploaded_by: user, blob_hash: [9u8; 32], blob_deleted: true },
    );
    assert_eq!(state.data.users.get(&user).unwrap().bytes_used, 0);
}

#[test]
fn adding_a_user_tells_every_bucket() {
    let mut state = state(principal(100));
    state.data.buckets.add(principal(50));
    state.data.buckets.add(principal(51));
    let args = add_user::Args { user_id: principal(1), byte_limit: 10 };
    assert_eq!(add_user_impl(args, &mut state), add_user::Response::Success);
    assert_eq!(add_user_impl(args, &mut state), add_user::Response::UserAlreadyExists);
    assert_eq!(
        state.data.users.get(&principal(1)),
        Some(&UserRecord { byte_limit: 10, bytes_used: 0 })
    );
    for n in [50u8, 51] {
        let mut record_events = Vec::new();
        let record = state.data.buckets.get(&principal(n)).unwrap();
        assert_eq!(record.sync_state.len(), 1);
        assert!(!record.sync_state.is_in_progress());
        record_events.push(EventToSync::UserAdded(principal(1)));
        assert_eq!(record_events.len(), record.sync_state.len());
    }
}

#[test]
fn callers_are_told_apart() {
    let mut state = state(principal(100));
    assert!(state.is_caller_service_principal());
    assert!(!state.is_caller_bucket());
    state.data.buckets.add(principal(50));
    state.env.caller = principal(50);
    assert!(!state.is_caller_service_principal());
    assert!(state.is_caller_bucket());
    assert!(state.data.buckets.get(&principal(51)).is_none());
}

#[test]
fn batch_from_a_bucket() {
    let (u1, u2) = (principal(1), principal(2));
    let mut state = state_with_user(u1, 1000, 0);
    state.data.users.insert(u2, UserRecord { byte_limit: 100, bytes_used: 0 });
    state.env.caller = principal(50);
    let (h1, h2) = ([1u8; 32], [2u8; 32]);
    let events = vec![
        Event::BlobReferenceAdded(added(u1, h1, 300)),
        Event::BlobReferenceAdded(added(u2, h1, 300)),
        Event::BlobReferenceAdded(added(principal(3), h2, 1)),
        Event::BlobReferenceAdded(added(u1, h2, 200)),
        Event::BlobReferenceRemoved(BlobReferenceRemoved { uploaded_by: u1, blob_hash: h1, blob_deleted: true }),
        Event::BlobReferenceAdded(added(u1, h2, 200)),
    ];
    let response = c2c_sync_bucket_impl(Args { events }, &mut state);
    match response {
        Response::Success(result) => assert_eq!(
            result.rejected,
            vec![
                BlobReferenceRejected { blob_id: 1, reason: BlobReferenceRejectedReason::AllowanceReached },
                BlobReferenceRejected { blob_id: 1, reason: BlobReferenceRejectedReason::UserNotFound },
            ]
        ),
        Response::AccountsBroken(position) => panic!("stopped at {}", position),
    }
    assert_eq!(state.data.users.get(&u1).unwrap().bytes_used, 200);
    assert_eq!(state.data.users.get(&u2).unwrap().bytes_used, 0);
    assert!(state.data.blob_buckets.get(&h1).is_none());
    assert_eq!(state.data.blob_buckets.bucket(&h2), Some(principal(50)));
}

#[test]
fn batch_stops_where_the_accounts_are_broken() {
    let u1 = principal(1);
    let mut state = state_with_user(u1, 1000, 0);
    state.env.caller = principal(50);
    let h1 = [1u8; 32];
    assert_eq!(state.data.add_blob_reference(principal(50), added(u1, h1, 300)), Ok(()));
    // The charge is tampered with, so that the blob is bigger than what is charged.
    state.data.users.insert(u1, UserRecord { byte_limit: 1000, bytes_used: 298 });
    let events = vec![
        Event::BlobReferenceAdded(added(u1, [2u8; 32], 1)),
        Event::BlobReferenceRemoved(BlobReferenceRemoved { uploaded_by: u1, blob_hash: h1, blob_deleted: false }),
        Event::BlobReferenceAdded(added(u1, [3u8; 32], 1)),
    ];
    assert!(matches!(c2c_sync_bucket_impl(Args { events }, &mut state), Response::AccountsBroken(1)));
    assert_eq!(state.data.users.get(&u1).unwrap().bytes_used, 299);
    assert!(state.data.blob_buckets.user_owns_blob(&u1, &h1));
    assert!(state.data.blob_buckets.get(&[3u8; 32]).is_none());
}

#[test]
fn only_service_principals_admit_users() {
    let mut state = state(principal(7));
    let args = add_user::Args { user_id: principal(1), byte_limit: 10 };
    assert_eq!(add_user(args, &mut state), None);
    assert!(state.data.users.get(&principal(1)).is_none());
    state.env.caller = principal(100);
    assert_eq!(add_user(args, &mut state), Some(add_user::Response::Success));
    assert_eq!(add_user(args, &mut state), Some(add_user::Response::UserAlreadyExists));
}

#[test]
fn only_buckets_report() {
    let user = principal(1);
    let mut state = state_with_user(user, 1000, 0);
    state.env.caller = principal(50);
    let events = vec![Event::BlobReferenceAdded(added(user, [1u8; 32], 10))];
    assert!(c2c_sync_bucket(Args { events: events.clone() }, &mut state).is_none());
    assert_eq!(state.data.users.get(&user).unwrap().bytes_used, 0);
    state.data.buckets.add(principal(50));
    assert!(matches!(
        c2c_sync_bucket(Args { events }, &mut state),
        Some(Response::Success(result)) if result.rejected.is_empty()
    ));
    assert_eq!(state.data.users.get(&user).unwrap().bytes_used, 10);
}

#[test]
fn snapshot_brings_the_index_back() {
    let (u1, u2) = (principal(1), principal(2));
    let mut state = state_with_user(u1, 1000, 0);
    state.data.users.insert(u2, UserRecord { byte_limit: 500, bytes_used: 0 });
    state.data.buckets.add(principal(50));
    state.data.buckets.add(principal(51));
    state.data.buckets.set_usage(&principal(51), 77, true);
    state.data.buckets.sync_event(EventToSync::UserAdded(u1));
    assert_eq!(state.data.add_blob_reference(principal(50), added(u1, [1u8; 32], 300)), Ok(()));
    assert_eq!(state.data.add_blob_reference(principal(50), added(u2, [1u8; 32], 300)), Ok(()));
    state.data.canisters_requiring_upgrade.enqueue(principal(50));
    state.data.canisters_requiring_upgrade.enqueue(principal(51));
    assert_eq!(state.data.canisters_requiring_upgrade.try_take_next(), Some(principal(50)));
    state.data.total_cycles_spent_on_canisters = 12;

    let snapshot = state.data.into_snapshot();
    assert_eq!(snapshot.users.len(), 2);
    assert_eq!(snapshot.blob_buckets.len(), 1);
    assert_eq!(snapshot.buckets.len(), 2);
    assert_eq!(snapshot.service_principals, vec![principal(100)]);
    let mut restored = Data::from_snapshot(snapshot).unwrap();

    assert_eq!(restored.users.get(&u1), Some(&UserRecord { byte_limit: 1000, bytes_used: 300 }));
    assert_eq!(restored.users.get(&u2), Some(&UserRecord { byte_limit: 500, bytes_used: 300 }));
    assert!(restored.blob_buckets.user_owns_blob(&u2, &[1u8; 32]));
    assert_eq!(restored.blob_buckets.bucket(&[1u8; 32]), Some(principal(50)));
    let second = restored.buckets.get(&principal(51)).unwrap();
    assert_eq!(second.used_bytes, 77);
    assert!(second.full);
    assert_eq!(second.sync_state.len(), 1);
    assert_eq!(restored.buckets.allocate(1), Some(principal(50)));
    assert!(restored.canisters_requiring_upgrade.is_in_progress(&principal(50)));
    assert_eq!(restored.canisters_requiring_upgrade.try_take_next(), Some(principal(51)));
    assert_eq!(restored.total_cycles_spent_on_canisters, 12);
    assert!(!restored.test_mode);

    // The same bucket twice is no index.
    let mut snapshot = restored.into_snapshot();
    snapshot.buckets[1].canister_id = principal(50);
    assert!(Data::from_snapshot(snapshot).is_none());
}
