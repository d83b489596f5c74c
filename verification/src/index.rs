//! The coordinator: users and their byte allowances, the directory of buckets and the map
//! from each content hash to the bucket that owns it.

use vstd::prelude::*;

pub mod add_user;
pub mod allocated_bucket;
pub mod allocated_bucket_v2;
pub mod blob_buckets;
pub mod bucket_sync_state;
pub mod buckets;
pub mod c2c_sync_bucket;
pub mod can_forward;
pub mod data;
pub mod queries;
pub mod snapshot;
pub mod update_bucket_canister_wasm;
pub mod updates;

verus! {

/// The size of a chunk that clients are told to use.
pub const DEFAULT_CHUNK_SIZE_BYTES: u32 = 524_288;

/// The cycles balance below which a canister is topped up.
pub const MIN_CYCLES_BALANCE: u128 = 10_000_000_000_000;

/// The cycles sent to a bucket in one top-up.
pub const BUCKET_CANISTER_TOP_UP_AMOUNT: u128 = 1_000_000_000_000;

} // verus!
