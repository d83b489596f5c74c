//! What the index answers without changing its state.

use crate::index::allocated_bucket;
use crate::index::allocated_bucket_v2;
use crate::index::blob_buckets::user_refers_to;
use crate::index::buckets::allocated;
use crate::index::can_forward;
use crate::index::data::{DataView, RuntimeState};
use crate::index::DEFAULT_CHUNK_SIZE_BYTES;
use crate::types::{CanisterId, ProjectedAllowance, UserId};
use vstd::prelude::*;

verus! {

impl DataView {
    /// The bytes charged to `user_id` once the user refers to the blob `hash` of `size`
    /// bytes: nothing is added for a blob that the user refers to already.
    pub open spec fn bytes_used_after(
        self,
        user_id: UserId,
        hash: crate::types::Hash,
        size: u64,
    ) -> int {
        if user_refers_to(self.blob_buckets, user_id, hash) {
            self.users[user_id].bytes_used as int
        } else {
            self.users[user_id].bytes_used + size
        }
    }

    /// Whether the figures of the allowance of `user_id` for the blob fit their fields.
    pub open spec fn projection_fits(
        self,
        user_id: UserId,
        hash: crate::types::Hash,
        size: u64,
    ) -> bool {
        self.users.contains_key(user_id) ==> self.bytes_used_after(user_id, hash, size)
            <= u64::MAX
    }

    /// The allowance of `user_id`, now and once the user refers to the blob.
    pub open spec fn projected_allowance(
        self,
        user_id: UserId,
        hash: crate::types::Hash,
        size: u64,
    ) -> ProjectedAllowance {
        ProjectedAllowance {
            byte_limit: self.users[user_id].byte_limit,
            bytes_used: self.users[user_id].bytes_used,
            bytes_used_after_upload: self.bytes_used_after(user_id, hash, size) as u64,
            bytes_used_after_operation: self.bytes_used_after(user_id, hash, size) as u64,
        }
    }

    /// The bucket for the blob `hash`: the one that owns it if it is recorded, else the one
    /// allocated for a blob of `size` bytes.
    pub open spec fn bucket_for(self, hash: crate::types::Hash, size: u64) -> Option<
        CanisterId,
    > {
        if self.blob_buckets.contains_key(hash) {
            Some(self.blob_buckets[hash].bucket)
        } else {
            allocated(self.buckets, size)
        }
    }

    /// The answer to `caller`'s request for a bucket.
    pub open spec fn allocated_bucket(
        self,
        caller: UserId,
        args: allocated_bucket_v2::Args,
    ) -> allocated_bucket_v2::Response {
        let allowance = self.projected_allowance(caller, args.file_hash, args.file_size);
        if !self.users.contains_key(caller) {
            allocated_bucket_v2::Response::UserNotFound
        } else if self.bytes_used_after(caller, args.file_hash, args.file_size)
            > self.users[caller].byte_limit {
            allocated_bucket_v2::Response::AllowanceExceeded(allowance)
        } else {
            match self.bucket_for(args.file_hash, args.file_size) {
                Some(canister_id) => allocated_bucket_v2::Response::Success(
                    allocated_bucket_v2::SuccessResult {
                        canister_id,
                        chunk_size: DEFAULT_CHUNK_SIZE_BYTES,
                        byte_limit: allowance.byte_limit,
                        bytes_used: allowance.bytes_used,
                        bytes_used_after_upload: allowance.bytes_used_after_operation,
                        projected_allowance: allowance,
                    },
                ),
                None => allocated_bucket_v2::Response::BucketUnavailable,
            }
        }
    }

    /// The answer to `caller`'s question whether the allowance covers a blob.
    pub open spec fn can_forward(self, caller: UserId, args: can_forward::Args) -> can_forward::Response {
        let allowance = self.projected_allowance(caller, args.file_hash, args.file_size);
        if !self.users.contains_key(caller) {
            can_forward::Response::UserNotFound
        } else if self.users[caller].byte_limit >= self.bytes_used_after(
            caller,
            args.file_hash,
            args.file_size,
        ) {
            can_forward::Response::Success(allowance)
        } else {
            can_forward::Response::AllowanceExceeded(allowance)
        }
    }
}

/// Tells the caller where to upload a blob.
///
/// An unknown caller is told so. A caller whose allowance does not cover the blob gets the
/// figures. Otherwise the caller is sent to the bucket that owns the blob if the index knows
/// the blob, else to the bucket allocated for it, and is told that no bucket is available if
/// none can take it. A blob that the caller refers to already adds nothing to what is
/// charged.
pub fn allocated_bucket_impl(args: allocated_bucket_v2::Args, runtime_state: &RuntimeState) -> (r:
    allocated_bucket_v2::Response)
    requires
        runtime_state.data.wf(),
        runtime_state.data@.projection_fits(runtime_state.env.caller, args.file_hash, args.file_size),
    ensures
        r == runtime_state.data@.allocated_bucket(runtime_state.env.caller, args),
{
    let user_id = runtime_state.env.caller;
    match runtime_state.data.users.get(&user_id) {
        None => allocated_bucket_v2::Response::UserNotFound,
        Some(user) => {
            let byte_limit = user.byte_limit;
            let bytes_used = user.bytes_used;
            let bytes_used_after_upload = if runtime_state.data.blob_buckets.user_owns_blob(
                &user_id,
                &args.file_hash,
            ) {
                bytes_used
            } else {
                bytes_used + args.file_size
            };
            let projected_allowance = ProjectedAllowance {
                byte_limit,
                bytes_used,
                bytes_used_after_upload,
                bytes_used_after_operation: bytes_used_after_upload,
            };
            if bytes_used_after_upload > byte_limit {
                return allocated_bucket_v2::Response::AllowanceExceeded(projected_allowance);
            }
            let bucket = match runtime_state.data.blob_buckets.bucket(&args.file_hash) {
                Some(canister_id) => Some(canister_id),
                None => runtime_state.data.buckets.allocate(args.file_size),
            };
            match bucket {
                Some(canister_id) => allocated_bucket_v2::Response::Success(
                    allocated_bucket_v2::SuccessResult {
                        canister_id,
                        chunk_size: DEFAULT_CHUNK_SIZE_BYTES,
                        byte_limit,
                        bytes_used,
                        bytes_used_after_upload,
                        projected_allowance,
                    },
                ),
                None => allocated_bucket_v2::Response::BucketUnavailable,
            }
        },
    }
}

/// Answers a request for a bucket in its older form: the same outcome, told without the
/// figures of the allowance.
pub fn allocated_bucket(args: allocated_bucket::Args, runtime_state: &RuntimeState) -> (r:
    allocated_bucket::Response)
    requires
        runtime_state.data.wf(),
        runtime_state.data@.projection_fits(runtime_state.env.caller, args.blob_hash, args.blob_size),
    ensures
        r == allocated_bucket::Response::of(
            runtime_state.data@.allocated_bucket(
                runtime_state.env.caller,
                allocated_bucket_v2::Args { file_hash: args.blob_hash, file_size: args.blob_size },
            ),
        ),
{
    allocated_bucket::Response::from(
        allocated_bucket_impl(allocated_bucket_v2::Args::from(args), runtime_state),
    )
}

/// Tells the caller whether the allowance covers a blob.
///
/// An unknown caller is told so. The others get the figures, as a success when what would
/// be charged stays within the limit and as an excess when it does not. A blob that the
/// caller refers to already adds nothing to what is charged.
pub fn reference_counts_impl(args: can_forward::Args, runtime_state: &RuntimeState) -> (r:
    can_forward::Response)
    requires
        runtime_state.data.wf(),
        runtime_state.data@.projection_fits(runtime_state.env.caller, args.file_hash, args.file_size),
    ensures
        r == runtime_state.data@.can_forward(runtime_state.env.caller, args),
{
    let user_id = runtime_state.env.caller;
    match runtime_state.data.users.get(&user_id) {
        None => can_forward::Response::UserNotFound,
        Some(user) => {
            let user_owns_blob = runtime_state.data.blob_buckets.user_owns_blob(
                &user_id,
                &args.file_hash,
            );
            let bytes_used_after_operation = if user_owns_blob {
                user.bytes_used
            } else {
                user.bytes_used + args.file_size
            };
            let projected_allowance = ProjectedAllowance {
                bytes_used: user.bytes_used,
                byte_limit: user.byte_limit,
                bytes_used_after_upload: bytes_used_after_operation,
                bytes_used_after_operation,
            };
            if user.byte_limit >= bytes_used_after_operation {
                can_forward::Response::Success(projected_allowance)
            } else {
                can_forward::Response::AllowanceExceeded(projected_allowance)
            }
        },
    }
}

} // verus!
