//! The request for a bucket and its answer, with the allowance spelled out.

use crate::index::allocated_bucket;
use crate::types::{CanisterId, ProjectedAllowance};
use vstd::prelude::*;

verus! {

/// The blob that a user means to upload.
#[derive(Clone, Copy, Debug, PartialEq, Eq)]
pub struct Args {
    pub file_hash: crate::types::Hash,
    pub file_size: u64,
}

/// Where to upload, and what the upload does to the allowance.
#[derive(Clone, Copy, Debug, PartialEq, Eq)]
pub struct SuccessResult {
    pub canister_id: CanisterId,
    pub chunk_size: u32,
    pub byte_limit: u64,
    pub bytes_used: u64,
    pub bytes_used_after_upload: u64,
    pub projected_allowance: ProjectedAllowance,
}

/// The answer to a request for a bucket.
#[derive(Clone, Copy, Debug, PartialEq, Eq)]
pub enum Response {
    Success(SuccessResult),
    AllowanceExceeded(ProjectedAllowance),
    UserNotFound,
    BucketUnavailable,
}

impl Args {
    /// The request in its older form, with the fields under their present names.
    pub fn from(args: allocated_bucket::Args) -> (r: Args)
        ensures
            r == (Args { file_hash: args.blob_hash, file_size: args.blob_size }),
    {
        Args { file_hash: args.blob_hash, file_size: args.blob_size }
    }
}

} // verus!
