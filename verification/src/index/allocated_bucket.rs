//! The request for a bucket and its answer, in their older form.

use crate::index::allocated_bucket_v2;
use crate::types::CanisterId;
use vstd::prelude::*;

verus! {

/// The blob that a user means to upload.
#[derive(Clone, Copy, Debug, PartialEq, Eq)]
pub struct Args {
    pub blob_hash: crate::types::Hash,
    pub blob_size: u64,
}

/// Where to upload.
#[derive(Clone, Copy, Debug, PartialEq, Eq)]
pub struct Result {
    pub canister_id: CanisterId,
    pub chunk_size: u32,
}

/// The answer to a request for a bucket.
#[derive(Clone, Copy, Debug, PartialEq, Eq)]
pub enum Response {
    Success(Result),
    AllowanceReached,
    UserNotFound,
    BucketUnavailable,
}

impl Response {
    /// The older form of an answer: the same outcome without the figures of the allowance.
    pub open spec fn of(response: allocated_bucket_v2::Response) -> Response {
        match response {
            allocated_bucket_v2::Response::Success(result) => Response::Success(
                Result { canister_id: result.canister_id, chunk_size: result.chunk_size },
            ),
            allocated_bucket_v2::Response::AllowanceExceeded(_) => Response::AllowanceReached,
            allocated_bucket_v2::Response::UserNotFound => Response::UserNotFound,
            allocated_bucket_v2::Response::BucketUnavailable => Response::BucketUnavailable,
        }
    }

    /// Drops the figures of the allowance from an answer.
    pub fn from(response: allocated_bucket_v2::Response) -> (r: Response)
        ensures
            r == Response::of(response),
    {
        match response {
            allocated_bucket_v2::Response::Success(result) => Response::Success(
                Result { canister_id: result.canister_id, chunk_size: result.chunk_size },
            ),
            allocated_bucket_v2::Response::AllowanceExceeded(_) => Response::AllowanceReached,
            allocated_bucket_v2::Response::UserNotFound => Response::UserNotFound,
            allocated_bucket_v2::Response::BucketUnavailable => Response::BucketUnavailable,
        }
    }
}

} // verus!
