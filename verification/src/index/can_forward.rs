//! The question whether a user's allowance covers a blob, and its answer.

use crate::types::ProjectedAllowance;
use vstd::prelude::*;

verus! {

/// The blob that a user means to refer to.
#[derive(Clone, Copy, Debug, PartialEq, Eq)]
pub struct Args {
    pub file_hash: crate::types::Hash,
    pub file_size: u64,
}

/// Whether the allowance covers the blob, with the figures.
#[derive(Clone, Copy, Debug, PartialEq, Eq)]
pub enum Response {
    Success(ProjectedAllowance),
    AllowanceExceeded(ProjectedAllowance),
    UserNotFound,
}

} // verus!
