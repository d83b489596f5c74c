//! The request to admit a user, and its answer.

use crate::types::UserId;
use vstd::prelude::*;

verus! {

/// The user to admit and the bytes that the user may take up.
#[derive(Clone, Copy, Debug, PartialEq, Eq)]
pub struct Args {
    pub user_id: UserId,
    pub byte_limit: u64,
}

/// What became of the request.
#[derive(Clone, Copy, Debug, PartialEq, Eq)]
pub enum Response {
    Success,
    UserAlreadyExists,
}

} // verus!
