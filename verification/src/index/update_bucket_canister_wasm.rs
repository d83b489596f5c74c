//! The request to replace the code of the buckets, and its answer.

use crate::types::CanisterWasm;
use vstd::prelude::*;

verus! {

/// The new code.
pub struct Args {
    pub bucket_canister_wasm: CanisterWasm,
}

/// What became of the request.
#[derive(Clone, Copy, Debug, PartialEq, Eq)]
pub enum Response {
    Success,
    VersionNotHigher,
}

} // verus!
