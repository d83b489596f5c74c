//! The storage shard: chunked upload assembly, deduplication by content hash, reference
//! counting and the reverse index from accessors to files.

use vstd::prelude::*;

pub mod accessors_map;
pub mod blobs;
pub mod c2c_sync_index;
pub mod data;
pub mod delete_files;
pub mod files;
pub mod index_sync_state;
pub mod laws;
pub mod model;
pub mod outcomes;
pub mod pending_file;
pub mod purge;
pub mod reference_counts;
pub mod removal_log;
pub mod snapshot;
pub mod upload_chunk;

verus! {

/// The greatest number of bytes in one blob.
pub const MAX_BLOB_SIZE_BYTES: u64 = 1_073_741_824;

/// The number of bytes a bucket is meant to hold.
pub const DATA_LIMIT_BYTES: u64 = 17_179_869_184;

} // verus!
