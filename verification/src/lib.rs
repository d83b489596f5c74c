//! A content-addressed file store split into storage buckets and a single index.
//!
//! Buckets assemble chunked uploads, verify their digest, store each distinct blob once and
//! count the files that refer to it. The index tracks per-user byte allowances and routes
//! each content hash to the bucket that owns it. Two event queues keep both sides in step.

pub mod bucket;
pub mod collections;
pub mod hasher;
pub mod index;
pub mod sync;
pub mod types;
pub mod upgrade;
