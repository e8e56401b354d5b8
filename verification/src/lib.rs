//! Verified core of a batched HTTP range downloader.
//!
//! The library holds the decision logic of the downloader: planning byte
//! ranges, deriving a file name from response metadata, judging response
//! statuses, assembling fetched chunks in order with exact byte-count
//! verification, and combining per-item outcomes into a batch result.
//! All network and file traffic stays outside, handing the library plain
//! values and taking plain values back.

pub mod assemble;
pub mod batch;
pub mod fetch;
pub mod orchestrate;
pub mod ranges;
pub mod resolve;

use vstd::prelude::*;

verus! {

/// Nominal width, in bytes, of one planned range.
pub const DEFAULT_CHUNK_SIZE: usize = 1024 * 1024;

} // verus!
