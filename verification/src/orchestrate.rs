//! Single-item orchestration: resolve, plan, then assemble, with the
//! fetching in between left to the caller's transport. First failure is
//! terminal for the item; there are no retries.

use vstd::prelude::*;
use crate::assemble::{AssembleError, all_present, assemble_chunks, chunk_views,
    verify_stream_length};
use crate::ranges::{ByteRange, is_range_plan, plan_ranges};
use crate::resolve::{ProbeResponse, RemoteResource, ResolveError, is_success_code,
    resolve_metadata, resolved_name_spec};

verus! {

/// How one item is transferred: one streamed request, or one request per
/// planned range. Chosen by the caller, never auto-negotiated.
#[derive(Clone, Copy, PartialEq, Eq, Structural, Debug)]
pub enum DownloadMode {
    Sequential,
    Concurrent,
}

/// A download past its resolving and planning stages: the resource, the
/// planned ranges (empty in sequential mode), and the chosen mode.
pub struct PendingDownload {
    pub resource: RemoteResource,
    pub ranges: Vec<ByteRange>,
    pub mode: DownloadMode,
}

/// Run the resolving and planning stages for one item: judge the probe's
/// response, and in concurrent mode plan the byte ranges for the declared
/// length. Fails exactly where resolution fails.
pub fn begin_download(probe: &ProbeResponse, mode: DownloadMode, chunk_size: usize) -> (r: Result<
    PendingDownload,
    ResolveError,
>)
    requires
        chunk_size > 0,
    ensures
        !is_success_code(probe.status) ==> r == Err::<PendingDownload, ResolveError>(
            ResolveError::BadStatus,
        ),
        is_success_code(probe.status) && probe.content_length is None ==> r == Err::<
            PendingDownload,
            ResolveError,
        >(ResolveError::MissingLength),
        is_success_code(probe.status) && probe.content_length is Some && resolved_name_spec(
            *probe,
        ) is None ==> r == Err::<PendingDownload, ResolveError>(ResolveError::NoName),
        is_success_code(probe.status) && probe.content_length is Some && resolved_name_spec(
            *probe,
        ) is Some ==> (r matches Ok(p) && p.resource.canonical_url@ == probe.canonical_url@
            && p.resource.declared_length == probe.content_length.unwrap()
            && p.resource.resolved_name@ == resolved_name_spec(*probe).unwrap() && p.mode == mode
            && (mode is Concurrent ==> is_range_plan(
            p.ranges@,
            p.resource.declared_length as int,
            chunk_size as int,
        )) && (mode is Sequential ==> p.ranges@.len() == 0)),
{
    let resource = match resolve_metadata(probe) {
        Ok(res) => res,
        Err(e) => {
            return Err(e);
        },
    };
    let ranges = match mode {
        DownloadMode::Concurrent => plan_ranges(resource.declared_length, chunk_size),
        DownloadMode::Sequential => Vec::new(),
    };
    Ok(PendingDownload { resource, ranges, mode })
}

/// Run the assembling stage of a concurrent download: the per-range fetch
/// results, in range order, must all be present and concatenate to exactly
/// the declared length.
pub fn finish_concurrent(p: &PendingDownload, results: &Vec<Option<Vec<u8>>>) -> (r: Result<
    Vec<u8>,
    AssembleError,
>)
    ensures
        r matches Ok(out) ==> out@ == chunk_views(results@).flatten() && out@.len()
            == p.resource.declared_length,
        r is Ok <==> all_present(results@) && chunk_views(results@).flatten().len()
            == p.resource.declared_length,
        r == Err::<Vec<u8>, AssembleError>(AssembleError::MissingChunk) <==> !all_present(
            results@,
        ),
        r == Err::<Vec<u8>, AssembleError>(AssembleError::LengthMismatch) <==> all_present(
            results@,
        ) && chunk_views(results@).flatten().len() != p.resource.declared_length,
{
    assemble_chunks(p.resource.declared_length, results)
}

/// Run the verifying stage of a sequential download: the byte count the
/// streaming copy reached must equal the declared length.
pub fn finish_sequential(p: &PendingDownload, total_read: usize) -> (r: Result<(), AssembleError>)
    ensures
        r is Ok <==> total_read == p.resource.declared_length,
        r is Err ==> r == Err::<(), AssembleError>(AssembleError::LengthMismatch),
{
    verify_stream_length(p.resource.declared_length, total_read)
}

} // verus!
