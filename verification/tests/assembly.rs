use symfetch::assemble::{assemble_chunks, verify_stream_length, AssembleError};
use symfetch::fetch::{range_fetch_outcome, range_header_value, PARTIAL_CONTENT};
use symfetch::ranges::{plan_ranges, ByteRange};

fn body_of(len: usize) -> Vec<u8> {
    (0..len).map(|i| (i % 251) as u8).collect()
}

#[test]
fn assembled_bytes_equal_sequential_body() {
    // Chunks cut along the planned ranges reassemble to the very bytes a
    // single full-body fetch would stream, whatever order they arrived in.
    let body = body_of(3000);
    let ranges = plan_ranges(body.len(), 1024);
    assert_eq!(ranges.len(), 3);
    // Fill the indexed collection in completion order 2, 0, 1: position by
    // range index keeps assembly order structurally.
    let mut results: Vec<Option<Vec<u8>>> = vec![None; ranges.len()];
    for i in [2usize, 0, 1] {
        let r = &ranges[i];
        results[i] = Some(body[r.start..r.end].to_vec());
    }
    let out = assemble_chunks(body.len(), &results).unwrap();
    assert_eq!(out, body);
}

#[test]
fn zero_length_resource_assembles_to_empty_file() {
    let ranges = plan_ranges(0, 1024);
    assert!(ranges.is_empty());
    let out = assemble_chunks(0, &Vec::new()).unwrap();
    assert_eq!(out, Vec::<u8>::new());
}

#[test]
fn missing_chunk_fails_whole_assembly() {
    let body = body_of(2048);
    let results = vec![Some(body[0..1024].to_vec()), None];
    assert_eq!(assemble_chunks(2048, &results), Err(AssembleError::MissingChunk));
}

#[test]
fn byte_count_mismatch_fails_assembly() {
    let results = vec![Some(vec![1u8, 2, 3])];
    assert_eq!(assemble_chunks(4, &results), Err(AssembleError::LengthMismatch));
}

#[test]
fn stream_length_is_verified_exactly() {
    assert!(verify_stream_length(100, 100).is_ok());
    assert_eq!(verify_stream_length(100, 99), Err(AssembleError::LengthMismatch));
    assert_eq!(verify_stream_length(0, 1), Err(AssembleError::LengthMismatch));
    assert!(verify_stream_length(0, 0).is_ok());
}

#[test]
fn plain_success_status_fails_a_range_fetch() {
    // A server that ignores the range header and answers with a generic
    // success must not be accepted for this range.
    let body = vec![1u8, 2, 3];
    assert_eq!(range_fetch_outcome(200, body.clone()), None);
    assert_eq!(range_fetch_outcome(206, body.clone()), Some(body));
    assert_eq!(PARTIAL_CONTENT, 206);
}

#[test]
fn range_header_is_inclusive() {
    let v = range_header_value(&ByteRange { start: 0, end: 1_048_576 });
    assert_eq!(v, b"bytes=0-1048575".to_vec());
    let v = range_header_value(&ByteRange { start: 2_097_152, end: 3_000_000 });
    assert_eq!(v, b"bytes=2097152-2999999".to_vec());
    let v = range_header_value(&ByteRange { start: 5, end: 6 });
    assert_eq!(v, b"bytes=5-5".to_vec());
}
