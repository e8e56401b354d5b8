use symfetch::resolve::{
    parse_disposition, path_file_name, resolve_metadata, success_status, ProbeResponse,
    ResolveError,
};

fn probe(
    status: u16,
    content_length: Option<usize>,
    content_disposition: Option<&[u8]>,
    url_path: &[u8],
) -> ProbeResponse {
    ProbeResponse {
        canonical_url: b"http://example/sym/a/1.bin".to_vec(),
        url_path: url_path.to_vec(),
        status,
        content_length,
        content_disposition: content_disposition.map(|d| d.to_vec()),
    }
}

#[test]
fn disposition_with_filename_parameter() {
    let name = parse_disposition(&b"attachment; filename=report.pdb".to_vec());
    assert_eq!(name, Some(b"report.pdb".to_vec()));
}

#[test]
fn disposition_keeps_value_verbatim() {
    let name = parse_disposition(&b"attachment; filename=\"quoted.bin\"".to_vec());
    assert_eq!(name, Some(b"\"quoted.bin\"".to_vec()));
}

#[test]
fn disposition_without_filename_yields_nothing() {
    assert_eq!(parse_disposition(&b"attachment".to_vec()), None);
}

#[test]
fn disposition_skips_unrelated_parameters() {
    let name = parse_disposition(&b"inline; charset=utf-8; filename=x.bin".to_vec());
    assert_eq!(name, Some(b"x.bin".to_vec()));
}

#[test]
fn disposition_with_extra_equals_yields_nothing() {
    // The filename parameter must split into exactly a key and a value.
    assert_eq!(parse_disposition(&b"x; filename=a=b".to_vec()), None);
}

#[test]
fn path_name_is_final_segment() {
    let name = path_file_name(&b"/download/symbols/foo.pdb/ABC123/foo.pdb".to_vec());
    assert_eq!(name, Some(b"foo.pdb".to_vec()));
}

#[test]
fn path_ending_in_separator_yields_nothing() {
    assert_eq!(path_file_name(&b"/download/".to_vec()), None);
}

#[test]
fn resolve_uses_disposition_before_path() {
    let p = probe(200, Some(42), Some(b"inline; filename=from_header.bin"), b"/x/from_path.bin");
    let res = resolve_metadata(&p).unwrap();
    assert_eq!(res.resolved_name, b"from_header.bin".to_vec());
    assert_eq!(res.declared_length, 42);
    assert_eq!(res.canonical_url, b"http://example/sym/a/1.bin".to_vec());
}

#[test]
fn resolve_falls_back_to_path_when_header_empty() {
    let p = probe(200, Some(7), Some(b""), b"/x/from_path.bin");
    let res = resolve_metadata(&p).unwrap();
    assert_eq!(res.resolved_name, b"from_path.bin".to_vec());
}

#[test]
fn resolve_falls_back_to_path_when_header_absent() {
    let p = probe(204, Some(7), None, b"/x/from_path.bin");
    let res = resolve_metadata(&p).unwrap();
    assert_eq!(res.resolved_name, b"from_path.bin".to_vec());
}

#[test]
fn resolve_rejects_failing_status() {
    let p = probe(404, Some(7), None, b"/x/a.bin");
    assert_eq!(resolve_metadata(&p), Err(ResolveError::BadStatus));
}

#[test]
fn resolve_rejects_missing_length() {
    let p = probe(200, None, None, b"/x/a.bin");
    assert_eq!(resolve_metadata(&p), Err(ResolveError::MissingLength));
}

#[test]
fn resolve_rejects_underivable_name() {
    let p = probe(200, Some(7), Some(b"attachment"), b"/x/a.bin");
    assert_eq!(resolve_metadata(&p), Err(ResolveError::NoName));
    let q = probe(200, Some(7), None, b"/x/");
    assert_eq!(resolve_metadata(&q), Err(ResolveError::NoName));
}

#[test]
fn success_statuses_are_the_two_hundreds() {
    assert!(success_status(200));
    assert!(success_status(206));
    assert!(success_status(299));
    assert!(!success_status(199));
    assert!(!success_status(300));
    assert!(!success_status(404));
}
