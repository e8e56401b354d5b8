use symfetch::assemble::assemble_chunks;
use symfetch::batch::{
    build_log, join_path, parent_dir, request_url, should_write_log, succeeded_uris, summarize,
    DownloadOutcome,
};
use symfetch::orchestrate::{begin_download, DownloadMode};
use symfetch::resolve::ProbeResponse;

fn probe_for(path: &[u8], status: u16, length: Option<usize>) -> ProbeResponse {
    let mut url = b"http://example/sym".to_vec();
    url.extend_from_slice(path);
    ProbeResponse {
        canonical_url: url,
        url_path: path.to_vec(),
        status,
        content_length: length,
        content_disposition: None,
    }
}

#[test]
fn one_failure_is_isolated_from_the_batch() {
    // Three URIs, the second resolving to a 404: the run completes with two
    // successes, and the log holds exactly the first and third.
    let uris: [&[u8]; 3] = [b"a/1.bin", b"broken/2.bin", b"c/3.bin"];
    let mut outcomes: Vec<DownloadOutcome> = Vec::new();
    for (i, uri) in uris.iter().enumerate() {
        let status = if i == 1 { 404 } else { 200 };
        let mut path = b"/".to_vec();
        path.extend_from_slice(uri);
        let probe = probe_for(&path, status, Some(4));
        match begin_download(&probe, DownloadMode::Concurrent, 1024) {
            Ok(_) => outcomes.push(DownloadOutcome::Success { uri: uri.to_vec(), bytes: 4 }),
            Err(_) => outcomes.push(DownloadOutcome::Failure { uri: uri.to_vec() }),
        }
    }
    let result = summarize(&outcomes, 1);
    assert_eq!(result.total, 3);
    assert_eq!(result.succeeded.len(), 2);
    assert_eq!(result.succeeded[0], b"a/1.bin".to_vec());
    assert_eq!(result.succeeded[1], b"c/3.bin".to_vec());
    let log = build_log(&result.succeeded);
    assert_eq!(log, b"a/1.bin\nc/3.bin\n".to_vec());
}

#[test]
fn scenario_two_uris_one_missing() {
    // Input list ["a/1.bin", "missing/2.bin"] against base URL
    // http://example/sym with a 3,000,000-byte resource behind the first.
    let base = b"http://example/sym".to_vec();
    let first_url = request_url(&base, &b"a/1.bin".to_vec());
    assert_eq!(first_url, b"http://example/sym/a/1.bin".to_vec());

    let probe = probe_for(b"/a/1.bin", 200, Some(3_000_000));
    let pending = begin_download(&probe, DownloadMode::Concurrent, 1_048_576).unwrap();
    assert_eq!(pending.resource.declared_length, 3_000_000);
    assert_eq!(pending.resource.resolved_name, b"1.bin".to_vec());
    let starts: Vec<(usize, usize)> =
        pending.ranges.iter().map(|r| (r.start, r.end)).collect();
    assert_eq!(
        starts,
        vec![(0, 1_048_576), (1_048_576, 2_097_152), (2_097_152, 3_000_000)]
    );
    let body: Vec<u8> = (0..3_000_000usize).map(|i| (i % 241) as u8).collect();
    let results: Vec<Option<Vec<u8>>> = pending
        .ranges
        .iter()
        .map(|r| Some(body[r.start..r.end].to_vec()))
        .collect();
    let out = assemble_chunks(pending.resource.declared_length, &results).unwrap();
    assert_eq!(out.len(), 3_000_000);
    assert_eq!(out, body);

    let miss = probe_for(b"/missing/2.bin", 404, None);
    assert!(begin_download(&miss, DownloadMode::Concurrent, 1_048_576).is_err());

    let outcomes = vec![
        DownloadOutcome::Success { uri: b"a/1.bin".to_vec(), bytes: 3_000_000 },
        DownloadOutcome::Failure { uri: b"missing/2.bin".to_vec() },
    ];
    let log = build_log(&succeeded_uris(&outcomes));
    assert_eq!(log, b"a/1.bin\n".to_vec());
}

#[test]
fn rerun_over_same_outcomes_writes_same_log() {
    let outcomes = vec![
        DownloadOutcome::Success { uri: b"x/1.bin".to_vec(), bytes: 10 },
        DownloadOutcome::Failure { uri: b"y/2.bin".to_vec() },
        DownloadOutcome::Success { uri: b"z/3.bin".to_vec(), bytes: 20 },
    ];
    let first = build_log(&succeeded_uris(&outcomes));
    let second = build_log(&succeeded_uris(&outcomes));
    assert_eq!(first, second);
    assert_eq!(first, b"x/1.bin\nz/3.bin\n".to_vec());
}

#[test]
fn empty_success_list_skips_the_log() {
    let outcomes = vec![DownloadOutcome::Failure { uri: b"y/2.bin".to_vec() }];
    let succeeded = succeeded_uris(&outcomes);
    assert!(!should_write_log(&succeeded));
    let some = vec![b"a".to_vec()];
    assert!(should_write_log(&some));
}

#[test]
fn paths_join_under_the_output_root() {
    let joined = join_path(&Some(b"out".to_vec()), &b"a/1.bin".to_vec());
    assert_eq!(joined, b"out/a/1.bin".to_vec());
    let bare = join_path(&None, &b"a/1.bin".to_vec());
    assert_eq!(bare, b"a/1.bin".to_vec());
}

#[test]
fn parent_directories_are_derived_from_the_path() {
    assert_eq!(parent_dir(&b"out/a/1.bin".to_vec()), Some(b"out/a".to_vec()));
    assert_eq!(parent_dir(&b"1.bin".to_vec()), None);
}

#[test]
fn sequential_mode_plans_no_ranges() {
    let probe = probe_for(b"/a/1.bin", 200, Some(4096));
    let pending = begin_download(&probe, DownloadMode::Sequential, 1024).unwrap();
    assert!(pending.ranges.is_empty());
    assert_eq!(pending.mode, DownloadMode::Sequential);
}
