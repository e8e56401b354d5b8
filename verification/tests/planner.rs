use symfetch::ranges::{plan_ranges, ByteRange};

#[test]
fn plan_matches_scenario_sizes() {
    // A 3,000,000-byte resource split at 1,048,576 bytes: three ranges, the
    // last one shorter.
    let r = plan_ranges(3_000_000, 1_048_576);
    assert_eq!(
        r,
        vec![
            ByteRange { start: 0, end: 1_048_576 },
            ByteRange { start: 1_048_576, end: 2_097_152 },
            ByteRange { start: 2_097_152, end: 3_000_000 },
        ]
    );
}

#[test]
fn plan_zero_length_is_empty() {
    let r = plan_ranges(0, 1_048_576);
    assert!(r.is_empty());
}

#[test]
fn plan_short_resource_is_one_range() {
    let r = plan_ranges(10, 1_048_576);
    assert_eq!(r, vec![ByteRange { start: 0, end: 10 }]);
}

#[test]
fn plan_exact_multiple_has_no_trailing_range() {
    let r = plan_ranges(4 * 1024, 1024);
    assert_eq!(r.len(), 4);
    for w in &r {
        assert!(w.start < w.end);
    }
    assert_eq!(r.last().unwrap().end, 4 * 1024);
}

#[test]
fn plan_is_contiguous_and_counts_ceil() {
    for (length, chunk) in [(10usize, 3usize), (9, 3), (1, 1), (7, 10), (1000, 17)] {
        let r = plan_ranges(length, chunk);
        let expect = if length == 0 { 0 } else { (length + chunk - 1) / chunk };
        assert_eq!(r.len(), expect);
        if !r.is_empty() {
            assert_eq!(r[0].start, 0);
            assert_eq!(r[r.len() - 1].end, length);
            for i in 0..r.len() - 1 {
                assert_eq!(r[i].end, r[i + 1].start);
            }
            for w in &r {
                assert!(w.start < w.end);
            }
        }
    }
}
