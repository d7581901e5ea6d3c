use mirage::range_expand::{
    expand_upstream_range_for_probe, parse_first_range, upstream_range_header_value,
    MIN_PROBE_BYTES,
};

#[test]
fn expands_tiny_zero_start() {
    let e = expand_upstream_range_for_probe("bytes=0-0", None).unwrap();
    assert_eq!(e, "bytes=0-262143");
}

#[test]
fn no_expand_when_large_enough() {
    assert!(expand_upstream_range_for_probe("bytes=0-262143", None).is_none());
}

#[test]
fn caps_by_content_length() {
    let e = expand_upstream_range_for_probe("bytes=0-0", Some(100)).unwrap();
    assert_eq!(e, "bytes=0-99");
}

#[test]
fn no_expand_open_ended() {
    assert!(expand_upstream_range_for_probe("bytes=0-", None).is_none());
}

#[test]
fn no_expand_non_start() {
    assert!(expand_upstream_range_for_probe("bytes=1000-2000", None).is_none());
}

#[test]
fn case_insensitive_bytes_prefix() {
    let e = expand_upstream_range_for_probe("Bytes=0-0", None).unwrap();
    assert_eq!(e, "bytes=0-262143");
}

#[test]
fn expansion_edge_cases() {
    assert_eq!(MIN_PROBE_BYTES, 262_144);
    // Cap below the requested end: no expansion.
    assert!(expand_upstream_range_for_probe("bytes=0-500", Some(100)).is_none());
    // A zero length is not a cap.
    assert_eq!(
        expand_upstream_range_for_probe("bytes=0-10", Some(0)).unwrap(),
        "bytes=0-262143"
    );
    // Multiple ranges and junk are left alone.
    assert!(expand_upstream_range_for_probe("bytes=0-0,5-6", None).is_none());
    assert!(expand_upstream_range_for_probe("items=0-0", None).is_none());
    assert!(expand_upstream_range_for_probe("bytes=x-1", None).is_none());
    assert_eq!(
        expand_upstream_range_for_probe("  bytes= 0-1023 ", None).unwrap(),
        "bytes=0-262143"
    );
    assert_eq!(
        expand_upstream_range_for_probe("bytes=0-262142", None).unwrap(),
        "bytes=0-262143"
    );
    assert!(expand_upstream_range_for_probe("bytesé0-0", None).is_none());
    assert_eq!(parse_first_range("bytesé0-0"), None);
    assert_eq!(
        upstream_range_header_value(Some("bytesé0-0"), Some(10)).as_deref(),
        Some("bytesé0-0")
    );
}

#[test]
fn upstream_value() {
    assert_eq!(upstream_range_header_value(None, None), None);
    assert_eq!(
        upstream_range_header_value(Some("bytes=0-0"), Some(10)).as_deref(),
        Some("bytes=0-9")
    );
    assert_eq!(
        upstream_range_header_value(Some("bytes=5-9"), None).as_deref(),
        Some("bytes=5-9")
    );
}

#[test]
fn first_range_parsing() {
    assert_eq!(parse_first_range("bytes=0-0"), Some((0, Some(0))));
    assert_eq!(parse_first_range(" BYTES= 5- "), Some((5, None)));
    assert_eq!(parse_first_range("bytes=5"), None);
    assert_eq!(parse_first_range("bytes=-5"), None);
    assert_eq!(parse_first_range("bytes=1-2,3-4"), None);
}
