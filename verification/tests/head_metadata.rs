use mirage::head_metadata::{
    head_plan, head_response_headers, merged_accept_ranges, metadata_from_head,
    metadata_from_ranged_get, normalized_accept_ranges, parse_strict_head_ok,
    parse_strict_ranged_get_probe, probe_failure_message, probe_send_failure,
    total_from_content_range, HeadHeaders, HeadPlan, UpstreamResponse,
};

fn response(status: u16, status_text: &str) -> UpstreamResponse {
    UpstreamResponse {
        status,
        status_text: status_text.to_string(),
        content_type: None,
        accept_ranges: None,
        content_range: None,
        content_length: None,
        last_modified: None,
    }
}

#[test]
fn content_range_total() {
    assert_eq!(total_from_content_range("bytes 0-0/12345678"), Some(12_345_678));
    assert_eq!(total_from_content_range("bytes 0-999/*"), None);
}

#[test]
fn strict_ranged_probe_ok() {
    let mut r = response(206, "206 Partial Content");
    r.content_type = Some("video/x-matroska".into());
    r.accept_ranges = Some("bytes".into());
    r.content_range = Some("bytes 0-0/6783696380".into());

    let meta = parse_strict_ranged_get_probe(&r).unwrap();
    assert_eq!(meta.content_length, Some(6_783_696_380));
    assert_eq!(meta.content_type.as_deref(), Some("video/x-matroska"));
    assert_eq!(meta.accept_ranges.as_deref(), Some("bytes"));
}

#[test]
fn strict_ranged_probe_rejects_non_206() {
    let mut r = response(200, "200 OK");
    r.content_type = Some("video/x-matroska".into());
    assert!(parse_strict_ranged_get_probe(&r).is_err());
}

/// IPTV/CDN quirk: `Accept-Ranges` is not RFC-compliant but `206` + `Content-Range` proves ranges.
#[test]
fn nonstandard_accept_ranges_allowed_with_valid_content_range() {
    let mut r = response(206, "206 Partial Content");
    r.content_type = Some("video/x-matroska".into());
    r.accept_ranges = Some("0-6783696380".into());
    r.content_range = Some("bytes 0-0/6783696380".into());

    let meta = parse_strict_ranged_get_probe(&r).unwrap();
    assert_eq!(meta.content_length, Some(6_783_696_380));
    assert_eq!(meta.accept_ranges.as_deref(), Some("bytes"));
}

#[test]
fn strict_ranged_probe_rejects_accept_ranges_none() {
    let mut r = response(206, "206 Partial Content");
    r.content_type = Some("video/x-matroska".into());
    r.accept_ranges = Some("none".into());
    r.content_range = Some("bytes 0-0/6783696380".into());

    assert!(parse_strict_ranged_get_probe(&r).is_err());
}

#[test]
fn strict_head_ok() {
    let mut r = response(200, "200 OK");
    r.content_type = Some("video/mp4".into());
    r.accept_ranges = Some("bytes".into());
    r.content_length = Some("999".into());

    let meta = parse_strict_head_ok(&r).unwrap();
    assert_eq!(meta.content_length, Some(999));
}

#[test]
fn content_range_total_edge_cases() {
    assert_eq!(total_from_content_range("  bytes */42  "), Some(42));
    assert_eq!(total_from_content_range("bytes 0-0/ 7 "), Some(7));
    assert_eq!(total_from_content_range("bytes 0-0"), None);
    assert_eq!(total_from_content_range("bytes 0-0/abc"), None);
    assert_eq!(total_from_content_range("bytes 0-0/18446744073709551616"), None);
}

#[test]
fn accept_ranges_normalized() {
    assert_eq!(normalized_accept_ranges(&Some(" Bytes ".into())).as_deref(), Some("bytes"));
    assert_eq!(normalized_accept_ranges(&Some("NONE".into())).as_deref(), Some("none"));
    assert_eq!(normalized_accept_ranges(&Some("0-100".into())), None);
    assert_eq!(normalized_accept_ranges(&None), None);
    assert_eq!(merged_accept_ranges(&Some("0-100".into())), "bytes");
    assert_eq!(merged_accept_ranges(&Some("none".into())), "none");
}

#[test]
fn ranged_probe_errors() {
    let mut r = response(206, "206 Partial Content");
    r.content_range = Some("bytes 0-0/10".into());
    assert_eq!(
        parse_strict_ranged_get_probe(&r).unwrap_err(),
        "missing Content-Type on ranged GET probe"
    );
    r.content_type = Some("   ".into());
    assert!(parse_strict_ranged_get_probe(&r).is_err());
    r.content_type = Some("video/mp4".into());
    r.content_range = None;
    assert_eq!(
        parse_strict_ranged_get_probe(&r).unwrap_err(),
        "missing Content-Range on 206 ranged GET probe"
    );
    r.content_range = Some("bytes 0-0/*".into());
    assert_eq!(
        parse_strict_ranged_get_probe(&r).unwrap_err(),
        "invalid Content-Range on ranged GET probe (could not parse total size)"
    );
    r.content_range = Some("bytes 0-0/0".into());
    assert_eq!(
        parse_strict_ranged_get_probe(&r).unwrap_err(),
        "invalid Content-Range total (zero) on ranged GET probe"
    );
    let bad = response(200, "200 OK");
    assert_eq!(
        parse_strict_ranged_get_probe(&bad).unwrap_err(),
        "ranged GET probe expected 206 Partial Content, got 200 OK (upstream must support byte ranges with Content-Range)"
    );
    let mut none = response(206, "206 Partial Content");
    none.content_type = Some("video/mp4".into());
    none.accept_ranges = Some("None".into());
    assert_eq!(
        parse_strict_ranged_get_probe(&none).unwrap_err(),
        "upstream Accept-Ranges is 'none' (byte ranges not supported)"
    );
}

#[test]
fn head_probe_errors() {
    let bad = response(404, "404 Not Found");
    assert_eq!(parse_strict_head_ok(&bad).unwrap_err(), "HEAD status 404 Not Found");
    let mut r = response(200, "200 OK");
    assert_eq!(
        parse_strict_head_ok(&r).unwrap_err(),
        "missing Content-Type on upstream HEAD response"
    );
    r.content_type = Some("video/mp4".into());
    r.content_length = Some("0".into());
    assert_eq!(
        parse_strict_head_ok(&r).unwrap_err(),
        "missing or zero Content-Length on upstream HEAD response"
    );
    r.content_length = Some("12".into());
    r.last_modified = Some("Tue, 01 Jan 2030 00:00:00 GMT".into());
    let meta = parse_strict_head_ok(&r).unwrap();
    assert_eq!(meta.content_length, Some(12));
    assert_eq!(meta.accept_ranges.as_deref(), Some("bytes"));
    assert_eq!(meta.last_modified.as_deref(), Some("Tue, 01 Jan 2030 00:00:00 GMT"));
}

#[test]
fn probe_choice_and_messages() {
    let mut head = response(200, "200 OK");
    head.content_type = Some("video/mp4".into());
    head.content_length = Some("5".into());
    assert_eq!(metadata_from_head(&head).unwrap().content_length, Some(5));
    head.status = 500;
    assert!(metadata_from_head(&head).is_none());

    let get = response(200, "200 OK");
    let err = metadata_from_ranged_get(&get).unwrap_err();
    assert!(err.starts_with("ranged GET probe expected 206 Partial Content, got 200 OK"));
    assert!(err.ends_with("(client-side only; it does not fix a broken upstream)."));

    assert_eq!(
        probe_failure_message("x.".to_string()),
        "x. If rclone listing/stat fails with this error, you may try rclone's --http-no-head (client-side only; it does not fix a broken upstream)."
    );
    assert!(probe_send_failure("timeout").starts_with("upstream ranged GET probe failed: timeout If rclone"));
}

#[test]
fn head_answer_headers() {
    let meta = HeadHeaders {
        content_length: Some(1234),
        content_type: Some("video/mp4".into()),
        accept_ranges: None,
        last_modified: Some("yesterday".into()),
    };
    assert_eq!(meta.content_length(), Some(1234));
    let h = head_response_headers(&meta);
    assert_eq!(
        h,
        vec![
            ("content-type".to_string(), "video/mp4".to_string()),
            ("content-length".to_string(), "1234".to_string()),
            ("accept-ranges".to_string(), "bytes".to_string()),
            ("last-modified".to_string(), "yesterday".to_string()),
        ]
    );
}

#[test]
fn head_plans() {
    let meta = HeadHeaders {
        content_length: Some(1),
        content_type: None,
        accept_ranges: None,
        last_modified: None,
    };
    assert!(matches!(head_plan(true, Some(meta.clone())), HeadPlan::Redirect));
    assert!(matches!(head_plan(false, Some(meta)), HeadPlan::Respond(m) if m.content_length == Some(1)));
    assert!(matches!(head_plan(false, None), HeadPlan::Probe));
}
