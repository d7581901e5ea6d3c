use mirage::config::Config;
use mirage::env::{env_truthy, env_u32_positive, env_u64_positive, env_usize_positive, EnvVars};
use mirage::limits::MirageLimits;

fn env(pairs: &[(&str, &str)]) -> EnvVars {
    EnvVars { vars: pairs.iter().map(|(k, v)| (k.to_string(), v.to_string())).collect() }
}

#[test]
fn required_variables() {
    let e = Config::from_env(&env(&[])).unwrap_err();
    assert_eq!(e, "XTREAM_BASE_URL is required");
    let e = Config::from_env(&env(&[("XTREAM_BASE_URL", "x"), ("XTREAM_PASSWORD", "p")])).unwrap_err();
    assert_eq!(e, "XTREAM_USERNAME is required");
    let e = Config::from_env(&env(&[("XTREAM_BASE_URL", "x"), ("XTREAM_USERNAME", "u")])).unwrap_err();
    assert_eq!(e, "XTREAM_PASSWORD is required");
}

#[test]
fn defaults() {
    let c = Config::from_env(&env(&[
        ("XTREAM_BASE_URL", "  https://iptv.example.com//  "),
        ("XTREAM_USERNAME", "u"),
        ("XTREAM_PASSWORD", "p"),
    ]))
    .unwrap();
    assert_eq!(c.xtream_base_url, "https://iptv.example.com");
    assert_eq!(c.xtream_username, "u");
    assert_eq!(c.xtream_password, "p");
    assert_eq!(c.listen, "127.0.0.1:8080");
    assert!(!c.limits.test_mode);
    assert_eq!(c.limits.max_categories, 1);
    assert_eq!(c.limits.max_vod_per_category, 10);
    assert_eq!(c.tv_catalog.catalog_path, "data/tv_catalog.rkyv");
    assert_eq!(c.tv_catalog.refresh_secs, 43_200);
    assert_eq!(c.movie_catalog.catalog_path, "data/movie_catalog.rkyv");
    assert_eq!(c.movie_catalog.refresh_secs, 43_200);
    assert_eq!(c.upstream_pace.min_interval_ms, 300);
    assert_eq!(c.upstream_pace.max_inflight, 1);
    assert_eq!(c.stream.max_inflight, 16);
    assert!(!c.stream.probe_use_upstream_head);
}

#[test]
fn overrides() {
    let c = Config::from_env(&env(&[
        ("XTREAM_BASE_URL", "http://h"),
        ("XTREAM_USERNAME", "u"),
        ("XTREAM_PASSWORD", "p"),
        ("LISTEN", "0.0.0.0:9000"),
        ("MIRAGE_TV_CATALOG_PATH", "/var/tv.rkyv"),
        ("MIRAGE_TV_REFRESH_SECS", "60"),
        ("MIRAGE_UPSTREAM_MIN_INTERVAL_MS", "0"),
        ("MIRAGE_UPSTREAM_MAX_INFLIGHT", "+4"),
        ("MIRAGE_STREAM_MAX_INFLIGHT", "x"),
        ("MIRAGE_STREAM_PROBE_USE_UPSTREAM_HEAD", "YES"),
        ("MIRAGE_TEST_MODE", "On"),
        ("MIRAGE_TEST_MAX_VOD", "3"),
    ]))
    .unwrap();
    assert_eq!(c.listen, "0.0.0.0:9000");
    assert_eq!(c.tv_catalog.catalog_path, "/var/tv.rkyv");
    assert_eq!(c.tv_catalog.refresh_secs, 60);
    assert_eq!(c.upstream_pace.min_interval_ms, 300);
    assert_eq!(c.upstream_pace.max_inflight, 4);
    assert_eq!(c.stream.max_inflight, 16);
    assert!(c.stream.probe_use_upstream_head);
    assert!(c.limits.test_mode);
    assert_eq!(c.limits.max_vod_per_category, 3);
}

#[test]
fn limits_from_env() {
    let l = MirageLimits::from_env(&env(&[
        ("MIRAGE_TEST_MODE", "1"),
        ("MIRAGE_TEST_MAX_CATEGORIES", "2"),
        ("MIRAGE_TEST_MAX_SERIES", "-1"),
        ("MIRAGE_TEST_MAX_EPISODES", "99999999999999999999999"),
    ]));
    assert!(l.test_mode);
    assert_eq!(l.max_categories, 2);
    assert_eq!(l.max_series_per_category, 10);
    assert_eq!(l.max_episodes_per_series, 10);
    let mut v = vec![1, 2, 3];
    l.cap_to(&mut v, 2);
    assert_eq!(v, vec![1, 2]);
    let off = MirageLimits::from_env(&env(&[("MIRAGE_TEST_MODE", "maybe")]));
    assert!(!off.test_mode);
    let mut w = vec![1, 2, 3];
    off.cap_to(&mut w, 1);
    assert_eq!(w, vec![1, 2, 3]);
}

#[test]
fn env_readers() {
    let e = env(&[("A", "true"), ("A", "false"), ("B", "7"), ("C", "4294967296")]);
    assert_eq!(e.get("A"), Some("true"));
    assert_eq!(e.get("Z"), None);
    assert!(env_truthy(&e, "A"));
    assert!(!env_truthy(&e, "B"));
    assert_eq!(env_usize_positive(&e, "B", 1), 7);
    assert_eq!(env_u64_positive(&e, "C", 1), 4_294_967_296);
    assert_eq!(env_u32_positive(&e, "C", 9), 9);
}
