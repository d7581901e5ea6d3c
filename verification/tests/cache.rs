use mirage::cache::{cap_episodes, store_series_detail, DEFAULT_SERIES_TTL_NANOS};
use mirage::head_metadata::{DEFAULT_HEAD_CACHE_TTL_NANOS, HEAD_CACHE_MAX_ENTRIES};
use mirage::limits::MirageLimits;
use mirage::ttl_cache::{IdTtlCache, TtlCache};
use mirage::xtream::types::{SeriesDetail, SeriesEpisode};

fn ep(n: i64) -> SeriesEpisode {
    SeriesEpisode {
        id: Some(mirage::json::JsonValue::Number(mirage::json::JsonNumber::NegInt(n))),
        episode_num: None,
        title: None,
        container_extension: None,
        season: None,
    }
}

#[test]
fn read_after_write_until_expiry() {
    let mut c: TtlCache<u32> = TtlCache::new(100);
    c.insert("a".to_string(), 1, 10);
    assert_eq!(c.get_fresh("a", 10), Some(&1));
    assert_eq!(c.get_fresh("a", 109), Some(&1));
    assert_eq!(c.get_fresh("a", 110), None);
    assert_eq!(c.get_fresh("b", 10), None);
    c.insert("a".to_string(), 2, 50);
    assert_eq!(c.entries.len(), 1);
    assert_eq!(c.get_fresh("a", 140), Some(&2));
}

#[test]
fn purge_and_lookup() {
    let mut c: TtlCache<&str> = TtlCache::new(10);
    c.insert("old".to_string(), "x", 0);
    c.insert("new".to_string(), "y", 5);
    assert_eq!(c.lookup("new", 10), Some(&"y"));
    assert_eq!(c.entries.len(), 1);
    c.purge_expired(100);
    assert!(c.entries.is_empty());
}

#[test]
fn bounded_insert_starts_over() {
    let mut c: TtlCache<u8> = TtlCache::new(1_000);
    for i in 0..4u8 {
        c.insert_bounded(format!("k{i}"), i, 0, 2);
    }
    // The fourth insert finds three live entries, more than two: it starts
    // over with the new one.
    assert_eq!(c.entries.len(), 1);
    assert_eq!(c.get_fresh("k3", 1), Some(&3));
    assert_eq!(HEAD_CACHE_MAX_ENTRIES, 10_000);
    assert_eq!(DEFAULT_HEAD_CACHE_TTL_NANOS, 15 * 60 * 1_000_000_000);
    assert_eq!(DEFAULT_SERIES_TTL_NANOS, 12 * 60 * 60 * 1_000_000_000);
}

#[test]
fn series_cache_by_id() {
    let mut c: IdTtlCache<&str> = IdTtlCache::new(100);
    assert_eq!(c.get_fresh(-42, 0), None);
    c.insert(-42, "a", 10);
    c.insert(7, "b", 20);
    assert_eq!(c.get_fresh(-42, 109), Some(&"a"));
    assert_eq!(c.get_fresh(-42, 110), None);
    assert_eq!(c.get_fresh(7, 110), Some(&"b"));
    c.insert(-42, "c", 200);
    assert_eq!(c.entries.len(), 2);
    assert_eq!(c.get_fresh(-42, 250), Some(&"c"));
    assert_eq!(c.get_fresh(7, 250), None);
}

#[test]
fn episode_caps() {
    let mut d = SeriesDetail {
        seasons: vec![],
        info: None,
        episodes: vec![
            ("1".to_string(), vec![ep(-1), ep(-2), ep(-3)]),
            ("2".to_string(), vec![ep(-4)]),
        ],
    };
    let limits = MirageLimits {
        test_mode: true,
        max_categories: 1,
        max_vod_per_category: 1,
        max_series_per_category: 1,
        max_episodes_per_series: 2,
    };
    cap_episodes(&mut d, &limits);
    assert_eq!(d.episodes.len(), 2);
    assert_eq!(d.episodes[0].0, "1");
    assert_eq!(d.episodes[0].1.len(), 2);
    assert_eq!(d.episodes[1].1.len(), 1);
    let off = MirageLimits { test_mode: false, ..limits };
    let mut e = SeriesDetail { seasons: vec![], info: None, episodes: vec![("1".to_string(), vec![ep(-1), ep(-2), ep(-3)])] };
    cap_episodes(&mut e, &off);
    assert_eq!(e.episodes[0].1.len(), 3);
}

#[test]
fn stored_detail_is_capped_and_reused() {
    let mut c: IdTtlCache<std::sync::Arc<SeriesDetail>> = IdTtlCache::new(50);
    let d = SeriesDetail {
        seasons: vec![],
        info: None,
        episodes: vec![("1".to_string(), vec![ep(-1), ep(-2), ep(-3)])],
    };
    let limits = MirageLimits {
        test_mode: true,
        max_categories: 1,
        max_vod_per_category: 1,
        max_series_per_category: 1,
        max_episodes_per_series: 1,
    };
    store_series_detail(&mut c, 12, d, &limits, 100);
    let v = c.get_fresh(12, 149).unwrap();
    assert_eq!(v.episodes[0].1.len(), 1);
    assert!(c.get_fresh(12, 150).is_none());
    assert!(c.get_fresh(13, 120).is_none());
}
