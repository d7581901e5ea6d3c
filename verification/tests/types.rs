use mirage::json::{JsonNumber, JsonValue};
use mirage::xtream::types::{normalize_series_detail, SeriesDetail, SeriesEpisode, SeriesInfoMeta};

/// `{"seasons":[],"info":[],"episodes":{"1":[{"id":"1","title":"Pilot",
/// "container_extension":"mkv","season":1}]}}`: an empty `info` array reads
/// as no info.
#[test]
fn series_detail_info_empty_array_deserializes() {
    let mut d = SeriesDetail {
        seasons: vec![],
        info: None,
        episodes: vec![(
            "1".to_string(),
            vec![SeriesEpisode {
                id: Some(JsonValue::String("1".into())),
                episode_num: None,
                title: Some("Pilot".into()),
                container_extension: Some("mkv".into()),
                season: Some(JsonValue::Number(JsonNumber::PosInt(1))),
            }],
        )],
    };
    assert!(d.info.is_none());
    normalize_series_detail(&mut d);
    assert!(d.info.is_some());
    assert_eq!(d.info.as_ref().and_then(|i| i.name.as_deref()), Some("Unknown"));
}

#[test]
fn normalize_keeps_named_or_empty_series() {
    let mut empty = SeriesDetail { seasons: vec![], info: None, episodes: vec![] };
    normalize_series_detail(&mut empty);
    assert!(empty.info.is_none());

    let info = SeriesInfoMeta {
        name: Some("  ".into()),
        tmdb: None,
        category_id: Some("5".into()),
        category_ids: vec![],
        release_date: None,
        release_date_alt: None,
    };
    let mut blank = SeriesDetail {
        seasons: vec![],
        info: Some(info),
        episodes: vec![(
            "1".to_string(),
            vec![SeriesEpisode {
                id: None,
                episode_num: None,
                title: None,
                container_extension: None,
                season: None,
            }],
        )],
    };
    normalize_series_detail(&mut blank);
    let i = blank.info.unwrap();
    assert_eq!(i.name.as_deref(), Some("Unknown"));
    assert_eq!(i.category_id.as_deref(), Some("5"));
}

#[test]
fn season_keys_checked() {
    let d = |keys: &[&str]| mirage::xtream::types::SeriesDetail {
        seasons: vec![],
        info: None,
        episodes: keys.iter().map(|k| (k.to_string(), vec![])).collect(),
    };
    assert!(mirage::xtream::types::season_keys_are_distinct(&d(&["1", "2", "10"])));
    assert!(!mirage::xtream::types::season_keys_are_distinct(&d(&["1", "2", "1"])));
    assert!(mirage::xtream::types::season_keys_are_distinct(&d(&[])));
}
