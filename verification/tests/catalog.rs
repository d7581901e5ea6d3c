use mirage::catalog::{
    build_movie_catalog, build_movie_category, build_movie_streams, build_tv_rows, categories_kept,
    first_rebuild,
    movie_catalog_format_ok, movie_streams_are_buildable, tv_catalog_format_ok,
    tv_rows_are_buildable, FirstRebuild, MovieCatalogSnapshot, TvCatalogSnapshot,
    MOVIE_CATALOG_FORMAT_VERSION, TV_CATALOG_FORMAT_VERSION,
};
use mirage::json::{JsonNumber, JsonValue};
use mirage::limits::MirageLimits;
use mirage::naming::{parse_seriesid, parse_vodid};
use mirage::xtream::types::{SeriesListing, VodCategory, VodStream};

fn limits(test_mode: bool) -> MirageLimits {
    MirageLimits {
        test_mode,
        max_categories: 1,
        max_vod_per_category: 2,
        max_series_per_category: 2,
        max_episodes_per_series: 10,
    }
}

fn show(id: i64, name: &str) -> SeriesListing {
    SeriesListing { name: name.to_string(), series_id: id, tmdb: None, release_date: None, release_date_alt: None }
}

fn movie(id: i64, name: &str, ext: &str) -> VodStream {
    VodStream {
        stream_id: id,
        name: name.to_string(),
        title: None,
        year: Some(JsonValue::Number(JsonNumber::PosInt(2000))),
        release_date: None,
        release_date_alt: None,
        release_date_lower: None,
        category_id: None,
        container_extension: Some(ext.to_string()),
        tmdb_id: None,
    }
}

#[test]
fn tv_rows_merge_dedup_sort() {
    let pages = vec![
        vec![show(3, "Zeta"), show(1, " Alpha ")],
        vec![show(1, "Alpha again"), show(2, "Beta")],
    ];
    assert!(tv_rows_are_buildable(&pages, &limits(false)));
    let rows = build_tv_rows(&pages, &limits(false));
    let got: Vec<(i64, &str, &str)> = rows
        .iter()
        .map(|r| (r.series_id, r.folder_name.as_str(), r.list_label.as_str()))
        .collect();
    assert_eq!(
        got,
        vec![
            (1, "Alpha (Unknown) {seriesid-1}", "Alpha"),
            (2, "Beta (Unknown) {seriesid-2}", "Beta"),
            (3, "Zeta (Unknown) {seriesid-3}", "Zeta"),
        ]
    );
    for r in &rows {
        assert_eq!(parse_seriesid(&r.folder_name), Some(r.series_id));
    }
}

#[test]
fn tv_rows_test_mode_keeps_first_series() {
    let pages = vec![vec![show(3, "Zeta"), show(1, "Alpha")], vec![show(2, "Beta")]];
    let rows = build_tv_rows(&pages, &limits(true));
    let ids: Vec<i64> = rows.iter().map(|r| r.series_id).collect();
    // The first two merged series (3, 1), then sorted by folder.
    assert_eq!(ids, vec![1, 3]);
}

#[test]
fn tv_rows_sort_is_stable_and_bytewise() {
    let pages = vec![vec![show(5, "b"), show(4, "B"), show(6, "b")]];
    let rows = build_tv_rows(&pages, &limits(false));
    let ids: Vec<i64> = rows.iter().map(|r| r.series_id).collect();
    assert_eq!(ids, vec![4, 5, 6]);
    let mut names: Vec<String> = rows.iter().map(|r| r.folder_name.clone()).collect();
    let sorted = {
        names.sort();
        names
    };
    let again: Vec<String> = rows.iter().map(|r| r.folder_name.clone()).collect();
    assert_eq!(sorted, again);
}

#[test]
fn movie_streams_cap_and_sort() {
    let rows = vec![movie(1, "Zulu", "MKV"), movie(2, "Alpha", ""), movie(3, "Mike", "mp4")];
    assert!(movie_streams_are_buildable(&rows, &limits(false)));
    let all = build_movie_streams(&rows, &limits(false));
    let got: Vec<(i64, &str, &str, &str)> = all
        .iter()
        .map(|m| (m.stream_id, m.folder_name.as_str(), m.list_label.as_str(), m.extension.as_str()))
        .collect();
    assert_eq!(
        got,
        vec![
            (2, "Alpha (2000) {vodid-2}", "Alpha", "mp4"),
            (3, "Mike (2000) {vodid-3}", "Mike", "mp4"),
            (1, "Zulu (2000) {vodid-1}", "Zulu", "mkv"),
        ]
    );
    for m in &all {
        assert_eq!(parse_vodid(&m.folder_name), Some(m.stream_id));
    }
    let capped = build_movie_streams(&rows, &limits(true));
    let ids: Vec<i64> = capped.iter().map(|m| m.stream_id).collect();
    assert_eq!(ids, vec![2, 1]);

    let cat = VodCategory { category_id: "7".into(), category_name: "Drama".into() };
    let c = build_movie_category(cat, &rows, &limits(true));
    assert_eq!(c.category_id, "7");
    assert_eq!(c.category_name, "Drama");
    assert_eq!(c.streams.len(), 2);
}

#[test]
fn movie_catalog_keeps_category_order() {
    let cats = vec![
        VodCategory { category_id: "9".into(), category_name: "Zed".into() },
        VodCategory { category_id: "3".into(), category_name: "Alpha".into() },
    ];
    assert_eq!(categories_kept(&limits(false), cats.len()), 2);
    assert_eq!(categories_kept(&limits(true), cats.len()), 1);
    let pages = vec![vec![movie(5, "Beta", "mkv"), movie(4, "Able", "mp4")], vec![movie(8, "Solo", "avi")]];
    let all = build_movie_catalog(cats.clone(), &pages, &limits(false));
    let ids: Vec<&str> = all.iter().map(|c| c.category_id.as_str()).collect();
    assert_eq!(ids, vec!["9", "3"]);
    let first: Vec<i64> = all[0].streams.iter().map(|m| m.stream_id).collect();
    assert_eq!(first, vec![4, 5]);
    assert_eq!(all[1].streams[0].folder_name, "Solo (2000) {vodid-8}");
    let first_page = vec![vec![movie(5, "Beta", "mkv"), movie(4, "Able", "mp4"), movie(6, "Cara", "mp4")]];
    let one = build_movie_catalog(cats, &first_page, &limits(true));
    assert_eq!(one.len(), 1);
    assert_eq!(one[0].category_name, "Zed");
    let capped: Vec<i64> = one[0].streams.iter().map(|m| m.stream_id).collect();
    assert_eq!(capped, vec![4, 5]);
}

#[test]
fn unsliceable_dates_are_reported() {
    let mut bad = show(1, "X");
    bad.release_date = Some("199é-01-01".into());
    let pages = vec![vec![bad]];
    assert!(!tv_rows_are_buildable(&pages, &limits(false)));
    let mut m = movie(1, "X", "mp4");
    m.year = Some(JsonValue::String("200é".into()));
    assert!(!movie_streams_are_buildable(&vec![m], &limits(false)));
}

#[test]
fn snapshots_and_versions() {
    let s = TvCatalogSnapshot::built_at(vec![], 1234);
    assert_eq!(s.format_version, TV_CATALOG_FORMAT_VERSION);
    assert_eq!(s.built_at_unix_secs(), 1234);
    assert!(tv_catalog_format_ok(&s));
    let now = TvCatalogSnapshot::new(vec![]);
    assert!(now.built_at_unix_secs > 1_600_000_000);
    let mut m = MovieCatalogSnapshot::built_at(vec![], 5);
    assert_eq!(m.built_at_unix_secs(), 5);
    assert!(movie_catalog_format_ok(&m));
    m.format_version = MOVIE_CATALOG_FORMAT_VERSION + 1;
    assert!(!movie_catalog_format_ok(&m));
    assert!(MovieCatalogSnapshot::new(vec![]).built_at_unix_secs > 1_600_000_000);
}

#[test]
fn first_rebuild_deferral() {
    let sec: u128 = 1_000_000_000;
    assert_eq!(first_rebuild(None, 100 * sec, 60), FirstRebuild::Now);
    assert_eq!(first_rebuild(Some(101), 100 * sec, 60), FirstRebuild::BuiltInFuture);
    assert_eq!(first_rebuild(Some(100), 100 * sec + 5, 60), FirstRebuild::After(60 * sec - 5));
    assert_eq!(first_rebuild(Some(40), 100 * sec, 60), FirstRebuild::Now);
    assert_eq!(first_rebuild(Some(41), 100 * sec, 60), FirstRebuild::After(sec));
}
