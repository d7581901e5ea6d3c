use mirage::json::{JsonNumber, JsonValue};
use mirage::naming::{
    display_title, display_year, display_year_series, episode_extension, episode_filename,
    episode_number, episode_season_number, episode_stream_id, episodes_in_season,
    find_episode_by_stream_id, last_paren_year, movie_base_name, parse_epid, parse_season_dir,
    parse_seriesid, parse_vodid, sanitize_title, season_dir_name, season_numbers_for_series,
    show_base_name_info, show_base_name_listing, split_video_ext, strip_trailing_paren_year,
    tmdb_from_value, tmdb_number, video_extension, year_from_json_value, year_from_text,
};
use mirage::xtream::types::{SeriesDetail, SeriesEpisode, SeriesInfoMeta, SeriesListing, VodStream};

fn number(n: u64) -> JsonValue {
    JsonValue::Number(JsonNumber::PosInt(n))
}

fn text(s: &str) -> JsonValue {
    JsonValue::String(s.to_string())
}

fn vod(stream_id: i64, name: &str) -> VodStream {
    VodStream {
        stream_id,
        name: name.to_string(),
        title: None,
        year: None,
        release_date: None,
        release_date_alt: None,
        release_date_lower: None,
        category_id: None,
        container_extension: None,
        tmdb_id: None,
    }
}

fn episode(id: &str, num: u64, season: u64, title: &str, ext: &str) -> SeriesEpisode {
    SeriesEpisode {
        id: Some(text(id)),
        episode_num: Some(number(num)),
        title: Some(title.to_string()),
        container_extension: Some(ext.to_string()),
        season: Some(number(season)),
    }
}

#[test]
fn vodid_roundtrip() {
    let listing = VodStream {
        stream_id: 42,
        name: "Test / Movie".into(),
        title: None,
        year: Some(number(2021)),
        release_date: None,
        release_date_alt: None,
        release_date_lower: None,
        category_id: None,
        container_extension: Some("mp4".into()),
        tmdb_id: Some(number(99)),
    };
    let base = movie_base_name(&listing);
    assert!(base.contains("{tmdb-99}"));
    assert!(base.contains("[tmdbid-99]"));
    assert!(base.contains("{vodid-42}"));
    assert_eq!(parse_vodid(&base), Some(42));
}

/// `{"stream_id": 12345, "name": "The Savage Is Loose (1974)", "year": "",
/// "tmdbId": "73180", "container_extension": "mkv"}`
#[test]
fn deserialize_xtream_style_json() {
    let mut v = vod(12345, "The Savage Is Loose (1974)");
    v.year = Some(text(""));
    v.tmdb_id = Some(text("73180"));
    v.container_extension = Some("mkv".into());
    assert_eq!(tmdb_number(&v), Some(73180));
    assert_eq!(display_year(&v), "1974");
    let base = movie_base_name(&v);
    assert!(base.contains("{tmdb-73180}"));
    assert!(!base.contains("(Unknown)"), "{}", base);
}

/// `{"stream_id":1,"name":"X","year":1999,"tmdb":"550"}`
#[test]
fn year_numeric_json() {
    let mut v = vod(1, "X");
    v.year = Some(number(1999));
    v.tmdb_id = Some(text("550"));
    assert_eq!(display_year(&v), "1999");
    assert_eq!(tmdb_number(&v), Some(550));
}

/// `{"stream_id":1,"name":"X","year":"2000","tmdb_id":{"id":999}}`
#[test]
fn tmdb_nested_object() {
    let mut v = vod(1, "X");
    v.year = Some(text("2000"));
    v.tmdb_id = Some(JsonValue::Object(vec![("id".to_string(), number(999))]));
    assert_eq!(tmdb_number(&v), Some(999));
}

#[test]
fn series_tags_roundtrip() {
    let listing = SeriesListing {
        name: "The Office (2005)".into(),
        series_id: 42,
        tmdb: Some(text("2316")),
        release_date: None,
        release_date_alt: None,
    };
    let base = show_base_name_listing(&listing);
    assert!(base.contains("{seriesid-42}"));
    assert_eq!(parse_seriesid(&base), Some(42));

    let info = SeriesInfoMeta {
        name: Some("The Office (2005)".into()),
        tmdb: Some(text("2316")),
        category_id: None,
        category_ids: vec![],
        release_date: None,
        release_date_alt: None,
    };
    assert_eq!(show_base_name_listing(&listing), show_base_name_info(&info, 42));

    let ep = SeriesEpisode {
        id: Some(text("1380404")),
        episode_num: Some(number(1)),
        title: Some("The Office (2005) - S01E01 - Pilot".into()),
        container_extension: Some("mkv".into()),
        season: Some(number(1)),
    };
    let file = episode_filename(&ep).expect("filename");
    let stem = file.strip_suffix(".mkv").expect("stem");
    assert_eq!(parse_epid(stem), Some(1380404));
}

#[test]
fn strip_duplicate_year_in_title() {
    let listing = VodStream {
        stream_id: 1,
        name: "The Savage Is Loose (1974)".into(),
        title: None,
        year: Some(JsonValue::String(String::new())),
        release_date: None,
        release_date_alt: None,
        release_date_lower: None,
        category_id: None,
        container_extension: Some("mp4".into()),
        tmdb_id: Some(number(73180)),
    };
    let base = movie_base_name(&listing);
    assert!(!base.contains("(Unknown)"), "{base}");
    assert_eq!(base.matches("(1974)").count(), 1);
    assert!(base.contains("{tmdb-73180}"));
    assert!(base.contains("[tmdbid-73180]"));
}

#[test]
fn exact_movie_folder_name() {
    let mut v = vod(7, "  Alien: Director's Cut (1979) ");
    v.tmdb_id = Some(number(348));
    assert_eq!(
        movie_base_name(&v),
        "Alien Director's Cut (1979) {tmdb-348} [tmdbid-348] {vodid-7}"
    );
    let mut w = vod(-3, "Nameless");
    w.title = Some("   ".into());
    assert_eq!(display_title(&w), "Nameless");
    assert_eq!(movie_base_name(&w), "Nameless (Unknown) {vodid--3}");
    assert_eq!(parse_vodid(&movie_base_name(&w)), Some(-3));
}

#[test]
fn movie_title_and_years() {
    let mut v = vod(1, "Name (1990)");
    v.title = Some(" Better Title ".into());
    assert_eq!(display_title(&v), "Better Title");
    assert_eq!(display_year(&v), "1990");
    v.release_date = Some("2003-05-01".into());
    assert_eq!(display_year(&v), "2003");
    v.year = Some(number(1875));
    assert_eq!(display_year(&v), "2003");
    v.year = Some(number(2011));
    assert_eq!(display_year(&v), "2011");
    assert_eq!(year_from_text(" 1999-12-31 ").as_deref(), Some("1999"));
    assert_eq!(year_from_text("1899"), None);
    assert_eq!(year_from_text("20x1"), None);
    assert_eq!(year_from_json_value(&number(2100)).as_deref(), Some("2100"));
    assert_eq!(year_from_json_value(&JsonValue::Null), None);
    assert_eq!(last_paren_year("A (1999) B (2001) (3000)").as_deref(), Some("2001"));
    assert_eq!(last_paren_year("no year"), None);
}

#[test]
fn blank_release_date_falls_through() {
    let mut v = vod(1, "X");
    v.release_date = Some("".into());
    v.release_date_alt = Some("1999-05-01".into());
    assert_eq!(display_year(&v), "1999");
    v.release_date_alt = Some("   ".into());
    v.release_date_lower = Some("2007".into());
    assert_eq!(display_year(&v), "2007");
    v.release_date_lower = None;
    assert_eq!(display_year(&v), "Unknown");
}

#[test]
fn tmdb_values() {
    assert_eq!(tmdb_from_value(&text(" 550 ")), Some(550));
    assert_eq!(tmdb_from_value(&text("tt550")), Some(550));
    assert_eq!(tmdb_from_value(&text("")), None);
    assert_eq!(tmdb_from_value(&JsonValue::Array(vec![JsonValue::Null, number(5)])), Some(5));
    assert_eq!(
        tmdb_from_value(&JsonValue::Object(vec![("tmdb_id".to_string(), text("77"))])),
        Some(77)
    );
    assert_eq!(tmdb_from_value(&JsonValue::Bool(true)), None);
}

#[test]
fn sanitize_titles() {
    assert_eq!(sanitize_title("  a/b\\c:d*e?f\"g<h>i|j  "), "a b c d e f g h i j");
    assert_eq!(sanitize_title("\n\r\t"), "Untitled");
    assert_eq!(sanitize_title("Tab\there   and  there"), "Tab here and there");
    assert_eq!(strip_trailing_paren_year("Title (2005) "), "Title");
    assert_eq!(strip_trailing_paren_year("Title (20055)"), "Title (20055)");
    assert_eq!(strip_trailing_paren_year("Title ( 2005 )"), "Title");
}

#[test]
fn extensions() {
    let mut v = vod(1, "x");
    assert_eq!(video_extension(&v), "mp4");
    v.container_extension = Some(" ..MKV ".into());
    assert_eq!(video_extension(&v), "mkv");
    v.container_extension = Some("..".into());
    assert_eq!(video_extension(&v), "mp4");
    let ep = episode("1", 1, 1, "t", "AVI");
    assert_eq!(episode_extension(&ep), "avi");
}

#[test]
fn series_years() {
    assert_eq!(display_year_series("Show (2010)", None), "2010");
    assert_eq!(display_year_series("Show (2010)", Some("1999-01-01")), "1999");
    assert_eq!(display_year_series("Show", Some("  ")), "Unknown");
    assert_eq!(display_year_series("Show", Some("soon")), "Unknown");
}

#[test]
fn show_folder_exact() {
    let listing = SeriesListing {
        name: " Lost ".into(),
        series_id: 9,
        tmdb: None,
        release_date: Some("2004-09-22".into()),
        release_date_alt: None,
    };
    assert_eq!(show_base_name_listing(&listing), "Lost (2004) {seriesid-9}");
    let info = SeriesInfoMeta {
        name: None,
        tmdb: Some(number(4607)),
        category_id: None,
        category_ids: vec![],
        release_date: None,
        release_date_alt: Some("2004".into()),
    };
    assert_eq!(
        show_base_name_info(&info, 9),
        "Untitled (2004) {tmdb-4607} [tmdbid-4607] {seriesid-9}"
    );
}

#[test]
fn tagged_ids() {
    assert_eq!(parse_seriesid("Show (2000) {seriesid-123}"), Some(123));
    assert_eq!(parse_seriesid("Show {seriesid-12a}"), None);
    assert_eq!(parse_seriesid("Show {seriesid-12"), None);
    assert_eq!(parse_seriesid("Show"), None);
    assert_eq!(parse_epid("x {epid--5}"), Some(-5));
    assert_eq!(parse_vodid("{vodid-1} {vodid-2}"), Some(1));
}

#[test]
fn season_dirs() {
    assert_eq!(season_dir_name(1), "Season 01");
    assert_eq!(season_dir_name(12), "Season 12");
    assert_eq!(season_dir_name(0), "Season 00");
    assert_eq!(season_dir_name(-2), "Season -2");
    assert_eq!(parse_season_dir("Season 01"), Some(1));
    assert_eq!(parse_season_dir(" Season  7 "), Some(7));
    assert_eq!(parse_season_dir("season 1"), None);
    assert_eq!(parse_season_dir("Season x"), None);
    for n in [-3, 0, 1, 9, 10, 99, 12345] {
        assert_eq!(parse_season_dir(&season_dir_name(n)), Some(n));
    }
}

#[test]
fn episode_fields() {
    let ep = SeriesEpisode {
        id: Some(number(77)),
        episode_num: Some(text("3")),
        title: None,
        container_extension: None,
        season: None,
    };
    assert_eq!(episode_stream_id(&ep), Some(77));
    assert_eq!(episode_number(&ep), 3);
    assert_eq!(episode_season_number(&ep), 1);
    assert_eq!(episode_filename(&ep).as_deref(), Some("Episode - S01E03 {epid-77}.mp4"));
    let titled = episode("5", 1, 2, "Pilot {epid-5} extra", "mkv");
    assert_eq!(episode_filename(&titled).as_deref(), Some("Pilot - S02E01 {epid-5}.mkv"));
    let late = episode("9", 12, 10, "Big", "mp4");
    assert_eq!(episode_filename(&late).as_deref(), Some("Big - S10E12 {epid-9}.mp4"));
    let no_id = SeriesEpisode {
        id: Some(text("abc")),
        episode_num: None,
        title: None,
        container_extension: None,
        season: None,
    };
    assert_eq!(episode_filename(&no_id), None);
}

fn detail() -> SeriesDetail {
    SeriesDetail {
        seasons: vec![],
        info: None,
        episodes: vec![
            (
                "2".to_string(),
                vec![episode("21", 2, 2, "B", "mkv"), episode("20", 1, 2, "A", "mkv")],
            ),
            (
                "1".to_string(),
                vec![
                    episode("12", 2, 1, "Two", "mp4"),
                    episode("11", 1, 1, "One", "mp4"),
                    episode("13", 2, 1, "Two again", "mp4"),
                ],
            ),
            ("x".to_string(), vec![episode("40", 1, 4, "Four", "mp4")]),
        ],
    }
}

#[test]
fn season_lookups() {
    let d = detail();
    assert_eq!(season_numbers_for_series(&d), vec![1, 2, 4]);
    let s1: Vec<i64> = episodes_in_season(&d, 1)
        .into_iter()
        .map(|e| episode_stream_id(e).unwrap())
        .collect();
    assert_eq!(s1, vec![11, 12, 13]);
    assert!(episodes_in_season(&d, 3).is_empty());
    assert_eq!(find_episode_by_stream_id(&d, 13).and_then(episode_stream_id), Some(13));
    assert!(find_episode_by_stream_id(&d, 99).is_none());
}

#[test]
fn video_ext_split() {
    assert_eq!(split_video_ext("Ep {epid-1}.MKV"), Some(("Ep {epid-1}", "mkv")));
    assert_eq!(split_video_ext("a.m3u8"), Some(("a", "m3u8")));
    assert_eq!(split_video_ext(".mp4"), None);
    assert_eq!(split_video_ext("movie.srt"), None);
}

#[test]
fn episode_names_keep_a_marker_in_the_title() {
    let ep = SeriesEpisode {
        id: Some(text("1380404")),
        episode_num: Some(number(1)),
        title: Some("The Office (2005) - S01E01 - Pilot".into()),
        container_extension: Some("mkv".into()),
        season: Some(number(1)),
    };
    let file = episode_filename(&ep).unwrap();
    assert_eq!(file, "The Office (2005) - S01E01 - Pilot {epid-1380404}.mkv");
    assert_eq!(parse_epid(file.strip_suffix(".mkv").unwrap()), Some(1380404));
    let lower = episode("4", 3, 2, "show s02e03 recap", "mp4");
    assert_eq!(episode_filename(&lower).as_deref(), Some("show s02e03 recap {epid-4}.mp4"));
    let short = episode("4", 3, 2, "Season S2E3", "mp4");
    assert_eq!(episode_filename(&short).as_deref(), Some("Season S2E3 - S02E03 {epid-4}.mp4"));
}
