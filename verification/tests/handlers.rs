use mirage::catalog::{
    MovieCatalogCategory, MovieCatalogSnapshot, MovieCatalogStream, TvCatalogSeries,
    TvCatalogSnapshot,
};
use mirage::handlers::{
    episode_request, find_category, find_movie, index, list_all_tv_series, list_episodes_in_season,
    list_movie_folder, list_movies_in_category, list_seasons, list_vod_categories,
    resolve_episode_url, resolve_movie_url, season_number, show_series_id,
};
use mirage::html::directory_page;
use mirage::json::{JsonNumber, JsonValue};
use mirage::xtream::client::XtreamClient;
use mirage::xtream::types::{SeriesDetail, SeriesEpisode, SeriesInfoMeta};

fn client() -> XtreamClient {
    XtreamClient::new("http://panel.example/".into(), "user".into(), "pass".into())
}

fn entries(v: &[(&str, &str)]) -> Vec<(String, String)> {
    v.iter().map(|(a, b)| (a.to_string(), b.to_string())).collect()
}

fn movies() -> MovieCatalogSnapshot {
    MovieCatalogSnapshot::built_at(
        vec![
            MovieCatalogCategory {
                category_id: "10".into(),
                category_name: "Action & Adventure".into(),
                streams: vec![MovieCatalogStream {
                    stream_id: 42,
                    folder_name: "Heat (1995) {vodid-42}".into(),
                    list_label: "Heat".into(),
                    extension: "mkv".into(),
                }],
            },
            MovieCatalogCategory {
                category_id: "11".into(),
                category_name: "  ".into(),
                streams: vec![],
            },
        ],
        0,
    )
}

#[test]
fn home_page() {
    assert_eq!(
        index(false),
        directory_page("Mirage", &entries(&[("movies/", "Movies"), ("tv/", "TV Shows")]))
    );
    let page = index(true);
    assert!(page.contains("<title>Mirage (test mode)</title>"));
    assert!(page.contains("<li><a href=\"tv/\">TV Shows (limited catalog)</a></li>"));
}

#[test]
fn movie_pages() {
    let (status, page) = list_vod_categories(None);
    assert_eq!(status, 503);
    assert_eq!(page, directory_page("Movies — catalog not ready yet", &[]));

    let c = movies();
    let (status, page) = list_vod_categories(Some(&c));
    assert_eq!(status, 200);
    assert_eq!(
        page,
        directory_page(
            "Movies — categories",
            &entries(&[("10/", "Action & Adventure"), ("11/", "11")])
        )
    );
    assert!(page.contains("Action &amp; Adventure"));

    let (status, page) = list_movies_in_category(Some(&c), "10");
    assert_eq!(status, 200);
    assert_eq!(
        page,
        directory_page(
            "Movies — category Action & Adventure",
            &entries(&[("Heat%20%281995%29%20%7Bvodid%2D42%7D/", "Heat")])
        )
    );
    let (status, page) = list_movies_in_category(Some(&c), "99");
    assert_eq!(status, 404);
    assert_eq!(page, directory_page("Movies — category not found", &[]));

    let (status, page) = list_movie_folder(Some(&c), "10", "Heat (1995) {vodid-42}");
    assert_eq!(status, 200);
    assert_eq!(
        page,
        directory_page(
            "Heat (1995) {vodid-42} /",
            &entries(&[(
                "Heat%20%281995%29%20%7Bvodid%2D42%7D%2Emkv",
                "Heat (1995) {vodid-42}.mkv"
            )])
        )
    );
    assert_eq!(list_movie_folder(Some(&c), "10", "Nope"), (404, String::new()));
    assert_eq!(list_movie_folder(Some(&c), "12", "Nope"), (404, String::new()));
    assert_eq!(find_category(&c, "11"), Some(1));
    assert_eq!(find_movie(&c.categories[0], "Heat (1995) {vodid-42}"), Some(0));
}

#[test]
fn movie_redirects() {
    let c = movies();
    let cl = client();
    assert_eq!(
        resolve_movie_url(Some(&c), &cl, "10", "Heat (1995) {vodid-42}", "Heat (1995) {vodid-42}.mkv")
            .unwrap(),
        "http://panel.example/movie/user/pass/42.mkv"
    );
    let e = resolve_movie_url(None, &cl, "10", "x", "y").unwrap_err();
    assert_eq!((e.status(), e.message()), (500, "catalog not ready yet"));
    let e = resolve_movie_url(Some(&c), &cl, "1", "x", "y").unwrap_err();
    assert_eq!((e.status(), e.message()), (404, "category not found"));
    let e = resolve_movie_url(Some(&c), &cl, "10", "x", "y").unwrap_err();
    assert_eq!((e.status(), e.message()), (404, "movie folder not found"));
    let e = resolve_movie_url(Some(&c), &cl, "10", "Heat (1995) {vodid-42}", "Heat.mp4").unwrap_err();
    assert_eq!(
        (e.status(), e.message()),
        (404, "filename does not match expected video name")
    );
}

#[test]
fn tv_page() {
    let (status, _) = list_all_tv_series(None);
    assert_eq!(status, 503);
    let snap = TvCatalogSnapshot::built_at(
        vec![TvCatalogSeries {
            series_id: 1,
            folder_name: "A/B {seriesid-1}".into(),
            list_label: "A/B".into(),
        }],
        0,
    );
    let (status, page) = list_all_tv_series(Some(&snap));
    assert_eq!(status, 200);
    assert_eq!(
        page,
        directory_page("TV Shows", &entries(&[("A%2FB%20%7Bseriesid%2D1%7D/", "A/B")]))
    );
}

fn ep(id: &str, num: u64, season: u64, title: &str) -> SeriesEpisode {
    SeriesEpisode {
        id: Some(JsonValue::String(id.into())),
        episode_num: Some(JsonValue::Number(JsonNumber::PosInt(num))),
        title: Some(title.into()),
        container_extension: Some("mkv".into()),
        season: Some(JsonValue::Number(JsonNumber::PosInt(season))),
    }
}

fn detail() -> SeriesDetail {
    SeriesDetail {
        seasons: vec![],
        info: Some(SeriesInfoMeta {
            name: Some("Show".into()),
            tmdb: None,
            category_id: None,
            category_ids: vec![],
            release_date: None,
            release_date_alt: None,
        }),
        episodes: vec![(
            "1".into(),
            vec![ep("7", 2, 1, "Second"), ep("6", 1, 1, "First"), ep("9", 1, 2, "Later")],
        )],
    }
}

#[test]
fn season_and_episode_pages() {
    let d = detail();
    assert_eq!(show_series_id("Show (2000) {seriesid-5}").unwrap(), 5);
    let e = show_series_id("Show").unwrap_err();
    assert_eq!((e.status(), e.message()), (404, "show folder must contain {seriesid-<id>}"));
    assert_eq!(season_number("Season 02").unwrap(), 2);
    let e = season_number("Specials").unwrap_err();
    assert_eq!((e.status(), e.message()), (404, "season folder must be like Season 01"));

    let page = list_seasons("Show {seriesid-5}", &d).unwrap();
    assert_eq!(
        page,
        directory_page(
            "Show {seriesid-5} /",
            &entries(&[("Season%2001/", "Season 01"), ("Season%2002/", "Season 02")])
        )
    );
    let page = list_episodes_in_season("Show {seriesid-5}", "Season 01", 1, &d).unwrap();
    assert_eq!(
        page,
        directory_page(
            "Show {seriesid-5} / Season 01 /",
            &entries(&[
                ("First%20%2D%20S01E01%20%7Bepid%2D6%7D%2Emkv", "First - S01E01 {epid-6}.mkv"),
                ("Second%20%2D%20S01E02%20%7Bepid%2D7%7D%2Emkv", "Second - S01E02 {epid-7}.mkv"),
            ])
        )
    );
    let mut no_info = detail();
    no_info.info = None;
    let e = list_seasons("x", &no_info).unwrap_err();
    assert_eq!((e.status(), e.message()), (404, "series has no info"));
    assert!(list_episodes_in_season("x", "Season 01", 1, &no_info).is_err());
}

#[test]
fn episode_redirects() {
    let d = detail();
    let cl = client();
    let req = episode_request("Show {seriesid-5}", "Season 01", "First - S01E01 {epid-6}.mkv").unwrap();
    assert_eq!((req.series_id, req.season, req.stream_id, req.extension), (5, 1, 6, "mkv"));
    assert_eq!(
        resolve_episode_url(&cl, &d, &req, "First - S01E01 {epid-6}.mkv").unwrap(),
        "http://panel.example/series/user/pass/6.mkv"
    );

    let bad = |show: &str, season: &str, file: &str| {
        let e = episode_request(show, season, file).unwrap_err();
        (e.status(), e.message().to_string())
    };
    assert_eq!(
        bad("Show {seriesid-5}", "Season 01", "First.srt"),
        (400, "file must end with a known video extension".to_string())
    );
    assert_eq!(
        bad("Show {seriesid-5}", "Season 01", "First.mkv"),
        (400, "filename must contain {epid-<id>}".to_string())
    );
    assert_eq!(
        bad("Show", "Season 01", "First - S01E01 {epid-6}.mkv"),
        (404, "show folder must contain {seriesid-<id>}".to_string())
    );
    assert_eq!(
        bad("Show {seriesid-5}", "S1", "First - S01E01 {epid-6}.mkv"),
        (404, "season folder must be like Season 01".to_string())
    );

    let resolve = |season: &str, file: &str| {
        let req = episode_request("Show {seriesid-5}", season, file).unwrap();
        let e = resolve_episode_url(&cl, &d, &req, file).unwrap_err();
        (e.status(), e.message().to_string())
    };
    assert_eq!(resolve("Season 01", "X {epid-8}.mkv"), (404, "episode not in series".to_string()));
    assert_eq!(
        resolve("Season 02", "First - S01E01 {epid-6}.mkv"),
        (404, "episode not in this season folder".to_string())
    );
    assert_eq!(
        resolve("Season 01", "Wrong {epid-6}.mkv"),
        (404, "filename does not match expected episode name".to_string())
    );
    let req = episode_request("Show {seriesid-5}", "Season 01", "First - S01E01 {epid-6}.MKV").unwrap();
    let e = resolve_episode_url(&cl, &d, &req, "First - S01E01 {epid-6}.mkv");
    assert_eq!(e.unwrap(), "http://panel.example/series/user/pass/6.mkv");
    let req2 = episode_request("Show {seriesid-5}", "Season 01", "First - S01E01 {epid-6}.mp4").unwrap();
    let e = resolve_episode_url(&cl, &d, &req2, "First - S01E01 {epid-6}.mkv").unwrap_err();
    assert_eq!(
        (e.status(), e.message()),
        (400, "extension does not match stream metadata")
    );
    let mut no_info = detail();
    no_info.info = None;
    let e = resolve_episode_url(&cl, &no_info, &req, "First - S01E01 {epid-6}.mkv").unwrap_err();
    assert_eq!((e.status(), e.message()), (404, "series has no info"));
}
