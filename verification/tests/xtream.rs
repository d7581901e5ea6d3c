use mirage::error::AppError;
use mirage::xtream::client::{auth_failure, json_parse_error, read_result, XtreamClient};
use mirage::xtream::url::{
    api_url_fits_exec, build_api_url_with_params, build_movie_stream_url, build_series_stream_url,
    MAX_API_URL_CHARS,
};
use mirage::xtream::XtreamError;

fn text(e: &XtreamError) -> String {
    e.message()
}

#[test]
fn stream_urls() {
    assert_eq!(
        build_movie_stream_url("http://h:8080//", "u", "p", 42, "mkv"),
        "http://h:8080/movie/u/p/42.mkv"
    );
    assert_eq!(
        build_series_stream_url("http://h", "u", "p", -7, "mp4"),
        "http://h/series/u/p/-7.mp4"
    );
}

#[test]
fn api_urls() {
    assert_eq!(
        build_api_url_with_params("http://h/", "u s", "p&w", "get_vod_streams", &[("category_id", "7")])
            .unwrap(),
        "http://h/player_api.php?username=u+s&password=p%26w&action=get_vod_streams&category_id=7"
    );
    assert_eq!(
        build_api_url_with_params("HTTP://Example.COM", "u", "p", "a", &[]).unwrap(),
        "http://example.com/player_api.php?username=u&password=p&action=a"
    );
    assert!(build_api_url_with_params("not a url", "u", "p", "a", &[]).is_err());
    assert_eq!(
        build_api_url_with_params("http://h/x?token=1#frag", "u", "p", "a", &[]).unwrap(),
        "http://h/x?token=1&username=u&password=p&action=a#frag/player_api.php"
    );
}

#[test]
fn client_urls() {
    let c = XtreamClient::new("http://h".into(), "u".into(), "p".into());
    assert_eq!(
        c.vod_categories_url().unwrap(),
        "http://h/player_api.php?username=u&password=p&action=get_vod_categories"
    );
    assert_eq!(
        c.series_url("12").unwrap(),
        "http://h/player_api.php?username=u&password=p&action=get_series&category_id=12"
    );
    assert_eq!(
        c.series_info_url(-3).unwrap(),
        "http://h/player_api.php?username=u&password=p&action=get_series_info&series_id=-3"
    );
    assert_eq!(c.movie_stream_url(1, "ts"), "http://h/movie/u/p/1.ts");
    assert_eq!(c.series_stream_url(2, "mkv"), "http://h/series/u/p/2.mkv");
    let bad = XtreamClient::new("::".into(), "u".into(), "p".into());
    assert!(matches!(bad.vod_streams_url("1"), Err(XtreamError::Network(_))));
    assert!(matches!(bad.series_categories_url(), Err(XtreamError::Network(_))));
}

#[test]
fn response_classification() {
    assert_eq!(
        text(&auth_failure(401, "401 Unauthorized").unwrap()),
        "auth: server returned 401 Unauthorized"
    );
    assert!(matches!(auth_failure(403, "403 Forbidden"), Some(XtreamError::Auth(_))));
    assert!(auth_failure(500, "500").is_none());
    let e = read_result(500, "500 Internal Server Error", Ok("oops".into())).unwrap_err();
    assert_eq!(text(&e), "unexpected response: HTTP 500 Internal Server Error: oops");
    let e = read_result(404, "404 Not Found", Err("reset".into())).unwrap_err();
    assert_eq!(text(&e), "unexpected response: HTTP 404 Not Found: ");
    let e = read_result(200, "200 OK", Err("reset".into())).unwrap_err();
    assert_eq!(text(&e), "network: reset");
    let e = read_result(200, "200 OK", Ok(String::new())).unwrap_err();
    assert_eq!(text(&e), "unexpected response: empty response body");
    assert_eq!(read_result(204, "204 No Content", Ok("[]".into())).unwrap(), "[]");
    let e = json_parse_error("expected value", "<html>");
    assert_eq!(text(&e), "unexpected response: json parse error: expected value; body: <html>");
}

#[test]
fn app_errors() {
    let e = AppError::from_xtream(XtreamError::Network("down".into()));
    assert_eq!((e.status(), e.message()), (502, "network: down"));
    assert_eq!(AppError::not_found("x").status(), 404);
    assert_eq!(AppError::bad_request("x").status(), 400);
    assert_eq!(AppError::internal("x").status(), 500);
    assert_eq!(AppError::bad_gateway("y").message(), "y");
}

#[test]
fn query_appended_to_parsed_urls() {
    assert_eq!(
        build_api_url_with_params("http://h//", "a b", "c", "d", &[("k", "é")]).unwrap(),
        "http://h/player_api.php?username=a+b&password=c&action=d&k=%C3%A9"
    );
    assert_eq!(
        build_api_url_with_params("http://h/x?q=1#top", "u", "p", "x", &[]).unwrap(),
        "http://h/x?q=1&username=u&password=p&action=x#top/player_api.php"
    );
    assert!(build_api_url_with_params("no scheme", "u", "p", "x", &[]).is_err());
}

#[test]
fn api_url_size_limits() {
    assert!(api_url_fits_exec("http://h", "u", "p", "x", &[("k", "v")]));
    let long = "a".repeat(MAX_API_URL_CHARS);
    assert!(!api_url_fits_exec(&long, "u", "p", "x", &[]));
    assert!(!api_url_fits_exec("http://h", "u", "p", "x", &[("k", long.as_str())]));
    let c = XtreamClient::new("http://h".into(), "u".into(), "p".into());
    assert!(c.request_fits_exec(10));
    assert!(!c.request_fits_exec(MAX_API_URL_CHARS));
}
