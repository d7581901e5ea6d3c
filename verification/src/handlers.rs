//! What each route answers, computed from the catalogs and the series
//! details that the server holds: listing pages, and the provider URL a
//! video request is redirected to.

use vstd::prelude::*;

use crate::catalog::{
    MovieCatalogCategory, MovieCatalogSnapshot, MovieCatalogStream, TvCatalogSeries,
    TvCatalogSnapshot,
};
use crate::error::{
    error_view, AppError, STATUS_BAD_REQUEST, STATUS_NOT_FOUND, STATUS_INTERNAL_SERVER_ERROR,
    STATUS_SERVICE_UNAVAILABLE,
};
use crate::html::{directory_page, pair_view, pairs_view, spec_directory_page};
use crate::naming::{
    deref_all, episode_extension, episode_filename, episode_season_number, episodes_in_season,
    find_episode_by_stream_id, has_season, parse_epid, parse_season_dir, parse_seriesid,
    season_dir_name, season_numbers_for_series, spec_episode_filename,
    spec_episode_season_number, spec_episodes_in_season, spec_extension, spec_find_episode,
    spec_episode_stream_id, spec_parse_season_dir, spec_parse_tagged_id, spec_season_dir_name,
    spec_split_video_ext,
    split_video_ext, strictly_increasing,
};
use crate::path_seg::{encode_path_segment, spec_encode_path_segment};
use crate::text::{chars_of, trim, trim_bounds};
use crate::xtream::client::XtreamClient;
use crate::xtream::types::{SeriesDetail, SeriesEpisode};
use crate::xtream::url::spec_stream_url;

verus! {

pub const STATUS_OK: u16 = 200;

/// The link to a sub-directory: the encoded name and a `/`.
pub open spec fn dir_href(name: Seq<char>) -> Seq<char> {
    spec_encode_path_segment(name) + "/"@
}

fn dir_entry(name: &str, label: String) -> (e: (String, String))
    ensures
        pair_view(e) == (dir_href(name@), label@),
{
    let mut href = encode_path_segment(name);
    href.append("/");
    (href, label)
}

fn empty_page(title: &str) -> (page: String)
    ensures
        page@ == spec_directory_page(title@, seq![]),
{
    let entries: Vec<(String, String)> = Vec::new();
    let page = directory_page(title, entries.as_slice());
    assert(pairs_view(entries@) =~= seq![]);
    page
}

// ------------------------------------------------------------------
// Home
// ------------------------------------------------------------------

pub open spec fn index_title(test_mode: bool) -> Seq<char> {
    if test_mode {
        "Mirage (test mode)"@
    } else {
        "Mirage"@
    }
}

pub open spec fn index_entries(test_mode: bool) -> Seq<(Seq<char>, Seq<char>)> {
    if test_mode {
        seq![("movies/"@, "Movies (limited catalog)"@), ("tv/"@, "TV Shows (limited catalog)"@)]
    } else {
        seq![("movies/"@, "Movies"@), ("tv/"@, "TV Shows"@)]
    }
}

/// The home page: links to the movies and the TV shows; test mode says so.
pub fn index(test_mode: bool) -> (page: String)
    ensures
        page@ == spec_directory_page(index_title(test_mode), index_entries(test_mode)),
{
    let title = if test_mode {
        "Mirage (test mode)"
    } else {
        "Mirage"
    };
    let mut entries: Vec<(String, String)> = Vec::new();
    if test_mode {
        entries.push((String::from_str("movies/"), String::from_str("Movies (limited catalog)")));
        entries.push((String::from_str("tv/"), String::from_str("TV Shows (limited catalog)")));
    } else {
        entries.push((String::from_str("movies/"), String::from_str("Movies")));
        entries.push((String::from_str("tv/"), String::from_str("TV Shows")));
    }
    assert(pairs_view(entries@) =~= index_entries(test_mode));
    directory_page(title, entries.as_slice())
}

// ------------------------------------------------------------------
// TV shows
// ------------------------------------------------------------------

pub open spec fn tv_entries(series: Seq<TvCatalogSeries>) -> Seq<(Seq<char>, Seq<char>)> {
    series.map_values(|r: TvCatalogSeries| (dir_href(r.folder_name@), r.list_label@))
}

/// `/tv/`: every show of the catalog; `503` until a catalog is loaded, so
/// that scanners do not take an empty list for deleted shows.
pub fn list_all_tv_series(catalog: Option<&TvCatalogSnapshot>) -> (r: (u16, String))
    ensures
        match catalog {
            None => r.0 == STATUS_SERVICE_UNAVAILABLE && r.1@ == spec_directory_page(
                "TV Shows — catalog not ready yet"@,
                seq![],
            ),
            Some(c) => r.0 == STATUS_OK && r.1@ == spec_directory_page(
                "TV Shows"@,
                tv_entries(c.series@),
            ),
        },
{
    let c = match catalog {
        None => return (STATUS_SERVICE_UNAVAILABLE, empty_page("TV Shows — catalog not ready yet")),
        Some(c) => c,
    };
    let mut entries: Vec<(String, String)> = Vec::new();
    let mut i: usize = 0;
    while i < c.series.len()
        invariant
            i <= c.series@.len(),
            pairs_view(entries@) =~= tv_entries(c.series@.take(i as int)),
        decreases c.series@.len() - i,
    {
        let row = &c.series[i];
        let e = dir_entry(row.folder_name.as_str(), row.list_label.clone());
        let ghost before = entries@;
        entries.push(e);
        assert(pairs_view(entries@) =~= pairs_view(before).push(pair_view(e)));
        assert(c.series@.take(i + 1) =~= c.series@.take(i as int).push(*row));
        assert(tv_entries(c.series@.take(i + 1)) =~= tv_entries(c.series@.take(i as int)).push(
            (dir_href(row.folder_name@), row.list_label@),
        ));
        i = i + 1;
    }
    assert(c.series@.take(c.series@.len() as int) =~= c.series@);
    (STATUS_OK, directory_page("TV Shows", entries.as_slice()))
}

// ------------------------------------------------------------------
// Movies
// ------------------------------------------------------------------

/// A category is listed by its name, or by its id when the name is blank.
pub open spec fn category_label(c: MovieCatalogCategory) -> Seq<char> {
    if trim(c.category_name@).len() == 0 {
        c.category_id@
    } else {
        c.category_name@
    }
}

pub open spec fn category_entries(cats: Seq<MovieCatalogCategory>) -> Seq<(Seq<char>, Seq<char>)> {
    cats.map_values(|c: MovieCatalogCategory| (dir_href(c.category_id@), category_label(c)))
}

/// `/movies/`: the categories of the movie catalog; `503` until one is loaded.
pub fn list_vod_categories(catalog: Option<&MovieCatalogSnapshot>) -> (r: (u16, String))
    ensures
        match catalog {
            None => r.0 == STATUS_SERVICE_UNAVAILABLE && r.1@ == spec_directory_page(
                "Movies — catalog not ready yet"@,
                seq![],
            ),
            Some(c) => r.0 == STATUS_OK && r.1@ == spec_directory_page(
                "Movies — categories"@,
                category_entries(c.categories@),
            ),
        },
{
    let c = match catalog {
        None => return (STATUS_SERVICE_UNAVAILABLE, empty_page("Movies — catalog not ready yet")),
        Some(c) => c,
    };
    let mut entries: Vec<(String, String)> = Vec::new();
    let mut i: usize = 0;
    while i < c.categories.len()
        invariant
            i <= c.categories@.len(),
            pairs_view(entries@) =~= category_entries(c.categories@.take(i as int)),
        decreases c.categories@.len() - i,
    {
        let cat = &c.categories[i];
        let name = chars_of(cat.category_name.as_str());
        let (b, e) = trim_bounds(&name);
        let label = if b == e {
            cat.category_id.clone()
        } else {
            cat.category_name.clone()
        };
        let entry = dir_entry(cat.category_id.as_str(), label);
        let ghost before = entries@;
        entries.push(entry);
        assert(pairs_view(entries@) =~= pairs_view(before).push(pair_view(entry)));
        assert(c.categories@.take(i + 1) =~= c.categories@.take(i as int).push(*cat));
        assert(category_entries(c.categories@.take(i + 1)) =~= category_entries(
            c.categories@.take(i as int),
        ).push((dir_href(cat.category_id@), category_label(*cat))));
        i = i + 1;
    }
    assert(c.categories@.take(c.categories@.len() as int) =~= c.categories@);
    (STATUS_OK, directory_page("Movies — categories", entries.as_slice()))
}

/// Index of the first category with id `id`, from `i` on.
pub open spec fn category_index(cats: Seq<MovieCatalogCategory>, id: Seq<char>, i: nat) -> Option<
    nat,
>
    decreases cats.len() + 1 - i,
{
    if i >= cats.len() {
        None
    } else if cats[i as int].category_id@ == id {
        Some(i)
    } else {
        category_index(cats, id, i + 1)
    }
}

/// Index of the first movie with folder name `dir`, from `i` on.
pub open spec fn movie_index(streams: Seq<MovieCatalogStream>, dir: Seq<char>, i: nat) -> Option<
    nat,
>
    decreases streams.len() + 1 - i,
{
    if i >= streams.len() {
        None
    } else if streams[i as int].folder_name@ == dir {
        Some(i)
    } else {
        movie_index(streams, dir, i + 1)
    }
}

/// The first category with id `category_id`.
pub fn find_category(catalog: &MovieCatalogSnapshot, category_id: &str) -> (r: Option<usize>)
    ensures
        match r {
            Some(i) => category_index(catalog.categories@, category_id@, 0) == Some(i as nat) && i
                < catalog.categories@.len(),
            None => category_index(catalog.categories@, category_id@, 0) is None,
        },
{
    let id = String::from_str(category_id);
    let mut i: usize = 0;
    while i < catalog.categories.len()
        invariant
            i <= catalog.categories@.len(),
            id@ == category_id@,
            category_index(catalog.categories@, category_id@, 0) == category_index(
                catalog.categories@,
                category_id@,
                i as nat,
            ),
        decreases catalog.categories@.len() - i,
    {
        if catalog.categories[i].category_id == id {
            return Some(i);
        }
        i = i + 1;
    }
    None
}

/// The first movie of `category` with folder name `movie_dir`.
pub fn find_movie(category: &MovieCatalogCategory, movie_dir: &str) -> (r: Option<usize>)
    ensures
        match r {
            Some(i) => movie_index(category.streams@, movie_dir@, 0) == Some(i as nat) && i
                < category.streams@.len(),
            None => movie_index(category.streams@, movie_dir@, 0) is None,
        },
{
    let dir = String::from_str(movie_dir);
    let mut i: usize = 0;
    while i < category.streams.len()
        invariant
            i <= category.streams@.len(),
            dir@ == movie_dir@,
            movie_index(category.streams@, movie_dir@, 0) == movie_index(
                category.streams@,
                movie_dir@,
                i as nat,
            ),
        decreases category.streams@.len() - i,
    {
        if category.streams[i].folder_name == dir {
            return Some(i);
        }
        i = i + 1;
    }
    None
}

pub open spec fn movie_entries(streams: Seq<MovieCatalogStream>) -> Seq<(Seq<char>, Seq<char>)> {
    streams.map_values(|m: MovieCatalogStream| (dir_href(m.folder_name@), m.list_label@))
}

/// `/movies/{category}/`: the movies of a category.
pub open spec fn spec_list_movies_in_category(catalog: Option<&MovieCatalogSnapshot>, category_id: Seq<char>) -> (
    u16,
    Seq<char>,
) {
    match catalog {
        None => (
            STATUS_SERVICE_UNAVAILABLE,
            spec_directory_page("Movies — catalog not ready yet"@, seq![]),
        ),
        Some(c) => match category_index(c.categories@, category_id, 0) {
            None => (
                STATUS_NOT_FOUND,
                spec_directory_page("Movies — category not found"@, seq![]),
            ),
            Some(k) => (
                STATUS_OK,
                spec_directory_page(
                    "Movies — category "@ + c.categories@[k as int].category_name@,
                    movie_entries(c.categories@[k as int].streams@),
                ),
            ),
        },
    }
}

/// The page of `/movies/{category}/`, with its status.
pub fn list_movies_in_category(catalog: Option<&MovieCatalogSnapshot>, category_id: &str) -> (r: (
    u16,
    String,
))
    ensures
        (r.0, r.1@) == spec_list_movies_in_category(catalog, category_id@),
{
    let c = match catalog {
        None => return (STATUS_SERVICE_UNAVAILABLE, empty_page("Movies — catalog not ready yet")),
        Some(c) => c,
    };
    let k = match find_category(c, category_id) {
        None => return (STATUS_NOT_FOUND, empty_page("Movies — category not found")),
        Some(k) => k,
    };
    let cat = &c.categories[k];
    let mut entries: Vec<(String, String)> = Vec::new();
    let mut i: usize = 0;
    while i < cat.streams.len()
        invariant
            i <= cat.streams@.len(),
            pairs_view(entries@) =~= movie_entries(cat.streams@.take(i as int)),
        decreases cat.streams@.len() - i,
    {
        let m = &cat.streams[i];
        let e = dir_entry(m.folder_name.as_str(), m.list_label.clone());
        let ghost before = entries@;
        entries.push(e);
        assert(pairs_view(entries@) =~= pairs_view(before).push(pair_view(e)));
        assert(cat.streams@.take(i + 1) =~= cat.streams@.take(i as int).push(*m));
        assert(movie_entries(cat.streams@.take(i + 1)) =~= movie_entries(
            cat.streams@.take(i as int),
        ).push((dir_href(m.folder_name@), m.list_label@)));
        i = i + 1;
    }
    assert(cat.streams@.take(cat.streams@.len() as int) =~= cat.streams@);
    let mut title = String::from_str("Movies — category ");
    title.append(cat.category_name.as_str());
    (STATUS_OK, directory_page(title.as_str(), entries.as_slice()))
}

/// The file name of a movie: its folder name and extension.
pub open spec fn movie_file_name(m: MovieCatalogStream) -> Seq<char> {
    m.folder_name@ + "."@ + m.extension@
}

fn movie_file(m: &MovieCatalogStream) -> (f: String)
    ensures
        f@ == movie_file_name(*m),
{
    let mut f = m.folder_name.clone();
    f.append(".");
    f.append(m.extension.as_str());
    f
}

/// The movie at `category_id` / `movie_dir`, if the catalog has it.
pub open spec fn catalog_movie(c: MovieCatalogSnapshot, category_id: Seq<char>, movie_dir: Seq<char>) -> Option<
    MovieCatalogStream,
> {
    match category_index(c.categories@, category_id, 0) {
        None => None,
        Some(k) => match movie_index(c.categories@[k as int].streams@, movie_dir, 0) {
            None => None,
            Some(j) => Some(c.categories@[k as int].streams@[j as int]),
        },
    }
}

fn lookup_movie<'a>(c: &'a MovieCatalogSnapshot, category_id: &str, movie_dir: &str) -> (r: Option<
    &'a MovieCatalogStream,
>)
    ensures
        match r {
            Some(m) => catalog_movie(*c, category_id@, movie_dir@) == Some(*m),
            None => catalog_movie(*c, category_id@, movie_dir@) is None,
        },
{
    let k = match find_category(c, category_id) {
        None => return None,
        Some(k) => k,
    };
    let cat = &c.categories[k];
    match find_movie(cat, movie_dir) {
        None => None,
        Some(j) => Some(&cat.streams[j]),
    }
}

/// `/movies/{category}/{movie}/`: the movie's one video file.  An unknown
/// category or movie is a `404` with an empty body.
pub open spec fn spec_list_movie_folder(
    catalog: Option<&MovieCatalogSnapshot>,
    category_id: Seq<char>,
    movie_dir: Seq<char>,
) -> (u16, Seq<char>) {
    match catalog {
        None => (
            STATUS_SERVICE_UNAVAILABLE,
            spec_directory_page("Movies — catalog not ready yet"@, seq![]),
        ),
        Some(c) => match catalog_movie(*c, category_id, movie_dir) {
            None => (STATUS_NOT_FOUND, Seq::empty()),
            Some(m) => (
                STATUS_OK,
                spec_directory_page(
                    m.folder_name@ + " /"@,
                    seq![(spec_encode_path_segment(movie_file_name(m)), movie_file_name(m))],
                ),
            ),
        },
    }
}

/// The page of `/movies/{category}/{movie}/`, with its status.
pub fn list_movie_folder(catalog: Option<&MovieCatalogSnapshot>, category_id: &str, movie_dir: &str) -> (r: (
    u16,
    String,
))
    ensures
        (r.0, r.1@) == spec_list_movie_folder(catalog, category_id@, movie_dir@),
{
    let c = match catalog {
        None => return (STATUS_SERVICE_UNAVAILABLE, empty_page("Movies — catalog not ready yet")),
        Some(c) => c,
    };
    let m = match lookup_movie(c, category_id, movie_dir) {
        None => return (STATUS_NOT_FOUND, String::new()),
        Some(m) => m,
    };
    let vf = movie_file(m);
    let href = encode_path_segment(vf.as_str());
    let mut entries: Vec<(String, String)> = Vec::new();
    entries.push((href, vf));
    let mut title = m.folder_name.clone();
    title.append(" /");
    assert(pairs_view(entries@) =~= seq![
        (spec_encode_path_segment(movie_file_name(*m)), movie_file_name(*m)),
    ]);
    (STATUS_OK, directory_page(title.as_str(), entries.as_slice()))
}

/// Where a movie file request is redirected: the provider URL of the movie
/// whose folder and file name match the catalog.
pub open spec fn spec_resolve_movie_url(
    catalog: Option<&MovieCatalogSnapshot>,
    client: XtreamClient,
    category_id: Seq<char>,
    movie_dir: Seq<char>,
    file: Seq<char>,
) -> Result<Seq<char>, (u16, Seq<char>)> {
    match catalog {
        None => Err((STATUS_INTERNAL_SERVER_ERROR, "catalog not ready yet"@)),
        Some(c) => match category_index(c.categories@, category_id, 0) {
            None => Err((STATUS_NOT_FOUND, "category not found"@)),
            Some(k) => match movie_index(c.categories@[k as int].streams@, movie_dir, 0) {
                None => Err((STATUS_NOT_FOUND, "movie folder not found"@)),
                Some(j) => {
                    let m = c.categories@[k as int].streams@[j as int];
                    if file != movie_file_name(m) {
                        Err((STATUS_NOT_FOUND, "filename does not match expected video name"@))
                    } else {
                        Ok(
                            spec_stream_url(
                                client.base_url@,
                                "movie"@,
                                client.username@,
                                client.password@,
                                m.stream_id,
                                m.extension@,
                            ),
                        )
                    }
                },
            },
        },
    }
}

pub open spec fn url_result_view(r: Result<String, AppError>) -> Result<Seq<char>, (u16, Seq<char>)> {
    match r {
        Ok(u) => Ok(u@),
        Err(e) => Err(error_view(e)),
    }
}

/// The provider URL that a movie file request is redirected to.
pub fn resolve_movie_url(
    catalog: Option<&MovieCatalogSnapshot>,
    client: &XtreamClient,
    category_id: &str,
    movie_dir: &str,
    file: &str,
) -> (r: Result<String, AppError>)
    ensures
        url_result_view(r) == spec_resolve_movie_url(catalog, *client, category_id@, movie_dir@, file@),
{
    let c = match catalog {
        None => return Err(AppError::internal("catalog not ready yet")),
        Some(c) => c,
    };
    let k = match find_category(c, category_id) {
        None => return Err(AppError::not_found("category not found")),
        Some(k) => k,
    };
    let cat = &c.categories[k];
    let j = match find_movie(cat, movie_dir) {
        None => return Err(AppError::not_found("movie folder not found")),
        Some(j) => j,
    };
    let m = &cat.streams[j];
    let expected = movie_file(m);
    let f = String::from_str(file);
    if f != expected {
        return Err(AppError::not_found("filename does not match expected video name"));
    }
    Ok(client.movie_stream_url(m.stream_id, m.extension.as_str()))
}

// ------------------------------------------------------------------
// Seasons and episodes
// ------------------------------------------------------------------

/// The series id of a show folder (`{seriesid-N}`).
pub fn show_series_id(show_dir: &str) -> (r: Result<i64, AppError>)
    ensures
        match r {
            Ok(id) => spec_parse_tagged_id(show_dir@, "{seriesid-"@) == Some(id),
            Err(e) => spec_parse_tagged_id(show_dir@, "{seriesid-"@) is None && error_view(e) == (
                STATUS_NOT_FOUND,
                "show folder must contain {seriesid-<id>}"@,
            ),
        },
{
    match parse_seriesid(show_dir) {
        Some(id) => Ok(id),
        None => Err(AppError::not_found("show folder must contain {seriesid-<id>}")),
    }
}

/// The season number of a season folder (`Season 01`).
pub fn season_number(season_dir: &str) -> (r: Result<i32, AppError>)
    ensures
        match r {
            Ok(n) => spec_parse_season_dir(season_dir@) == Some(n),
            Err(e) => spec_parse_season_dir(season_dir@) is None && error_view(e) == (
                STATUS_NOT_FOUND,
                "season folder must be like Season 01"@,
            ),
        },
{
    match parse_season_dir(season_dir) {
        Some(n) => Ok(n),
        None => Err(AppError::not_found("season folder must be like Season 01")),
    }
}

pub open spec fn season_entries(ns: Seq<i32>) -> Seq<(Seq<char>, Seq<char>)> {
    ns.map_values(|n: i32| (dir_href(spec_season_dir_name(n)), spec_season_dir_name(n)))
}

/// The season numbers of a series: distinct, ascending, and exactly those
/// that the series has.
pub open spec fn season_list(d: SeriesDetail, ns: Seq<i32>) -> bool {
    strictly_increasing(ns) && forall|n: i32| ns.contains(n) <==> has_season(d, n)
}

/// `/tv/{show}/`: the season folders of a series, once its detail is
/// fetched.  A series without info is not found.
pub fn list_seasons(show_dir: &str, detail: &SeriesDetail) -> (r: Result<String, AppError>)
    ensures
        match r {
            Ok(page) => detail.info is Some && exists|ns: Seq<i32>|
                season_list(*detail, ns) && page@ == spec_directory_page(
                    show_dir@ + " /"@,
                    season_entries(ns),
                ),
            Err(e) => detail.info is None && error_view(e) == (
                STATUS_NOT_FOUND,
                "series has no info"@,
            ),
        },
{
    if detail.info.is_none() {
        return Err(AppError::not_found("series has no info"));
    }
    let seasons = season_numbers_for_series(detail);
    let mut entries: Vec<(String, String)> = Vec::new();
    let mut i: usize = 0;
    while i < seasons.len()
        invariant
            i <= seasons@.len(),
            pairs_view(entries@) =~= season_entries(seasons@.take(i as int)),
        decreases seasons@.len() - i,
    {
        let name = season_dir_name(seasons[i]);
        let e = dir_entry(name.as_str(), name.clone());
        let ghost before = entries@;
        entries.push(e);
        assert(pairs_view(entries@) =~= pairs_view(before).push(pair_view(e)));
        assert(seasons@.take(i + 1) =~= seasons@.take(i as int).push(seasons@[i as int]));
        assert(season_entries(seasons@.take(i + 1)) =~= season_entries(seasons@.take(i as int)).push(
            (dir_href(spec_season_dir_name(seasons@[i as int])), spec_season_dir_name(seasons@[i as int])),
        ));
        i = i + 1;
    }
    assert(seasons@.take(seasons@.len() as int) =~= seasons@);
    let mut title = String::from_str(show_dir);
    title.append(" /");
    let page = directory_page(title.as_str(), entries.as_slice());
    assert(season_list(*detail, seasons@));
    Ok(page)
}

/// The file entries of episodes: each episode that has a file name, as
/// `(encoded name, name)`.
pub open spec fn episode_entries(eps: Seq<SeriesEpisode>) -> Seq<(Seq<char>, Seq<char>)>
    decreases eps.len(),
{
    if eps.len() == 0 {
        Seq::empty()
    } else {
        episode_entries(eps.drop_last()) + match spec_episode_filename(eps.last()) {
            Some(n) => seq![(spec_encode_path_segment(n), n)],
            None => Seq::empty(),
        }
    }
}

/// `/tv/{show}/{season}/`: the episode files of a season, once the series
/// detail is fetched.  A series without info is not found.
pub fn list_episodes_in_season(
    show_dir: &str,
    season_dir: &str,
    season: i32,
    detail: &SeriesDetail,
) -> (r: Result<String, AppError>)
    ensures
        match r {
            Ok(page) => detail.info is Some && page@ == spec_directory_page(
                show_dir@ + " / "@ + season_dir@ + " /"@,
                episode_entries(spec_episodes_in_season(*detail, season)),
            ),
            Err(e) => detail.info is None && error_view(e) == (
                STATUS_NOT_FOUND,
                "series has no info"@,
            ),
        },
{
    if detail.info.is_none() {
        return Err(AppError::not_found("series has no info"));
    }
    let eps = episodes_in_season(detail, season);
    let ghost all = deref_all(eps@);
    let mut entries: Vec<(String, String)> = Vec::new();
    let mut i: usize = 0;
    while i < eps.len()
        invariant
            i <= eps@.len(),
            all == deref_all(eps@),
            pairs_view(entries@) =~= episode_entries(all.take(i as int)),
        decreases eps@.len() - i,
    {
        let ep = eps[i];
        assert(all.take(i + 1).drop_last() =~= all.take(i as int));
        assert(all.take(i + 1).last() == *ep);
        match episode_filename(ep) {
            Some(name) => {
                let href = encode_path_segment(name.as_str());
                entries.push((href, name));
            },
            None => {},
        }
        i = i + 1;
    }
    assert(all.take(eps@.len() as int) =~= all);
    let mut title = String::from_str(show_dir);
    title.append(" / ");
    title.append(season_dir);
    title.append(" /");
    Ok(directory_page(title.as_str(), entries.as_slice()))
}

/// What the path of an episode file names.
#[derive(Clone, Copy, Debug)]
pub struct EpisodeRequest {
    pub series_id: i64,
    pub season: i32,
    pub stream_id: i64,
    /// The known video extension the file ends with.
    pub extension: &'static str,
}

/// What the path `/tv/{show}/{season}/{file}` names, checked in order: the
/// file's extension, its `{epid-N}`, the show's `{seriesid-N}`, the season.
pub open spec fn spec_episode_request(show_dir: Seq<char>, season_dir: Seq<char>, file: Seq<char>) -> Result<
    (i64, i32, i64, Seq<char>),
    (u16, Seq<char>),
> {
    match spec_split_video_ext(file) {
        None => Err((STATUS_BAD_REQUEST, "file must end with a known video extension"@)),
        Some((stem, ext)) => match spec_parse_tagged_id(stem, "{epid-"@) {
            None => Err((STATUS_BAD_REQUEST, "filename must contain {epid-<id>}"@)),
            Some(stream_id) => match spec_parse_tagged_id(show_dir, "{seriesid-"@) {
                None => Err((STATUS_NOT_FOUND, "show folder must contain {seriesid-<id>}"@)),
                Some(series_id) => match spec_parse_season_dir(season_dir) {
                    None => Err((STATUS_NOT_FOUND, "season folder must be like Season 01"@)),
                    Some(season) => Ok((series_id, season, stream_id, ext)),
                },
            },
        },
    }
}

pub open spec fn request_view(r: EpisodeRequest) -> (i64, i32, i64, Seq<char>) {
    (r.series_id, r.season, r.stream_id, r.extension@)
}

/// The ids, season and extension that an episode file path names.
pub fn episode_request(show_dir: &str, season_dir: &str, file: &str) -> (r: Result<
    EpisodeRequest,
    AppError,
>)
    ensures
        match r {
            Ok(q) => spec_episode_request(show_dir@, season_dir@, file@) == Ok::<
                (i64, i32, i64, Seq<char>),
                (u16, Seq<char>),
            >(request_view(q)),
            Err(e) => spec_episode_request(show_dir@, season_dir@, file@) == Err::<
                (i64, i32, i64, Seq<char>),
                (u16, Seq<char>),
            >(error_view(e)),
        },
{
    let (stem, extension) = match split_video_ext(file) {
        None => return Err(AppError::bad_request("file must end with a known video extension")),
        Some(p) => p,
    };
    let stream_id = match parse_epid(stem) {
        None => return Err(AppError::bad_request("filename must contain {epid-<id>}")),
        Some(id) => id,
    };
    let series_id = match parse_seriesid(show_dir) {
        None => return Err(AppError::not_found("show folder must contain {seriesid-<id>}")),
        Some(id) => id,
    };
    let season = match parse_season_dir(season_dir) {
        None => return Err(AppError::not_found("season folder must be like Season 01")),
        Some(n) => n,
    };
    Ok(EpisodeRequest { series_id, season, stream_id, extension })
}

/// Where an episode file request is redirected, once the series detail is
/// fetched: the provider URL of the episode, when it is in the series and
/// the season folder, and the file name and extension match it.
pub open spec fn spec_resolve_episode_url(
    client: XtreamClient,
    detail: SeriesDetail,
    req: (i64, i32, i64, Seq<char>),
    file: Seq<char>,
) -> Result<Seq<char>, (u16, Seq<char>)> {
    let (series_id, season, stream_id, ext) = req;
    if detail.info is None {
        Err((STATUS_NOT_FOUND, "series has no info"@))
    } else {
        match spec_find_episode(detail, stream_id) {
            None => Err((STATUS_NOT_FOUND, "episode not in series"@)),
            Some(ep) => if spec_episode_season_number(ep) != season {
                Err((STATUS_NOT_FOUND, "episode not in this season folder"@))
            } else {
                match spec_episode_filename(ep) {
                    None => Err((STATUS_NOT_FOUND, "episode has no playable id"@)),
                    Some(expected) => if file != expected {
                        Err((STATUS_NOT_FOUND, "filename does not match expected episode name"@))
                    } else if ext != spec_extension(ep.container_extension) {
                        Err((STATUS_BAD_REQUEST, "extension does not match stream metadata"@))
                    } else {
                        Ok(
                            spec_stream_url(
                                client.base_url@,
                                "series"@,
                                client.username@,
                                client.password@,
                                stream_id,
                                ext,
                            ),
                        )
                    },
                }
            },
        }
    }
}

/// The provider URL that an episode file request is redirected to.
pub fn resolve_episode_url(
    client: &XtreamClient,
    detail: &SeriesDetail,
    req: &EpisodeRequest,
    file: &str,
) -> (r: Result<String, AppError>)
    ensures
        url_result_view(r) == spec_resolve_episode_url(*client, *detail, request_view(*req), file@),
{
    if detail.info.is_none() {
        return Err(AppError::not_found("series has no info"));
    }
    let ep = match find_episode_by_stream_id(detail, req.stream_id) {
        None => return Err(AppError::not_found("episode not in series")),
        Some(ep) => ep,
    };
    if episode_season_number(ep) != req.season {
        return Err(AppError::not_found("episode not in this season folder"));
    }
    let expected = match episode_filename(ep) {
        None => return Err(AppError::not_found("episode has no playable id")),
        Some(n) => n,
    };
    let f = String::from_str(file);
    if f != expected {
        return Err(AppError::not_found("filename does not match expected episode name"));
    }
    let ext_upstream = episode_extension(ep);
    let ext = String::from_str(req.extension);
    if ext != ext_upstream {
        return Err(AppError::bad_request("extension does not match stream metadata"));
    }
    Ok(client.series_stream_url(req.stream_id, req.extension))
}

// ------------------------------------------------------------------
// Laws: what is listed can be fetched
// ------------------------------------------------------------------

/// Every movie file that a movie folder lists is redirected to its stream:
/// the file of the movie that the catalog finds at `category_id` /
/// `movie_dir` resolves to the provider URL of that movie.
pub proof fn law_listed_movie_file_resolves(
    catalog: MovieCatalogSnapshot,
    client: XtreamClient,
    category_id: Seq<char>,
    movie_dir: Seq<char>,
)
    requires
        catalog_movie(catalog, category_id, movie_dir) is Some,
    ensures
        ({
            let m = catalog_movie(catalog, category_id, movie_dir)->0;
            &&& spec_list_movie_folder(Some(&catalog), category_id, movie_dir) == (
                STATUS_OK,
                spec_directory_page(
                    m.folder_name@ + " /"@,
                    seq![(spec_encode_path_segment(movie_file_name(m)), movie_file_name(m))],
                ),
            )
            &&& spec_resolve_movie_url(
                Some(&catalog),
                client,
                category_id,
                movie_dir,
                movie_file_name(m),
            ) == Ok::<Seq<char>, (u16, Seq<char>)>(
                spec_stream_url(
                    client.base_url@,
                    "movie"@,
                    client.username@,
                    client.password@,
                    m.stream_id,
                    m.extension@,
                ),
            )
        }),
{
}

/// Every episode file that a season folder lists is redirected to its
/// stream, once its path is read back: an episode of the season that is
/// the first with its stream id, requested by its file name with its own
/// extension, resolves to the provider URL of that stream.
pub proof fn law_listed_episode_file_resolves(
    client: XtreamClient,
    detail: SeriesDetail,
    ep: SeriesEpisode,
    series_id: i64,
    season: i32,
)
    requires
        detail.info is Some,
        spec_episode_stream_id(ep) is Some,
        spec_find_episode(detail, spec_episode_stream_id(ep)->0) == Some(ep),
        spec_episode_season_number(ep) == season,
    ensures
        spec_resolve_episode_url(
            client,
            detail,
            (series_id, season, spec_episode_stream_id(ep)->0, spec_extension(ep.container_extension)),
            spec_episode_filename(ep)->0,
        ) == Ok::<Seq<char>, (u16, Seq<char>)>(
            spec_stream_url(
                client.base_url@,
                "series"@,
                client.username@,
                client.password@,
                spec_episode_stream_id(ep)->0,
                spec_extension(ep.container_extension),
            ),
        ),
{
}

/// What a request for the episode file `/tv/{show}/{season}/{file}` is
/// answered, given the detail of the series the show folder names: the
/// path read back, then the episode resolved.
pub open spec fn spec_episode_path_url(
    client: XtreamClient,
    detail: SeriesDetail,
    show_dir: Seq<char>,
    season_dir: Seq<char>,
    file: Seq<char>,
) -> Result<Seq<char>, (u16, Seq<char>)> {
    match spec_episode_request(show_dir, season_dir, file) {
        Err(e) => Err(e),
        Ok(req) => spec_resolve_episode_url(client, detail, req, file),
    }
}

/// An episode file path is redirected exactly when its name ends with a
/// known video extension and carries an `{epid-N}` tag, the show folder
/// carries a `{seriesid-}` tag, the season folder reads as a season, and the
/// series (which has info) has a first episode with id `N` in that season,
/// whose file name is the requested one and whose extension is the file's;
/// then it goes to the provider URL of stream `N` with that extension.
pub proof fn law_episode_path_resolves(
    client: XtreamClient,
    detail: SeriesDetail,
    show_dir: Seq<char>,
    season_dir: Seq<char>,
    file: Seq<char>,
)
    ensures
        spec_episode_path_url(client, detail, show_dir, season_dir, file) is Ok <==> {
            &&& spec_split_video_ext(file) matches Some((stem, ext))
            &&& spec_parse_tagged_id(stem, "{epid-"@) matches Some(id)
            &&& spec_parse_tagged_id(show_dir, "{seriesid-"@) is Some
            &&& spec_parse_season_dir(season_dir) matches Some(season)
            &&& detail.info is Some
            &&& spec_find_episode(detail, id) matches Some(ep)
            &&& spec_episode_season_number(ep) == season
            &&& spec_episode_filename(ep) == Some(file)
            &&& spec_extension(ep.container_extension) == ext
        },
        spec_episode_path_url(client, detail, show_dir, season_dir, file) matches Ok(url) ==> (
        spec_split_video_ext(file) matches Some((stem, ext)) && spec_parse_tagged_id(
            stem,
            "{epid-"@,
        ) matches Some(id) && url == spec_stream_url(
            client.base_url@,
            "series"@,
            client.username@,
            client.password@,
            id,
            ext,
        )),
{
}

} // verus!
