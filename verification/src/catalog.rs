//! The TV and movie catalogs: snapshots of what the directory listings show,
//! built from the pages of the Xtream API.

use std::collections::HashSet;

use vstd::prelude::*;

use crate::limits::{cap, MirageLimits};
use crate::naming::{
    display_title, movie_base_name, opt_tmdb, release_date_sliceable, series_release_date,
    series_release_date_is_sliceable, show_base_name_listing, spec_display_title,
    spec_extension, spec_parse_tagged_id, spec_movie_base_name, spec_show_base_name_listing, trimmed, video_extension, vod_year_is_sliceable,
    vod_year_sliceable,
};
use crate::roundtrip::{
    law_movie_folder_names_its_stream, law_show_folder_names_its_series, lemma_show_folder_determines_id,
};
use crate::sorting::{
    by_name, distinct_by, insert_by_name, lemma_seq_lt_total, lemma_stable_sort_distinct,
    lemma_stable_sort_items, lemma_stable_sort_keeps, lemma_stable_sort_len,
    lemma_stable_sort_sorted,
    sorted_by_name, stable_sort,
};
use crate::text::{chars_of, find, seq_lt, trim};
use crate::xtream::types::{SeriesListing, VodCategory, VodStream};

verus! {

/// Version of the TV snapshot layout; bumped when it changes.
pub const TV_CATALOG_FORMAT_VERSION: u32 = 1;

/// Version of the movie snapshot layout; bumped when it changes.
pub const MOVIE_CATALOG_FORMAT_VERSION: u32 = 1;

/// Seconds since the Unix epoch by the system clock.
///
/// Calls `std::time::SystemTime::now().duration_since(UNIX_EPOCH)` and takes
/// the whole seconds, 0 when the clock is before the epoch.  Nothing is
/// stated of the result: it is the time.
#[verifier::external_body]
fn unix_now_secs() -> u64 {
    std::time::SystemTime::now().duration_since(std::time::UNIX_EPOCH).map(|d| d.as_secs()).unwrap_or(0)
}

// ------------------------------------------------------------------
// TV
// ------------------------------------------------------------------

/// One show of the TV listing.
#[derive(Clone, Debug)]
pub struct TvCatalogSeries {
    pub series_id: i64,
    pub folder_name: String,
    pub list_label: String,
}

#[derive(Clone, Debug)]
pub struct TvCatalogSnapshot {
    pub format_version: u32,
    pub built_at_unix_secs: u64,
    pub series: Vec<TvCatalogSeries>,
}

/// A TV row as plain values: id, folder name, label.
pub open spec fn tv_view() -> spec_fn(TvCatalogSeries) -> (i64, Seq<char>, Seq<char>) {
    |r: TvCatalogSeries| (r.series_id, r.folder_name@, r.list_label@)
}

/// The folder name of a TV row.
pub open spec fn tv_folder() -> spec_fn((i64, Seq<char>, Seq<char>)) -> Seq<char> {
    |v: (i64, Seq<char>, Seq<char>)| v.1
}

/// The row of a `get_series` listing: its show folder and its trimmed name.
pub open spec fn listing_row(l: SeriesListing) -> (i64, Seq<char>, Seq<char>) {
    (l.series_id, spec_show_base_name_listing(l), trim(l.name@))
}

/// The listings of all pages, in order.
pub open spec fn flat_pages(pages: Seq<Vec<SeriesListing>>) -> Seq<SeriesListing>
    decreases pages.len(),
{
    if pages.len() == 0 {
        Seq::empty()
    } else {
        flat_pages(pages.drop_last()) + pages.last()@
    }
}

/// Some listing of `s` has the series id `id`.
pub open spec fn id_seen(s: Seq<SeriesListing>, id: i64) -> bool {
    exists|k: int| 0 <= k < s.len() && s[k].series_id == id
}

/// The first listing of each series id, in order.
pub open spec fn first_by_series_id(s: Seq<SeriesListing>) -> Seq<SeriesListing>
    decreases s.len(),
{
    if s.len() == 0 {
        s
    } else if id_seen(s.drop_last(), s.last().series_id) {
        first_by_series_id(s.drop_last())
    } else {
        first_by_series_id(s.drop_last()).push(s.last())
    }
}

/// The listings that make the TV catalog: the pages merged, each series once
/// (its first listing), cut to `max_series_per_category` in test mode.
pub open spec fn selected_series(pages: Seq<Vec<SeriesListing>>, limits: MirageLimits) -> Seq<
    SeriesListing,
> {
    cap(first_by_series_id(flat_pages(pages)), limits.test_mode, limits.max_series_per_category)
}

/// The rows of the TV catalog, stably sorted by folder name.
pub open spec fn spec_tv_rows(pages: Seq<Vec<SeriesListing>>, limits: MirageLimits) -> Seq<
    (i64, Seq<char>, Seq<char>),
> {
    stable_sort(
        selected_series(pages, limits).map_values(|l: SeriesListing| listing_row(l)),
        by_name(tv_folder()),
    )
}

/// Every selected listing has a release date that the year parser can slice.
pub open spec fn tv_rows_buildable(pages: Seq<Vec<SeriesListing>>, limits: MirageLimits) -> bool {
    forall|k: int|
        0 <= k < selected_series(pages, limits).len() ==> #[trigger] release_date_sliceable(
            series_release_date(
                selected_series(pages, limits)[k].release_date,
                selected_series(pages, limits)[k].release_date_alt,
            ),
        )
}

pub open spec fn derefs(v: Seq<&SeriesListing>) -> Seq<SeriesListing> {
    v.map_values(|l: &SeriesListing| *l)
}

proof fn lemma_flat_pages_step(pages: Seq<Vec<SeriesListing>>, g: int)
    requires
        0 <= g < pages.len(),
    ensures
        flat_pages(pages.take(g + 1)) == flat_pages(pages.take(g)) + pages[g]@,
{
    assert(pages.take(g + 1).drop_last() =~= pages.take(g));
}

fn select_series<'a>(pages: &'a Vec<Vec<SeriesListing>>, limits: &MirageLimits) -> (r: Vec<
    &'a SeriesListing,
>)
    ensures
        derefs(r@) == selected_series(pages@, *limits),
{
    let mut seen: HashSet<i64> = HashSet::new();
    let mut merged: Vec<&SeriesListing> = Vec::new();
    let mut g: usize = 0;
    assert(pages@.take(0) =~= Seq::<Vec<SeriesListing>>::empty());
    while g < pages.len()
        invariant
            g <= pages@.len(),
            derefs(merged@) =~= first_by_series_id(flat_pages(pages@.take(g as int))),
            forall|id: i64| #[trigger]
                seen@.contains(id) <==> id_seen(flat_pages(pages@.take(g as int)), id),
        decreases pages@.len() - g,
    {
        let page = &pages[g];
        let ghost before = flat_pages(pages@.take(g as int));
        let mut j: usize = 0;
        assert(before + page@.take(0) =~= before);
        while j < page.len()
            invariant
                g < pages@.len(),
                *page == pages@[g as int],
                before == flat_pages(pages@.take(g as int)),
                j <= page@.len(),
                derefs(merged@) =~= first_by_series_id(before + page@.take(j as int)),
                forall|id: i64| #[trigger]
                    seen@.contains(id) <==> id_seen(before + page@.take(j as int), id),
            decreases page@.len() - j,
        {
            let l = &page[j];
            let ghost prefix = before + page@.take(j as int);
            let ghost next = before + page@.take(j + 1);
            assert(next.drop_last() =~= prefix);
            assert(next.last() == *l);
            let fresh = seen.insert(l.series_id);
            if fresh {
                merged.push(l);
                assert(derefs(merged@) =~= first_by_series_id(prefix).push(*l));
            }
            assert forall|id: i64| #[trigger] seen@.contains(id) <==> id_seen(next, id) by {
                if id_seen(next, id) && id != l.series_id {
                    let k = choose|k: int| 0 <= k < next.len() && next[k].series_id == id;
                    assert(k < prefix.len());
                    assert(prefix[k] == next[k]);
                }
                if id_seen(prefix, id) {
                    let k = choose|k: int| 0 <= k < prefix.len() && prefix[k].series_id == id;
                    assert(next[k] == prefix[k]);
                }
                if id == l.series_id {
                    assert(next[next.len() - 1].series_id == id);
                }
            }
            j = j + 1;
        }
        proof {
            lemma_flat_pages_step(pages@, g as int);
            assert(page@.take(page@.len() as int) =~= page@);
        }
        g = g + 1;
    }
    assert(pages@.take(pages@.len() as int) =~= pages@);
    limits.cap_to(&mut merged, limits.max_series_per_category);
    assert(derefs(merged@) =~= selected_series(pages@, *limits));
    merged
}

/// Whether `tv_rows_buildable` holds.
pub fn tv_rows_are_buildable(pages: &Vec<Vec<SeriesListing>>, limits: &MirageLimits) -> (b: bool)
    ensures
        b == tv_rows_buildable(pages@, *limits),
{
    let picked = select_series(pages, limits);
    let ghost sel = selected_series(pages@, *limits);
    let mut i: usize = 0;
    while i < picked.len()
        invariant
            i <= picked@.len(),
            derefs(picked@) == sel,
            sel == selected_series(pages@, *limits),
            forall|k: int|
                0 <= k < i ==> #[trigger] release_date_sliceable(
                    series_release_date(sel[k].release_date, sel[k].release_date_alt),
                ),
        decreases picked@.len() - i,
    {
        let l = picked[i];
        assert(sel[i as int] == *l);
        if !series_release_date_is_sliceable(&l.release_date, &l.release_date_alt) {
            return false;
        }
        i = i + 1;
    }
    true
}

/// The rows of the TV catalog from the `get_series` pages of every category:
/// each series once (its first listing), cut to `max_series_per_category` in
/// test mode, as show folder and trimmed name, stably sorted by folder name.
pub fn build_tv_rows(pages: &Vec<Vec<SeriesListing>>, limits: &MirageLimits) -> (rows: Vec<
    TvCatalogSeries,
>)
    requires
        tv_rows_buildable(pages@, *limits),
    ensures
        rows@.map_values(tv_view()) == spec_tv_rows(pages@, *limits),
{
    let picked = select_series(pages, limits);
    let ghost sel = selected_series(pages@, *limits);
    let ghost input = sel.map_values(|l: SeriesListing| listing_row(l));
    let mut out: Vec<TvCatalogSeries> = Vec::new();
    let mut names: Vec<Vec<char>> = Vec::new();
    let mut i: usize = 0;
    assert(input.take(0) =~= Seq::<(i64, Seq<char>, Seq<char>)>::empty());
    while i < picked.len()
        invariant
            i <= picked@.len(),
            derefs(picked@) == sel,
            sel == selected_series(pages@, *limits),
            input == sel.map_values(|l: SeriesListing| listing_row(l)),
            tv_rows_buildable(pages@, *limits),
            names@.len() == out@.len(),
            forall|k: int|
                0 <= k < out@.len() ==> #[trigger] names@[k]@ == tv_folder()(tv_view()(out@[k])),
            out@.map_values(tv_view()) =~= stable_sort(input.take(i as int), by_name(tv_folder())),
        decreases picked@.len() - i,
    {
        let l = picked[i];
        assert(sel[i as int] == *l);
        assert(release_date_sliceable(series_release_date(sel[i as int].release_date, sel[i as int].release_date_alt)));
        let folder = show_base_name_listing(l);
        let name = chars_of(folder.as_str());
        let row = TvCatalogSeries {
            series_id: l.series_id,
            folder_name: folder,
            list_label: trimmed(l.name.as_str()),
        };
        assert(tv_view()(row) == listing_row(*l));
        assert(input.take(i + 1).drop_last() =~= input.take(i as int));
        assert(input.take(i + 1).last() == tv_view()(row));
        insert_by_name::<TvCatalogSeries, (i64, Seq<char>, Seq<char>)>(
            &mut out,
            &mut names,
            row,
            name,
            Ghost(tv_view()),
            Ghost(tv_folder()),
        );
        i = i + 1;
    }
    assert(input.take(picked@.len() as int) =~= input);
    out
}

impl TvCatalogSnapshot {
    /// A snapshot of `series` stamped with the current time.
    pub fn new(series: Vec<TvCatalogSeries>) -> (s: Self)
        ensures
            s.format_version == TV_CATALOG_FORMAT_VERSION,
            s.series@ == series@,
    {
        Self::built_at(series, unix_now_secs())
    }

    /// A snapshot of `series` built at `built_at_unix_secs`.
    pub fn built_at(series: Vec<TvCatalogSeries>, built_at_unix_secs: u64) -> (s: Self)
        ensures
            s.format_version == TV_CATALOG_FORMAT_VERSION,
            s.built_at_unix_secs == built_at_unix_secs,
            s.series@ == series@,
    {
        TvCatalogSnapshot { format_version: TV_CATALOG_FORMAT_VERSION, built_at_unix_secs, series }
    }

    /// When the snapshot was built, in seconds since the Unix epoch.
    pub fn built_at_unix_secs(&self) -> (t: u64)
        ensures
            t == self.built_at_unix_secs,
    {
        self.built_at_unix_secs
    }
}

/// Whether a loaded TV snapshot has the current layout version.
pub fn tv_catalog_format_ok(snapshot: &TvCatalogSnapshot) -> (b: bool)
    ensures
        b == (snapshot.format_version == TV_CATALOG_FORMAT_VERSION),
{
    snapshot.format_version == TV_CATALOG_FORMAT_VERSION
}

// ------------------------------------------------------------------
// Movies
// ------------------------------------------------------------------

/// One movie of a category listing.
#[derive(Clone, Debug)]
pub struct MovieCatalogStream {
    pub stream_id: i64,
    pub folder_name: String,
    pub list_label: String,
    pub extension: String,
}

#[derive(Clone, Debug)]
pub struct MovieCatalogCategory {
    pub category_id: String,
    pub category_name: String,
    pub streams: Vec<MovieCatalogStream>,
}

#[derive(Clone, Debug)]
pub struct MovieCatalogSnapshot {
    pub format_version: u32,
    pub built_at_unix_secs: u64,
    pub categories: Vec<MovieCatalogCategory>,
}

/// A movie row as plain values: id, folder name, label, extension.
pub open spec fn movie_view() -> spec_fn(MovieCatalogStream) -> (
    i64,
    Seq<char>,
    Seq<char>,
    Seq<char>,
) {
    |m: MovieCatalogStream| (m.stream_id, m.folder_name@, m.list_label@, m.extension@)
}

/// The folder name of a movie row.
pub open spec fn movie_folder() -> spec_fn((i64, Seq<char>, Seq<char>, Seq<char>)) -> Seq<char> {
    |v: (i64, Seq<char>, Seq<char>, Seq<char>)| v.1
}

/// The row of a `get_vod_streams` listing.
pub open spec fn vod_row(v: VodStream) -> (i64, Seq<char>, Seq<char>, Seq<char>) {
    (v.stream_id, spec_movie_base_name(v), spec_display_title(v), spec_extension(v.container_extension))
}

/// The movies of a category: the listings cut to `max_vod_per_category` in
/// test mode, stably sorted by folder name.
pub open spec fn spec_movie_streams(rows: Seq<VodStream>, limits: MirageLimits) -> Seq<
    (i64, Seq<char>, Seq<char>, Seq<char>),
> {
    stable_sort(
        cap(rows, limits.test_mode, limits.max_vod_per_category).map_values(
            |v: VodStream| vod_row(v),
        ),
        by_name(movie_folder()),
    )
}

/// Every kept listing has a year that the year parser can slice.
pub open spec fn movie_streams_buildable(rows: Seq<VodStream>, limits: MirageLimits) -> bool {
    forall|k: int|
        0 <= k < cap(rows, limits.test_mode, limits.max_vod_per_category).len()
            ==> #[trigger] vod_year_sliceable(rows[k])
}

/// The number of listings kept of `n`.
fn kept(limits: &MirageLimits, n: usize, max: usize) -> (k: usize)
    ensures
        k == if limits.test_mode && max < n {
            max
        } else {
            n
        },
{
    if limits.test_mode && max < n {
        max
    } else {
        n
    }
}

/// Whether `movie_streams_buildable` holds.
pub fn movie_streams_are_buildable(rows: &Vec<VodStream>, limits: &MirageLimits) -> (b: bool)
    ensures
        b == movie_streams_buildable(rows@, *limits),
{
    let n = kept(limits, rows.len(), limits.max_vod_per_category);
    let mut i: usize = 0;
    while i < n
        invariant
            i <= n,
            n == cap(rows@, limits.test_mode, limits.max_vod_per_category).len(),
            n <= rows@.len(),
            forall|k: int| 0 <= k < i ==> #[trigger] vod_year_sliceable(rows@[k]),
        decreases n - i,
    {
        if !vod_year_is_sliceable(&rows[i]) {
            return false;
        }
        i = i + 1;
    }
    true
}

/// The movies of a category from its `get_vod_streams` page: cut to
/// `max_vod_per_category` in test mode, as folder name, label and extension,
/// stably sorted by folder name.
pub fn build_movie_streams(rows: &Vec<VodStream>, limits: &MirageLimits) -> (streams: Vec<
    MovieCatalogStream,
>)
    requires
        movie_streams_buildable(rows@, *limits),
    ensures
        streams@.map_values(movie_view()) == spec_movie_streams(rows@, *limits),
{
    let n = kept(limits, rows.len(), limits.max_vod_per_category);
    let ghost input = cap(rows@, limits.test_mode, limits.max_vod_per_category).map_values(
        |v: VodStream| vod_row(v),
    );
    let mut out: Vec<MovieCatalogStream> = Vec::new();
    let mut names: Vec<Vec<char>> = Vec::new();
    let mut i: usize = 0;
    assert(input.take(0) =~= Seq::<(i64, Seq<char>, Seq<char>, Seq<char>)>::empty());
    while i < n
        invariant
            i <= n,
            n == cap(rows@, limits.test_mode, limits.max_vod_per_category).len(),
            n <= rows@.len(),
            input == cap(rows@, limits.test_mode, limits.max_vod_per_category).map_values(
                |v: VodStream| vod_row(v),
            ),
            movie_streams_buildable(rows@, *limits),
            names@.len() == out@.len(),
            forall|k: int|
                0 <= k < out@.len() ==> #[trigger] names@[k]@ == movie_folder()(
                    movie_view()(out@[k]),
                ),
            out@.map_values(movie_view()) =~= stable_sort(
                input.take(i as int),
                by_name(movie_folder()),
            ),
        decreases n - i,
    {
        let v = &rows[i];
        assert(vod_year_sliceable(rows@[i as int]));
        assert(cap(rows@, limits.test_mode, limits.max_vod_per_category)[i as int] == rows@[i as int]);
        let folder = movie_base_name(v);
        let name = chars_of(folder.as_str());
        let row = MovieCatalogStream {
            stream_id: v.stream_id,
            folder_name: folder,
            list_label: display_title(v),
            extension: video_extension(v),
        };
        assert(movie_view()(row) == vod_row(*v));
        assert(input.take(i + 1).drop_last() =~= input.take(i as int));
        assert(input.take(i + 1).last() == movie_view()(row));
        insert_by_name::<MovieCatalogStream, (i64, Seq<char>, Seq<char>, Seq<char>)>(
            &mut out,
            &mut names,
            row,
            name,
            Ghost(movie_view()),
            Ghost(movie_folder()),
        );
        i = i + 1;
    }
    assert(input.take(n as int) =~= input);
    out
}

/// A category of the movie catalog from its `get_vod_categories` entry and
/// its `get_vod_streams` page.
pub fn build_movie_category(cat: VodCategory, rows: &Vec<VodStream>, limits: &MirageLimits) -> (c:
    MovieCatalogCategory)
    requires
        movie_streams_buildable(rows@, *limits),
    ensures
        c.category_id@ == cat.category_id@,
        c.category_name@ == cat.category_name@,
        c.streams@.map_values(movie_view()) == spec_movie_streams(rows@, *limits),
{
    let streams = build_movie_streams(rows, limits);
    MovieCatalogCategory {
        category_id: cat.category_id,
        category_name: cat.category_name,
        streams,
    }
}

/// A movie category as plain values: id, name and its movies.
pub open spec fn category_view() -> spec_fn(MovieCatalogCategory) -> (
    Seq<char>,
    Seq<char>,
    Seq<(i64, Seq<char>, Seq<char>, Seq<char>)>,
) {
    |c: MovieCatalogCategory| (c.category_id@, c.category_name@, c.streams@.map_values(movie_view()))
}

/// The movie catalog: the upstream categories in their order, cut to
/// `max_categories` in test mode, each with the movies of its page.
pub open spec fn spec_movie_catalog(
    cats: Seq<VodCategory>,
    pages: Seq<Vec<VodStream>>,
    limits: MirageLimits,
) -> Seq<(Seq<char>, Seq<char>, Seq<(i64, Seq<char>, Seq<char>, Seq<char>)>)> {
    let kept = cap(cats, limits.test_mode, limits.max_categories);
    Seq::new(
        kept.len(),
        |i: int| (kept[i].category_id@, kept[i].category_name@, spec_movie_streams(pages[i]@, limits)),
    )
}

/// How many of `n` upstream categories are fetched: all of them, or the
/// first `max_categories` in test mode.
pub fn categories_kept(limits: &MirageLimits, n: usize) -> (k: usize)
    ensures
        k == if limits.test_mode && limits.max_categories < n {
            limits.max_categories
        } else {
            n
        },
{
    kept(limits, n, limits.max_categories)
}

/// The categories of the movie catalog from `get_vod_categories` and the
/// `get_vod_streams` page of each category kept (`pages[i]` for the `i`-th).
pub fn build_movie_catalog(
    categories: Vec<VodCategory>,
    pages: &Vec<Vec<VodStream>>,
    limits: &MirageLimits,
) -> (out: Vec<MovieCatalogCategory>)
    requires
        pages@.len() == cap(categories@, limits.test_mode, limits.max_categories).len(),
        forall|i: int| 0 <= i < pages@.len() ==> movie_streams_buildable(#[trigger] pages@[i]@, *limits),
    ensures
        out@.map_values(category_view()) == spec_movie_catalog(categories@, pages@, *limits),
{
    let mut cats = categories;
    limits.cap_to(&mut cats, limits.max_categories);
    let ghost kept_cats = cats@;
    let total = cats.len();
    let mut rev: Vec<VodCategory> = Vec::new();
    while cats.len() > 0
        invariant
            cats@.len() + rev@.len() == kept_cats.len(),
            cats@ == kept_cats.take(cats@.len() as int),
            forall|k: int| 0 <= k < rev@.len() ==> rev@[k] == kept_cats[kept_cats.len() - 1 - k],
        decreases cats@.len(),
    {
        let c = cats.pop().unwrap();
        assert(c == kept_cats[cats@.len() as int]);
        assert(cats@ =~= kept_cats.take(cats@.len() as int));
        rev.push(c);
    }
    let ghost want = spec_movie_catalog(categories@, pages@, *limits);
    let mut out: Vec<MovieCatalogCategory> = Vec::new();
    let mut i: usize = 0;
    while rev.len() > 0
        invariant
            i <= kept_cats.len(),
            total == kept_cats.len(),
            kept_cats == cap(categories@, limits.test_mode, limits.max_categories),
            pages@.len() == kept_cats.len(),
            forall|j: int| 0 <= j < pages@.len() ==> movie_streams_buildable(#[trigger] pages@[j]@, *limits),
            rev@.len() == kept_cats.len() - i,
            forall|k: int| 0 <= k < rev@.len() ==> rev@[k] == kept_cats[kept_cats.len() - 1 - k],
            want == spec_movie_catalog(categories@, pages@, *limits),
            out@.len() == i,
            forall|k: int| 0 <= k < i ==> category_view()(#[trigger] out@[k]) == want[k],
        decreases rev@.len(),
    {
        let c = rev.pop().unwrap();
        assert(c == kept_cats[i as int]);
        let built = build_movie_category(c, &pages[i], limits);
        assert(category_view()(built) == want[i as int]);
        out.push(built);
        i = i + 1;
    }
    assert(out@.map_values(category_view()) =~= want);
    out
}

impl MovieCatalogSnapshot {
    /// A snapshot of `categories` stamped with the current time.
    pub fn new(categories: Vec<MovieCatalogCategory>) -> (s: Self)
        ensures
            s.format_version == MOVIE_CATALOG_FORMAT_VERSION,
            s.categories@ == categories@,
    {
        Self::built_at(categories, unix_now_secs())
    }

    /// A snapshot of `categories` built at `built_at_unix_secs`.
    pub fn built_at(categories: Vec<MovieCatalogCategory>, built_at_unix_secs: u64) -> (s: Self)
        ensures
            s.format_version == MOVIE_CATALOG_FORMAT_VERSION,
            s.built_at_unix_secs == built_at_unix_secs,
            s.categories@ == categories@,
    {
        MovieCatalogSnapshot {
            format_version: MOVIE_CATALOG_FORMAT_VERSION,
            built_at_unix_secs,
            categories,
        }
    }

    /// When the snapshot was built, in seconds since the Unix epoch.
    pub fn built_at_unix_secs(&self) -> (t: u64)
        ensures
            t == self.built_at_unix_secs,
    {
        self.built_at_unix_secs
    }
}

/// Whether a loaded movie snapshot has the current layout version.
pub fn movie_catalog_format_ok(snapshot: &MovieCatalogSnapshot) -> (b: bool)
    ensures
        b == (snapshot.format_version == MOVIE_CATALOG_FORMAT_VERSION),
{
    snapshot.format_version == MOVIE_CATALOG_FORMAT_VERSION
}

// ------------------------------------------------------------------
// Laws of the catalogs
// ------------------------------------------------------------------

proof fn lemma_first_by_series_id(s: Seq<SeriesListing>)
    ensures
        distinct_by(first_by_series_id(s), |l: SeriesListing| l.series_id),
        forall|k: int|
            0 <= k < first_by_series_id(s).len() ==> id_seen(
                s,
                #[trigger] first_by_series_id(s)[k].series_id,
            ),
    decreases s.len(),
{
    if s.len() > 0 {
        let d = s.drop_last();
        let r = first_by_series_id(d);
        lemma_first_by_series_id(d);
        assert forall|k: int| 0 <= k < r.len() implies id_seen(s, #[trigger] r[k].series_id) by {
            let m = choose|m: int| 0 <= m < d.len() && d[m].series_id == r[k].series_id;
            assert(s[m] == d[m]);
        }
        if !id_seen(d, s.last().series_id) {
            let out = r.push(s.last());
            assert forall|k: int| 0 <= k < out.len() implies id_seen(
                s,
                #[trigger] out[k].series_id,
            ) by {
                if k < r.len() {
                    assert(out[k] == r[k]);
                } else {
                    assert(s[s.len() - 1] == out[k]);
                }
            }
            assert forall|i: int, j: int| 0 <= i < j < out.len() implies (|l: SeriesListing|
                l.series_id)(#[trigger] out[i]) != (|l: SeriesListing| l.series_id)(
                #[trigger] out[j],
            ) by {
                assert(out[i] == r[i]);
                if j == r.len() {
                    assert(out[j] == s.last());
                    if r[i].series_id == s.last().series_id {
                        assert(id_seen(d, r[i].series_id));
                    }
                } else {
                    assert(out[j] == r[j]);
                }
            }
        }
    }
}

/// The TV listing is sorted by folder name, and lists each series once.
pub proof fn law_tv_catalog_sorted_and_distinct(pages: Seq<Vec<SeriesListing>>, limits: MirageLimits)
    ensures
        sorted_by_name(spec_tv_rows(pages, limits), tv_folder()),
        distinct_by(
            spec_tv_rows(pages, limits),
            |v: (i64, Seq<char>, Seq<char>)| v.0,
        ),
{
    let sel = selected_series(pages, limits);
    let input = sel.map_values(|l: SeriesListing| listing_row(l));
    lemma_stable_sort_sorted(input, tv_folder());
    let all = first_by_series_id(flat_pages(pages));
    lemma_first_by_series_id(flat_pages(pages));
    assert(distinct_by(input, |v: (i64, Seq<char>, Seq<char>)| v.0)) by {
        assert forall|i: int, j: int| 0 <= i < j < input.len() implies (|
            v: (i64, Seq<char>, Seq<char>),
        | v.0)(#[trigger] input[i]) != (|v: (i64, Seq<char>, Seq<char>)| v.0)(
            #[trigger] input[j],
        ) by {
            assert(sel[i] == all[i] && sel[j] == all[j]);
            assert((|l: SeriesListing| l.series_id)(all[i]) != (|l: SeriesListing| l.series_id)(
                all[j],
            ));
        }
    }
    lemma_stable_sort_distinct(
        input,
        by_name(tv_folder()),
        |v: (i64, Seq<char>, Seq<char>)| v.0,
    );
}

/// Each movie category is sorted by folder name.
pub proof fn law_movie_category_sorted(rows: Seq<VodStream>, limits: MirageLimits)
    ensures
        sorted_by_name(spec_movie_streams(rows, limits), movie_folder()),
{
    lemma_stable_sort_sorted(
        cap(rows, limits.test_mode, limits.max_vod_per_category).map_values(
            |v: VodStream| vod_row(v),
        ),
        movie_folder(),
    );
}

/// Test mode keeps catalogs small: at most `max_series_per_category` shows,
/// and at most `max_vod_per_category` movies in a category.
pub proof fn law_test_mode_caps(
    pages: Seq<Vec<SeriesListing>>,
    rows: Seq<VodStream>,
    limits: MirageLimits,
)
    requires
        limits.test_mode,
    ensures
        spec_tv_rows(pages, limits).len() <= limits.max_series_per_category,
        spec_movie_streams(rows, limits).len() <= limits.max_vod_per_category,
{
    lemma_stable_sort_len(
        selected_series(pages, limits).map_values(|l: SeriesListing| listing_row(l)),
        by_name(tv_folder()),
    );
    lemma_stable_sort_len(
        cap(rows, limits.test_mode, limits.max_vod_per_category).map_values(
            |v: VodStream| vod_row(v),
        ),
        by_name(movie_folder()),
    );
}

/// `l` is a listing of one of the pages.
pub open spec fn in_pages(pages: Seq<Vec<SeriesListing>>, l: SeriesListing) -> bool {
    exists|p: int, q: int| 0 <= p < pages.len() && 0 <= q < pages[p]@.len() && pages[p]@[q] == l
}

proof fn lemma_flat_pages_items(pages: Seq<Vec<SeriesListing>>)
    ensures
        forall|m: int|
            0 <= m < flat_pages(pages).len() ==> in_pages(pages, #[trigger] flat_pages(pages)[m]),
    decreases pages.len(),
{
    if pages.len() > 0 {
        let d = pages.drop_last();
        lemma_flat_pages_items(d);
        let f = flat_pages(pages);
        let fd = flat_pages(d);
        assert forall|m: int| 0 <= m < f.len() implies in_pages(pages, #[trigger] f[m]) by {
            if m < fd.len() {
                assert(f[m] == fd[m]);
                assert(in_pages(d, fd[m]));
                let (p, q) = choose|p: int, q: int|
                    0 <= p < d.len() && 0 <= q < d[p]@.len() && d[p]@[q] == fd[m];
                assert(pages[p] == d[p]);
                assert(pages[p]@[q] == f[m]);
            } else {
                let q = m - fd.len();
                assert(f[m] == pages.last()@[q]);
                assert(pages[pages.len() - 1] == pages.last());
                assert(pages[pages.len() - 1]@[q] == f[m]);
            }
        }
    }
}

proof fn lemma_first_by_series_id_items(s: Seq<SeriesListing>)
    ensures
        forall|k: int|
            0 <= k < first_by_series_id(s).len() ==> exists|m: int|
                0 <= m < s.len() && s[m] == #[trigger] first_by_series_id(s)[k],
    decreases s.len(),
{
    if s.len() > 0 {
        let d = s.drop_last();
        lemma_first_by_series_id_items(d);
        let r = first_by_series_id(d);
        let out = first_by_series_id(s);
        assert forall|k: int| 0 <= k < out.len() implies exists|m: int|
            0 <= m < s.len() && s[m] == #[trigger] out[k] by {
            if k < r.len() {
                assert(out[k] == r[k]);
                let m = choose|m: int| 0 <= m < d.len() && d[m] == r[k];
                assert(s[m] == d[m]);
            } else {
                assert(out[k] == s.last());
                assert(s[s.len() - 1] == out[k]);
            }
        }
    }
}

/// Every show that `/tv/` lists opens: the folder name of each row parses
/// back to the row's series id, when no show name itself holds a
/// `{seriesid-` tag.
pub proof fn law_tv_rows_name_their_series(pages: Seq<Vec<SeriesListing>>, limits: MirageLimits)
    requires
        forall|p: int, q: int|
            0 <= p < pages.len() && 0 <= q < pages[p]@.len() ==> find(
                (#[trigger] pages[p]@[q]).name@,
                "{seriesid-"@,
            ) is None,
    ensures
        forall|k: int|
            0 <= k < spec_tv_rows(pages, limits).len() ==> spec_parse_tagged_id(
                (#[trigger] spec_tv_rows(pages, limits)[k]).1,
                "{seriesid-"@,
            ) == Some(spec_tv_rows(pages, limits)[k].0),
{
    let flat = flat_pages(pages);
    let all = first_by_series_id(flat);
    let sel = selected_series(pages, limits);
    let input = sel.map_values(|l: SeriesListing| listing_row(l));
    let gt = by_name(tv_folder());
    let rows = spec_tv_rows(pages, limits);
    lemma_flat_pages_items(pages);
    lemma_first_by_series_id_items(flat);
    lemma_stable_sort_items(input, gt);
    assert forall|k: int| 0 <= k < rows.len() implies spec_parse_tagged_id(
        (#[trigger] rows[k]).1,
        "{seriesid-"@,
    ) == Some(rows[k].0) by {
        let m = choose|m: int| 0 <= m < input.len() && input[m] == rows[k];
        assert(sel[m] == all[m]);
        let n = choose|n: int| 0 <= n < flat.len() && flat[n] == all[m];
        assert(in_pages(pages, flat[n]));
        let (p, q) = choose|p: int, q: int|
            0 <= p < pages.len() && 0 <= q < pages[p]@.len() && pages[p]@[q] == flat[n];
        law_show_folder_names_its_series(sel[m]);
    }
}

/// The TV listing is strictly increasing by folder name: no two rows share
/// a folder, since each folder ends with its own series id.
pub proof fn law_tv_catalog_strictly_increasing(pages: Seq<Vec<SeriesListing>>, limits: MirageLimits)
    ensures
        forall|i: int, j: int|
            0 <= i < j < spec_tv_rows(pages, limits).len() ==> seq_lt(
                (#[trigger] spec_tv_rows(pages, limits)[i]).1,
                (#[trigger] spec_tv_rows(pages, limits)[j]).1,
            ),
{
    let sel = selected_series(pages, limits);
    let input = sel.map_values(|l: SeriesListing| listing_row(l));
    let rows = spec_tv_rows(pages, limits);
    law_tv_catalog_sorted_and_distinct(pages, limits);
    lemma_stable_sort_items(input, by_name(tv_folder()));
    assert forall|i: int, j: int| 0 <= i < j < rows.len() implies seq_lt(
        (#[trigger] rows[i]).1,
        (#[trigger] rows[j]).1,
    ) by {
        let mi = choose|m: int| 0 <= m < input.len() && input[m] == rows[i];
        let mj = choose|m: int| 0 <= m < input.len() && input[m] == rows[j];
        let a = sel[mi];
        let b = sel[mj];
        assert((|v: (i64, Seq<char>, Seq<char>)| v.0)(rows[i]) != (|v: (i64, Seq<char>, Seq<char>)|
            v.0)(rows[j]));
        if rows[i].1 == rows[j].1 {
            lemma_show_folder_determines_id(
                trim(a.name@),
                series_release_date(a.release_date, a.release_date_alt),
                opt_tmdb(a.tmdb),
                a.series_id,
                trim(b.name@),
                series_release_date(b.release_date, b.release_date_alt),
                opt_tmdb(b.tmdb),
                b.series_id,
            );
        }
        lemma_seq_lt_total(rows[i].1, rows[j].1);
        assert(!seq_lt(tv_folder()(rows[j]), tv_folder()(rows[i])));
    }
}

/// Some listing of the pages has the series id `id`.
pub open spec fn id_in_pages(pages: Seq<Vec<SeriesListing>>, id: i64) -> bool {
    exists|p: int, q: int|
        0 <= p < pages.len() && 0 <= q < pages[p]@.len() && pages[p]@[q].series_id == id
}

/// Some row has the series id `id`.
pub open spec fn id_in_rows(rows: Seq<(i64, Seq<char>, Seq<char>)>, id: i64) -> bool {
    exists|k: int| 0 <= k < rows.len() && rows[k].0 == id
}

proof fn lemma_flat_pages_index(pages: Seq<Vec<SeriesListing>>, p: int, q: int) -> (m: int)
    requires
        0 <= p < pages.len(),
        0 <= q < pages[p]@.len(),
    ensures
        0 <= m < flat_pages(pages).len(),
        flat_pages(pages)[m] == pages[p]@[q],
    decreases pages.len(),
{
    let d = pages.drop_last();
    let fd = flat_pages(d);
    let f = flat_pages(pages);
    assert(f == fd + pages.last()@);
    if p < d.len() {
        assert(pages[p] == d[p]);
        let m = lemma_flat_pages_index(d, p, q);
        assert(f[m] == fd[m]);
        m
    } else {
        assert(pages[p] == pages.last());
        let m = fd.len() + q;
        assert(f[m] == pages.last()@[q]);
        m
    }
}

proof fn lemma_first_by_series_id_index(s: Seq<SeriesListing>, m: int) -> (k: int)
    requires
        0 <= m < s.len(),
    ensures
        0 <= k < first_by_series_id(s).len(),
        first_by_series_id(s)[k].series_id == s[m].series_id,
    decreases s.len(),
{
    let d = s.drop_last();
    let r = first_by_series_id(d);
    let out = first_by_series_id(s);
    if m < d.len() {
        assert(s[m] == d[m]);
        let k = lemma_first_by_series_id_index(d, m);
        if id_seen(d, s.last().series_id) {
            k
        } else {
            assert(out[k] == r[k]);
            k
        }
    } else if id_seen(d, s.last().series_id) {
        let n = choose|n: int| 0 <= n < d.len() && d[n].series_id == s.last().series_id;
        lemma_first_by_series_id_index(d, n)
    } else {
        assert(out[r.len() as int] == s.last());
        r.len() as int
    }
}

/// The shows of the TV listing come from the pages, and without test mode
/// every series id of the pages has its row.
pub proof fn law_tv_catalog_ids_are_the_pages_ids(pages: Seq<Vec<SeriesListing>>, limits: MirageLimits)
    ensures
        forall|id: i64| #[trigger] id_in_rows(spec_tv_rows(pages, limits), id) ==> id_in_pages(pages, id),
        !limits.test_mode ==> forall|id: i64|
            #[trigger] id_in_pages(pages, id) ==> id_in_rows(spec_tv_rows(pages, limits), id),
{
    let flat = flat_pages(pages);
    let all = first_by_series_id(flat);
    let sel = selected_series(pages, limits);
    let input = sel.map_values(|l: SeriesListing| listing_row(l));
    let rows = spec_tv_rows(pages, limits);
    lemma_flat_pages_items(pages);
    lemma_first_by_series_id_items(flat);
    lemma_stable_sort_items(input, by_name(tv_folder()));
    assert forall|id: i64| #[trigger] id_in_rows(rows, id) implies id_in_pages(pages, id) by {
        let k = choose|k: int| 0 <= k < rows.len() && rows[k].0 == id;
        let m = choose|m: int| 0 <= m < input.len() && input[m] == rows[k];
        assert(sel[m] == all[m]);
        let n = choose|n: int| 0 <= n < flat.len() && flat[n] == all[m];
        assert(in_pages(pages, flat[n]));
        let (p, q) = choose|p: int, q: int|
            0 <= p < pages.len() && 0 <= q < pages[p]@.len() && pages[p]@[q] == flat[n];
    }
    if !limits.test_mode {
        lemma_stable_sort_keeps(input, by_name(tv_folder()));
        assert(sel == all);
        assert forall|id: i64| #[trigger] id_in_pages(pages, id) implies id_in_rows(rows, id) by {
            let (p, q) = choose|p: int, q: int|
                0 <= p < pages.len() && 0 <= q < pages[p]@.len() && pages[p]@[q].series_id == id;
            let m = lemma_flat_pages_index(pages, p, q);
            let k = lemma_first_by_series_id_index(flat, m);
            assert(input[k] == listing_row(all[k]));
            let r = choose|r: int| 0 <= r < rows.len() && rows[r] == #[trigger] input[k];
            assert(rows[r].0 == id);
        }
    }
}

/// Every movie that a category lists opens: the folder name of each movie
/// parses back to its stream id, when no movie name or title itself holds a
/// `{vodid-` tag.
pub proof fn law_movie_rows_name_their_streams(rows: Seq<VodStream>, limits: MirageLimits)
    requires
        forall|k: int|
            0 <= k < rows.len() ==> find((#[trigger] rows[k]).name@, "{vodid-"@) is None && (
            rows[k].title matches Some(t) ==> find(t@, "{vodid-"@) is None),
    ensures
        forall|k: int|
            0 <= k < spec_movie_streams(rows, limits).len() ==> spec_parse_tagged_id(
                (#[trigger] spec_movie_streams(rows, limits)[k]).1,
                "{vodid-"@,
            ) == Some(spec_movie_streams(rows, limits)[k].0),
{
    let kept = cap(rows, limits.test_mode, limits.max_vod_per_category);
    let input = kept.map_values(|v: VodStream| vod_row(v));
    let gt = by_name(movie_folder());
    let out = spec_movie_streams(rows, limits);
    lemma_stable_sort_items(input, gt);
    assert forall|k: int| 0 <= k < out.len() implies spec_parse_tagged_id(
        (#[trigger] out[k]).1,
        "{vodid-"@,
    ) == Some(out[k].0) by {
        let m = choose|m: int| 0 <= m < input.len() && input[m] == out[k];
        assert(kept[m] == rows[m]);
        law_movie_folder_names_its_stream(rows[m]);
    }
}

/// `row` is one of `rows`.
pub open spec fn row_listed(
    rows: Seq<(i64, Seq<char>, Seq<char>, Seq<char>)>,
    row: (i64, Seq<char>, Seq<char>, Seq<char>),
) -> bool {
    exists|k: int| 0 <= k < rows.len() && rows[k] == row
}

/// The movie catalog keeps the upstream categories in their order (only the
/// first `max_categories` in test mode) with their ids and names; each
/// category lists movies of its own page, sorted by folder name, at most
/// `max_vod_per_category` of them in test mode and all of them otherwise.
pub proof fn law_movie_catalog_shape(
    cats: Seq<VodCategory>,
    pages: Seq<Vec<VodStream>>,
    limits: MirageLimits,
)
    requires
        pages.len() == cap(cats, limits.test_mode, limits.max_categories).len(),
    ensures
        spec_movie_catalog(cats, pages, limits).len() == pages.len(),
        limits.test_mode ==> spec_movie_catalog(cats, pages, limits).len() <= limits.max_categories,
        forall|i: int|
            0 <= i < pages.len() ==> (#[trigger] spec_movie_catalog(cats, pages, limits)[i]).0
                == cats[i].category_id@ && spec_movie_catalog(cats, pages, limits)[i].1
                == cats[i].category_name@,
        forall|i: int|
            0 <= i < pages.len() ==> sorted_by_name(
                (#[trigger] spec_movie_catalog(cats, pages, limits)[i]).2,
                movie_folder(),
            ),
        forall|i: int|
            0 <= i < pages.len() && limits.test_mode ==> (#[trigger] spec_movie_catalog(
                cats,
                pages,
                limits,
            )[i]).2.len() <= limits.max_vod_per_category,
        forall|i: int, k: int|
            0 <= i < pages.len() && 0 <= k < (#[trigger] spec_movie_catalog(cats, pages, limits)[i]).2.len()
                ==> exists|m: int|
                0 <= m < pages[i]@.len() && vod_row(pages[i]@[m]) == #[trigger] spec_movie_catalog(
                    cats,
                    pages,
                    limits,
                )[i].2[k],
        forall|i: int, m: int|
            0 <= i < pages.len() && 0 <= m < pages[i]@.len() && !limits.test_mode ==> row_listed(
                spec_movie_catalog(cats, pages, limits)[i].2,
                vod_row(#[trigger] pages[i]@[m]),
            ),
{
    let out = spec_movie_catalog(cats, pages, limits);
    let kept_cats = cap(cats, limits.test_mode, limits.max_categories);
    assert forall|i: int| 0 <= i < pages.len() implies (#[trigger] out[i]).0 == cats[i].category_id@
        && out[i].1 == cats[i].category_name@ by {
        assert(kept_cats[i] == cats[i]);
    }
    assert forall|i: int| 0 <= i < pages.len() implies sorted_by_name(
        (#[trigger] out[i]).2,
        movie_folder(),
    ) by {
        law_movie_category_sorted(pages[i]@, limits);
    }
    assert forall|i: int| 0 <= i < pages.len() && limits.test_mode implies (#[trigger] out[i]).2.len()
        <= limits.max_vod_per_category by {
        law_test_mode_caps(Seq::empty(), pages[i]@, limits);
    }
    assert forall|i: int, k: int| 0 <= i < pages.len() && 0 <= k < (#[trigger] out[i]).2.len() implies exists|
        m: int,
    | 0 <= m < pages[i]@.len() && vod_row(pages[i]@[m]) == #[trigger] out[i].2[k] by {
        let rows = pages[i]@;
        let kept_rows = cap(rows, limits.test_mode, limits.max_vod_per_category);
        let input = kept_rows.map_values(|v: VodStream| vod_row(v));
        lemma_stable_sort_items(input, by_name(movie_folder()));
        let m = choose|m: int| 0 <= m < input.len() && input[m] == out[i].2[k];
        assert(kept_rows[m] == rows[m]);
    }
    assert forall|i: int, m: int|
        0 <= i < pages.len() && 0 <= m < pages[i]@.len() && !limits.test_mode implies row_listed(
        spec_movie_catalog(cats, pages, limits)[i].2,
        vod_row(#[trigger] pages[i]@[m]),
    ) by {
        let k = lemma_movie_row_listed(cats, pages, limits, i, m);
    }
}

proof fn lemma_movie_row_listed(
    cats: Seq<VodCategory>,
    pages: Seq<Vec<VodStream>>,
    limits: MirageLimits,
    i: int,
    m: int,
) -> (k: int)
    requires
        pages.len() == cap(cats, limits.test_mode, limits.max_categories).len(),
        0 <= i < pages.len(),
        0 <= m < pages[i]@.len(),
        !limits.test_mode,
    ensures
        0 <= k < spec_movie_catalog(cats, pages, limits)[i].2.len(),
        spec_movie_catalog(cats, pages, limits)[i].2[k] == vod_row(pages[i]@[m]),
{
    let rows = pages[i]@;
    let input = rows.map_values(|v: VodStream| vod_row(v));
    lemma_stable_sort_keeps(input, by_name(movie_folder()));
    assert(cap(rows, limits.test_mode, limits.max_vod_per_category) == rows);
    let sorted = stable_sort(input, by_name(movie_folder()));
    assert(spec_movie_catalog(cats, pages, limits)[i].2 == sorted);
    assert(input[m] == vod_row(rows[m]));
    choose|k: int| 0 <= k < sorted.len() && sorted[k] == #[trigger] input[m]
}

// ------------------------------------------------------------------
// First rebuild of a worker
// ------------------------------------------------------------------

/// What a catalog worker does before its first rebuild.
#[derive(Clone, Copy, Debug, PartialEq, Eq, Structural)]
pub enum FirstRebuild {
    /// Rebuild at once: there is no snapshot, or it is already stale.
    Now,
    /// Rebuild at once: the snapshot claims a build time after the present.
    BuiltInFuture,
    /// Wait this many nanoseconds: until then the snapshot is fresh.
    After(u128),
}

pub open spec fn nanos(secs: int) -> int {
    secs * 1_000_000_000
}

/// A worker whose snapshot (if any) was built at `built_secs`, at time
/// `now_nanos` (both since the Unix epoch), waits until `built + refresh`
/// when that is still ahead, so that a restart does not rebuild at once.
pub open spec fn spec_first_rebuild(built_secs: Option<u64>, now_nanos: u128, refresh_secs: u64) -> FirstRebuild {
    match built_secs {
        None => FirstRebuild::Now,
        Some(b) => if b > now_nanos / 1_000_000_000 {
            FirstRebuild::BuiltInFuture
        } else if nanos(b + refresh_secs) > now_nanos {
            FirstRebuild::After((nanos(b + refresh_secs) - now_nanos) as u128)
        } else {
            FirstRebuild::Now
        },
    }
}

/// The system clock represents `built + refresh` (seconds since the epoch
/// in an `i64`); past that, adding the refresh interval panics.
pub open spec fn stale_time_representable(built_secs: Option<u64>, now_nanos: u128, refresh_secs: u64) -> bool {
    match built_secs {
        Some(b) => b <= now_nanos / 1_000_000_000 ==> b + refresh_secs <= i64::MAX,
        None => true,
    }
}

/// Decides how long a catalog worker defers its first rebuild.
pub fn first_rebuild(built_secs: Option<u64>, now_nanos: u128, refresh_secs: u64) -> (r: FirstRebuild)
    requires
        stale_time_representable(built_secs, now_nanos, refresh_secs),
    ensures
        r == spec_first_rebuild(built_secs, now_nanos, refresh_secs),
{
    match built_secs {
        None => FirstRebuild::Now,
        Some(b) => {
            let now_secs = now_nanos / 1_000_000_000;
            if b as u128 > now_secs {
                FirstRebuild::BuiltInFuture
            } else {
                let stale = (b as u128 + refresh_secs as u128) * 1_000_000_000;
                if stale > now_nanos {
                    FirstRebuild::After(stale - now_nanos)
                } else {
                    FirstRebuild::Now
                }
            }
        },
    }
}

/// A deferred first rebuild comes exactly when the snapshot turns stale,
/// and never later than one refresh interval from now.
pub proof fn law_first_rebuild_waits_until_stale(built_secs: u64, now_nanos: u128, refresh_secs: u64)
    ensures
        spec_first_rebuild(Some(built_secs), now_nanos, refresh_secs) matches FirstRebuild::After(w)
            ==> w > 0 && now_nanos + w == nanos(built_secs + refresh_secs) && w <= nanos(
            refresh_secs as int,
        ),
{
    if built_secs <= now_nanos / 1_000_000_000 {
        assert(nanos(built_secs as int) <= now_nanos) by (nonlinear_arith)
            requires
                built_secs <= now_nanos / 1_000_000_000,
        ;
    }
}

} // verus!
