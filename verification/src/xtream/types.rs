//! Records of the Xtream JSON API, holding plain values.

use vstd::prelude::*;

use crate::json::{as_i64, number_as_i64, JsonValue};
use crate::text::{dec_int, push_i64};

verus! {

/// One VOD category from `get_vod_categories`.
#[derive(Clone, Debug)]
pub struct VodCategory {
    pub category_id: String,
    pub category_name: String,
}

/// One movie row from `get_vod_streams`.
pub struct VodStream {
    pub stream_id: i64,
    pub name: String,
    pub title: Option<String>,
    /// Year may be sent as JSON string or number.
    pub year: Option<JsonValue>,
    /// JSON key `release_date`.
    pub release_date: Option<String>,
    /// JSON key `releaseDate`.
    pub release_date_alt: Option<String>,
    /// JSON key `releasedate`.
    pub release_date_lower: Option<String>,
    pub category_id: Option<String>,
    pub container_extension: Option<String>,
    /// JSON keys `tmdb_id`, `tmdbId` or `tmdb`.
    pub tmdb_id: Option<JsonValue>,
}

/// One series row from `get_series`.
pub struct SeriesListing {
    pub name: String,
    pub series_id: i64,
    /// JSON keys `tmdb`, `tmdbId`.
    pub tmdb: Option<JsonValue>,
    pub release_date: Option<String>,
    /// JSON key `release_date_alt` or `releaseDate`.
    pub release_date_alt: Option<String>,
}

/// The `info` object of `get_series_info`.
pub struct SeriesInfoMeta {
    pub name: Option<String>,
    pub tmdb: Option<JsonValue>,
    pub category_id: Option<String>,
    pub category_ids: Vec<JsonValue>,
    /// JSON key `release_date` only.
    pub release_date: Option<String>,
    /// JSON key `releaseDate`.
    pub release_date_alt: Option<String>,
}

/// One episode of `get_series_info`.
pub struct SeriesEpisode {
    pub id: Option<JsonValue>,
    pub episode_num: Option<JsonValue>,
    pub title: Option<String>,
    pub container_extension: Option<String>,
    pub season: Option<JsonValue>,
}

/// Full series payload from `get_series_info`.
///
/// `episodes` maps a season key to its episodes (`season_keys_distinct`);
/// the entries keep the order in which the panel's map was walked.
pub struct SeriesDetail {
    pub seasons: Vec<JsonValue>,
    pub info: Option<SeriesInfoMeta>,
    pub episodes: Vec<(String, Vec<SeriesEpisode>)>,
}

/// No two seasons of the detail share a key (the panel sends a map).
pub open spec fn season_keys_distinct(d: SeriesDetail) -> bool {
    forall|i: int, j: int|
        0 <= i < j < d.episodes@.len() ==> (#[trigger] d.episodes@[i]).0@ != (
        #[trigger] d.episodes@[j]).0@
}

/// Whether `season_keys_distinct` holds.
pub fn season_keys_are_distinct(d: &SeriesDetail) -> (b: bool)
    ensures
        b == season_keys_distinct(*d),
{
    let n = d.episodes.len();
    let mut j: usize = 0;
    while j < n
        invariant
            n == d.episodes@.len(),
            j <= n,
            forall|a: int, b: int| 0 <= a < b < j ==> (#[trigger] d.episodes@[a]).0@ != (
            #[trigger] d.episodes@[b]).0@,
        decreases n - j,
    {
        let mut i: usize = 0;
        while i < j
            invariant
                n == d.episodes@.len(),
                i <= j < n,
                forall|a: int| 0 <= a < i ==> (#[trigger] d.episodes@[a]).0@ != d.episodes@[j as int].0@,
            decreases j - i,
        {
            if d.episodes[i].0 == d.episodes[j].0 {
                assert(d.episodes@[i as int].0@ == d.episodes@[j as int].0@);
                return false;
            }
            i = i + 1;
        }
        j = j + 1;
    }
    true
}

/// Whether any season holds an episode.
pub open spec fn has_episodes(d: SeriesDetail) -> bool {
    exists|k: int| 0 <= k < d.episodes@.len() && d.episodes@[k].1@.len() > 0
}

/// A name that is missing or blank once trimmed.
pub open spec fn name_is_blank(name: Option<String>) -> bool {
    match name {
        Some(n) => crate::text::trim(n@).len() == 0,
        None => true,
    }
}

/// Episodes exist but the series has no usable name.
pub open spec fn needs_unknown_name(d: SeriesDetail) -> bool {
    has_episodes(d) && match d.info {
        Some(info) => name_is_blank(info.name),
        None => true,
    }
}

/// `normalize_series_detail`: when episodes exist but the series has no usable
/// name, the name becomes `"Unknown"` (creating an empty `info` if needed).
pub fn normalize_series_detail(detail: &mut SeriesDetail)
    ensures
        final(detail).episodes == old(detail).episodes,
        season_keys_distinct(*old(detail)) ==> season_keys_distinct(*final(detail)),
        final(detail).seasons == old(detail).seasons,
        !needs_unknown_name(*final(detail)),
        !needs_unknown_name(*old(detail)) ==> final(detail).info == old(detail).info,
        needs_unknown_name(*old(detail)) ==> ({
            let b = final(detail).info->0;
            &&& final(detail).info is Some
            &&& b.name is Some
            &&& b.name->0@ == "Unknown"@
            &&& match old(detail).info {
                Some(a) => b.tmdb == a.tmdb && b.category_id == a.category_id && b.category_ids
                    == a.category_ids && b.release_date == a.release_date && b.release_date_alt
                    == a.release_date_alt,
                None => b.tmdb is None && b.category_id is None && b.category_ids@.len() == 0
                    && b.release_date is None && b.release_date_alt is None,
            }
        }),
{
    proof {
        reveal_strlit("Unknown");
        assert(crate::text::trim("Unknown"@) == "Unknown"@) by {
            assert(crate::text::trim_end("Unknown"@) == "Unknown"@);
            assert(crate::text::trim_start("Unknown"@) == "Unknown"@);
        }
    }
    let has = any_episodes(&detail.episodes);
    if has {
        let blank = match &detail.info {
            Some(info) => name_blank(&info.name),
            None => true,
        };
        if blank {
            let unknown = String::from_str("Unknown");
            match &mut detail.info {
                Some(info) => {
                    info.name = Some(unknown);
                },
                None => {
                    detail.info = Some(
                        SeriesInfoMeta {
                            name: Some(unknown),
                            tmdb: None,
                            category_id: None,
                            category_ids: Vec::new(),
                            release_date: None,
                            release_date_alt: None,
                        },
                    );
                },
            }
        }
    }
}

fn any_episodes(episodes: &Vec<(String, Vec<SeriesEpisode>)>) -> (b: bool)
    ensures
        b == exists|k: int| 0 <= k < episodes@.len() && episodes@[k].1@.len() > 0,
{
    let mut i: usize = 0;
    while i < episodes.len()
        invariant
            i <= episodes@.len(),
            forall|k: int| 0 <= k < i ==> episodes@[k].1@.len() == 0,
        decreases episodes@.len() - i,
    {
        if episodes[i].1.len() > 0 {
            return true;
        }
        i = i + 1;
    }
    false
}

fn name_blank(name: &Option<String>) -> (b: bool)
    ensures
        b == name_is_blank(*name),
{
    match name {
        Some(n) => {
            let cs = crate::text::chars_of(n.as_str());
            let (b, e) = crate::text::trim_bounds(&cs);
            b == e
        },
        None => true,
    }
}

/// A category id sent as a string or as a number: the string, or the
/// decimal text of an `i64` number; nothing else is an id.
pub open spec fn spec_category_id_text(v: Option<JsonValue>) -> Option<Seq<char>> {
    match v {
        Some(JsonValue::String(s)) => Some(s@),
        Some(JsonValue::Number(n)) => match number_as_i64(n) {
            Some(i) => Some(dec_int(i as int)),
            None => None,
        },
        _ => None,
    }
}

/// The category id of a `get_series_info` record.
pub fn category_id_text(v: Option<JsonValue>) -> (r: Option<String>)
    ensures
        match r {
            Some(s) => spec_category_id_text(v) == Some(s@),
            None => spec_category_id_text(v) is None,
        },
{
    match v {
        Some(JsonValue::String(s)) => Some(s),
        Some(JsonValue::Number(n)) => match as_i64(&n) {
            Some(i) => {
                let mut t = String::new();
                push_i64(&mut t, i);
                Some(t)
            },
            None => None,
        },
        _ => None,
    }
}

} // verus!
