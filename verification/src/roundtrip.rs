//! The names that the listings show carry the ids that requests are resolved
//! by: each id tag and each season folder parses back to what was written.

use vstd::prelude::*;

use crate::handlers::spec_episode_request;
use crate::json::JsonValue;
use crate::naming::{
    collapse_ws, epid_stem, episode_raw_title, is_path_unsafe, squeeze, unsafe_to_space,
    episode_marker, episode_title_part, has_season_episode, two_digits, has_video_ext, info_raw_title, last_paren_year_below, opt_tmdb,
    paren_year_at, series_release_date, show_title_part, spec_display_title, spec_display_year,
    spec_display_year_series, spec_episode_filename, spec_episode_number, spec_episode_season_number,
    spec_episode_stream_id, spec_extension,
    spec_movie_base_name, spec_parse_season_dir, spec_parse_tagged_id, spec_sanitize_title,
    spec_season_dir_name, spec_show_base_name, spec_show_base_name_info, spec_show_base_name_listing,
    spec_split_video_ext, spec_strip_trailing_paren_year, spec_tmdb_number, spec_vod_release_date,
    split_video_ext_from, tmdb_tags, video_ext, year_from_json, year_from_number, year_from_str,
};
use crate::text::{
    all_digits, ascii_lower, rfind_char, lemma_rfind_char_props, dec_int, dec_nat, digit_val, digits_value, ends_with, find,
    is_ascii_digit, is_ws, lemma_dec_nat_digits, lemma_digits_value_dec_nat, lemma_find_from_props, lemma_trim_end_is_prefix, lemma_trim_start_is_suffix,
    lemma_parse_i32_dec_int, lemma_parse_i64_dec_int, lower_seq, starts_with, trim, trim_end,
    trim_start,
};
use crate::xtream::types::{SeriesEpisode, SeriesInfoMeta, SeriesListing, VodStream};

verus! {

/// No `{` in `s`.
pub open spec fn no_brace(s: Seq<char>) -> bool {
    forall|k: int| 0 <= k < s.len() ==> s[k] != '{'
}

/// Every `{` of `s` has a next character in `s`, and it is not `c`.
pub open spec fn brace_not_followed_by(s: Seq<char>, c: char) -> bool {
    forall|j: int| 0 <= j < s.len() && #[trigger] s[j] == '{' ==> j + 1 < s.len() && s[j + 1] != c
}

proof fn lemma_no_brace_not_followed(s: Seq<char>, c: char)
    requires
        no_brace(s),
    ensures
        brace_not_followed_by(s, c),
{
}

proof fn lemma_brace_concat(a: Seq<char>, b: Seq<char>, c: char)
    requires
        brace_not_followed_by(a, c),
        brace_not_followed_by(b, c),
    ensures
        brace_not_followed_by(a + b, c),
{
    let s = a + b;
    assert forall|j: int| 0 <= j < s.len() && #[trigger] s[j] == '{' implies j + 1 < s.len() && s[j + 1]
        != c by {
        if j < a.len() {
            assert(s[j] == a[j]);
            assert(s[j + 1] == a[j + 1]);
        } else {
            assert(s[j] == b[j - a.len()]);
            assert(s[j + 1] == b[j + 1 - a.len()]);
        }
    }
}

proof fn lemma_digits_no_brace(s: Seq<char>)
    requires
        all_digits(s),
    ensures
        no_brace(s),
{
    assert forall|k: int| 0 <= k < s.len() implies s[k] != '{' by {
        assert(is_ascii_digit(s[k]));
    }
}

proof fn lemma_dec_nat_no_brace(n: nat)
    ensures
        no_brace(dec_nat(n)),
        forall|k: int| 0 <= k < dec_nat(n).len() ==> dec_nat(n)[k] != '}',
{
    lemma_dec_nat_digits(n);
    assert forall|k: int| 0 <= k < dec_nat(n).len() implies dec_nat(n)[k] != '{' && dec_nat(n)[k]
        != '}' by {
        assert(is_ascii_digit(dec_nat(n)[k]));
    }
}

proof fn lemma_no_brace_concat(a: Seq<char>, b: Seq<char>)
    requires
        no_brace(a),
        no_brace(b),
    ensures
        no_brace(a + b),
{
    assert forall|k: int| 0 <= k < (a + b).len() implies (a + b)[k] != '{' by {
        if k >= a.len() {
            assert((a + b)[k] == b[k - a.len()]);
        }
    }
}

proof fn lemma_two_digits_no_brace(n: i32)
    ensures
        no_brace(two_digits(n)),
{
    reveal_strlit("0");
    if 0 <= n < 10 {
        lemma_dec_nat_no_brace(n as nat);
        lemma_no_brace_concat("0"@, dec_nat(n as nat));
    } else if n < 0 {
        lemma_dec_nat_no_brace((-n) as nat);
        lemma_no_brace_concat(seq!['-'], dec_nat((-n) as nat));
    } else {
        lemma_dec_nat_no_brace(n as nat);
    }
}

/// The text between an episode's title part and its `{epid-` tag holds no `{`.
proof fn lemma_episode_gap_no_brace(ep: SeriesEpisode)
    ensures
        no_brace(episode_marker(ep) + " "@),
        (episode_marker(ep) + " "@)[0] == ' ',
{
    reveal_strlit(" - S");
    reveal_strlit("E");
    reveal_strlit(" ");
    let a = two_digits(spec_episode_season_number(ep));
    let b = two_digits(spec_episode_number(ep));
    lemma_two_digits_no_brace(spec_episode_season_number(ep));
    lemma_two_digits_no_brace(spec_episode_number(ep));
    lemma_no_brace_concat(" - S"@, a);
    lemma_no_brace_concat(" - S"@ + a, "E"@);
    lemma_no_brace_concat(" - S"@ + a + "E"@, b);
    lemma_no_brace_concat(" - S"@ + a + "E"@ + b, " "@);
    if has_season_episode(episode_title_part(ep)) {
        assert(Seq::<char>::empty() + " "@ =~= " "@);
        assert(no_brace(" "@));
    }
}

proof fn lemma_dec_int_no_close(i: int)
    ensures
        forall|k: int| 0 <= k < dec_int(i).len() ==> dec_int(i)[k] != '}',
{
    if i < 0 {
        let d = dec_nat((-i) as nat);
        lemma_dec_nat_no_brace((-i) as nat);
        assert forall|k: int| 0 <= k < dec_int(i).len() implies dec_int(i)[k] != '}' by {
            if k > 0 {
                assert(dec_int(i)[k] == d[k - 1]);
            }
        }
    } else {
        lemma_dec_nat_no_brace(i as nat);
    }
}

// ------------------------------------------------------------------
// Year texts hold no brace
// ------------------------------------------------------------------

proof fn lemma_unknown_no_brace()
    ensures
        no_brace("Unknown"@),
{
    reveal_strlit("Unknown");
}

proof fn lemma_year_from_str_no_brace(s: Seq<char>)
    ensures
        year_from_str(s) matches Some(y) ==> no_brace(y),
{
    let t = trim(s);
    if t.len() >= 4 && all_digits(t.take(4)) {
        lemma_digits_no_brace(t.take(4));
    }
}

proof fn lemma_year_from_json_no_brace(v: JsonValue)
    ensures
        year_from_json(v) matches Some(y) ==> no_brace(y),
{
    match v {
        JsonValue::String(s) => lemma_year_from_str_no_brace(s@),
        JsonValue::Number(n) => {
            match year_from_number(n) {
                Some(y) => {
                    let u: u32 = match n {
                        crate::json::JsonNumber::PosInt(u) => u as u32,
                        crate::json::JsonNumber::NegInt(i) => (i as u64) as u32,
                        crate::json::JsonNumber::Float(_) => 0,
                    };
                    lemma_dec_nat_no_brace(u as nat);
                },
                None => {},
            }
        },
        _ => {},
    }
}

proof fn lemma_last_paren_year_no_brace(t: Seq<char>, n: nat)
    ensures
        last_paren_year_below(t, n) matches Some(y) ==> no_brace(y),
    decreases n,
{
    if n > 0 {
        if paren_year_at(t, n - 1) {
            lemma_digits_no_brace(t.subrange(n as int, (n + 4) as int));
        } else {
            lemma_last_paren_year_no_brace(t, (n - 1) as nat);
        }
    }
}

proof fn lemma_display_year_series_no_brace(name: Seq<char>, rd: Option<Seq<char>>)
    ensures
        no_brace(spec_display_year_series(name, rd)),
{
    lemma_unknown_no_brace();
    lemma_last_paren_year_no_brace(name, name.len());
    match rd {
        Some(d) => lemma_year_from_str_no_brace(trim(d)),
        None => {},
    }
}

proof fn lemma_display_year_no_brace(l: VodStream)
    ensures
        no_brace(spec_display_year(l)),
{
    lemma_unknown_no_brace();
    lemma_last_paren_year_no_brace(l.name@, l.name@.len());
    match l.year {
        Some(j) => lemma_year_from_json_no_brace(j),
        None => {},
    }
    match spec_vod_release_date(l) {
        Some(d) => lemma_year_from_str_no_brace(trim(d@)),
        None => {},
    }
    match l.title {
        Some(t) => lemma_last_paren_year_no_brace(t@, t@.len()),
        None => {},
    }
}

proof fn lemma_tmdb_tags_braces(t: Option<u64>, c: char)
    requires
        c != 't',
    ensures
        brace_not_followed_by(tmdb_tags(t), c),
{
    reveal_strlit(" {tmdb-");
    reveal_strlit("} [tmdbid-");
    reveal_strlit("]");
    match t {
        Some(n) => {
            let d = dec_nat(n as nat);
            lemma_dec_nat_no_brace(n as nat);
            assert(brace_not_followed_by(" {tmdb-"@, c));
            assert(no_brace("} [tmdbid-"@));
            assert(no_brace("]"@));
            lemma_no_brace_not_followed(d, c);
            lemma_no_brace_not_followed("} [tmdbid-"@, c);
            lemma_no_brace_not_followed("]"@, c);
            lemma_brace_concat(" {tmdb-"@, d, c);
            lemma_brace_concat(" {tmdb-"@ + d, "} [tmdbid-"@, c);
            lemma_brace_concat(" {tmdb-"@ + d + "} [tmdbid-"@, d, c);
            lemma_brace_concat(" {tmdb-"@ + d + "} [tmdbid-"@ + d, "]"@, c);
        },
        None => {
            assert(tmdb_tags(t) =~= Seq::<char>::empty());
        },
    }
}

/// The text between a folder's title and its id tag: ` (year)`, the TMDB
/// tags, and a space.
pub open spec fn tag_gap(year: Seq<char>, t: Option<u64>) -> Seq<char> {
    " ("@ + year + ")"@ + tmdb_tags(t) + " "@
}

proof fn lemma_tag_gap(year: Seq<char>, t: Option<u64>, c: char)
    requires
        no_brace(year),
        c != 't',
    ensures
        brace_not_followed_by(tag_gap(year, t), c),
        tag_gap(year, t).len() >= 1,
        tag_gap(year, t)[0] == ' ',
{
    reveal_strlit(" (");
    reveal_strlit(")");
    reveal_strlit(" ");
    assert(no_brace(" ("@));
    assert(no_brace(")"@));
    assert(no_brace(" "@));
    lemma_no_brace_not_followed(" ("@, c);
    lemma_no_brace_not_followed(year, c);
    lemma_no_brace_not_followed(")"@, c);
    lemma_no_brace_not_followed(" "@, c);
    lemma_tmdb_tags_braces(t, c);
    lemma_brace_concat(" ("@, year, c);
    lemma_brace_concat(" ("@ + year, ")"@, c);
    lemma_brace_concat(" ("@ + year + ")"@, tmdb_tags(t), c);
    lemma_brace_concat(" ("@ + year + ")"@ + tmdb_tags(t), " "@, c);
}

// ------------------------------------------------------------------
// Tags
// ------------------------------------------------------------------

proof fn lemma_no_key_before(title: Seq<char>, gap: Seq<char>, key: Seq<char>, tail: Seq<char>, j: int)
    requires
        key.len() >= 2,
        key[0] == '{',
        forall|i: int| 1 <= i < key.len() ==> key[i] != ' ',
        find(title, key) is None,
        gap.len() >= 1,
        gap[0] == ' ',
        brace_not_followed_by(gap, key[1]),
        0 <= j < title.len() + gap.len(),
    ensures
        (title + gap + key + tail).subrange(j, j + key.len()) != key,
{
    let s = title + gap + key + tail;
    let kl = key.len() as int;
    let w = s.subrange(j, j + kl);
    if w == key {
        if j + kl <= title.len() {
            lemma_find_from_props(title, key, 0);
            assert(w =~= title.subrange(j, j + kl));
            assert(title.subrange(j as nat as int, (j as nat + key.len()) as int) != key);
        } else if j < title.len() {
            let d = title.len() - j;
            assert(w[d] == s[title.len() as int]);
            assert(s[title.len() as int] == gap[0]);
            assert(key[d] != ' ');
        } else {
            let g = j - title.len();
            assert(w[0] == s[j]);
            assert(s[j] == gap[g]);
            assert(gap[g] == '{');
            assert(w[1] == s[j + 1]);
            assert(s[j + 1] == gap[g + 1]);
        }
    }
}

/// A tag `key` written after `title` and `gap` is the first occurrence of
/// `key` when `title` has none and `gap` starts with a space and never has a
/// `{` followed by the key's second character.
proof fn lemma_key_first_after(title: Seq<char>, gap: Seq<char>, key: Seq<char>, tail: Seq<char>)
    requires
        key.len() >= 2,
        key[0] == '{',
        forall|i: int| 1 <= i < key.len() ==> key[i] != ' ',
        find(title, key) is None,
        gap.len() >= 1,
        gap[0] == ' ',
        brace_not_followed_by(gap, key[1]),
    ensures
        find(title + gap + key + tail, key) == Some((title.len() + gap.len()) as nat),
{
    let s = title + gap + key + tail;
    let p: int = (title.len() + gap.len()) as int;
    let kl: int = key.len() as int;
    assert(s.subrange(p, p + kl) =~= key);
    lemma_find_from_props(s, key, 0);
    match find(s, key) {
        Some(k) => {
            if k < p {
                lemma_no_key_before(title, gap, key, tail, k as int);
            }
        },
        None => {
            assert(s.subrange(p as nat as int, (p as nat + key.len()) as int) != key);
        },
    }
}

/// `title`, `gap`, the tag `key`, the id and `}`, then anything: the tag
/// parses back to the id.
proof fn lemma_tagged_id(
    title: Seq<char>,
    gap: Seq<char>,
    key: Seq<char>,
    id: i64,
    suffix: Seq<char>,
)
    requires
        key.len() >= 2,
        key[0] == '{',
        forall|i: int| 1 <= i < key.len() ==> key[i] != ' ',
        find(title, key) is None,
        gap.len() >= 1,
        gap[0] == ' ',
        brace_not_followed_by(gap, key[1]),
    ensures
        spec_parse_tagged_id(title + gap + key + dec_int(id as int) + "}"@ + suffix, key) == Some(id),
{
    reveal_strlit("}");
    let d = dec_int(id as int);
    let tail = d + "}"@ + suffix;
    let s = title + gap + key + d + "}"@ + suffix;
    assert(s =~= title + gap + key + tail);
    lemma_key_first_after(title, gap, key, tail);
    let p: int = (title.len() + gap.len()) as int;
    let rest = s.skip(p + key.len());
    assert(rest =~= tail);
    lemma_dec_int_no_close(id as int);
    lemma_find_from_props(rest, "}"@, 0);
    assert(rest.subrange(d.len() as int, d.len() + 1int) =~= "}"@);
    assert forall|j: nat| j < d.len() implies #[trigger] rest.subrange(j as int, j + 1int) != "}"@ by {
        assert(rest.subrange(j as int, j + 1int)[0] == d[j as int]);
    }
    match find(rest, "}"@) {
        Some(e) => {
            if e < d.len() {
                assert(rest.subrange(e as int, e + 1int) == "}"@);
            }
            if e > d.len() {
                assert(rest.subrange(d.len() as int, d.len() + 1int) != "}"@);
            }
        },
        None => {},
    }
    assert(rest.take(d.len() as int) =~= d);
    lemma_parse_i64_dec_int(id);
}

/// Show folders carry their series id: `{seriesid-N}` in the folder name of a
/// `get_series` row parses back to the row's id, unless the name itself
/// already holds a `{seriesid-` tag.
pub proof fn law_show_folder_names_its_series(l: SeriesListing)
    requires
        find(l.name@, "{seriesid-"@) is None,
    ensures
        spec_parse_tagged_id(spec_show_base_name_listing(l), "{seriesid-"@) == Some(l.series_id),
{
    lemma_tag_keys();
    lemma_trim_keeps_no_tag(l.name@, "{seriesid-"@);
    lemma_strip_keeps_no_tag(trim(l.name@), "{seriesid-"@);
    lemma_sanitize_adds_no_tag(spec_strip_trailing_paren_year(trim(l.name@)), "{seriesid-"@);
    reveal_strlit("{seriesid-");
    reveal_strlit(" {seriesid-");
    reveal_strlit(" (");
    reveal_strlit(")");
    reveal_strlit(" ");
    reveal_strlit("}");
    let raw = trim(l.name@);
    let year = spec_display_year_series(raw, series_release_date(l.release_date, l.release_date_alt));
    let t = opt_tmdb(l.tmdb);
    lemma_display_year_series_no_brace(raw, series_release_date(l.release_date, l.release_date_alt));
    lemma_tag_gap(year, t, 's');
    let key = "{seriesid-"@;
    let title = show_title_part(raw);
    assert(spec_show_base_name_listing(l) =~= title + tag_gap(year, t) + key + dec_int(
        l.series_id as int,
    ) + "}"@ + Seq::<char>::empty());
    lemma_tagged_id(title, tag_gap(year, t), key, l.series_id, Seq::empty());
}

/// Movie folders carry their stream id: `{vodid-N}` in the folder name of a
/// `get_vod_streams` row parses back to its stream id, unless its name or
/// title itself already holds a `{vodid-` tag.
pub proof fn law_movie_folder_names_its_stream(l: VodStream)
    requires
        find(l.name@, "{vodid-"@) is None,
        l.title matches Some(t) ==> find(t@, "{vodid-"@) is None,
    ensures
        spec_parse_tagged_id(spec_movie_base_name(l), "{vodid-"@) == Some(l.stream_id),
{
    lemma_tag_keys();
    lemma_trim_keeps_no_tag(l.name@, "{vodid-"@);
    if let Some(t) = l.title {
        lemma_trim_keeps_no_tag(t@, "{vodid-"@);
    }
    lemma_strip_keeps_no_tag(spec_display_title(l), "{vodid-"@);
    lemma_sanitize_adds_no_tag(spec_strip_trailing_paren_year(spec_display_title(l)), "{vodid-"@);
    reveal_strlit("{vodid-");
    reveal_strlit(" {vodid-");
    reveal_strlit(" (");
    reveal_strlit(")");
    reveal_strlit(" ");
    reveal_strlit("}");
    let year = spec_display_year(l);
    let t = spec_tmdb_number(l);
    lemma_display_year_no_brace(l);
    lemma_tag_gap(year, t, 'v');
    let key = "{vodid-"@;
    let title = spec_sanitize_title(spec_strip_trailing_paren_year(spec_display_title(l)));
    assert(spec_movie_base_name(l) =~= title + tag_gap(year, t) + key + dec_int(
        l.stream_id as int,
    ) + "}"@ + Seq::<char>::empty());
    lemma_tagged_id(title, tag_gap(year, t), key, l.stream_id, Seq::empty());
}

proof fn lemma_dec_int_no_brace(i: int)
    ensures
        no_brace(dec_int(i)),
{
    if i < 0 {
        lemma_dec_nat_no_brace((-i) as nat);
        lemma_no_brace_concat(seq!['-'], dec_nat((-i) as nat));
    } else {
        lemma_dec_nat_no_brace(i as nat);
    }
}

/// Texts `s + "{" + t` with no `{` in `t` split alike when they are equal:
/// the last `{` is at `s.len()`.
proof fn lemma_split_at_last_brace(s1: Seq<char>, t1: Seq<char>, s2: Seq<char>, t2: Seq<char>)
    requires
        no_brace(t1),
        no_brace(t2),
        s1 + seq!['{'] + t1 == s2 + seq!['{'] + t2,
    ensures
        t1 == t2,
{
    let a1 = s1 + seq!['{'];
    let a2 = s2 + seq!['{'];
    let f = a1 + t1;
    let g = a2 + t2;
    assert(f.len() == g.len());
    assert(f[s1.len() as int] == a1[s1.len() as int]);
    assert(g[s2.len() as int] == a2[s2.len() as int]);
    assert(f[s1.len() as int] == '{');
    assert(g[s2.len() as int] == '{');
    if s1.len() < s2.len() {
        assert(f[s2.len() as int] == t1[s2.len() - s1.len() - 1]);
    }
    if s2.len() < s1.len() {
        assert(g[s1.len() as int] == t2[s1.len() - s2.len() - 1]);
    }
    assert(t1 =~= f.skip(s1.len() + 1int));
    assert(t2 =~= g.skip(s2.len() + 1int));
}

/// Two show folder names that are equal name the same series id, whatever
/// their titles hold: the id tag is what follows the last `{`.
pub proof fn lemma_show_folder_determines_id(
    raw1: Seq<char>,
    rd1: Option<Seq<char>>,
    tmdb1: Option<u64>,
    id1: i64,
    raw2: Seq<char>,
    rd2: Option<Seq<char>>,
    tmdb2: Option<u64>,
    id2: i64,
)
    requires
        spec_show_base_name(raw1, rd1, tmdb1, id1) == spec_show_base_name(raw2, rd2, tmdb2, id2),
    ensures
        id1 == id2,
{
    reveal_strlit(" {seriesid-");
    reveal_strlit("seriesid-");
    reveal_strlit("}");
    reveal_strlit(" (");
    reveal_strlit(")");
    let key = "seriesid-"@;
    assert(no_brace(key));
    assert(no_brace("}"@));
    let t1 = key + dec_int(id1 as int) + "}"@;
    let t2 = key + dec_int(id2 as int) + "}"@;
    lemma_dec_int_no_brace(id1 as int);
    lemma_dec_int_no_brace(id2 as int);
    lemma_no_brace_concat(key, dec_int(id1 as int));
    lemma_no_brace_concat(key + dec_int(id1 as int), "}"@);
    lemma_no_brace_concat(key, dec_int(id2 as int));
    lemma_no_brace_concat(key + dec_int(id2 as int), "}"@);
    let s1 = show_title_part(raw1) + " ("@ + spec_display_year_series(raw1, rd1) + ")"@ + tmdb_tags(
        tmdb1,
    ) + seq![' '];
    let s2 = show_title_part(raw2) + " ("@ + spec_display_year_series(raw2, rd2) + ")"@ + tmdb_tags(
        tmdb2,
    ) + seq![' '];
    assert(spec_show_base_name(raw1, rd1, tmdb1, id1) =~= s1 + seq!['{'] + t1);
    assert(spec_show_base_name(raw2, rd2, tmdb2, id2) =~= s2 + seq!['{'] + t2);
    lemma_split_at_last_brace(s1, t1, s2, t2);
    assert(dec_int(id1 as int) =~= t1.subrange(key.len() as int, t1.len() - 1));
    assert(dec_int(id2 as int) =~= t2.subrange(key.len() as int, t2.len() - 1));
    lemma_parse_i64_dec_int(id1);
    lemma_parse_i64_dec_int(id2);
}

/// Episode files carry their stream id: `{epid-N}` in an episode's file name
/// parses back to the episode's id, with or without the extension, unless
/// the episode's title itself already holds an `{epid-` tag.
pub proof fn law_episode_file_names_its_stream(ep: SeriesEpisode)
    requires
        spec_episode_stream_id(ep) is Some,
        ep.title matches Some(t) ==> find(t@, "{epid-"@) is None,
    ensures
        spec_episode_filename(ep) matches Some(f) && spec_parse_tagged_id(f, "{epid-"@)
            == spec_episode_stream_id(ep),
        spec_parse_tagged_id(
            episode_title_part(ep) + episode_marker(ep) + " {epid-"@ + dec_int(
                spec_episode_stream_id(ep)->0 as int,
            ) + "}"@,
            "{epid-"@,
        ) == spec_episode_stream_id(ep),
{
    lemma_episode_title_has_no_tag(ep);
    reveal_strlit("{epid-");
    reveal_strlit(" {epid-");
    reveal_strlit(" ");
    reveal_strlit("}");
    reveal_strlit("}.");
    reveal_strlit(".");
    let id = spec_episode_stream_id(ep)->0;
    let key = "{epid-"@;
    let title = episode_title_part(ep);
    let gap = episode_marker(ep) + " "@;
    lemma_episode_gap_no_brace(ep);
    lemma_no_brace_not_followed(gap, 'e');
    let ext = spec_extension(ep.container_extension);
    assert(spec_episode_filename(ep)->0 =~= title + gap + key + dec_int(id as int) + "}"@ + ("."@
        + ext));
    lemma_tagged_id(title, gap, key, id, "."@ + ext);
    assert(title + episode_marker(ep) + " {epid-"@ + dec_int(id as int) + "}"@ =~= title + gap
        + key + dec_int(id as int) + "}"@ + Seq::<char>::empty());
    lemma_tagged_id(title, gap, key, id, Seq::empty());
}

// ------------------------------------------------------------------
// Season folders
// ------------------------------------------------------------------

proof fn lemma_trim_unchanged(s: Seq<char>)
    requires
        s.len() > 0,
        !is_ws(s[0]),
        !is_ws(s.last()),
    ensures
        trim(s) == s,
{
    assert(trim_end(s) == s);
    assert(trim_start(s) == s);
}

/// Season folders parse back: `parse_season_dir(season_dir_name(n)) == n`
/// for every season number.
pub proof fn law_season_dir_roundtrip(n: i32)
    ensures
        spec_parse_season_dir(spec_season_dir_name(n)) == Some(n),
{
    reveal_strlit("Season ");
    reveal_strlit("0");
    let num = if 0 <= n < 10 {
        "0"@ + dec_nat(n as nat)
    } else {
        dec_int(n as int)
    };
    let dir = spec_season_dir_name(n);
    assert(dir =~= "Season "@ + num);
    if n >= 0 {
        lemma_dec_nat_digits(n as nat);
        lemma_digits_value_dec_nat(n as nat);
    } else {
        lemma_dec_nat_digits((-(n as int)) as nat);
    }
    if 0 <= n < 10 {
        assert(is_ascii_digit(num.last()));
        assert(num.last() == dec_nat(n as nat).last());
    } else if n < 0 {
        assert(num.last() == dec_nat((-(n as int)) as nat).last());
        assert(is_ascii_digit(num.last()));
    } else {
        assert(is_ascii_digit(num.last()));
    }
    assert(dir.last() == num.last());
    lemma_trim_unchanged(dir);
    assert(starts_with(dir, "Season "@)) by {
        assert(dir.take(7) =~= "Season "@);
    }
    assert(dir.skip(7) =~= num);
    if 0 <= n < 10 {
        assert(num[0] == '0');
        assert(num.last() == dec_nat(n as nat)[0]);
        lemma_trim_unchanged(num);
        assert(num.drop_last() =~= seq!['0']);
        assert(seq!['0'].drop_last() =~= Seq::<char>::empty());
        assert(digits_value(Seq::<char>::empty()) == 0);
        assert(digits_value(seq!['0']) == digits_value(Seq::<char>::empty()) * 10 + digit_val('0'));
        assert(digits_value(seq!['0']) == 0);
        assert(all_digits(num));
        assert(digits_value(num) == n);
    } else {
        if n < 0 {
            assert(num[0] == '-');
        } else {
            assert(is_ascii_digit(num[0]));
        }
        lemma_trim_unchanged(num);
        lemma_parse_i32_dec_int(n);
    }
}

// ------------------------------------------------------------------
// Show folders from listings and from details
// ------------------------------------------------------------------

/// A show's folder name is the same whether it is built from its
/// `get_series` row or from its `get_series_info` record, when both give the
/// same name, release dates and TMDB id.
pub proof fn law_show_folder_same_from_listing_and_info(l: SeriesListing, info: SeriesInfoMeta)
    requires
        info.name matches Some(n) && trim(n@) == trim(l.name@),
        series_release_date(info.release_date, info.release_date_alt) == series_release_date(
            l.release_date,
            l.release_date_alt,
        ),
        opt_tmdb(info.tmdb) == opt_tmdb(l.tmdb),
    ensures
        spec_show_base_name_info(info, l.series_id) == spec_show_base_name_listing(l),
{
    assert(info_raw_title(info) == trim(l.name@));
}

// ------------------------------------------------------------------
// Episode paths
// ------------------------------------------------------------------

proof fn lemma_video_ext_facts(i: int)
    requires
        0 <= i < 10,
    ensures
        video_ext(i).len() >= 2,
        forall|k: int|
            0 <= k < video_ext(i).len() ==> #[trigger] video_ext(i)[k] != '.' && ascii_lower(
                video_ext(i)[k],
            ) == video_ext(i)[k],
{
    reveal_strlit("mp4");
    reveal_strlit("mkv");
    reveal_strlit("avi");
    reveal_strlit("ts");
    reveal_strlit("m3u8");
    reveal_strlit("webm");
    reveal_strlit("mov");
    reveal_strlit("wmv");
    reveal_strlit("flv");
    reveal_strlit("m4v");
}

proof fn lemma_video_ext_distinct(i: int, j: int)
    requires
        0 <= i < 10,
        0 <= j < 10,
        i != j,
    ensures
        video_ext(i) != video_ext(j),
{
    reveal_strlit("mp4");
    reveal_strlit("mkv");
    reveal_strlit("avi");
    reveal_strlit("ts");
    reveal_strlit("m3u8");
    reveal_strlit("webm");
    reveal_strlit("mov");
    reveal_strlit("wmv");
    reveal_strlit("flv");
    reveal_strlit("m4v");
    if video_ext(i) == video_ext(j) {
        assert(video_ext(i).len() == video_ext(j).len());
        assert(video_ext(i)[0] == video_ext(j)[0]);
        assert(video_ext(i)[1] == video_ext(j)[1]);
        if video_ext(i).len() > 2 {
            assert(video_ext(i)[2] == video_ext(j)[2]);
        }
        if video_ext(i).len() > 3 {
            assert(video_ext(i)[3] == video_ext(j)[3]);
        }
    }
}

/// A known extension `j` other than `i` does not end `stem.ext_i`.
proof fn lemma_other_ext_absent(stem: Seq<char>, i: int, j: int)
    requires
        0 <= i < 10,
        0 <= j < 10,
        i != j,
    ensures
        !has_video_ext(stem + "."@ + video_ext(i), video_ext(j)),
{
    reveal_strlit(".");
    let ei = video_ext(i);
    let ej = video_ext(j);
    let f = stem + "."@ + ei;
    let l = lower_seq(f);
    lemma_video_ext_facts(i);
    lemma_video_ext_facts(j);
    lemma_video_ext_distinct(i, j);
    let pj = seq!['.'] + ej;
    if has_video_ext(f, ej) {
        assert(ends_with(l, pj));
        let tail = l.skip(l.len() - pj.len());
        assert(tail == pj);
        if ej.len() < ei.len() {
            let pos = l.len() - ej.len() - 1;
            assert(tail[0] == l[pos]);
            let k = ei.len() - ej.len() - 1;
            assert(f[pos] == ei[k]);
            assert(l[pos] == ascii_lower(f[pos]));
        } else if ej.len() > ei.len() {
            let pos = l.len() - ei.len() - 1;
            assert(f[pos] == '.');
            assert(l[pos] == ascii_lower(f[pos]));
            let k = ej.len() - ei.len() - 1;
            assert(tail[k + 1] == l[pos]);
            assert(pj[k + 1] == ej[k]);
        } else {
            assert forall|k: int| 0 <= k < ej.len() implies ej[k] == ei[k] by {
                let pos = l.len() - ej.len() + k;
                assert(tail[k + 1] == l[pos]);
                assert(pj[k + 1] == ej[k]);
                assert(f[pos] == ei[k]);
                assert(l[pos] == ascii_lower(f[pos]));
            }
            assert(ej =~= ei);
        }
    }
}

/// `stem.ext` with a known extension splits back into the stem and the
/// extension.
proof fn lemma_split_known_ext(stem: Seq<char>, i: int)
    requires
        0 <= i < 10,
        stem.len() >= 1,
    ensures
        spec_split_video_ext(stem + "."@ + video_ext(i)) == Some((stem, video_ext(i))),
{
    reveal_strlit(".");
    let ei = video_ext(i);
    let f = stem + "."@ + ei;
    lemma_video_ext_facts(i);
    let pi = seq!['.'] + ei;
    let l = lower_seq(f);
    assert(l.skip(l.len() - pi.len()) =~= pi) by {
        assert forall|k: int| 0 <= k < pi.len() implies l.skip(l.len() - pi.len())[k] == pi[k] by {
            let pos = l.len() - pi.len() + k;
            assert(l[pos] == ascii_lower(f[pos]));
            if k > 0 {
                assert(f[pos] == ei[k - 1]);
            }
        }
    }
    assert(has_video_ext(f, ei));
    assert(f.take(f.len() - ei.len() - 1) =~= stem);
    lemma_split_from(stem, i, 0);
}

proof fn lemma_split_from(stem: Seq<char>, i: int, j: int)
    requires
        0 <= j <= i < 10,
    ensures
        split_video_ext_from(stem + "."@ + video_ext(i), j) == split_video_ext_from(
            stem + "."@ + video_ext(i),
            i,
        ),
    decreases i - j,
{
    if j < i {
        lemma_other_ext_absent(stem, i, j);
        lemma_split_from(stem, i, j + 1);
    }
}

/// The path of a listed episode file reads back to what was listed: in the
/// folder of its series and the folder of its season, the file name of an
/// episode whose extension is a known video extension gives the series id,
/// the season, the episode's stream id and the extension, unless the
/// episode's title itself holds an `{epid-` tag.
pub proof fn law_episode_path_reads_back(
    show_dir: Seq<char>,
    series_id: i64,
    season: i32,
    ep: SeriesEpisode,
    i: int,
)
    requires
        spec_parse_tagged_id(show_dir, "{seriesid-"@) == Some(series_id),
        spec_episode_stream_id(ep) is Some,
        ep.title matches Some(t) ==> find(t@, "{epid-"@) is None,
        0 <= i < 10,
        spec_extension(ep.container_extension) == video_ext(i),
    ensures
        spec_episode_request(show_dir, spec_season_dir_name(season), spec_episode_filename(ep)->0)
            == Ok::<(i64, i32, i64, Seq<char>), (u16, Seq<char>)>(
            (series_id, season, spec_episode_stream_id(ep)->0, video_ext(i)),
        ),
{
    reveal_strlit(" {epid-");
    reveal_strlit("}.");
    reveal_strlit("}");
    reveal_strlit(".");
    let id = spec_episode_stream_id(ep)->0;
    let stem = episode_title_part(ep) + episode_marker(ep) + " {epid-"@ + dec_int(id as int)
        + "}"@;
    assert(spec_episode_filename(ep)->0 =~= stem + "."@ + video_ext(i));
    lemma_split_known_ext(stem, i);
    law_episode_file_names_its_stream(ep);
    law_season_dir_roundtrip(season);
}

// ------------------------------------------------------------------
// Cleaning a title adds no tag
// ------------------------------------------------------------------

/// `key` occurs nowhere in `s`.
pub open spec fn no_occ(s: Seq<char>, key: Seq<char>) -> bool {
    forall|j: int|
        0 <= j && j + key.len() <= s.len() ==> #[trigger] s.subrange(j, j + key.len()) != key
}

/// `key` holds no whitespace.
pub open spec fn ws_free(key: Seq<char>) -> bool {
    forall|k: int| 0 <= k < key.len() ==> !is_ws(#[trigger] key[k])
}

proof fn lemma_no_occ_find(s: Seq<char>, key: Seq<char>)
    ensures
        no_occ(s, key) <==> find(s, key) is None,
{
    lemma_find_from_props(s, key, 0);
    match find(s, key) {
        Some(k) => {
            assert(s.subrange(k as int, (k + key.len()) as int) == key);
        },
        None => {
            assert forall|j: int| 0 <= j && j + key.len() <= s.len() implies #[trigger] s.subrange(
                j,
                j + key.len(),
            ) != key by {
                let jj = j as nat;
                assert(s.subrange(jj as int, (jj + key.len()) as int) != key);
            }
        },
    }
}

proof fn lemma_no_occ_sub(s: Seq<char>, key: Seq<char>, a: int, b: int)
    requires
        no_occ(s, key),
        0 <= a <= b <= s.len(),
    ensures
        no_occ(s.subrange(a, b), key),
{
    let t = s.subrange(a, b);
    assert forall|j: int| 0 <= j && j + key.len() <= t.len() implies #[trigger] t.subrange(
        j,
        j + key.len(),
    ) != key by {
        assert(t.subrange(j, j + key.len()) =~= s.subrange(a + j, a + j + key.len()));
    }
}

/// Squeezing whitespace creates no occurrence of a key without whitespace:
/// `tail` is the whitespace-free end of `acc` that the next character would
/// extend.
proof fn lemma_squeeze_no_occ(s: Seq<char>, acc: Seq<char>, gap: bool, key: Seq<char>, tail: Seq<char>)
    requires
        key.len() >= 1,
        ws_free(key),
        no_occ(acc, key),
        tail.len() <= acc.len(),
        tail == acc.skip(acc.len() - tail.len()),
        ws_free(tail),
        !gap && tail.len() < acc.len() ==> is_ws(acc[acc.len() - tail.len() - 1]),
        gap || acc.len() == 0 ==> tail.len() == 0,
        no_occ(tail + s, key),
    ensures
        no_occ(squeeze(s, acc, gap), key),
    decreases s.len(),
{
    if s.len() == 0 {
        return;
    }
    let c = s[0];
    let rest = s.drop_first();
    assert(rest =~= (tail + s).subrange(tail.len() + 1int, (tail + s).len() as int));
    lemma_no_occ_sub(tail + s, key, tail.len() + 1int, (tail + s).len() as int);
    if is_ws(c) {
        assert(acc.skip(acc.len() as int) =~= Seq::<char>::empty());
        lemma_squeeze_no_occ(rest, acc, true, key, Seq::empty());
        assert(Seq::<char>::empty() + rest =~= rest);
    } else if gap && acc.len() > 0 {
        let acc2 = acc.push(' ').push(c);
        assert forall|j: int| 0 <= j && j + key.len() <= acc2.len() implies #[trigger] acc2.subrange(
            j,
            j + key.len(),
        ) != key by {
            let w = acc2.subrange(j, j + key.len());
            if j + key.len() <= acc.len() {
                assert(w =~= acc.subrange(j, j + key.len()));
            } else if j <= acc.len() {
                assert(w[acc.len() - j] == ' ');
            } else {
                assert(tail.len() == 0);
                assert(w =~= (tail + s).subrange(0, 1));
            }
        }
        let t2 = seq![c];
        assert(t2 + rest =~= s);
        assert(acc2.skip(acc2.len() - 1) =~= t2);
        lemma_squeeze_no_occ(rest, acc2, false, key, t2);
    } else {
        let acc2 = acc.push(c);
        let t2 = tail.push(c);
        let start = acc.len() - tail.len();
        assert forall|j: int| 0 <= j && j + key.len() <= acc2.len() implies #[trigger] acc2.subrange(
            j,
            j + key.len(),
        ) != key by {
            let w = acc2.subrange(j, j + key.len());
            if j + key.len() <= acc.len() {
                assert(w =~= acc.subrange(j, j + key.len()));
            } else if j >= start {
                assert(w =~= (tail + s).subrange(j - start, j - start + key.len()));
            } else {
                assert(w[start - 1 - j] == acc[start - 1]);
            }
        }
        assert(t2 + rest =~= tail + s);
        assert(acc2.skip(acc2.len() - t2.len()) =~= t2);
        lemma_squeeze_no_occ(rest, acc2, false, key, t2);
    }
}

/// Sanitizing a title creates no occurrence of a tag key: a key that starts
/// with `{` and holds no whitespace or path-unsafe character occurs in the
/// sanitized title only if it occurs in the raw one.
pub proof fn lemma_sanitize_adds_no_tag(raw: Seq<char>, key: Seq<char>)
    requires
        key.len() >= 1,
        key[0] == '{',
        ws_free(key),
        forall|k: int| 0 <= k < key.len() ==> !is_path_unsafe(#[trigger] key[k]),
        find(raw, key) is None,
    ensures
        find(spec_sanitize_title(raw), key) is None,
{
    reveal_strlit("Untitled");
    lemma_no_occ_find(raw, key);
    let u = unsafe_to_space(raw);
    assert forall|j: int| 0 <= j && j + key.len() <= u.len() implies #[trigger] u.subrange(
        j,
        j + key.len(),
    ) != key by {
        if u.subrange(j, j + key.len()) == key {
            assert forall|k: int| 0 <= k < key.len() implies raw.subrange(j, j + key.len())[k]
                == key[k] by {
                assert(u[j + k] == key[k]);
                assert(!is_ws(key[k]));
                assert(u[j + k] == (if is_path_unsafe(raw[j + k]) { ' ' } else { raw[j + k] }));
            }
            assert(raw.subrange(j, j + key.len()) =~= key);
        }
    }
    assert(Seq::<char>::empty() + u =~= u);
    assert(Seq::<char>::empty().skip(0) =~= Seq::<char>::empty());
    lemma_squeeze_no_occ(u, Seq::empty(), false, key, Seq::empty());
    let w = collapse_ws(u);
    if w.len() == 0 {
        let t = "Untitled"@;
        assert forall|j: int| 0 <= j && j + key.len() <= t.len() implies #[trigger] t.subrange(
            j,
            j + key.len(),
        ) != key by {
            assert(t.subrange(j, j + key.len())[0] == t[j]);
        }
        lemma_no_occ_find(t, key);
    } else {
        lemma_no_occ_find(w, key);
    }
}

proof fn lemma_sub_keeps_no_tag(s: Seq<char>, key: Seq<char>, a: int, b: int)
    requires
        find(s, key) is None,
        0 <= a <= b <= s.len(),
    ensures
        find(s.subrange(a, b), key) is None,
{
    lemma_no_occ_find(s, key);
    lemma_no_occ_sub(s, key, a, b);
    lemma_no_occ_find(s.subrange(a, b), key);
}

proof fn lemma_trim_keeps_no_tag(s: Seq<char>, key: Seq<char>)
    requires
        find(s, key) is None,
    ensures
        find(trim_end(s), key) is None,
        find(trim(s), key) is None,
{
    lemma_trim_end_is_prefix(s);
    let e = trim_end(s);
    lemma_sub_keeps_no_tag(s, key, 0, e.len() as int);
    assert(e =~= s.subrange(0, e.len() as int));
    lemma_trim_start_is_suffix(e);
    lemma_sub_keeps_no_tag(e, key, e.len() - trim(s).len(), e.len() as int);
    assert(trim(s) =~= e.subrange(e.len() - trim(s).len(), e.len() as int));
}

proof fn lemma_strip_keeps_no_tag(s: Seq<char>, key: Seq<char>)
    requires
        find(s, key) is None,
    ensures
        find(spec_strip_trailing_paren_year(s), key) is None,
{
    lemma_trim_keeps_no_tag(s, key);
    let t = trim_end(s);
    if t.len() > 0 && t.last() == ')' {
        lemma_rfind_char_props(t.drop_last(), '(');
        match rfind_char(t.drop_last(), '(') {
            Some(open) => {
                lemma_sub_keeps_no_tag(t, key, 0, open as int);
                assert(t.take(open as int) =~= t.subrange(0, open as int));
                lemma_trim_keeps_no_tag(t.take(open as int), key);
            },
            None => {},
        }
    }
}

/// A tag key: `{`, then letters and a `-`; no whitespace, nothing unsafe in a path.
pub open spec fn tag_key(key: Seq<char>) -> bool {
    &&& key.len() >= 1
    &&& key[0] == '{'
    &&& ws_free(key)
    &&& forall|k: int| 0 <= k < key.len() ==> !is_path_unsafe(#[trigger] key[k])
}

proof fn lemma_tag_keys()
    ensures
        tag_key("{seriesid-"@),
        tag_key("{vodid-"@),
        tag_key("{epid-"@),
{
    reveal_strlit("{seriesid-");
    reveal_strlit("{vodid-");
    reveal_strlit("{epid-");
}

proof fn lemma_no_brace_no_tag(s: Seq<char>, key: Seq<char>)
    requires
        no_brace(s),
        key.len() >= 1,
        key[0] == '{',
    ensures
        find(s, key) is None,
{
    assert forall|j: int| 0 <= j && j + key.len() <= s.len() implies #[trigger] s.subrange(
        j,
        j + key.len(),
    ) != key by {
        assert(s.subrange(j, j + key.len())[0] == s[j]);
    }
    lemma_no_occ_find(s, key);
}

/// An episode whose title holds no `{epid-` tag has a title part without one.
proof fn lemma_episode_title_has_no_tag(ep: SeriesEpisode)
    requires
        ep.title matches Some(t) ==> find(t@, "{epid-"@) is None,
    ensures
        find(episode_title_part(ep), "{epid-"@) is None,
{
    lemma_tag_keys();
    let key = "{epid-"@;
    let raw = episode_raw_title(ep);
    if raw == "Episode"@ {
        reveal_strlit("Episode");
        lemma_no_brace_no_tag(raw, key);
    } else {
        let t = ep.title->0;
        lemma_trim_keeps_no_tag(t@, key);
    }
    lemma_find_from_props(raw, " {epid-"@, 0);
    match find(raw, " {epid-"@) {
        Some(i) => {
            lemma_sub_keeps_no_tag(raw, key, 0, i as int);
            assert(raw.take(i as int) =~= raw.subrange(0, i as int));
        },
        None => {},
    }
    lemma_sanitize_adds_no_tag(epid_stem(raw), key);
}

} // verus!
