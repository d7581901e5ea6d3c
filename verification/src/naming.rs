//! Folder and file names of the virtual library: movie folders, show folders,
//! season folders and episode files, and the ids parsed back out of them.

use vstd::prelude::*;

use crate::json::{as_i64, number_as_i64, JsonNumber, JsonValue};
use crate::sorting::{
    insert_index, lemma_stable_sort_items, lemma_stable_sort_permutes, lemma_stable_sort_sorted_by, stable_sort,
    strict_order,
};
use crate::text::{
    utf8_len, lemma_utf8_len_prefix_mono,
    all_digits, chars_of, dec_int, dec_nat, is_ascii_digit, is_ascii_digit_char, parse_u64,
    parse_u64_chars, find, find_in, parse_i64, parse_i64_chars, parse_i32, parse_i32_chars, occurs_at,
    is_ws, starts_with, ends_with, ascii_lower_char, is_ws_char, push_char, push_i64, lower_seq, lower_string, digits_up_to, digits_value, push_u64, rfind_char, rfind_char_in, string_of,
    trim, trim_bounds, trim_bounds_in, trim_end, trim_end_index, trim_end_index_in,
};
use crate::xtream::{SeriesDetail, SeriesEpisode, SeriesInfoMeta, SeriesListing, VodStream};

verus! {

pub open spec fn opt_view(o: Option<String>) -> Option<Seq<char>> {
    match o {
        Some(s) => Some(s@),
        None => None,
    }
}

// ------------------------------------------------------------------
// Titles
// ------------------------------------------------------------------

/// `display_title`: the trimmed title, or the trimmed name when the title is
/// missing or blank.
pub open spec fn spec_display_title(l: VodStream) -> Seq<char> {
    match l.title {
        Some(t) => if trim(t@).len() > 0 {
            trim(t@)
        } else {
            trim(l.name@)
        },
        None => trim(l.name@),
    }
}

/// `s.trim().to_string()` of a `&str`.
pub fn trimmed(s: &str) -> (r: String)
    ensures
        r@ == trim(s@),
{
    let cs = chars_of(s);
    let (b, e) = trim_bounds(&cs);
    string_of(&cs, b, e)
}

/// Primary display title for a stream.
pub fn display_title(listing: &VodStream) -> (r: String)
    ensures
        r@ == spec_display_title(*listing),
{
    match &listing.title {
        Some(t) => {
            let tt = trimmed(t.as_str());
            if tt.as_str().is_empty() {
                trimmed(listing.name.as_str())
            } else {
                tt
            }
        },
        None => trimmed(listing.name.as_str()),
    }
}

// ------------------------------------------------------------------
// Years
// ------------------------------------------------------------------

pub open spec fn year_in_range(y: int) -> bool {
    1900 <= y <= 2100
}

/// Year text of a JSON string such as `"1974"` or `"1974-01-01"`: the first
/// four characters of the trimmed text when they are digits of a year in
/// `1900..=2100`.
pub open spec fn year_from_str(s: Seq<char>) -> Option<Seq<char>> {
    let t = trim(s);
    if t.len() >= 4 && all_digits(t.take(4)) && year_in_range(digits_value(t.take(4)) as int) {
        Some(t.take(4))
    } else {
        None
    }
}

/// Year text of a JSON number: the number cut to `u32` (`as u32`, from the
/// `u64` or the `i64` value), when in `1900..=2100`.
pub open spec fn year_from_number(n: JsonNumber) -> Option<Seq<char>> {
    let y: Option<u32> = match n {
        JsonNumber::PosInt(u) => Some(u as u32),
        JsonNumber::NegInt(i) => Some((i as u64) as u32),
        JsonNumber::Float(_) => None,
    };
    match y {
        Some(y) => if year_in_range(y as int) {
            Some(dec_nat(y as nat))
        } else {
            None
        },
        None => None,
    }
}

pub open spec fn year_from_json(v: JsonValue) -> Option<Seq<char>> {
    match v {
        JsonValue::String(s) => year_from_str(s@),
        JsonValue::Number(n) => year_from_number(n),
        _ => None,
    }
}

/// The year text can be cut after its fourth byte without splitting a
/// character.  The year parser slices the trimmed text at byte 4 and panics
/// otherwise.
pub open spec fn year_text_sliceable(s: Seq<char>) -> bool {
    let t = trim(s);
    utf8_len(t) < 4 || exists|k: int| 0 <= k <= t.len() && utf8_len(t.take(k)) == 4
}

pub open spec fn year_json_sliceable(v: Option<JsonValue>) -> bool {
    match v {
        Some(JsonValue::String(s)) => year_text_sliceable(s@),
        _ => true,
    }
}

fn year_from_chars(cs: &[char]) -> (r: Option<String>)
    ensures
        opt_view(r) == year_from_str(cs@),
{
    let (b, e) = trim_bounds(cs);
    if e - b < 4 {
        return None;
    }
    let ghost t = cs@.subrange(b as int, e as int);
    assert(t.take(4) =~= cs@.subrange(b as int, b + 4));
    match digits_up_to(cs, b, b + 4, 9999) {
        Some(y) => {
            if 1900 <= y && y <= 2100 {
                Some(string_of(cs, b, b + 4))
            } else {
                None
            }
        },
        None => None,
    }
}

/// Year of a year text.  The year is read from the trimmed text cut at its
/// fourth byte, so the text must allow that cut.
pub fn year_from_text(s: &str) -> (r: Option<String>)
    requires
        year_text_sliceable(s@),
    ensures
        opt_view(r) == year_from_str(s@),
{
    let cs = chars_of(s);
    year_from_chars(&cs)
}

fn year_from_u32(y: u32) -> (r: Option<String>)
    ensures
        opt_view(r) == if year_in_range(y as int) {
            Some(dec_nat(y as nat))
        } else {
            None
        },
{
    if 1900 <= y && y <= 2100 {
        let mut s = String::new();
        push_u64(&mut s, y as u64);
        Some(s)
    } else {
        None
    }
}

/// Year of a JSON `year` value.
pub fn year_from_json_value(v: &JsonValue) -> (r: Option<String>)
    requires
        year_json_sliceable(Some(*v)),
    ensures
        opt_view(r) == year_from_json(*v),
{
    match v {
        JsonValue::String(s) => year_from_text(s.as_str()),
        JsonValue::Number(n) => match n {
            JsonNumber::PosInt(u) => year_from_u32(*u as u32),
            JsonNumber::NegInt(i) => year_from_u32((*i as u64) as u32),
            JsonNumber::Float(_) => None,
        },
        _ => None,
    }
}

/// Whether `year_text_sliceable` holds.
pub fn year_text_is_sliceable(s: &str) -> (b: bool)
    ensures
        b == year_text_sliceable(s@),
{
    let cs = chars_of(s);
    let (lo, hi) = trim_bounds(&cs);
    let ghost t = cs@.subrange(lo as int, hi as int);
    assert(trim(s@) == t);
    let mut acc: u64 = 0;
    let mut k = lo;
    assert(t.take(0) =~= Seq::<char>::empty());
    while k < hi
        invariant
            lo <= k <= hi <= cs@.len(),
            t == cs@.subrange(lo as int, hi as int),
            trim(s@) == t,
            acc as nat == utf8_len(t.take(k - lo)),
            acc < 4,
            forall|j: int| 0 <= j <= k - lo ==> utf8_len(#[trigger] t.take(j)) < 4,
        decreases hi - k,
    {
        let c = cs[k];
        let cu = c as u32;
        let w: u64 = if cu < 0x80 {
            1
        } else if cu < 0x800 {
            2
        } else if cu < 0x10000 {
            3
        } else {
            4
        };
        assert(t.take(k - lo + 1).drop_last() =~= t.take(k - lo));
        assert(t[k - lo] == c);
        acc = acc + w;
        if acc == 4 {
            assert(utf8_len(t.take(k - lo + 1)) == 4);
            assert(0 <= k - lo + 1 <= t.len());
            assert(year_text_sliceable(s@));
            return true;
        }
        if acc > 4 {
            proof {
                let m = k - lo + 1;
                assert forall|j: int| 0 <= j <= t.len() implies utf8_len(t.take(j)) != 4 by {
                    if j >= m {
                        lemma_utf8_len_prefix_mono(t, m, j);
                    } else {
                        assert(utf8_len(t.take(j)) < 4);
                    }
                }
                lemma_utf8_len_prefix_mono(t, m, t.len() as int);
                assert(t.take(t.len() as int) =~= t);
                assert(utf8_len(t) > 4);
                assert(!year_text_sliceable(s@));
            }
            return false;
        }
        k = k + 1;
    }
    assert(t.take(hi - lo) =~= t);
    true
}

/// A `(YYYY)` window starting at `i`, with a year in `1900..=2100`.
pub open spec fn paren_year_at(t: Seq<char>, i: int) -> bool {
    &&& 0 <= i
    &&& i + 5 < t.len()
    &&& t[i] == '('
    &&& all_digits(t.subrange(i + 1, i + 5))
    &&& t[i + 5] == ')'
    &&& year_in_range(digits_value(t.subrange(i + 1, i + 5)) as int)
}

pub open spec fn last_paren_year_below(t: Seq<char>, n: nat) -> Option<Seq<char>>
    decreases n,
{
    if n == 0 {
        None
    } else if paren_year_at(t, n - 1) {
        Some(t.subrange(n as int, (n + 4) as int))
    } else {
        last_paren_year_below(t, (n - 1) as nat)
    }
}

/// The year of the last `(YYYY)` window of `t`.
pub open spec fn spec_last_paren_year(t: Seq<char>) -> Option<Seq<char>> {
    last_paren_year_below(t, t.len())
}

fn paren_year_at_exec(cs: &[char], i: usize) -> (b: bool)
    ensures
        b == paren_year_at(cs@, i as int),
{
    if i >= cs.len() || cs.len() - i <= 5 {
        return false;
    }
    if cs[i] != '(' || cs[i + 5] != ')' {
        return false;
    }
    match digits_up_to(cs, i + 1, i + 5, 9999) {
        Some(y) => 1900 <= y && y <= 2100,
        None => false,
    }
}

/// Scan `text` for `(YYYY)` year windows; returns the last plausible movie year.
pub fn last_paren_year(text: &str) -> (r: Option<String>)
    ensures
        opt_view(r) == spec_last_paren_year(text@),
{
    let cs = chars_of(text);
    let len = cs.len();
    let mut n = len;
    while n > 0
        invariant
            len == cs@.len(),
            n <= cs@.len(),
            cs@ == text@,
            spec_last_paren_year(text@) == last_paren_year_below(cs@, n as nat),
        decreases n,
    {
        if paren_year_at_exec(&cs, n - 1) {
            return Some(string_of(&cs, n, n + 4));
        }
        n = n - 1;
    }
    None
}

/// `strip_trailing_paren_year`: drops one trailing ` (YYYY)` with a year in
/// `1900..=2100` (spaces allowed inside the brackets), then trailing
/// whitespace; otherwise the text with trailing whitespace removed.
pub open spec fn spec_strip_trailing_paren_year(s0: Seq<char>) -> Seq<char> {
    let s = trim_end(s0);
    if s.len() > 0 && s.last() == ')' {
        match rfind_char(s.drop_last(), '(') {
            Some(open) => {
                let inner = trim(s.subrange((open + 1) as int, s.len() - 1));
                if inner.len() == 4 && all_digits(inner) && year_in_range(digits_value(inner) as int) {
                    trim_end(s.take(open as int))
                } else {
                    s
                }
            },
            None => s,
        }
    } else {
        s
    }
}

/// Removes a single trailing ` (19xx|20xx)` from `cs`.
pub fn strip_trailing_paren_year_chars(cs: &[char]) -> (r: String)
    ensures
        r@ == spec_strip_trailing_paren_year(cs@),
{
    let e = trim_end_index(cs);
    let ghost s = cs@.take(e as int);
    if e == 0 || cs[e - 1] != ')' {
        return string_of(cs, 0, e);
    }
    assert(s.drop_last() =~= cs@.subrange(0, e - 1));
    assert(trim_end(cs@) == s);
    assert(s.last() == cs@[e - 1]);
    match rfind_char_in(cs, 0, e - 1, '(') {
        Some(open) => {
            assert(rfind_char(s.drop_last(), '(') == Some(open as nat));
            let (ib, ie) = trim_bounds_in(cs, open + 1, e - 1);
            assert(s.subrange(open + 1, s.len() - 1) =~= cs@.subrange(open + 1, e - 1));
            if ie - ib == 4 {
                match digits_up_to(cs, ib, ie, 9999) {
                    Some(y) => {
                        if 1900 <= y && y <= 2100 {
                            let oe = trim_end_index_in(cs, 0, open);
                            assert(s.take(open as int) =~= cs@.subrange(0, open as int));
                            return string_of(cs, 0, oe);
                        }
                    },
                    None => {},
                }
            }
            string_of(cs, 0, e)
        },
        None => string_of(cs, 0, e),
    }
}

/// Removes a single trailing ` (19xx|20xx)` so the year is not repeated in the filename.
pub fn strip_trailing_paren_year(s: &str) -> (r: String)
    ensures
        r@ == spec_strip_trailing_paren_year(s@),
{
    let cs = chars_of(s);
    strip_trailing_paren_year_chars(&cs)
}

/// Whether a release date field is present and not blank once trimmed.
pub open spec fn date_is_nonblank(d: Option<String>) -> bool {
    match d {
        Some(t) => trim(t@).len() > 0,
        None => false,
    }
}

/// First release date field that is not blank (`release_date`, then
/// `releaseDate`, then `releasedate`); `None` when all three are absent or blank.
pub open spec fn spec_vod_release_date(l: VodStream) -> Option<String> {
    if date_is_nonblank(l.release_date) {
        l.release_date
    } else if date_is_nonblank(l.release_date_alt) {
        l.release_date_alt
    } else if date_is_nonblank(l.release_date_lower) {
        l.release_date_lower
    } else {
        None
    }
}

pub open spec fn year_of_opt_json(v: Option<JsonValue>) -> Option<Seq<char>> {
    match v {
        Some(j) => year_from_json(j),
        None => None,
    }
}

/// Year of a non-blank release date.
pub open spec fn year_of_release_date(rd: Option<String>) -> Option<Seq<char>> {
    match rd {
        Some(d) => if trim(d@).len() > 0 {
            year_from_str(trim(d@))
        } else {
            None
        },
        None => None,
    }
}

/// `display_year`: the `year` field, else the release date, else the last
/// `(YYYY)` of the name, else of the title, else `"Unknown"`.
pub open spec fn spec_display_year(l: VodStream) -> Seq<char> {
    match year_of_opt_json(l.year) {
        Some(y) => y,
        None => match year_of_release_date(spec_vod_release_date(l)) {
            Some(y) => y,
            None => match spec_last_paren_year(l.name@) {
                Some(y) => y,
                None => match l.title {
                    Some(t) => match spec_last_paren_year(t@) {
                        Some(y) => y,
                        None => "Unknown"@,
                    },
                    None => "Unknown"@,
                },
            },
        },
    }
}

/// The inputs on which `display_year` reads only year texts that can be cut
/// at their fourth byte (cutting inside a character would panic).
pub open spec fn vod_year_sliceable(l: VodStream) -> bool {
    &&& year_json_sliceable(l.year)
    &&& year_of_opt_json(l.year) is None ==> match spec_vod_release_date(l) {
        Some(d) => year_text_sliceable(trim(d@)),
        None => true,
    }
}

/// Whether `vod_year_sliceable` holds.
pub fn vod_year_is_sliceable(listing: &VodStream) -> (b: bool)
    ensures
        b == vod_year_sliceable(*listing),
{
    let first = match &listing.year {
        Some(JsonValue::String(s)) => year_text_is_sliceable(s.as_str()),
        _ => true,
    };
    if !first {
        return false;
    }
    let y = match &listing.year {
        Some(v) => year_from_json_value(v),
        None => None,
    };
    if y.is_some() {
        return true;
    }
    match vod_release_date(listing) {
        Some(d) => {
            let t = trimmed(d.as_str());
            year_text_is_sliceable(t.as_str())
        },
        None => true,
    }
}

fn nonblank_date(d: &Option<String>) -> (b: bool)
    ensures
        b == date_is_nonblank(*d),
{
    match d {
        Some(t) => {
            let tt = trimmed(t.as_str());
            !tt.as_str().is_empty()
        },
        None => false,
    }
}

/// First release date field that is not blank once trimmed.
pub fn vod_release_date(listing: &VodStream) -> (r: Option<&String>)
    ensures
        match r {
            Some(d) => spec_vod_release_date(*listing) == Some(*d),
            None => spec_vod_release_date(*listing) is None,
        },
{
    if nonblank_date(&listing.release_date) {
        listing.release_date.as_ref()
    } else if nonblank_date(&listing.release_date_alt) {
        listing.release_date_alt.as_ref()
    } else if nonblank_date(&listing.release_date_lower) {
        listing.release_date_lower.as_ref()
    } else {
        None
    }
}

fn year_of_release_date_exec(rd: Option<&String>) -> (r: Option<String>)
    requires
        match rd {
            Some(d) => year_text_sliceable(trim(d@)),
            None => true,
        },
    ensures
        opt_view(r) == year_of_release_date(match rd {
            Some(d) => Some(*d),
            None => None,
        }),
{
    match rd {
        Some(d) => {
            let t = trimmed(d.as_str());
            if t.as_str().is_empty() {
                None
            } else {
                year_from_text(t.as_str())
            }
        },
        None => None,
    }
}

/// Year string for naming; falls back to release date, title/name `(YYYY)`, then `"Unknown"`.
pub fn display_year(listing: &VodStream) -> (r: String)
    requires
        vod_year_sliceable(*listing),
    ensures
        r@ == spec_display_year(*listing),
{
    if let Some(v) = &listing.year {
        if let Some(y) = year_from_json_value(v) {
            return y;
        }
    }
    if let Some(y) = year_of_release_date_exec(vod_release_date(listing)) {
        return y;
    }
    if let Some(y) = last_paren_year(listing.name.as_str()) {
        return y;
    }
    if let Some(t) = &listing.title {
        if let Some(y) = last_paren_year(t.as_str()) {
            return y;
        }
    }
    String::from_str("Unknown")
}

// ------------------------------------------------------------------
// TMDB ids
// ------------------------------------------------------------------

/// The ASCII digits of `s`, in order.
pub open spec fn ascii_digits_of(s: Seq<char>) -> Seq<char>
    decreases s.len(),
{
    if s.len() == 0 {
        s
    } else if is_ascii_digit(s.last()) {
        ascii_digits_of(s.drop_last()).push(s.last())
    } else {
        ascii_digits_of(s.drop_last())
    }
}

/// Keys looked up, in order, in an object-valued TMDB id.
pub open spec fn tmdb_key(k: int) -> Seq<char> {
    if k == 0 {
        "id"@
    } else if k == 1 {
        "tmdb_id"@
    } else if k == 2 {
        "tmdbId"@
    } else {
        "tmdb"@
    }
}

/// Index of the member named `key` (the first one, keys being distinct).
pub open spec fn member_index(entries: Seq<(String, JsonValue)>, key: Seq<char>, i: nat) -> Option<
    nat,
>
    decreases entries.len() + 1 - i,
{
    if i >= entries.len() {
        None
    } else if entries[i as int].0@ == key {
        Some(i)
    } else {
        member_index(entries, key, i + 1)
    }
}

/// `tmdb_from_value`: a non-negative integer is taken as is, a float by its
/// truncation, a string by the number its ASCII digits spell (when it fits
/// `u64`), an object by its `id`, `tmdb_id`, `tmdbId` or `tmdb` member
/// (the first that yields an id), an array by its first element that yields
/// an id.
pub open spec fn tmdb_from(v: JsonValue) -> Option<u64>
    decreases v, 0int,
{
    match v {
        JsonValue::Number(n) => match n {
            JsonNumber::PosInt(u) => Some(u),
            JsonNumber::NegInt(_) => None,
            JsonNumber::Float(t) => t,
        },
        JsonValue::String(s) => parse_u64(ascii_digits_of(s@)),
        JsonValue::Object(entries) => tmdb_from_members(entries@, 0),
        JsonValue::Array(items) => tmdb_from_items(items@),
        _ => None,
    }
}

pub open spec fn tmdb_from_members(entries: Seq<(String, JsonValue)>, k: int) -> Option<u64>
    decreases entries, 4 - k,
{
    if k < 0 || k >= 4 {
        None
    } else {
        let here = match member_index(entries, tmdb_key(k), 0) {
            Some(i) => if i < entries.len() {
                tmdb_from(entries[i as int].1)
            } else {
                None
            },
            None => None,
        };
        match here {
            Some(t) => Some(t),
            None => tmdb_from_members(entries, k + 1),
        }
    }
}

pub open spec fn tmdb_from_items(items: Seq<JsonValue>) -> Option<u64>
    decreases items, 0int,
{
    if items.len() == 0 {
        None
    } else {
        match tmdb_from(items[0]) {
            Some(t) => Some(t),
            None => tmdb_from_items(items.drop_first()),
        }
    }
}

fn ascii_digits_vec(cs: &[char]) -> (v: Vec<char>)
    ensures
        v@ == ascii_digits_of(cs@),
{
    let mut v: Vec<char> = Vec::new();
    let mut i: usize = 0;
    assert(cs@.take(0) =~= Seq::<char>::empty());
    while i < cs.len()
        invariant
            i <= cs@.len(),
            v@ == ascii_digits_of(cs@.take(i as int)),
        decreases cs@.len() - i,
    {
        assert(cs@.take(i + 1).drop_last() =~= cs@.take(i as int));
        if is_ascii_digit_char(cs[i]) {
            v.push(cs[i]);
        }
        i = i + 1;
    }
    assert(cs@.take(cs@.len() as int) =~= cs@);
    v
}

fn tmdb_key_str(k: usize) -> (s: &'static str)
    requires
        k < 4,
    ensures
        s@ == tmdb_key(k as int),
{
    if k == 0 {
        "id"
    } else if k == 1 {
        "tmdb_id"
    } else if k == 2 {
        "tmdbId"
    } else {
        "tmdb"
    }
}

fn member_index_exec(entries: &Vec<(String, JsonValue)>, key: &str) -> (r: Option<usize>)
    ensures
        match r {
            Some(i) => member_index(entries@, key@, 0) == Some(i as nat) && i < entries@.len(),
            None => member_index(entries@, key@, 0) is None,
        },
{
    let k = String::from_str(key);
    let mut i: usize = 0;
    while i < entries.len()
        invariant
            i <= entries@.len(),
            k@ == key@,
            member_index(entries@, key@, 0) == member_index(entries@, key@, i as nat),
        decreases entries@.len() - i,
    {
        if entries[i].0 == k {
            return Some(i);
        }
        i = i + 1;
    }
    None
}

/// Normalize a JSON TMDB id value to a number.
#[verifier::loop_isolation(false)]
pub fn tmdb_from_value(v: &JsonValue) -> (r: Option<u64>)
    ensures
        r == tmdb_from(*v),
    decreases v,
{
    match v {
        JsonValue::Number(n) => match n {
            JsonNumber::PosInt(u) => Some(*u),
            JsonNumber::NegInt(_) => None,
            JsonNumber::Float(t) => *t,
        },
        JsonValue::String(s) => {
            let cs = chars_of(s.as_str());
            let d = ascii_digits_vec(&cs);
            assert(d@.subrange(0, d@.len() as int) =~= d@);
            parse_u64_chars(&d, 0, d.len())
        },
        JsonValue::Object(entries) => {
            let mut k: usize = 0;
            while k < 4
                invariant
                    k <= 4,
                    tmdb_from_members(entries@, 0) == tmdb_from_members(entries@, k as int),
                decreases 4 - k,
            {
                let key = tmdb_key_str(k);
                match member_index_exec(entries, key) {
                    Some(i) => {
                        proof {
                            assert(decreases_to!(entries@[i as int] => entries@[i as int].1));
                            assert(decreases_to!(entries@ => entries@[i as int]));
                            assert(decreases_to!(*entries => entries@));
                            assert(decreases_to!(*v => *entries));
                        }
                        let t = tmdb_from_value(&entries[i].1);
                        if t.is_some() {
                            return t;
                        }
                    },
                    None => {},
                }
                k = k + 1;
            }
            None
        },
        JsonValue::Array(items) => {
            let mut i: usize = 0;
            assert(items@.skip(0) =~= items@);
            while i < items.len()
                invariant
                    i <= items@.len(),
                    tmdb_from_items(items@) == tmdb_from_items(items@.skip(i as int)),
                decreases items@.len() - i,
            {
                proof {
                    assert(decreases_to!(items@ => items@[i as int]));
                    assert(decreases_to!(*items => items@));
                    assert(decreases_to!(*v => *items));
                }
                assert(items@.skip(i as int)[0] == items@[i as int]);
                assert(items@.skip(i as int).drop_first() =~= items@.skip(i + 1));
                let t = tmdb_from_value(&items[i]);
                if t.is_some() {
                    return t;
                }
                i = i + 1;
            }
            None
        },
        _ => None,
    }
}

/// `tmdb_number`.
pub open spec fn spec_tmdb_number(l: VodStream) -> Option<u64> {
    match l.tmdb_id {
        Some(v) => tmdb_from(v),
        None => None,
    }
}

/// Normalize `tmdb_id` JSON value to a numeric id for tags.
pub fn tmdb_number(listing: &VodStream) -> (r: Option<u64>)
    ensures
        r == spec_tmdb_number(*listing),
{
    match &listing.tmdb_id {
        Some(v) => tmdb_from_value(v),
        None => None,
    }
}

// ------------------------------------------------------------------
// Sanitizing titles
// ------------------------------------------------------------------

/// Characters unsafe for common filesystems / paths.
pub open spec fn is_path_unsafe(c: char) -> bool {
    c == '\\' || c == '/' || c == ':' || c == '*' || c == '?' || c == '"' || c == '<' || c == '>'
        || c == '|' || c == '\n' || c == '\r'
}

pub open spec fn unsafe_to_space(s: Seq<char>) -> Seq<char> {
    s.map_values(|c: char| if is_path_unsafe(c) { ' ' } else { c })
}

/// Reads `s` left to right, appending its non-whitespace characters to `acc`
/// and a single space between two runs of them (`split_whitespace` then
/// `join(" ")`).  `gap` records whitespace seen since the last character kept.
pub open spec fn squeeze(s: Seq<char>, acc: Seq<char>, gap: bool) -> Seq<char>
    decreases s.len(),
{
    if s.len() == 0 {
        acc
    } else if is_ws(s[0]) {
        squeeze(s.drop_first(), acc, true)
    } else if gap && acc.len() > 0 {
        squeeze(s.drop_first(), acc.push(' ').push(s[0]), false)
    } else {
        squeeze(s.drop_first(), acc.push(s[0]), false)
    }
}

/// `s.split_whitespace().collect::<Vec<_>>().join(" ")`.
pub open spec fn collapse_ws(s: Seq<char>) -> Seq<char> {
    squeeze(s, Seq::empty(), false)
}

/// `sanitize_title`: unsafe characters become spaces, whitespace runs become
/// single spaces with none at either end, and an empty result is `"Untitled"`.
pub open spec fn spec_sanitize_title(raw: Seq<char>) -> Seq<char> {
    let w = collapse_ws(unsafe_to_space(raw));
    if w.len() == 0 {
        "Untitled"@
    } else {
        w
    }
}

fn is_path_unsafe_char(c: char) -> (b: bool)
    ensures
        b == is_path_unsafe(c),
{
    c == '\\' || c == '/' || c == ':' || c == '*' || c == '?' || c == '"' || c == '<' || c == '>'
        || c == '|' || c == '\n' || c == '\r'
}

/// `sanitize_title` of `cs[from..to]`.
pub fn sanitize_chars(cs: &[char], from: usize, to: usize) -> (r: String)
    requires
        from <= to <= cs@.len(),
    ensures
        r@ == spec_sanitize_title(cs@.subrange(from as int, to as int)),
{
    let ghost m = unsafe_to_space(cs@.subrange(from as int, to as int));
    let mut acc = String::new();
    let mut nonempty = false;
    let mut gap = false;
    let mut i = from;
    assert(m.skip(0) =~= m);
    while i < to
        invariant
            from <= i <= to <= cs@.len(),
            m == unsafe_to_space(cs@.subrange(from as int, to as int)),
            nonempty == (acc@.len() > 0),
            collapse_ws(m) == squeeze(m.skip(i - from), acc@, gap),
        decreases to - i,
    {
        let c = cs[i];
        assert(m.skip(i - from)[0] == m[i - from]);
        assert(m[i - from] == if is_path_unsafe(c) { ' ' } else { c });
        assert(m.skip(i - from).drop_first() =~= m.skip(i - from + 1));
        if is_path_unsafe_char(c) || is_ws_char(c) {
            gap = true;
        } else {
            if gap && nonempty {
                push_char(&mut acc, ' ');
            }
            push_char(&mut acc, c);
            nonempty = true;
            gap = false;
        }
        i = i + 1;
    }
    assert(m.skip(to - from) =~= Seq::<char>::empty());
    if nonempty {
        acc
    } else {
        String::from_str("Untitled")
    }
}

/// Characters unsafe for common filesystems / paths (Xtream titles sometimes include `/`).
pub fn sanitize_title(raw: &str) -> (r: String)
    ensures
        r@ == spec_sanitize_title(raw@),
{
    let cs = chars_of(raw);
    assert(cs@.subrange(0, cs@.len() as int) =~= cs@);
    sanitize_chars(&cs, 0, cs.len())
}

// ------------------------------------------------------------------
// Movie folders
// ------------------------------------------------------------------

/// ` {tmdb-N} [tmdbid-N]` when a TMDB id is known.
pub open spec fn tmdb_tags(t: Option<u64>) -> Seq<char> {
    match t {
        Some(n) => " {tmdb-"@ + dec_nat(n as nat) + "} [tmdbid-"@ + dec_nat(n as nat) + "]"@,
        None => Seq::empty(),
    }
}

fn push_tmdb_tags(out: &mut String, t: Option<u64>)
    ensures
        final(out)@ == old(out)@ + tmdb_tags(t),
{
    match t {
        Some(n) => {
            out.append(" {tmdb-");
            push_u64(out, n);
            out.append("} [tmdbid-");
            push_u64(out, n);
            out.append("]");
        },
        None => {
            assert(old(out)@ + Seq::<char>::empty() =~= old(out)@);
        },
    }
}

/// `movie_base_name`: `title (year)`, the TMDB tags when known, then
/// ` {vodid-N}`.
pub open spec fn spec_movie_base_name(l: VodStream) -> Seq<char> {
    spec_sanitize_title(spec_strip_trailing_paren_year(spec_display_title(l))) + " ("@
        + spec_display_year(l) + ")"@ + tmdb_tags(spec_tmdb_number(l)) + " {vodid-"@ + dec_int(
        l.stream_id as int,
    ) + "}"@
}

/// `movie_dir` == `movie_base` (no extension): title (year) tags… {vodid-n}
pub fn movie_base_name(listing: &VodStream) -> (r: String)
    requires
        vod_year_sliceable(*listing),
    ensures
        r@ == spec_movie_base_name(*listing),
{
    let raw_title = display_title(listing);
    let year = display_year(listing);
    let title_core = strip_trailing_paren_year(raw_title.as_str());
    let mut base = sanitize_title(title_core.as_str());
    base.append(" (");
    base.append(year.as_str());
    base.append(")");
    push_tmdb_tags(&mut base, tmdb_number(listing));
    base.append(" {vodid-");
    push_i64(&mut base, listing.stream_id);
    base.append("}");
    base
}

/// Leading `.` characters removed.
pub open spec fn trim_start_dots(s: Seq<char>) -> Seq<char>
    decreases s.len(),
{
    if s.len() > 0 && s[0] == '.' {
        trim_start_dots(s.drop_first())
    } else {
        s
    }
}

/// `video_extension` / `episode_extension`: the container extension trimmed,
/// without leading dots, lower-cased; `"mp4"` when missing or empty.
pub open spec fn spec_extension(ext: Option<String>) -> Seq<char> {
    match ext {
        Some(e) => {
            let t = trim_start_dots(trim(e@));
            if t.len() > 0 {
                lower_seq(t)
            } else {
                "mp4"@
            }
        },
        None => "mp4"@,
    }
}

fn extension_of(ext: &Option<String>) -> (r: String)
    ensures
        r@ == spec_extension(*ext),
{
    match ext {
        Some(e) => {
            let cs = chars_of(e.as_str());
            let (b0, e0) = trim_bounds(&cs);
            let mut b = b0;
            while b < e0 && cs[b] == '.'
                invariant
                    b0 <= b <= e0 <= cs@.len(),
                    trim_start_dots(trim(cs@)) == trim_start_dots(cs@.subrange(b as int, e0 as int)),
                decreases e0 - b,
            {
                assert(cs@.subrange(b as int, e0 as int).drop_first() =~= cs@.subrange(
                    b + 1,
                    e0 as int,
                ));
                b = b + 1;
            }
            if b == e0 {
                String::from_str("mp4")
            } else {
                lower_string(&cs, b, e0)
            }
        },
        None => String::from_str("mp4"),
    }
}

/// The file extension of a movie.
pub fn video_extension(listing: &VodStream) -> (r: String)
    ensures
        r@ == spec_extension(listing.container_extension),
{
    extension_of(&listing.container_extension)
}

// ------------------------------------------------------------------
// Show folders
// ------------------------------------------------------------------

/// `display_year_series`: the year of a non-blank release date, else the
/// last `(YYYY)` of the name, else `"Unknown"`.
pub open spec fn spec_display_year_series(name: Seq<char>, release_date: Option<Seq<char>>) -> Seq<
    char,
> {
    let from_date = match release_date {
        Some(d) => if trim(d).len() > 0 {
            year_from_str(trim(d))
        } else {
            None
        },
        None => None,
    };
    match from_date {
        Some(y) => y,
        None => match spec_last_paren_year(name) {
            Some(y) => y,
            None => "Unknown"@,
        },
    }
}

/// A release date that the year parser can cut at its fourth byte (cutting
/// inside a character would panic).
pub open spec fn release_date_sliceable(release_date: Option<Seq<char>>) -> bool {
    match release_date {
        Some(d) => year_text_sliceable(trim(d)),
        None => true,
    }
}

/// Year for a series from `name` / optional release date fields.
pub fn display_year_series(name: &str, release_date: Option<&str>) -> (r: String)
    requires
        release_date_sliceable(match release_date {
            Some(d) => Some(d@),
            None => None,
        }),
    ensures
        r@ == spec_display_year_series(
            name@,
            match release_date {
                Some(d) => Some(d@),
                None => None,
            },
        ),
{
    if let Some(rd) = release_date {
        let t = trimmed(rd);
        if !t.as_str().is_empty() {
            if let Some(y) = year_from_text(t.as_str()) {
                return y;
            }
        }
    }
    match last_paren_year(name) {
        Some(y) => y,
        None => String::from_str("Unknown"),
    }
}

/// First present release date of a series (`release_date`, then the alternative key).
pub open spec fn series_release_date(a: Option<String>, b: Option<String>) -> Option<Seq<char>> {
    match a {
        Some(d) => Some(d@),
        None => match b {
            Some(d) => Some(d@),
            None => None,
        },
    }
}

pub open spec fn opt_tmdb(v: Option<JsonValue>) -> Option<u64> {
    match v {
        Some(j) => tmdb_from(j),
        None => None,
    }
}

/// The title part of a show folder: the raw title without a trailing
/// `(YYYY)`, sanitized.
pub open spec fn show_title_part(raw: Seq<char>) -> Seq<char> {
    spec_sanitize_title(spec_strip_trailing_paren_year(raw))
}

/// Show folder name: `title (year)`, the TMDB tags when known, then
/// ` {seriesid-N}`.
pub open spec fn spec_show_base_name(
    raw: Seq<char>,
    release_date: Option<Seq<char>>,
    tmdb: Option<u64>,
    series_id: i64,
) -> Seq<char> {
    show_title_part(raw) + " ("@ + spec_display_year_series(raw, release_date) + ")"@ + tmdb_tags(
        tmdb,
    ) + " {seriesid-"@ + dec_int(series_id as int) + "}"@
}

pub open spec fn spec_show_base_name_listing(l: SeriesListing) -> Seq<char> {
    spec_show_base_name(
        trim(l.name@),
        series_release_date(l.release_date, l.release_date_alt),
        opt_tmdb(l.tmdb),
        l.series_id,
    )
}

/// Name used for an info record: the name, or `"Untitled"` when missing.
pub open spec fn info_raw_title(info: SeriesInfoMeta) -> Seq<char> {
    match info.name {
        Some(n) => trim(n@),
        None => trim("Untitled"@),
    }
}

pub open spec fn spec_show_base_name_info(info: SeriesInfoMeta, series_id: i64) -> Seq<char> {
    spec_show_base_name(
        info_raw_title(info),
        series_release_date(info.release_date, info.release_date_alt),
        opt_tmdb(info.tmdb),
        series_id,
    )
}

fn first_release_date<'a>(a: &'a Option<String>, b: &'a Option<String>) -> (r: Option<&'a str>)
    ensures
        match r {
            Some(d) => series_release_date(*a, *b) == Some(d@),
            None => series_release_date(*a, *b) is None,
        },
{
    match a {
        Some(d) => Some(d.as_str()),
        None => match b {
            Some(d) => Some(d.as_str()),
            None => None,
        },
    }
}

fn opt_tmdb_exec(v: &Option<JsonValue>) -> (r: Option<u64>)
    ensures
        r == opt_tmdb(*v),
{
    match v {
        Some(j) => tmdb_from_value(j),
        None => None,
    }
}

fn show_base_name(raw: &str, release_date: Option<&str>, tmdb: Option<u64>, series_id: i64) -> (r:
    String)
    requires
        release_date_sliceable(match release_date {
            Some(d) => Some(d@),
            None => None,
        }),
    ensures
        r@ == spec_show_base_name(
            raw@,
            match release_date {
                Some(d) => Some(d@),
                None => None,
            },
            tmdb,
            series_id,
        ),
{
    let year = display_year_series(raw, release_date);
    let title_core = strip_trailing_paren_year(raw);
    let mut base = sanitize_title(title_core.as_str());
    base.append(" (");
    base.append(year.as_str());
    base.append(")");
    push_tmdb_tags(&mut base, tmdb);
    base.append(" {seriesid-");
    push_i64(&mut base, series_id);
    base.append("}");
    base
}

/// Series show folder name from a `get_series` row (must match [`show_base_name_info`] for the same show).
pub fn show_base_name_listing(listing: &SeriesListing) -> (r: String)
    requires
        release_date_sliceable(series_release_date(listing.release_date, listing.release_date_alt)),
    ensures
        r@ == spec_show_base_name_listing(*listing),
{
    let raw_title = trimmed(listing.name.as_str());
    let rd = first_release_date(&listing.release_date, &listing.release_date_alt);
    show_base_name(raw_title.as_str(), rd, opt_tmdb_exec(&listing.tmdb), listing.series_id)
}

/// Series show folder name from `get_series_info.info` (paired with `series_id` from the URL).
pub fn show_base_name_info(info: &SeriesInfoMeta, series_id: i64) -> (r: String)
    requires
        release_date_sliceable(series_release_date(info.release_date, info.release_date_alt)),
    ensures
        r@ == spec_show_base_name_info(*info, series_id),
{
    let raw_title = match &info.name {
        Some(n) => trimmed(n.as_str()),
        None => trimmed("Untitled"),
    };
    let rd = first_release_date(&info.release_date, &info.release_date_alt);
    show_base_name(raw_title.as_str(), rd, opt_tmdb_exec(&info.tmdb), series_id)
}

/// Whether `release_date_sliceable` holds for the first present date.
pub fn series_release_date_is_sliceable(a: &Option<String>, b: &Option<String>) -> (r: bool)
    ensures
        r == release_date_sliceable(series_release_date(*a, *b)),
{
    match first_release_date(a, b) {
        Some(d) => {
            let t = trimmed(d);
            year_text_is_sliceable(t.as_str())
        },
        None => true,
    }
}

// ------------------------------------------------------------------
// Ids tagged in names
// ------------------------------------------------------------------

/// The integer between the first `key` in `name` and the next `}`.
pub open spec fn spec_parse_tagged_id(name: Seq<char>, key: Seq<char>) -> Option<i64> {
    match find(name, key) {
        Some(i) => {
            let rest = name.skip((i + key.len()) as int);
            match find(rest, "}"@) {
                Some(e) => parse_i64(rest.take(e as int)),
                None => None,
            }
        },
        None => None,
    }
}

fn parse_tagged_id(name: &str, key: &str) -> (r: Option<i64>)
    ensures
        r == spec_parse_tagged_id(name@, key@),
{
    let cs = chars_of(name);
    let k = chars_of(key);
    let close = chars_of("}");
    let n = cs.len();
    assert(cs@.subrange(0, n as int) =~= cs@);
    match find_in(&cs, 0, n, &k) {
        Some(i) => {
            let start = i + k.len();
            assert(cs@.skip(start as int) =~= cs@.subrange(start as int, n as int));
            match find_in(&cs, start, n, &close) {
                Some(e) => {
                    assert(cs@.skip(start as int).take(e as int) =~= cs@.subrange(
                        start as int,
                        (start + e) as int,
                    ));
                    parse_i64_chars(&cs, start, start + e)
                },
                None => None,
            }
        },
        None => None,
    }
}

/// Extract `{seriesid-123}` from a show folder basename.
pub fn parse_seriesid(name: &str) -> (r: Option<i64>)
    ensures
        r == spec_parse_tagged_id(name@, "{seriesid-"@),
{
    parse_tagged_id(name, "{seriesid-")
}

/// Extract `{vodid-123}` from a movie folder basename.
pub fn parse_vodid(name: &str) -> (r: Option<i64>)
    ensures
        r == spec_parse_tagged_id(name@, "{vodid-"@),
{
    parse_tagged_id(name, "{vodid-")
}

/// Extract `{epid-123}` from a basename or filename stem.
pub fn parse_epid(name: &str) -> (r: Option<i64>)
    ensures
        r == spec_parse_tagged_id(name@, "{epid-"@),
{
    parse_tagged_id(name, "{epid-")
}

// ------------------------------------------------------------------
// Season folders
// ------------------------------------------------------------------

/// `format!("Season {:02}", season)`.
pub open spec fn spec_season_dir_name(season: i32) -> Seq<char> {
    "Season "@ + if 0 <= season < 10 {
        "0"@ + dec_nat(season as nat)
    } else {
        dec_int(season as int)
    }
}

/// Plex/Jellyfin-style season directory: `Season 01`.
pub fn season_dir_name(season: i32) -> (r: String)
    ensures
        r@ == spec_season_dir_name(season),
{
    let mut s = String::from_str("Season ");
    if 0 <= season && season < 10 {
        s.append("0");
        push_u64(&mut s, season as u64);
    } else {
        push_i64(&mut s, season as i64);
    }
    s
}

/// `parse_season_dir`: the trimmed text must start with `Season `; the rest,
/// trimmed, is parsed as an `i32`.
pub open spec fn spec_parse_season_dir(dir: Seq<char>) -> Option<i32> {
    let s = trim(dir);
    if starts_with(s, "Season "@) {
        parse_i32(trim(s.skip("Season "@.len() as int)))
    } else {
        None
    }
}

/// Parse `Season 01` → `1`.
pub fn parse_season_dir(dir: &str) -> (r: Option<i32>)
    ensures
        r == spec_parse_season_dir(dir@),
{
    let cs = chars_of(dir);
    let prefix = chars_of("Season ");
    let (b, e) = trim_bounds(&cs);
    let ghost s = cs@.subrange(b as int, e as int);
    if e - b < prefix.len() {
        return None;
    }
    if !occurs_at(&cs, b, &prefix) {
        assert(s.take(prefix@.len() as int) =~= cs@.subrange(b as int, b + prefix@.len()));
        return None;
    }
    assert(s.take(prefix@.len() as int) =~= cs@.subrange(b as int, b + prefix@.len()));
    let (ib, ie) = trim_bounds_in(&cs, b + prefix.len(), e);
    assert(s.skip(prefix@.len() as int) =~= cs@.subrange(b + prefix@.len(), e as int));
    parse_i32_chars(&cs, ib, ie)
}

// ------------------------------------------------------------------
// Episodes
// ------------------------------------------------------------------

/// A JSON integer (`as_i64`) or a string parsed as `i64`.
pub open spec fn json_i64(v: Option<JsonValue>) -> Option<i64> {
    match v {
        Some(JsonValue::Number(n)) => number_as_i64(n),
        Some(JsonValue::String(s)) => parse_i64(s@),
        _ => None,
    }
}

/// A JSON integer (`as_i64` cut to `i32` as `as i32` does) or a string
/// parsed as `i32`.
pub open spec fn json_i32(v: Option<JsonValue>) -> Option<i32> {
    match v {
        Some(JsonValue::Number(n)) => match number_as_i64(n) {
            Some(x) => Some(x as i32),
            None => None,
        },
        Some(JsonValue::String(s)) => parse_i32(s@),
        _ => None,
    }
}

pub open spec fn spec_episode_stream_id(ep: SeriesEpisode) -> Option<i64> {
    json_i64(ep.id)
}

pub open spec fn spec_episode_number(ep: SeriesEpisode) -> i32 {
    match json_i32(ep.episode_num) {
        Some(x) => x,
        None => 0,
    }
}

pub open spec fn spec_episode_season_number(ep: SeriesEpisode) -> i32 {
    match json_i32(ep.season) {
        Some(x) => x,
        None => 1,
    }
}

fn json_i64_exec(v: &Option<JsonValue>) -> (r: Option<i64>)
    ensures
        r == json_i64(*v),
{
    match v {
        Some(JsonValue::Number(n)) => as_i64(n),
        Some(JsonValue::String(s)) => {
            let cs = chars_of(s.as_str());
            assert(cs@.subrange(0, cs@.len() as int) =~= cs@);
            parse_i64_chars(&cs, 0, cs.len())
        },
        _ => None,
    }
}

fn json_i32_exec(v: &Option<JsonValue>) -> (r: Option<i32>)
    ensures
        r == json_i32(*v),
{
    match v {
        Some(JsonValue::Number(n)) => match as_i64(n) {
            Some(x) => Some(x as i32),
            None => None,
        },
        Some(JsonValue::String(s)) => {
            let cs = chars_of(s.as_str());
            assert(cs@.subrange(0, cs@.len() as int) =~= cs@);
            parse_i32_chars(&cs, 0, cs.len())
        },
        _ => None,
    }
}

/// Xtream episode stream id for `/series/.../{id}.ext`.
pub fn episode_stream_id(ep: &SeriesEpisode) -> (r: Option<i64>)
    ensures
        r == spec_episode_stream_id(*ep),
{
    json_i64_exec(&ep.id)
}

/// Episode index within a season (for sorting).
pub fn episode_number(ep: &SeriesEpisode) -> (r: i32)
    ensures
        r == spec_episode_number(*ep),
{
    match json_i32_exec(&ep.episode_num) {
        Some(x) => x,
        None => 0,
    }
}

/// Season number from episode metadata (defaults to `1`).
pub fn episode_season_number(ep: &SeriesEpisode) -> (r: i32)
    ensures
        r == spec_episode_season_number(*ep),
{
    match json_i32_exec(&ep.season) {
        Some(x) => x,
        None => 1,
    }
}

/// The file extension of an episode.
pub fn episode_extension(ep: &SeriesEpisode) -> (r: String)
    ensures
        r@ == spec_extension(ep.container_extension),
{
    extension_of(&ep.container_extension)
}

/// The episode title used for its file: the trimmed title, or `"Episode"`.
pub open spec fn episode_raw_title(ep: SeriesEpisode) -> Seq<char> {
    match ep.title {
        Some(t) => if trim(t@).len() > 0 {
            trim(t@)
        } else {
            "Episode"@
        },
        None => "Episode"@,
    }
}

/// The part of a title before its first ` {epid-` (`split(" {epid-").next()`).
pub open spec fn epid_stem(raw: Seq<char>) -> Seq<char> {
    match find(raw, " {epid-"@) {
        Some(i) => raw.take(i as int),
        None => raw,
    }
}

/// The file stem of an episode: its sanitized title.
pub open spec fn episode_title_part(ep: SeriesEpisode) -> Seq<char> {
    spec_sanitize_title(epid_stem(episode_raw_title(ep)))
}

/// A number written with at least two digits (`{:02}`): a leading `0` for 0 through 9.
pub open spec fn two_digits(n: i32) -> Seq<char> {
    if 0 <= n < 10 {
        "0"@ + dec_nat(n as nat)
    } else {
        dec_int(n as int)
    }
}

/// The season/episode marker of an episode: ` - S01E03`.
pub open spec fn season_episode_marker(ep: SeriesEpisode) -> Seq<char> {
    " - S"@ + two_digits(spec_episode_season_number(ep)) + "E"@ + two_digits(
        spec_episode_number(ep),
    )
}

/// `S` or `s`, two ASCII digits, `E` or `e`, two ASCII digits at `i` of `t`.
pub open spec fn season_episode_at(t: Seq<char>, i: int) -> bool {
    &&& 0 <= i
    &&& i + 6 <= t.len()
    &&& (t[i] == 'S' || t[i] == 's')
    &&& is_ascii_digit(t[i + 1])
    &&& is_ascii_digit(t[i + 2])
    &&& (t[i + 3] == 'E' || t[i + 3] == 'e')
    &&& is_ascii_digit(t[i + 4])
    &&& is_ascii_digit(t[i + 5])
}

/// `t` already names a season and an episode (`SxxEyy`, any ASCII case).
pub open spec fn has_season_episode(t: Seq<char>) -> bool {
    exists|i: int| season_episode_at(t, i)
}

/// What goes between an episode's title part and its id tag: nothing when
/// the title already holds `SxxEyy`, else the episode's ` - S##E##` marker.
pub open spec fn episode_marker(ep: SeriesEpisode) -> Seq<char> {
    if has_season_episode(episode_title_part(ep)) {
        Seq::empty()
    } else {
        season_episode_marker(ep)
    }
}

/// Whether `has_season_episode` holds of `cs`.
fn has_season_episode_chars(cs: &Vec<char>) -> (b: bool)
    ensures
        b == has_season_episode(cs@),
{
    let n = cs.len();
    if n < 6 {
        assert forall|i: int| !season_episode_at(cs@, i) by {}
        return false;
    }
    let mut i: usize = 0;
    while i <= n - 6
        invariant
            n == cs@.len(),
            n >= 6,
            i <= n - 5,
            forall|j: int| 0 <= j < i ==> !season_episode_at(cs@, j),
        decreases n - i,
    {
        let ok = (cs[i] == 'S' || cs[i] == 's') && is_ascii_digit_char(cs[i + 1])
            && is_ascii_digit_char(cs[i + 2]) && (cs[i + 3] == 'E' || cs[i + 3] == 'e')
            && is_ascii_digit_char(cs[i + 4]) && is_ascii_digit_char(cs[i + 5]);
        if ok {
            assert(season_episode_at(cs@, i as int));
            return true;
        }
        i = i + 1;
    }
    assert forall|j: int| !season_episode_at(cs@, j) by {
        if 0 <= j < i {
        }
    }
    false
}

/// `episode_filename`: the title part, the ` - S##E##` marker unless the
/// title already holds `SxxEyy`, then ` {epid-N}.ext`, when the episode has an id.
pub open spec fn spec_episode_filename(ep: SeriesEpisode) -> Option<Seq<char>> {
    match spec_episode_stream_id(ep) {
        Some(id) => Some(
            episode_title_part(ep) + episode_marker(ep) + " {epid-"@ + dec_int(id as int) + "}."@
                + spec_extension(ep.container_extension),
        ),
        None => None,
    }
}

fn push_two_digits(out: &mut String, n: i32)
    ensures
        final(out)@ == old(out)@ + two_digits(n),
{
    if 0 <= n && n < 10 {
        out.append("0");
        push_u64(out, n as u64);
    } else {
        push_i64(out, n as i64);
    }
}

/// Episode filename: sanitized API title, the `S##E##` marker when the title
/// has none, then `{epid-<stream_id>}` just before the extension.
pub fn episode_filename(ep: &SeriesEpisode) -> (r: Option<String>)
    ensures
        opt_view(r) == spec_episode_filename(*ep),
{
    let id = match episode_stream_id(ep) {
        Some(id) => id,
        None => return None,
    };
    let raw = match &ep.title {
        Some(t) => {
            let tt = trimmed(t.as_str());
            if tt.as_str().is_empty() {
                String::from_str("Episode")
            } else {
                tt
            }
        },
        None => String::from_str("Episode"),
    };
    let cs = chars_of(raw.as_str());
    let key = chars_of(" {epid-");
    let n = cs.len();
    assert(cs@.subrange(0, n as int) =~= cs@);
    let stem_end = match find_in(&cs, 0, n, &key) {
        Some(i) => i,
        None => n,
    };
    assert(epid_stem(raw@) =~= cs@.subrange(0, stem_end as int));
    let mut out = sanitize_chars(&cs, 0, stem_end);
    let title = chars_of(out.as_str());
    if !has_season_episode_chars(&title) {
        out.append(" - S");
        push_two_digits(&mut out, episode_season_number(ep));
        out.append("E");
        push_two_digits(&mut out, episode_number(ep));
    }
    out.append(" {epid-");
    push_i64(&mut out, id);
    out.append("}.");
    let ext = episode_extension(ep);
    out.append(ext.as_str());
    proof {
        assert(out@ =~= spec_episode_filename(*ep)->0);
    }
    Some(out)
}

/// Whether the episode at `(g, j)` of the season lists has stream id `id`.
pub open spec fn episode_at_has_id(
    groups: Seq<(String, Vec<SeriesEpisode>)>,
    g: int,
    j: int,
    id: i64,
) -> bool {
    0 <= g < groups.len() && 0 <= j < groups[g].1@.len() && spec_episode_stream_id(
        groups[g].1@[j],
    ) == Some(id)
}

/// The episode at `(g, j)` has stream id `id` and no earlier one has.
pub open spec fn first_episode_at(groups: Seq<(String, Vec<SeriesEpisode>)>, g: int, j: int, id: i64) -> bool {
    &&& episode_at_has_id(groups, g, j, id)
    &&& forall|g2: int, j2: int|
        (g2 < g || (g2 == g && j2 < j)) ==> !episode_at_has_id(groups, g2, j2, id)
}

/// The first episode with stream id `id`, seasons and episodes in order.
pub open spec fn spec_find_episode(d: SeriesDetail, id: i64) -> Option<SeriesEpisode> {
    if exists|g: int, j: int| first_episode_at(d.episodes@, g, j, id) {
        let (g, j) = choose|g: int, j: int| first_episode_at(d.episodes@, g, j, id);
        Some(d.episodes@[g].1@[j])
    } else {
        None
    }
}

proof fn lemma_first_episode_unique(
    groups: Seq<(String, Vec<SeriesEpisode>)>,
    g: int,
    j: int,
    g2: int,
    j2: int,
    id: i64,
)
    requires
        first_episode_at(groups, g, j, id),
        first_episode_at(groups, g2, j2, id),
    ensures
        g == g2 && j == j2,
{
    if g < g2 || (g == g2 && j < j2) {
        assert(!episode_at_has_id(groups, g, j, id));
    } else if g2 < g || (g == g2 && j2 < j) {
        assert(!episode_at_has_id(groups, g2, j2, id));
    }
}

/// Look up an episode by Xtream stream id: the first one, seasons and
/// episodes taken in order.
pub fn find_episode_by_stream_id(detail: &SeriesDetail, stream_id: i64) -> (r: Option<
    &SeriesEpisode,
>)
    ensures
        match r {
            Some(ep) => spec_find_episode(*detail, stream_id) == Some(*ep),
            None => spec_find_episode(*detail, stream_id) is None,
        },
{
    let groups = &detail.episodes;
    let mut g: usize = 0;
    while g < groups.len()
        invariant
            g <= groups@.len(),
            groups@ == detail.episodes@,
            forall|g2: int, j2: int| g2 < g ==> !episode_at_has_id(groups@, g2, j2, stream_id),
        decreases groups@.len() - g,
    {
        let eps = &groups[g].1;
        let mut j: usize = 0;
        while j < eps.len()
            invariant
                g < groups@.len(),
                groups@ == detail.episodes@,
                *eps == groups@[g as int].1,
                j <= eps@.len(),
                forall|g2: int, j2: int|
                    (g2 < g || (g2 == g && j2 < j)) ==> !episode_at_has_id(
                        groups@,
                        g2,
                        j2,
                        stream_id,
                    ),
            decreases eps@.len() - j,
        {
            let ep = &eps[j];
            if episode_stream_id(ep) == Some(stream_id) {
                assert(episode_at_has_id(groups@, g as int, j as int, stream_id));
                proof {
                    assert(first_episode_at(groups@, g as int, j as int, stream_id));
                    let (g2, j2) = choose|g2: int, j2: int|
                        first_episode_at(detail.episodes@, g2, j2, stream_id);
                    lemma_first_episode_unique(groups@, g as int, j as int, g2, j2, stream_id);
                }
                return Some(ep);
            }
            j = j + 1;
        }
        g = g + 1;
    }
    None
}

/// All episodes, seasons and episodes taken in order.
pub open spec fn flat_episodes(groups: Seq<(String, Vec<SeriesEpisode>)>) -> Seq<SeriesEpisode>
    decreases groups.len(),
{
    if groups.len() == 0 {
        Seq::empty()
    } else {
        flat_episodes(groups.drop_last()) + groups.last().1@
    }
}

/// The episodes of `s` whose season number is `season`, in order.
pub open spec fn in_season(s: Seq<SeriesEpisode>, season: i32) -> Seq<SeriesEpisode>
    decreases s.len(),
{
    if s.len() == 0 {
        s
    } else if spec_episode_season_number(s.last()) == season {
        in_season(s.drop_last(), season).push(s.last())
    } else {
        in_season(s.drop_last(), season)
    }
}

/// Episode order within a season: by episode number.
pub open spec fn episode_after(a: SeriesEpisode, b: SeriesEpisode) -> bool {
    spec_episode_number(a) > spec_episode_number(b)
}

/// `episodes_in_season`: the season's episodes, stably sorted by episode number.
pub open spec fn spec_episodes_in_season(d: SeriesDetail, season: i32) -> Seq<SeriesEpisode> {
    stable_sort(
        in_season(flat_episodes(d.episodes@), season),
        |a: SeriesEpisode, b: SeriesEpisode| episode_after(a, b),
    )
}

pub open spec fn deref_all(v: Seq<&SeriesEpisode>) -> Seq<SeriesEpisode> {
    v.map_values(|e: &SeriesEpisode| *e)
}

/// Episodes for a given season, sorted by episode number.
pub fn episodes_in_season(detail: &SeriesDetail, season: i32) -> (r: Vec<&SeriesEpisode>)
    ensures
        deref_all(r@) == spec_episodes_in_season(*detail, season),
{
    let groups = &detail.episodes;
    let mut picked: Vec<&SeriesEpisode> = Vec::new();
    let mut g: usize = 0;
    assert(groups@.take(0) =~= Seq::<(String, Vec<SeriesEpisode>)>::empty());
    while g < groups.len()
        invariant
            g <= groups@.len(),
            groups@ == detail.episodes@,
            deref_all(picked@) =~= in_season(flat_episodes(groups@.take(g as int)), season),
        decreases groups@.len() - g,
    {
        let eps = &groups[g].1;
        let ghost before = flat_episodes(groups@.take(g as int));
        let mut j: usize = 0;
        assert(before + eps@.take(0) =~= before);
        while j < eps.len()
            invariant
                g < groups@.len(),
                groups@ == detail.episodes@,
                *eps == groups@[g as int].1,
                before == flat_episodes(groups@.take(g as int)),
                j <= eps@.len(),
                deref_all(picked@) =~= in_season(before + eps@.take(j as int), season),
            decreases eps@.len() - j,
        {
            let ep = &eps[j];
            assert((before + eps@.take(j + 1)).drop_last() =~= before + eps@.take(j as int));
            assert((before + eps@.take(j + 1)).last() == eps@[j as int]);
            if episode_season_number(ep) == season {
                picked.push(ep);
            }
            j = j + 1;
        }
        assert(groups@.take(g + 1).drop_last() =~= groups@.take(g as int));
        assert(eps@.take(eps@.len() as int) =~= eps@);
        g = g + 1;
    }
    assert(groups@.take(groups@.len() as int) =~= groups@);
    let ghost gt = |a: SeriesEpisode, b: SeriesEpisode| episode_after(a, b);
    let ghost input = deref_all(picked@);
    let mut out: Vec<&SeriesEpisode> = Vec::new();
    let mut i: usize = 0;
    assert(input.take(0) =~= Seq::<SeriesEpisode>::empty());
    while i < picked.len()
        invariant
            i <= picked@.len(),
            input == deref_all(picked@),
            gt == (|a: SeriesEpisode, b: SeriesEpisode| episode_after(a, b)),
            deref_all(out@) =~= stable_sort(input.take(i as int), gt),
        decreases picked@.len() - i,
    {
        let x = picked[i];
        let key = episode_number(x);
        let ghost sorted = deref_all(out@);
        let mut p: usize = 0;
        while p < out.len() && episode_number(out[p]) <= key
            invariant
                p <= out@.len(),
                sorted == deref_all(out@),
                gt == (|a: SeriesEpisode, b: SeriesEpisode| episode_after(a, b)),
                key == spec_episode_number(*x),
                insert_index(sorted, *x, gt, 0) == insert_index(sorted, *x, gt, p as nat),
            decreases out@.len() - p,
        {
            assert(sorted[p as int] == *out@[p as int]);
            assert(!gt(sorted[p as int], *x));
            p = p + 1;
        }
        if p < out.len() {
            assert(sorted[p as int] == *out@[p as int]);
            assert(gt(sorted[p as int], *x));
        }
        assert(insert_index(sorted, *x, gt, 0) == p);
        assert(input.take(i + 1).drop_last() =~= input.take(i as int));
        assert(input.take(i + 1).last() == *x);
        out.insert(p, x);
        assert(deref_all(out@) =~= sorted.insert(p as int, *x));
        i = i + 1;
    }
    assert(input.take(picked@.len() as int) =~= input);
    out
}

/// Season numbers of a series: the season keys that parse as `i32` and the
/// season numbers of all episodes.
pub open spec fn has_season(d: SeriesDetail, n: i32) -> bool {
    ||| exists|g: int| 0 <= g < d.episodes@.len() && parse_i32(#[trigger] d.episodes@[g].0@) == Some(
        n,
    )
    ||| exists|g: int, j: int|
        0 <= g < d.episodes@.len() && 0 <= j < d.episodes@[g].1@.len()
            && spec_episode_season_number(#[trigger] d.episodes@[g].1@[j]) == n
}

pub open spec fn strictly_increasing(s: Seq<i32>) -> bool {
    forall|a: int, b: int| 0 <= a < b < s.len() ==> s[a] < s[b]
}

/// Inserts `n` into the strictly increasing `v` unless present.
fn insert_sorted_unique(v: &mut Vec<i32>, n: i32)
    requires
        strictly_increasing(old(v)@),
    ensures
        strictly_increasing(final(v)@),
        forall|x: i32| final(v)@.contains(x) <==> (old(v)@.contains(x) || x == n),
{
    let mut p: usize = 0;
    while p < v.len() && v[p] < n
        invariant
            p <= v@.len(),
            v@ == old(v)@,
            strictly_increasing(v@),
            forall|k: int| 0 <= k < p ==> v@[k] < n,
        decreases v@.len() - p,
    {
        p = p + 1;
    }
    if p < v.len() && v[p] == n {
        assert(v@[p as int] == n);
        return;
    }
    let ghost before = v@;
    assert(before == old(v)@);
    v.insert(p, n);
    assert forall|a: int, b: int| 0 <= a < b < v@.len() implies v@[a] < v@[b] by {
        if b < p {
        } else if a < p && b == p {
        } else if a < p {
            assert(v@[b] == before[b - 1]);
            assert(before[a] < before[b - 1] || a == b - 1);
        } else if a == p {
            assert(v@[b] == before[b - 1]);
            assert(before[p as int] > n || p == b - 1);
        } else {
            assert(v@[a] == before[a - 1] && v@[b] == before[b - 1]);
        }
    }
    assert forall|x: i32| v@.contains(x) <==> (before.contains(x) || x == n) by {
        if v@.contains(x) {
            let k = choose|k: int| 0 <= k < v@.len() && v@[k] == x;
            if k < p {
                assert(before[k] == x);
            } else if k > p {
                assert(before[k - 1] == x);
            }
        }
        if before.contains(x) {
            let k = choose|k: int| 0 <= k < before.len() && before[k] == x;
            if k < p {
                assert(v@[k] == x);
            } else {
                assert(v@[k + 1] == x);
            }
        }
        if x == n {
            assert(v@[p as int] == n);
        }
    }
    assert(forall|x: i32| final(v)@.contains(x) <==> (old(v)@.contains(x) || x == n));
}

/// Distinct season numbers for a series detail (map keys ∪ episode `season` fields), ascending.
pub fn season_numbers_for_series(detail: &SeriesDetail) -> (r: Vec<i32>)
    ensures
        strictly_increasing(r@),
        forall|n: i32| r@.contains(n) <==> has_season(*detail, n),
        forall|g: int|
            0 <= g < detail.episodes@.len() ==> (parse_i32(#[trigger] detail.episodes@[g].0@) matches Some(
                n,
            ) ==> r@.contains(n)),
        forall|g: int, j: int|
            0 <= g < detail.episodes@.len() && 0 <= j < detail.episodes@[g].1@.len() ==> r@.contains(
                spec_episode_season_number(#[trigger] detail.episodes@[g].1@[j]),
            ),
{
    let groups = &detail.episodes;
    let mut out: Vec<i32> = Vec::new();
    let mut g: usize = 0;
    while g < groups.len()
        invariant
            g <= groups@.len(),
            groups@ == detail.episodes@,
            strictly_increasing(out@),
            forall|n: i32|
                out@.contains(n) <==> exists|g2: int|
                    0 <= g2 < g && parse_i32(#[trigger] groups@[g2].0@) == Some(n),
        decreases groups@.len() - g,
    {
        let key = chars_of(groups[g].0.as_str());
        assert(key@.subrange(0, key@.len() as int) =~= key@);
        match parse_i32_chars(&key, 0, key.len()) {
            Some(n) => {
                insert_sorted_unique(&mut out, n);
            },
            None => {},
        }
        assert forall|n: i32|
            out@.contains(n) <==> exists|g2: int|
                0 <= g2 < g + 1 && parse_i32(#[trigger] groups@[g2].0@) == Some(n) by {
            if exists|g2: int| 0 <= g2 < g + 1 && parse_i32(#[trigger] groups@[g2].0@) == Some(n) {
                let g2 = choose|g2: int| 0 <= g2 < g + 1 && parse_i32(#[trigger] groups@[g2].0@) == Some(n);
                if g2 < g {
                    assert(exists|g3: int| 0 <= g3 < g && parse_i32(#[trigger] groups@[g3].0@) == Some(n));
                }
            }
        }
        g = g + 1;
    }
    let mut g: usize = 0;
    while g < groups.len()
        invariant
            g <= groups@.len(),
            groups@ == detail.episodes@,
            strictly_increasing(out@),
            forall|n: i32|
                out@.contains(n) <==> (exists|g2: int|
                    0 <= g2 < groups@.len() && parse_i32(#[trigger] groups@[g2].0@) == Some(n))
                    || exists|g2: int, j2: int|
                    0 <= g2 < g && 0 <= j2 < groups@[g2].1@.len() && spec_episode_season_number(
                        #[trigger] groups@[g2].1@[j2],
                    ) == n,
        decreases groups@.len() - g,
    {
        let eps = &groups[g].1;
        let mut j: usize = 0;
        while j < eps.len()
            invariant
                g < groups@.len(),
                groups@ == detail.episodes@,
                *eps == groups@[g as int].1,
                j <= eps@.len(),
                strictly_increasing(out@),
                forall|n: i32|
                    out@.contains(n) <==> (exists|g2: int|
                        0 <= g2 < groups@.len() && parse_i32(#[trigger] groups@[g2].0@) == Some(n))
                        || (exists|g2: int, j2: int|
                        0 <= g2 < g && 0 <= j2 < groups@[g2].1@.len()
                            && spec_episode_season_number(#[trigger] groups@[g2].1@[j2]) == n)
                        || (exists|j2: int|
                        0 <= j2 < j && spec_episode_season_number(#[trigger] eps@[j2]) == n),
            decreases eps@.len() - j,
        {
            let sn = episode_season_number(&eps[j]);
            insert_sorted_unique(&mut out, sn);
            proof {
                assert forall|n: i32|
                    out@.contains(n) <==> (exists|g2: int|
                        0 <= g2 < groups@.len() && parse_i32(#[trigger] groups@[g2].0@) == Some(n))
                        || (exists|g2: int, j2: int|
                        0 <= g2 < g && 0 <= j2 < groups@[g2].1@.len()
                            && spec_episode_season_number(#[trigger] groups@[g2].1@[j2]) == n)
                        || (exists|j2: int|
                        0 <= j2 < j + 1 && spec_episode_season_number(#[trigger] eps@[j2]) == n) by {
                    if n == sn {
                        assert(spec_episode_season_number(eps@[j as int]) == n);
                    }
                    if exists|j2: int| 0 <= j2 < j + 1 && spec_episode_season_number(#[trigger] eps@[j2]) == n {
                        let j2 = choose|j2: int| 0 <= j2 < j + 1 && spec_episode_season_number(#[trigger] eps@[j2]) == n;
                        if j2 < j {
                            assert(exists|j3: int| 0 <= j3 < j && spec_episode_season_number(#[trigger] eps@[j3]) == n);
                        }
                    }
                }
            }
            j = j + 1;
        }
        proof {
            assert forall|n: i32|
                out@.contains(n) <==> (exists|g2: int|
                    0 <= g2 < groups@.len() && parse_i32(#[trigger] groups@[g2].0@) == Some(n))
                    || exists|g2: int, j2: int|
                    0 <= g2 < g + 1 && 0 <= j2 < groups@[g2].1@.len() && spec_episode_season_number(
                        #[trigger] groups@[g2].1@[j2],
                    ) == n by {
                if exists|j2: int| 0 <= j2 < eps@.len() && spec_episode_season_number(#[trigger] eps@[j2]) == n {
                    let j2 = choose|j2: int| 0 <= j2 < eps@.len() && spec_episode_season_number(#[trigger] eps@[j2]) == n;
                    assert(groups@[g as int].1@[j2] == eps@[j2]);
                }
                if exists|g2: int, j2: int|
                    0 <= g2 < g + 1 && 0 <= j2 < groups@[g2].1@.len() && spec_episode_season_number(
                        #[trigger] groups@[g2].1@[j2]) == n {
                    let (g2, j2) = choose|g2: int, j2: int|
                        0 <= g2 < g + 1 && 0 <= j2 < groups@[g2].1@.len() && spec_episode_season_number(
                            #[trigger] groups@[g2].1@[j2]) == n;
                    if g2 == g {
                        assert(eps@[j2] == groups@[g2].1@[j2]);
                    }
                }
            }
        }
        g = g + 1;
    }
    proof {
        law_every_season_is_listed(*detail);
    }
    out
}

// ------------------------------------------------------------------
// Video file names
// ------------------------------------------------------------------

/// Known video extensions, in the order they are tried.
pub open spec fn video_ext(i: int) -> Seq<char> {
    if i == 0 {
        "mp4"@
    } else if i == 1 {
        "mkv"@
    } else if i == 2 {
        "avi"@
    } else if i == 3 {
        "ts"@
    } else if i == 4 {
        "m3u8"@
    } else if i == 5 {
        "webm"@
    } else if i == 6 {
        "mov"@
    } else if i == 7 {
        "wmv"@
    } else if i == 8 {
        "flv"@
    } else {
        "m4v"@
    }
}

pub const VIDEO_EXT_COUNT: usize = 10;

fn video_ext_str(i: usize) -> (s: &'static str)
    requires
        i < 10,
    ensures
        s@ == video_ext(i as int),
{
    if i == 0 {
        "mp4"
    } else if i == 1 {
        "mkv"
    } else if i == 2 {
        "avi"
    } else if i == 3 {
        "ts"
    } else if i == 4 {
        "m3u8"
    } else if i == 5 {
        "webm"
    } else if i == 6 {
        "mov"
    } else if i == 7 {
        "wmv"
    } else if i == 8 {
        "flv"
    } else {
        "m4v"
    }
}

/// `f` ends, ignoring ASCII case, with `.` and the extension, and something
/// precedes that suffix.
pub open spec fn has_video_ext(f: Seq<char>, ext: Seq<char>) -> bool {
    f.len() > ext.len() + 1 && ends_with(lower_seq(f), seq!['.'] + ext)
}

pub open spec fn split_video_ext_from(f: Seq<char>, i: int) -> Option<(Seq<char>, Seq<char>)>
    decreases 10 - i,
{
    if i < 0 || i >= 10 {
        None
    } else if has_video_ext(f, video_ext(i)) {
        Some((f.take(f.len() - video_ext(i).len() - 1), video_ext(i)))
    } else {
        split_video_ext_from(f, i + 1)
    }
}

/// `split_video_ext`: the first known extension that ends the name (any
/// ASCII case) after at least one other character; the stem keeps its case.
pub open spec fn spec_split_video_ext(f: Seq<char>) -> Option<(Seq<char>, Seq<char>)> {
    split_video_ext_from(f, 0)
}

fn ends_with_ext_ci(cs: &[char], ext: &[char]) -> (b: bool)
    ensures
        b == has_video_ext(cs@, ext@),
{
    let n = cs.len();
    let k = ext.len();
    if n <= k || n - k <= 1 {
        return false;
    }
    let start = n - k - 1;
    let ghost pat = seq!['.'] + ext@;
    let ghost tail = lower_seq(cs@).skip(n - pat.len());
    assert(pat.len() == k + 1);
    if ascii_lower_char(cs[start]) != '.' {
        assert(tail[0] != pat[0]);
        return false;
    }
    let mut m: usize = 0;
    while m < k
        invariant
            n == cs@.len(),
            k == ext@.len(),
            start + k + 1 == n,
            pat == seq!['.'] + ext@,
            tail == lower_seq(cs@).skip(n - pat.len()),
            m <= k,
            forall|q: int| 0 <= q <= m ==> tail[q] == pat[q],
        decreases k - m,
    {
        if ascii_lower_char(cs[start + 1 + m]) != ext[m] {
            assert(tail[m + 1] != pat[m + 1]);
            return false;
        }
        m = m + 1;
    }
    assert(tail =~= pat);
    true
}

/// Known video extensions for splitting `path.ext` from the last segment.
pub fn split_video_ext(filename: &str) -> (r: Option<(&str, &'static str)>)
    ensures
        match r {
            Some((stem, ext)) => spec_split_video_ext(filename@) == Some((stem@, ext@)),
            None => spec_split_video_ext(filename@) is None,
        },
{
    let cs = chars_of(filename);
    let mut i: usize = 0;
    while i < VIDEO_EXT_COUNT
        invariant
            i <= 10,
            cs@ == filename@,
            spec_split_video_ext(filename@) == split_video_ext_from(filename@, i as int),
        decreases 10 - i,
    {
        let ext = video_ext_str(i);
        let ext_chars = chars_of(ext);
        if ends_with_ext_ci(&cs, &ext_chars) {
            let cut = cs.len() - ext_chars.len() - 1;
            let stem = filename.substring_char(0, cut);
            return Some((stem, ext));
        }
        i = i + 1;
    }
    None
}

// ------------------------------------------------------------------
// Laws of sanitized titles
// ------------------------------------------------------------------

proof fn lemma_squeeze_safe(s: Seq<char>, acc: Seq<char>, gap: bool)
    requires
        forall|k: int| 0 <= k < s.len() ==> !is_path_unsafe(#[trigger] s[k]),
        forall|k: int| 0 <= k < acc.len() ==> !is_path_unsafe(#[trigger] acc[k]),
        acc.len() > 0 ==> !is_ws(acc.last()) && !is_ws(acc[0]),
    ensures
        forall|k: int| 0 <= k < squeeze(s, acc, gap).len() ==> !is_path_unsafe(
            #[trigger] squeeze(s, acc, gap)[k],
        ),
        squeeze(s, acc, gap).len() > 0 ==> !is_ws(squeeze(s, acc, gap).last()) && !is_ws(
            squeeze(s, acc, gap)[0],
        ),
        squeeze(s, acc, gap).len() >= acc.len(),
    decreases s.len(),
{
    if s.len() > 0 {
        let rest = s.drop_first();
        assert forall|k: int| 0 <= k < rest.len() implies !is_path_unsafe(#[trigger] rest[k]) by {
            assert(rest[k] == s[k + 1]);
        }
        if is_ws(s[0]) {
            lemma_squeeze_safe(rest, acc, true);
        } else {
            let acc2 = if gap && acc.len() > 0 {
                acc.push(' ').push(s[0])
            } else {
                acc.push(s[0])
            };
            assert(!is_path_unsafe(s[0]));
            assert forall|k: int| 0 <= k < acc2.len() implies !is_path_unsafe(#[trigger] acc2[k]) by {
                if k < acc.len() {
                    assert(acc2[k] == acc[k]);
                }
            }
            if acc.len() == 0 {
                assert(acc2[0] == s[0]);
            } else {
                assert(acc2[0] == acc[0]);
            }
            lemma_squeeze_safe(rest, acc2, false);
        }
    }
}

/// Sanitized titles are safe path segment text: never empty, no character
/// that is unsafe in a path (`/ \ : * ? " < > |` or a line break), and no
/// whitespace at either end.
pub proof fn law_sanitized_title_is_safe(raw: Seq<char>)
    ensures
        spec_sanitize_title(raw).len() > 0,
        forall|k: int|
            0 <= k < spec_sanitize_title(raw).len() ==> !is_path_unsafe(
                #[trigger] spec_sanitize_title(raw)[k],
            ),
        !is_ws(spec_sanitize_title(raw)[0]),
        !is_ws(spec_sanitize_title(raw).last()),
{
    reveal_strlit("Untitled");
    let u = unsafe_to_space(raw);
    assert forall|k: int| 0 <= k < u.len() implies !is_path_unsafe(#[trigger] u[k]) by {
        assert(u[k] == (if is_path_unsafe(raw[k]) { ' ' } else { raw[k] }));
    }
    lemma_squeeze_safe(u, Seq::empty(), false);
}

/// The whitespace-separated words of `s` (`split_whitespace`), in order.
pub open spec fn ws_words(s: Seq<char>) -> Seq<Seq<char>>
    decreases s.len(),
{
    if s.len() == 0 {
        Seq::empty()
    } else if is_ws(s.last()) {
        ws_words(s.drop_last())
    } else if s.len() >= 2 && !is_ws(s[s.len() - 2]) {
        let w = ws_words(s.drop_last());
        w.update(w.len() - 1, w.last().push(s.last()))
    } else {
        ws_words(s.drop_last()).push(seq![s.last()])
    }
}

/// Words joined by single spaces (`join(" ")`).
pub open spec fn join_spaced(w: Seq<Seq<char>>) -> Seq<char>
    decreases w.len(),
{
    if w.len() == 0 {
        Seq::empty()
    } else if w.len() == 1 {
        w[0]
    } else {
        join_spaced(w.drop_last()) + seq![' '] + w.last()
    }
}

/// Whether the last character processed by `squeeze` left a gap.
pub open spec fn gap_after(s: Seq<char>, gap: bool) -> bool {
    if s.len() == 0 {
        gap
    } else {
        is_ws(s.last())
    }
}

proof fn lemma_squeeze_push(s: Seq<char>, acc: Seq<char>, gap: bool, c: char)
    ensures
        squeeze(s.push(c), acc, gap) == ({
            let r = squeeze(s, acc, gap);
            if is_ws(c) {
                r
            } else if gap_after(s, gap) && r.len() > 0 {
                r.push(' ').push(c)
            } else {
                r.push(c)
            }
        }),
    decreases s.len(),
{
    let t = s.push(c);
    if s.len() == 0 {
        let e = Seq::<char>::empty();
        assert(t.drop_first() =~= e);
        assert(t[0] == c);
        assert(squeeze(e, acc, gap) == acc);
        if is_ws(c) {
            assert(squeeze(t, acc, gap) == squeeze(e, acc, true));
            assert(squeeze(e, acc, true) == acc);
        } else if gap && acc.len() > 0 {
            assert(squeeze(t, acc, gap) == squeeze(e, acc.push(' ').push(c), false));
            assert(squeeze(e, acc.push(' ').push(c), false) == acc.push(' ').push(c));
        } else {
            assert(squeeze(t, acc, gap) == squeeze(e, acc.push(c), false));
            assert(squeeze(e, acc.push(c), false) == acc.push(c));
        }
    } else {
        assert(t.drop_first() =~= s.drop_first().push(c));
        assert(t[0] == s[0]);
        let acc2 = if is_ws(s[0]) {
            acc
        } else if gap && acc.len() > 0 {
            acc.push(' ').push(s[0])
        } else {
            acc.push(s[0])
        };
        let gap2 = is_ws(s[0]);
        assert(squeeze(s, acc, gap) == squeeze(s.drop_first(), acc2, gap2));
        assert(squeeze(t, acc, gap) == squeeze(t.drop_first(), acc2, gap2));
        lemma_squeeze_push(s.drop_first(), acc2, gap2, c);
        if s.drop_first().len() > 0 {
            assert(s.drop_first().last() == s.last());
        }
    }
}

proof fn lemma_ws_words_props(s: Seq<char>)
    ensures
        forall|k: int| 0 <= k < ws_words(s).len() ==> #[trigger] ws_words(s)[k].len() > 0,
        s.len() > 0 && !is_ws(s.last()) ==> ws_words(s).len() > 0,
    decreases s.len(),
{
    if s.len() > 0 {
        lemma_ws_words_props(s.drop_last());
        let d = s.drop_last();
        if !is_ws(s.last()) && s.len() >= 2 && !is_ws(s[s.len() - 2]) {
            assert(d.last() == s[s.len() - 2]);
        }
    }
}

proof fn lemma_join_spaced_nonempty(w: Seq<Seq<char>>)
    requires
        forall|k: int| 0 <= k < w.len() ==> #[trigger] w[k].len() > 0,
    ensures
        join_spaced(w).len() > 0 <==> w.len() > 0,
    decreases w.len(),
{
    if w.len() > 1 {
        lemma_join_spaced_nonempty(w.drop_last());
    }
}

proof fn lemma_join_spaced_extend(w: Seq<Seq<char>>, c: char)
    requires
        w.len() > 0,
    ensures
        join_spaced(w.update(w.len() - 1, w.last().push(c))) == join_spaced(w).push(c),
{
    let u = w.update(w.len() - 1, w.last().push(c));
    if w.len() > 1 {
        assert(u.drop_last() =~= w.drop_last());
    }
}

/// Squeezing whitespace is `split_whitespace` then `join(" ")`.
proof fn lemma_collapse_ws_words(s: Seq<char>)
    ensures
        collapse_ws(s) == join_spaced(ws_words(s)),
    decreases s.len(),
{
    if s.len() > 0 {
        let d = s.drop_last();
        let c = s.last();
        lemma_collapse_ws_words(d);
        assert(d.push(c) =~= s);
        lemma_squeeze_push(d, Seq::empty(), false, c);
        lemma_ws_words_props(d);
        lemma_join_spaced_nonempty(ws_words(d));
        if !is_ws(c) {
            if d.len() > 0 && !is_ws(d.last()) {
                assert(d.last() == s[s.len() - 2]);
                lemma_join_spaced_extend(ws_words(d), c);
            } else {
                let w = ws_words(d);
                if w.len() == 0 {
                    assert(w.push(seq![c]).len() == 1);
                    assert(Seq::<char>::empty().push(c) =~= seq![c]);
                } else {
                    assert(w.push(seq![c]).drop_last() =~= w);
                    assert(join_spaced(w).push(' ').push(c) =~= join_spaced(w) + seq![' '] + seq![c]);
                }
            }
        }
    }
}

/// A sanitized title is the words of the raw title, after each path-unsafe
/// character became a space, joined by single spaces; `"Untitled"` when
/// there are none.
pub proof fn law_sanitized_title_is_its_words(raw: Seq<char>)
    ensures
        spec_sanitize_title(raw) == if ws_words(unsafe_to_space(raw)).len() == 0 {
            "Untitled"@
        } else {
            join_spaced(ws_words(unsafe_to_space(raw)))
        },
{
    let u = unsafe_to_space(raw);
    lemma_collapse_ws_words(u);
    lemma_ws_words_props(u);
    lemma_join_spaced_nonempty(ws_words(u));
}

/// The last `(YYYY)` of a text: a `(`, four digits naming a year in
/// 1900..=2100, a `)`, with no such window further on; `None` when there is
/// none.
pub proof fn law_last_paren_year_is_last_window(t: Seq<char>)
    ensures
        match spec_last_paren_year(t) {
            Some(y) => exists|i: int|
                #![trigger paren_year_at(t, i)]
                paren_year_at(t, i) && y == t.subrange(i + 1, i + 5) && forall|j: int|
                    i < j ==> !paren_year_at(t, j),
            None => forall|i: int| !paren_year_at(t, i),
        },
{
    lemma_last_paren_year_below(t, t.len());
}

proof fn lemma_last_paren_year_below(t: Seq<char>, n: nat)
    requires
        n <= t.len(),
    ensures
        match last_paren_year_below(t, n) {
            Some(y) => exists|i: int|
                #![trigger paren_year_at(t, i)]
                0 <= i < n && paren_year_at(t, i) && y == t.subrange(i + 1, i + 5) && forall|j: int|
                    i < j < n ==> !paren_year_at(t, j),
            None => forall|i: int| 0 <= i < n ==> !paren_year_at(t, i),
        },
    decreases n,
{
    if n > 0 {
        lemma_last_paren_year_below(t, (n - 1) as nat);
        if paren_year_at(t, n - 1) {
            assert(paren_year_at(t, n - 1));
        }
    }
}

/// Where the year of a movie folder comes from, in order: the `year` field,
/// the first non-blank release date, the last `(YYYY)` of the name, the last
/// `(YYYY)` of the title; `"Unknown"` when none of them gives one.
pub proof fn law_display_year_sources(l: VodStream)
    ensures
        year_of_opt_json(l.year) matches Some(y) ==> spec_display_year(l) == y,
        year_of_opt_json(l.year) is None ==> (year_of_release_date(spec_vod_release_date(l)) matches Some(
            y,
        ) ==> spec_display_year(l) == y),
        year_of_opt_json(l.year) is None && year_of_release_date(spec_vod_release_date(l)) is None
            ==> (spec_last_paren_year(l.name@) matches Some(y) ==> spec_display_year(l) == y),
        year_of_opt_json(l.year) is None && year_of_release_date(spec_vod_release_date(l)) is None
            && spec_last_paren_year(l.name@) is None ==> (l.title matches Some(t) ==> (
        spec_last_paren_year(t@) matches Some(y) ==> spec_display_year(l) == y)),
        spec_display_year(l) == "Unknown"@ <== (year_of_opt_json(l.year) is None
            && year_of_release_date(spec_vod_release_date(l)) is None && spec_last_paren_year(
            l.name@,
        ) is None && (l.title matches Some(t) ==> spec_last_paren_year(t@) is None)),
{
}

/// A movie whose name gives no year takes the year that its title shows:
/// with no year field, no release date and no `(YYYY)` in the name, a title
/// holding a `(YYYY)` window puts that year (its last such window) in the
/// folder, never `"Unknown"`.
pub proof fn law_display_year_from_title(l: VodStream, t: String, i: int)
    requires
        l.year is None,
        l.release_date is None,
        l.release_date_alt is None,
        l.release_date_lower is None,
        forall|k: int| !paren_year_at(l.name@, k),
        l.title == Some(t),
        paren_year_at(t@, i),
        forall|j: int| i < j ==> !paren_year_at(t@, j),
    ensures
        spec_display_year(l) == t@.subrange(i + 1, i + 5),
        spec_display_year(l) != "Unknown"@,
{
    law_last_paren_year_is_last_window(l.name@);
    law_last_paren_year_is_last_window(t@);
    reveal_strlit("Unknown");
    let y = spec_last_paren_year(t@)->0;
    let w = choose|w: int|
        #![trigger paren_year_at(t@, w)]
        paren_year_at(t@, w) && y == t@.subrange(w + 1, w + 5) && forall|j: int|
            w < j ==> !paren_year_at(t@, j);
    if w < i {
        assert(!paren_year_at(t@, i));
    }
    if i < w {
        assert(!paren_year_at(t@, w));
    }
    assert(all_digits(t@.subrange(i + 1, i + 5)));
    assert(is_ascii_digit(t@.subrange(i + 1, i + 5)[0]));
}

/// The TMDB id of a show folder is the one `tmdb_from_value` reads from the
/// show's `tmdb` field, whatever JSON form it has: with an id `N` the folder
/// is `title (year) {tmdb-N} [tmdbid-N] {seriesid-S}`, without one
/// `title (year) {seriesid-S}`.  Listing rows and info records alike.
pub proof fn law_show_folder_tmdb_tags(l: SeriesListing, info: SeriesInfoMeta, series_id: i64)
    ensures
        ({
            let raw = trim(l.name@);
            let head = show_title_part(raw) + " ("@ + spec_display_year_series(
                raw,
                series_release_date(l.release_date, l.release_date_alt),
            ) + ")"@;
            let tail = " {seriesid-"@ + dec_int(l.series_id as int) + "}"@;
            match l.tmdb {
                Some(j) => match tmdb_from(j) {
                    Some(n) => spec_show_base_name_listing(l) == head + " {tmdb-"@ + dec_nat(n as nat)
                        + "} [tmdbid-"@ + dec_nat(n as nat) + "]"@ + tail,
                    None => spec_show_base_name_listing(l) == head + tail,
                },
                None => spec_show_base_name_listing(l) == head + tail,
            }
        }),
        ({
            let raw = info_raw_title(info);
            let head = show_title_part(raw) + " ("@ + spec_display_year_series(
                raw,
                series_release_date(info.release_date, info.release_date_alt),
            ) + ")"@;
            let tail = " {seriesid-"@ + dec_int(series_id as int) + "}"@;
            match info.tmdb {
                Some(j) => match tmdb_from(j) {
                    Some(n) => spec_show_base_name_info(info, series_id) == head + " {tmdb-"@
                        + dec_nat(n as nat) + "} [tmdbid-"@ + dec_nat(n as nat) + "]"@ + tail,
                    None => spec_show_base_name_info(info, series_id) == head + tail,
                },
                None => spec_show_base_name_info(info, series_id) == head + tail,
            }
        }),
{
    let raw = trim(l.name@);
    let head = show_title_part(raw) + " ("@ + spec_display_year_series(
        raw,
        series_release_date(l.release_date, l.release_date_alt),
    ) + ")"@;
    let tail = " {seriesid-"@ + dec_int(l.series_id as int) + "}"@;
    let tags = tmdb_tags(opt_tmdb(l.tmdb));
    assert(spec_show_base_name_listing(l) =~= head + tags + tail);
    if tags.len() == 0 {
        assert(head + tags =~= head);
    }
    let raw2 = info_raw_title(info);
    let head2 = show_title_part(raw2) + " ("@ + spec_display_year_series(
        raw2,
        series_release_date(info.release_date, info.release_date_alt),
    ) + ")"@;
    let tail2 = " {seriesid-"@ + dec_int(series_id as int) + "}"@;
    let tags2 = tmdb_tags(opt_tmdb(info.tmdb));
    assert(spec_show_base_name_info(info, series_id) =~= head2 + tags2 + tail2);
    if tags2.len() == 0 {
        assert(head2 + tags2 =~= head2);
    }
}

/// A movie folder is the cleaned title, its display year in parentheses,
/// the TMDB tags exactly when `tmdb_from_value` reads an id `N` from the
/// listing's `tmdb_id` (any JSON form), and the stream id tag.
pub proof fn law_movie_folder_shape(l: VodStream)
    ensures
        ({
            let head = spec_sanitize_title(spec_strip_trailing_paren_year(spec_display_title(l)))
                + " ("@ + spec_display_year(l) + ")"@;
            let tail = " {vodid-"@ + dec_int(l.stream_id as int) + "}"@;
            match l.tmdb_id {
                Some(j) => match tmdb_from(j) {
                    Some(n) => spec_movie_base_name(l) == head + " {tmdb-"@ + dec_nat(n as nat)
                        + "} [tmdbid-"@ + dec_nat(n as nat) + "]"@ + tail,
                    None => spec_movie_base_name(l) == head + tail,
                },
                None => spec_movie_base_name(l) == head + tail,
            }
        }),
{
    let head = spec_sanitize_title(spec_strip_trailing_paren_year(spec_display_title(l))) + " ("@
        + spec_display_year(l) + ")"@;
    let tail = " {vodid-"@ + dec_int(l.stream_id as int) + "}"@;
    let tags = tmdb_tags(spec_tmdb_number(l));
    assert(spec_movie_base_name(l) =~= head + tags + tail);
    if tags.len() == 0 {
        assert(head + tags =~= head);
    }
}

/// A TMDB id written as a decimal string (as panels often send it) is read
/// as that number.
pub proof fn law_tmdb_digit_string(s: String, n: u64)
    requires
        s@ == dec_nat(n as nat),
    ensures
        tmdb_from(JsonValue::String(s)) == Some(n),
{
    let d = dec_nat(n as nat);
    crate::text::lemma_dec_nat_digits(n as nat);
    crate::text::lemma_digits_value_dec_nat(n as nat);
    lemma_ascii_digits_of_digits(d);
    assert(is_ascii_digit(d[0]));
}

proof fn lemma_ascii_digits_of_digits(s: Seq<char>)
    requires
        forall|k: int| 0 <= k < s.len() ==> is_ascii_digit(#[trigger] s[k]),
    ensures
        ascii_digits_of(s) == s,
    decreases s.len(),
{
    if s.len() > 0 {
        lemma_ascii_digits_of_digits(s.drop_last());
        assert(s.drop_last().push(s.last()) =~= s);
    }
}

// ------------------------------------------------------------------
// Laws of season listings
// ------------------------------------------------------------------

/// A show lists a folder for every season it has: each season key that reads
/// as a number, and the season of each episode (season 0, the specials,
/// included); and it lists no other number.
pub proof fn law_every_season_is_listed(d: SeriesDetail)
    ensures
        forall|g: int|
            0 <= g < d.episodes@.len() ==> (parse_i32(#[trigger] d.episodes@[g].0@) matches Some(n)
                ==> has_season(d, n)),
        forall|g: int, j: int|
            0 <= g < d.episodes@.len() && 0 <= j < d.episodes@[g].1@.len() ==> has_season(
                d,
                spec_episode_season_number(#[trigger] d.episodes@[g].1@[j]),
            ),
        forall|n: i32|
            #[trigger] has_season(d, n) ==> (exists|g: int|
                0 <= g < d.episodes@.len() && parse_i32(d.episodes@[g].0@) == Some(n)) || (exists|
                g: int,
                j: int,
            |
                0 <= g < d.episodes@.len() && 0 <= j < d.episodes@[g].1@.len()
                    && spec_episode_season_number(d.episodes@[g].1@[j]) == n),
{
    assert forall|g: int, j: int|
        0 <= g < d.episodes@.len() && 0 <= j < d.episodes@[g].1@.len() implies has_season(
        d,
        spec_episode_season_number(#[trigger] d.episodes@[g].1@[j]),
    ) by {
        let n = spec_episode_season_number(d.episodes@[g].1@[j]);
        assert(0 <= g < d.episodes@.len() && 0 <= j < d.episodes@[g].1@.len()
            && spec_episode_season_number(d.episodes@[g].1@[j]) == n);
    }
}


proof fn lemma_in_season_items(s: Seq<SeriesEpisode>, season: i32)
    ensures
        forall|k: int|
            0 <= k < in_season(s, season).len() ==> spec_episode_season_number(
                #[trigger] in_season(s, season)[k],
            ) == season,
    decreases s.len(),
{
    if s.len() > 0 {
        lemma_in_season_items(s.drop_last(), season);
        let r = in_season(s.drop_last(), season);
        if spec_episode_season_number(s.last()) == season {
            assert forall|k: int| 0 <= k < r.push(s.last()).len() implies spec_episode_season_number(
                #[trigger] r.push(s.last())[k],
            ) == season by {
                if k < r.len() {
                    assert(r.push(s.last())[k] == r[k]);
                }
            }
        }
    }
}

/// A season folder lists the episodes of that season, each as often as the
/// detail holds it and no others, ordered by episode number (episodes with
/// equal numbers keep their order).
pub proof fn law_season_episodes_in_order(d: SeriesDetail, season: i32)
    ensures
        forall|i: int, j: int|
            0 <= i < j < spec_episodes_in_season(d, season).len() ==> spec_episode_number(
                #[trigger] spec_episodes_in_season(d, season)[i],
            ) <= spec_episode_number(#[trigger] spec_episodes_in_season(d, season)[j]),
        forall|k: int|
            0 <= k < spec_episodes_in_season(d, season).len() ==> spec_episode_season_number(
                #[trigger] spec_episodes_in_season(d, season)[k],
            ) == season,
        spec_episodes_in_season(d, season).to_multiset() == in_season(
            flat_episodes(d.episodes@),
            season,
        ).to_multiset(),
{
    let gt = |a: SeriesEpisode, b: SeriesEpisode| episode_after(a, b);
    let input = in_season(flat_episodes(d.episodes@), season);
    assert(strict_order(gt));
    lemma_stable_sort_sorted_by(input, gt);
    lemma_stable_sort_items(input, gt);
    lemma_stable_sort_permutes(input, gt);
    lemma_in_season_items(flat_episodes(d.episodes@), season);
    let out = spec_episodes_in_season(d, season);
    assert forall|i: int, j: int| 0 <= i < j < out.len() implies spec_episode_number(
        #[trigger] out[i],
    ) <= spec_episode_number(#[trigger] out[j]) by {
        assert(!gt(out[i], out[j]));
    }
    assert forall|k: int| 0 <= k < out.len() implies spec_episode_season_number(#[trigger] out[k])
        == season by {
        let m = choose|m: int| 0 <= m < input.len() && input[m] == out[k];
        assert(spec_episode_season_number(input[m]) == season);
    }
}

} // verus!
