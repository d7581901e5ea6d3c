//! URLs of the Xtream API and of its streams.

use vstd::prelude::*;
use vstd::utf8::encode_utf8;

use crate::text::{chars_of, dec_int, find, push_i64, string_of};

verus! {

/// `s.trim_end_matches('/')`.
pub open spec fn trim_end_slashes(s: Seq<char>) -> Seq<char>
    decreases s.len(),
{
    if s.len() > 0 && s.last() == '/' {
        trim_end_slashes(s.drop_last())
    } else {
        s
    }
}

/// Trailing slashes removed: the result does not end with `/`.
pub proof fn law_no_trailing_slash(s: Seq<char>)
    ensures
        trim_end_slashes(s).len() > 0 ==> trim_end_slashes(s).last() != '/',
    decreases s.len(),
{
    if s.len() > 0 && s.last() == '/' {
        law_no_trailing_slash(s.drop_last());
    }
}

/// `s` without its trailing slashes.
pub fn trim_end_slashes_exec(s: &str) -> (r: String)
    ensures
        r@ == trim_end_slashes(s@),
{
    let cs = chars_of(s);
    let mut e = cs.len();
    assert(cs@.take(e as int) =~= cs@);
    while e > 0 && cs[e - 1] == '/'
        invariant
            e <= cs@.len(),
            trim_end_slashes(s@) == trim_end_slashes(cs@.take(e as int)),
            cs@ == s@,
        decreases e,
    {
        assert(cs@.take(e as int).drop_last() =~= cs@.take(e - 1));
        e = e - 1;
    }
    assert(cs@.subrange(0, e as int) =~= cs@.take(e as int));
    string_of(&cs, 0, e)
}

/// `{base}/{kind}/{username}/{password}/{stream_id}.{extension}` with the
/// trailing slashes of `base` removed.
pub open spec fn spec_stream_url(
    base_url: Seq<char>,
    kind: Seq<char>,
    username: Seq<char>,
    password: Seq<char>,
    stream_id: i64,
    extension: Seq<char>,
) -> Seq<char> {
    trim_end_slashes(base_url) + "/"@ + kind + "/"@ + username + "/"@ + password + "/"@ + dec_int(
        stream_id as int,
    ) + "."@ + extension
}

fn stream_url(
    base_url: &str,
    kind: &str,
    username: &str,
    password: &str,
    stream_id: i64,
    extension: &str,
) -> (r: String)
    ensures
        r@ == spec_stream_url(base_url@, kind@, username@, password@, stream_id, extension@),
{
    let mut out = trim_end_slashes_exec(base_url);
    out.append("/");
    out.append(kind);
    out.append("/");
    out.append(username);
    out.append("/");
    out.append(password);
    out.append("/");
    push_i64(&mut out, stream_id);
    out.append(".");
    out.append(extension);
    out
}

/// `{base}/movie/{username}/{password}/{stream_id}.{extension}`
pub fn build_movie_stream_url(
    base_url: &str,
    username: &str,
    password: &str,
    stream_id: i64,
    extension: &str,
) -> (r: String)
    ensures
        r@ == spec_stream_url(base_url@, "movie"@, username@, password@, stream_id, extension@),
{
    stream_url(base_url, "movie", username, password, stream_id, extension)
}

/// `{base}/series/{username}/{password}/{stream_id}.{extension}`
pub fn build_series_stream_url(
    base_url: &str,
    username: &str,
    password: &str,
    stream_id: i64,
    extension: &str,
) -> (r: String)
    ensures
        r@ == spec_stream_url(base_url@, "series"@, username@, password@, stream_id, extension@),
{
    stream_url(base_url, "series", username, password, stream_id, extension)
}

// ------------------------------------------------------------------
// API URLs
// ------------------------------------------------------------------

/// The error of `url::Url::parse`, carried through unopened.
#[verifier::external_type_specification]
#[verifier::external_body]
pub struct ExParseError(url::ParseError);

/// The serialization that `url::Url::parse` gives `input`, or `None` when it
/// rejects it.
pub uninterp spec fn url_serialization(input: Seq<char>) -> Option<Seq<char>>;

/// Bytes that the `application/x-www-form-urlencoded` serializer keeps.
pub open spec fn form_unchanged(b: u8) -> bool {
    b == 0x2a || b == 0x2d || b == 0x2e || (0x30 <= b <= 0x39) || (0x41 <= b <= 0x5a) || b == 0x5f
        || (0x61 <= b <= 0x7a)
}

pub open spec fn form_bytes(bytes: Seq<u8>) -> Seq<char>
    decreases bytes.len(),
{
    if bytes.len() == 0 {
        Seq::empty()
    } else {
        let b = bytes.last();
        form_bytes(bytes.drop_last()) + if form_unchanged(b) {
            seq![b as char]
        } else if b == 0x20 {
            seq!['+']
        } else {
            crate::path_seg::percent_byte(b)
        }
    }
}

/// `form_urlencoded::byte_serialize` of the UTF-8 form of `s`.
pub open spec fn form_encode(s: Seq<char>) -> Seq<char> {
    form_bytes(encode_utf8(s))
}

/// `name=value` pairs joined by `&`, both sides form-encoded.
pub open spec fn query_text(pairs: Seq<(Seq<char>, Seq<char>)>) -> Seq<char>
    decreases pairs.len(),
{
    if pairs.len() == 0 {
        Seq::empty()
    } else {
        let last = form_encode(pairs.last().0) + "="@ + form_encode(pairs.last().1);
        if pairs.len() == 1 {
            last
        } else {
            query_text(pairs.drop_last()) + "&"@ + last
        }
    }
}

/// Where the fragment of a serialized URL starts (its length when it has none).
pub open spec fn fragment_start(u: Seq<char>) -> int {
    match find(u, "#"@) {
        Some(h) => h as int,
        None => u.len() as int,
    }
}

/// The part of a serialized URL before its fragment, ready for more query
/// pairs: a `?` added when it has no query, a `&` when its query is not empty.
pub open spec fn query_base(pre: Seq<char>) -> Seq<char> {
    match find(pre, "?"@) {
        Some(q) => if q + 1 < pre.len() {
            pre + "&"@
        } else {
            pre
        },
        None => pre + "?"@,
    }
}

/// What `query_pairs_mut().append_pair(..)` for each of one or more pairs
/// makes of a serialized URL `u`: the pairs appended to its query, the
/// fragment kept at the end.
pub open spec fn with_query_pairs(u: Seq<char>, pairs: Seq<(Seq<char>, Seq<char>)>) -> Seq<char> {
    query_base(u.take(fragment_start(u))) + query_text(pairs) + u.skip(fragment_start(u))
}

/// The pairs of an API call: credentials, action, then the extra parameters.
pub open spec fn api_pairs(
    username: Seq<char>,
    password: Seq<char>,
    action: Seq<char>,
    extra: Seq<(Seq<char>, Seq<char>)>,
) -> Seq<(Seq<char>, Seq<char>)> {
    seq![("username"@, username), ("password"@, password), ("action"@, action)] + extra
}

/// Name/value pairs as plain values.
pub open spec fn pairs_of(extra: Seq<(&str, &str)>) -> Seq<(Seq<char>, Seq<char>)> {
    extra.map_values(|p: (&str, &str)| (p.0@, p.1@))
}

/// `build_api_url_with_params`: `{base}/player_api.php` (trailing slashes of
/// `base` removed) as `url` parses it, with the pairs appended to its query.
pub open spec fn spec_api_url(
    base_url: Seq<char>,
    username: Seq<char>,
    password: Seq<char>,
    action: Seq<char>,
    extra: Seq<(Seq<char>, Seq<char>)>,
) -> Option<Seq<char>> {
    match url_serialization(trim_end_slashes(base_url) + "/player_api.php"@) {
        Some(u) => Some(with_query_pairs(u, api_pairs(username, password, action, extra))),
        None => None,
    }
}

/// Characters in the names and values of `pairs`, plus one for each pair.
pub open spec fn pairs_size(pairs: Seq<(Seq<char>, Seq<char>)>) -> nat
    decreases pairs.len(),
{
    if pairs.len() == 0 {
        0
    } else {
        pairs_size(pairs.drop_last()) + pairs.last().0.len() + pairs.last().1.len() + 1
    }
}

proof fn lemma_pairs_size_prefix(pairs: Seq<(Seq<char>, Seq<char>)>, n: int)
    requires
        0 <= n <= pairs.len(),
    ensures
        pairs_size(pairs.take(n)) <= pairs_size(pairs),
    decreases pairs.len() - n,
{
    if n < pairs.len() {
        lemma_pairs_size_prefix(pairs, n + 1);
        assert(pairs.take(n + 1).drop_last() =~= pairs.take(n));
    } else {
        assert(pairs.take(n) =~= pairs);
    }
}

proof fn lemma_pairs_size_step(pairs: Seq<(Seq<char>, Seq<char>)>, n: int)
    requires
        0 <= n < pairs.len(),
    ensures
        pairs_size(pairs.take(n + 1)) == pairs_size(pairs.take(n)) + pairs[n].0.len() + pairs[n].1.len()
            + 1,
{
    assert(pairs.take(n + 1).drop_last() =~= pairs.take(n));
    assert(pairs.take(n + 1).last() == pairs[n]);
}

proof fn lemma_pairs_size_concat(a: Seq<(Seq<char>, Seq<char>)>, b: Seq<(Seq<char>, Seq<char>)>)
    ensures
        pairs_size(a + b) == pairs_size(a) + pairs_size(b),
    decreases b.len(),
{
    if b.len() == 0 {
        assert(a + b =~= a);
    } else {
        lemma_pairs_size_concat(a, b.drop_last());
        assert((a + b).drop_last() =~= a + b.drop_last());
        assert((a + b).last() == b.last());
    }
}

/// The size of an API call's pairs: the credentials and the action with
/// their names, then the extra parameters.
pub proof fn lemma_api_pairs_size(
    username: Seq<char>,
    password: Seq<char>,
    action: Seq<char>,
    extra: Seq<(Seq<char>, Seq<char>)>,
)
    ensures
        pairs_size(api_pairs(username, password, action, extra)) == username.len() + password.len()
            + action.len() + 25 + pairs_size(extra),
{
    reveal_strlit("username");
    reveal_strlit("password");
    reveal_strlit("action");
    let p1 = ("username"@, username);
    let p2 = ("password"@, password);
    let p3 = ("action"@, action);
    let f0 = Seq::<(Seq<char>, Seq<char>)>::empty();
    let f1 = f0.push(p1);
    let f2 = f1.push(p2);
    let f3 = f2.push(p3);
    assert(f1.drop_last() =~= f0);
    assert(f2.drop_last() =~= f1);
    assert(f3.drop_last() =~= f2);
    assert("username"@.len() == 8);
    assert("password"@.len() == 8);
    assert("action"@.len() == 6);
    assert(pairs_size(f0) == 0);
    assert(f1.last() == p1);
    assert(f2.last() == p2);
    assert(f3.last() == p3);
    assert(pairs_size(f1) == username.len() + 9);
    assert(pairs_size(f2) == username.len() + password.len() + 18);
    assert(pairs_size(f3) == username.len() + password.len() + action.len() + 25);
    assert(f3 =~= seq![p1, p2, p3]);
    lemma_pairs_size_concat(f3, extra);
}

/// The most characters an API request may take.  `url` keeps positions in a
/// `u32` (at most 4,294,967,295 bytes) and panics when appending query pairs
/// makes a URL with a fragment longer than that.  A character takes at most
/// twelve bytes once percent-encoded (four UTF-8 bytes, each as `%XX`), so
/// this many characters take at most 1,200,000,000 bytes: the rest of the
/// `u32` range is left for what parsing adds beyond percent-encoding (a `/`
/// path, the `xn--` labels of an internationalized host), whose size the url
/// crate does not bound in its documentation.
pub const MAX_API_URL_CHARS: usize = 100_000_000;

/// An API request small enough for `url` to build without overflowing.
pub open spec fn api_url_fits(
    base_url: Seq<char>,
    username: Seq<char>,
    password: Seq<char>,
    action: Seq<char>,
    extra: Seq<(Seq<char>, Seq<char>)>,
) -> bool {
    base_url.len() + 15 + pairs_size(api_pairs(username, password, action, extra))
        <= MAX_API_URL_CHARS
}

proof fn lemma_trim_end_slashes_len(s: Seq<char>)
    ensures
        trim_end_slashes(s).len() <= s.len(),
    decreases s.len(),
{
    if s.len() > 0 && s.last() == '/' {
        lemma_trim_end_slashes_len(s.drop_last());
    }
}

/// Whether `api_url_fits` holds.
pub fn api_url_fits_exec(
    base_url: &str,
    username: &str,
    password: &str,
    action: &str,
    extra_params: &[(&str, &str)],
) -> (b: bool)
    ensures
        b == api_url_fits(base_url@, username@, password@, action@, pairs_of(extra_params@)),
{
    let ghost full = api_pairs(username@, password@, action@, pairs_of(extra_params@));
    proof {
        reveal_strlit("username");
        reveal_strlit("password");
        reveal_strlit("action");
        assert(full.take(0) =~= Seq::<(Seq<char>, Seq<char>)>::empty());
        lemma_pairs_size_step(full, 0);
        lemma_pairs_size_step(full, 1);
        lemma_pairs_size_step(full, 2);
        lemma_pairs_size_prefix(full, 3);
    }
    let limit = MAX_API_URL_CHARS as u64;
    let mut total: u64 = 15;
    let parts = [base_url.unicode_len(), username.unicode_len(), password.unicode_len(), action.unicode_len()];
    if parts[0] as u64 > limit || parts[1] as u64 > limit || parts[2] as u64 > limit
        || parts[3] as u64 > limit {
        return false;
    }
    total = total + parts[0] as u64 + parts[1] as u64 + 9 + parts[2] as u64 + 9 + parts[3] as u64
        + 7;
    assert(total == base_url@.len() + 15 + pairs_size(full.take(3)));
    let mut i: usize = 0;
    while i < extra_params.len()
        invariant
            i <= extra_params@.len(),
            full == api_pairs(username@, password@, action@, pairs_of(extra_params@)),
            total == base_url@.len() + 15 + pairs_size(full.take(3 + i)),
            total <= 5 * limit + 64,
            limit == MAX_API_URL_CHARS,
        decreases extra_params@.len() - i,
    {
        if total > limit {
            proof {
                lemma_pairs_size_prefix(full, 3 + i);
            }
            return false;
        }
        let (k, v) = extra_params[i];
        let kl = k.unicode_len() as u64;
        let vl = v.unicode_len() as u64;
        proof {
            lemma_pairs_size_step(full, 3 + i);
            lemma_pairs_size_prefix(full, 3 + i + 1);
            assert(full[3 + i as int] == (k@, v@));
        }
        if kl > limit || vl > limit {
            return false;
        }
        total = total + kl + vl + 1;
        i = i + 1;
    }
    assert(full.take(3 + extra_params@.len() as int) =~= full);
    total <= limit
}

/// Calls `url::Url::parse` on `input`; on success appends the (one or more)
/// `pairs` to its query with `query_pairs_mut().extend_pairs(..)` (each name
/// and value form-encoded, `&` between pairs, the fragment kept last) and serializes
/// the URL (`String::from`).  The parse, and so the serialization the pairs
/// are appended to, is named by `url_serialization`.
#[verifier::external_body]
fn parse_with_query_pairs(input: &str, pairs: &[(&str, &str)]) -> (r: Result<
    String,
    url::ParseError,
>)
    requires
        pairs@.len() > 0,
        input@.len() + pairs_size(pairs_of(pairs@)) <= MAX_API_URL_CHARS,
    ensures
        match r {
            Ok(s) => url_serialization(input@) matches Some(u) && s@ == with_query_pairs(
                u,
                pairs_of(pairs@),
            ),
            Err(_) => url_serialization(input@) is None,
        },
{
    let mut u = url::Url::parse(input)?;
    u.query_pairs_mut().extend_pairs(pairs);
    Ok(u.into())
}

/// `{base}/player_api.php` (trailing slashes of `base` removed) as `url`
/// parses it, with the credentials, the action and the extra parameters
/// appended to its query.
pub fn build_api_url_with_params(
    base_url: &str,
    username: &str,
    password: &str,
    action: &str,
    extra_params: &[(&str, &str)],
) -> (r: Result<String, url::ParseError>)
    requires
        api_url_fits(base_url@, username@, password@, action@, pairs_of(extra_params@)),
    ensures
        match r {
            Ok(u) => spec_api_url(base_url@, username@, password@, action@, pairs_of(extra_params@))
                == Some(u@),
            Err(_) => spec_api_url(base_url@, username@, password@, action@, pairs_of(extra_params@))
                is None,
        },
{
    let mut input = trim_end_slashes_exec(base_url);
    input.append("/player_api.php");
    let ghost full = api_pairs(username@, password@, action@, pairs_of(extra_params@));
    let mut pairs: Vec<(&str, &str)> = Vec::new();
    pairs.push(("username", username));
    pairs.push(("password", password));
    pairs.push(("action", action));
    proof {
        reveal_strlit("username");
        reveal_strlit("password");
        reveal_strlit("action");
    }
    let mut i: usize = 0;
    while i < extra_params.len()
        invariant
            i <= extra_params@.len(),
            pairs@.len() == 3 + i,
            full == api_pairs(username@, password@, action@, pairs_of(extra_params@)),
            forall|j: int| 0 <= j < pairs@.len() ==> (#[trigger] pairs@[j].0@, pairs@[j].1@) == full[j],
        decreases extra_params@.len() - i,
    {
        let p = extra_params[i];
        assert(full[3 + i as int] == (p.0@, p.1@));
        let ghost before = pairs@;
        pairs.push(p);
        assert forall|j: int| 0 <= j < pairs@.len() implies (#[trigger] pairs@[j].0@, pairs@[j].1@)
            == full[j] by {
            if j < before.len() {
                assert(pairs@[j] == before[j]);
                assert((before[j].0@, before[j].1@) == full[j]);
            }
        }
        i = i + 1;
    }
    assert(pairs_of(pairs@) =~= full);
    proof {
        lemma_trim_end_slashes_len(base_url@);
        reveal_strlit("/player_api.php");
    }
    parse_with_query_pairs(input.as_str(), pairs.as_slice())
}

} // verus!
