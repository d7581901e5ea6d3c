//! The Xtream client's own logic: which URLs it calls, and what it makes of
//! the answers.  The HTTP exchange itself is done by the caller.

use vstd::prelude::*;

use crate::head_metadata::is_success;
use crate::text::{dec_int, push_i64};
use crate::xtream::error::XtreamError;
use crate::xtream::url::{
    api_url_fits, build_api_url_with_params, build_movie_stream_url, build_series_stream_url,
    lemma_api_pairs_size, pairs_of, pairs_size, spec_api_url, spec_stream_url,
    MAX_API_URL_CHARS,
};

verus! {

/// The panel and the credentials of the account.
#[derive(Clone, Debug)]
pub struct XtreamClient {
    pub base_url: String,
    pub username: String,
    pub password: String,
}

/// The text of a `url::ParseError` (its `Display`).  Nothing is stated of
/// the text.
#[verifier::external_body]
fn parse_error_text(e: &url::ParseError) -> String {
    e.to_string()
}

/// The error a request fails with on its HTTP status, before its body is
/// read: `401` and `403` are authentication failures.
pub open spec fn spec_auth_failure(status: u16, status_text: Seq<char>) -> Option<Seq<char>> {
    if status == 401 || status == 403 {
        Some("server returned "@ + status_text)
    } else {
        None
    }
}

/// What a request gives once its body is read (`body` is the text, or the
/// text of the read error): the body, or the error as kind and text.
pub open spec fn spec_read_result(status: u16, status_text: Seq<char>, body: Result<Seq<char>, Seq<char>>) -> Result<
    Seq<char>,
    (int, Seq<char>),
> {
    if !is_success(status) {
        Err(
            (
                2,
                "HTTP "@ + status_text + ": "@ + match body {
                    Ok(b) => b,
                    Err(_) => Seq::empty(),
                },
            ),
        )
    } else {
        match body {
            Err(e) => Err((1, e)),
            Ok(b) => if b.len() == 0 {
                Err((2, "empty response body"@))
            } else {
                Ok(b)
            },
        }
    }
}

/// An error as its kind (0 auth, 1 network, 2 unexpected response) and text.
pub open spec fn error_parts(e: XtreamError) -> (int, Seq<char>) {
    match e {
        XtreamError::Auth(s) => (0, s@),
        XtreamError::Network(s) => (1, s@),
        XtreamError::UnexpectedResponse(s) => (2, s@),
    }
}

pub open spec fn body_view(b: Result<String, String>) -> Result<Seq<char>, Seq<char>> {
    match b {
        Ok(s) => Ok(s@),
        Err(e) => Err(e@),
    }
}

/// `401`/`403`: the request fails with an authentication error
/// (`server returned {status}`), and its body is not read.
pub fn auth_failure(status: u16, status_text: &str) -> (r: Option<XtreamError>)
    ensures
        match r {
            Some(e) => spec_auth_failure(status, status_text@) matches Some(m) && error_parts(e) == (
                0int,
                m,
            ),
            None => spec_auth_failure(status, status_text@) is None,
        },
{
    if status == 401 || status == 403 {
        let mut m = String::from_str("server returned ");
        m.append(status_text);
        Some(XtreamError::Auth(m))
    } else {
        None
    }
}

/// The body of a request once read: a status outside `2xx` fails with the
/// status and whatever body there was, a read error is a network error, an
/// empty body is unexpected.
pub fn read_result(status: u16, status_text: &str, body: Result<String, String>) -> (r: Result<
    String,
    XtreamError,
>)
    ensures
        match r {
            Ok(b) => spec_read_result(status, status_text@, body_view(body)) == Ok::<
                Seq<char>,
                (int, Seq<char>),
            >(b@),
            Err(e) => spec_read_result(status, status_text@, body_view(body)) == Err::<
                Seq<char>,
                (int, Seq<char>),
            >(error_parts(e)),
        },
{
    if !(200 <= status && status <= 299) {
        let mut m = String::from_str("HTTP ");
        m.append(status_text);
        m.append(": ");
        match &body {
            Ok(b) => m.append(b.as_str()),
            Err(_) => {},
        }
        return Err(XtreamError::UnexpectedResponse(m));
    }
    match body {
        Err(e) => Err(XtreamError::Network(e)),
        Ok(b) => {
            if b.as_str().is_empty() {
                Err(XtreamError::UnexpectedResponse(String::from_str("empty response body")))
            } else {
                Ok(b)
            }
        },
    }
}

/// A body that is not the JSON expected.
pub fn json_parse_error(detail: &str, body: &str) -> (e: XtreamError)
    ensures
        error_parts(e) == (2int, "json parse error: "@ + detail@ + "; body: "@ + body@),
{
    let mut m = String::from_str("json parse error: ");
    m.append(detail);
    m.append("; body: ");
    m.append(body);
    XtreamError::UnexpectedResponse(m)
}

impl XtreamClient {
    /// A client for the panel at `base_url` with the given account.
    pub fn new(base_url: String, username: String, password: String) -> (c: Self)
        ensures
            c.base_url == base_url,
            c.username == username,
            c.password == password,
    {
        XtreamClient { base_url, username, password }
    }

    /// The panel's URL and the credentials leave `room` characters of an API
    /// request for the action and its parameters.
    pub open spec fn request_fits(&self, room: nat) -> bool {
        self.base_url@.len() + self.username@.len() + self.password@.len() + room + 100
            <= MAX_API_URL_CHARS
    }

    /// Whether `request_fits(room)` holds.
    pub fn request_fits_exec(&self, room: usize) -> (b: bool)
        ensures
            b == self.request_fits(room as nat),
    {
        let limit = MAX_API_URL_CHARS;
        let a = self.base_url.as_str().unicode_len();
        let b = self.username.as_str().unicode_len();
        let c = self.password.as_str().unicode_len();
        if a > limit || b > limit || c > limit || room > limit {
            return false;
        }
        (a as u64) + (b as u64) + (c as u64) + (room as u64) + 100 <= limit as u64
    }

    /// The `player_api.php` URL of `action`; a base URL that does not parse is
    /// a network error.
    pub fn api_url(&self, action: &str, extra: &[(&str, &str)]) -> (r: Result<String, XtreamError>)
        requires
            api_url_fits(self.base_url@, self.username@, self.password@, action@, pairs_of(extra@)),
        ensures
            match r {
                Ok(u) => spec_api_url(
                    self.base_url@,
                    self.username@,
                    self.password@,
                    action@,
                    pairs_of(extra@),
                ) == Some(u@),
                Err(e) => spec_api_url(
                    self.base_url@,
                    self.username@,
                    self.password@,
                    action@,
                    pairs_of(extra@),
                ) is None && e is Network,
            },
    {
        match build_api_url_with_params(
            self.base_url.as_str(),
            self.username.as_str(),
            self.password.as_str(),
            action,
            extra,
        ) {
            Ok(u) => Ok(u),
            Err(e) => Err(XtreamError::Network(parse_error_text(&e))),
        }
    }

    /// The `get_vod_categories` URL.
    pub fn vod_categories_url(&self) -> (r: Result<String, XtreamError>)
        requires
            self.request_fits(0),
        ensures
            match r {
                Ok(u) => spec_api_url(
                    self.base_url@,
                    self.username@,
                    self.password@,
                    "get_vod_categories"@,
                    seq![],
                ) == Some(u@),
                Err(e) => spec_api_url(
                    self.base_url@,
                    self.username@,
                    self.password@,
                    "get_vod_categories"@,
                    seq![],
                ) is None && e is Network,
            },
    {
        let none: [(&str, &str); 0] = [];
        proof {
            reveal_strlit("get_vod_categories");
            assert(pairs_of(none@) =~= seq![]);
            lemma_api_pairs_size(self.username@, self.password@, "get_vod_categories"@, pairs_of(none@));
        }
        let r = self.api_url("get_vod_categories", &none);
        proof {
            assert(pairs_of(none@) =~= seq![]);
        }
        r
    }

    /// The `get_vod_streams` URL of a category.
    pub fn vod_streams_url(&self, category_id: &str) -> (r: Result<String, XtreamError>)
        requires
            self.request_fits(category_id@.len()),
        ensures
            match r {
                Ok(u) => spec_api_url(
                    self.base_url@,
                    self.username@,
                    self.password@,
                    "get_vod_streams"@,
                    seq![("category_id"@, category_id@)],
                ) == Some(u@),
                Err(e) => spec_api_url(
                    self.base_url@,
                    self.username@,
                    self.password@,
                    "get_vod_streams"@,
                    seq![("category_id"@, category_id@)],
                ) is None && e is Network,
            },
    {
        let extra = [("category_id", category_id)];
        proof {
            reveal_strlit("get_vod_streams");
            reveal_strlit("category_id");
            assert(pairs_of(extra@) =~= seq![("category_id"@, category_id@)]);
            lemma_api_pairs_size(self.username@, self.password@, "get_vod_streams"@, pairs_of(extra@));
            let e = pairs_of(extra@);
            assert(e.drop_last() =~= Seq::<(Seq<char>, Seq<char>)>::empty());
            assert(pairs_size(e.drop_last()) == 0);
            assert(e.last() == ("category_id"@, category_id@));
            assert(pairs_size(e) == 12 + category_id@.len());
            assert("get_vod_streams"@.len() == 15);
        }
        let r = self.api_url("get_vod_streams", &extra);
        proof {
            assert(pairs_of(extra@) =~= seq![("category_id"@, category_id@)]);
        }
        r
    }

    /// The `get_series_categories` URL.
    pub fn series_categories_url(&self) -> (r: Result<String, XtreamError>)
        requires
            self.request_fits(0),
        ensures
            match r {
                Ok(u) => spec_api_url(
                    self.base_url@,
                    self.username@,
                    self.password@,
                    "get_series_categories"@,
                    seq![],
                ) == Some(u@),
                Err(e) => spec_api_url(
                    self.base_url@,
                    self.username@,
                    self.password@,
                    "get_series_categories"@,
                    seq![],
                ) is None && e is Network,
            },
    {
        let none: [(&str, &str); 0] = [];
        proof {
            reveal_strlit("get_series_categories");
            assert(pairs_of(none@) =~= seq![]);
            lemma_api_pairs_size(self.username@, self.password@, "get_series_categories"@, pairs_of(none@));
        }
        let r = self.api_url("get_series_categories", &none);
        proof {
            assert(pairs_of(none@) =~= seq![]);
        }
        r
    }

    /// The `get_series` URL of a category.
    pub fn series_url(&self, category_id: &str) -> (r: Result<String, XtreamError>)
        requires
            self.request_fits(category_id@.len()),
        ensures
            match r {
                Ok(u) => spec_api_url(
                    self.base_url@,
                    self.username@,
                    self.password@,
                    "get_series"@,
                    seq![("category_id"@, category_id@)],
                ) == Some(u@),
                Err(e) => spec_api_url(
                    self.base_url@,
                    self.username@,
                    self.password@,
                    "get_series"@,
                    seq![("category_id"@, category_id@)],
                ) is None && e is Network,
            },
    {
        let extra = [("category_id", category_id)];
        proof {
            reveal_strlit("get_series");
            reveal_strlit("category_id");
            assert(pairs_of(extra@) =~= seq![("category_id"@, category_id@)]);
            lemma_api_pairs_size(self.username@, self.password@, "get_series"@, pairs_of(extra@));
            let e = pairs_of(extra@);
            assert(e.drop_last() =~= Seq::<(Seq<char>, Seq<char>)>::empty());
            assert(pairs_size(e.drop_last()) == 0);
            assert(e.last() == ("category_id"@, category_id@));
            assert(pairs_size(e) == 12 + category_id@.len());
            assert("get_series"@.len() == 10);
        }
        let r = self.api_url("get_series", &extra);
        proof {
            assert(pairs_of(extra@) =~= seq![("category_id"@, category_id@)]);
        }
        r
    }

    /// `get_series_info` of a series, its id written in decimal.
    pub fn series_info_url(&self, series_id: i64) -> (r: Result<String, XtreamError>)
        requires
            self.request_fits(dec_int(series_id as int).len()),
        ensures
            match r {
                Ok(u) => spec_api_url(
                    self.base_url@,
                    self.username@,
                    self.password@,
                    "get_series_info"@,
                    seq![("series_id"@, dec_int(series_id as int))],
                ) == Some(u@),
                Err(e) => spec_api_url(
                    self.base_url@,
                    self.username@,
                    self.password@,
                    "get_series_info"@,
                    seq![("series_id"@, dec_int(series_id as int))],
                ) is None && e is Network,
            },
    {
        let mut id = String::new();
        push_i64(&mut id, series_id);
        let ids = id.as_str();
        let extra = [("series_id", ids)];
        proof {
            reveal_strlit("get_series_info");
            reveal_strlit("series_id");
            assert(pairs_of(extra@) =~= seq![("series_id"@, dec_int(series_id as int))]);
            lemma_api_pairs_size(self.username@, self.password@, "get_series_info"@, pairs_of(extra@));
            let e = pairs_of(extra@);
            assert(e.drop_last() =~= Seq::<(Seq<char>, Seq<char>)>::empty());
            assert(pairs_size(e.drop_last()) == 0);
            assert(e.last() == ("series_id"@, dec_int(series_id as int)));
            assert(pairs_size(e) == 10 + dec_int(series_id as int).len());
            assert("get_series_info"@.len() == 15);
        }
        let r = self.api_url("get_series_info", &extra);
        proof {
            assert(pairs_of(extra@) =~= seq![("series_id"@, dec_int(series_id as int))]);
        }
        r
    }

    /// `{base}/movie/{username}/{password}/{stream_id}.{extension}`
    pub fn movie_stream_url(&self, stream_id: i64, extension: &str) -> (r: String)
        ensures
            r@ == spec_stream_url(
                self.base_url@,
                "movie"@,
                self.username@,
                self.password@,
                stream_id,
                extension@,
            ),
    {
        build_movie_stream_url(
            self.base_url.as_str(),
            self.username.as_str(),
            self.password.as_str(),
            stream_id,
            extension,
        )
    }

    /// `{base}/series/{username}/{password}/{stream_id}.{extension}`
    pub fn series_stream_url(&self, stream_id: i64, extension: &str) -> (r: String)
        ensures
            r@ == spec_stream_url(
                self.base_url@,
                "series"@,
                self.username@,
                self.password@,
                stream_id,
                extension@,
            ),
    {
        build_series_stream_url(
            self.base_url.as_str(),
            self.username.as_str(),
            self.password.as_str(),
            stream_id,
            extension,
        )
    }
}

} // verus!
