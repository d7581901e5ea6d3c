//! Stream metadata for `HEAD` answers: strict checks of the upstream probe
//! response and the headers sent back to the client.

use vstd::prelude::*;

use crate::html::pairs_view;

use crate::text::{
    chars_of, dec_nat, is_ascii_digit, is_ws, lemma_dec_nat_digits, lemma_digits_value_dec_nat,
    lemma_rfind_char_props, lower_seq, lower_string, parse_u64, parse_u64_chars, rfind_char,
    rfind_char_in, trim, trim_bounds, trim_bounds_in,
};

verus! {

/// Default time for which probe metadata of one URL is reused, in nanoseconds
/// (15 minutes).
pub const DEFAULT_HEAD_CACHE_TTL_NANOS: u64 = 900_000_000_000;

/// The most entries the metadata cache keeps before it starts over.
pub const HEAD_CACHE_MAX_ENTRIES: usize = 10_000;

/// Metadata of one upstream stream.
#[derive(Clone, Debug)]
pub struct HeadHeaders {
    pub content_length: Option<u64>,
    pub content_type: Option<String>,
    pub accept_ranges: Option<String>,
    pub last_modified: Option<String>,
}

/// `HeadHeaders` as plain values.
pub struct HeadMeta {
    pub content_length: Option<u64>,
    pub content_type: Option<Seq<char>>,
    pub accept_ranges: Option<Seq<char>>,
    pub last_modified: Option<Seq<char>>,
}

pub open spec fn opt_str_view(o: Option<String>) -> Option<Seq<char>> {
    match o {
        Some(s) => Some(s@),
        None => None,
    }
}

impl View for HeadHeaders {
    type V = HeadMeta;

    open spec fn view(&self) -> HeadMeta {
        HeadMeta {
            content_length: self.content_length,
            content_type: opt_str_view(self.content_type),
            accept_ranges: opt_str_view(self.accept_ranges),
            last_modified: opt_str_view(self.last_modified),
        }
    }
}

impl HeadHeaders {
    /// The stream length, when known.
    pub fn content_length(&self) -> (r: Option<u64>)
        ensures
            r == self.content_length,
    {
        self.content_length
    }
}

/// What the checks read of an upstream response: its status and the first
/// value of each header that is visible ASCII (`None` when missing or not).
pub struct UpstreamResponse {
    pub status: u16,
    /// `Display` of the status, such as `206 Partial Content`.
    pub status_text: String,
    pub content_type: Option<String>,
    pub accept_ranges: Option<String>,
    pub content_range: Option<String>,
    pub content_length: Option<String>,
    pub last_modified: Option<String>,
}

/// `Content-Range: bytes 0-0/123456789` (or `bytes */len`): the text after
/// the last `/`, trimmed, as a `u64`; `None` for `*` or anything else.
pub open spec fn spec_total_from_content_range(value: Seq<char>) -> Option<u64> {
    let v = trim(value);
    match rfind_char(v, '/') {
        Some(slash) => {
            let tail = trim(v.skip((slash + 1) as int));
            if tail == "*"@ {
                None
            } else {
                parse_u64(tail)
            }
        },
        None => None,
    }
}

/// Parse `Content-Range: bytes 0-0/123456789` (or `bytes */len`) for total length.
pub fn total_from_content_range(value: &str) -> (r: Option<u64>)
    ensures
        r == spec_total_from_content_range(value@),
{
    proof {
        reveal_strlit("*");
    }
    let cs = chars_of(value);
    let (b, e) = trim_bounds(&cs);
    let ghost v = cs@.subrange(b as int, e as int);
    let slash = match rfind_char_in(&cs, b, e, '/') {
        Some(k) => k,
        None => return None,
    };
    assert(v.skip(slash + 1) =~= cs@.subrange(b + slash + 1, e as int));
    let (tb, te) = trim_bounds_in(&cs, b + slash + 1, e);
    if te - tb == 1 && cs[tb] == '*' {
        assert(cs@.subrange(tb as int, te as int) =~= "*"@);
        return None;
    }
    assert(cs@.subrange(tb as int, te as int) != "*"@ ==> true);
    if te - tb == 1 {
        assert(cs@.subrange(tb as int, te as int)[0] != '*');
    }
    parse_u64_chars(&cs, tb, te)
}

/// `normalized_accept_ranges`: `bytes` or `none` (trimmed, any ASCII case),
/// else `None`.
pub open spec fn spec_normalized_accept_ranges(raw: Option<String>) -> Option<Seq<char>> {
    match raw {
        Some(r) => {
            let l = lower_seq(trim(r@));
            if l == "bytes"@ {
                Some("bytes"@)
            } else if l == "none"@ {
                Some("none"@)
            } else {
                None
            }
        },
        None => None,
    }
}

/// `Accept-Ranges` trimmed and lower-cased when it is `bytes` or `none`.
pub fn normalized_accept_ranges(raw: &Option<String>) -> (r: Option<String>)
    ensures
        opt_str_view(r) == spec_normalized_accept_ranges(*raw),
{
    match raw {
        Some(s) => {
            let cs = chars_of(s.as_str());
            let (b, e) = trim_bounds(&cs);
            let l = lower_string(&cs, b, e);
            let bytes = String::from_str("bytes");
            let none = String::from_str("none");
            if l == bytes {
                Some(bytes)
            } else if l == none {
                Some(none)
            } else {
                None
            }
        },
        None => None,
    }
}

pub open spec fn accept_ranges_none_message() -> Seq<char> {
    "upstream Accept-Ranges is 'none' (byte ranges not supported)"@
}

/// Reject only explicit `Accept-Ranges: none`.  RFC 7233 allows `bytes` or
/// `none`; many IPTV/CDN stacks send non-standard values while still
/// returning valid `206` + `Content-Range`.
pub fn reject_accept_ranges_none(resp: &UpstreamResponse) -> (r: Result<(), String>)
    ensures
        match r {
            Ok(()) => spec_normalized_accept_ranges(resp.accept_ranges) != Some("none"@),
            Err(e) => spec_normalized_accept_ranges(resp.accept_ranges) == Some("none"@) && e@
                == accept_ranges_none_message(),
        },
{
    let n = normalized_accept_ranges(&resp.accept_ranges);
    match n {
        Some(v) => {
            let none = String::from_str("none");
            if v == none {
                Err(String::from_str("upstream Accept-Ranges is 'none' (byte ranges not supported)"))
            } else {
                Ok(())
            }
        },
        None => Ok(()),
    }
}

/// A header value that is present and not blank.
pub open spec fn non_blank(o: Option<String>) -> bool {
    match o {
        Some(s) => trim(s@).len() > 0,
        None => false,
    }
}

fn is_non_blank(o: &Option<String>) -> (b: bool)
    ensures
        b == non_blank(*o),
{
    match o {
        Some(s) => {
            let cs = chars_of(s.as_str());
            let (b, e) = trim_bounds(&cs);
            b < e
        },
        None => false,
    }
}

fn copy_opt(o: &Option<String>) -> (r: Option<String>)
    ensures
        r == *o,
{
    match o {
        Some(s) => Some(s.clone()),
        None => None,
    }
}

pub open spec fn is_success(status: u16) -> bool {
    200 <= status <= 299
}

/// A parsed `Content-Length` that is positive.
pub open spec fn positive_length(v: Option<String>) -> Option<u64> {
    match v {
        Some(s) => match parse_u64(s@) {
            Some(n) => if n > 0 {
                Some(n)
            } else {
                None
            },
            None => None,
        },
        None => None,
    }
}

/// Metadata accepted from a probe: the given length, the content type, ranges
/// in bytes, and the last-modified header.
pub open spec fn accepted_meta(resp: UpstreamResponse, len: u64) -> HeadMeta {
    HeadMeta {
        content_length: Some(len),
        content_type: opt_str_view(resp.content_type),
        accept_ranges: Some("bytes"@),
        last_modified: opt_str_view(resp.last_modified),
    }
}

/// `parse_strict_head_ok`: a successful status, a non-blank content type,
/// ranges not refused, and a positive `Content-Length`.
pub open spec fn spec_parse_strict_head_ok(resp: UpstreamResponse) -> Result<HeadMeta, Seq<char>> {
    if !is_success(resp.status) {
        Err("HEAD status "@ + resp.status_text@)
    } else if !non_blank(resp.content_type) {
        Err("missing Content-Type on upstream HEAD response"@)
    } else if spec_normalized_accept_ranges(resp.accept_ranges) == Some("none"@) {
        Err(accept_ranges_none_message())
    } else {
        match positive_length(resp.content_length) {
            Some(n) => Ok(accepted_meta(resp, n)),
            None => Err("missing or zero Content-Length on upstream HEAD response"@),
        }
    }
}

pub open spec fn result_view(r: Result<HeadHeaders, String>) -> Result<HeadMeta, Seq<char>> {
    match r {
        Ok(h) => Ok(h@),
        Err(e) => Err(e@),
    }
}

fn accepted(resp: &UpstreamResponse, len: u64) -> (h: HeadHeaders)
    ensures
        h@ == accepted_meta(*resp, len),
{
    HeadHeaders {
        content_length: Some(len),
        content_type: copy_opt(&resp.content_type),
        accept_ranges: Some(String::from_str("bytes")),
        last_modified: copy_opt(&resp.last_modified),
    }
}

/// The metadata of an upstream `HEAD` answer, checked strictly.
pub fn parse_strict_head_ok(resp: &UpstreamResponse) -> (r: Result<HeadHeaders, String>)
    ensures
        result_view(r) == spec_parse_strict_head_ok(*resp),
{
    if !(200 <= resp.status && resp.status <= 299) {
        let mut m = String::from_str("HEAD status ");
        m.append(resp.status_text.as_str());
        return Err(m);
    }
    if !is_non_blank(&resp.content_type) {
        return Err(String::from_str("missing Content-Type on upstream HEAD response"));
    }
    match reject_accept_ranges_none(resp) {
        Err(e) => return Err(e),
        Ok(()) => {},
    }
    let cl = match &resp.content_length {
        Some(s) => {
            let cs = chars_of(s.as_str());
            assert(cs@.subrange(0, cs@.len() as int) =~= cs@);
            parse_u64_chars(&cs, 0, cs.len())
        },
        None => None,
    };
    match cl {
        Some(n) => {
            if n > 0 {
                Ok(accepted(resp, n))
            } else {
                Err(String::from_str("missing or zero Content-Length on upstream HEAD response"))
            }
        },
        None => Err(String::from_str("missing or zero Content-Length on upstream HEAD response")),
    }
}

/// `parse_strict_ranged_get_probe`: status 206, a non-blank content type,
/// ranges not refused, and a `Content-Range` with a positive total.
pub open spec fn spec_parse_strict_ranged_get_probe(resp: UpstreamResponse) -> Result<
    HeadMeta,
    Seq<char>,
> {
    if resp.status != 206 {
        Err(
            "ranged GET probe expected 206 Partial Content, got "@ + resp.status_text@
                + " (upstream must support byte ranges with Content-Range)"@,
        )
    } else if !non_blank(resp.content_type) {
        Err("missing Content-Type on ranged GET probe"@)
    } else if spec_normalized_accept_ranges(resp.accept_ranges) == Some("none"@) {
        Err(accept_ranges_none_message())
    } else {
        match resp.content_range {
            None => Err("missing Content-Range on 206 ranged GET probe"@),
            Some(cr) => match spec_total_from_content_range(cr@) {
                None => Err(
                    "invalid Content-Range on ranged GET probe (could not parse total size)"@,
                ),
                Some(total) => if total == 0 {
                    Err("invalid Content-Range total (zero) on ranged GET probe"@)
                } else {
                    Ok(accepted_meta(resp, total))
                },
            },
        }
    }
}

/// The metadata of a ranged `GET` probe answer, checked strictly.
pub fn parse_strict_ranged_get_probe(resp: &UpstreamResponse) -> (r: Result<HeadHeaders, String>)
    ensures
        result_view(r) == spec_parse_strict_ranged_get_probe(*resp),
{
    if resp.status != 206 {
        let mut m = String::from_str("ranged GET probe expected 206 Partial Content, got ");
        m.append(resp.status_text.as_str());
        m.append(" (upstream must support byte ranges with Content-Range)");
        return Err(m);
    }
    if !is_non_blank(&resp.content_type) {
        return Err(String::from_str("missing Content-Type on ranged GET probe"));
    }
    match reject_accept_ranges_none(resp) {
        Err(e) => return Err(e),
        Ok(()) => {},
    }
    let cr = match &resp.content_range {
        Some(cr) => cr,
        None => return Err(String::from_str("missing Content-Range on 206 ranged GET probe")),
    };
    let total = match total_from_content_range(cr.as_str()) {
        Some(t) => t,
        None => return Err(
            String::from_str(
                "invalid Content-Range on ranged GET probe (could not parse total size)",
            ),
        ),
    };
    if total == 0 {
        return Err(String::from_str("invalid Content-Range total (zero) on ranged GET probe"));
    }
    Ok(accepted(resp, total))
}

pub open spec fn probe_hint() -> Seq<char> {
    " If rclone listing/stat fails with this error, you may try rclone's --http-no-head (client-side only; it does not fix a broken upstream)."@
}

/// The message of a failed probe, with a hint for rclone users.
pub fn probe_failure_message(detail: String) -> (r: String)
    ensures
        r@ == detail@ + probe_hint(),
{
    let mut m = detail;
    m.append(
        " If rclone listing/stat fails with this error, you may try rclone's --http-no-head (client-side only; it does not fix a broken upstream).",
    );
    m
}

/// `resolve_stream_head_metadata` after its requests: the metadata of an
/// upstream `HEAD` when one was made and passed the strict check, else the
/// ranged `GET` probe checked strictly, its error carrying the hint.
pub open spec fn spec_choose_probe_result(
    head: Option<UpstreamResponse>,
    get: Option<UpstreamResponse>,
) -> Option<Result<HeadMeta, Seq<char>>> {
    let from_head = match head {
        Some(h) => match spec_parse_strict_head_ok(h) {
            Ok(m) => if is_success(h.status) {
                Some(m)
            } else {
                None
            },
            Err(_) => None,
        },
        None => None,
    };
    match from_head {
        Some(m) => Some(Ok(m)),
        None => match get {
            Some(g) => match spec_parse_strict_ranged_get_probe(g) {
                Ok(m) => Some(Ok(m)),
                Err(e) => Some(Err(e + probe_hint())),
            },
            None => None,
        },
    }
}

/// Metadata from an upstream `HEAD` response when it passes the strict
/// check; the ranged `GET` probe is made only when this is `None`.
pub fn metadata_from_head(head: &UpstreamResponse) -> (r: Option<HeadHeaders>)
    ensures
        match r {
            Some(h) => spec_choose_probe_result(Some(*head), None) == Some(
                Ok::<HeadMeta, Seq<char>>(h@),
            ),
            None => spec_choose_probe_result(Some(*head), None) is None,
        },
{
    if !(200 <= head.status && head.status <= 299) {
        return None;
    }
    match parse_strict_head_ok(head) {
        Ok(m) => Some(m),
        Err(_) => None,
    }
}

/// The ranged `GET` probe's verdict, its error carrying the hint.
pub fn metadata_from_ranged_get(get: &UpstreamResponse) -> (r: Result<HeadHeaders, String>)
    ensures
        Some(result_view(r)) == spec_choose_probe_result(None, Some(*get)),
{
    match parse_strict_ranged_get_probe(get) {
        Ok(m) => Ok(m),
        Err(e) => Err(probe_failure_message(e)),
    }
}

/// Headers of the `200` answer to a client `HEAD`, in order: the content
/// type and length when known, the accepted ranges (`bytes` when unknown),
/// and the last-modified date when known.  A value that is not a valid
/// header value is left out when the answer is built.
pub open spec fn spec_head_response_headers(m: HeadMeta) -> Seq<(Seq<char>, Seq<char>)> {
    let ct = match m.content_type {
        Some(v) => seq![("content-type"@, v)],
        None => Seq::empty(),
    };
    let cl = match m.content_length {
        Some(n) => seq![("content-length"@, crate::text::dec_nat(n as nat))],
        None => Seq::empty(),
    };
    let ar = match m.accept_ranges {
        Some(v) => seq![("accept-ranges"@, v)],
        None => seq![("accept-ranges"@, "bytes"@)],
    };
    let lm = match m.last_modified {
        Some(v) => seq![("last-modified"@, v)],
        None => Seq::empty(),
    };
    ct + cl + ar + lm
}

fn push_header(out: &mut Vec<(String, String)>, name: &str, value: String)
    ensures
        pairs_view(final(out)@) =~= pairs_view(old(out)@).push((name@, value@)),
{
    out.push((String::from_str(name), value));
}

/// Headers for a `HEAD` answer built from cached or probed metadata.
pub fn head_response_headers(meta: &HeadHeaders) -> (r: Vec<(String, String)>)
    ensures
        pairs_view(r@) =~= spec_head_response_headers(meta@),
{
    let mut out: Vec<(String, String)> = Vec::new();
    if let Some(ct) = &meta.content_type {
        push_header(&mut out, "content-type", ct.clone());
    }
    if let Some(len) = meta.content_length {
        let mut v = String::new();
        crate::text::push_u64(&mut v, len);
        push_header(&mut out, "content-length", v);
    }
    match &meta.accept_ranges {
        Some(ar) => push_header(&mut out, "accept-ranges", ar.clone()),
        None => push_header(&mut out, "accept-ranges", String::from_str("bytes")),
    }
    if let Some(lm) = &meta.last_modified {
        push_header(&mut out, "last-modified", lm.clone());
    }
    out
}

/// `Accept-Ranges` sent with a streamed upstream answer: the upstream value
/// when it is `bytes` or `none`, else `bytes`.
pub fn merged_accept_ranges(raw: &Option<String>) -> (r: String)
    ensures
        r@ == match spec_normalized_accept_ranges(*raw) {
            Some(v) => v,
            None => "bytes"@,
        },
{
    match normalized_accept_ranges(raw) {
        Some(v) => v,
        None => String::from_str("bytes"),
    }
}

/// The error of a ranged `GET` probe that could not be sent.
pub fn probe_send_failure(error: &str) -> (r: String)
    ensures
        r@ == "upstream ranged GET probe failed: "@ + error@ + probe_hint(),
{
    let mut detail = String::from_str("upstream ranged GET probe failed: ");
    detail.append(error);
    probe_failure_message(detail)
}

/// How a client `HEAD` for a video is answered.
pub enum HeadPlan {
    /// Redirect the client to the provider, which answers the `HEAD` itself.
    Redirect,
    /// Answer from metadata known for the URL.
    Respond(HeadHeaders),
    /// Probe the provider, remember the metadata, and answer from it.
    Probe,
}

/// The redirect when the configuration asks for it, else the cached
/// metadata when there is some, else a probe.
pub fn head_plan(probe_use_upstream_head: bool, cached: Option<HeadHeaders>) -> (p: HeadPlan)
    ensures
        probe_use_upstream_head ==> p is Redirect,
        !probe_use_upstream_head ==> match cached {
            Some(h) => p == HeadPlan::Respond(h),
            None => p is Probe,
        },
{
    if probe_use_upstream_head {
        return HeadPlan::Redirect;
    }
    match cached {
        Some(h) => HeadPlan::Respond(h),
        None => HeadPlan::Probe,
    }
}

/// Metadata that can answer a `HEAD`: a positive length, a non-blank
/// content type, and byte ranges.
pub open spec fn usable_meta(m: HeadMeta) -> bool {
    &&& m.content_length matches Some(n) && n > 0
    &&& m.accept_ranges == Some("bytes"@)
    &&& m.content_type matches Some(t) && trim(t).len() > 0
}

/// Metadata that passes a strict check is usable for a `HEAD` answer.
pub proof fn law_checked_metadata_is_usable(resp: UpstreamResponse)
    ensures
        spec_parse_strict_head_ok(resp) matches Ok(m) ==> usable_meta(m),
        spec_parse_strict_ranged_get_probe(resp) matches Ok(m) ==> usable_meta(m),
{
}

/// A ranged `GET` probe that is accepted gives the stream's full length: the
/// total after the last `/` of its `Content-Range`, never the length of the
/// probe's own (partial) body.
pub proof fn law_probe_length_is_content_range_total(resp: UpstreamResponse)
    ensures
        spec_parse_strict_ranged_get_probe(resp) matches Ok(m) ==> (resp.content_range matches Some(
            cr,
        ) && m.content_length == spec_total_from_content_range(cr@)),
{
}

/// The `Content-Length` of a ranged `GET` probe answer plays no part: two
/// answers that differ only there are judged alike.
pub proof fn law_probe_ignores_content_length(a: UpstreamResponse, b: UpstreamResponse)
    requires
        a.status == b.status,
        a.status_text == b.status_text,
        a.content_type == b.content_type,
        a.accept_ranges == b.accept_ranges,
        a.content_range == b.content_range,
        a.last_modified == b.last_modified,
    ensures
        spec_parse_strict_ranged_get_probe(a) == spec_parse_strict_ranged_get_probe(b),
{
}

/// An upstream that answers `Accept-Ranges: none` (trimmed, any ASCII case)
/// is never taken as serving byte ranges: neither a `HEAD` answer nor a
/// ranged `GET` probe carrying it is accepted.
pub proof fn law_ranges_refused_are_never_accepted(resp: UpstreamResponse)
    requires
        resp.accept_ranges matches Some(a) && lower_seq(trim(a@)) == "none"@,
    ensures
        spec_parse_strict_head_ok(resp) is Err,
        spec_parse_strict_ranged_get_probe(resp) is Err,
{
    reveal_strlit("none");
    reveal_strlit("bytes");
}

/// The total of a `Content-Range` is the number after its last `/`: for
/// `bytes 0-0/6783696380`, whatever comes before the `/`, it is 6783696380.
pub proof fn law_content_range_total_is_after_last_slash(range: Seq<char>, n: u64)
    requires
        range.len() > 0,
        !is_ws(range[0]),
    ensures
        spec_total_from_content_range(range + seq!['/'] + dec_nat(n as nat)) == Some(n),
{
    reveal_strlit("*");
    let d = dec_nat(n as nat);
    let x = range + seq!['/'] + d;
    lemma_dec_nat_digits(n as nat);
    lemma_digits_value_dec_nat(n as nat);
    assert(is_ascii_digit(d[0]));
    assert(x.last() == d.last());
    assert(is_ascii_digit(d[d.len() - 1]));
    assert(x[0] == range[0]);
    assert(trim(x) == x);
    lemma_rfind_char_props(x, '/');
    let p = range.len() as int;
    assert(x[p] == '/');
    assert forall|j: int| p < j < x.len() implies x[j] != '/' by {
        assert(x[j] == d[j - p - 1]);
        assert(is_ascii_digit(d[j - p - 1]));
    }
    match rfind_char(x, '/') {
        Some(k) => {
            assert(k == p);
        },
        None => {
            assert(crate::text::contains_char(x, '/'));
        },
    }
    assert(x.skip(p + 1) =~= d);
    assert(trim(d) == d);
    assert(d != "*"@) by {
        assert(d[0] != '*');
    }
}

} // verus!
