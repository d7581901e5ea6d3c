//! Expand tiny `Range: bytes=0-…` requests before sending them upstream.
//!
//! FUSE/rclone/Jellyfin/ffprobe often issue small ranges at the start of a
//! file (e.g. `bytes=0-0` or a few KB).  Many CDNs respond with 206 and a
//! 1-byte body for `bytes=0-0`, which is not enough for MKV EBML / MP4 `ftyp`
//! detection.  The upstream range is widened to at least [`MIN_PROBE_BYTES`]
//! so the first chunk is enough for container probing.

use vstd::prelude::*;

use crate::text::{
    chars_of, contains_char, contains_char_in, dec_nat, find, find_in, lower_seq,
    parse_u64, parse_u64_chars, push_u64, starts_with, trim, trim_bounds, trim_bounds_in,
    ascii_lower_char,
};

verus! {

/// Minimum bytes to request from the start of the file when the client asks for a tiny range.
pub const MIN_PROBE_BYTES: u64 = 262144;

/// `parse_first_range`: `bytes=` (any ASCII case) after trimming, no `,`,
/// then `start-end` or `start-` with decimal `u64` bounds (the part after
/// `bytes=` trimmed).
pub open spec fn spec_parse_first_range(s0: Seq<char>) -> Option<(u64, Option<u64>)> {
    let s = trim(s0);
    if !starts_with(lower_seq(s), "bytes="@) {
        None
    } else {
        let rest = s.skip("bytes="@.len() as int);
        if contains_char(rest, ',') {
            None
        } else {
            let r = trim(rest);
            match find(r, "-"@) {
                None => None,
                Some(d) => match parse_u64(r.take(d as int)) {
                    None => None,
                    Some(start) => {
                        let end_s = r.skip((d + 1) as int);
                        if end_s.len() == 0 {
                            Some((start, None))
                        } else {
                            match parse_u64(end_s) {
                                Some(e) => Some((start, Some(e))),
                                None => None,
                            }
                        }
                    },
                },
            }
        }
    }
}

/// The first range of a `Range: bytes=` header: its start and optional end.
pub fn parse_first_range(s: &str) -> (r: Option<(u64, Option<u64>)>)
    ensures
        r == spec_parse_first_range(s@),
{
    let cs = chars_of(s);
    let prefix = chars_of("bytes=");
    let dash = chars_of("-");
    proof {
        reveal_strlit("-");
        reveal_strlit("bytes=");
    }
    let (b, e) = trim_bounds(&cs);
    let ghost t = cs@.subrange(b as int, e as int);
    assert(trim(s@) == t);
    let k = prefix.len();
    if e - b < k {
        return None;
    }
    let mut m: usize = 0;
    while m < k
        invariant
            b + k <= e <= cs@.len(),
            k == prefix@.len(),
            prefix@ == "bytes="@,
            t == cs@.subrange(b as int, e as int),
            trim(s@) == t,
            m <= k,
            forall|q: int| 0 <= q < m ==> lower_seq(t)[q] == prefix@[q],
        decreases k - m,
    {
        if ascii_lower_char(cs[b + m]) != prefix[m] {
            assert(lower_seq(t).take(k as int)[m as int] != prefix@[m as int]);
            return None;
        }
        m = m + 1;
    }
    assert(lower_seq(t).take(k as int) =~= prefix@);
    let rs = b + k;
    assert(t.skip(k as int) =~= cs@.subrange(rs as int, e as int));
    if contains_char_in(&cs, rs, e, ',') {
        return None;
    }
    let (tb, te) = trim_bounds_in(&cs, rs, e);
    let ghost r = cs@.subrange(tb as int, te as int);
    match find_in(&cs, tb, te, &dash) {
        None => None,
        Some(d) => {
            assert(r.take(d as int) =~= cs@.subrange(tb as int, tb + d));
            match parse_u64_chars(&cs, tb, tb + d) {
                None => None,
                Some(start) => {
                    assert(r.skip(d + 1) =~= cs@.subrange(tb + d + 1, te as int));
                    if tb + d + 1 == te {
                        Some((start, None))
                    } else {
                        match parse_u64_chars(&cs, tb + d + 1, te) {
                            Some(end) => Some((start, Some(end))),
                            None => None,
                        }
                    }
                },
            }
        },
    }
}

/// `expand_upstream_range_for_probe`: for `bytes=0-end` asking fewer than
/// [`MIN_PROBE_BYTES`] bytes, `bytes=0-last` where `last` is
/// `MIN_PROBE_BYTES - 1`, capped at the last byte of a known non-zero length,
/// provided it still covers `end`.
pub open spec fn spec_expand_range(range: Seq<char>, known_content_length: Option<u64>) -> Option<
    Seq<char>,
> {
    match spec_parse_first_range(range) {
        Some((start, Some(end))) => {
            if start != 0 || end + 1 >= MIN_PROBE_BYTES {
                None
            } else {
                let last: int = match known_content_length {
                    Some(total) => if total > 0 && total - 1 < MIN_PROBE_BYTES - 1 {
                        total - 1
                    } else {
                        MIN_PROBE_BYTES - 1
                    },
                    None => MIN_PROBE_BYTES - 1,
                };
                if last < end {
                    None
                } else {
                    Some("bytes=0-"@ + dec_nat(last as nat))
                }
            }
        },
        _ => None,
    }
}

/// If the client `Range` is a small read from offset 0, return a wider `Range` header value for
/// the upstream request. Otherwise return `None` (the caller forwards the client's range).
pub fn expand_upstream_range_for_probe(range_header: &str, known_content_length: Option<u64>) -> (r:
    Option<String>)
    ensures
        match r {
            Some(v) => spec_expand_range(range_header@, known_content_length) == Some(v@),
            None => spec_expand_range(range_header@, known_content_length) is None,
        },
{
    let (start, end_opt) = match parse_first_range(range_header) {
        Some(p) => p,
        None => return None,
    };
    if start != 0 {
        return None;
    }
    let end = match end_opt {
        Some(e) => e,
        None => return None,
    };
    let requested_len = end.saturating_sub(start).saturating_add(1);
    if requested_len >= MIN_PROBE_BYTES {
        return None;
    }
    let mut last_byte = start + MIN_PROBE_BYTES - 1;
    if let Some(total) = known_content_length {
        if total > 0 {
            if total - 1 < last_byte {
                last_byte = total - 1;
            }
        }
    }
    if last_byte < end {
        return None;
    }
    let mut out = String::from_str("bytes=0-");
    push_u64(&mut out, last_byte);
    Some(out)
}

/// `upstream_range_header_value`: the expanded range when there is one, else
/// the client's range; `None` without a client range.
pub open spec fn spec_upstream_range_header_value(
    client_range: Option<Seq<char>>,
    known_content_length: Option<u64>,
) -> Option<Seq<char>> {
    match client_range {
        Some(r) => match spec_expand_range(r, known_content_length) {
            Some(x) => Some(x),
            None => Some(r),
        },
        None => None,
    }
}

/// Value to send upstream for a GET: expanded range when applicable, else the client's.
pub fn upstream_range_header_value(client_range: Option<&str>, known_content_length: Option<u64>) -> (r:
    Option<String>)
    ensures
        match r {
            Some(v) => spec_upstream_range_header_value(
                match client_range {
                    Some(c) => Some(c@),
                    None => None,
                },
                known_content_length,
            ) == Some(v@),
            None => client_range is None,
        },
{
    let c = match client_range {
        Some(c) => c,
        None => return None,
    };
    match expand_upstream_range_for_probe(c, known_content_length) {
        Some(x) => Some(x),
        None => Some(String::from_str(c)),
    }
}

/// A widened range still covers the request: it starts at 0 and ends at or
/// after the requested end, asks for at most [`MIN_PROBE_BYTES`], and stays
/// within a known non-empty length.
pub proof fn law_expansion_covers_request(range: Seq<char>, known_content_length: Option<u64>)
    ensures
        spec_expand_range(range, known_content_length) matches Some(x) ==> (spec_parse_first_range(
            range,
        ) matches Some((start, Some(end))) && start == 0 && exists|last: nat|
            x == "bytes=0-"@ + dec_nat(last) && end <= last < MIN_PROBE_BYTES && match known_content_length {
                Some(t) => t > 0 ==> last < t,
                None => true,
            }),
{
    match spec_parse_first_range(range) {
        Some((start, Some(end))) => {
            if start == 0 && end + 1 < MIN_PROBE_BYTES {
                let last: int = match known_content_length {
                    Some(total) => if total > 0 && total - 1 < MIN_PROBE_BYTES - 1 {
                        total - 1
                    } else {
                        MIN_PROBE_BYTES - 1
                    },
                    None => MIN_PROBE_BYTES - 1,
                };
                if last >= end {
                    assert(spec_expand_range(range, known_content_length)->0 == "bytes=0-"@
                        + dec_nat(last as nat));
                }
            }
        },
        _ => {},
    }
}

} // verus!
