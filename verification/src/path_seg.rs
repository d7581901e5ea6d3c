//! Percent-encoding of one URL path segment.

use vstd::prelude::*;
use vstd::utf8::encode_utf8;

verus! {

pub open spec fn hex_upper(d: int) -> char {
    if d < 10 {
        crate::text::digit_char(d)
    } else if d == 10 {
        'A'
    } else if d == 11 {
        'B'
    } else if d == 12 {
        'C'
    } else if d == 13 {
        'D'
    } else if d == 14 {
        'E'
    } else {
        'F'
    }
}

/// `%XX` with upper-case hex digits.
pub open spec fn percent_byte(b: u8) -> Seq<char> {
    seq!['%', hex_upper(b as int / 16), hex_upper(b as int % 16)]
}

pub open spec fn is_alnum_byte(b: u8) -> bool {
    (0x30 <= b <= 0x39) || (0x41 <= b <= 0x5a) || (0x61 <= b <= 0x7a)
}

/// Every byte that is not an ASCII letter or digit as `%XX`.
pub open spec fn percent_encode_non_alnum(bytes: Seq<u8>) -> Seq<char>
    decreases bytes.len(),
{
    if bytes.len() == 0 {
        Seq::empty()
    } else {
        percent_encode_non_alnum(bytes.drop_last()) + if is_alnum_byte(bytes.last()) {
            seq![bytes.last() as char]
        } else {
            percent_byte(bytes.last())
        }
    }
}

/// `encode_path_segment`: the UTF-8 bytes of `s`, ASCII letters and digits
/// kept, every other byte as `%XX`.
pub open spec fn spec_encode_path_segment(s: Seq<char>) -> Seq<char> {
    percent_encode_non_alnum(encode_utf8(s))
}

/// Calls `percent_encoding::utf8_percent_encode` with the set
/// `NON_ALPHANUMERIC` and collects the result: each byte of the UTF-8 form of
/// `s` that is an ASCII letter or digit is kept, every other byte is written
/// `%XX` with upper-case hex digits.
#[verifier::external_body]
fn utf8_percent_encode_non_alnum(s: &str) -> (r: String)
    ensures
        r@ == spec_encode_path_segment(s@),
{
    percent_encoding::utf8_percent_encode(s, percent_encoding::NON_ALPHANUMERIC).to_string()
}

/// Percent-encodes one path segment of a link.
pub fn encode_path_segment(s: &str) -> (r: String)
    ensures
        r@ == spec_encode_path_segment(s@),
{
    utf8_percent_encode_non_alnum(s)
}

/// An encoded segment holds only ASCII letters, digits, `%` and upper-case
/// hex digits: no `/`, so it stays one segment of a path.
pub proof fn law_encoded_segment_has_no_slash(s: Seq<char>)
    ensures
        forall|k: int|
            0 <= k < spec_encode_path_segment(s).len() ==> #[trigger] spec_encode_path_segment(
                s,
            )[k] != '/',
{
    lemma_percent_encode_no_slash(encode_utf8(s));
}

proof fn lemma_percent_encode_no_slash(bytes: Seq<u8>)
    ensures
        forall|k: int|
            0 <= k < percent_encode_non_alnum(bytes).len() ==> #[trigger] percent_encode_non_alnum(
                bytes,
            )[k] != '/',
    decreases bytes.len(),
{
    if bytes.len() > 0 {
        let pre = percent_encode_non_alnum(bytes.drop_last());
        lemma_percent_encode_no_slash(bytes.drop_last());
        let b = bytes.last();
        let piece = if is_alnum_byte(b) {
            seq![b as char]
        } else {
            percent_byte(b)
        };
        let all = percent_encode_non_alnum(bytes);
        assert(all == pre + piece);
        assert forall|k: int| 0 <= k < all.len() implies #[trigger] all[k] != '/' by {
            if k < pre.len() {
                assert(all[k] == pre[k]);
            } else {
                assert(all[k] == piece[k - pre.len()]);
                if is_alnum_byte(b) {
                    assert((b as char) != '/');
                } else {
                    assert(piece[1] == hex_upper(b as int / 16));
                    assert(piece[2] == hex_upper(b as int % 16));
                }
            }
        }
    }
}

} // verus!
