//! Character-sequence helpers shared by the naming, header and URL logic.
//!
//! Strings are modelled by their `Seq<char>` view.  The spec functions below say
//! what the std string operations that the library relies on (`trim`,
//! `split_whitespace`, `parse`, integer formatting, `find`) compute, and the
//! executable functions are proved against them.
use vstd::prelude::*;

verus! {

// ------------------------------------------------------------------
// Whitespace and trimming
// ------------------------------------------------------------------

/// Unicode `White_Space`, the set that `str::trim` and `split_whitespace` remove.
pub open spec fn is_ws(c: char) -> bool {
    ||| c == '\t' || c == '\n' || c == '\u{0B}' || c == '\u{0C}' || c == '\r' || c == ' '
    ||| c == '\u{85}' || c == '\u{A0}' || c == '\u{1680}'
    ||| ('\u{2000}' <= c && c <= '\u{200A}')
    ||| c == '\u{2028}' || c == '\u{2029}' || c == '\u{202F}' || c == '\u{205F}'
    ||| c == '\u{3000}'
}

pub fn is_ws_char(c: char) -> (b: bool)
    ensures
        b == is_ws(c),
{
    c == '\t' || c == '\n' || c == '\u{0B}' || c == '\u{0C}' || c == '\r' || c == ' '
        || c == '\u{85}' || c == '\u{A0}' || c == '\u{1680}' || ('\u{2000}' <= c && c
        <= '\u{200A}') || c == '\u{2028}' || c == '\u{2029}' || c == '\u{202F}' || c
        == '\u{205F}' || c == '\u{3000}'
}

/// `str::trim_end`.
pub open spec fn trim_end(s: Seq<char>) -> Seq<char>
    decreases s.len(),
{
    if s.len() > 0 && is_ws(s.last()) {
        trim_end(s.drop_last())
    } else {
        s
    }
}

/// `str::trim_start`.
pub open spec fn trim_start(s: Seq<char>) -> Seq<char>
    decreases s.len(),
{
    if s.len() > 0 && is_ws(s[0]) {
        trim_start(s.drop_first())
    } else {
        s
    }
}

/// `str::trim`.
pub open spec fn trim(s: Seq<char>) -> Seq<char> {
    trim_start(trim_end(s))
}

/// `trim_end` removes a suffix: it is the prefix up to some index.
pub proof fn lemma_trim_end_is_prefix(s: Seq<char>)
    ensures
        trim_end(s).len() <= s.len(),
        trim_end(s) =~= s.take(trim_end(s).len() as int),
        trim_end(s).len() > 0 ==> !is_ws(trim_end(s).last()),
    decreases s.len(),
{
    if s.len() > 0 && is_ws(s.last()) {
        lemma_trim_end_is_prefix(s.drop_last());
    }
}

/// `trim_start` removes a prefix: it is the suffix from some index.
pub proof fn lemma_trim_start_is_suffix(s: Seq<char>)
    ensures
        trim_start(s).len() <= s.len(),
        trim_start(s) =~= s.skip(s.len() - trim_start(s).len()),
        trim_start(s).len() > 0 ==> !is_ws(trim_start(s)[0]),
    decreases s.len(),
{
    if s.len() > 0 && is_ws(s[0]) {
        lemma_trim_start_is_suffix(s.drop_first());
        assert(s.drop_first().skip(s.drop_first().len() - trim_start(s).len()) =~= s.skip(
            s.len() - trim_start(s).len(),
        ));
    }
}

/// Index one past the last non-whitespace character.
pub fn trim_end_index(s: &[char]) -> (e: usize)
    ensures
        e <= s@.len(),
        trim_end(s@) =~= s@.take(e as int),
{
    let mut e = s.len();
    assert(s@.take(e as int) =~= s@);
    while e > 0 && is_ws_char(s[e - 1])
        invariant
            e <= s@.len(),
            trim_end(s@) =~= trim_end(s@.take(e as int)),
        decreases e,
    {
        assert(s@.take(e as int).drop_last() =~= s@.take(e - 1));
        e = e - 1;
    }
    e
}

/// End of `trim_end(cs[lo..hi])`, as an index into `cs`.
pub fn trim_end_index_in(cs: &[char], lo: usize, hi: usize) -> (e: usize)
    requires
        lo <= hi <= cs@.len(),
    ensures
        lo <= e <= hi,
        trim_end(cs@.subrange(lo as int, hi as int)) =~= cs@.subrange(lo as int, e as int),
{
    let mut e = hi;
    assert(cs@.subrange(lo as int, e as int) =~= cs@.subrange(lo as int, hi as int));
    while e > lo && is_ws_char(cs[e - 1])
        invariant
            lo <= e <= hi <= cs@.len(),
            trim_end(cs@.subrange(lo as int, hi as int)) =~= trim_end(
                cs@.subrange(lo as int, e as int),
            ),
        decreases e,
    {
        assert(cs@.subrange(lo as int, e as int).drop_last() =~= cs@.subrange(lo as int, e - 1));
        e = e - 1;
    }
    e
}

/// Bounds of `trim(cs[lo..hi])` inside `cs`.
pub fn trim_bounds_in(cs: &[char], lo: usize, hi: usize) -> (r: (usize, usize))
    requires
        lo <= hi <= cs@.len(),
    ensures
        lo <= r.0 <= r.1 <= hi,
        trim(cs@.subrange(lo as int, hi as int)) =~= cs@.subrange(r.0 as int, r.1 as int),
{
    let e = trim_end_index_in(cs, lo, hi);
    let mut b = lo;
    while b < e && is_ws_char(cs[b])
        invariant
            lo <= b <= e <= hi <= cs@.len(),
            trim(cs@.subrange(lo as int, hi as int)) =~= trim_start(
                cs@.subrange(b as int, e as int),
            ),
        decreases e - b,
    {
        assert(cs@.subrange(b as int, e as int).drop_first() =~= cs@.subrange(b + 1, e as int));
        b = b + 1;
    }
    (b, e)
}

/// Bounds `(b, e)` of `trim(s)` inside `s`.
pub fn trim_bounds(s: &[char]) -> (r: (usize, usize))
    ensures
        r.0 <= r.1 <= s@.len(),
        trim(s@) =~= s@.subrange(r.0 as int, r.1 as int),
{
    let e = trim_end_index(s);
    let mut b: usize = 0;
    assert(s@.take(e as int).skip(0) =~= s@.take(e as int));
    while b < e && is_ws_char(s[b])
        invariant
            b <= e <= s@.len(),
            trim_end(s@) =~= s@.take(e as int),
            trim(s@) =~= trim_start(s@.subrange(b as int, e as int)),
        decreases e - b,
    {
        assert(s@.subrange(b as int, e as int).drop_first() =~= s@.subrange(b + 1, e as int));
        b = b + 1;
    }
    (b, e)
}

/// Width of a character in UTF-8.
pub open spec fn utf8_width(c: char) -> nat {
    if (c as u32) < 0x80 {
        1
    } else if (c as u32) < 0x800 {
        2
    } else if (c as u32) < 0x10000 {
        3
    } else {
        4
    }
}

/// Length in bytes of the UTF-8 form of `s`.
pub open spec fn utf8_len(s: Seq<char>) -> nat
    decreases s.len(),
{
    if s.len() == 0 {
        0
    } else {
        utf8_len(s.drop_last()) + utf8_width(s.last())
    }
}

pub proof fn lemma_utf8_len_prefix_mono(t: Seq<char>, i: int, j: int)
    requires
        0 <= i <= j <= t.len(),
    ensures
        utf8_len(t.take(i)) <= utf8_len(t.take(j)),
    decreases j - i,
{
    if i < j {
        lemma_utf8_len_prefix_mono(t, i, j - 1);
        assert(t.take(j).drop_last() =~= t.take(j - 1));
    }
}

// ------------------------------------------------------------------
// Conversions between `&str`, `String` and `Vec<char>`
// ------------------------------------------------------------------

/// Calls `String::push`, which appends `c` to the end of `s`.
#[verifier::external_body]
pub(crate) fn push_char(s: &mut String, c: char)
    ensures
        final(s)@ == old(s)@.push(c),
{
    s.push(c);
}

/// The characters of `s`, in order.
pub fn chars_of(s: &str) -> (v: Vec<char>)
    ensures
        v@ == s@,
{
    let n = s.unicode_len();
    let mut v: Vec<char> = Vec::new();
    let mut i: usize = 0;
    while i < n
        invariant
            n == s@.len(),
            i <= n,
            v@ =~= s@.take(i as int),
        decreases n - i,
    {
        v.push(s.get_char(i));
        i = i + 1;
    }
    assert(s@.take(n as int) =~= s@);
    v
}

/// Appends `cs[from..to]` to `out`.
pub fn push_chars(out: &mut String, cs: &[char], from: usize, to: usize)
    requires
        from <= to <= cs@.len(),
    ensures
        final(out)@ == old(out)@ + cs@.subrange(from as int, to as int),
{
    let mut i = from;
    while i < to
        invariant
            from <= i <= to <= cs@.len(),
            out@ =~= old(out)@ + cs@.subrange(from as int, i as int),
        decreases to - i,
    {
        push_char(out, cs[i]);
        i = i + 1;
    }
}

/// A `String` holding `cs[from..to]`.
pub fn string_of(cs: &[char], from: usize, to: usize) -> (s: String)
    requires
        from <= to <= cs@.len(),
    ensures
        s@ == cs@.subrange(from as int, to as int),
{
    let mut s = String::new();
    push_chars(&mut s, cs, from, to);
    s
}

// ------------------------------------------------------------------
// ASCII helpers
// ------------------------------------------------------------------

pub open spec fn is_ascii_digit(c: char) -> bool {
    '0' <= c && c <= '9'
}

/// `char::to_ascii_lowercase`.
pub open spec fn ascii_lower(c: char) -> char {
    if 'A' <= c && c <= 'Z' {
        ((c as u32) + 32) as char
    } else {
        c
    }
}

/// `str::to_ascii_lowercase`.
pub open spec fn lower_seq(s: Seq<char>) -> Seq<char> {
    s.map_values(|c: char| ascii_lower(c))
}

pub fn ascii_lower_char(c: char) -> (r: char)
    ensures
        r == ascii_lower(c),
{
    if 'A' <= c && c <= 'Z' {
        let b: u8 = (c as u32 + 32) as u8;
        b as char
    } else {
        c
    }
}

pub fn is_ascii_digit_char(c: char) -> (b: bool)
    ensures
        b == is_ascii_digit(c),
{
    '0' <= c && c <= '9'
}

/// `to_ascii_lowercase` of `cs[from..to]`.
pub fn lower_string(cs: &[char], from: usize, to: usize) -> (s: String)
    requires
        from <= to <= cs@.len(),
    ensures
        s@ == lower_seq(cs@.subrange(from as int, to as int)),
{
    let mut s = String::new();
    let mut i = from;
    while i < to
        invariant
            from <= i <= to <= cs@.len(),
            s@ =~= lower_seq(cs@.subrange(from as int, i as int)),
        decreases to - i,
    {
        let c = ascii_lower_char(cs[i]);
        push_char(&mut s, c);
        i = i + 1;
    }
    s
}

// ------------------------------------------------------------------
// Decimal formatting (`Display` for integers)
// ------------------------------------------------------------------

pub open spec fn digit_char(d: int) -> char {
    if d == 0 {
        '0'
    } else if d == 1 {
        '1'
    } else if d == 2 {
        '2'
    } else if d == 3 {
        '3'
    } else if d == 4 {
        '4'
    } else if d == 5 {
        '5'
    } else if d == 6 {
        '6'
    } else if d == 7 {
        '7'
    } else if d == 8 {
        '8'
    } else {
        '9'
    }
}

/// Decimal digits of `n`, most significant first, no leading zeros.
pub open spec fn dec_nat(n: nat) -> Seq<char>
    decreases n,
{
    if n < 10 {
        seq![digit_char(n as int)]
    } else {
        dec_nat(n / 10).push(digit_char((n % 10) as int))
    }
}

/// `Display` of a signed integer.
pub open spec fn dec_int(i: int) -> Seq<char> {
    if i < 0 {
        seq!['-'] + dec_nat((-i) as nat)
    } else {
        dec_nat(i as nat)
    }
}

fn digit_of(d: u64) -> (c: char)
    requires
        d < 10,
    ensures
        c == digit_char(d as int),
{
    if d == 0 {
        '0'
    } else if d == 1 {
        '1'
    } else if d == 2 {
        '2'
    } else if d == 3 {
        '3'
    } else if d == 4 {
        '4'
    } else if d == 5 {
        '5'
    } else if d == 6 {
        '6'
    } else if d == 7 {
        '7'
    } else if d == 8 {
        '8'
    } else {
        '9'
    }
}

/// Appends the decimal form of `n`.
pub fn push_u64(out: &mut String, n: u64)
    ensures
        final(out)@ == old(out)@ + dec_nat(n as nat),
    decreases n,
{
    if n >= 10 {
        push_u64(out, n / 10);
    }
    let c = digit_of(n % 10);
    push_char(out, c);
    assert(out@ =~= old(out)@ + dec_nat(n as nat));
}

/// Appends the decimal form of `i`.
pub fn push_i64(out: &mut String, i: i64)
    ensures
        final(out)@ == old(out)@ + dec_int(i as int),
{
    if i < 0 {
        push_char(out, '-');
        let m: u64 = if i == i64::MIN {
            9223372036854775808u64
        } else {
            (-i) as u64
        };
        push_u64(out, m);
        assert(out@ =~= old(out)@ + dec_int(i as int));
    } else {
        push_u64(out, i as u64);
    }
}

pub proof fn lemma_dec_nat_digits(n: nat)
    ensures
        dec_nat(n).len() >= 1,
        forall|k: int| 0 <= k < dec_nat(n).len() ==> is_ascii_digit(#[trigger] dec_nat(n)[k]),
    decreases n,
{
    if n >= 10 {
        lemma_dec_nat_digits(n / 10);
    }
}

// ------------------------------------------------------------------
// Decimal parsing (`FromStr` for integers)
// ------------------------------------------------------------------

pub open spec fn digit_val(c: char) -> int {
    c as int - '0' as int
}

pub open spec fn all_digits(s: Seq<char>) -> bool {
    forall|k: int| 0 <= k < s.len() ==> is_ascii_digit(#[trigger] s[k])
}

/// Value of a run of decimal digits.
pub open spec fn digits_value(s: Seq<char>) -> nat
    decreases s.len(),
{
    if s.len() == 0 {
        0
    } else {
        (digits_value(s.drop_last()) * 10 + digit_val(s.last())) as nat
    }
}

/// `FromStr` for integers, before the range check: an optional sign (`-` only
/// when `signed`), then one or more ASCII digits.
pub open spec fn parse_int(s: Seq<char>, signed: bool) -> Option<int> {
    if s.len() > 0 && s[0] == '-' && signed {
        let b = s.drop_first();
        if b.len() > 0 && all_digits(b) {
            Some(-(digits_value(b) as int))
        } else {
            None
        }
    } else {
        let b = if s.len() > 0 && s[0] == '+' {
            s.drop_first()
        } else {
            s
        };
        if b.len() > 0 && all_digits(b) {
            Some(digits_value(b) as int)
        } else {
            None
        }
    }
}

/// `str::parse::<T>` for an integer type with range `lo..=hi`.
pub open spec fn parse_in_range(s: Seq<char>, signed: bool, lo: int, hi: int) -> Option<int> {
    match parse_int(s, signed) {
        Some(v) => if lo <= v <= hi {
            Some(v)
        } else {
            None
        },
        None => None,
    }
}

pub open spec fn parse_u64(s: Seq<char>) -> Option<u64> {
    match parse_in_range(s, false, 0, u64::MAX as int) {
        Some(v) => Some(v as u64),
        None => None,
    }
}

pub open spec fn parse_u32(s: Seq<char>) -> Option<u32> {
    match parse_in_range(s, false, 0, u32::MAX as int) {
        Some(v) => Some(v as u32),
        None => None,
    }
}

pub open spec fn parse_usize(s: Seq<char>) -> Option<usize> {
    match parse_in_range(s, false, 0, usize::MAX as int) {
        Some(v) => Some(v as usize),
        None => None,
    }
}

pub open spec fn parse_i64(s: Seq<char>) -> Option<i64> {
    match parse_in_range(s, true, i64::MIN as int, i64::MAX as int) {
        Some(v) => Some(v as i64),
        None => None,
    }
}

pub open spec fn parse_i32(s: Seq<char>) -> Option<i32> {
    match parse_in_range(s, true, i32::MIN as int, i32::MAX as int) {
        Some(v) => Some(v as i32),
        None => None,
    }
}

proof fn lemma_digits_value_prefix_mono(s: Seq<char>, i: int, j: int)
    requires
        0 <= i <= j <= s.len(),
        all_digits(s),
    ensures
        digits_value(s.take(i)) <= digits_value(s.take(j)),
    decreases j - i,
{
    if i < j {
        lemma_digits_value_prefix_mono(s, i, j - 1);
        assert(s.take(j).drop_last() =~= s.take(j - 1));
        assert(is_ascii_digit(s[j - 1]));
    }
}

/// Value of the digits `cs[from..to]` when they are all digits and the value is
/// at most `limit`.
pub fn digits_up_to(cs: &[char], from: usize, to: usize, limit: u64) -> (r: Option<u64>)
    requires
        from <= to <= cs@.len(),
    ensures
        ({
            let d = cs@.subrange(from as int, to as int);
            r == if all_digits(d) && digits_value(d) <= limit {
                Some(digits_value(d) as u64)
            } else {
                None
            }
        }),
{
    let ghost d = cs@.subrange(from as int, to as int);
    let mut k = from;
    while k < to
        invariant
            from <= k <= to <= cs@.len(),
            d == cs@.subrange(from as int, to as int),
            forall|m: int| from <= m < k ==> is_ascii_digit(#[trigger] cs@[m]),
        decreases to - k,
    {
        if !is_ascii_digit_char(cs[k]) {
            assert(!is_ascii_digit(d[k - from]));
            return None;
        }
        k = k + 1;
    }
    assert forall|m: int| 0 <= m < d.len() implies is_ascii_digit(#[trigger] d[m]) by {
        assert(d[m] == cs@[from + m]);
    }
    let mut acc: u64 = 0;
    let mut i = from;
    assert(d.take(0) =~= Seq::<char>::empty());
    while i < to
        invariant
            from <= i <= to <= cs@.len(),
            d == cs@.subrange(from as int, to as int),
            all_digits(d),
            acc as nat == digits_value(d.take(i - from)),
            acc <= limit,
        decreases to - i,
    {
        let c = cs[i];
        assert(d.take(i - from + 1).drop_last() =~= d.take(i - from));
        assert(d[i - from] == c);
        let dv: u64 = (c as u32 - '0' as u32) as u64;
        let next: u128 = acc as u128 * 10 + dv as u128;
        if next > limit as u128 {
            proof {
                lemma_digits_value_prefix_mono(d, i - from + 1, d.len() as int);
                assert(d.take(d.len() as int) =~= d);
            }
            return None;
        }
        acc = next as u64;
        i = i + 1;
    }
    assert(d.take(to - from) =~= d);
    Some(acc)
}

/// `cs[from..to].parse::<u64>()`.
pub fn parse_u64_chars(cs: &[char], from: usize, to: usize) -> (r: Option<u64>)
    requires
        from <= to <= cs@.len(),
    ensures
        r == parse_u64(cs@.subrange(from as int, to as int)),
{
    let ghost s = cs@.subrange(from as int, to as int);
    let mut b = from;
    if b < to && cs[b] == '+' {
        b = b + 1;
        assert(s.drop_first() =~= cs@.subrange(b as int, to as int));
    } else {
        assert(s =~= cs@.subrange(b as int, to as int));
    }
    if b == to {
        return None;
    }
    digits_up_to(cs, b, to, u64::MAX)
}

/// `cs[from..to].parse::<u32>()`.
pub fn parse_u32_chars(cs: &[char], from: usize, to: usize) -> (r: Option<u32>)
    requires
        from <= to <= cs@.len(),
    ensures
        r == parse_u32(cs@.subrange(from as int, to as int)),
{
    let ghost s = cs@.subrange(from as int, to as int);
    let mut b = from;
    if b < to && cs[b] == '+' {
        b = b + 1;
        assert(s.drop_first() =~= cs@.subrange(b as int, to as int));
    } else {
        assert(s =~= cs@.subrange(b as int, to as int));
    }
    if b == to {
        return None;
    }
    match digits_up_to(cs, b, to, u32::MAX as u64) {
        Some(v) => Some(v as u32),
        None => None,
    }
}

/// `cs[from..to].parse::<usize>()`.
pub fn parse_usize_chars(cs: &[char], from: usize, to: usize) -> (r: Option<usize>)
    requires
        from <= to <= cs@.len(),
    ensures
        r == parse_usize(cs@.subrange(from as int, to as int)),
{
    match parse_u64_chars(cs, from, to) {
        Some(v) => {
            if v <= usize::MAX as u64 {
                Some(v as usize)
            } else {
                None
            }
        },
        None => None,
    }
}

/// Signed parse with magnitude bounds `neg_limit` (for `-`) and `pos_limit`.
fn parse_signed_chars(cs: &[char], from: usize, to: usize, neg_limit: u64, pos_limit: u64) -> (r:
    Option<(bool, u64)>)
    requires
        from <= to <= cs@.len(),
    ensures
        ({
            let s = cs@.subrange(from as int, to as int);
            match r {
                Some((neg, m)) => parse_int(s, true) == Some(if neg {
                    -(m as int)
                } else {
                    m as int
                }) && (if neg {
                    m <= neg_limit
                } else {
                    m <= pos_limit
                }),
                None => match parse_int(s, true) {
                    Some(v) => v < -(neg_limit as int) || v > pos_limit,
                    None => true,
                },
            }
        }),
{
    let ghost s = cs@.subrange(from as int, to as int);
    if from < to && cs[from] == '-' {
        assert(s.drop_first() =~= cs@.subrange(from + 1, to as int));
        if from + 1 == to {
            return None;
        }
        match digits_up_to(cs, from + 1, to, neg_limit) {
            Some(m) => Some((true, m)),
            None => None,
        }
    } else {
        let mut b = from;
        if b < to && cs[b] == '+' {
            b = b + 1;
            assert(s.drop_first() =~= cs@.subrange(b as int, to as int));
        } else {
            assert(s =~= cs@.subrange(b as int, to as int));
        }
        if b == to {
            return None;
        }
        match digits_up_to(cs, b, to, pos_limit) {
            Some(m) => Some((false, m)),
            None => None,
        }
    }
}

/// `cs[from..to].parse::<i64>()`.
pub fn parse_i64_chars(cs: &[char], from: usize, to: usize) -> (r: Option<i64>)
    requires
        from <= to <= cs@.len(),
    ensures
        r == parse_i64(cs@.subrange(from as int, to as int)),
{
    match parse_signed_chars(cs, from, to, 9223372036854775808u64, 9223372036854775807u64) {
        Some((neg, m)) => {
            if neg {
                if m == 9223372036854775808u64 {
                    Some(i64::MIN)
                } else {
                    Some(-(m as i64))
                }
            } else {
                Some(m as i64)
            }
        },
        None => None,
    }
}

/// `cs[from..to].parse::<i32>()`.
pub fn parse_i32_chars(cs: &[char], from: usize, to: usize) -> (r: Option<i32>)
    requires
        from <= to <= cs@.len(),
    ensures
        r == parse_i32(cs@.subrange(from as int, to as int)),
{
    match parse_signed_chars(cs, from, to, 2147483648u64, 2147483647u64) {
        Some((neg, m)) => {
            if neg {
                if m == 2147483648u64 {
                    Some(i32::MIN)
                } else {
                    Some(-(m as i32))
                }
            } else {
                Some(m as i32)
            }
        },
        None => None,
    }
}

// ------------------------------------------------------------------
// Searching
// ------------------------------------------------------------------

/// `str::starts_with`.
pub open spec fn starts_with(s: Seq<char>, p: Seq<char>) -> bool {
    s.len() >= p.len() && s.take(p.len() as int) == p
}

/// `str::ends_with`.
pub open spec fn ends_with(s: Seq<char>, p: Seq<char>) -> bool {
    s.len() >= p.len() && s.skip(s.len() - p.len()) == p
}

/// First index `k >= i` at which `pat` occurs in `s`.
pub open spec fn find_from(s: Seq<char>, pat: Seq<char>, i: nat) -> Option<nat>
    decreases s.len() + 1 - i,
{
    if i + pat.len() > s.len() {
        None
    } else if s.subrange(i as int, (i + pat.len()) as int) == pat {
        Some(i)
    } else {
        find_from(s, pat, i + 1)
    }
}

/// `str::find` with a string pattern (as a character index).
pub open spec fn find(s: Seq<char>, pat: Seq<char>) -> Option<nat> {
    find_from(s, pat, 0)
}

/// Last index of `c` in `s` (`str::rfind` with a `char`).
pub open spec fn rfind_char(s: Seq<char>, c: char) -> Option<nat>
    decreases s.len(),
{
    if s.len() == 0 {
        None
    } else if s.last() == c {
        Some((s.len() - 1) as nat)
    } else {
        rfind_char(s.drop_last(), c)
    }
}

pub open spec fn contains_char(s: Seq<char>, c: char) -> bool {
    exists|k: int| 0 <= k < s.len() && s[k] == c
}

pub proof fn lemma_find_from_props(s: Seq<char>, pat: Seq<char>, i: nat)
    ensures
        match find_from(s, pat, i) {
            Some(k) => i <= k && k + pat.len() <= s.len() && s.subrange(k as int, (k + pat.len()) as int)
                == pat && forall|j: nat|
                i <= j < k ==> #[trigger] s.subrange(j as int, (j + pat.len()) as int) != pat,
            None => forall|j: nat|
                i <= j && j + pat.len() <= s.len() ==> #[trigger] s.subrange(
                    j as int,
                    (j + pat.len()) as int,
                ) != pat,
        },
    decreases s.len() + 1 - i,
{
    if i + pat.len() > s.len() {
    } else if s.subrange(i as int, (i + pat.len()) as int) == pat {
    } else {
        lemma_find_from_props(s, pat, i + 1);
    }
}

pub proof fn lemma_rfind_char_props(s: Seq<char>, c: char)
    ensures
        match rfind_char(s, c) {
            Some(k) => k < s.len() && s[k as int] == c && forall|j: int| k < j < s.len() ==> s[j]
                != c,
            None => !contains_char(s, c),
        },
    decreases s.len(),
{
    if s.len() > 0 && s.last() != c {
        let t = s.drop_last();
        lemma_rfind_char_props(t, c);
        match rfind_char(t, c) {
            Some(k) => {
                assert forall|j: int| k < j < s.len() implies s[j] != c by {
                    if j < s.len() - 1 {
                        assert(s[j] == t[j]);
                    }
                }
            },
            None => {
                assert forall|k: int| 0 <= k < s.len() implies s[k] != c by {
                    if k < s.len() - 1 {
                        assert(s[k] == t[k]);
                    }
                }
            },
        }
    }
}

/// Whether `pat` occurs in `cs` at `pos`.
pub fn occurs_at(cs: &[char], pos: usize, pat: &[char]) -> (b: bool)
    requires
        pos + pat@.len() <= cs@.len(),
    ensures
        b == (cs@.subrange(pos as int, pos + pat@.len()) == pat@),
{
    let n = cs.len();
    let mut k: usize = 0;
    while k < pat.len()
        invariant
            n == cs@.len(),
            pos + pat@.len() <= cs@.len(),
            k <= pat@.len(),
            forall|m: int| 0 <= m < k ==> cs@[pos + m] == pat@[m],
        decreases pat@.len() - k,
    {
        if cs[pos + k] != pat[k] {
            assert(cs@.subrange(pos as int, pos + pat@.len())[k as int] != pat@[k as int]);
            return false;
        }
        k = k + 1;
    }
    assert(cs@.subrange(pos as int, pos + pat@.len()) =~= pat@);
    true
}

/// `cs[lo..hi].find(pat)`, as an index relative to `lo`.
pub fn find_in(cs: &[char], lo: usize, hi: usize, pat: &[char]) -> (r: Option<usize>)
    requires
        lo <= hi <= cs@.len(),
    ensures
        r matches Some(k) ==> k + pat@.len() <= hi - lo,
        match r {
            Some(k) => find(cs@.subrange(lo as int, hi as int), pat@) == Some(k as nat),
            None => find(cs@.subrange(lo as int, hi as int), pat@) is None,
        },
{
    let ghost s = cs@.subrange(lo as int, hi as int);
    if pat.len() > hi - lo {
        return None;
    }
    if pat.len() == 0 {
        assert(s.subrange(0, 0) =~= pat@);
        return Some(0);
    }
    let last = hi - lo - pat.len();
    let mut i: usize = 0;
    while i <= last
        invariant
            lo <= hi <= cs@.len(),
            last + pat@.len() == hi - lo,
            pat@.len() >= 1,
            s == cs@.subrange(lo as int, hi as int),
            find(s, pat@) == find_from(s, pat@, i as nat),
        decreases last + 1 - i,
    {
        assert(s.subrange(i as int, i + pat@.len()) =~= cs@.subrange(
            lo + i,
            lo + i + pat@.len(),
        ));
        if occurs_at(cs, lo + i, pat) {
            return Some(i);
        }
        i = i + 1;
    }
    None
}

/// `cs[lo..hi].rfind(c)`, as an index relative to `lo`.
pub fn rfind_char_in(cs: &[char], lo: usize, hi: usize, c: char) -> (r: Option<usize>)
    requires
        lo <= hi <= cs@.len(),
    ensures
        r matches Some(k) ==> k < hi - lo,
        match r {
            Some(k) => rfind_char(cs@.subrange(lo as int, hi as int), c) == Some(k as nat),
            None => rfind_char(cs@.subrange(lo as int, hi as int), c) is None,
        },
{
    let mut j = hi;
    while j > lo
        invariant
            lo <= j <= hi <= cs@.len(),
            rfind_char(cs@.subrange(lo as int, hi as int), c) == rfind_char(
                cs@.subrange(lo as int, j as int),
                c,
            ),
        decreases j - lo,
    {
        assert(cs@.subrange(lo as int, j as int).drop_last() =~= cs@.subrange(
            lo as int,
            j - 1,
        ));
        if cs[j - 1] == c {
            return Some(j - 1 - lo);
        }
        j = j - 1;
    }
    None
}

/// Whether `c` occurs in `cs[lo..hi]`.
pub fn contains_char_in(cs: &[char], lo: usize, hi: usize, c: char) -> (b: bool)
    requires
        lo <= hi <= cs@.len(),
    ensures
        b == contains_char(cs@.subrange(lo as int, hi as int), c),
{
    let mut k = lo;
    while k < hi
        invariant
            lo <= k <= hi <= cs@.len(),
            forall|m: int| lo <= m < k ==> cs@[m] != c,
        decreases hi - k,
    {
        if cs[k] == c {
            assert(cs@.subrange(lo as int, hi as int)[k - lo] == c);
            return true;
        }
        k = k + 1;
    }
    assert forall|m: int| 0 <= m < hi - lo implies cs@.subrange(lo as int, hi as int)[m] != c by {
        assert(cs@.subrange(lo as int, hi as int)[m] == cs@[lo + m]);
    }
    false
}

// ------------------------------------------------------------------
// Order of strings
// ------------------------------------------------------------------

/// `a < b` in the order of `str`.  That order compares the UTF-8 bytes, which
/// is the order of the code points.
pub open spec fn seq_lt(a: Seq<char>, b: Seq<char>) -> bool
    decreases a.len(),
{
    if b.len() == 0 {
        false
    } else if a.len() == 0 {
        true
    } else if a[0] != b[0] {
        (a[0] as u32) < (b[0] as u32)
    } else {
        seq_lt(a.drop_first(), b.drop_first())
    }
}

/// Whether `a < b` in the order of `str`.
pub fn chars_lt(a: &[char], b: &[char]) -> (r: bool)
    ensures
        r == seq_lt(a@, b@),
{
    let mut i: usize = 0;
    assert(a@.skip(0) =~= a@);
    assert(b@.skip(0) =~= b@);
    while i < a.len() && i < b.len()
        invariant
            i <= a@.len(),
            i <= b@.len(),
            seq_lt(a@, b@) == seq_lt(a@.skip(i as int), b@.skip(i as int)),
        decreases a@.len() - i,
    {
        assert(a@.skip(i as int)[0] == a@[i as int]);
        assert(b@.skip(i as int)[0] == b@[i as int]);
        if a[i] != b[i] {
            return (a[i] as u32) < (b[i] as u32);
        }
        assert(a@.skip(i as int).drop_first() =~= a@.skip(i + 1));
        assert(b@.skip(i as int).drop_first() =~= b@.skip(i + 1));
        i = i + 1;
    }
    i < b.len()
}

// ------------------------------------------------------------------
// Decimal text read back
// ------------------------------------------------------------------

pub proof fn lemma_digit_char(d: int)
    requires
        0 <= d < 10,
    ensures
        is_ascii_digit(digit_char(d)),
        digit_val(digit_char(d)) == d,
{
}

/// The digits of `n` read back give `n`.
pub proof fn lemma_digits_value_dec_nat(n: nat)
    ensures
        all_digits(dec_nat(n)),
        dec_nat(n).len() >= 1,
        digits_value(dec_nat(n)) == n,
    decreases n,
{
    lemma_dec_nat_digits(n);
    if n >= 10 {
        lemma_digits_value_dec_nat(n / 10);
        lemma_digit_char((n % 10) as int);
        let s = dec_nat(n);
        assert(s.drop_last() =~= dec_nat(n / 10));
        assert(s.last() == digit_char((n % 10) as int));
        assert(digits_value(s) == digits_value(dec_nat(n / 10)) * 10 + digit_val(digit_char((n % 10) as int)));
        assert((n / 10) * 10 + n % 10 == n) by (nonlinear_arith);
    } else {
        lemma_digit_char(n as int);
        assert(seq![digit_char(n as int)].drop_last() =~= Seq::<char>::empty());
        assert(digits_value(Seq::<char>::empty()) == 0);
        assert(dec_nat(n) == seq![digit_char(n as int)]);
        assert(digits_value(dec_nat(n)) == digits_value(Seq::<char>::empty()) * 10 + digit_val(
            digit_char(n as int),
        ));
    }
}

/// `Display` then `FromStr` of an integer in `lo..=hi` gives it back.
pub proof fn lemma_parse_dec_int(x: int, lo: int, hi: int)
    requires
        lo <= x <= hi,
    ensures
        parse_in_range(dec_int(x), true, lo, hi) == Some(x),
{
    if x < 0 {
        let d = dec_nat((-x) as nat);
        lemma_digits_value_dec_nat((-x) as nat);
        assert((seq!['-'] + d).drop_first() =~= d);
    } else {
        lemma_digits_value_dec_nat(x as nat);
        lemma_dec_nat_digits(x as nat);
        assert(is_ascii_digit(dec_nat(x as nat)[0]));
    }
}

pub proof fn lemma_parse_i64_dec_int(x: i64)
    ensures
        parse_i64(dec_int(x as int)) == Some(x),
{
    lemma_parse_dec_int(x as int, i64::MIN as int, i64::MAX as int);
}

pub proof fn lemma_parse_i32_dec_int(x: i32)
    ensures
        parse_i32(dec_int(x as int)) == Some(x),
{
    lemma_parse_dec_int(x as int, i32::MIN as int, i32::MAX as int);
}

} // verus!
