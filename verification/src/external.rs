//! Calls into outside crates and into parts of std that vstd does not
//! specify. Each item states what the library relies on; nothing here is
//! proved.
use vstd::prelude::*;
use rand::Rng;
use sha2::Digest;
use base64::Engine;
use headers::authorization::Credentials;
use crate::text::hex_digit;

verus! {

/// What `regex::Regex::new(pattern)` followed by `captures(text)` and
/// `get(group)` yields: the text of capture group `group` of the first match
/// of `pattern` in `text`, or `None` where the pattern does not compile, does
/// not match, or the group took no part in the match.
pub uninterp spec fn regex_group(pattern: Seq<char>, text: Seq<char>, group: nat) -> Option<
    Seq<char>,
>;

/// Runs `regex::Regex::new` and `Regex::captures`; the result is the text of
/// the requested group, named `regex_group`. The regex crate is deterministic,
/// so the same pattern, text and group always give the same result.
#[verifier::external_body]
pub(crate) fn regex_capture(pattern: &str, text: &str, group: usize) -> (r: Option<String>)
    ensures
        r is Some <==> regex_group(pattern@, text@, group as nat) is Some,
        r matches Some(g) ==> regex_group(pattern@, text@, group as nat) == Some(g@),
{
    let re = match regex::Regex::new(pattern) {
        Ok(re) => re,
        Err(_) => return None,
    };
    let caps = re.captures(text)?;
    let m = caps.get(group)?;
    Some(m.as_str().to_owned())
}

/// The milliseconds since the Unix epoch now (`chrono::Utc::now()` and
/// `timestamp_millis`). Nothing is promised of the value: it is the clock.
#[verifier::external_body]
pub(crate) fn now_millis() -> (r: i64) {
    chrono::Utc::now().timestamp_millis()
}


/// A number drawn at random below `n` (`rand::rng().random_range(0..n)`);
/// the crate asserts that the range is not empty, hence `n > 0`.
#[verifier::external_body]
pub(crate) fn random_below(n: u16) -> (r: u16)
    requires
        n > 0,
    ensures
        r < n,
{
    rand::rng().random_range(0..n)
}


/// The SHA-256 digest of `data`, as `sha2::Sha256` computes it.
pub uninterp spec fn sha256_digest(data: Seq<u8>) -> Seq<u8>;

/// Hashes `data` with `sha2::Sha256::new().chain_update(data).finalize()`.
/// The result is named `sha256_digest`; a SHA-256 digest has 32 bytes.
#[verifier::external_body]
pub(crate) fn sha256(data: &[u8]) -> (r: Vec<u8>)
    ensures
        r@ == sha256_digest(data@),
        r@.len() == 32,
{
    sha2::Sha256::new().chain_update(data).finalize().to_vec()
}

/// Whether two ranges with included end points overlap, as
/// `range_overlap::incl_classify` decides it: equal ranges, `a` containing
/// `b`, `a` ending in `b` or starting in `b` overlap; ranges where one starts
/// at or after the other's end do not; anything else (`a` inside `b`) does.
pub open spec fn incl_overlap(a_start: int, a_end: int, b_start: int, b_end: int) -> bool {
    if a_start == b_start && a_end == b_end {
        true
    } else if a_start <= b_start && a_end >= b_end {
        true
    } else if a_start < b_start && a_end >= b_start && a_end <= b_end {
        true
    } else if a_start > b_start && a_start <= b_end && a_end > b_end {
        true
    } else if a_start >= b_end || b_start >= a_end {
        false
    } else {
        true
    }
}

/// Calls `range_overlap::has_incl_overlap`, which classifies the two ranges
/// with `incl_classify` and reports any class but `None` as an overlap.
#[verifier::external_body]
pub(crate) fn has_incl_overlap(a_start: i64, a_end: i64, b_start: i64, b_end: i64) -> (r: bool)
    ensures
        r == incl_overlap(a_start as int, a_end as int, b_start as int, b_end as int),
{
    range_overlap::has_incl_overlap(a_start, a_end, b_start, b_end)
}

/// What `base64::engine::general_purpose::STANDARD_NO_PAD.decode(data)`
/// gives: the decoded bytes, or `None` where `data` is not valid unpadded
/// standard base64.
pub uninterp spec fn base64_no_pad_decoded(data: Seq<u8>) -> Option<Seq<u8>>;

/// Decodes `data` with the standard alphabet and no padding; the result is
/// named `base64_no_pad_decoded`.
#[verifier::external_body]
pub(crate) fn base64_no_pad_decode(data: &[u8]) -> (r: Option<Vec<u8>>)
    ensures
        r is Some <==> base64_no_pad_decoded(data@) is Some,
        r matches Some(v) ==> base64_no_pad_decoded(data@) == Some(v@),
{
    base64::engine::general_purpose::STANDARD_NO_PAD.decode(data).ok()
}

/// Whether `chrono::DateTime::from_timestamp(secs, 1000)` finds an instant:
/// it does for the seconds of chrono's date range, from the first second
/// of the year -262143 to the last of the year 262142 (proleptic Gregorian,
/// `MIN_YEAR` and `MAX_YEAR` of chrono's `NaiveDate`).
pub open spec fn timestamp_in_range(secs: int) -> bool {
    -8334601228800 <= secs && secs <= 8210266876799
}

/// Whether chrono can represent the instant `secs` seconds and 1000
/// nanoseconds after the epoch (`chrono::DateTime::from_timestamp(secs,
/// 1000)` is `Some`): exactly for the seconds `timestamp_in_range` admits.
#[verifier::external_body]
pub(crate) fn timestamp_representable(secs: i64) -> (r: bool)
    ensures
        r == timestamp_in_range(secs as int),
{
    chrono::DateTime::from_timestamp(secs, 1000).is_some()
}

/// The digit of the standard base64 alphabet for a value below 64:
/// `A`-`Z`, `a`-`z`, `0`-`9`, `+`, `/`.
pub open spec fn base64_digit(v: int) -> char {
    if v < 26 {
        (65 + v) as char
    } else if v < 52 {
        (97 + v - 26) as char
    } else if v < 62 {
        (48 + v - 52) as char
    } else if v == 62 {
        '+'
    } else {
        '/'
    }
}

/// Bytes in standard base64: each group of three bytes as four digits; a
/// last group of one or two bytes as two or three digits, padded with `=`.
pub open spec fn base64_padded(b: Seq<u8>) -> Seq<char>
    decreases b.len(),
{
    if b.len() == 0 {
        Seq::<char>::empty()
    } else if b.len() == 1 {
        seq![base64_digit(b[0] as int / 4), base64_digit((b[0] as int % 4) * 16), '=', '=']
    } else if b.len() == 2 {
        seq![
            base64_digit(b[0] as int / 4),
            base64_digit((b[0] as int % 4) * 16 + b[1] as int / 16),
            base64_digit((b[1] as int % 16) * 4),
            '=',
        ]
    } else {
        seq![
            base64_digit(b[0] as int / 4),
            base64_digit((b[0] as int % 4) * 16 + b[1] as int / 16),
            base64_digit((b[1] as int % 16) * 4 + b[2] as int / 64),
            base64_digit(b[2] as int % 64),
        ] + base64_padded(b.skip(3))
    }
}

/// The standard (padded) base64 text of the UTF-8 bytes of `text`, as the
/// `STANDARD` engine of the base64 crate writes it.
pub open spec fn base64_standard(text: Seq<char>) -> Seq<char> {
    base64_padded(vstd::utf8::encode_utf8(text))
}

/// The value of a basic `Authorization` header for `user` and `password`,
/// as `headers::Authorization::basic(user, password).0.encode()` writes it:
/// `Basic `, then the standard base64 of `user:password` (see
/// `base64_standard`). The header value is visible ASCII, so it reads back
/// as text.
#[verifier::external_body]
pub(crate) fn basic_authorization(user: &str, password: &str) -> (r: String)
    ensures
        r@ == "Basic "@ + base64_standard(user@ + ":"@ + password@),
        forall|i: int| 0 <= i < r@.len() ==> 32 <= (#[trigger] r@[i]) as u32 && (r@[i] as u32) < 127,
{
    let value = headers::Authorization::basic(user, password).0.encode();
    value.to_str().unwrap_or_default().to_owned()
}

/// What `str::to_lowercase` gives for `text`: its lowercase equivalent as
/// Unicode defines it.
pub uninterp spec fn lowercase_of(text: Seq<char>) -> Seq<char>;

/// Lower-cases `text` with `str::to_lowercase`; the result is named
/// `lowercase_of`. Lower-casing maps the empty text to itself.
#[verifier::external_body]
pub(crate) fn to_lowercase(text: &str) -> (r: String)
    ensures
        r@ == lowercase_of(text@),
        text@.len() == 0 ==> r@.len() == 0,
{
    text.to_lowercase()
}

/// A byte that `urlencoding::encode` keeps as it is: an ASCII digit or
/// letter, or one of `-`, `.`, `_`, `~`.
pub open spec fn url_safe_byte(b: u8) -> bool {
    (48 <= b && b <= 57) || (65 <= b && b <= 90) || (97 <= b && b <= 122) || b == 45 || b == 46
        || b == 95 || b == 126
}

/// The bytes `bytes` percent-encoded: each safe byte as its character,
/// every other byte as `%` and its two upper-case hexadecimal digits.
pub open spec fn percent_encoded(bytes: Seq<u8>) -> Seq<char>
    decreases bytes.len(),
{
    if bytes.len() == 0 {
        Seq::<char>::empty()
    } else {
        let b = bytes.last();
        percent_encoded(bytes.drop_last()) + if url_safe_byte(b) {
            seq![b as char]
        } else {
            seq!['%', hex_digit(b as int / 16), hex_digit(b as int % 16)]
        }
    }
}

/// What `urlencoding::encode` gives for `text`: its UTF-8 bytes
/// percent-encoded.
pub open spec fn url_encoded(text: Seq<char>) -> Seq<char> {
    percent_encoded(vstd::utf8::encode_utf8(text))
}

/// Percent-encodes `text` with `urlencoding::encode`: every byte of its
/// UTF-8 form other than ASCII letters, digits and `-_.~` is written as `%`
/// and two upper-case hexadecimal digits (see `url_encoded`).
#[verifier::external_body]
pub(crate) fn url_encode(text: &str) -> (r: String)
    ensures
        r@ == url_encoded(text@),
{
    urlencoding::encode(text).into_owned()
}

} // verus!