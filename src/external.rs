//! Calls into std and outside crates whose results the library relies on.

use crate::episode::{entry_views, EntryFields};
use chrono::TimeZone;
use std::fmt::Write;
use vstd::prelude::*;

verus! {

/// Seconds since the epoch of an RFC 2822 date, as chrono parses it.
pub uninterp spec fn rfc2822_seconds(s: Seq<char>) -> Option<i64>;

/// Seconds since the epoch of an RFC 3339 date, as chrono parses it.
pub uninterp spec fn rfc3339_seconds(s: Seq<char>) -> Option<i64>;

/// Seconds since the epoch of midnight UTC on the date that `s` gives in
/// the chrono pattern `fmt`.
pub uninterp spec fn date_midnight_seconds(s: Seq<char>, fmt: Seq<char>) -> Option<i64>;

/// The UTC time `ts` written by chrono in the strftime pattern `fmt`.
pub uninterp spec fn utc_strftime(ts: i64, fmt: Seq<char>) -> Option<Seq<char>>;

/// The file extensions that mime_guess knows for a content type.
pub uninterp spec fn mime_extensions(content_type: Seq<char>) -> Option<Seq<Seq<char>>>;

/// The fields (title, enclosure URL, guid text, publication date) of each
/// item of an RSS document, in document order, as the rss crate reads them.
pub uninterp spec fn rss_entries(xml: Seq<char>) -> Option<
    Seq<(Option<Seq<char>>, Option<Seq<char>>, Option<Seq<char>>, Option<Seq<char>>)>,
>;

/// The display width of one character, as unicode-width measures it.
pub uninterp spec fn char_display_width(c: char) -> usize;

/// The path `name` joined onto `base`, as std's `Path::join` forms it.
pub uninterp spec fn joined_path(base: Seq<char>, name: Seq<char>) -> Seq<char>;

/// The texts of a sequence of strings.
pub open spec fn string_views(v: Seq<String>) -> Seq<Seq<char>> {
    v.map_values(|e: String| e@)
}

/// Decimal digits of a natural number, most significant first, no leading zeros.
pub open spec fn decimal_digits(n: nat) -> Seq<char>
    decreases n,
{
    if n < 10 {
        seq![digit_char(n)]
    } else {
        decimal_digits(n / 10).push(digit_char(n % 10))
    }
}

pub open spec fn digit_char(d: nat) -> char {
    if d == 0 { '0' } else if d == 1 { '1' } else if d == 2 { '2' } else if d == 3 { '3' }
    else if d == 4 { '4' } else if d == 5 { '5' } else if d == 6 { '6' } else if d == 7 { '7' }
    else if d == 8 { '8' } else { '9' }
}

pub open spec fn is_digit(c: char) -> bool {
    '0' <= c && c <= '9'
}

/// The number that a run of decimal digits spells.
pub open spec fn digits_value(s: Seq<char>) -> int
    decreases s.len(),
{
    if s.len() == 0 {
        0
    } else {
        digits_value(s.drop_last()) * 10 + (s.last() as int - '0' as int)
    }
}

pub open spec fn all_digits(s: Seq<char>) -> bool {
    forall|i: int| 0 <= i < s.len() ==> is_digit(#[trigger] s[i])
}

/// An optional `+` or `-` followed by at least one decimal digit, and the
/// number it spells.
pub open spec fn signed_value(s: Seq<char>) -> Option<int> {
    if s.len() > 0 && (s[0] == '-' || s[0] == '+') {
        let d = s.drop_first();
        if d.len() > 0 && all_digits(d) {
            Some(if s[0] == '-' { -digits_value(d) } else { digits_value(d) })
        } else {
            None
        }
    } else if s.len() > 0 && all_digits(s) {
        Some(digits_value(s))
    } else {
        None
    }
}

/// What `str::parse::<i64>` gives: the signed decimal number, if it fits.
pub open spec fn parsed_i64(s: Seq<char>) -> Option<i64> {
    match signed_value(s) {
        Some(v) => if i64::MIN <= v <= i64::MAX { Some(v as i64) } else { None },
        None => None,
    }
}

/// How an `i64` is written in decimal: a minus sign for negative values.
pub open spec fn decimal_i64(n: i64) -> Seq<char> {
    if n < 0 {
        seq!['-'] + decimal_digits((-(n as int)) as nat)
    } else {
        decimal_digits(n as nat)
    }
}

/// Relies on chrono's `DateTime::parse_from_rfc2822` and `timestamp`.
#[verifier::external_body]
pub(crate) fn parse_rfc2822(s: &str) -> (r: Option<i64>)
    ensures
        r == rfc2822_seconds(s@),
{
    chrono::DateTime::parse_from_rfc2822(s).ok().map(|d| d.timestamp())
}

/// Relies on chrono's `DateTime::parse_from_rfc3339` and `timestamp`.
#[verifier::external_body]
pub(crate) fn parse_rfc3339(s: &str) -> (r: Option<i64>)
    ensures
        r == rfc3339_seconds(s@),
{
    chrono::DateTime::parse_from_rfc3339(s).ok().map(|d| d.timestamp())
}

/// Relies on chrono's `NaiveDate::parse_from_str`, then midnight of that day
/// (`and_hms_opt(0, 0, 0)`, which cannot fail) read as UTC seconds.
#[verifier::external_body]
pub(crate) fn parse_date_midnight(s: &str, fmt: &str) -> (r: Option<i64>)
    ensures
        r == date_midnight_seconds(s@, fmt@),
{
    chrono::NaiveDate::parse_from_str(s, fmt).ok().map(
        |d| d.and_hms_opt(0, 0, 0).unwrap().and_utc().timestamp(),
    )
}

/// Relies on chrono's `Utc.timestamp_opt` and `DateTime::format`; an out of
/// range time or a pattern that chrono cannot render gives `None`.
#[verifier::external_body]
pub(crate) fn format_utc(ts: i64, fmt: &str) -> (r: Option<String>)
    ensures
        r.is_some() == utc_strftime(ts, fmt@).is_some(),
        r.is_some() ==> r.unwrap()@ == utc_strftime(ts, fmt@).unwrap(),
{
    let dt = chrono::Utc.timestamp_opt(ts, 0).single()?;
    let mut out = String::new();
    match write!(out, "{}", dt.format(fmt)) {
        Ok(()) => Some(out),
        Err(_) => None,
    }
}

/// Relies on mime_guess's `get_mime_extensions_str`.
#[verifier::external_body]
pub(crate) fn extensions_for(content_type: &str) -> (r: Option<Vec<String>>)
    ensures
        r.is_some() == mime_extensions(content_type@).is_some(),
        r.is_some() ==> string_views(r.unwrap()@) == mime_extensions(
            content_type@,
        ).unwrap(),
{
    mime_guess::get_mime_extensions_str(content_type).map(
        |exts| exts.iter().map(|e| e.to_string()).collect(),
    )
}

/// Relies on rss's `Channel::read_from`, then for each of `items()` in order on
/// `title`, `enclosure().url()`, `guid().value()` and `pub_date`.
#[verifier::external_body]
pub(crate) fn read_rss_entries(xml: &str) -> (r: Option<Vec<EntryFields>>)
    ensures
        r.is_some() == rss_entries(xml@).is_some(),
        r.is_some() ==> entry_views(r.unwrap()@) == rss_entries(xml@).unwrap(),
{
    let channel = rss::Channel::read_from(xml.as_bytes()).ok()?;
    Some(channel.items().iter().map(|i| EntryFields {
        title: i.title().map(|s| s.to_string()),
        url: i.enclosure().map(|e| e.url().to_string()),
        guid: i.guid().map(|g| g.value().to_string()),
        pub_date: i.pub_date().map(|s| s.to_string()),
    }).collect())
}

/// Relies on unicode-width's `UnicodeWidthStr::width` of the one-character string.
#[verifier::external_body]
pub(crate) fn display_width(c: char) -> (r: usize)
    ensures
        r == char_display_width(c),
{
    let mut buf = [0u8; 4];
    unicode_width::UnicodeWidthStr::width(&*c.encode_utf8(&mut buf))
}

/// Relies on std's `Path::join`, read back as text.
#[verifier::external_body]
pub(crate) fn join_path(base: &str, name: &str) -> (r: String)
    ensures
        r@ == joined_path(base@, name@),
{
    std::path::Path::new(base).join(name).to_string_lossy().into_owned()
}

/// Relies on std's `Display` for `i64`: decimal, with a minus sign when negative.
#[verifier::external_body]
pub(crate) fn i64_to_string(n: i64) -> (r: String)
    ensures
        r@ == decimal_i64(n),
{
    n.to_string()
}

/// Relies on std's `Display` for `u64`: decimal digits.
#[verifier::external_body]
pub(crate) fn u64_to_string(n: u64) -> (r: String)
    ensures
        r@ == decimal_digits(n as nat),
{
    n.to_string()
}

/// Relies on std's `str::parse::<i64>` (`i64::from_str`): an optional sign
/// and decimal digits, `Err` on anything else or on overflow.
#[verifier::external_body]
pub(crate) fn parse_i64(s: &str) -> (r: Option<i64>)
    ensures
        r == parsed_i64(s@),
{
    s.parse::<i64>().ok()
}

/// Relies on std's `str::chars`, collected in order.
#[verifier::external_body]
pub(crate) fn chars_of(s: &str) -> (r: Vec<char>)
    ensures
        r@ == s@,
{
    s.chars().collect()
}

/// Relies on std's `String: FromIterator<char>`, which keeps the order.
#[verifier::external_body]
pub(crate) fn string_of(v: &[char]) -> (r: String)
    ensures
        r@ == v@,
{
    v.iter().collect()
}

} // verus!
