//! Dates and times in text.

use vstd::prelude::*;

verus! {

/// The UTC date and time of a moment, given in seconds and nanoseconds, in ISO
/// 8601 notation; nothing where the moment is none.
pub uninterp spec fn utc_text(seconds: i64, nanoseconds: u32) -> Option<Seq<char>>;

/// `chrono::TimeZone::timestamp_opt` for UTC, formatted as
/// `%Y-%m-%dT%H:%M:%SZ`: the text depends on the two numbers alone.
#[verifier::external_body]
pub(crate) fn format_utc(seconds: i64, nanoseconds: u32) -> (result: Option<String>)
    ensures
        match result {
            Some(text) => utc_text(seconds, nanoseconds) == Some(text@),
            None => utc_text(seconds, nanoseconds) is None,
        },
{
    chrono::TimeZone::timestamp_opt(&chrono::Utc, seconds, nanoseconds).single().map(
        |moment| moment.format("%Y-%m-%dT%H:%M:%SZ").to_string(),
    )
}

/// Whether a text is a date in the notation `%Y-%m-%d`.
pub uninterp spec fn parses_as_date(value: Seq<char>) -> bool;

/// Whether a text is a date and time in the notation `%Y-%m-%dT%H:%M:%S`.
pub uninterp spec fn parses_as_date_time(value: Seq<char>) -> bool;

/// Whether a text is a date and time by RFC 3339.
pub uninterp spec fn parses_as_rfc3339(value: Seq<char>) -> bool;

/// Whether a text is the notation of a floating-point number.
pub uninterp spec fn parses_as_float(value: Seq<char>) -> bool;

/// `chrono::NaiveDate::parse_from_str` with `%Y-%m-%d`: whether it succeeds
/// depends on the text alone.
#[verifier::external_body]
pub(crate) fn is_date(value: &str) -> (result: bool)
    ensures
        result == parses_as_date(value@),
{
    chrono::NaiveDate::parse_from_str(value, "%Y-%m-%d").is_ok()
}

/// `chrono::NaiveDateTime::parse_from_str` with `%Y-%m-%dT%H:%M:%S`: whether it
/// succeeds depends on the text alone.
#[verifier::external_body]
pub(crate) fn is_date_time(value: &str) -> (result: bool)
    ensures
        result == parses_as_date_time(value@),
{
    chrono::NaiveDateTime::parse_from_str(value, "%Y-%m-%dT%H:%M:%S").is_ok()
}

/// `chrono::DateTime::parse_from_rfc3339`: whether it succeeds depends on the
/// text alone.
#[verifier::external_body]
pub(crate) fn is_rfc3339(value: &str) -> (result: bool)
    ensures
        result == parses_as_rfc3339(value@),
{
    chrono::DateTime::parse_from_rfc3339(value).is_ok()
}

/// `str::parse` into the floating-point type that `serde_json::Number::from_f64`
/// takes: whether it succeeds depends on the text alone.
#[verifier::external_body]
pub(crate) fn is_float(value: &str) -> (result: bool)
    ensures
        result == parses_as_float(value@),
{
    value.parse().map(serde_json::Number::from_f64).is_ok()
}

/// The whole seconds of a count of nanoseconds, towards zero.
pub open spec fn whole_seconds(nanoseconds: int) -> int {
    if nanoseconds >= 0 {
        nanoseconds / 1_000_000_000
    } else {
        -((-nanoseconds) / 1_000_000_000)
    }
}

/// The remaining nanoseconds as an unsigned number of 32 bits. Before the epoch
/// the negative remainder wraps round.
pub open spec fn rest_nanoseconds(nanoseconds: int) -> int {
    if nanoseconds >= 0 {
        nanoseconds % 1_000_000_000
    } else if (-nanoseconds) % 1_000_000_000 == 0 {
        0
    } else {
        0x1_0000_0000 - (-nanoseconds) % 1_000_000_000
    }
}

/// A file time in ISO 8601 notation; empty where the moment is none.
pub open spec fn iso_text(nanoseconds: i64) -> Seq<char> {
    match utc_text(
        whole_seconds(nanoseconds as int) as i64,
        rest_nanoseconds(nanoseconds as int) as u32,
    ) {
        Some(text) => text,
        None => Seq::empty(),
    }
}

/// Nanoseconds since the epoch in ISO 8601 notation.
pub fn ns_to_iso(nanoseconds: i64) -> (result: String)
    ensures
        result@ == iso_text(nanoseconds),
{
    let unit: u64 = 1_000_000_000;
    let (seconds, rest): (i64, u32) = if nanoseconds >= 0 {
        let value = nanoseconds as u64;
        ((value / unit) as i64, (value % unit) as u32)
    } else {
        let value = (-(nanoseconds as i128)) as u64;
        let rest = value % unit;
        let wrapped: u32 = if rest == 0 {
            0
        } else {
            (0x1_0000_0000u64 - rest) as u32
        };
        (-((value / unit) as i64), wrapped)
    };
    match format_utc(seconds, rest) {
        Some(text) => text,
        None => String::new(),
    }
}

/// Text that the canonical evaluator may read as a number or a date.
pub open spec fn is_ambiguous(value: Seq<char>) -> bool {
    parses_as_float(value) || parses_as_rfc3339(value) || parses_as_date(value)
        || parses_as_date_time(value)
}

pub fn ambiguous_canonical_string(value: &str) -> (result: bool)
    ensures
        result == is_ambiguous(value@),
{
    is_float(value) || is_rfc3339(value) || is_date(value) || is_date_time(value)
}

/// Text that is a date alone, in exactly ten bytes.
pub open spec fn is_plain_date(value: Seq<char>) -> bool {
    let bytes = vstd::utf8::encode_utf8(value);
    &&& bytes.len() == 10
    &&& bytes[4] == 0x2d
    &&& bytes[7] == 0x2d
    &&& parses_as_date(value)
}

pub fn is_iso_date_only(value: &str) -> (result: bool)
    ensures
        result == is_plain_date(value@),
{
    let bytes = value.as_bytes();
    bytes.len() == 10 && bytes[4] == 0x2d && bytes[7] == 0x2d && is_date(value)
}

} // verus!
