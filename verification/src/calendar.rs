//! Calendar dates and time stamps.

use vstd::prelude::*;

verus! {

/// The calendar date in UTC of a time given in seconds since the Unix
/// epoch, written as year, month and day with hyphens between them; `None`
/// for a time outside the calendar's range. The calendar rules behind it
/// are not restated here.
pub uninterp spec fn utc_date_text(seconds: int) -> Option<Seq<char>>;

/// The calendar date in UTC of a time stamp, by
/// `chrono::DateTime::from_timestamp` and the `Display` form of the date
/// of what it returns. The result is a function of the seconds alone and
/// is named [`utc_date_text`].
#[verifier::external_body]
pub(crate) fn utc_date(seconds: i64) -> (r: Option<String>)
    ensures
        match r {
            Some(date) => utc_date_text(seconds as int) == Some(date@),
            None => utc_date_text(seconds as int) is None,
        },
{
    chrono::DateTime::from_timestamp(seconds, 0).map(|t| t.date_naive().to_string())
}

/// The time in seconds since the Unix epoch that a text states in the
/// format of RFC 3339; `None` for a text that is not in that format.
pub uninterp spec fn rfc3339_seconds(text: Seq<char>) -> Option<i64>;

/// The time that a text in the format of RFC 3339 states, by
/// `chrono::DateTime::parse_from_rfc3339` and `DateTime::timestamp`. The
/// result is a function of the text alone and is named
/// [`rfc3339_seconds`].
#[verifier::external_body]
pub(crate) fn parse_rfc3339(text: &str) -> (r: Option<i64>)
    ensures
        r == rfc3339_seconds(text@),
{
    chrono::DateTime::parse_from_rfc3339(text).ok().map(|t| t.timestamp())
}

} // verus!
