//! The wall clock and calendar parsing, through `chrono`.
use vstd::prelude::*;

verus! {

/// The current time in whole seconds since the Unix epoch (`chrono::Utc::now().timestamp()`).
/// Nothing is stated of the value: it is the time of the call.
#[verifier::external_body]
pub(crate) fn now_seconds() -> i64 {
    chrono::Utc::now().timestamp()
}

/// The current time in milliseconds since the Unix epoch
/// (`chrono::Utc::now().timestamp_millis()`). Nothing is stated of the value.
#[verifier::external_body]
pub(crate) fn now_millis() -> i64 {
    chrono::Utc::now().timestamp_millis()
}

/// The instant that an RFC 3339 date-time text denotes, in seconds since the Unix epoch, or
/// `None` where the text is no RFC 3339 date-time: the result of
/// `chrono::DateTime::parse_from_rfc3339` followed by `timestamp`.
pub uninterp spec fn rfc3339_seconds(text: Seq<char>) -> Option<i64>;

/// Parses an RFC 3339 date-time (`chrono::DateTime::parse_from_rfc3339`) and gives its
/// instant in seconds since the Unix epoch (`DateTime::timestamp`); `None` where chrono
/// refuses the text. The contract only names the result: it is a function of the text.
#[verifier::external_body]
pub(crate) fn parse_rfc3339_seconds(text: &str) -> (r: Option<i64>)
    ensures
        r == rfc3339_seconds(text@),
{
    match chrono::DateTime::parse_from_rfc3339(text) {
        Ok(dt) => Some(dt.timestamp()),
        Err(_) => None,
    }
}

} // verus!
