//! The clock and timestamp parsing, through chrono.
//!
//! The store and the poller work with two forms of the same instant: the
//! RFC 3339 UTC text that is persisted, and the count of whole seconds since
//! the Unix epoch that the poller's interval arithmetic uses.

use vstd::prelude::*;

verus! {

/// The seconds-since-epoch reading of an RFC 3339 timestamp text, or `None`
/// where the text does not parse as one. Names what
/// `chrono::DateTime::parse_from_rfc3339` (followed by `timestamp`) returns:
/// a function of the text alone.
pub uninterp spec fn rfc3339_seconds(s: Seq<char>) -> Option<int>;

/// Relies on `chrono::DateTime::parse_from_rfc3339` and
/// `chrono::DateTime::timestamp`: both are functions of the text alone.
#[verifier::external_body]
pub(crate) fn parse_rfc3339_seconds(s: &str) -> (r: Option<i64>)
    ensures
        r is Some <==> rfc3339_seconds(s@) is Some,
        r matches Some(t) ==> rfc3339_seconds(s@) == Some(t as int),
{
    match chrono::DateTime::parse_from_rfc3339(s) {
        Ok(t) => Some(t.timestamp()),
        Err(_) => None,
    }
}

/// Relies on `chrono::Utc::now`, `chrono::DateTime::to_rfc3339` and
/// `chrono::DateTime::timestamp`: `to_rfc3339` writes the instant as RFC 3339
/// text, and where that text parses back at all it parses to the same
/// instant, so the same whole-second count. Nothing more is claimed: a clock
/// past the year 9999 is written with a five-digit year, which the parser
/// refuses, so for such a reading the text does not parse and the clause says
/// nothing of it. `Utc::now` itself panics on a system clock before the Unix
/// epoch and then returns no value at all.
#[verifier::external_body]
pub(crate) fn clock_now() -> (r: (i64, String))
    ensures
        rfc3339_seconds(r.1@) matches Some(t) ==> t == r.0 as int,
{
    let now = chrono::Utc::now();
    (now.timestamp(), now.to_rfc3339())
}

} // verus!
