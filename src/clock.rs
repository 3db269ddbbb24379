//! Wall-clock readings and timestamp syntax, through chrono.

use vstd::prelude::*;

verus! {

/// `s` reads as an RFC 3339 date-time.
pub uninterp spec fn rfc3339_ok(s: Seq<char>) -> bool;

/// Relies on `chrono::DateTime::parse_from_rfc3339`: whether `s` parses.
#[verifier::external_body]
pub(crate) fn parses_as_rfc3339(s: &str) -> (r: bool)
    ensures
        r == rfc3339_ok(s@),
{
    chrono::DateTime::parse_from_rfc3339(s).is_ok()
}

/// Relies on `chrono::Utc::now` and `DateTime::to_rfc3339`: the current time in
/// RFC 3339 form, which `parse_from_rfc3339` accepts.
#[verifier::external_body]
pub(crate) fn now_rfc3339() -> (r: String)
    ensures
        rfc3339_ok(r@),
{
    chrono::Utc::now().to_rfc3339()
}

/// Relies on `chrono::Utc::now` and `DateTime::timestamp`: seconds since the epoch.
#[verifier::external_body]
pub(crate) fn now_epoch_secs() -> (r: i64) {
    chrono::Utc::now().timestamp()
}

/// Relies on `chrono::Utc::now` and `DateTime::timestamp_micros`: microseconds
/// since the epoch.
#[verifier::external_body]
pub(crate) fn now_epoch_micros() -> (r: i64) {
    chrono::Utc::now().timestamp_micros()
}

} // verus!
