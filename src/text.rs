//! Text conversions that the resolver relies on: UTF-8 decoding and the
//! parsing of timestamps.
use vstd::prelude::*;
use vstd::utf8::{decode_utf8, valid_utf8};

verus! {

/// Milliseconds since the Unix epoch of an RFC 3339 timestamp, if `s` is one.
pub uninterp spec fn rfc3339_millis(s: Seq<char>) -> Option<i64>;

/// Milliseconds since the Unix epoch of an RFC 2822 timestamp, if `s` is one.
pub uninterp spec fn rfc2822_millis(s: Seq<char>) -> Option<i64>;

/// Relies on `String::from_utf8`: it fails exactly on byte sequences that are
/// not UTF-8, and otherwise holds the characters those bytes encode.
#[verifier::external_body]
pub(crate) fn decode_bytes(bytes: Vec<u8>) -> (r: Option<String>)
    ensures
        r is Some <==> valid_utf8(bytes@),
        r is Some ==> r->0@ == decode_utf8(bytes@),
{
    String::from_utf8(bytes).ok()
}

/// Relies on chrono's `DateTime::parse_from_rfc3339` and `timestamp_millis`:
/// the instant depends on the text alone, since the offset is part of it.
#[verifier::external_body]
pub(crate) fn parse_rfc3339(s: &str) -> (r: Option<i64>)
    ensures
        r == rfc3339_millis(s@),
{
    chrono::DateTime::parse_from_rfc3339(s).ok().map(|d| d.timestamp_millis())
}

/// Relies on chrono's `DateTime::parse_from_rfc2822` and `timestamp_millis`:
/// the instant depends on the text alone, since the offset is part of it.
#[verifier::external_body]
pub(crate) fn parse_rfc2822(s: &str) -> (r: Option<i64>)
    ensures
        r == rfc2822_millis(s@),
{
    chrono::DateTime::parse_from_rfc2822(s).ok().map(|d| d.timestamp_millis())
}

} // verus!
