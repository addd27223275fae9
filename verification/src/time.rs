//! Civil Helsinki time to UTC, and UTC instants as plain integers.

use chrono::offset::LocalResult;
use chrono::{DateTime, TimeZone};
use chrono_tz::Europe::Helsinki;
use vstd::prelude::*;

use crate::error::Error;

verus! {

/// A UTC instant: whole seconds since the Unix epoch and the nanoseconds
/// into that second. Instants are ordered by seconds first, then nanoseconds.
#[derive(Clone, Copy, Debug, PartialEq, Eq)]
pub struct UtcInstant {
    pub secs: i64,
    pub nanos: u32,
}

impl UtcInstant {
    /// This instant is not later than the start of second `secs`.
    pub open spec fn not_after_second(self, secs: int) -> bool {
        self.secs < secs || (self.secs == secs && self.nanos == 0)
    }

    /// This instant is not earlier than the start of second `secs`.
    pub open spec fn not_before_second(self, secs: int) -> bool {
        self.secs >= secs
    }

    pub fn is_not_after_second(&self, secs: i64) -> (r: bool)
        ensures
            r == self.not_after_second(secs as int),
    {
        self.secs < secs || (self.secs == secs && self.nanos == 0)
    }

    pub fn is_not_before_second(&self, secs: i64) -> (r: bool)
        ensures
            r == self.not_before_second(secs as int),
    {
        self.secs >= secs
    }
}

/// What a civil time in a time zone corresponds to in UTC seconds.
#[derive(Clone, Copy, Debug, PartialEq, Eq)]
pub enum LocalMapping {
    /// The civil time lies outside the range of dates the calendar handles.
    Unrepresentable,
    /// No instant has this civil time: the clocks skipped it.
    Gap,
    /// Exactly one instant has this civil time.
    Single(i64),
    /// Two instants have this civil time: the clocks were turned back.
    Ambiguous(i64, i64),
}

/// The mapping that the time-zone database gives for a civil Helsinki time,
/// itself written as seconds since the epoch as if it were UTC.
pub uninterp spec fn helsinki_mapping(local_secs: int) -> LocalMapping;

/// The RFC 3339 text of a whole UTC second, where the calendar reaches it.
pub uninterp spec fn rfc3339_utc(secs: int) -> Option<Seq<u8>>;

/// Asks chrono-tz what a civil Helsinki time is in UTC. The civil time is
/// made with `DateTime::from_timestamp` and `DateTime::naive_utc` of chrono,
/// the question is `TimeZone::from_local_datetime` on
/// `chrono_tz::Europe::Helsinki`, and each instant of the answer is read
/// with `DateTime::timestamp`. `Unrepresentable` stands for the `None` of
/// `from_timestamp`, the other three for the three variants of the answer.
/// The contract claims one thing: the answer depends on the argument alone,
/// which holds because the time-zone database is compiled into chrono-tz.
#[verifier::external_body]
fn helsinki_lookup(local_secs: i64) -> (r: LocalMapping)
    ensures
        r == helsinki_mapping(local_secs as int),
{
    match DateTime::from_timestamp(local_secs, 0) {
        None => LocalMapping::Unrepresentable,
        Some(civil) => match Helsinki.from_local_datetime(&civil.naive_utc()) {
            LocalResult::None => LocalMapping::Gap,
            LocalResult::Single(t) => LocalMapping::Single(t.timestamp()),
            LocalResult::Ambiguous(a, b) => LocalMapping::Ambiguous(a.timestamp(), b.timestamp()),
        },
    }
}

/// Writes a whole UTC second as RFC 3339 text with `DateTime::to_rfc3339`
/// of chrono, on the instant made by `DateTime::from_timestamp`; where the
/// latter is `None`, outside chrono's range of dates, there is no text. The
/// contract claims one thing: the text depends on the argument alone.
#[verifier::external_body]
fn format_rfc3339(secs: i64) -> (r: Option<Vec<u8>>)
    ensures
        r matches Some(text) ==> rfc3339_utc(secs as int) == Some(text@),
        r is None ==> rfc3339_utc(secs as int) is None,
{
    DateTime::from_timestamp(secs, 0).map(|t| t.to_rfc3339().into_bytes())
}

/// Whole seconds of an epoch-millisecond value, rounded towards zero.
pub open spec fn millis_to_secs(millis: int) -> int {
    if millis >= 0 {
        millis / 1000
    } else {
        -((-millis) / 1000)
    }
}

/// The policy at daylight-saving transitions: a gap has no answer, an
/// overlap answers with the earlier of its two instants.
pub open spec fn earliest(mapping: LocalMapping) -> Option<i64> {
    match mapping {
        LocalMapping::Unrepresentable => None,
        LocalMapping::Gap => None,
        LocalMapping::Single(t) => Some(t),
        LocalMapping::Ambiguous(a, b) => Some(if a <= b { a } else { b }),
    }
}

/// The UTC second of a local epoch-millisecond value, or the error that
/// names the value.
pub open spec fn utc_of_local_millis(millis: i64) -> Result<i64, Error> {
    match earliest(helsinki_mapping(millis_to_secs(millis as int))) {
        Some(utc) => Ok(utc),
        None => Err(Error::TimeConversion { timestamp: millis }),
    }
}

/// A quoted RFC 3339 string for the UTC instant of a local
/// epoch-millisecond value.
pub open spec fn quoted_utc(millis: i64) -> Result<Seq<u8>, Error> {
    match utc_of_local_millis(millis) {
        Err(e) => Err(e),
        Ok(utc) => quote(rfc3339_utc(utc as int), millis),
    }
}

/// A text between double quotes; a missing text is a conversion error for
/// `millis`.
pub open spec fn quote(text: Option<Seq<u8>>, millis: i64) -> Result<Seq<u8>, Error> {
    match text {
        None => Err(Error::TimeConversion { timestamp: millis }),
        Some(t) => Ok(seq![34u8] + t + seq![34u8]),
    }
}

/// Applies the transition policy to a mapping.
pub fn earliest_utc(mapping: LocalMapping) -> (r: Option<i64>)
    ensures
        r == earliest(mapping),
{
    match mapping {
        LocalMapping::Unrepresentable => None,
        LocalMapping::Gap => None,
        LocalMapping::Single(t) => Some(t),
        LocalMapping::Ambiguous(a, b) => Some(if a <= b { a } else { b }),
    }
}

/// Turns the looked-up mapping of `timestamp` into the UTC second or the
/// error.
pub fn resolve_mapping(timestamp: i64, mapping: LocalMapping) -> (r: Result<i64, Error>)
    ensures
        r == match earliest(mapping) {
            Some(utc) => Ok::<i64, Error>(utc),
            None => Err(Error::TimeConversion { timestamp }),
        },
{
    match earliest_utc(mapping) {
        Some(utc) => Ok(utc),
        None => Err(Error::TimeConversion { timestamp }),
    }
}

/// Converts an epoch-millisecond value that is civil Helsinki time into the
/// UTC second it denotes.
pub fn convert_timestamp(timestamp: i64) -> (r: Result<i64, Error>)
    ensures
        r == utc_of_local_millis(timestamp),
{
    let local_secs: i64 = timestamp / 1000;
    resolve_mapping(timestamp, helsinki_lookup(local_secs))
}

/// Puts a text between double quotes, or reports that there is none.
pub fn quote_text(text: Option<Vec<u8>>, timestamp: i64) -> (r: Result<Vec<u8>, Error>)
    ensures
        match r {
            Ok(v) => text is Some && v@ == seq![34u8] + text->0@ + seq![34u8],
            Err(e) => text is None && e == (Error::TimeConversion { timestamp }),
        },
{
    match text {
        None => Err(Error::TimeConversion { timestamp }),
        Some(t) => {
            let mut out: Vec<u8> = Vec::new();
            out.push(34u8);
            let mut i: usize = 0;
            while i < t.len()
                invariant
                    i <= t.len(),
                    out@ == seq![34u8] + t@.subrange(0, i as int),
                decreases t.len() - i,
            {
                out.push(t[i]);
                i += 1;
            }
            out.push(34u8);
            Ok(out)
        },
    }
}

/// The quoted RFC 3339 string that replaces a date literal whose argument is
/// `timestamp`.
pub fn quoted_timestamp(timestamp: i64) -> (r: Result<Vec<u8>, Error>)
    ensures
        match r {
            Ok(v) => quoted_utc(timestamp) == Ok::<Seq<u8>, Error>(v@),
            Err(e) => quoted_utc(timestamp) == Err::<Seq<u8>, Error>(e),
        },
{
    match convert_timestamp(timestamp) {
        Err(e) => Err(e),
        Ok(utc) => quote_text(format_rfc3339(utc), timestamp),
    }
}

} // verus!
