//! Points in time, counted from the Unix epoch.

use crate::payload::{json_integer, json_text, BadColumnType, ColumnValue, JsonValue};
use crate::types::PossibleInt;
use vstd::prelude::*;

verus! {

/// A point in time: whole seconds since the Unix epoch, and the
/// nanoseconds past that second. Any pair can be held; the calendar knows a
/// narrower range, beyond which a point has no written form.
#[derive(Copy, Clone, PartialEq, Eq, Hash, Debug)]
pub struct Timestamp {
    pub secs: i64,
    pub nanos: u32,
}

/// Why a point in time was not read.
#[derive(Debug, PartialEq, Eq, Clone, Copy)]
pub enum TimeError {
    /// No value was given, or one that is neither a whole number nor text.
    Invalid,
    /// The text does not spell a date and time.
    Unparsable,
}

/// What parsing a `chrono::DateTime<Utc>` from `s` gives: the seconds and
/// nanoseconds of the point in time, or nothing where the text spells none.
pub uninterp spec fn time_of_text(s: Seq<char>) -> Option<(i64, u32)>;

/// `DateTime::<Utc>::from_str` of the crate `chrono`, with the point it
/// returns read by `timestamp` and `timestamp_subsec_nanos`. Trusted:
/// whether a text spells a point in time, and which, depends on the text
/// alone.
#[verifier::external_body]
fn parse_time(s: &str) -> (time: Option<(i64, u32)>)
    ensures
        time == time_of_text(s@),
{
    match s.parse::<chrono::DateTime<chrono::Utc>>() {
        Ok(d) => Some((d.timestamp(), d.timestamp_subsec_nanos())),
        Err(_) => None,
    }
}

/// What `DateTime::to_rfc3339` writes for the point `secs` seconds and
/// `nanos` nanoseconds after the epoch, or nothing where
/// `DateTime::from_timestamp` knows no such point.
pub uninterp spec fn rfc3339_of(secs: i64, nanos: u32) -> Option<Seq<char>>;

/// `DateTime::from_timestamp` of the crate `chrono`, and `to_rfc3339` of
/// the point it returns. Trusted: the written form depends on the two
/// numbers alone.
#[verifier::external_body]
fn write_rfc3339(secs: i64, nanos: u32) -> (text: Option<String>)
    ensures
        match text {
            Some(t) => rfc3339_of(secs, nanos) == Some(t@),
            None => rfc3339_of(secs, nanos) is None,
        },
{
    match chrono::DateTime::from_timestamp(secs, nanos) {
        Some(d) => Some(d.to_rfc3339()),
        None => None,
    }
}

/// The quotient of `a` by `b`, rounded toward zero.
pub open spec fn toward_zero(a: int, b: int) -> int {
    if a >= 0 {
        a / b
    } else {
        -((-a) / b)
    }
}

/// The quotient of `a` by `b`, rounded toward zero.
fn divide_toward_zero(a: i64, b: i64) -> (q: i64)
    requires
        b > 0,
    ensures
        q == toward_zero(a as int, b as int),
{
    let wide: i128 = a as i128;
    let by: i128 = b as i128;
    if wide >= 0 {
        let q: i128 = wide / by;
        assert(0 <= q <= wide) by (nonlinear_arith)
            requires
                q == wide / by,
                wide >= 0,
                by > 0,
        ;
        q as i64
    } else {
        let minus: i128 = -wide;
        let q: i128 = minus / by;
        assert(0 <= q <= minus) by (nonlinear_arith)
            requires
                q == minus / by,
                minus > 0,
                by > 0,
        ;
        (-q) as i64
    }
}

/// What a JSON value comes to as a point in time: a whole number counts
/// seconds, a string spells a date and time.
pub open spec fn parsed_time(value: Option<JsonValue>) -> Result<Timestamp, TimeError> {
    match value {
        None => Err(TimeError::Invalid),
        Some(v) => match json_integer(v) {
            Some(n) => Ok(Timestamp { secs: n, nanos: 0 }),
            None => match json_text(v) {
                Some(text) => spelled_time(text),
                None => Err(TimeError::Invalid),
            },
        },
    }
}

/// The point in time that a text spells, or why it spells none.
pub open spec fn spelled_time(text: Seq<char>) -> Result<Timestamp, TimeError> {
    match time_of_text(text) {
        Some((secs, nanos)) => Ok(Timestamp { secs, nanos }),
        None => Err(TimeError::Unparsable),
    }
}

/// What a storage column comes to as a point in time: the whole seconds of
/// a timestamp column, which counts milliseconds, or of a time column,
/// which counts nanoseconds, and nothing else.
pub open spec fn stored_time(value: ColumnValue) -> Option<Timestamp> {
    match value {
        ColumnValue::Timestamp(ms) => Some(
            Timestamp { secs: toward_zero(ms as int, 1000) as i64, nanos: 0 },
        ),
        ColumnValue::Time(ns) => Some(
            Timestamp { secs: toward_zero(ns as int, 1_000_000_000) as i64, nanos: 0 },
        ),
        _ => None,
    }
}

impl Timestamp {
    /// The point `v` seconds after the epoch.
    pub fn from(v: i64) -> (time: Timestamp)
        ensures
            time == (Timestamp { secs: v, nanos: 0 }),
    {
        Timestamp { secs: v, nanos: 0 }
    }

    /// The point in time that `s` spells.
    pub fn from_str(s: &str) -> (time: Result<Timestamp, TimeError>)
        ensures
            time == spelled_time(s@),
    {
        match parse_time(s) {
            Some((secs, nanos)) => Ok(Timestamp { secs, nanos }),
            None => Err(TimeError::Unparsable),
        }
    }

    /// The point in time that arrived as a number of seconds or as text.
    pub fn from_possible(inner: &PossibleInt) -> (time: Result<Timestamp, TimeError>)
        ensures
            time == match *inner {
                PossibleInt::Int(v) => Ok(Timestamp { secs: v, nanos: 0 }),
                PossibleInt::Str(text) => spelled_time(text@),
            },
    {
        match inner {
            PossibleInt::Int(v) => Ok(Timestamp::from(*v)),
            PossibleInt::Str(text) => Timestamp::from_str(text.as_str()),
        }
    }

    /// The point in time of a request.
    pub fn parse_from_json(value: Option<JsonValue>) -> (time: Result<Timestamp, TimeError>)
        ensures
            time == parsed_time(value),
    {
        match &value {
            None => Err(TimeError::Invalid),
            Some(v) => match v.as_i64() {
                Some(n) => Ok(Timestamp::from(n)),
                None => match v.as_str() {
                    Some(text) => Timestamp::from_str(text),
                    None => Err(TimeError::Invalid),
                },
            },
        }
    }

    /// The point in time of a storage column.
    pub fn from_cql(value: &ColumnValue) -> (time: Result<Timestamp, BadColumnType>)
        ensures
            match time {
                Ok(t) => stored_time(*value) == Some(t),
                Err(_) => stored_time(*value) is None,
            },
    {
        match value {
            ColumnValue::Timestamp(ms) => Ok(Timestamp::from(divide_toward_zero(*ms, 1000))),
            ColumnValue::Time(ns) => Ok(Timestamp::from(divide_toward_zero(*ns, 1_000_000_000))),
            _ => Err(BadColumnType),
        }
    }

    /// The point in time in milliseconds since the epoch, where that number
    /// fits 64 bits.
    pub fn timestamp_millis(&self) -> (millis: Option<i64>)
        ensures
            match millis {
                Some(m) => m == self.secs * 1000 + self.nanos / 1_000_000,
                None => !(i64::MIN <= self.secs * 1000 + self.nanos / 1_000_000 <= i64::MAX),
            },
    {
        let wide: i128 = (self.secs as i128) * 1000 + ((self.nanos / 1_000_000) as i128);
        if wide < (i64::MIN as i128) || wide > (i64::MAX as i128) {
            None
        } else {
            Some(wide as i64)
        }
    }

    /// The point in time as an RFC 3339 date and time, where the calendar
    /// knows it.
    pub fn to_rfc3339(&self) -> (text: Option<String>)
        ensures
            match text {
                Some(t) => rfc3339_of(self.secs, self.nanos) == Some(t@),
                None => rfc3339_of(self.secs, self.nanos) is None,
            },
    {
        write_rfc3339(self.secs, self.nanos)
    }

    /// The JSON string of the RFC 3339 date and time, where the calendar
    /// knows the point in time.
    pub fn to_json(&self) -> (value: Option<JsonValue>)
        ensures
            match value {
                Some(v) => json_text(v) == rfc3339_of(self.secs, self.nanos),
                None => rfc3339_of(self.secs, self.nanos) is None,
            },
    {
        match write_rfc3339(self.secs, self.nanos) {
            Some(text) => Some(JsonValue::Text(text)),
            None => None,
        }
    }
}

} // verus!
