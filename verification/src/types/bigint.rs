//! A 64-bit whole number that crosses JSON as text, so that no reader
//! rounds it.

use crate::payload::{json_integer, json_text, BadColumnType, ColumnValue, JsonValue};
use crate::decimal::{i64_of_text, i64_to_text, parse_i64, text_of_integer};
use crate::types::{IntError, PossibleInt};
use vstd::prelude::*;

verus! {

/// A 64-bit whole number that is written to JSON as text.
#[derive(Copy, Clone, PartialEq, Eq, Hash, Debug, Default)]
pub struct JsSafeBigInt(pub i64);

/// The number that a text spells, or why it spells none.
pub open spec fn spelled_i64(text: Seq<char>) -> Result<i64, IntError> {
    match i64_of_text(text) {
        Some(n) => Ok(n),
        None => Err(IntError::Unparsable),
    }
}

/// What a JSON value comes to as a 64-bit number: the number that a string
/// spells, or the number itself.
pub open spec fn parsed_i64(value: Option<JsonValue>) -> Result<i64, IntError> {
    match value {
        None => Err(IntError::NotAnInteger),
        Some(v) => match json_text(v) {
            Some(text) => spelled_i64(text),
            None => match json_integer(v) {
                Some(n) => Ok(n),
                None => Err(IntError::NotAnInteger),
            },
        },
    }
}

/// What a storage column comes to as a 64-bit number: the number of a
/// bigint or counter column, and nothing else.
pub open spec fn stored_i64(value: ColumnValue) -> Option<i64> {
    match value {
        ColumnValue::Counter(n) => Some(n),
        ColumnValue::BigInt(n) => Some(n),
        _ => None,
    }
}

/// The number held of what was read, or the reason why nothing was.
pub open spec fn held_i64(read: Result<JsSafeBigInt, IntError>) -> Result<i64, IntError> {
    match read {
        Ok(n) => Ok(n.0),
        Err(e) => Err(e),
    }
}

impl JsSafeBigInt {
    /// The number `v`.
    pub fn from(v: i64) -> (n: JsSafeBigInt)
        ensures
            n.0 == v,
    {
        JsSafeBigInt(v)
    }

    /// The number that `s` spells.
    pub fn from_str(s: &str) -> (n: Result<JsSafeBigInt, IntError>)
        ensures
            held_i64(n) == spelled_i64(s@),
    {
        match parse_i64(s) {
            Some(v) => Ok(JsSafeBigInt(v)),
            None => Err(IntError::Unparsable),
        }
    }

    /// The number that arrived as a number or as text.
    pub fn from_possible(inner: &PossibleInt) -> (n: Result<JsSafeBigInt, IntError>)
        ensures
            held_i64(n) == match *inner {
                PossibleInt::Int(v) => Ok(v),
                PossibleInt::Str(text) => spelled_i64(text@),
            },
    {
        match inner {
            PossibleInt::Int(v) => Ok(JsSafeBigInt(*v)),
            PossibleInt::Str(text) => JsSafeBigInt::from_str(text.as_str()),
        }
    }

    /// The number of a request: that which a JSON string spells, or a JSON
    /// whole number in the range of `i64`.
    pub fn parse_from_json(value: Option<JsonValue>) -> (n: Result<JsSafeBigInt, IntError>)
        ensures
            held_i64(n) == parsed_i64(value),
    {
        match &value {
            None => Err(IntError::NotAnInteger),
            Some(v) => match v.as_str() {
                Some(text) => JsSafeBigInt::from_str(text),
                None => match v.as_i64() {
                    Some(n) => Ok(JsSafeBigInt(n)),
                    None => Err(IntError::NotAnInteger),
                },
            },
        }
    }

    /// The number of a storage column.
    pub fn from_cql(value: &ColumnValue) -> (n: Result<JsSafeBigInt, BadColumnType>)
        ensures
            match n {
                Ok(held) => stored_i64(*value) == Some(held.0),
                Err(_) => stored_i64(*value) is None,
            },
    {
        match value {
            ColumnValue::Counter(c) => Ok(JsSafeBigInt(*c)),
            ColumnValue::BigInt(v) => Ok(JsSafeBigInt(*v)),
            _ => Err(BadColumnType),
        }
    }

    /// The number in decimal.
    pub fn to_text(&self) -> (text: String)
        ensures
            text@ == text_of_integer(self.0 as int),
    {
        i64_to_text(self.0)
    }

    /// The JSON string that spells the number in decimal.
    pub fn to_json(&self) -> (value: JsonValue)
        ensures
            json_text(value) == Some(text_of_integer(self.0 as int)),
    {
        JsonValue::Text(i64_to_text(self.0))
    }
}

} // verus!
