//! A 32-bit whole number that may arrive as a number or as text.

use crate::payload::{json_integer, json_text, BadColumnType, ColumnValue, JsonValue};
use crate::decimal::{i32_of_text, parse_i32};
use crate::types::{IntError, PossibleInt};
use vstd::prelude::*;

verus! {

/// A 32-bit whole number.
#[derive(Copy, Clone, PartialEq, Eq, Hash, Debug, Default)]
pub struct JsSafeInt(pub i32);

/// The number that a text spells, or why it spells none.
pub open spec fn spelled_i32(text: Seq<char>) -> Result<i32, IntError> {
    match i32_of_text(text) {
        Some(n) => Ok(n),
        None => Err(IntError::Unparsable),
    }
}

/// What a JSON value comes to as a 32-bit number: the number that a string
/// spells, or the low 32 bits of the number itself.
pub open spec fn parsed_i32(value: Option<JsonValue>) -> Result<i32, IntError> {
    match value {
        None => Err(IntError::NotAnInteger),
        Some(v) => match json_text(v) {
            Some(text) => spelled_i32(text),
            None => match json_integer(v) {
                Some(n) => Ok(n as i32),
                None => Err(IntError::NotAnInteger),
            },
        },
    }
}

/// The number held of what was read, or the reason why nothing was.
pub open spec fn held_i32(read: Result<JsSafeInt, IntError>) -> Result<i32, IntError> {
    match read {
        Ok(n) => Ok(n.0),
        Err(e) => Err(e),
    }
}

/// The low 32 bits of `v`, read as a signed number.
fn low_bits(v: i64) -> (n: i32)
    ensures
        n == v as i32,
{
    #[verifier::truncate]
    (v as i32)
}

impl JsSafeInt {
    /// The number that `s` spells.
    pub fn from_str(s: &str) -> (n: Result<JsSafeInt, IntError>)
        ensures
            held_i32(n) == spelled_i32(s@),
    {
        match parse_i32(s) {
            Some(v) => Ok(JsSafeInt(v)),
            None => Err(IntError::Unparsable),
        }
    }

    /// The number that arrived as a number or as text. Of a number beyond
    /// 32 bits the low 32 bits are kept.
    pub fn from_possible(inner: &PossibleInt) -> (n: Result<JsSafeInt, IntError>)
        ensures
            held_i32(n) == match *inner {
                PossibleInt::Int(v) => Ok(v as i32),
                PossibleInt::Str(text) => spelled_i32(text@),
            },
    {
        match inner {
            PossibleInt::Int(v) => Ok(JsSafeInt(low_bits(*v))),
            PossibleInt::Str(text) => JsSafeInt::from_str(text.as_str()),
        }
    }

    /// The number of a request: that which a JSON string spells, or a JSON
    /// whole number in the range of `i64`, of which the low 32 bits are
    /// kept.
    pub fn parse_from_json(value: Option<JsonValue>) -> (n: Result<JsSafeInt, IntError>)
        ensures
            held_i32(n) == parsed_i32(value),
    {
        match &value {
            None => Err(IntError::NotAnInteger),
            Some(v) => match v.as_str() {
                Some(text) => JsSafeInt::from_str(text),
                None => match v.as_i64() {
                    Some(n) => Ok(JsSafeInt(low_bits(n))),
                    None => Err(IntError::NotAnInteger),
                },
            },
        }
    }

    /// The number of a storage column: that of an int column, and nothing
    /// else.
    pub fn from_cql(value: &ColumnValue) -> (n: Result<JsSafeInt, BadColumnType>)
        ensures
            match n {
                Ok(held) => *value == ColumnValue::Int(held.0),
                Err(_) => !(*value is Int),
            },
    {
        match value {
            ColumnValue::Int(v) => Ok(JsSafeInt(*v)),
            _ => Err(BadColumnType),
        }
    }

    /// The JSON number.
    pub fn to_json(&self) -> (value: JsonValue)
        ensures
            value == JsonValue::Integer(self.0 as i64),
    {
        JsonValue::Integer(self.0 as i64)
    }
}

} // verus!
