//! Text that is measured twice: as it was written, and as it reads once
//! every character is put into ASCII.

use crate::payload::{column_string, json_text, BadColumnType, ColumnValue, JsonValue};
use crate::text::{byte_len, trim, trimmed_of};
use vstd::prelude::*;

verus! {

/// What `deunicode::deunicode` returns for `s`: the text with every
/// character put into ASCII.
pub uninterp spec fn deunicode_of(s: Seq<char>) -> Seq<char>;

/// `deunicode` of the crate `deunicode`. Trusted: the ASCII form depends on
/// the text alone.
#[verifier::external_body]
pub(crate) fn deunicode(s: &str) -> (ascii: String)
    ensures
        ascii@ == deunicode_of(s@),
{
    deunicode::deunicode(s)
}

/// A text kept in two forms, both without white space at their ends: as it
/// was written, and put into ASCII. What is checked of its length is
/// checked of both, so that no character that takes no room, or reads as
/// several, gets a text past a limit.
///
/// `MIN` and `MAX` bound the length in bytes that `parse_from_json`
/// accepts; `REF_REAL` says which form `as_ref` gives.
#[derive(Debug)]
pub struct NormalisingString<const MIN: usize, const MAX: usize, const REF_REAL: bool> {
    normalised: String,
    real: String,
}

/// The two forms of a text as mathematical values.
pub struct NormalisingView {
    pub normalised: Seq<char>,
    pub real: Seq<char>,
}

impl<const MIN: usize, const MAX: usize, const REF_REAL: bool> View for NormalisingString<
    MIN,
    MAX,
    REF_REAL,
> {
    type V = NormalisingView;

    closed spec fn view(&self) -> NormalisingView {
        NormalisingView { normalised: self.normalised@, real: self.real@ }
    }
}

/// The two forms of the text `v`.
pub open spec fn normalising(v: Seq<char>) -> NormalisingView {
    NormalisingView { normalised: trimmed_of(deunicode_of(v)), real: trimmed_of(v) }
}

/// Why a text was turned down.
#[derive(Debug, PartialEq, Eq, Clone, Copy)]
pub enum TextError {
    /// No value was given, or one that is no text.
    NotAString,
    /// The ASCII form is shorter than the minimum.
    NormalisedTooShort,
    /// The ASCII form is longer than the maximum.
    NormalisedTooLong,
    /// The text as written is shorter than the minimum.
    RawTooShort,
    /// The text as written is longer than the maximum.
    RawTooLong,
}

/// The first limit that a text breaks, if it breaks one: the ASCII form is
/// measured first, and each form against the minimum before the maximum.
pub open spec fn length_fault(text: NormalisingView, min: usize, max: usize) -> Option<
    TextError,
> {
    if byte_len(text.normalised) < min {
        Some(TextError::NormalisedTooShort)
    } else if byte_len(text.normalised) > max {
        Some(TextError::NormalisedTooLong)
    } else if byte_len(text.real) < min {
        Some(TextError::RawTooShort)
    } else if byte_len(text.real) > max {
        Some(TextError::RawTooLong)
    } else {
        None
    }
}

/// What the text of a request comes to: the two forms of a JSON string, if
/// they keep within the limits.
pub open spec fn parsed_text(value: Option<JsonValue>, min: usize, max: usize) -> Result<
    NormalisingView,
    TextError,
> {
    match value {
        None => Err(TextError::NotAString),
        Some(v) => match json_text(v) {
            None => Err(TextError::NotAString),
            Some(text) => match length_fault(normalising(text), min, max) {
                Some(fault) => Err(fault),
                None => Ok(normalising(text)),
            },
        },
    }
}

impl<const MIN: usize, const MAX: usize, const REF_REAL: bool> NormalisingString<
    MIN,
    MAX,
    REF_REAL,
> {
    /// The two forms of the text `v`, whatever their lengths.
    pub fn from(v: &str) -> (text: Self)
        ensures
            text@ == normalising(v@),
    {
        let ascii = deunicode(v);
        NormalisingString {
            normalised: trim(ascii.as_str()).to_owned(),
            real: trim(v).to_owned(),
        }
    }

    /// The first limit that the text breaks, if it breaks one.
    pub fn length_fault(&self) -> (fault: Option<TextError>)
        ensures
            fault == length_fault(self@, MIN, MAX),
    {
        if self.normalised.as_str().as_bytes().len() < MIN {
            Some(TextError::NormalisedTooShort)
        } else if self.normalised.as_str().as_bytes().len() > MAX {
            Some(TextError::NormalisedTooLong)
        } else if self.real.as_str().as_bytes().len() < MIN {
            Some(TextError::RawTooShort)
        } else if self.real.as_str().as_bytes().len() > MAX {
            Some(TextError::RawTooLong)
        } else {
            None
        }
    }

    /// The text of a request: the two forms of a JSON string, if both keep
    /// within the limits.
    pub fn parse_from_json(value: Option<JsonValue>) -> (text: Result<Self, TextError>)
        ensures
            match text {
                Ok(t) => parsed_text(value, MIN, MAX) == Ok::<NormalisingView, TextError>(t@),
                Err(e) => parsed_text(value, MIN, MAX) == Err::<NormalisingView, TextError>(e),
            },
    {
        match &value {
            None => Err(TextError::NotAString),
            Some(v) => match v.as_str() {
                None => Err(TextError::NotAString),
                Some(text) => {
                    let slf = Self::from(text);
                    match slf.length_fault() {
                        Some(fault) => Err(fault),
                        None => Ok(slf),
                    }
                },
            },
        }
    }

    /// The text of a storage column: the two forms of the text of a text or
    /// ascii column, whatever their lengths.
    pub fn from_cql(value: &ColumnValue) -> (text: Result<Self, BadColumnType>)
        ensures
            match text {
                Ok(t) => column_string(*value) is Some && t@ == normalising(
                    column_string(*value).unwrap(),
                ),
                Err(_) => column_string(*value) is None,
            },
    {
        match value.as_string() {
            Some(s) => Ok(Self::from(s.as_str())),
            None => Err(BadColumnType),
        }
    }

    /// The text as it was written.
    pub fn as_raw(&self) -> (text: &str)
        ensures
            text@ == self@.real,
    {
        self.real.as_str()
    }

    /// The text put into ASCII.
    pub fn as_normalized(&self) -> (text: &str)
        ensures
            text@ == self@.normalised,
    {
        self.normalised.as_str()
    }

    /// The form that `REF_REAL` names: the text as written if it is set,
    /// else the text put into ASCII.
    pub fn as_ref(&self) -> (text: &str)
        ensures
            text@ == if REF_REAL {
                self@.real
            } else {
                self@.normalised
            },
    {
        if REF_REAL {
            self.real.as_str()
        } else {
            self.normalised.as_str()
        }
    }

    /// The JSON string of the text as it was written.
    pub fn to_json(&self) -> (value: JsonValue)
        ensures
            json_text(value) == Some(self@.real),
    {
        JsonValue::Text(self.real.clone())
    }
}

} // verus!
