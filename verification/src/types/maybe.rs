//! A value that a request may leave out.

use vstd::prelude::*;

verus! {

/// A value that was given, or the mark that none was.
#[derive(Debug, PartialEq, Eq)]
pub enum MaybeMissing<T> {
    Provided(T),
    Missing,
}

impl<T> MaybeMissing<T> {
    /// The value, if one was given.
    pub fn as_raw_value(&self) -> (value: Option<&T>)
        ensures
            match value {
                Some(v) => *self == MaybeMissing::Provided(*v),
                None => *self is Missing,
            },
    {
        match self {
            MaybeMissing::Missing => None,
            MaybeMissing::Provided(v) => Some(v),
        }
    }

    /// What a request comes to, given what parsing made of the value in it
    /// if it held one: no value is `Missing` and no error; a value that
    /// parsed is `Provided`; a value that did not parse is the parser's
    /// error.
    pub fn from_parsed<E>(parsed: Option<Result<T, E>>) -> (value: Result<MaybeMissing<T>, E>)
        ensures
            value == match parsed {
                None => Ok::<MaybeMissing<T>, E>(MaybeMissing::Missing),
                Some(Ok(v)) => Ok(MaybeMissing::Provided(v)),
                Some(Err(e)) => Err(e),
            },
    {
        match parsed {
            None => Ok(MaybeMissing::Missing),
            Some(Ok(v)) => Ok(MaybeMissing::Provided(v)),
            Some(Err(e)) => Err(e),
        }
    }
}

impl<T> Default for MaybeMissing<T> {
    fn default() -> (value: MaybeMissing<T>)
        ensures
            value is Missing,
    {
        MaybeMissing::Missing
    }
}

} // verus!
