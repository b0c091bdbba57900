//! The two shapes in which values reach the library from outside: a JSON
//! value of a request, and a value of a storage column. Each holds what the
//! parsers of this library read of such a value.

use crate::text::name_views;
use vstd::prelude::*;

verus! {

/// A JSON value.
#[derive(Debug, PartialEq, Eq)]
pub enum JsonValue {
    Null,
    Bool(bool),
    /// A number that is a whole number in the range of `i64`.
    Integer(i64),
    /// Any other number.
    Number,
    Text(String),
    List(Vec<JsonValue>),
    /// An object. No parser of this library reads one.
    Object,
}

/// The text of a JSON string, and nothing for any other value.
pub open spec fn json_text(value: JsonValue) -> Option<Seq<char>> {
    match value {
        JsonValue::Text(s) => Some(s@),
        _ => None,
    }
}

/// The number of a JSON whole number in the range of `i64`, and nothing
/// for any other value.
pub open spec fn json_integer(value: JsonValue) -> Option<i64> {
    match value {
        JsonValue::Integer(n) => Some(n),
        _ => None,
    }
}

/// The texts of a sequence of JSON strings.
pub open spec fn json_texts(items: Seq<JsonValue>) -> Seq<Seq<char>> {
    items.map_values(|v: JsonValue| json_text(v).unwrap())
}

/// The texts of a JSON array of strings, and nothing for any other value:
/// not for an array that holds anything but strings.
pub open spec fn json_strings(value: JsonValue) -> Option<Seq<Seq<char>>> {
    match value {
        JsonValue::List(items) => if forall|i: int|
            0 <= i < items@.len() ==> json_text(#[trigger] items@[i]) is Some {
            Some(json_texts(items@))
        } else {
            None
        },
        _ => None,
    }
}

impl JsonValue {
    /// The text of a JSON string.
    pub fn as_str(&self) -> (text: Option<&str>)
        ensures
            match text {
                Some(s) => json_text(*self) == Some(s@),
                None => json_text(*self) is None,
            },
    {
        match self {
            JsonValue::Text(s) => Some(s.as_str()),
            _ => None,
        }
    }

    /// The number of a JSON whole number in the range of `i64`.
    pub fn as_i64(&self) -> (number: Option<i64>)
        ensures
            number == json_integer(*self),
    {
        match self {
            JsonValue::Integer(n) => Some(*n),
            _ => None,
        }
    }

    /// The texts of a JSON array of strings.
    pub fn as_strings(&self) -> (texts: Option<Vec<String>>)
        ensures
            match texts {
                Some(list) => json_strings(*self) == Some(name_views(list@)),
                None => json_strings(*self) is None,
            },
    {
        match self {
            JsonValue::List(items) => {
                let mut list: Vec<String> = Vec::new();
                let mut i: usize = 0;
                while i < items.len()
                    invariant
                        *self == JsonValue::List(*items),
                        i <= items.len(),
                        list.len() == i,
                        forall|j: int| 0 <= j < i ==> json_text(#[trigger] items@[j]) == Some(list@[j]@),
                    decreases items.len() - i,
                {
                    match &items[i] {
                        JsonValue::Text(s) => {
                            list.push(s.clone());
                        },
                        _ => {
                            assert(json_text(items@[i as int]) is None);
                            return None;
                        },
                    }
                    i += 1;
                }
                assert(name_views(list@) =~= json_texts(items@));
                Some(list)
            },
            _ => None,
        }
    }

    /// The JSON array of the strings with the given texts.
    pub fn strings(texts: &Vec<String>) -> (value: JsonValue)
        ensures
            json_strings(value) == Some(name_views(texts@)),
    {
        let mut items: Vec<JsonValue> = Vec::new();
        let mut i: usize = 0;
        while i < texts.len()
            invariant
                i <= texts.len(),
                items.len() == i,
                forall|j: int| 0 <= j < i ==> json_text(#[trigger] items@[j]) == Some(texts@[j]@),
            decreases texts.len() - i,
        {
            items.push(JsonValue::Text(texts[i].clone()));
            i += 1;
        }
        assert(json_texts(items@) =~= name_views(texts@));
        JsonValue::List(items)
    }
}

/// A value of a storage column.
#[derive(Debug, PartialEq, Eq)]
pub enum ColumnValue {
    Ascii(String),
    Text(String),
    Int(i32),
    BigInt(i64),
    Counter(i64),
    /// A whole number of any size, in two's complement with the highest
    /// byte first.
    Varint(Vec<u8>),
    /// A point in time, in milliseconds since the Unix epoch.
    Timestamp(i64),
    /// A time of day, in nanoseconds since midnight.
    Time(i64),
    List(Vec<ColumnValue>),
    /// A set column, its items in the order in which they were stored.
    SetOf(Vec<ColumnValue>),
    /// A value of any other type. No parser of this library reads one.
    Other,
}

/// The value has the wrong type for the column, or is turned down by the rules
/// of the type it is read into.
#[derive(Debug, PartialEq, Eq, Clone, Copy)]
pub struct BadColumnType;

/// The text of a text column, and nothing for any other value.
pub open spec fn column_text(value: ColumnValue) -> Option<Seq<char>> {
    match value {
        ColumnValue::Text(s) => Some(s@),
        _ => None,
    }
}

/// The text of a text or ascii column, and nothing for any other value.
pub open spec fn column_string(value: ColumnValue) -> Option<Seq<char>> {
    match value {
        ColumnValue::Text(s) => Some(s@),
        ColumnValue::Ascii(s) => Some(s@),
        _ => None,
    }
}

/// The texts among the items, in their order: what is no text is left out.
pub open spec fn column_texts(items: Seq<ColumnValue>) -> Seq<Seq<char>> {
    items.filter(|v: ColumnValue| column_text(v) is Some).map_values(
        |v: ColumnValue| column_text(v).unwrap(),
    )
}

impl ColumnValue {
    /// The text of a text column.
    pub fn as_text(&self) -> (text: Option<&String>)
        ensures
            match text {
                Some(s) => column_text(*self) == Some(s@),
                None => column_text(*self) is None,
            },
    {
        match self {
            ColumnValue::Text(s) => Some(s),
            _ => None,
        }
    }

    /// The text of a text or ascii column.
    pub fn as_string(&self) -> (text: Option<&String>)
        ensures
            match text {
                Some(s) => column_string(*self) == Some(s@),
                None => column_string(*self) is None,
            },
    {
        match self {
            ColumnValue::Text(s) => Some(s),
            ColumnValue::Ascii(s) => Some(s),
            _ => None,
        }
    }
}

/// The texts among the items, in their order: what is no text is left out.
pub fn texts_of(items: &Vec<ColumnValue>) -> (texts: Vec<String>)
    ensures
        name_views(texts@) == column_texts(items@),
{
    let ghost keep = |v: ColumnValue| column_text(v) is Some;
    let ghost text = |v: ColumnValue| column_text(v).unwrap();
    let mut texts: Vec<String> = Vec::new();
    let mut i: usize = 0;
    proof {
        reveal(Seq::filter);
        assert(items@.take(0) =~= Seq::<ColumnValue>::empty());
        assert(items@.take(0).filter(keep) =~= Seq::<ColumnValue>::empty());
        assert(name_views(texts@) =~= items@.take(0).filter(keep).map_values(text));
    }
    while i < items.len()
        invariant
            i <= items.len(),
            keep == (|v: ColumnValue| column_text(v) is Some),
            text == (|v: ColumnValue| column_text(v).unwrap()),
            name_views(texts@) == items@.take(i as int).filter(keep).map_values(text),
        decreases items.len() - i,
    {
        let ghost before = items@.take(i as int);
        let ghost found = name_views(texts@);
        proof {
            assert(items@.take(i + 1) =~= before.push(items@[i as int]));
            before.lemma_filter_push(items@[i as int], keep);
        }
        match items[i].as_text() {
            Some(s) => {
                texts.push(s.clone());
                proof {
                    assert(name_views(texts@) =~= found.push(text(items@[i as int])));
                    assert(before.filter(keep).push(items@[i as int]).map_values(text)
                        =~= before.filter(keep).map_values(text).push(text(items@[i as int])));
                }
            },
            None => {},
        }
        i += 1;
    }
    proof {
        assert(items@.take(i as int) =~= items@);
    }
    texts
}

} // verus!
