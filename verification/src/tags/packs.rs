//! The tag of an entity that has one at most.

use crate::payload::{column_text, json_text, ColumnValue, JsonValue};
use crate::tags::handler::{
    exact_tag, filter_clause, filter_clause_of, folded_tag, tag_at, MalformedPayloadError, TagError, TagErrorView, UnknownTagError,
    VisibleTag, VisibleTagView,
};
use crate::tags::registry::{EntryView, Registry};
use crate::tags::IntoFilter;
use crate::text::name_views;
use vstd::prelude::*;

verus! {

/// The tag of an entity that has one at most: a checked tag, or none.
#[derive(Debug, PartialEq, Eq)]
pub struct PackTags {
    inner: Option<VisibleTag>,
}

impl View for PackTags {
    type V = Option<VisibleTagView>;

    /// The tag held, if one is.
    closed spec fn view(&self) -> Option<VisibleTagView> {
        match self.inner {
            Some(tag) => Some(tag@),
            None => None,
        }
    }
}

/// What the tag of a request comes to: no tag for JSON `null`; for a JSON
/// string, the tag that it matches without regard to case, or an unknown
/// tag if it matches no entry; a malformed payload for no value or any other
/// value.
pub open spec fn parsed_tag(value: Option<JsonValue>, reg: Seq<EntryView>) -> Result<
    Option<VisibleTagView>,
    TagErrorView,
> {
    match value {
        None => Err(TagErrorView::MalformedPayload),
        Some(JsonValue::Null) => Ok(None),
        Some(v) => match json_text(v) {
            None => Err(TagErrorView::MalformedPayload),
            Some(name) => match folded_tag(reg, name) {
                Some(tag) => Ok(Some(tag)),
                None => Err(TagErrorView::UnknownTag(name)),
            },
        },
    }
}

/// What the tag of a storage column comes to: of a text column, the tag
/// that its text matches without regard to case, if any; of any other
/// column, none.
pub open spec fn stored_tag(value: ColumnValue, reg: Seq<EntryView>) -> Option<VisibleTagView> {
    match column_text(value) {
        Some(name) => folded_tag(reg, name),
        None => None,
    }
}

impl PackTags {
    /// The tag of a name that was stored: the tag of the entry of exactly
    /// that name, or none if the registry holds no such entry.
    pub fn from_raw(tag: String, registry: &Registry) -> (held: PackTags)
        ensures
            held@ == exact_tag(registry@, tag@),
    {
        match registry.find(tag.as_str()) {
            Some(at) => PackTags { inner: Some(tag_at(registry, at)) },
            None => PackTags { inner: None },
        }
    }

    /// The tag that `value` names without regard to case: that of the first
    /// entry that matches, under the entry's own name, or none if no entry
    /// matches. A name that matches nothing is no error.
    pub fn from_name(value: &str, registry: &Registry) -> (held: PackTags)
        ensures
            held@ == folded_tag(registry@, value@),
    {
        match registry.find_folded(value) {
            Some(at) => PackTags { inner: Some(tag_at(registry, at)) },
            None => PackTags { inner: None },
        }
    }

    /// The tag of a request: a JSON string or JSON `null`. `null` is the
    /// collection without a tag, as `to_json` writes it. A string gives the
    /// tag that it names without regard to case; a string that matches no
    /// entry is an unknown tag. No value, or a value that is neither, is a
    /// malformed payload.
    pub fn parse_from_json(value: Option<JsonValue>, registry: &Registry) -> (held: Result<
        PackTags,
        TagError,
    >)
        ensures
            match held {
                Ok(tag) => parsed_tag(value, registry@) == Ok::<
                    Option<VisibleTagView>,
                    TagErrorView,
                >(tag@),
                Err(e) => parsed_tag(value, registry@) == Err::<
                    Option<VisibleTagView>,
                    TagErrorView,
                >(e@),
            },
    {
        let name = match &value {
            Some(JsonValue::Null) => {
                return Ok(PackTags { inner: None });
            },
            Some(v) => match v.as_str() {
                Some(name) => name,
                None => {
                    return Err(TagError::MalformedPayload(MalformedPayloadError));
                },
            },
            None => {
                return Err(TagError::MalformedPayload(MalformedPayloadError));
            },
        };
        match registry.find_folded(name) {
            Some(at) => Ok(PackTags { inner: Some(tag_at(registry, at)) }),
            None => Err(TagError::UnknownTag(UnknownTagError { value: name.to_owned() })),
        }
    }

    /// The tag of a storage column: of a text column, as `from_name` makes
    /// it; of a column of any other shape, none. A column that does not
    /// have the shape expected is no error here: the record it belongs to
    /// loads, without a tag.
    pub fn from_cql(value: &ColumnValue, registry: &Registry) -> (held: PackTags)
        ensures
            held@ == stored_tag(*value, registry@),
    {
        match value.as_text() {
            Some(name) => PackTags::from_name(name.as_str(), registry),
            None => PackTags::empty(),
        }
    }

    /// The collection of a tag that was checked before, as it stands.
    pub fn from_tag(checked: Option<VisibleTag>) -> (held: PackTags)
        ensures
            held@ == match checked {
                Some(tag) => Some(tag@),
                None => None,
            },
    {
        PackTags { inner: checked }
    }

    /// No tag.
    pub fn empty() -> (held: PackTags)
        ensures
            held@ is None,
    {
        PackTags { inner: None }
    }

    /// The tag held, if one is.
    pub fn tag(&self) -> (held: &Option<VisibleTag>)
        ensures
            match *held {
                Some(tag) => self@ == Some(tag@),
                None => self@ is None,
            },
    {
        &self.inner
    }

    /// The name of the tag held, if one is.
    pub fn as_raw(&self) -> (name: Option<String>)
        ensures
            match name {
                Some(n) => self@ is Some && n@ == self@.unwrap().name,
                None => self@ is None,
            },
    {
        match &self.inner {
            Some(tag) => Some(tag.name.clone()),
            None => None,
        }
    }

    /// The name of the tag held, if one is.
    pub fn to_name(&self) -> (name: Option<String>)
        ensures
            match name {
                Some(n) => self@ is Some && n@ == self@.unwrap().name,
                None => self@ is None,
            },
    {
        self.as_raw()
    }

    /// The JSON string of the name of the tag held, or JSON `null` if none
    /// is.
    pub fn to_json(&self) -> (value: JsonValue)
        ensures
            match self@ {
                Some(tag) => json_text(value) == Some(tag.name),
                None => value is Null,
            },
    {
        match &self.inner {
            Some(tag) => JsonValue::Text(tag.name.clone()),
            None => JsonValue::Null,
        }
    }
}

/// JSON `null` is read as the collection without a tag, which is what
/// `to_json` writes for it.
pub proof fn lemma_null_is_no_tag(reg: Seq<EntryView>)
    ensures
        parsed_tag(Some(JsonValue::Null), reg) == Ok::<Option<VisibleTagView>, TagErrorView>(None),
{
}

impl IntoFilter for PackTags {
    /// One clause for the tag held, and none if none is held.
    open spec fn filter_clauses(&self) -> Seq<Seq<char>> {
        match self@ {
            Some(tag) => seq![filter_clause_of(tag)],
            None => Seq::empty(),
        }
    }

    fn into_filter(self) -> (clauses: Vec<String>) {
        let mut clauses: Vec<String> = Vec::new();
        match &self.inner {
            Some(tag) => {
                clauses.push(filter_clause(tag));
                assert(name_views(clauses@) =~= seq![filter_clause_of(tag@)]);
            },
            None => {
                assert(name_views(clauses@) =~= Seq::<Seq<char>>::empty());
            },
        }
        clauses
    }
}

impl Clone for PackTags {
    fn clone(&self) -> (held: PackTags)
        ensures
            held@ == self@,
    {
        match &self.inner {
            Some(tag) => PackTags { inner: Some(tag.clone()) },
            None => PackTags { inner: None },
        }
    }
}

impl Default for PackTags {
    fn default() -> (held: PackTags)
        ensures
            held@ is None,
    {
        PackTags::empty()
    }
}

} // verus!
