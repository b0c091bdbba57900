//! The tags of an entity that may have many.

use crate::bitmask::{shortest_bytes, Bitmask};
use crate::payload::{column_texts, json_strings, texts_of, ColumnValue, JsonValue};
use crate::tags::codec::{
    column_mask, column_of_mask, decode, decoded_names, encode, encoded_bits, mask_of_column,
};
use crate::tags::handler::{
    exact_tag, filter_clause, filter_clause_of, filter_valid_tags, lemma_lenient_keeps_known, lenient_tags, strict_tags, tag_names,
    tag_views, validate_tags, MalformedPayloadError, TagError, TagErrorView, UnknownTagError,
    VisibleTag, VisibleTagView,
};
use crate::tags::registry::{lemma_position, EntryView, Registry};
use crate::tags::IntoFilter;
use crate::text::{name_views, title_case_of, to_title_case};
use vstd::prelude::*;

verus! {

/// The tags of an entity that may have many: checked tags, in the order in
/// which they were given or decoded.
#[derive(Debug, PartialEq, Eq)]
pub struct BotTags {
    inner: Vec<VisibleTag>,
}

impl View for BotTags {
    type V = Seq<VisibleTagView>;

    /// The tags held, in their order.
    closed spec fn view(&self) -> Seq<VisibleTagView> {
        tag_views(self.inner@)
    }
}

/// The names written as titles, each word with a capital.
pub open spec fn titled(names: Seq<Seq<char>>) -> Seq<Seq<char>> {
    names.map_values(|n: Seq<char>| title_case_of(n))
}

/// What the tags of a request come to: the tags of the names of a JSON array
/// of strings, each name written as a title and then matched without regard
/// to case; a malformed payload for no value or any other value; an unknown
/// tag for the first name that matches no entry.
pub open spec fn parsed_tags(value: Option<JsonValue>, reg: Seq<EntryView>) -> Result<
    Seq<VisibleTagView>,
    TagErrorView,
> {
    match value {
        None => Err(TagErrorView::MalformedPayload),
        Some(v) => match json_strings(v) {
            None => Err(TagErrorView::MalformedPayload),
            Some(names) => match strict_tags(titled(names), reg) {
                Ok(tags) => Ok(tags),
                Err(name) => Err(TagErrorView::UnknownTag(name)),
            },
        },
    }
}

/// What the tags of a storage column come to: of a set column, the tags of
/// the texts in it that the registry holds; of any other column, none.
pub open spec fn stored_tags(value: ColumnValue, reg: Seq<EntryView>) -> Seq<VisibleTagView> {
    match value {
        ColumnValue::SetOf(items) => lenient_tags(column_texts(items@), reg),
        _ => Seq::empty(),
    }
}

/// What the tags of a storage column that holds a bitmask come to: the tags
/// that the mask decodes to; of a number below zero or a column of another
/// type, none.
pub open spec fn stored_mask_tags(value: ColumnValue, reg: Seq<EntryView>) -> Seq<
    VisibleTagView,
> {
    match column_mask(value) {
        Some(mask) => lenient_tags(decoded_names(mask, reg), reg),
        None => Seq::empty(),
    }
}

impl BotTags {
    /// The tags of names that were stored: each name that the registry
    /// holds, as its tag, in the order of `flags`. A name that it does not
    /// hold is dropped.
    pub fn from_raw(flags: &Vec<String>, registry: &Registry) -> (tags: BotTags)
        ensures
            tags@ == lenient_tags(name_views(flags@), registry@),
    {
        BotTags { inner: filter_valid_tags(flags, registry) }
    }

    /// The tags of names that a caller gave: each name written as a title,
    /// then matched to an entry without regard to case. If a name matches
    /// no entry, the first such name is the error and no tag is returned.
    pub fn from_names(values: &Vec<String>, registry: &Registry) -> (tags: Result<
        BotTags,
        UnknownTagError,
    >)
        ensures
            match tags {
                Ok(held) => strict_tags(titled(name_views(values@)), registry@) == Ok::<
                    Seq<VisibleTagView>,
                    Seq<char>,
                >(held@),
                Err(e) => strict_tags(titled(name_views(values@)), registry@) == Err::<
                    Seq<VisibleTagView>,
                    Seq<char>,
                >(e.value@),
            },
    {
        let mut canonical: Vec<String> = Vec::new();
        let mut i: usize = 0;
        while i < values.len()
            invariant
                i <= values.len(),
                canonical.len() == i,
                forall|j: int|
                    0 <= j < i ==> (#[trigger] canonical@[j])@ == title_case_of(values@[j]@),
            decreases values.len() - i,
        {
            canonical.push(to_title_case(values[i].as_str()));
            i += 1;
        }
        assert(name_views(canonical@) =~= titled(name_views(values@)));
        match validate_tags(&canonical, registry) {
            Ok(inner) => Ok(BotTags { inner }),
            Err(e) => Err(e),
        }
    }

    /// The tags of a request: of a JSON array of strings, as `from_names`
    /// makes them. No value, or a value that is no array of strings, is a
    /// malformed payload.
    pub fn parse_from_json(value: Option<JsonValue>, registry: &Registry) -> (tags: Result<
        BotTags,
        TagError,
    >)
        ensures
            match tags {
                Ok(held) => parsed_tags(value, registry@) == Ok::<
                    Seq<VisibleTagView>,
                    TagErrorView,
                >(held@),
                Err(e) => parsed_tags(value, registry@) == Err::<
                    Seq<VisibleTagView>,
                    TagErrorView,
                >(e@),
            },
    {
        let names = match &value {
            Some(v) => match v.as_strings() {
                Some(names) => names,
                None => {
                    return Err(TagError::MalformedPayload(MalformedPayloadError));
                },
            },
            None => {
                return Err(TagError::MalformedPayload(MalformedPayloadError));
            },
        };
        match BotTags::from_names(&names, registry) {
            Ok(held) => Ok(held),
            Err(e) => Err(TagError::UnknownTag(e)),
        }
    }

    /// The tags that a bitmask stands for: those of the names it decodes
    /// to, in the order of the registry. No tag occurs twice.
    pub fn from_bitmask(value: &Bitmask, registry: &Registry) -> (tags: BotTags)
        ensures
            tags@ == lenient_tags(decoded_names(value@, registry@), registry@),
            tag_names(tags@) == decoded_names(value@, registry@),
            tag_names(tags@).no_duplicates(),
    {
        let names = decode(value, registry);
        proof {
            let decoded = decoded_names(value@, registry@);
            assert forall|i: int| 0 <= i < decoded.len() implies exact_tag(
                registry@,
                #[trigger] decoded[i],
            ) is Some by {
                assert(name_views(names@)[i] == decoded[i]);
                lemma_position(registry@, decoded[i]);
            }
            lemma_lenient_keeps_known(decoded, registry@);
        }
        BotTags { inner: filter_valid_tags(&names, registry) }
    }

    /// The tags of a storage column: of a set column, as `from_raw` makes
    /// them of the texts in it; of a column of any other shape, none. A
    /// column that does not have the shape expected is no error here: the
    /// record it belongs to loads, without tags.
    pub fn from_cql(value: &ColumnValue, registry: &Registry) -> (tags: BotTags)
        ensures
            tags@ == stored_tags(*value, registry@),
    {
        match value {
            ColumnValue::SetOf(items) => {
                let names = texts_of(items);
                BotTags::from_raw(&names, registry)
            },
            _ => BotTags::empty(),
        }
    }

    /// The tags of a storage column that holds a bitmask: as `from_bitmask`
    /// makes them of the number in it. A number below zero, or a column
    /// that holds no whole number, is no error here: the record it belongs
    /// to loads, without tags.
    pub fn from_cql_bitmask(value: &ColumnValue, registry: &Registry) -> (tags: BotTags)
        ensures
            tags@ == stored_mask_tags(*value, registry@),
    {
        match mask_of_column(value) {
            Some(mask) => BotTags::from_bitmask(&mask, registry),
            None => BotTags::empty(),
        }
    }

    /// The storage column that holds the bitmask of the tags held: a whole
    /// number of any size, in the fewest bytes.
    pub fn to_cql_bitmask(&self, registry: &Registry) -> (value: ColumnValue)
        ensures
            column_mask(value) == Some(encoded_bits(tag_names(self@), registry@)),
            value matches ColumnValue::Varint(bytes) && shortest_bytes(bytes@),
    {
        column_of_mask(&self.to_bitmask(registry))
    }

    /// The collection of tags that were checked before, as they stand.
    pub fn from_tags(checked: Vec<VisibleTag>) -> (tags: BotTags)
        ensures
            tags@ == tag_views(checked@),
    {
        BotTags { inner: checked }
    }

    /// No tags.
    pub fn empty() -> (tags: BotTags)
        ensures
            tags@ == Seq::<VisibleTagView>::empty(),
    {
        let tags = BotTags { inner: Vec::new() };
        assert(tags@ =~= Seq::<VisibleTagView>::empty());
        tags
    }

    /// The tags held, in their order.
    pub fn tags(&self) -> (held: &Vec<VisibleTag>)
        ensures
            tag_views(held@) == self@,
    {
        &self.inner
    }

    /// The names of the tags held, in their order.
    pub fn as_raw(&self) -> (names: Vec<String>)
        ensures
            name_views(names@) == tag_names(self@),
    {
        let mut names: Vec<String> = Vec::new();
        let mut i: usize = 0;
        while i < self.inner.len()
            invariant
                i <= self.inner.len(),
                names.len() == i,
                forall|j: int| 0 <= j < i ==> (#[trigger] names@[j])@ == self.inner@[j].name@,
            decreases self.inner.len() - i,
        {
            names.push(self.inner[i].name.clone());
            i += 1;
        }
        assert(name_views(names@) =~= tag_names(self@));
        names
    }

    /// The bitmask that stands for the tags held: the bits of the entries
    /// in use that they name.
    pub fn to_bitmask(&self, registry: &Registry) -> (mask: Bitmask)
        ensures
            mask@ == encoded_bits(tag_names(self@), registry@),
    {
        let names = self.as_raw();
        encode(&names, registry)
    }

    /// The JSON array of the names of the tags held, in their order.
    pub fn to_json(&self) -> (value: JsonValue)
        ensures
            json_strings(value) == Some(tag_names(self@)),
    {
        let names = self.as_raw();
        JsonValue::strings(&names)
    }
}

impl IntoFilter for BotTags {
    /// One clause for each tag held, in the tags' order.
    open spec fn filter_clauses(&self) -> Seq<Seq<char>> {
        self@.map_values(|t: VisibleTagView| filter_clause_of(t))
    }

    fn into_filter(self) -> (clauses: Vec<String>) {
        let mut clauses: Vec<String> = Vec::new();
        let mut i: usize = 0;
        while i < self.inner.len()
            invariant
                i <= self.inner.len(),
                clauses.len() == i,
                forall|j: int|
                    0 <= j < i ==> (#[trigger] clauses@[j])@ == filter_clause_of(self.inner@[j]@),
            decreases self.inner.len() - i,
        {
            clauses.push(filter_clause(&self.inner[i]));
            i += 1;
        }
        assert(name_views(clauses@) =~= self.filter_clauses());
        clauses
    }
}

impl Clone for BotTags {
    fn clone(&self) -> (tags: BotTags)
        ensures
            tags@ == self@,
    {
        let mut inner: Vec<VisibleTag> = Vec::new();
        let mut i: usize = 0;
        while i < self.inner.len()
            invariant
                i <= self.inner.len(),
                inner.len() == i,
                forall|j: int| 0 <= j < i ==> (#[trigger] inner@[j])@ == self.inner@[j]@,
            decreases self.inner.len() - i,
        {
            inner.push(self.inner[i].clone());
            i += 1;
        }
        let tags = BotTags { inner };
        assert(tags@ =~= self@);
        tags
    }
}

impl Default for BotTags {
    fn default() -> (tags: BotTags)
        ensures
            tags@ == Seq::<VisibleTagView>::empty(),
    {
        BotTags::empty()
    }
}

} // verus!
