//! Catalog entries and the tags shown to callers.

use crate::bitmask::Bitmask;
use crate::tags::registry::{
    folded_position, lemma_position, lowercase_names, position, EntryView, Registry,
};
use crate::text::{first_equal, name_views, to_lowercase};
use vstd::prelude::*;
use vstd::string::StringExecFns;

verus! {

/// What a catalog entry says of one tag.
#[derive(Debug, PartialEq, Eq)]
pub struct Flag {
    /// The bits that stand for the tag in a bitmask.
    pub bit_weight: Bitmask,
    /// A deprecated entry keeps its bits and takes no part in bitmask
    /// decoding or encoding.
    pub deprecated: bool,
    /// The label shown for the tag.
    pub display_name: String,
    /// The category the tag belongs to.
    pub category: String,
}

/// A catalog entry as a mathematical value.
pub struct FlagView {
    pub bits: Set<nat>,
    pub deprecated: bool,
    pub display_name: Seq<char>,
    pub category: Seq<char>,
}

impl View for Flag {
    type V = FlagView;

    open spec fn view(&self) -> FlagView {
        FlagView {
            bits: self.bit_weight@,
            deprecated: self.deprecated,
            display_name: self.display_name@,
            category: self.category@,
        }
    }
}

impl Flag {
    /// An entry that is in use, with the given bits, label and category.
    pub fn new(bit_weight: Bitmask, display_name: String, category: String) -> (flag: Flag)
        ensures
            flag@ == (FlagView {
                bits: bit_weight@,
                deprecated: false,
                display_name: display_name@,
                category: category@,
            }),
    {
        Flag { bit_weight, deprecated: false, display_name, category }
    }
}

impl Clone for Flag {
    fn clone(&self) -> (flag: Flag)
        ensures
            flag@ == self@,
    {
        Flag {
            bit_weight: self.bit_weight.clone(),
            deprecated: self.deprecated,
            display_name: self.display_name.clone(),
            category: self.category.clone(),
        }
    }
}

/// A tag that was checked against a registry: the name under which the
/// registry holds it, with the label and category of its entry.
#[derive(Debug, PartialEq, Eq)]
pub struct VisibleTag {
    pub name: String,
    pub display_name: String,
    pub category: String,
}

/// A visible tag as a mathematical value.
pub struct VisibleTagView {
    pub name: Seq<char>,
    pub display_name: Seq<char>,
    pub category: Seq<char>,
}

impl View for VisibleTag {
    type V = VisibleTagView;

    open spec fn view(&self) -> VisibleTagView {
        VisibleTagView {
            name: self.name@,
            display_name: self.display_name@,
            category: self.category@,
        }
    }
}

impl Clone for VisibleTag {
    fn clone(&self) -> (tag: VisibleTag)
        ensures
            tag@ == self@,
    {
        VisibleTag {
            name: self.name.clone(),
            display_name: self.display_name.clone(),
            category: self.category.clone(),
        }
    }
}

/// What `Debug` writes for `tag`: the text that `format!` gives for `{:?}`.
pub uninterp spec fn debug_text_of(tag: VisibleTagView) -> Seq<char>;

/// The `format!` of std with `{:?}`, which writes the tag as its derived
/// `Debug` does. Trusted: the text depends on the tag's three texts alone.
#[verifier::external_body]
pub(crate) fn debug_text(tag: &VisibleTag) -> (text: String)
    ensures
        text@ == debug_text_of(tag@),
{
    format!("{:?}", tag)
}

/// The clause of a search filter that matches `tag`: `tags = `, then the
/// tag as `Debug` writes it.
pub open spec fn filter_clause_of(tag: VisibleTagView) -> Seq<char> {
    "tags = "@ + debug_text_of(tag)
}

/// The clause of a search filter that matches `tag`.
pub fn filter_clause(tag: &VisibleTag) -> (clause: String)
    ensures
        clause@ == filter_clause_of(tag@),
{
    let written = debug_text(tag);
    String::from_str("tags = ").concat(written.as_str())
}

/// The visible tags as mathematical values.
pub open spec fn tag_views(tags: Seq<VisibleTag>) -> Seq<VisibleTagView> {
    tags.map_values(|t: VisibleTag| t@)
}

/// The tag that stands for an entry.
pub open spec fn visible(entry: EntryView) -> VisibleTagView {
    VisibleTagView {
        name: entry.name,
        display_name: entry.flag.display_name,
        category: entry.flag.category,
    }
}

/// A name was given that no entry of the registry matches.
#[derive(Debug, PartialEq, Eq)]
pub struct UnknownTagError {
    /// The name that matched nothing.
    pub value: String,
}

/// The request did not have the shape that the parser reads.
#[derive(Debug, PartialEq, Eq)]
pub struct MalformedPayloadError;

/// Why a request for tags was turned down.
#[derive(Debug, PartialEq, Eq)]
pub enum TagError {
    /// The request did not have the shape that the parser reads.
    MalformedPayload(MalformedPayloadError),
    /// A name was given that no entry of the registry matches.
    UnknownTag(UnknownTagError),
}

/// Why a request for tags was turned down, as a mathematical value.
pub enum TagErrorView {
    MalformedPayload,
    UnknownTag(Seq<char>),
}

impl View for TagError {
    type V = TagErrorView;

    open spec fn view(&self) -> TagErrorView {
        match self {
            TagError::MalformedPayload(_) => TagErrorView::MalformedPayload,
            TagError::UnknownTag(e) => TagErrorView::UnknownTag(e.value@),
        }
    }
}

/// The names of the tags, in the tags' order.
pub open spec fn tag_names(tags: Seq<VisibleTagView>) -> Seq<Seq<char>> {
    tags.map_values(|t: VisibleTagView| t.name)
}

/// The tag for `name`, where the registry holds an entry of exactly that
/// name.
pub open spec fn exact_tag(reg: Seq<EntryView>, name: Seq<char>) -> Option<VisibleTagView> {
    match position(reg, name) {
        Some(i) => Some(visible(reg[i])),
        None => None,
    }
}

/// The tag for `name`, where the registry holds an entry whose name is
/// `name` but for the case of its letters: that of the first such entry,
/// under the entry's own name.
pub open spec fn folded_tag(reg: Seq<EntryView>, name: Seq<char>) -> Option<VisibleTagView> {
    match folded_position(reg, name) {
        Some(i) => Some(visible(reg[i])),
        None => None,
    }
}

/// What lenient validation keeps of `names`: the tag of each name that the
/// registry holds, in the order of `names`.
pub open spec fn lenient_tags(names: Seq<Seq<char>>, reg: Seq<EntryView>) -> Seq<
    VisibleTagView,
> {
    names.filter(|n: Seq<char>| exact_tag(reg, n) is Some).map_values(
        |n: Seq<char>| exact_tag(reg, n).unwrap(),
    )
}

/// For each of `names`, whether no entry matches it.
pub open spec fn unmatched(names: Seq<Seq<char>>, reg: Seq<EntryView>) -> Seq<bool> {
    names.map_values(|n: Seq<char>| folded_tag(reg, n) is None)
}

/// What strict validation makes of `names`: the tag of each name, in the
/// order of `names`, if every name matches an entry, and else the first name
/// that matches none.
pub open spec fn strict_tags(names: Seq<Seq<char>>, reg: Seq<EntryView>) -> Result<
    Seq<VisibleTagView>,
    Seq<char>,
> {
    match unmatched(names, reg).index_of_first(true) {
        Some(i) => Err(names[i]),
        None => Ok(names.map_values(|n: Seq<char>| folded_tag(reg, n).unwrap())),
    }
}

/// Strict validation is all or nothing: it gives a tag for every name, each
/// the tag that its name matches, or it gives the first name that matches no
/// entry, and no tag.
pub proof fn lemma_strict_tags(names: Seq<Seq<char>>, reg: Seq<EntryView>)
    ensures
        match strict_tags(names, reg) {
            Ok(tags) => tags.len() == names.len() && forall|i: int|
                0 <= i < names.len() ==> folded_tag(reg, #[trigger] names[i]) == Some(tags[i]),
            Err(name) => exists|i: int|
                {
                    &&& 0 <= i < names.len()
                    &&& #[trigger] names[i] == name
                    &&& folded_tag(reg, names[i]) is None
                    &&& forall|j: int| 0 <= j < i ==> folded_tag(reg, #[trigger] names[j]) is Some
                },
        },
{
    let flags = unmatched(names, reg);
    flags.index_of_first_ensures(true);
    match flags.index_of_first(true) {
        Some(i) => {
            assert(flags[i]);
            assert forall|j: int| 0 <= j < i implies folded_tag(reg, #[trigger] names[j]) is Some by {
                assert(!flags[j]);
            }
        },
        None => {
            assert forall|i: int| 0 <= i < names.len() implies folded_tag(
                reg,
                #[trigger] names[i],
            ) is Some by {
                assert(flags[i] == (folded_tag(reg, names[i]) is None));
                assert(flags.contains(flags[i]));
            }
        },
    }
}

/// Where the registry holds every one of `names`, lenient validation keeps
/// them all: it yields one tag for each name, under that name.
pub proof fn lemma_lenient_keeps_known(names: Seq<Seq<char>>, reg: Seq<EntryView>)
    requires
        forall|i: int| 0 <= i < names.len() ==> exact_tag(reg, #[trigger] names[i]) is Some,
    ensures
        lenient_tags(names, reg) == names.map_values(|n: Seq<char>| exact_tag(reg, n).unwrap()),
        tag_names(lenient_tags(names, reg)) == names,
    decreases names.len(),
{
    let keep = |n: Seq<char>| exact_tag(reg, n) is Some;
    let show = |n: Seq<char>| exact_tag(reg, n).unwrap();
    reveal(Seq::filter);
    if names.len() == 0 {
        assert(names.filter(keep) =~= names);
    } else {
        let front = names.drop_last();
        assert forall|i: int| 0 <= i < front.len() implies exact_tag(
            reg,
            #[trigger] front[i],
        ) is Some by {
            assert(front[i] == names[i]);
        }
        lemma_lenient_keeps_known(front, reg);
        assert(keep(names.last()));
        assert(names.filter(keep) =~= front.filter(keep).push(names.last()));
        assert(front.map_values(show).push(show(names.last())) =~= names.map_values(show));
        assert(front.filter(keep).push(names.last()).map_values(show) =~= front.filter(
            keep,
        ).map_values(show).push(show(names.last())));
    }
    let tags = lenient_tags(names, reg);
    assert(tags =~= names.map_values(show));
    assert forall|i: int| 0 <= i < names.len() implies tag_names(tags)[i] == names[i] by {
        lemma_position(reg, names[i]);
    }
    assert(tag_names(tags) =~= names);
}

/// The names of what lenient validation keeps are the names that the
/// registry holds, in their order.
pub proof fn lemma_lenient_names(names: Seq<Seq<char>>, reg: Seq<EntryView>)
    ensures
        tag_names(lenient_tags(names, reg)) == names.filter(
            |n: Seq<char>| exact_tag(reg, n) is Some,
        ),
        forall|i: int|
            0 <= i < lenient_tags(names, reg).len() ==> exact_tag(
                reg,
                #[trigger] tag_names(lenient_tags(names, reg))[i],
            ) is Some,
{
    let keep = |n: Seq<char>| exact_tag(reg, n) is Some;
    let kept = names.filter(keep);
    let tags = lenient_tags(names, reg);
    assert forall|i: int| 0 <= i < kept.len() implies tag_names(tags)[i] == kept[i] && exact_tag(
        reg,
        kept[i],
    ) is Some by {
        names.lemma_filter_pred(keep, i);
        lemma_position(reg, kept[i]);
    }
    assert(tag_names(tags) =~= kept);
}

/// What lenient validation kept, it keeps: the names of a collection that
/// was stored and is loaded again against the same registry give the same
/// collection.
pub proof fn lemma_lenient_idempotent(names: Seq<Seq<char>>, reg: Seq<EntryView>)
    ensures
        lenient_tags(tag_names(lenient_tags(names, reg)), reg) == lenient_tags(names, reg),
{
    let stored = tag_names(lenient_tags(names, reg));
    lemma_lenient_names(names, reg);
    lemma_lenient_keeps_known(stored, reg);
}

/// The entry named `flag`, if the registry holds one.
pub fn get_tag<'a>(flag: &str, lookup: &'a Registry) -> (found: Option<&'a Flag>)
    ensures
        match found {
            Some(f) => crate::tags::registry::lookup(lookup@, flag@) == Some(f@),
            None => crate::tags::registry::lookup(lookup@, flag@) is None,
        },
{
    lookup.get(flag)
}

/// The tag for the entry at `i`.
pub(crate) fn tag_at(lookup: &Registry, i: usize) -> (tag: VisibleTag)
    requires
        i < lookup@.len(),
    ensures
        tag@ == visible(lookup@[i as int]),
{
    let flag = lookup.flag_at(i);
    VisibleTag {
        name: lookup.name_at(i).clone(),
        display_name: flag.display_name.clone(),
        category: flag.category.clone(),
    }
}

/// Lenient validation: keeps of `flags` the names that the registry holds,
/// each as its tag, in the order of `flags`, and drops the others.
pub fn filter_valid_tags(flags: &Vec<String>, lookup: &Registry) -> (named: Vec<VisibleTag>)
    ensures
        tag_views(named@) == lenient_tags(name_views(flags@), lookup@),
{
    let ghost names = name_views(flags@);
    let ghost reg = lookup@;
    let ghost keep = |n: Seq<char>| exact_tag(reg, n) is Some;
    let ghost show = |n: Seq<char>| exact_tag(reg, n).unwrap();
    let mut named: Vec<VisibleTag> = Vec::new();
    let mut i: usize = 0;
    proof {
        assert(names.take(0) =~= Seq::<Seq<char>>::empty());
        reveal(Seq::filter);
        assert(names.take(0).filter(keep) =~= Seq::<Seq<char>>::empty());
        assert(tag_views(named@) =~= names.take(0).filter(keep).map_values(show));
    }
    while i < flags.len()
        invariant
            i <= flags.len(),
            names == name_views(flags@),
            reg == lookup@,
            keep == (|n: Seq<char>| exact_tag(reg, n) is Some),
            show == (|n: Seq<char>| exact_tag(reg, n).unwrap()),
            tag_views(named@) == names.take(i as int).filter(keep).map_values(show),
        decreases flags.len() - i,
    {
        let ghost before = names.take(i as int);
        let ghost shown = tag_views(named@);
        proof {
            assert(names.take(i + 1) =~= before.push(names[i as int]));
            before.lemma_filter_push(names[i as int], keep);
            assert(names[i as int] == flags@[i as int]@);
        }
        match lookup.find(flags[i].as_str()) {
            Some(at) => {
                named.push(tag_at(lookup, at));
                proof {
                    assert(tag_views(named@) =~= shown.push(show(names[i as int])));
                    assert(before.filter(keep).push(names[i as int]).map_values(show)
                        =~= before.filter(keep).map_values(show).push(show(names[i as int])));
                }
            },
            None => {},
        }
        i += 1;
    }
    proof {
        assert(names.take(i as int) =~= names);
    }
    named
}

/// Strict validation: the tag of each of `names`, in the order of `names`,
/// each matched to an entry without regard to the case of its letters; or,
/// if a name matches no entry, the first such name and no tag at all.
pub fn validate_tags(names: &Vec<String>, lookup: &Registry) -> (checked: Result<
    Vec<VisibleTag>,
    UnknownTagError,
>)
    ensures
        match checked {
            Ok(tags) => strict_tags(name_views(names@), lookup@) == Ok::<
                Seq<VisibleTagView>,
                Seq<char>,
            >(tag_views(tags@)),
            Err(e) => strict_tags(name_views(names@), lookup@) == Err::<
                Seq<VisibleTagView>,
                Seq<char>,
            >(e.value@),
        },
{
    let ghost given = name_views(names@);
    let ghost reg = lookup@;
    let ghost flags = unmatched(given, reg);
    let keys = lookup.folded_names();
    let mut tags: Vec<VisibleTag> = Vec::new();
    let mut i: usize = 0;
    proof {
        flags.index_of_first_ensures(true);
    }
    while i < names.len()
        invariant
            i <= names.len(),
            given == name_views(names@),
            reg == lookup@,
            name_views(keys@) == lowercase_names(reg),
            keys.len() == reg.len(),
            flags == unmatched(given, reg),
            tags.len() == i,
            forall|j: int| 0 <= j < i ==> !flags[j],
            forall|j: int|
                0 <= j < i ==> (#[trigger] tags@[j])@ == folded_tag(reg, given[j]).unwrap(),
        decreases names.len() - i,
    {
        proof {
            assert(given[i as int] == names@[i as int]@);
        }
        let wanted = to_lowercase(names[i].as_str());
        match first_equal(&keys, wanted.as_str()) {
            Some(at) => {
                tags.push(tag_at(lookup, at));
            },
            None => {
                proof {
                    assert(flags[i as int]);
                    assert(flags.contains(true));
                    flags.index_of_first_ensures(true);
                }
                return Err(UnknownTagError { value: names[i].clone() });
            },
        }
        i += 1;
    }
    proof {
        flags.index_of_first_ensures(true);
        if flags.contains(true) {
            let j = choose|j: int| 0 <= j < flags.len() && flags[j] == true;
            assert(!flags[j]);
        }
        assert(tag_views(tags@) =~= given.map_values(
            |n: Seq<char>| folded_tag(reg, n).unwrap(),
        ));
    }
    Ok(tags)
}

} // verus!
