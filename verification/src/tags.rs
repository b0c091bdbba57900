//! Tags: the catalog entries, the registry that holds them, the store that
//! publishes registries, and the codecs and collections built on them.

pub mod bots;
pub mod codec;
pub mod handler;
pub mod packs;
pub mod registry;
pub mod store;

pub use bots::BotTags;
pub use packs::PackTags;
pub use handler::{
    filter_valid_tags, get_tag, validate_tags, Flag, FlagView, MalformedPayloadError, TagError,
    UnknownTagError, VisibleTag, VisibleTagView,
};
pub use registry::{EntryView, Registry};

use crate::text::name_views;
use vstd::prelude::*;

verus! {

/// What can be turned into the clauses of a search filter.
pub trait IntoFilter {
    /// The clauses that the value turns into.
    spec fn filter_clauses(&self) -> Seq<Seq<char>>;

    /// The clauses of a search filter that match what the value holds.
    fn into_filter(self) -> (clauses: Vec<String>) where Self: Sized
        ensures
            name_views(clauses@) == self.filter_clauses(),
    ;
}

} // verus!
