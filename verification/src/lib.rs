//! A hot-swappable catalog of tags: a registry of named flags, a store that
//! publishes whole registries to readers, codecs between bitmasks, tag names
//! and validated tags, and the value types that travel with them.

pub mod bitmask;
pub mod decimal;
pub mod payload;
pub mod tags;
pub mod text;
pub mod types;
