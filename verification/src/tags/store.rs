//! The registry store: the one place from which readers take the registry
//! in force, and into which a new registry is published whole.

use crate::bitmask::Bitmask;
use crate::tags::codec::{decode, encode};
use crate::tags::registry::{ascending, EntryView, Registry};
use crate::text::name_views;
use arc_swap::ArcSwap;
use std::sync::Arc;
use vstd::prelude::*;

verus! {

/// The store of the registry in force. Readers take a snapshot with
/// `current`; a writer replaces the registry whole with `publish`. Neither
/// waits for the other. The store holds an `arc_swap::ArcSwap`, a slot for
/// one shared pointer that many threads read and replace without a lock. It
/// is opaque to the verifier: what it holds at any time depends on every
/// thread that publishes.
#[verifier::external_body]
pub struct RegistryStore {
    slot: ArcSwap<Registry>,
}

/// `ArcSwap::new` of the crate `arc-swap`: a store whose slot holds `first`.
/// Trusted: the store was made with `first`. Nothing is claimed of later.
#[verifier::external_body]
fn slot_with(first: Arc<Registry>) -> (store: RegistryStore)
    ensures
        made_with(store) == first@,
{
    RegistryStore { slot: ArcSwap::new(first) }
}

/// `ArcSwapAny::store` of the crate `arc-swap`: puts `next` in the slot.
/// Nothing is claimed of the slot afterwards: other threads may write it.
#[verifier::external_body]
fn slot_store(store: &RegistryStore, next: Arc<Registry>) {
    store.slot.store(next)
}

/// `ArcSwapAny::load_full` of the crate `arc-swap`: a pointer to what the
/// slot holds at the time of the call. Nothing is claimed of which registry
/// that is, since other threads may publish at any time.
#[verifier::external_body]
fn slot_load(store: &RegistryStore) -> Arc<Registry> {
    store.slot.load_full()
}

impl RegistryStore {
    /// A store made with the registry without entries. What it holds later
    /// is for `publish` to decide, and no contract speaks of it.
    pub fn new() -> (store: RegistryStore)
        ensures
            made_with(store) == Seq::<EntryView>::empty(),
    {
        slot_with(Arc::new(Registry::new()))
    }

    /// Puts `new_registry` in force, whole. A snapshot taken before stays
    /// as it was.
    pub fn publish(&self, new_registry: Registry) {
        slot_store(self, Arc::new(new_registry))
    }

    /// A snapshot of the registry in force: one whole registry, as it was
    /// published, which no later `publish` changes.
    pub fn current(&self) -> (snapshot: Arc<Registry>)
        ensures
            ascending(snapshot@),
    {
        let snapshot = slot_load(self);
        let n: usize = snapshot.len();
        snapshot
    }
}

/// The registry that a store was made with. It says nothing of what the
/// store holds at any later time.
pub uninterp spec fn made_with(store: RegistryStore) -> Seq<EntryView>;

/// What a reader makes of a snapshot that it holds does not change while
/// it holds it: two decodings of one mask against one snapshot name the
/// same tags, and two encodings of the same names give the same bits,
/// whatever was published in between.
pub proof fn lemma_snapshot_reads_alike(
    snapshot: &Registry,
    mask: &Bitmask,
    names: &Vec<String>,
    decoded_before: Vec<String>,
    decoded_after: Vec<String>,
    encoded_before: Bitmask,
    encoded_after: Bitmask,
)
    requires
        call_ensures(decode, (mask, snapshot), decoded_before),
        call_ensures(decode, (mask, snapshot), decoded_after),
        call_ensures(encode, (names, snapshot), encoded_before),
        call_ensures(encode, (names, snapshot), encoded_after),
    ensures
        name_views(decoded_before@) == name_views(decoded_after@),
        encoded_before@ == encoded_after@,
{
}

} // verus!
