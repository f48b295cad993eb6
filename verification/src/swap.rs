//! The hot-swappable registry slot: an atomically replaceable, immutable
//! snapshot of a handler list. Readers take one snapshot at the start of a
//! dispatch and use it throughout; writers install a whole new list through a
//! shared reference, so runtime reconfiguration never tears an in-flight
//! dispatch.
//!
//! The slot is backed by `arc_swap::ArcSwap`, which Verus cannot look into,
//! so the whole struct is opaque. Because another thread may replace the list
//! between any two loads, no contract can pin what a load returns; callers
//! state what holds of every snapshot instead.

use vstd::prelude::*;

use std::sync::Arc;

verus! {

/// An atomic slot holding an `Arc`'d list of handlers.
#[verifier::external_body]
#[verifier::reject_recursive_types(H)]
pub struct SwapSlot<H> {
    inner: arc_swap::ArcSwap<Vec<H>>,
}

impl<H> SwapSlot<H> {
    /// Relies on `arc_swap::ArcSwap::from_pointee`: stores `Arc::new(handlers)`
    /// as the slot's current value.
    #[verifier::external_body]
    pub fn new(handlers: Vec<H>) -> (r: Self) {
        SwapSlot { inner: arc_swap::ArcSwap::from_pointee(handlers) }
    }

    /// Relies on `arc_swap::ArcSwapAny::load_full`: returns a clone of the
    /// most recently stored `Arc`. Which store that is cannot be promised
    /// here: a concurrent writer may replace the list at any moment.
    #[verifier::external_body]
    pub fn load(&self) -> (r: Arc<Vec<H>>) {
        self.inner.load_full()
    }

    /// Relies on `arc_swap::ArcSwapAny::store`: atomically replaces the whole
    /// list; snapshots already loaded are unaffected.
    #[verifier::external_body]
    pub fn replace(&self, handlers: Vec<H>) {
        self.inner.store(Arc::new(handlers))
    }
}

} // verus!
