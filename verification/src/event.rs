//! The event envelope and the aggregate-state value that the store and the
//! manager exchange.

use vstd::prelude::*;

verus! {

/// An event payload must be duplicable value-for-value: the store keeps one
/// copy in the log and hands one back to the caller. `replicate` plays the
/// role that a cloning bound plays elsewhere, with the guarantee written down.
pub trait EventPayload: Sized {
    fn replicate(&self) -> (r: Self)
        ensures
            r == *self,
    ;
}

/// A persisted event: its globally unique identity, the aggregate that owns
/// it, the domain payload, a timestamp supplied by the caller at the write,
/// and its position in the owning aggregate's log.
///
/// `(aggregate_id, sequence_number)` is unique in any well-formed store; that
/// pair is the optimistic-concurrency key.
pub struct StoreEvent<E> {
    pub id: u128,
    pub aggregate_id: u128,
    pub payload: E,
    pub occurred_at: u64,
    pub sequence_number: u64,
}

impl<E: EventPayload> StoreEvent<E> {
    /// An exact copy of the envelope.
    pub fn replicate(&self) -> (r: Self)
        ensures
            r == *self,
    {
        StoreEvent {
            id: self.id,
            aggregate_id: self.aggregate_id,
            payload: self.payload.replicate(),
            occurred_at: self.occurred_at,
            sequence_number: self.sequence_number,
        }
    }
}

/// An aggregate identity together with the position of the last event folded
/// into `inner`. `sequence_number` is 0 before any event exists.
#[derive(Debug)]
pub struct AggregateState<S> {
    pub id: u128,
    pub sequence_number: u64,
    pub inner: S,
}

} // verus!
