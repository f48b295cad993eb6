//! The orchestration layer: load state by replay, let the aggregate decide,
//! delegate the write to the store, fold the committed batch back into the
//! state. It has no state of its own.

use vstd::prelude::*;

use crate::aggregate::{lemma_replay_push, replay, Aggregate};
use crate::event::{AggregateState, StoreEvent};
use crate::handler::{EventBus, EventHandler, TransactionalEventHandler};
use crate::store::{all_accept, last_sequence, PgStore, StoreError};

verus! {

/// Why a command did not go through.
#[derive(Debug)]
pub enum CommandError<DE> {
    /// The aggregate's own decision logic refused the command; nothing was
    /// persisted.
    Domain(DE),
    /// The store refused the write (see [`StoreError`]); nothing was
    /// persisted.
    Store(StoreError),
}

/// A refused command: the caller's state handed back unchanged, together
/// with the error.
#[derive(Debug)]
pub struct CommandRejected<S, DE> {
    pub state: AggregateState<S>,
    pub error: CommandError<DE>,
}

/// The payloads of a stored history, in order.
pub open spec fn payloads_of<E>(events: Seq<StoreEvent<E>>) -> Seq<E> {
    events.map_values(|ev: StoreEvent<E>| ev.payload)
}

/// Orchestrates commands for one aggregate against one store.
#[verifier::reject_recursive_types(PH)]
pub struct AggregateManager<A: Aggregate, TH, PH, B> {
    pub store: PgStore<A::Event, TH, PH, B>,
}

impl<
    A: Aggregate,
    TH: TransactionalEventHandler<A::Event>,
    PH: EventHandler<A::Event>,
    B: EventBus<A::Event>,
> AggregateManager<A, TH, PH, B> {
    pub fn new(store: PgStore<A::Event, TH, PH, B>) -> (r: Self)
        ensures
            r.store == store,
    {
        AggregateManager { store }
    }

    /// Loads an aggregate: fresh (`sequence_number` 0, initial state) for an
    /// unknown id, otherwise rebuilt by replaying all its events in
    /// ascending sequence order.
    #[verifier::loop_isolation(false)]
    pub fn load(&self, aggregate_id: u128) -> (r: AggregateState<A::State>)
        requires
            self.store.wf(),
        ensures
            r.id == aggregate_id,
            r.sequence_number == last_sequence(self.store.events_of(aggregate_id)),
            r.inner == replay::<A>(
                A::initial_spec(),
                payloads_of(self.store.events_of(aggregate_id)),
            ),
    {
        let events = self.store.by_aggregate_id(aggregate_id);
        let ghost hist = payloads_of(events@);
        let mut inner = A::initial();
        let mut k: usize = 0;
        while k < events.len()
            invariant
                k <= events@.len(),
                inner == replay::<A>(A::initial_spec(), hist.take(k as int)),
            decreases events@.len() - k,
        {
            let ev = &events[k];
            inner = A::fold(&inner, &ev.payload);
            proof {
                assert(hist[k as int] == events@[k as int].payload);
                assert(hist.take(k as int + 1) =~= hist.take(k as int).push(hist[k as int]));
                lemma_replay_push::<A>(A::initial_spec(), hist.take(k as int), hist[k as int]);
            }
            k += 1;
        }
        proof {
            assert(hist.take(events@.len() as int) =~= hist);
        }
        let sequence_number: u64 = if events.len() == 0 {
            0
        } else {
            events[events.len() - 1].sequence_number
        };
        AggregateState { id: aggregate_id, sequence_number, inner }
    }

    /// Orchestrates one command. The aggregate decides; on success the store
    /// persists the decided events from the state's position, and the new
    /// state is the old one with the committed batch folded in and its
    /// sequence number advanced to the batch's last. On a domain error or a
    /// refused write, nothing is persisted and the caller's state comes back
    /// unchanged beside the error.
    #[verifier::loop_isolation(false)]
    pub fn handle_command(
        &mut self,
        state: AggregateState<A::State>,
        command: &A::Command,
        now: u64,
    ) -> (r: Result<AggregateState<A::State>, CommandRejected<A::State, A::Error>>)
        requires
            old(self).store.wf(),
            A::decide_spec(state.inner, *command) matches Ok(evs) ==> state.sequence_number as int
                + evs.len() <= u64::MAX as int && old(self).store.id_bound() as int + evs.len()
                <= u128::MAX as int,
        ensures
            final(self).store.wf(),
            final(self).store.txn_handlers() == old(self).store.txn_handlers(),
            final(self).store.post_commit_slot() == old(self).store.post_commit_slot(),
            final(self).store.buses() == old(self).store.buses(),
            final(self).store.migrations_were_run() == old(self).store.migrations_were_run(),
            match r {
                Ok(new_state) => {
                    &&& A::decide_spec(state.inner, *command) matches Ok(evs)
                    &&& !old(self).store.would_conflict(state.id, state.sequence_number, evs.len())
                    &&& all_accept(
                        old(self).store.txn_handlers(),
                        old(self).store.assigned_batch(state.id, state.sequence_number, evs, now),
                    )
                    &&& new_state.id == state.id
                    &&& new_state.sequence_number == state.sequence_number + evs.len()
                    &&& new_state.inner == replay::<A>(state.inner, evs)
                    &&& final(self).store.events_of(state.id) == old(self).store.events_of(
                        state.id,
                    ) + old(self).store.assigned_batch(
                        state.id,
                        state.sequence_number,
                        evs,
                        now,
                    )
                    &&& forall|qid: u128|
                        qid != state.id ==> final(self).store.events_of(qid) == old(
                            self,
                        ).store.events_of(qid)
                },
                Err(rejected) => {
                    &&& rejected.state == state
                    &&& *final(self) == *old(self)
                    &&& match rejected.error {
                        CommandError::Domain(e) => A::decide_spec(state.inner, *command)
                            matches Err(e2) && e == e2,
                        CommandError::Store(StoreError::Conflict) => {
                            &&& A::decide_spec(state.inner, *command) matches Ok(evs)
                            &&& old(self).store.would_conflict(
                                state.id,
                                state.sequence_number,
                                evs.len(),
                            )
                        },
                        CommandError::Store(StoreError::HandlerRejected(_)) => {
                            &&& A::decide_spec(state.inner, *command) matches Ok(evs)
                            &&& !old(self).store.would_conflict(
                                state.id,
                                state.sequence_number,
                                evs.len(),
                            )
                            &&& !all_accept(
                                old(self).store.txn_handlers(),
                                old(self).store.assigned_batch(
                                    state.id,
                                    state.sequence_number,
                                    evs,
                                    now,
                                ),
                            )
                        },
                        CommandError::Store(StoreError::Storage(_)) => false,
                        CommandError::Store(StoreError::Codec(_)) => false,
                    }
                },
            },
    {
        let AggregateState { id, sequence_number, inner } = state;
        let ghost state0 = state;
        match A::decide(&inner, command) {
            Err(e) => Err(
                CommandRejected {
                    state: AggregateState { id, sequence_number, inner },
                    error: CommandError::Domain(e),
                },
            ),
            Ok(events) => {
                let ghost evs = events@;
                match self.store.persist(id, sequence_number, events, now) {
                    Err(se) => Err(
                        CommandRejected {
                            state: AggregateState { id, sequence_number, inner },
                            error: CommandError::Store(se),
                        },
                    ),
                    Ok(outcome) => {
                        let batch = outcome.events;
                        let ghost batch_g = batch@;
                        proof {
                            assert forall|t: int| 0 <= t < batch_g.len() implies (
                            #[trigger] batch_g[t]).payload == evs[t] by {}
                        }
                        let mut folded = inner;
                        let mut t: usize = 0;
                        while t < batch.len()
                            invariant
                                t <= batch@.len(),
                                batch@ == batch_g,
                                folded == replay::<A>(state0.inner, evs.take(t as int)),
                            decreases batch@.len() - t,
                        {
                            let ev = &batch[t];
                            folded = A::fold(&folded, &ev.payload);
                            proof {
                                assert(evs.take(t as int + 1) =~= evs.take(t as int).push(
                                    evs[t as int],
                                ));
                                lemma_replay_push::<A>(state0.inner, evs.take(t as int), evs[
                                    t as int]);
                            }
                            t += 1;
                        }
                        proof {
                            assert(evs.take(evs.len() as int) =~= evs);
                        }
                        Ok(
                            AggregateState {
                                id,
                                sequence_number: sequence_number + (batch.len() as u64),
                                inner: folded,
                            },
                        )
                    },
                }
            },
        }
    }
}

} // verus!
