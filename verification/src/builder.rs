//! Construction of a [`PgStore`]: the registries are collected here and
//! fixed when the store is built.

use vstd::prelude::*;

use crate::event::StoreEvent;
use crate::store::{events_in, PgStore};
use crate::swap::SwapSlot;

verus! {

/// Builds a brand new [`PgStore`]: gathers the transactional handlers, the
/// post-commit handlers and the event buses, and records whether
/// construction should ensure the schema (the idempotent bootstrap step) or
/// leave that to an externally managed environment.
pub struct PgStoreBuilder<TH, PH, B> {
    pub transactional_event_handlers: Vec<TH>,
    pub event_handlers: Vec<PH>,
    pub event_buses: Vec<B>,
    pub run_migrations: bool,
}

impl<TH, PH, B> PgStoreBuilder<TH, PH, B> {
    /// A builder with empty registries; migrations run unless opted out.
    pub fn new() -> (r: Self)
        ensures
            r.transactional_event_handlers@ == Seq::<TH>::empty(),
            r.event_handlers@ == Seq::<PH>::empty(),
            r.event_buses@ == Seq::<B>::empty(),
            r.run_migrations,
    {
        PgStoreBuilder {
            transactional_event_handlers: Vec::new(),
            event_handlers: Vec::new(),
            event_buses: Vec::new(),
            run_migrations: true,
        }
    }

    /// Set the post-commit handler list.
    pub fn with_event_handlers(self, event_handlers: Vec<PH>) -> (r: Self)
        ensures
            r.event_handlers == event_handlers,
            r.transactional_event_handlers == self.transactional_event_handlers,
            r.event_buses == self.event_buses,
            r.run_migrations == self.run_migrations,
    {
        PgStoreBuilder { event_handlers, ..self }
    }

    /// Add a single post-commit handler.
    pub fn add_event_handler(self, event_handler: PH) -> (r: Self)
        ensures
            r.event_handlers@ == self.event_handlers@.push(event_handler),
            r.transactional_event_handlers == self.transactional_event_handlers,
            r.event_buses == self.event_buses,
            r.run_migrations == self.run_migrations,
    {
        let mut event_handlers = self.event_handlers;
        event_handlers.push(event_handler);
        PgStoreBuilder {
            transactional_event_handlers: self.transactional_event_handlers,
            event_handlers,
            event_buses: self.event_buses,
            run_migrations: self.run_migrations,
        }
    }

    /// Set the transactional handler list.
    pub fn with_transactional_event_handlers(self, transactional_event_handlers: Vec<TH>) -> (r:
        Self)
        ensures
            r.transactional_event_handlers == transactional_event_handlers,
            r.event_handlers == self.event_handlers,
            r.event_buses == self.event_buses,
            r.run_migrations == self.run_migrations,
    {
        PgStoreBuilder { transactional_event_handlers, ..self }
    }

    /// Add a single transactional handler.
    pub fn add_transactional_event_handler(self, transactional_event_handler: TH) -> (r: Self)
        ensures
            r.transactional_event_handlers@ == self.transactional_event_handlers@.push(
                transactional_event_handler,
            ),
            r.event_handlers == self.event_handlers,
            r.event_buses == self.event_buses,
            r.run_migrations == self.run_migrations,
    {
        let mut transactional_event_handlers = self.transactional_event_handlers;
        transactional_event_handlers.push(transactional_event_handler);
        PgStoreBuilder {
            transactional_event_handlers,
            event_handlers: self.event_handlers,
            event_buses: self.event_buses,
            run_migrations: self.run_migrations,
        }
    }

    /// Set the event bus list.
    pub fn with_event_buses(self, event_buses: Vec<B>) -> (r: Self)
        ensures
            r.event_buses == event_buses,
            r.transactional_event_handlers == self.transactional_event_handlers,
            r.event_handlers == self.event_handlers,
            r.run_migrations == self.run_migrations,
    {
        PgStoreBuilder { event_buses, ..self }
    }

    /// Add a single event bus.
    pub fn add_event_bus(self, event_bus: B) -> (r: Self)
        ensures
            r.event_buses@ == self.event_buses@.push(event_bus),
            r.transactional_event_handlers == self.transactional_event_handlers,
            r.event_handlers == self.event_handlers,
            r.run_migrations == self.run_migrations,
    {
        let mut event_buses = self.event_buses;
        event_buses.push(event_bus);
        PgStoreBuilder {
            transactional_event_handlers: self.transactional_event_handlers,
            event_handlers: self.event_handlers,
            event_buses,
            run_migrations: self.run_migrations,
        }
    }

    /// Skip the schema bootstrap. Meant for environments that manage the
    /// schema externally; it is recommended to run it at least once per
    /// store per startup.
    pub fn without_running_migrations(self) -> (r: Self)
        ensures
            !r.run_migrations,
            r.transactional_event_handlers == self.transactional_event_handlers,
            r.event_handlers == self.event_handlers,
            r.event_buses == self.event_buses,
    {
        PgStoreBuilder { run_migrations: false, ..self }
    }

    /// Builds the store: an empty log, the registries as configured, and the
    /// schema ensured (idempotently) unless opted out. The in-memory log has
    /// no schema to create, so the bootstrap cannot fail here; the flag is
    /// recorded for storage adapters that do run DDL. Meant to be called
    /// once at application startup.
    pub fn try_build<E>(self) -> (r: PgStore<E, TH, PH, B>)
        ensures
            r.wf(),
            forall|id: u128| r.events_of(id) == Seq::<StoreEvent<E>>::empty(),
            r.txn_handlers() == self.transactional_event_handlers@,
            r.buses() == self.event_buses@,
            r.id_bound() == 0,
            r.migrations_were_run() == self.run_migrations,
    {
        let store = PgStore {
            entries: Vec::new(),
            next_event_id: 0,
            transactional_event_handlers: self.transactional_event_handlers,
            event_handlers: SwapSlot::new(self.event_handlers),
            event_buses: self.event_buses,
            migrations_run: self.run_migrations,
        };
        proof {
            assert forall|id: u128| events_in(store.entries@, id) == Seq::<StoreEvent<E>>::empty()
            by {
                assert(store.entries@.len() == 0);
            }
        }
        store
    }
}

} // verus!
