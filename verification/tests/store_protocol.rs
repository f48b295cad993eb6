//! The write protocol observed from outside: conflicts, vetoes, post-commit
//! failure reporting, deletion, and the hot-swappable registry.

use esrs::builder::PgStoreBuilder;
use esrs::counter::CounterEvent;
use esrs::handler::{
    AcceptAll, FailingEventBus, FailingEventHandler, NoopEventBus, NoopEventHandler, RejectAll,
    SequenceCeiling,
};
use esrs::store::{PgStore, StoreError};

type PlainStore = PgStore<CounterEvent, AcceptAll, NoopEventHandler, NoopEventBus>;

fn plain_store() -> PlainStore {
    PgStoreBuilder::<AcceptAll, NoopEventHandler, NoopEventBus>::new().try_build::<CounterEvent>()
}

#[test]
fn persist_assigns_sequence_ids_and_timestamps() {
    let mut store = plain_store();
    let outcome = store
        .persist(
            7,
            0,
            vec![CounterEvent::Incremented, CounterEvent::Decremented],
            42,
        )
        .unwrap();
    assert_eq!(outcome.events.len(), 2);
    assert_eq!(outcome.events[0].sequence_number, 1);
    assert_eq!(outcome.events[1].sequence_number, 2);
    assert_eq!(outcome.events[0].aggregate_id, 7);
    assert_eq!(outcome.events[0].occurred_at, 42);
    assert!(outcome.events[0].id != outcome.events[1].id);
    assert!(outcome.post_commit_failures.is_empty());
    assert!(outcome.publish_failures.is_empty());

    let read = store.by_aggregate_id(7);
    assert_eq!(read.len(), 2);
    assert_eq!(read[0].sequence_number, 1);
    assert_eq!(read[1].sequence_number, 2);
    assert!(matches!(read[0].payload, CounterEvent::Incremented));
    assert!(matches!(read[1].payload, CounterEvent::Decremented));
}

#[test]
fn unknown_aggregate_reads_empty() {
    let store = plain_store();
    assert!(store.by_aggregate_id(99).is_empty());
}

#[test]
fn empty_batch_commits_nothing() {
    let mut store = plain_store();
    let outcome = store.persist(7, 0, Vec::new(), 1).unwrap();
    assert!(outcome.events.is_empty());
    assert!(store.by_aggregate_id(7).is_empty());
}

#[test]
fn overlapping_writers_one_wins() {
    let mut store = plain_store();
    store.persist(7, 0, vec![CounterEvent::Incremented], 1).unwrap();
    // A second writer that also loaded the aggregate at position 0.
    let second = store.persist(7, 0, vec![CounterEvent::Incremented], 2);
    assert!(matches!(second, Err(StoreError::Conflict)));
    // No duplicate, no gap.
    let read = store.by_aggregate_id(7);
    assert_eq!(read.len(), 1);
    assert_eq!(read[0].sequence_number, 1);
}

#[test]
fn independent_aggregates_do_not_conflict() {
    let mut store = plain_store();
    store.persist(7, 0, vec![CounterEvent::Incremented], 1).unwrap();
    let other = store.persist(8, 0, vec![CounterEvent::Incremented], 1);
    assert!(other.is_ok());
    assert_eq!(store.by_aggregate_id(7).len(), 1);
    assert_eq!(store.by_aggregate_id(8).len(), 1);
}

#[test]
fn rejecting_handler_vetoes_any_write() {
    let mut store = PgStoreBuilder::<RejectAll, NoopEventHandler, NoopEventBus>::new()
        .add_transactional_event_handler(RejectAll)
        .try_build::<CounterEvent>();
    let r = store.persist(7, 0, vec![CounterEvent::Incremented], 1);
    match r {
        Err(StoreError::HandlerRejected(e)) => assert_eq!(e.reason, "rejected by policy"),
        other => panic!("expected a veto, got {:?}", other.map(|o| o.events.len())),
    }
    assert!(store.by_aggregate_id(7).is_empty());
}

#[test]
fn veto_leaves_existing_log_untouched() {
    let mut store = PgStoreBuilder::<SequenceCeiling, NoopEventHandler, NoopEventBus>::new()
        .add_transactional_event_handler(SequenceCeiling { max: 2 })
        .try_build::<CounterEvent>();
    store
        .persist(
            7,
            0,
            vec![CounterEvent::Incremented, CounterEvent::Incremented],
            1,
        )
        .unwrap();
    // The third event would carry sequence number 3, above the ceiling: the
    // whole batch is vetoed.
    let refused = store.persist(7, 2, vec![CounterEvent::Incremented], 2);
    assert!(matches!(refused, Err(StoreError::HandlerRejected(_))));
    let read = store.by_aggregate_id(7);
    assert_eq!(read.len(), 2);
    assert_eq!(read[0].sequence_number, 1);
    assert_eq!(read[1].sequence_number, 2);
}

#[test]
fn post_commit_failure_keeps_the_write() {
    let mut store = PgStoreBuilder::<AcceptAll, FailingEventHandler, NoopEventBus>::new()
        .add_event_handler(FailingEventHandler)
        .try_build::<CounterEvent>();
    let outcome = store.persist(7, 0, vec![CounterEvent::Incremented], 1).unwrap();
    assert_eq!(outcome.post_commit_failures.len(), 1);
    assert_eq!(
        outcome.post_commit_failures[0].reason,
        "post-commit handler failed"
    );
    // The committed batch stands regardless.
    assert_eq!(store.by_aggregate_id(7).len(), 1);
}

#[test]
fn bus_failure_keeps_the_write() {
    let mut store = PgStoreBuilder::<AcceptAll, NoopEventHandler, FailingEventBus>::new()
        .add_event_bus(FailingEventBus)
        .try_build::<CounterEvent>();
    let outcome = store.persist(7, 0, vec![CounterEvent::Incremented], 1).unwrap();
    assert_eq!(outcome.publish_failures.len(), 1);
    assert_eq!(outcome.publish_failures[0].reason, "event bus failed");
    assert_eq!(store.by_aggregate_id(7).len(), 1);
}

#[test]
fn delete_then_read_is_empty() {
    let mut store = plain_store();
    store
        .persist(
            7,
            0,
            vec![CounterEvent::Incremented, CounterEvent::Incremented],
            1,
        )
        .unwrap();
    store.persist(8, 0, vec![CounterEvent::Incremented], 1).unwrap();
    store.delete(7).unwrap();
    assert!(store.by_aggregate_id(7).is_empty());
    // Other aggregates keep their history.
    assert_eq!(store.by_aggregate_id(8).len(), 1);
    // A fresh history restarts at sequence number 1.
    let outcome = store.persist(7, 0, vec![CounterEvent::Decremented], 2).unwrap();
    assert_eq!(outcome.events[0].sequence_number, 1);
}

#[test]
fn hot_swapped_handlers_apply_to_the_next_write() {
    let store_builder = PgStoreBuilder::<AcceptAll, FailingEventHandler, NoopEventBus>::new();
    let mut store = store_builder.try_build::<CounterEvent>();
    let quiet = store.persist(7, 0, vec![CounterEvent::Incremented], 1).unwrap();
    assert!(quiet.post_commit_failures.is_empty());
    store.replace_event_handlers(vec![FailingEventHandler]);
    let noisy = store.persist(7, 1, vec![CounterEvent::Incremented], 2).unwrap();
    assert_eq!(noisy.post_commit_failures.len(), 1);
    assert_eq!(store.by_aggregate_id(7).len(), 2);
}

#[test]
fn point_lookup_finds_one_event_anywhere() {
    let mut store = plain_store();
    let first = store.persist(7, 0, vec![CounterEvent::Incremented], 1).unwrap();
    let second = store.persist(8, 0, vec![CounterEvent::Decremented], 2).unwrap();
    let a = store.event_by_id(first.events[0].id).unwrap();
    assert_eq!(a.aggregate_id, 7);
    assert!(matches!(a.payload, CounterEvent::Incremented));
    let b = store.event_by_id(second.events[0].id).unwrap();
    assert_eq!(b.aggregate_id, 8);
    assert!(matches!(b.payload, CounterEvent::Decremented));
    assert!(store.event_by_id(123456).is_none());
}

#[test]
fn builder_records_registries_and_migrations() {
    let builder = PgStoreBuilder::<AcceptAll, NoopEventHandler, NoopEventBus>::new()
        .add_transactional_event_handler(AcceptAll)
        .add_event_handler(NoopEventHandler)
        .add_event_bus(NoopEventBus);
    assert_eq!(builder.transactional_event_handlers.len(), 1);
    assert_eq!(builder.event_handlers.len(), 1);
    assert_eq!(builder.event_buses.len(), 1);
    let store = builder.try_build::<CounterEvent>();
    assert!(store.migrations_run);

    let unmanaged = PgStoreBuilder::<AcceptAll, NoopEventHandler, NoopEventBus>::new()
        .without_running_migrations()
        .try_build::<CounterEvent>();
    assert!(!unmanaged.migrations_run);
}
