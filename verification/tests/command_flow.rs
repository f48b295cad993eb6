//! The manager's command flow: replay on load, decision, persistence, fold.

use esrs::aggregate::Aggregate;
use esrs::builder::PgStoreBuilder;
use esrs::counter::{CounterAggregate, CounterCommand, CounterError, CounterEvent};
use esrs::handler::{AcceptAll, NoopEventBus, NoopEventHandler, RejectAll};
use esrs::manager::{AggregateManager, CommandError};
use esrs::store::StoreError;

type Manager = AggregateManager<CounterAggregate, AcceptAll, NoopEventHandler, NoopEventBus>;

fn manager() -> Manager {
    let store =
        PgStoreBuilder::<AcceptAll, NoopEventHandler, NoopEventBus>::new().try_build::<CounterEvent>();
    AggregateManager::new(store)
}

#[test]
fn aggregate_name_is_stable() {
    assert_eq!(CounterAggregate::name(), "counter");
}

#[test]
fn fresh_load_is_initial() {
    let mgr = manager();
    let state = mgr.load(7);
    assert_eq!(state.id, 7);
    assert_eq!(state.sequence_number, 0);
    assert_eq!(state.inner, 0);
}

#[test]
fn increment_then_decrement_returns_to_zero() {
    let mut mgr = manager();
    let state = mgr.load(7);
    let state = mgr.handle_command(state, &CounterCommand::Increment, 1).unwrap();
    assert_eq!(state.sequence_number, 1);
    assert_eq!(state.inner, 1);
    let state = mgr.handle_command(state, &CounterCommand::Decrement, 2).unwrap();
    assert_eq!(state.sequence_number, 2);
    assert_eq!(state.inner, 0);
    let stored = mgr.store.by_aggregate_id(7);
    assert_eq!(stored.len(), 2);
    assert_eq!(stored[0].sequence_number, 1);
    assert_eq!(stored[1].sequence_number, 2);
    assert!(matches!(stored[0].payload, CounterEvent::Incremented));
    assert!(matches!(stored[1].payload, CounterEvent::Decremented));
}

#[test]
fn replay_matches_incremental_state() {
    let mut mgr = manager();
    let mut state = mgr.load(7);
    for step in 0..5u64 {
        state = mgr.handle_command(state, &CounterCommand::Increment, step).unwrap();
    }
    state = mgr.handle_command(state, &CounterCommand::Decrement, 9).unwrap();
    // A second reader rebuilds the same state from the full history alone.
    let replayed = mgr.load(7);
    assert_eq!(replayed.sequence_number, state.sequence_number);
    assert_eq!(replayed.inner, state.inner);
    assert_eq!(replayed.inner, 4);
}

#[test]
fn two_callers_at_the_same_position_race() {
    let mut mgr = manager();
    let mut state = mgr.load(7);
    for step in 0..5u64 {
        state = mgr.handle_command(state, &CounterCommand::Increment, step).unwrap();
    }
    let first = mgr.load(7);
    let second = mgr.load(7);
    assert_eq!(first.sequence_number, 5);
    assert_eq!(second.sequence_number, 5);
    let winner = mgr.handle_command(first, &CounterCommand::Increment, 10).unwrap();
    assert_eq!(winner.sequence_number, 6);
    let loser = mgr.handle_command(second, &CounterCommand::Increment, 11);
    match loser {
        Err(rejected) => {
            assert!(matches!(
                rejected.error,
                CommandError::Store(StoreError::Conflict)
            ));
            // The loser's state comes back unchanged: reload and retry.
            assert_eq!(rejected.state.sequence_number, 5);
        }
        Ok(_) => panic!("both writers succeeded from the same position"),
    }
    let stored = mgr.store.by_aggregate_id(7);
    assert_eq!(stored.len(), 6);
    for (k, ev) in stored.iter().enumerate() {
        assert_eq!(ev.sequence_number, k as u64 + 1);
    }
}

#[test]
fn domain_error_persists_nothing() {
    let mut mgr = manager();
    let state = mgr.load(7);
    let refused = mgr.handle_command(state, &CounterCommand::Decrement, 1);
    match refused {
        Err(rejected) => {
            assert!(matches!(
                rejected.error,
                CommandError::Domain(CounterError::WouldGoNegative)
            ));
            assert_eq!(rejected.state.sequence_number, 0);
            assert_eq!(rejected.state.inner, 0);
        }
        Ok(_) => panic!("decrement below zero went through"),
    }
    assert!(mgr.store.by_aggregate_id(7).is_empty());
}

#[test]
fn vetoed_command_reports_handler_rejected() {
    let store = PgStoreBuilder::<RejectAll, NoopEventHandler, NoopEventBus>::new()
        .add_transactional_event_handler(RejectAll)
        .try_build::<CounterEvent>();
    let mut mgr: AggregateManager<CounterAggregate, RejectAll, NoopEventHandler, NoopEventBus> =
        AggregateManager::new(store);
    let state = mgr.load(7);
    let refused = mgr.handle_command(state, &CounterCommand::Increment, 1);
    match refused {
        Err(rejected) => assert!(matches!(
            rejected.error,
            CommandError::Store(StoreError::HandlerRejected(_))
        )),
        Ok(_) => panic!("vetoed command went through"),
    }
    assert!(mgr.store.by_aggregate_id(7).is_empty());
}
