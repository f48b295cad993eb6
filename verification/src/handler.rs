//! The three reactive collaborator contracts the store dispatches to, the
//! error value they report with, and a few ready-made handlers.

use vstd::prelude::*;

use crate::event::StoreEvent;

verus! {

/// The error a reactive collaborator reports with. A transactional handler's
/// error vetoes the write; a post-commit handler's or bus's error is only
/// reported.
#[derive(Debug)]
pub struct HandlerError {
    pub reason: String,
}

/// A reactive component that runs inside the write transaction, in
/// registration order, and can veto persistence by failing. Whether it
/// accepts an event is fixed by the `accepts` spec function, so the store can
/// say exactly when a write commits.
pub trait TransactionalEventHandler<E> {
    spec fn accepts(&self, event: StoreEvent<E>) -> bool;

    fn handle(&self, event: &StoreEvent<E>) -> (r: Result<(), HandlerError>)
        ensures
            r is Ok <==> self.accepts(*event),
    ;
}

/// A reactive component that runs only after the write is durable. Its
/// outcome is reported to the caller and never rolls anything back, so
/// nothing is demanded of it.
pub trait EventHandler<E> {
    fn handle(&self, event: &StoreEvent<E>) -> Result<(), HandlerError>;
}

/// Publication of a committed batch to outside subscribers. As with
/// [`EventHandler`], failures are reported, never propagated to the log.
pub trait EventBus<E> {
    fn publish(&self, events: &Vec<StoreEvent<E>>) -> Result<(), HandlerError>;
}

/// A transactional handler that accepts every event.
pub struct AcceptAll;

impl<E> TransactionalEventHandler<E> for AcceptAll {
    open spec fn accepts(&self, event: StoreEvent<E>) -> bool {
        true
    }

    fn handle(&self, event: &StoreEvent<E>) -> (r: Result<(), HandlerError>) {
        Ok(())
    }
}

/// A transactional handler that vetoes every event.
pub struct RejectAll;

impl<E> TransactionalEventHandler<E> for RejectAll {
    open spec fn accepts(&self, event: StoreEvent<E>) -> bool {
        false
    }

    fn handle(&self, event: &StoreEvent<E>) -> (r: Result<(), HandlerError>) {
        Err(HandlerError { reason: "rejected by policy".to_owned() })
    }
}

/// A transactional handler that accepts an event while its sequence number
/// stays at or below a ceiling, and vetoes it above: a small quota rule,
/// useful wherever a write must be refusable after some history exists.
pub struct SequenceCeiling {
    pub max: u64,
}

impl<E> TransactionalEventHandler<E> for SequenceCeiling {
    open spec fn accepts(&self, event: StoreEvent<E>) -> bool {
        event.sequence_number <= self.max
    }

    fn handle(&self, event: &StoreEvent<E>) -> (r: Result<(), HandlerError>) {
        if event.sequence_number <= self.max {
            Ok(())
        } else {
            Err(HandlerError { reason: "sequence ceiling exceeded".to_owned() })
        }
    }
}

/// A post-commit handler that succeeds silently.
pub struct NoopEventHandler;

impl<E> EventHandler<E> for NoopEventHandler {
    fn handle(&self, event: &StoreEvent<E>) -> Result<(), HandlerError> {
        Ok(())
    }
}

/// A post-commit handler that always fails; its failures are reported to the
/// caller while the committed write stands.
pub struct FailingEventHandler;

impl<E> EventHandler<E> for FailingEventHandler {
    fn handle(&self, event: &StoreEvent<E>) -> Result<(), HandlerError> {
        Err(HandlerError { reason: "post-commit handler failed".to_owned() })
    }
}

/// An event bus that accepts every batch.
pub struct NoopEventBus;

impl<E> EventBus<E> for NoopEventBus {
    fn publish(&self, events: &Vec<StoreEvent<E>>) -> Result<(), HandlerError> {
        Ok(())
    }
}

/// An event bus that always fails; its failures are reported to the caller
/// while the committed write stands.
pub struct FailingEventBus;

impl<E> EventBus<E> for FailingEventBus {
    fn publish(&self, events: &Vec<StoreEvent<E>>) -> Result<(), HandlerError> {
        Err(HandlerError { reason: "event bus failed".to_owned() })
    }
}

} // verus!
