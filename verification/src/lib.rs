//! An event-sourcing storage core: immutable, ordered event logs kept per
//! aggregate, state rebuilt by replaying those logs, and a transactional
//! write protocol that coordinates reactive handlers under optimistic
//! concurrency.

pub mod aggregate;
pub mod builder;
pub mod counter;
pub mod event;
pub mod handler;
pub mod manager;
pub mod store;
pub mod swap;
