//! A minimal counting aggregate: the worked example the store and manager
//! are exercised with.

use vstd::prelude::*;

use crate::aggregate::Aggregate;
use crate::event::EventPayload;

verus! {

/// What happened to the counter.
#[derive(Clone, Copy, Debug, PartialEq, Eq, Structural)]
pub enum CounterEvent {
    Incremented,
    Decremented,
}

impl EventPayload for CounterEvent {
    fn replicate(&self) -> (r: Self) {
        *self
    }
}

/// What the counter is asked to do.
#[derive(Clone, Copy, Debug, PartialEq, Eq, Structural)]
pub enum CounterCommand {
    Increment,
    Decrement,
}

/// Why the counter refused a command.
#[derive(Clone, Copy, Debug, PartialEq, Eq, Structural)]
pub enum CounterError {
    WouldGoNegative,
}

/// The counter: its state is the running value; incrementing adds one,
/// decrementing subtracts one (saturating at the extremes of the machine
/// type), and a decrement below zero is refused at decision time.
pub struct CounterAggregate;

impl Aggregate for CounterAggregate {
    type State = i64;

    type Command = CounterCommand;

    type Event = CounterEvent;

    type Error = CounterError;

    open spec fn initial_spec() -> i64 {
        0
    }

    open spec fn decide_spec(state: i64, command: CounterCommand) -> Result<
        Seq<CounterEvent>,
        CounterError,
    > {
        match command {
            CounterCommand::Increment => Ok(seq![CounterEvent::Incremented]),
            CounterCommand::Decrement => if state <= 0 {
                Err(CounterError::WouldGoNegative)
            } else {
                Ok(seq![CounterEvent::Decremented])
            },
        }
    }

    open spec fn fold_spec(state: i64, event: CounterEvent) -> i64 {
        match event {
            CounterEvent::Incremented => if state < i64::MAX {
                (state + 1) as i64
            } else {
                state
            },
            CounterEvent::Decremented => if state > i64::MIN {
                (state - 1) as i64
            } else {
                state
            },
        }
    }

    fn name() -> (r: String) {
        "counter".to_owned()
    }

    fn initial() -> (r: i64) {
        0
    }

    fn decide(state: &i64, command: &CounterCommand) -> (r: Result<Vec<CounterEvent>, CounterError>) {
        match command {
            CounterCommand::Increment => {
                let events = vec![CounterEvent::Incremented];
                proof {
                    assert(events@ =~= seq![CounterEvent::Incremented]);
                }
                Ok(events)
            },
            CounterCommand::Decrement => {
                if *state <= 0 {
                    Err(CounterError::WouldGoNegative)
                } else {
                    let events = vec![CounterEvent::Decremented];
                    proof {
                        assert(events@ =~= seq![CounterEvent::Decremented]);
                    }
                    Ok(events)
                }
            },
        }
    }

    fn fold(state: &i64, event: &CounterEvent) -> (r: i64) {
        match event {
            CounterEvent::Incremented => if *state < i64::MAX {
                *state + 1
            } else {
                *state
            },
            CounterEvent::Decremented => if *state > i64::MIN {
                *state - 1
            } else {
                *state
            },
        }
    }
}

} // verus!
