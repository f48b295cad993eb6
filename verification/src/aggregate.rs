//! The aggregate contract: pure decision and fold logic, supplied per domain
//! concept, with its behaviour pinned by spec functions so that replay can be
//! reasoned about.

use vstd::prelude::*;

use crate::event::EventPayload;

verus! {

/// A bounded consistency unit: a name (the log's partition key), a state, and
/// pure `decide` / `fold` operations. Both operations are deterministic and
/// free of side effects; every implementation fixes them by the two spec
/// functions, so everything the store and manager prove holds of every
/// implementation.
pub trait Aggregate {
    type State;

    type Command;

    type Event: EventPayload;

    type Error;

    /// The state of an aggregate that has no history yet.
    spec fn initial_spec() -> Self::State;

    /// What `decide` returns: either the events that the command gives rise
    /// to, or the domain error that rejects it.
    spec fn decide_spec(state: Self::State, command: Self::Command) -> Result<
        Seq<Self::Event>,
        Self::Error,
    >;

    /// What `fold` returns: the state after one event.
    spec fn fold_spec(state: Self::State, event: Self::Event) -> Self::State;

    /// The stable name used as the log's partition key.
    fn name() -> String;

    fn initial() -> (r: Self::State)
        ensures
            r == Self::initial_spec(),
    ;

    fn decide(state: &Self::State, command: &Self::Command) -> (r: Result<
        Vec<Self::Event>,
        Self::Error,
    >)
        ensures
            match r {
                Ok(events) => Self::decide_spec(*state, *command) matches Ok(evs) && events@
                    == evs,
                Err(e) => Self::decide_spec(*state, *command) matches Err(e2) && e == e2,
            },
    ;

    fn fold(state: &Self::State, event: &Self::Event) -> (r: Self::State)
        ensures
            r == Self::fold_spec(*state, *event),
    ;
}

/// The state reached by folding `events`, in order, starting from `init`.
pub open spec fn replay<A: Aggregate>(init: A::State, events: Seq<A::Event>) -> A::State
    decreases events.len(),
{
    if events.len() == 0 {
        init
    } else {
        replay::<A>(A::fold_spec(init, events[0]), events.drop_first())
    }
}

/// Replay determinism: folding a full history in one pass reaches the same
/// state as folding its parts as they were persisted. In particular, a state
/// maintained incrementally (fold each committed batch as it lands) equals
/// the state rebuilt later by replaying the whole log from the initial state.
pub proof fn lemma_replay_split<A: Aggregate>(
    init: A::State,
    earlier: Seq<A::Event>,
    later: Seq<A::Event>,
)
    ensures
        replay::<A>(init, earlier + later) == replay::<A>(replay::<A>(init, earlier), later),
    decreases earlier.len(),
{
    if earlier.len() == 0 {
        assert(earlier + later =~= later);
    } else {
        assert((earlier + later)[0] == earlier[0]);
        assert((earlier + later).drop_first() =~= earlier.drop_first() + later);
        lemma_replay_split::<A>(A::fold_spec(init, earlier[0]), earlier.drop_first(), later);
    }
}

/// One more event extends a replay by one fold step.
pub proof fn lemma_replay_push<A: Aggregate>(init: A::State, events: Seq<A::Event>, event: A::Event)
    ensures
        replay::<A>(init, events.push(event)) == A::fold_spec(replay::<A>(init, events), event),
{
    assert(events.push(event) =~= events + seq![event]);
    lemma_replay_split::<A>(init, events, seq![event]);
    let folded = replay::<A>(init, events);
    assert(seq![event].drop_first() =~= Seq::<A::Event>::empty());
    assert(replay::<A>(folded, seq![event]) == replay::<A>(
        A::fold_spec(folded, event),
        seq![event].drop_first(),
    ));
    assert(replay::<A>(A::fold_spec(folded, event), Seq::<A::Event>::empty()) == A::fold_spec(
        folded,
        event,
    ));
}

} // verus!
