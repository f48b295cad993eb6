//! The event store: a per-aggregate partitioned log, the transactional write
//! protocol with its optimistic-concurrency check, reads in sequence order,
//! and hard deletion.

use vstd::prelude::*;

use std::sync::Arc;

use crate::event::{EventPayload, StoreEvent};
use crate::handler::{EventBus, EventHandler, HandlerError, TransactionalEventHandler};
use crate::swap::SwapSlot;

verus! {

/// One aggregate's partition of the log: its events in ascending sequence
/// order. A deleted aggregate keeps an empty partition, as a table keeps no
/// rows.
pub struct AggregateLog<E> {
    pub aggregate_id: u128,
    pub events: Vec<StoreEvent<E>>,
}

/// Why a write failed.
#[derive(Debug)]
pub enum StoreError {
    /// Another writer persisted a higher-or-equal sequence number for this
    /// aggregate between this caller's load and this write. The caller must
    /// reload and retry; the store never retries by itself.
    Conflict,
    /// A transactional handler vetoed the write; the whole batch was rolled
    /// back.
    HandlerRejected(HandlerError),
    /// A connectivity or driver failure at the storage boundary, surfaced
    /// as-is by an outer storage adapter. The in-memory protocol never
    /// produces it.
    Storage(String),
    /// A payload failed to (de)serialize at the storage boundary. The
    /// in-memory protocol never produces it.
    Codec(String),
}

/// What a committed write returns: the persisted batch, and the failures of
/// the post-commit phase. Post-commit handler and bus failures are collected
/// in full and reported here; they never undo the committed write.
pub struct PersistOutcome<E> {
    pub events: Vec<StoreEvent<E>>,
    pub post_commit_failures: Vec<HandlerError>,
    pub publish_failures: Vec<HandlerError>,
}

/// The events of `id` among `entries` (the first partition with that id; a
/// well-formed store has at most one).
pub open spec fn events_in<E>(entries: Seq<AggregateLog<E>>, id: u128) -> Seq<StoreEvent<E>>
    decreases entries.len(),
{
    if entries.len() == 0 {
        Seq::empty()
    } else if entries[0].aggregate_id == id {
        entries[0].events@
    } else {
        events_in(entries.drop_first(), id)
    }
}

/// The sequence number of the last event, or 0 where there is none.
pub open spec fn last_sequence<E>(events: Seq<StoreEvent<E>>) -> u64 {
    if events.len() == 0 {
        0
    } else {
        events.last().sequence_number
    }
}

/// Sequence numbers run 1, 2, ... without duplicate or gap.
pub open spec fn contiguous<E>(events: Seq<StoreEvent<E>>) -> bool {
    forall|k: int| 0 <= k < events.len() ==> (#[trigger] events[k].sequence_number) == k + 1
}

/// Every registered transactional handler accepts every event of the batch.
pub open spec fn all_accept<E, TH: TransactionalEventHandler<E>>(
    handlers: Seq<TH>,
    batch: Seq<StoreEvent<E>>,
) -> bool {
    forall|i: int, j: int|
        #![trigger handlers[j].accepts(batch[i])]
        0 <= i < batch.len() && 0 <= j < handlers.len() ==> handlers[j].accepts(batch[i])
}

/// A partition's internal order: events belong to it, sequence numbers and
/// event ids ascend, and every event id is below the store's bound.
pub open spec fn events_wf<E>(aggregate_id: u128, events: Seq<StoreEvent<E>>, id_bound: u128) -> bool {
    &&& forall|k: int|
        0 <= k < events.len() ==> (#[trigger] events[k]).aggregate_id == aggregate_id
    &&& forall|k1: int, k2: int|
        #![trigger events[k1].sequence_number, events[k2].sequence_number]
        0 <= k1 < k2 < events.len() ==> events[k1].sequence_number < events[k2].sequence_number
    &&& forall|k1: int, k2: int|
        #![trigger events[k1].id, events[k2].id]
        0 <= k1 < k2 < events.len() ==> events[k1].id < events[k2].id
    &&& forall|k: int| 0 <= k < events.len() ==> (#[trigger] events[k]).id < id_bound
}

impl<E> AggregateLog<E> {
    pub open spec fn wf(&self, id_bound: u128) -> bool {
        events_wf(self.aggregate_id, self.events@, id_bound)
    }
}

/// A larger id bound keeps a partition well-formed.
proof fn lemma_events_wf_bound<E>(
    aggregate_id: u128,
    events: Seq<StoreEvent<E>>,
    bound0: u128,
    bound1: u128,
)
    requires
        events_wf(aggregate_id, events, bound0),
        bound0 <= bound1,
    ensures
        events_wf(aggregate_id, events, bound1),
{
}

/// Appending a freshly assigned batch after the partition's last sequence
/// number keeps the partition well-formed.
proof fn lemma_events_wf_extend<E>(
    aggregate_id: u128,
    older: Seq<StoreEvent<E>>,
    batch: Seq<StoreEvent<E>>,
    bound0: u128,
    bound1: u128,
    expected: u64,
)
    requires
        events_wf(aggregate_id, older, bound0),
        last_sequence(older) <= expected,
        forall|k: int| 0 <= k < batch.len() ==> (#[trigger] batch[k]).aggregate_id == aggregate_id,
        forall|k: int| 0 <= k < batch.len() ==> (#[trigger] batch[k]).id == bound0 as int + k,
        forall|k: int|
            0 <= k < batch.len() ==> (#[trigger] batch[k]).sequence_number == expected as int + 1
                + k,
        bound0 as int + batch.len() <= bound1 as int,
    ensures
        events_wf(aggregate_id, older + batch, bound1),
{
    let all = older + batch;
    let m = older.len() as int;
    assert forall|k: int| 0 <= k < older.len() implies older[k].sequence_number <= last_sequence(
        older,
    ) by {
        if k < older.len() - 1 {
            assert(older[k].sequence_number < older[older.len() - 1].sequence_number);
        }
    }
    assert forall|k1: int, k2: int|
        #![trigger all[k1].sequence_number, all[k2].sequence_number]
        0 <= k1 < k2 < all.len() implies all[k1].sequence_number < all[k2].sequence_number by {
        if k1 < m && k2 >= m {
            assert(all[k1] == older[k1]);
            assert(all[k2] == batch[k2 - m]);
        } else if k1 >= m {
            assert(all[k1] == batch[k1 - m]);
            assert(all[k2] == batch[k2 - m]);
        }
    }
    assert forall|k1: int, k2: int|
        #![trigger all[k1].id, all[k2].id]
        0 <= k1 < k2 < all.len() implies all[k1].id < all[k2].id by {
        if k1 < m && k2 >= m {
            assert(all[k1] == older[k1]);
            assert(all[k2] == batch[k2 - m]);
        } else if k1 >= m {
            assert(all[k1] == batch[k1 - m]);
            assert(all[k2] == batch[k2 - m]);
        }
    }
    assert forall|k: int| 0 <= k < all.len() implies (#[trigger] all[k]).aggregate_id
        == aggregate_id by {
        if k >= m {
            assert(all[k] == batch[k - m]);
        }
    }
    assert forall|k: int| 0 <= k < all.len() implies (#[trigger] all[k]).id < bound1 by {
        if k >= m {
            assert(all[k] == batch[k - m]);
        }
    }
}

proof fn lemma_events_in_prefix_miss<E>(entries: Seq<AggregateLog<E>>, id: u128, i: int)
    requires
        0 <= i <= entries.len(),
        forall|k: int| 0 <= k < i ==> (#[trigger] entries[k]).aggregate_id != id,
    ensures
        events_in(entries, id) == events_in(entries.skip(i), id),
    decreases i,
{
    if i == 0 {
        assert(entries.skip(0) =~= entries);
    } else {
        assert(entries[0].aggregate_id != id);
        assert(forall|k: int|
            0 <= k < i - 1 ==> (#[trigger] entries.drop_first()[k]).aggregate_id != id);
        lemma_events_in_prefix_miss(entries.drop_first(), id, i - 1);
        assert(entries.drop_first().skip(i - 1) =~= entries.skip(i));
    }
}

proof fn lemma_events_in_at<E>(entries: Seq<AggregateLog<E>>, id: u128, i: int)
    requires
        0 <= i < entries.len(),
        entries[i].aggregate_id == id,
        forall|k: int| 0 <= k < i ==> (#[trigger] entries[k]).aggregate_id != id,
    ensures
        events_in(entries, id) == entries[i].events@,
{
    lemma_events_in_prefix_miss(entries, id, i);
    assert(entries.skip(i)[0] == entries[i]);
}

proof fn lemma_events_in_none<E>(entries: Seq<AggregateLog<E>>, id: u128)
    requires
        forall|k: int| 0 <= k < entries.len() ==> (#[trigger] entries[k]).aggregate_id != id,
    ensures
        events_in(entries, id) == Seq::<StoreEvent<E>>::empty(),
{
    lemma_events_in_prefix_miss(entries, id, entries.len() as int);
    assert(entries.skip(entries.len() as int) =~= Seq::<AggregateLog<E>>::empty());
}

proof fn lemma_events_in_update_other<E>(
    entries: Seq<AggregateLog<E>>,
    i: int,
    entry: AggregateLog<E>,
    qid: u128,
)
    requires
        0 <= i < entries.len(),
        entry.aggregate_id == entries[i].aggregate_id,
        qid != entry.aggregate_id,
    ensures
        events_in(entries.update(i, entry), qid) == events_in(entries, qid),
    decreases i,
{
    let updated = entries.update(i, entry);
    if i == 0 {
        assert(updated[0] == entry);
        assert(updated.drop_first() =~= entries.drop_first());
    } else {
        assert(updated[0] == entries[0]);
        if entries[0].aggregate_id != qid {
            assert(updated.drop_first() =~= entries.drop_first().update(i - 1, entry));
            lemma_events_in_update_other(entries.drop_first(), i - 1, entry, qid);
        }
    }
}

proof fn lemma_events_in_push_other<E>(
    entries: Seq<AggregateLog<E>>,
    entry: AggregateLog<E>,
    qid: u128,
)
    requires
        qid != entry.aggregate_id,
    ensures
        events_in(entries.push(entry), qid) == events_in(entries, qid),
    decreases entries.len(),
{
    let pushed = entries.push(entry);
    if entries.len() == 0 {
        assert(pushed[0] == entry);
        assert(pushed.drop_first() =~= Seq::<AggregateLog<E>>::empty());
        assert(events_in(pushed.drop_first(), qid) == Seq::<StoreEvent<E>>::empty());
        assert(events_in(entries, qid) == Seq::<StoreEvent<E>>::empty());
    } else {
        assert(pushed[0] == entries[0]);
        if entries[0].aggregate_id != qid {
            assert(pushed.drop_first() =~= entries.drop_first().push(entry));
            lemma_events_in_push_other(entries.drop_first(), entry, qid);
        }
    }
}

/// Event ids are globally unique: no two events anywhere in the log share
/// one, whatever aggregates own them. This is what makes `id` an
/// addressable handle.
pub open spec fn distinct_event_ids<E>(entries: Seq<AggregateLog<E>>) -> bool {
    forall|i1: int, k1: int, i2: int, k2: int|
        #![trigger entries[i1].events@[k1].id, entries[i2].events@[k2].id]
        0 <= i1 < entries.len() && 0 <= k1 < entries[i1].events@.len() && 0 <= i2 < entries.len()
            && 0 <= k2 < entries[i2].events@.len() && (i1 != i2 || k1 != k2)
            ==> entries[i1].events@[k1].id != entries[i2].events@[k2].id
}

/// The event store. The log is held per aggregate; the three reactive
/// registries are fixed at construction, except the post-commit one, which
/// sits in an atomically replaceable slot (see [`SwapSlot`]).
#[verifier::reject_recursive_types(PH)]
pub struct PgStore<E, TH, PH, B> {
    pub entries: Vec<AggregateLog<E>>,
    pub next_event_id: u128,
    pub transactional_event_handlers: Vec<TH>,
    pub event_handlers: SwapSlot<PH>,
    pub event_buses: Vec<B>,
    pub migrations_run: bool,
}

impl<E, TH, PH, B> PgStore<E, TH, PH, B> {
    /// All events for `id`, ascending by sequence number; empty where the
    /// aggregate has no history.
    pub open spec fn events_of(&self, id: u128) -> Seq<StoreEvent<E>> {
        events_in(self.entries@, id)
    }

    pub open spec fn txn_handlers(&self) -> Seq<TH> {
        self.transactional_event_handlers@
    }

    pub open spec fn post_commit_slot(&self) -> SwapSlot<PH> {
        self.event_handlers
    }

    pub open spec fn buses(&self) -> Seq<B> {
        self.event_buses@
    }

    /// Every event id ever handed out is below this bound.
    pub open spec fn id_bound(&self) -> u128 {
        self.next_event_id
    }

    pub open spec fn migrations_were_run(&self) -> bool {
        self.migrations_run
    }

    /// Store well-formedness: at most one partition per aggregate id, each
    /// partition internally ordered (see [`AggregateLog::wf`]), and event
    /// ids unique across the whole log.
    pub open spec fn wf(&self) -> bool {
        &&& forall|i: int, j: int|
            #![trigger self.entries@[i].aggregate_id, self.entries@[j].aggregate_id]
            0 <= i < j < self.entries@.len() ==> self.entries@[i].aggregate_id
                != self.entries@[j].aggregate_id
        &&& forall|i: int|
            0 <= i < self.entries@.len() ==> (#[trigger] self.entries@[i]).wf(self.next_event_id)
        &&& distinct_event_ids(self.entries@)
    }

    /// The optimistic-concurrency check: a non-empty write from position
    /// `expected` is refused exactly when some committed event already holds
    /// a sequence number at or above `expected + 1`.
    pub open spec fn would_conflict(&self, id: u128, expected: u64, n: nat) -> bool {
        n > 0 && last_sequence(self.events_of(id)) >= expected as int + 1
    }

    /// The envelopes a write from position `expected` assigns: fresh ids from
    /// the store's bound upward, sequence numbers `expected + 1` onward, all
    /// stamped `now`.
    pub open spec fn assigned_batch(
        &self,
        id: u128,
        expected: u64,
        payloads: Seq<E>,
        now: u64,
    ) -> Seq<StoreEvent<E>> {
        Seq::new(
            payloads.len(),
            |k: int|
                (StoreEvent {
                    id: (self.next_event_id + k) as u128,
                    aggregate_id: id,
                    payload: payloads[k],
                    occurred_at: now,
                    sequence_number: (expected + 1 + k) as u64,
                }),
        )
    }

    /// The index of `id`'s partition, if it has one.
    fn find_index(&self, id: u128) -> (r: Option<usize>)
        ensures
            match r {
                Some(i) => i < self.entries@.len() && self.entries@[i as int].aggregate_id == id
                    && forall|k: int| 0 <= k < i ==> (#[trigger] self.entries@[k]).aggregate_id
                    != id,
                None => forall|k: int|
                    0 <= k < self.entries@.len() ==> (#[trigger] self.entries@[k]).aggregate_id
                        != id,
            },
    {
        let mut i: usize = 0;
        while i < self.entries.len()
            invariant
                i <= self.entries@.len(),
                forall|k: int| 0 <= k < i ==> (#[trigger] self.entries@[k]).aggregate_id != id,
            decreases self.entries@.len() - i,
        {
            if self.entries[i].aggregate_id == id {
                return Some(i);
            }
            i += 1;
        }
        None
    }
}

impl<E: EventPayload, TH, PH, B> PgStore<E, TH, PH, B> {
    /// All events for `aggregate_id`, in ascending sequence order; an empty
    /// vector — not an error — where the aggregate has no history.
    pub fn by_aggregate_id(&self, aggregate_id: u128) -> (r: Vec<StoreEvent<E>>)
        requires
            self.wf(),
        ensures
            r@ == self.events_of(aggregate_id),
    {
        match self.find_index(aggregate_id) {
            None => {
                proof {
                    lemma_events_in_none(self.entries@, aggregate_id);
                }
                Vec::new()
            },
            Some(i) => {
                proof {
                    lemma_events_in_at(self.entries@, aggregate_id, i as int);
                }
                let entry = &self.entries[i];
                let mut out: Vec<StoreEvent<E>> = Vec::new();
                let mut k: usize = 0;
                while k < entry.events.len()
                    invariant
                        k <= entry.events@.len(),
                        out@ == entry.events@.take(k as int),
                    decreases entry.events@.len() - k,
                {
                    out.push(entry.events[k].replicate());
                    proof {
                        assert(entry.events@.take(k + 1 as int) =~= entry.events@.take(
                            k as int,
                        ).push(entry.events@[k as int]));
                    }
                    k += 1;
                }
                proof {
                    assert(entry.events@.take(entry.events@.len() as int) =~= entry.events@);
                }
                out
            },
        }
    }
}

impl<
    E: EventPayload,
    TH: TransactionalEventHandler<E>,
    PH: EventHandler<E>,
    B: EventBus<E>,
> PgStore<E, TH, PH, B> {
    /// The transactional write: assigns fresh ids, timestamps and the next
    /// sequence numbers to `new_events`, refuses the write on a sequence
    /// race (`Conflict`) or a transactional-handler veto (`HandlerRejected`)
    /// leaving the log exactly as it was, and otherwise commits the whole
    /// batch atomically. Only after the commit do the post-commit handlers
    /// and the buses run, against the snapshot of the hot-swappable registry
    /// taken at that moment; their failures are collected in the outcome and
    /// never undo the committed write.
    #[verifier::loop_isolation(false)]
    pub fn persist(
        &mut self,
        aggregate_id: u128,
        expected_sequence: u64,
        new_events: Vec<E>,
        occurred_at: u64,
    ) -> (r: Result<PersistOutcome<E>, StoreError>)
        requires
            old(self).wf(),
            expected_sequence as int + new_events@.len() as int <= u64::MAX as int,
            old(self).id_bound() as int + new_events@.len() as int <= u128::MAX as int,
        ensures
            final(self).wf(),
            final(self).txn_handlers() == old(self).txn_handlers(),
            final(self).post_commit_slot() == old(self).post_commit_slot(),
            final(self).buses() == old(self).buses(),
            final(self).migrations_were_run() == old(self).migrations_were_run(),
            match r {
                Ok(outcome) => {
                    &&& !old(self).would_conflict(
                        aggregate_id,
                        expected_sequence,
                        new_events@.len(),
                    )
                    &&& all_accept(
                        old(self).txn_handlers(),
                        old(self).assigned_batch(
                            aggregate_id,
                            expected_sequence,
                            new_events@,
                            occurred_at,
                        ),
                    )
                    &&& outcome.events@ == old(self).assigned_batch(
                        aggregate_id,
                        expected_sequence,
                        new_events@,
                        occurred_at,
                    )
                    &&& final(self).events_of(aggregate_id) == old(self).events_of(aggregate_id)
                        + outcome.events@
                    &&& forall|qid: u128|
                        qid != aggregate_id ==> final(self).events_of(qid) == old(self).events_of(
                            qid,
                        )
                    &&& final(self).id_bound() == old(self).id_bound() + new_events@.len()
                },
                Err(StoreError::Conflict) => {
                    &&& old(self).would_conflict(aggregate_id, expected_sequence, new_events@.len())
                    &&& *final(self) == *old(self)
                },
                Err(StoreError::HandlerRejected(_)) => {
                    &&& !old(self).would_conflict(
                        aggregate_id,
                        expected_sequence,
                        new_events@.len(),
                    )
                    &&& !all_accept(
                        old(self).txn_handlers(),
                        old(self).assigned_batch(
                            aggregate_id,
                            expected_sequence,
                            new_events@,
                            occurred_at,
                        ),
                    )
                    &&& *final(self) == *old(self)
                },
                Err(StoreError::Storage(_)) => false,
                Err(StoreError::Codec(_)) => false,
            },
    {
        let ghost pre = *old(self);
        let n = new_events.len();
        let ghost batch_g = pre.assigned_batch(
            aggregate_id,
            expected_sequence,
            new_events@,
            occurred_at,
        );
        if n == 0 {
            let outcome = PersistOutcome {
                events: Vec::<StoreEvent<E>>::new(),
                post_commit_failures: Vec::new(),
                publish_failures: Vec::new(),
            };
            proof {
                assert(outcome.events@ =~= batch_g);
                assert(pre.events_of(aggregate_id) + outcome.events@ =~= pre.events_of(
                    aggregate_id,
                ));
            }
            return Ok(outcome);
        }
        // The open transaction: nothing below touches the log until every
        // insert is checked and every transactional handler has agreed, so an
        // early return is the rollback.
        let idx = self.find_index(aggregate_id);
        let last_seq: u64 = match idx {
            Some(i) => {
                let evs = &self.entries[i].events;
                if evs.len() == 0 {
                    0
                } else {
                    evs[evs.len() - 1].sequence_number
                }
            },
            None => 0,
        };
        proof {
            match idx {
                Some(i) => lemma_events_in_at(pre.entries@, aggregate_id, i as int),
                None => lemma_events_in_none(pre.entries@, aggregate_id),
            }
            assert(last_seq == last_sequence(pre.events_of(aggregate_id)));
        }
        if last_seq >= expected_sequence + 1 {
            return Err(StoreError::Conflict);
        }
        // Assign envelopes: ids from the store's bound, sequence numbers from
        // the caller's loaded position.
        let base_id = self.next_event_id;
        let mut remaining = new_events;
        let ghost payloads = remaining@;
        let mut batch: Vec<StoreEvent<E>> = Vec::new();
        let mut k: usize = 0;
        while k < n
            invariant
                k <= n,
                remaining@ == payloads.skip(k as int),
                batch@ == batch_g.take(k as int),
            decreases n - k,
        {
            let p = remaining.remove(0);
            proof {
                assert(payloads.skip(k as int)[0] == payloads[k as int]);
                assert(payloads.skip(k as int).drop_first() =~= payloads.skip(k as int + 1));
            }
            let ev = StoreEvent {
                id: base_id + (k as u128),
                aggregate_id,
                payload: p,
                occurred_at,
                sequence_number: expected_sequence + 1 + (k as u64),
            };
            batch.push(ev);
            proof {
                assert(batch_g[k as int] == ev);
                assert(batch_g.take(k as int + 1) =~= batch_g.take(k as int).push(ev));
            }
            k += 1;
        }
        proof {
            assert(batch_g.take(n as int) =~= batch_g);
        }
        // In-transaction dispatch: any veto aborts the whole write.
        let mut i: usize = 0;
        while i < n
            invariant
                i <= n,
                forall|i2: int, j2: int|
                    #![trigger pre.txn_handlers()[j2].accepts(batch_g[i2])]
                    0 <= i2 < i && 0 <= j2 < pre.txn_handlers().len()
                        ==> pre.txn_handlers()[j2].accepts(batch_g[i2]),
            decreases n - i,
        {
            let mut j: usize = 0;
            while j < self.transactional_event_handlers.len()
                invariant
                    i < n,
                    j <= pre.txn_handlers().len(),
                    forall|j2: int|
                        0 <= j2 < j ==> (#[trigger] pre.txn_handlers()[j2]).accepts(
                            batch_g[i as int],
                        ),
                decreases pre.txn_handlers().len() - j,
            {
                match self.transactional_event_handlers[j].handle(&batch[i]) {
                    Ok(_) => {},
                    Err(e) => {
                        proof {
                            assert(!pre.txn_handlers()[j as int].accepts(batch_g[i as int]));
                            assert(!all_accept(pre.txn_handlers(), batch_g));
                        }
                        return Err(StoreError::HandlerRejected(e));
                    },
                }
                j += 1;
            }
            i += 1;
        }
        proof {
            assert(all_accept(pre.txn_handlers(), batch_g));
        }
        // Commit: the batch becomes visible all at once.
        match idx {
            Some(pos) => {
                let mut entry = self.entries.remove(pos);
                let ghost entry0 = entry;
                let mut t: usize = 0;
                while t < n
                    invariant
                        t <= n,
                        entry.aggregate_id == aggregate_id,
                        entry.events@ == entry0.events@ + batch_g.take(t as int),
                    decreases n - t,
                {
                    entry.events.push(batch[t].replicate());
                    proof {
                        assert(batch_g.take(t as int + 1) =~= batch_g.take(t as int).push(
                            batch_g[t as int],
                        ));
                        assert(entry0.events@ + batch_g.take(t as int + 1) =~= (entry0.events@
                            + batch_g.take(t as int)).push(batch_g[t as int]));
                    }
                    t += 1;
                }
                let ghost entry_new = entry;
                self.entries.insert(pos, entry);
                self.next_event_id = base_id + (n as u128);
                proof {
                    assert(batch_g.take(n as int) =~= batch_g);
                    assert(self.entries@ =~= pre.entries@.update(pos as int, entry_new));
                    lemma_events_in_at(self.entries@, aggregate_id, pos as int);
                    assert forall|qid: u128| qid != aggregate_id implies events_in(
                        self.entries@,
                        qid,
                    ) == events_in(pre.entries@, qid) by {
                        lemma_events_in_update_other(pre.entries@, pos as int, entry_new, qid);
                    }
                    assert forall|k: int| 0 <= k < batch_g.len() implies (#[trigger] batch_g[k]).id
                        == pre.id_bound() as int + k by {}
                    assert forall|k: int|
                        0 <= k < batch_g.len() implies (#[trigger] batch_g[k]).sequence_number
                        == expected_sequence as int + 1 + k by {}
                    lemma_events_wf_extend(
                        aggregate_id,
                        entry0.events@,
                        batch_g,
                        pre.next_event_id,
                        self.next_event_id,
                        expected_sequence,
                    );
                    assert forall|x: int| 0 <= x < self.entries@.len() implies (
                    #[trigger] self.entries@[x]).wf(self.next_event_id) by {
                        if x == pos {
                            assert(self.entries@[x] == entry_new);
                        } else {
                            assert(self.entries@[x] == pre.entries@[x]);
                            assert(pre.entries@[x].wf(pre.next_event_id));
                            lemma_events_wf_bound(
                                pre.entries@[x].aggregate_id,
                                pre.entries@[x].events@,
                                pre.next_event_id,
                                self.next_event_id,
                            );
                        }
                    }
                }
            },
            None => {
                let mut fresh: Vec<StoreEvent<E>> = Vec::new();
                let mut t: usize = 0;
                while t < n
                    invariant
                        t <= n,
                        fresh@ == batch_g.take(t as int),
                    decreases n - t,
                {
                    fresh.push(batch[t].replicate());
                    proof {
                        assert(batch_g.take(t as int + 1) =~= batch_g.take(t as int).push(
                            batch_g[t as int],
                        ));
                    }
                    t += 1;
                }
                let entry = AggregateLog { aggregate_id, events: fresh };
                let ghost entry_new = entry;
                self.entries.push(entry);
                self.next_event_id = base_id + (n as u128);
                proof {
                    assert(batch_g.take(n as int) =~= batch_g);
                    lemma_events_in_at(self.entries@, aggregate_id, pre.entries@.len() as int);
                    assert(pre.events_of(aggregate_id) + batch_g =~= batch_g);
                    assert forall|qid: u128| qid != aggregate_id implies events_in(
                        self.entries@,
                        qid,
                    ) == events_in(pre.entries@, qid) by {
                        lemma_events_in_push_other(pre.entries@, entry_new, qid);
                    }
                    assert forall|k: int| 0 <= k < batch_g.len() implies (#[trigger] batch_g[k]).id
                        == pre.id_bound() as int + k by {}
                    assert forall|k: int|
                        0 <= k < batch_g.len() implies (#[trigger] batch_g[k]).sequence_number
                        == expected_sequence as int + 1 + k by {}
                    lemma_events_wf_extend(
                        aggregate_id,
                        Seq::<StoreEvent<E>>::empty(),
                        batch_g,
                        pre.next_event_id,
                        self.next_event_id,
                        expected_sequence,
                    );
                    assert(Seq::<StoreEvent<E>>::empty() + batch_g =~= batch_g);
                    assert forall|x: int| 0 <= x < self.entries@.len() implies (
                    #[trigger] self.entries@[x]).wf(self.next_event_id) by {
                        if x == pre.entries@.len() as int {
                            assert(self.entries@[x] == entry_new);
                        } else {
                            assert(self.entries@[x] == pre.entries@[x]);
                            assert(pre.entries@[x].wf(pre.next_event_id));
                            lemma_events_wf_bound(
                                pre.entries@[x].aggregate_id,
                                pre.entries@[x].events@,
                                pre.next_event_id,
                                self.next_event_id,
                            );
                        }
                    }
                }
            },
        }
        // Post-commit dispatch, against one snapshot of the hot-swappable
        // registry; failures are reported, never propagated to the log.
        let snapshot: Arc<Vec<PH>> = self.event_handlers.load();
        let handlers: &Vec<PH> = &*snapshot;
        let mut post_commit_failures: Vec<HandlerError> = Vec::new();
        let mut t: usize = 0;
        while t < n
            invariant
                t <= n,
            decreases n - t,
        {
            let mut j: usize = 0;
            while j < handlers.len()
                invariant
                    t < n,
                    j <= handlers@.len(),
                decreases handlers@.len() - j,
            {
                match handlers[j].handle(&batch[t]) {
                    Ok(_) => {},
                    Err(e) => post_commit_failures.push(e),
                }
                j += 1;
            }
            t += 1;
        }
        let mut publish_failures: Vec<HandlerError> = Vec::new();
        let mut j: usize = 0;
        while j < self.event_buses.len()
            invariant
                j <= self.event_buses@.len(),
            decreases self.event_buses@.len() - j,
        {
            match self.event_buses[j].publish(&batch) {
                Ok(_) => {},
                Err(e) => publish_failures.push(e),
            }
            j += 1;
        }
        Ok(PersistOutcome { events: batch, post_commit_failures, publish_failures })
    }
}

impl<E: EventPayload, TH, PH, B> PgStore<E, TH, PH, B> {
    /// Administrative point lookup: the one event carrying `event_id`,
    /// wherever in the log it sits (ids are globally unique in a well-formed
    /// store), or nothing. For operational tooling, not the steady-state
    /// read path.
    #[verifier::loop_isolation(false)]
    pub fn event_by_id(&self, event_id: u128) -> (r: Option<StoreEvent<E>>)
        requires
            self.wf(),
        ensures
            match r {
                Some(ev) => ev.id == event_id && exists|i: int, k: int|
                    0 <= i < self.entries@.len() && 0 <= k < self.entries@[i].events@.len()
                        && self.entries@[i].events@[k] == ev,
                None => forall|i: int, k: int|
                    #![trigger self.entries@[i].events@[k]]
                    0 <= i < self.entries@.len() && 0 <= k < self.entries@[i].events@.len()
                        ==> self.entries@[i].events@[k].id != event_id,
            },
    {
        let mut i: usize = 0;
        while i < self.entries.len()
            invariant
                i <= self.entries@.len(),
                forall|i2: int, k2: int|
                    #![trigger self.entries@[i2].events@[k2]]
                    0 <= i2 < i && 0 <= k2 < self.entries@[i2].events@.len()
                        ==> self.entries@[i2].events@[k2].id != event_id,
            decreases self.entries@.len() - i,
        {
            let entry = &self.entries[i];
            let mut k: usize = 0;
            while k < entry.events.len()
                invariant
                    i < self.entries@.len(),
                    k <= entry.events@.len(),
                    forall|k2: int|
                        0 <= k2 < k ==> (#[trigger] entry.events@[k2]).id != event_id,
                decreases entry.events@.len() - k,
            {
                if entry.events[k].id == event_id {
                    return Some(entry.events[k].replicate());
                }
                k += 1;
            }
            i += 1;
        }
        None
    }
}

impl<E, TH, PH, B> PgStore<E, TH, PH, B> {
    /// Replaces the post-commit handler list wholesale, through a shared
    /// reference: an in-flight write keeps the snapshot it already took, the
    /// next write sees the new list. The log and the other registries are
    /// untouched.
    pub fn replace_event_handlers(&self, event_handlers: Vec<PH>) {
        self.event_handlers.replace(event_handlers);
    }
}

/// The per-aggregate total order: in a well-formed store, no two committed
/// events of one aggregate share a sequence number, and the order the store
/// hands histories out in is exactly the order of those numbers.
pub proof fn lemma_sequence_numbers_total_order<E, TH, PH, B>(
    store: PgStore<E, TH, PH, B>,
    aggregate_id: u128,
)
    requires
        store.wf(),
    ensures
        forall|k1: int, k2: int|
            #![trigger store.events_of(aggregate_id)[k1], store.events_of(aggregate_id)[k2]]
            0 <= k1 < k2 < store.events_of(aggregate_id).len() ==> store.events_of(
                aggregate_id,
            )[k1].sequence_number < store.events_of(aggregate_id)[k2].sequence_number,
{
    let entries = store.entries@;
    if exists|i: int| 0 <= i < entries.len() && entries[i].aggregate_id == aggregate_id {
        let i = choose|i: int| 0 <= i < entries.len() && entries[i].aggregate_id == aggregate_id;
        let first = choose|j: int|
            0 <= j <= i && entries[j].aggregate_id == aggregate_id && forall|k: int|
                0 <= k < j ==> (#[trigger] entries[k]).aggregate_id != aggregate_id;
        lemma_first_match_exists(entries, aggregate_id, i);
        lemma_events_in_at(entries, aggregate_id, first);
    } else {
        lemma_events_in_none(entries, aggregate_id);
    }
}

/// Where some partition matches an id, a first one does.
proof fn lemma_first_match_exists<E>(entries: Seq<AggregateLog<E>>, id: u128, i: int)
    requires
        0 <= i < entries.len(),
        entries[i].aggregate_id == id,
    ensures
        exists|j: int|
            0 <= j <= i && entries[j].aggregate_id == id && (forall|k: int|
                0 <= k < j ==> (#[trigger] entries[k]).aggregate_id != id) && (
            #[trigger] entries[j]).aggregate_id == id,
    decreases i,
{
    if forall|k: int| 0 <= k < i ==> (#[trigger] entries[k]).aggregate_id != id {
        assert(entries[i].aggregate_id == id);
    } else {
        let e = choose|k: int| 0 <= k < i && (#[trigger] entries[k]).aggregate_id == id;
        lemma_first_match_exists(entries, id, e);
    }
}

/// The optimistic-concurrency race, settled by the store's contracts: two
/// writers load the same aggregate at the same position `expected`; one
/// commits a non-empty batch; after that commit the other's write — still
/// aimed at `expected` — meets the conflict condition, so `persist` can only
/// refuse it with `Conflict`. And where the log ran 1, 2, ... before the
/// first commit, it still does after it: the race leaves neither duplicate
/// nor gap in the sequence numbers.
pub proof fn lemma_overlapping_writers_race<E, TH, PH, B>(
    pre: PgStore<E, TH, PH, B>,
    post: PgStore<E, TH, PH, B>,
    aggregate_id: u128,
    expected: u64,
    payloads: Seq<E>,
    now: u64,
    second_len: nat,
)
    requires
        payloads.len() > 0,
        second_len > 0,
        expected as int + payloads.len() as int <= u64::MAX as int,
        expected == last_sequence(pre.events_of(aggregate_id)),
        post.events_of(aggregate_id) == pre.events_of(aggregate_id) + pre.assigned_batch(
            aggregate_id,
            expected,
            payloads,
            now,
        ),
    ensures
        post.would_conflict(aggregate_id, expected, second_len),
        contiguous(pre.events_of(aggregate_id)) ==> contiguous(post.events_of(aggregate_id)),
{
    let before = pre.events_of(aggregate_id);
    let batch = pre.assigned_batch(aggregate_id, expected, payloads, now);
    let after = post.events_of(aggregate_id);
    assert(after.last() == batch.last());
    assert(batch.last().sequence_number == expected as int + payloads.len());
    if contiguous(before) {
        if before.len() > 0 {
            assert(before[before.len() - 1].sequence_number == before.len());
        }
        assert forall|k: int| 0 <= k < after.len() implies (#[trigger] after[k].sequence_number)
            == k + 1 by {
            if k < before.len() {
                assert(after[k] == before[k]);
            } else {
                assert(after[k] == batch[k - before.len()]);
            }
        }
    }
}

impl<E, TH, PH, B> PgStore<E, TH, PH, B> {
    /// Removes all events for `aggregate_id`. Used for hard erasure, not for
    /// the normal command flow; afterwards the aggregate reads as empty and
    /// every other aggregate's log is untouched.
    pub fn delete(&mut self, aggregate_id: u128) -> (r: Result<(), StoreError>)
        requires
            old(self).wf(),
        ensures
            final(self).wf(),
            r is Ok,
            final(self).events_of(aggregate_id) == Seq::<StoreEvent<E>>::empty(),
            forall|qid: u128|
                qid != aggregate_id ==> final(self).events_of(qid) == old(self).events_of(qid),
            final(self).txn_handlers() == old(self).txn_handlers(),
            final(self).post_commit_slot() == old(self).post_commit_slot(),
            final(self).buses() == old(self).buses(),
            final(self).id_bound() == old(self).id_bound(),
            final(self).migrations_were_run() == old(self).migrations_were_run(),
    {
        let ghost pre = *old(self);
        match self.find_index(aggregate_id) {
            None => {
                proof {
                    lemma_events_in_none(pre.entries@, aggregate_id);
                }
                Ok(())
            },
            Some(i) => {
                let cleared = AggregateLog::<E> { aggregate_id, events: Vec::new() };
                let ghost cleared_g = cleared;
                self.entries.remove(i);
                self.entries.insert(i, cleared);
                proof {
                    assert(self.entries@ =~= pre.entries@.update(i as int, cleared_g));
                    lemma_events_in_at(self.entries@, aggregate_id, i as int);
                    assert forall|qid: u128| qid != aggregate_id implies events_in(
                        self.entries@,
                        qid,
                    ) == events_in(pre.entries@, qid) by {
                        lemma_events_in_update_other(pre.entries@, i as int, cleared_g, qid);
                    }
                }
                Ok(())
            },
        }
    }
}

} // verus!
