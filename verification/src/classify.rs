//! The trace classifier: from one raw trace record of a block to at most one
//! lifecycle event, with the events of failed transactions suppressed.

use crate::address::{Address, TxHash};
use crate::event::{LifecycleEvent, TraceType};
use vstd::prelude::*;

verus! {

/// What a trace record did.
#[derive(Clone, Copy, Debug)]
pub enum TraceAction {
    /// The contract at `address` destroyed itself.
    SelfDestruct { address: Address },
    /// A contract creation was attempted.
    Create,
    /// Anything else: a call, a block reward.
    Other,
}

/// What a trace record produced.
#[derive(Clone, Copy, Debug)]
pub enum TraceOutput {
    /// A contract was deployed at `address`.
    Create { address: Address },
    /// Anything else: the output of a call.
    Other,
}

/// One execution-trace entry of a block, as the node reports it. The
/// transaction hash and position are absent on entries that belong to no
/// transaction.
#[derive(Debug)]
pub struct RawTraceRecord {
    pub action: TraceAction,
    pub result: Option<TraceOutput>,
    pub error: Option<String>,
    pub transaction_hash: Option<TxHash>,
    pub transaction_position: Option<u64>,
}

/// The transactions of one block that were seen to fail.
pub struct InvalidTransactionSet {
    hashes: Vec<TxHash>,
}

impl View for InvalidTransactionSet {
    type V = Set<TxHash>;

    closed spec fn view(&self) -> Set<TxHash> {
        self.hashes@.to_set()
    }
}

impl InvalidTransactionSet {
    /// The empty set.
    pub fn new() -> (r: InvalidTransactionSet)
        ensures
            r@ == Set::<TxHash>::empty(),
    {
        let r = InvalidTransactionSet { hashes: Vec::new() };
        assert(r.hashes@.to_set() =~= Set::<TxHash>::empty());
        r
    }

    /// Adds `hash` to the set.
    pub fn insert(&mut self, hash: TxHash)
        ensures
            final(self)@ == old(self)@.insert(hash),
    {
        proof {
            old(self).hashes@.lemma_push_to_set_commute(hash);
        }
        self.hashes.push(hash);
    }

    /// Whether `hash` is in the set.
    pub fn contains(&self, hash: &TxHash) -> (r: bool)
        ensures
            r == self@.contains(*hash),
    {
        let mut i: usize = 0;
        while i < self.hashes.len()
            invariant
                i <= self.hashes.len(),
                forall|j: int| 0 <= j < i ==> self.hashes@[j] != *hash,
            decreases self.hashes.len() - i,
        {
            if self.hashes[i] == *hash {
                assert(self.hashes@.contains(*hash));
                return true;
            }
            i = i + 1;
        }
        false
    }
}

/// The event that a record yields, given the transactions of its block that
/// are known to have failed before it: none for a record that carries an
/// error, that belongs to such a transaction, or that lacks a transaction
/// hash or position; else a self-destruct for a self-destruct action, a create
/// for a create action whose result names the deployed contract, and none for
/// every other shape.
pub open spec fn classified(record: RawTraceRecord, block_number: u64, invalid: Set<TxHash>)
    -> Option<LifecycleEvent> {
    if record.error is Some {
        None
    } else {
        match (record.transaction_hash, record.transaction_position) {
            (Some(hash), Some(position)) => if invalid.contains(hash) {
                None
            } else {
                match record.action {
                    TraceAction::SelfDestruct { address } => Some(
                        LifecycleEvent {
                            kind: TraceType::SelfDestruct,
                            address,
                            block_number,
                            transaction_position: position,
                        },
                    ),
                    TraceAction::Create => match record.result {
                        Some(TraceOutput::Create { address }) => Some(
                            LifecycleEvent {
                                kind: TraceType::Create,
                                address,
                                block_number,
                                transaction_position: position,
                            },
                        ),
                        _ => None,
                    },
                    TraceAction::Other => None,
                }
            },
            _ => None,
        }
    }
}

/// The failed transactions known after a record: one more, the record's own,
/// where the record carries an error.
pub open spec fn invalid_after(record: RawTraceRecord, invalid: Set<TxHash>) -> Set<TxHash> {
    match (record.error, record.transaction_hash) {
        (Some(_), Some(hash)) => invalid.insert(hash),
        _ => invalid,
    }
}

/// Classifies one record of block `block_number` and notes its transaction in
/// `invalid` where the record carries an error.
pub fn classify(record: &RawTraceRecord, block_number: u64, invalid: &mut InvalidTransactionSet) -> (r:
    Option<LifecycleEvent>)
    ensures
        r == classified(*record, block_number, old(invalid)@),
        final(invalid)@ == invalid_after(*record, old(invalid)@),
{
    if record.error.is_some() {
        match record.transaction_hash {
            Some(hash) => {
                invalid.insert(hash);
            },
            None => {},
        }
        return None;
    }
    let hash = match record.transaction_hash {
        Some(hash) => hash,
        None => {
            return None;
        },
    };
    let position = match record.transaction_position {
        Some(position) => position,
        None => {
            return None;
        },
    };
    if invalid.contains(&hash) {
        return None;
    }
    match record.action {
        TraceAction::SelfDestruct { address } => Some(
            LifecycleEvent::self_destruct(address, block_number, position),
        ),
        TraceAction::Create => match record.result {
            Some(TraceOutput::Create { address }) => Some(
                LifecycleEvent::create(address, block_number, position),
            ),
            _ => None,
        },
        TraceAction::Other => None,
    }
}

/// The transactions that the first `n` records of a block's batch show as
/// failed: those whose hash stands on a record with an error.
pub open spec fn invalid_before(records: Seq<RawTraceRecord>, n: int) -> Set<TxHash> {
    Set::new(
        |hash: TxHash|
            exists|i: int|
                0 <= i < n && i < records.len() && (#[trigger] records[i]).error is Some
                    && records[i].transaction_hash == Some(hash),
    )
}

/// The event that the record at index `i` of a batch yields, with the batch
/// taken in the order given.
pub open spec fn event_at(records: Seq<RawTraceRecord>, block_number: u64, i: int) -> Option<
    LifecycleEvent,
> {
    classified(records[i], block_number, invalid_before(records, i))
}

/// What each record of a batch yields, index by index.
pub open spec fn outcomes(records: Seq<RawTraceRecord>, block_number: u64) -> Seq<
    Option<LifecycleEvent>,
> {
    Seq::new(records.len(), |i: int| event_at(records, block_number, i))
}

/// Hands on what a record yielded.
pub open spec fn yielded() -> spec_fn(Option<LifecycleEvent>) -> Option<LifecycleEvent> {
    |outcome: Option<LifecycleEvent>| outcome
}

/// The events of a block's batch: what its records yield, in the order of the
/// records.
pub open spec fn batch_events(records: Seq<RawTraceRecord>, block_number: u64) -> Seq<
    LifecycleEvent,
> {
    outcomes(records, block_number).filter_map(yielded())
}

/// Classifies the records of block `block_number` in the order given.
pub fn classify_block(records: &Vec<RawTraceRecord>, block_number: u64) -> (events: Vec<
    LifecycleEvent,
>)
    ensures
        events@ == batch_events(records@, block_number),
{
    let mut invalid = InvalidTransactionSet::new();
    let mut events: Vec<LifecycleEvent> = Vec::new();
    let ghost all = outcomes(records@, block_number);
    let mut i: usize = 0;
    assert(invalid@ =~= invalid_before(records@, 0));
    assert(all.take(0) =~= Seq::empty());
    while i < records.len()
        invariant
            i <= records.len(),
            all == outcomes(records@, block_number),
            invalid@ == invalid_before(records@, i as int),
            events@ == all.take(i as int).filter_map(yielded()),
        decreases records.len() - i,
    {
        let found = classify(&records[i], block_number, &mut invalid);
        proof {
            assert(found == all[i as int]);
            assert(invalid@ =~= invalid_before(records@, i + 1));
            all.lemma_filter_map_take_succ(yielded(), i as int);
        }
        match found {
            Some(event) => {
                events.push(event);
            },
            None => {},
        }
        i = i + 1;
    }
    assert(all.take(i as int) =~= all);
    events
}

/// The records of a trace response: none where the node reported no traces.
pub open spec fn reported_records(result: Option<Vec<RawTraceRecord>>) -> Seq<RawTraceRecord> {
    match result {
        Some(records) => records@,
        None => Seq::empty(),
    }
}

/// The events of block `block_number` from the node's trace response for it:
/// absent where the node reported no traces or none of them yields an event.
pub fn block_events(result: Option<Vec<RawTraceRecord>>, block_number: u64) -> (r: Option<
    Vec<LifecycleEvent>,
>)
    ensures
        match r {
            Some(events) => events@.len() > 0 && events@ == batch_events(
                reported_records(result),
                block_number,
            ),
            None => batch_events(reported_records(result), block_number).len() == 0,
        },
{
    match result {
        Some(records) => {
            let events = classify_block(&records, block_number);
            if events.len() > 0 {
                Some(events)
            } else {
                None
            }
        },
        None => {
            assert(outcomes(Seq::<RawTraceRecord>::empty(), block_number) =~= Seq::empty());
            None
        },
    }
}

/// A record that carries an error yields no event, whatever else it holds,
/// and its transaction counts as failed from then on.
pub proof fn lemma_error_yields_nothing(
    record: RawTraceRecord,
    block_number: u64,
    invalid: Set<TxHash>,
)
    requires
        record.error is Some,
    ensures
        classified(record, block_number, invalid) is None,
        record.transaction_hash matches Some(hash) ==> invalid_after(record, invalid)
            == invalid.insert(hash),
        record.transaction_hash is None ==> invalid_after(record, invalid) == invalid,
{
}

/// A record of a transaction that is known to have failed yields no event.
pub proof fn lemma_invalid_transaction_yields_nothing(
    record: RawTraceRecord,
    block_number: u64,
    invalid: Set<TxHash>,
)
    requires
        record.transaction_hash matches Some(hash) && invalid.contains(hash),
    ensures
        classified(record, block_number, invalid) is None,
{
}

/// Within one batch, once a record of a transaction carried an error, every
/// later record of the same transaction yields no event.
pub proof fn lemma_failed_transaction_suppressed(
    records: Seq<RawTraceRecord>,
    block_number: u64,
    i: int,
    j: int,
)
    requires
        0 <= i < j < records.len(),
        records[i].error is Some,
        records[i].transaction_hash is Some,
        records[j].transaction_hash == records[i].transaction_hash,
    ensures
        event_at(records, block_number, j) is None,
{
    let hash = records[i].transaction_hash->0;
    assert(invalid_before(records, j).contains(hash));
}

/// Every event of a batch is what one of its records yields.
pub proof fn lemma_batch_event_origin(
    records: Seq<RawTraceRecord>,
    block_number: u64,
    event: LifecycleEvent,
)
    requires
        batch_events(records, block_number).contains(event),
    ensures
        exists|j: int|
            0 <= j < records.len() && #[trigger] event_at(records, block_number, j) == Some(event),
{
    let all = outcomes(records, block_number);
    all.lemma_filter_map_contains(yielded(), event);
    let outcome = choose|outcome: Option<LifecycleEvent>| #[trigger]
        all.contains(outcome) && yielded()(outcome) == Some(event);
    let j = choose|j: int| 0 <= j < all.len() && all[j] == outcome;
    assert(event_at(records, block_number, j) == Some(event));
}

} // verus!
