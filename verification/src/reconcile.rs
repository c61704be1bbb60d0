//! The reconciler: pairs self-destruct events with later create events of the
//! same address to find the contracts that were reinitialized within the
//! queried range.

use crate::address::Address;
use crate::event::{LifecycleEvent, TraceType};
use vstd::prelude::*;

verus! {

broadcast use vstd::seq_lib::group_seq_properties;

/// Selects the self-destruct events.
pub open spec fn self_destructs() -> spec_fn(LifecycleEvent) -> bool {
    |event: LifecycleEvent| event.kind == TraceType::SelfDestruct
}

/// Selects the create events.
pub open spec fn creates() -> spec_fn(LifecycleEvent) -> bool {
    |event: LifecycleEvent| event.kind == TraceType::Create
}

/// Splits the events into the self-destructs and the creates, each part in
/// the order in which its events came.
pub fn partition_events(events: Vec<LifecycleEvent>) -> (parts: (
    Vec<LifecycleEvent>,
    Vec<LifecycleEvent>,
))
    ensures
        parts.0@ == events@.filter(self_destructs()),
        parts.1@ == events@.filter(creates()),
{
    let mut destroyed: Vec<LifecycleEvent> = Vec::new();
    let mut created: Vec<LifecycleEvent> = Vec::new();
    let mut i: usize = 0;
    assert(events@.take(0) =~= Seq::empty());
    while i < events.len()
        invariant
            i <= events.len(),
            destroyed@ == events@.take(i as int).filter(self_destructs()),
            created@ == events@.take(i as int).filter(creates()),
        decreases events.len() - i,
    {
        let event = events[i];
        proof {
            assert(events@.take(i + 1) =~= events@.take(i as int).push(event));
            events@.take(i as int).lemma_filter_push(event, self_destructs());
            events@.take(i as int).lemma_filter_push(event, creates());
        }
        if event.kind == TraceType::SelfDestruct {
            destroyed.push(event);
        } else {
            created.push(event);
        }
        i = i + 1;
    }
    assert(events@.take(i as int) =~= events@);
    (destroyed, created)
}

/// A contract destroyed by `destroyed` was deployed again by `created`: both
/// speak of one address, and the creation comes strictly later, in a later
/// block or later in the same block.
pub open spec fn reinitializes(destroyed: LifecycleEvent, created: LifecycleEvent) -> bool {
    &&& destroyed.address == created.address
    &&& (destroyed.block_number < created.block_number || (destroyed.block_number
        == created.block_number && destroyed.transaction_position
        < created.transaction_position))
}

/// Whether `created` redeploys what `destroyed` destroyed.
pub fn is_reinitialized_by(destroyed: &LifecycleEvent, created: &LifecycleEvent) -> (r: bool)
    ensures
        r == reinitializes(*destroyed, *created),
{
    if destroyed.block_number == created.block_number && destroyed.transaction_position
        < created.transaction_position && destroyed.address == created.address {
        true
    } else if destroyed.block_number < created.block_number && destroyed.address
        == created.address {
        true
    } else {
        false
    }
}

/// Selects the events that redeploy what `destroyed` destroyed.
pub open spec fn redeploying(destroyed: LifecycleEvent) -> spec_fn(LifecycleEvent) -> bool {
    |created: LifecycleEvent| reinitializes(destroyed, created)
}

/// The address of `destroyed`, once for each event of `created` that
/// redeploys it.
pub open spec fn recreations(destroyed: LifecycleEvent, created: Seq<LifecycleEvent>) -> Seq<
    Address,
> {
    Seq::new(created.filter(redeploying(destroyed)).len(), |k: int| destroyed.address)
}

/// Maps a self-destruct event to its recreations among `created`.
pub open spec fn recreations_among(created: Seq<LifecycleEvent>) -> spec_fn(LifecycleEvent) -> Seq<
    Address,
> {
    |destroyed: LifecycleEvent| recreations(destroyed, created)
}

/// The addresses flagged as reinitialized: for each event of `destroyed` in
/// turn, its address once for each event of `created` that redeploys it.
pub open spec fn flagged(destroyed: Seq<LifecycleEvent>, created: Seq<LifecycleEvent>) -> Seq<
    Address,
> {
    destroyed.map_values(recreations_among(created)).flatten()
}

/// Compares every self-destruct with every create and lists the address of
/// each pair in which the create redeploys the destroyed contract. An
/// address occurs once for each such pair.
pub fn reconcile(destroyed: &Vec<LifecycleEvent>, created: &Vec<LifecycleEvent>) -> (out: Vec<
    Address,
>)
    ensures
        out@ == flagged(destroyed@, created@),
{
    let mut out: Vec<Address> = Vec::new();
    let ghost per_event = recreations_among(created@);
    let mut i: usize = 0;
    assert(destroyed@.take(0).map_values(per_event) =~= Seq::empty());
    while i < destroyed.len()
        invariant
            i <= destroyed.len(),
            per_event == recreations_among(created@),
            out@ == destroyed@.take(i as int).map_values(per_event).flatten(),
        decreases destroyed.len() - i,
    {
        let one = destroyed[i];
        let ghost before = out@;
        let mut j: usize = 0;
        assert(created@.take(0) =~= Seq::empty());
        assert(before + recreations(one, created@.take(0)) =~= before);
        while j < created.len()
            invariant
                j <= created.len(),
                out@ == before + recreations(one, created@.take(j as int)),
            decreases created.len() - j,
        {
            let other = created[j];
            proof {
                assert(created@.take(j + 1) =~= created@.take(j as int).push(other));
                created@.take(j as int).lemma_filter_push(other, redeploying(one));
            }
            if is_reinitialized_by(&one, &other) {
                out.push(one.address);
            }
            assert(out@ =~= before + recreations(one, created@.take(j + 1)));
            j = j + 1;
        }
        proof {
            assert(created@.take(j as int) =~= created@);
            let done = destroyed@.take(i as int).map_values(per_event);
            assert(destroyed@.take(i + 1).map_values(per_event) =~= done.push(per_event(one)));
            done.lemma_flatten_push(per_event(one));
        }
        i = i + 1;
    }
    assert(destroyed@.take(i as int) =~= destroyed@);
    out
}

/// Within one block the transaction position decides: a create redeploys a
/// contract destroyed in the same block exactly when it comes at a later
/// position.
pub proof fn lemma_same_block_tie_break(destroyed: LifecycleEvent, created: LifecycleEvent)
    requires
        destroyed.address == created.address,
        destroyed.block_number == created.block_number,
    ensures
        reinitializes(destroyed, created) <==> destroyed.transaction_position
            < created.transaction_position,
{
}

/// Across blocks the block number decides, whatever the positions: a create
/// in another block redeploys the destroyed contract exactly when its block
/// is the later one.
pub proof fn lemma_cross_block(destroyed: LifecycleEvent, created: LifecycleEvent)
    requires
        destroyed.address == created.address,
        destroyed.block_number != created.block_number,
    ensures
        reinitializes(destroyed, created) <==> destroyed.block_number < created.block_number,
{
}

/// One self-destruct and one create flag the address once where the create
/// redeploys the contract, and flag nothing where it does not.
pub proof fn lemma_flagged_pair(destroyed: LifecycleEvent, created: LifecycleEvent)
    ensures
        flagged(seq![destroyed], seq![created]) == if reinitializes(destroyed, created) {
            seq![destroyed.address]
        } else {
            Seq::<Address>::empty()
        },
{
    let pairs = seq![created];
    assert(pairs =~= Seq::<LifecycleEvent>::empty().push(created));
    Seq::<LifecycleEvent>::empty().lemma_filter_push(created, redeploying(destroyed));
    assert(Seq::<LifecycleEvent>::empty().filter(redeploying(destroyed)).len() == 0);
    let mapped = seq![destroyed].map_values(recreations_among(pairs));
    assert(mapped.len() == 1);
    mapped.lemma_flatten_singleton();
    assert(mapped[0] == recreations(destroyed, pairs));
    if reinitializes(destroyed, created) {
        assert(recreations(destroyed, pairs) =~= seq![destroyed.address]);
    } else {
        assert(recreations(destroyed, pairs) =~= Seq::<Address>::empty());
    }
}

/// A self-destruct is flagged by `created` exactly when one of its events
/// redeploys the destroyed contract.
pub proof fn lemma_recreations_contains(
    destroyed: LifecycleEvent,
    created: Seq<LifecycleEvent>,
    address: Address,
)
    ensures
        recreations(destroyed, created).contains(address) <==> (address == destroyed.address
            && exists|j: int|
            0 <= j < created.len() && reinitializes(destroyed, #[trigger] created[j])),
{
    let matching = created.filter(redeploying(destroyed));
    let list = recreations(destroyed, created);
    if list.contains(address) {
        let k = choose|k: int| 0 <= k < list.len() && list[k] == address;
        created.lemma_filter_pred(redeploying(destroyed), k);
        assert(created.contains(matching[k])) by {
            assert(matching.contains(matching[k]));
            created.lemma_filter_contains_rev(redeploying(destroyed), matching[k]);
        }
        let j = choose|j: int| 0 <= j < created.len() && created[j] == matching[k];
        assert(reinitializes(destroyed, created[j]));
    }
    if address == destroyed.address && exists|j: int|
        0 <= j < created.len() && reinitializes(destroyed, #[trigger] created[j]) {
        let j = choose|j: int|
            0 <= j < created.len() && reinitializes(destroyed, #[trigger] created[j]);
        created.lemma_filter_contains(redeploying(destroyed), j);
        assert(matching.len() > 0);
        assert(list[0] == address);
    }
}

/// An address is flagged exactly when some self-destruct of it is paired
/// with a create that redeploys it. So a self-destruct without such a
/// create, or a create without such a self-destruct, flags nothing.
pub proof fn lemma_flagged_contains(
    destroyed: Seq<LifecycleEvent>,
    created: Seq<LifecycleEvent>,
    address: Address,
)
    ensures
        flagged(destroyed, created).contains(address) <==> exists|i: int, j: int|
            0 <= i < destroyed.len() && 0 <= j < created.len() && (#[trigger] destroyed[i]).address
                == address && reinitializes(destroyed[i], #[trigger] created[j]),
    decreases destroyed.len(),
{
    let per_event = recreations_among(created);
    if destroyed.len() == 0 {
        assert(destroyed.map_values(per_event) =~= Seq::empty());
    } else {
        let front = destroyed.drop_last();
        let last = destroyed.last();
        lemma_flagged_contains(front, created, address);
        lemma_recreations_contains(last, created, address);
        assert(destroyed.map_values(per_event) =~= front.map_values(per_event).push(
            per_event(last),
        ));
        front.map_values(per_event).lemma_flatten_push(per_event(last));
        assert(flagged(destroyed, created) == flagged(front, created) + recreations(
            last,
            created,
        ));
        if flagged(destroyed, created).contains(address) {
            if flagged(front, created).contains(address) {
                let (i, j) = choose|i: int, j: int|
                    0 <= i < front.len() && 0 <= j < created.len() && (#[trigger] front[i]).address
                        == address && reinitializes(front[i], #[trigger] created[j]);
                assert(destroyed[i].address == address && reinitializes(
                    destroyed[i],
                    created[j],
                ));
            } else {
                assert(recreations(last, created).contains(address));
                let j = choose|j: int|
                    0 <= j < created.len() && reinitializes(last, #[trigger] created[j]);
                let i = destroyed.len() - 1;
                assert(destroyed[i].address == address && reinitializes(
                    destroyed[i],
                    created[j],
                ));
            }
        }
        if exists|i: int, j: int|
            0 <= i < destroyed.len() && 0 <= j < created.len() && (#[trigger] destroyed[i]).address
                == address && reinitializes(destroyed[i], #[trigger] created[j]) {
            let (i, j) = choose|i: int, j: int|
                0 <= i < destroyed.len() && 0 <= j < created.len()
                    && (#[trigger] destroyed[i]).address == address && reinitializes(
                    destroyed[i],
                    #[trigger] created[j],
                );
            if i < front.len() {
                assert(front[i].address == address && reinitializes(front[i], created[j]));
                assert(flagged(front, created).contains(address));
            } else {
                assert(reinitializes(last, created[j]));
                assert(recreations(last, created).contains(address));
            }
        }
    }
}

} // verus!
