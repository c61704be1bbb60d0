//! The pipeline from the events of a block range to the set of reinitialized
//! addresses, in its two stages: the scan of the events, which needs nothing
//! but the events, and the conclusion, which adds what the account store
//! answered for the destroyed addresses.

use crate::address::Address;
use crate::aggregate::{
    canonical, lemma_canonical_exists, lemma_canonical_order_independent, same_addresses,
    ReinitializedAddressSet,
};
use crate::event::{LifecycleEvent, TraceType};
use crate::fallback::{
    fallback_candidates, fallback_matches, lemma_fallback_flags_existing, lemma_recreated_contains,
    lookup_candidates, lookups_in, recreated, StoreLookup,
};
use crate::reconcile::{
    creates, flagged, lemma_flagged_contains, partition_events, reconcile, reinitializes,
    self_destructs,
};
use vstd::prelude::*;

verus! {

broadcast use vstd::seq_lib::group_seq_properties;

/// The events that the fetch of one block contributed: none where the fetch
/// failed or the block had no events.
pub open spec fn contribution<E>(result: Result<Option<Vec<LifecycleEvent>>, E>) -> Seq<
    LifecycleEvent,
> {
    match result {
        Ok(Some(events)) => events@,
        _ => Seq::empty(),
    }
}

/// Maps the outcome of a fetch to its contribution.
pub open spec fn contributions<E>() -> spec_fn(Result<Option<Vec<LifecycleEvent>>, E>) -> Seq<
    LifecycleEvent,
> {
    |result: Result<Option<Vec<LifecycleEvent>>, E>| contribution(result)
}

/// The events of all blocks in one list: block after block in the order of
/// the outcomes, the events of a block in their own order.
pub open spec fn combined<E>(results: Seq<Result<Option<Vec<LifecycleEvent>>, E>>) -> Seq<
    LifecycleEvent,
> {
    results.map_values(contributions::<E>()).flatten()
}

/// Joins the outcomes of the per-block fetches into one list of events. A
/// fetch that failed contributes nothing.
pub fn combine_block_results<E>(results: &Vec<Result<Option<Vec<LifecycleEvent>>, E>>) -> (out:
    Vec<LifecycleEvent>)
    ensures
        out@ == combined(results@),
{
    let mut out: Vec<LifecycleEvent> = Vec::new();
    let mut i: usize = 0;
    assert(results@.take(0).map_values(contributions::<E>()) =~= Seq::empty());
    while i < results.len()
        invariant
            i <= results.len(),
            out@ == combined(results@.take(i as int)),
        decreases results.len() - i,
    {
        let ghost before = out@;
        let ghost part = contribution(results@[i as int]);
        match &results[i] {
            Ok(Some(events)) => {
                let mut j: usize = 0;
                while j < events.len()
                    invariant
                        j <= events.len(),
                        events@ == part,
                        out@ == before + part.take(j as int),
                    decreases events.len() - j,
                {
                    out.push(events[j]);
                    assert(part.take(j + 1) =~= part.take(j as int).push(part[j as int]));
                    j = j + 1;
                }
                assert(part.take(j as int) =~= part);
            },
            _ => {},
        }
        proof {
            let done = results@.take(i as int).map_values(contributions::<E>());
            assert(results@.take(i + 1).map_values(contributions::<E>()) =~= done.push(part));
            done.lemma_flatten_push(part);
            assert(out@ =~= before + part);
        }
        i = i + 1;
    }
    assert(results@.take(i as int) =~= results@);
    out
}

/// The addresses that the events alone show as reinitialized: one entry for
/// each pair of a self-destruct and a create that redeploys it.
pub open spec fn in_window(events: Seq<LifecycleEvent>) -> Seq<Address> {
    flagged(events.filter(self_destructs()), events.filter(creates()))
}

/// The addresses that the fallback check has to look up: that of every
/// self-destruct event.
pub open spec fn candidates(events: Seq<LifecycleEvent>) -> Seq<Address> {
    lookup_candidates(events.filter(self_destructs()))
}

/// The result of the pipeline for the given events and store answers.
pub open spec fn reinitialized(events: Seq<LifecycleEvent>, lookups: Seq<StoreLookup>) -> Seq<
    Address,
> {
    canonical(in_window(events) + recreated(lookups))
}

/// What the first stage hands to the second: the addresses flagged within
/// the range, and the addresses whose accounts are to be looked up in the
/// store.
pub struct WindowScan {
    pub flagged: Vec<Address>,
    pub candidates: Vec<Address>,
}

/// The first stage: reconciles the events of the range.
pub fn scan_window(events: Vec<LifecycleEvent>) -> (scan: WindowScan)
    ensures
        scan.flagged@ == in_window(events@),
        scan.candidates@ == candidates(events@),
{
    let (destroyed, created) = partition_events(events);
    let flagged = reconcile(&destroyed, &created);
    let candidates = fallback_candidates(&destroyed);
    WindowScan { flagged, candidates }
}

/// The second stage: adds the addresses that the store holds an account for
/// and puts the whole in order.
pub fn conclude(scan: &WindowScan, lookups: &Vec<StoreLookup>) -> (set: ReinitializedAddressSet)
    ensures
        set@ == canonical(scan.flagged@ + recreated(lookups@)),
{
    let fallback = fallback_matches(lookups);
    ReinitializedAddressSet::collect(&scan.flagged, &fallback)
}

/// Both stages in one, for store answers that are at hand.
pub fn detect(events: Vec<LifecycleEvent>, lookups: &Vec<StoreLookup>) -> (set:
    ReinitializedAddressSet)
    ensures
        set@ == reinitialized(events@, lookups@),
{
    let scan = scan_window(events);
    conclude(&scan, lookups)
}

/// An event of a list that passes a filter is in the filtered list, and the
/// filtered list holds nothing else.
proof fn lemma_filter_members(
    events: Seq<LifecycleEvent>,
    pred: spec_fn(LifecycleEvent) -> bool,
    event: LifecycleEvent,
)
    ensures
        events.filter(pred).contains(event) <==> (events.contains(event) && pred(event)),
{
    let kept = events.filter(pred);
    if kept.contains(event) {
        let m = choose|m: int| 0 <= m < kept.len() && kept[m] == event;
        events.lemma_filter_pred(pred, m);
        events.lemma_filter_contains_rev(pred, event);
    }
    if events.contains(event) && pred(event) {
        let k = choose|k: int| 0 <= k < events.len() && events[k] == event;
        events.lemma_filter_contains(pred, k);
    }
}

/// The events alone flag an address exactly when they hold a self-destruct
/// of it and a create that redeploys it.
pub proof fn lemma_in_window_contains(events: Seq<LifecycleEvent>, address: Address)
    ensures
        in_window(events).contains(address) <==> exists|d: LifecycleEvent, c: LifecycleEvent|
            #![trigger reinitializes(d, c)]
            events.contains(d) && events.contains(c) && d.kind == TraceType::SelfDestruct
                && c.kind == TraceType::Create && d.address == address && reinitializes(d, c),
{
    let destroyed = events.filter(self_destructs());
    let created = events.filter(creates());
    lemma_flagged_contains(destroyed, created, address);
    if in_window(events).contains(address) {
        let (i, j) = choose|i: int, j: int|
            0 <= i < destroyed.len() && 0 <= j < created.len() && (#[trigger] destroyed[i]).address
                == address && reinitializes(destroyed[i], #[trigger] created[j]);
        assert(destroyed.contains(destroyed[i]));
        assert(created.contains(created[j]));
        lemma_filter_members(events, self_destructs(), destroyed[i]);
        lemma_filter_members(events, creates(), created[j]);
        assert(reinitializes(destroyed[i], created[j]));
    }
    if exists|d: LifecycleEvent, c: LifecycleEvent|
        #![trigger reinitializes(d, c)]
        events.contains(d) && events.contains(c) && d.kind == TraceType::SelfDestruct && c.kind
            == TraceType::Create && d.address == address && reinitializes(d, c) {
        let (d, c) = choose|d: LifecycleEvent, c: LifecycleEvent|
            #![trigger reinitializes(d, c)]
            events.contains(d) && events.contains(c) && d.kind == TraceType::SelfDestruct
                && c.kind == TraceType::Create && d.address == address && reinitializes(d, c);
        lemma_filter_members(events, self_destructs(), d);
        lemma_filter_members(events, creates(), c);
        let i = choose|i: int| 0 <= i < destroyed.len() && destroyed[i] == d;
        let j = choose|j: int| 0 <= j < created.len() && created[j] == c;
        assert(destroyed[i].address == address && reinitializes(destroyed[i], created[j]));
    }
}

/// The result holds an address exactly when the events flag it or a lookup
/// found an account for it.
pub proof fn lemma_reinitialized_contains(
    events: Seq<LifecycleEvent>,
    lookups: Seq<StoreLookup>,
    address: Address,
)
    ensures
        reinitialized(events, lookups).contains(address) <==> (in_window(events).contains(address)
            || recreated(lookups).contains(address)),
{
    let all = in_window(events) + recreated(lookups);
    lemma_canonical_exists(all);
    if in_window(events).contains(address) {
        let m = choose|m: int| 0 <= m < in_window(events).len() && in_window(events)[m] == address;
        assert(all[m] == address);
    }
    if recreated(lookups).contains(address) {
        let m = choose|m: int| 0 <= m < recreated(lookups).len() && recreated(lookups)[m] == address;
        assert(all[in_window(events).len() + m] == address);
    }
    if all.contains(address) {
        let m = choose|m: int| 0 <= m < all.len() && all[m] == address;
        if m < in_window(events).len() {
            assert(in_window(events)[m] == address);
        } else {
            assert(recreated(lookups)[m - in_window(events).len()] == address);
        }
    }
}

/// A contract that was destroyed within the range and whose account the
/// store holds is in the result, whether or not the range holds the create
/// that redeployed it.
pub proof fn lemma_fallback_necessity(
    events: Seq<LifecycleEvent>,
    store: Set<Address>,
    destroyed: LifecycleEvent,
)
    requires
        events.contains(destroyed),
        destroyed.kind == TraceType::SelfDestruct,
        store.contains(destroyed.address),
    ensures
        reinitialized(events, lookups_in(store, candidates(events))).contains(destroyed.address),
{
    let list = events.filter(self_destructs());
    lemma_filter_members(events, self_destructs(), destroyed);
    let i = choose|i: int| 0 <= i < list.len() && list[i] == destroyed;
    assert(list[i].address == destroyed.address);
    lemma_fallback_flags_existing(list, store, destroyed.address);
    lemma_reinitialized_contains(
        events,
        lookups_in(store, candidates(events)),
        destroyed.address,
    );
}

/// Events without a self-destruct give the empty result, whatever the store
/// holds. So does a range without any event.
pub proof fn lemma_no_self_destruct_no_result(events: Seq<LifecycleEvent>, store: Set<Address>)
    requires
        forall|i: int| 0 <= i < events.len() ==> (#[trigger] events[i]).kind
            != TraceType::SelfDestruct,
    ensures
        reinitialized(events, lookups_in(store, candidates(events))) == Seq::<Address>::empty(),
{
    let lookups = lookups_in(store, candidates(events));
    let result = reinitialized(events, lookups);
    let list = events.filter(self_destructs());
    if list.len() > 0 {
        assert(list.contains(list[0]));
        lemma_filter_members(events, self_destructs(), list[0]);
        let k = choose|k: int| 0 <= k < events.len() && events[k] == list[0];
        assert(events[k].kind == TraceType::SelfDestruct);
    }
    if result.len() > 0 {
        let address = result[0];
        assert(result.contains(address));
        lemma_reinitialized_contains(events, lookups, address);
        lemma_flagged_contains(list, events.filter(creates()), address);
        lemma_fallback_flags_existing(list, store, address);
    }
    assert(result =~= Seq::<Address>::empty());
}

/// Where no block contributed an event, because the node had no traces for
/// the range or every fetch failed, there is no event at all.
pub proof fn lemma_nothing_fetched<E>(results: Seq<Result<Option<Vec<LifecycleEvent>>, E>>)
    requires
        forall|i: int| 0 <= i < results.len() ==> contribution(#[trigger] results[i]).len() == 0,
    ensures
        combined(results) == Seq::<LifecycleEvent>::empty(),
    decreases results.len(),
{
    if results.len() == 0 {
        assert(results.map_values(contributions::<E>()) =~= Seq::empty());
    } else {
        let front = results.drop_last();
        let part = contribution(results.last());
        lemma_nothing_fetched(front);
        assert(results.map_values(contributions::<E>()) =~= front.map_values(
            contributions::<E>(),
        ).push(part));
        front.map_values(contributions::<E>()).lemma_flatten_push(part);
        assert(combined(results) =~= Seq::<LifecycleEvent>::empty());
    }
}

/// A range whose blocks contributed no event gives the empty result,
/// whatever the store holds.
pub proof fn lemma_empty_range_empty_result<E>(
    results: Seq<Result<Option<Vec<LifecycleEvent>>, E>>,
    store: Set<Address>,
)
    requires
        forall|i: int| 0 <= i < results.len() ==> contribution(#[trigger] results[i]).len() == 0,
    ensures
        reinitialized(combined(results), lookups_in(store, candidates(combined(results))))
            == Seq::<Address>::empty(),
{
    lemma_nothing_fetched(results);
    lemma_no_self_destruct_no_result(combined(results), store);
}

/// The result depends on which events and which store answers there are,
/// not on the order in which they came or on how often one occurs.
pub proof fn lemma_order_irrelevant(
    events: Seq<LifecycleEvent>,
    lookups: Seq<StoreLookup>,
    other_events: Seq<LifecycleEvent>,
    other_lookups: Seq<StoreLookup>,
)
    requires
        forall|e: LifecycleEvent| events.contains(e) <==> other_events.contains(e),
        forall|l: StoreLookup| lookups.contains(l) <==> other_lookups.contains(l),
    ensures
        reinitialized(events, lookups) == reinitialized(other_events, other_lookups),
{
    let all = in_window(events) + recreated(lookups);
    let other_all = in_window(other_events) + recreated(other_lookups);
    assert forall|a: Address| all.contains(a) <==> other_all.contains(a) by {
        lemma_sum_contains(in_window(events), recreated(lookups), a);
        lemma_sum_contains(in_window(other_events), recreated(other_lookups), a);
        lemma_in_window_contains(events, a);
        lemma_in_window_contains(other_events, a);
        lemma_recreated_contains(lookups, a);
        lemma_recreated_contains(other_lookups, a);
        if recreated(lookups).contains(a) {
            let k = choose|k: int|
                0 <= k < lookups.len() && (#[trigger] lookups[k]).present && lookups[k].address
                    == a;
            assert(lookups.contains(lookups[k]));
            let m = choose|m: int| 0 <= m < other_lookups.len() && other_lookups[m] == lookups[k];
            assert(other_lookups[m].present && other_lookups[m].address == a);
        }
        if recreated(other_lookups).contains(a) {
            let k = choose|k: int|
                0 <= k < other_lookups.len() && (#[trigger] other_lookups[k]).present
                    && other_lookups[k].address == a;
            assert(other_lookups.contains(other_lookups[k]));
            let m = choose|m: int| 0 <= m < lookups.len() && lookups[m] == other_lookups[k];
            assert(lookups[m].present && lookups[m].address == a);
        }
    }
    assert(same_addresses(all, other_all));
    lemma_canonical_order_independent(all, other_all);
}

/// What two lists put end to end hold.
proof fn lemma_sum_contains(s: Seq<Address>, t: Seq<Address>, a: Address)
    ensures
        (s + t).contains(a) <==> (s.contains(a) || t.contains(a)),
{
    let all = s + t;
    if s.contains(a) {
        let m = choose|m: int| 0 <= m < s.len() && s[m] == a;
        assert(all[m] == a);
    }
    if t.contains(a) {
        let m = choose|m: int| 0 <= m < t.len() && t[m] == a;
        assert(all[s.len() + m] == a);
    }
    if all.contains(a) {
        let m = choose|m: int| 0 <= m < all.len() && all[m] == a;
        if m < s.len() {
            assert(s[m] == a);
        } else {
            assert(t[m - s.len()] == a);
        }
    }
}

} // verus!
