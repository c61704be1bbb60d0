//! The fallback check against the account store: a destroyed contract whose
//! account exists in the store was deployed again, within the queried range or
//! after it.

use crate::address::Address;
use crate::event::LifecycleEvent;
use vstd::prelude::*;

verus! {

broadcast use vstd::seq_lib::group_seq_properties;

/// How many addresses one worker looks up in the store at a time.
pub const FALLBACK_CHUNK_SIZE: usize = 10;

/// The answer of the account store for one address: whether it holds an
/// account under it.
#[derive(Clone, Copy, Debug)]
pub struct StoreLookup {
    pub address: Address,
    pub present: bool,
}

impl StoreLookup {
    /// The answer `present` for `address`.
    pub fn new(address: Address, present: bool) -> (r: StoreLookup)
        ensures
            r == (StoreLookup { address, present }),
    {
        StoreLookup { address, present }
    }
}

/// The address of an event.
pub open spec fn event_address() -> spec_fn(LifecycleEvent) -> Address {
    |event: LifecycleEvent| event.address
}

/// The addresses to look up in the store: that of each self-destruct event,
/// in the order of the events and as often as it was destroyed.
pub open spec fn lookup_candidates(destroyed: Seq<LifecycleEvent>) -> Seq<Address> {
    destroyed.map_values(event_address())
}

/// Lists the addresses that the fallback check has to look up.
pub fn fallback_candidates(destroyed: &Vec<LifecycleEvent>) -> (out: Vec<Address>)
    ensures
        out@ == lookup_candidates(destroyed@),
{
    let mut out: Vec<Address> = Vec::new();
    let mut i: usize = 0;
    while i < destroyed.len()
        invariant
            i <= destroyed.len(),
            out@ == lookup_candidates(destroyed@.take(i as int)),
        decreases destroyed.len() - i,
    {
        out.push(destroyed[i].address);
        assert(destroyed@.take(i + 1) =~= destroyed@.take(i as int).push(destroyed@[i as int]));
        i = i + 1;
    }
    assert(destroyed@.take(i as int) =~= destroyed@);
    out
}

/// Selects the lookups that found an account.
pub open spec fn found() -> spec_fn(StoreLookup) -> bool {
    |lookup: StoreLookup| lookup.present
}

/// The address of a lookup.
pub open spec fn lookup_address() -> spec_fn(StoreLookup) -> Address {
    |lookup: StoreLookup| lookup.address
}

/// The addresses that the store holds an account for, in the order of the
/// lookups.
pub open spec fn recreated(lookups: Seq<StoreLookup>) -> Seq<Address> {
    lookups.filter(found()).map_values(lookup_address())
}

/// Flags the address of every lookup that found an account.
pub fn fallback_matches(lookups: &Vec<StoreLookup>) -> (out: Vec<Address>)
    ensures
        out@ == recreated(lookups@),
{
    let mut out: Vec<Address> = Vec::new();
    let mut i: usize = 0;
    assert(lookups@.take(0) =~= Seq::empty());
    while i < lookups.len()
        invariant
            i <= lookups.len(),
            out@ == recreated(lookups@.take(i as int)),
        decreases lookups.len() - i,
    {
        let lookup = lookups[i];
        proof {
            assert(lookups@.take(i + 1) =~= lookups@.take(i as int).push(lookup));
            lookups@.take(i as int).lemma_filter_push(lookup, found());
        }
        if lookup.present {
            out.push(lookup.address);
        }
        i = i + 1;
    }
    assert(lookups@.take(i as int) =~= lookups@);
    out
}

/// The answer of a store that holds accounts for exactly the addresses of
/// `store`.
pub open spec fn answer_of(store: Set<Address>) -> spec_fn(Address) -> StoreLookup {
    |address: Address| StoreLookup { address, present: store.contains(address) }
}

/// The answers of such a store for the given addresses.
pub open spec fn lookups_in(store: Set<Address>, addresses: Seq<Address>) -> Seq<StoreLookup> {
    addresses.map_values(answer_of(store))
}

/// An address is flagged by the fallback check exactly when some lookup
/// found an account for it.
pub proof fn lemma_recreated_contains(lookups: Seq<StoreLookup>, address: Address)
    ensures
        recreated(lookups).contains(address) <==> exists|k: int|
            0 <= k < lookups.len() && (#[trigger] lookups[k]).present && lookups[k].address
                == address,
{
    let hits = lookups.filter(found());
    let list = recreated(lookups);
    if list.contains(address) {
        let m = choose|m: int| 0 <= m < list.len() && list[m] == address;
        lookups.lemma_filter_pred(found(), m);
        assert(hits.contains(hits[m]));
        lookups.lemma_filter_contains_rev(found(), hits[m]);
        let k = choose|k: int| 0 <= k < lookups.len() && lookups[k] == hits[m];
        assert(lookups[k].present && lookups[k].address == address);
    }
    if exists|k: int|
        0 <= k < lookups.len() && (#[trigger] lookups[k]).present && lookups[k].address
            == address {
        let k = choose|k: int|
            0 <= k < lookups.len() && (#[trigger] lookups[k]).present && lookups[k].address
                == address;
        lookups.lemma_filter_contains(found(), k);
        let m = choose|m: int| 0 <= m < hits.len() && hits[m] == lookups[k];
        assert(list[m] == address);
    }
}

/// Against a store, the fallback check flags exactly the destroyed addresses
/// that the store holds an account for.
pub proof fn lemma_fallback_flags_existing(
    destroyed: Seq<LifecycleEvent>,
    store: Set<Address>,
    address: Address,
)
    ensures
        recreated(lookups_in(store, lookup_candidates(destroyed))).contains(address) <==> (
        store.contains(address) && exists|i: int|
            0 <= i < destroyed.len() && (#[trigger] destroyed[i]).address == address),
{
    let lookups = lookups_in(store, lookup_candidates(destroyed));
    lemma_recreated_contains(lookups, address);
    if recreated(lookups).contains(address) {
        let k = choose|k: int|
            0 <= k < lookups.len() && (#[trigger] lookups[k]).present && lookups[k].address
                == address;
        assert(destroyed[k].address == address);
    }
    if store.contains(address) && exists|i: int|
        0 <= i < destroyed.len() && (#[trigger] destroyed[i]).address == address {
        let i = choose|i: int|
            0 <= i < destroyed.len() && (#[trigger] destroyed[i]).address == address;
        assert(lookups[i].present && lookups[i].address == address);
    }
}

} // verus!
