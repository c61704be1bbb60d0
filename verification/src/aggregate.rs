//! The aggregator: the flagged addresses, sorted and freed of duplicates.

use crate::address::{lemma_address_order, Address};
use vstd::prelude::*;

verus! {

/// Each address precedes every later one, so the sequence is sorted and
/// holds no address twice.
pub open spec fn strictly_ascending(s: Seq<Address>) -> bool {
    forall|i: int, j: int| 0 <= i < j < s.len() ==> (#[trigger] s[i]).precedes(#[trigger] s[j])
}

/// Both sequences hold the same addresses, however often and in whatever
/// order.
pub open spec fn same_addresses(s: Seq<Address>, t: Seq<Address>) -> bool {
    forall|a: Address| s.contains(a) <==> t.contains(a)
}

/// `t` holds the addresses of `s`, each once, in ascending order.
pub open spec fn is_canonical_form(t: Seq<Address>, s: Seq<Address>) -> bool {
    strictly_ascending(t) && same_addresses(t, s)
}

/// The addresses of `s`, each once, in ascending order.
pub open spec fn canonical(s: Seq<Address>) -> Seq<Address> {
    choose|t: Seq<Address>| is_canonical_form(t, s)
}

/// The last address of a strictly ascending sequence comes after all others.
proof fn lemma_last_is_greatest(s: Seq<Address>, a: Address)
    requires
        strictly_ascending(s),
        s.contains(a),
    ensures
        a == s.last() || a.precedes(s.last()),
{
    let k = choose|k: int| 0 <= k < s.len() && s[k] == a;
    if k < s.len() - 1 {
        assert(s[k].precedes(s[s.len() - 1]));
    }
}

/// Two strictly ascending sequences that hold the same addresses are equal.
pub proof fn lemma_ascending_unique(s: Seq<Address>, t: Seq<Address>)
    requires
        strictly_ascending(s),
        strictly_ascending(t),
        same_addresses(s, t),
    ensures
        s == t,
    decreases s.len(),
{
    if s.len() == 0 {
        if t.len() > 0 {
            assert(t.contains(t[0]));
            assert(s.contains(t[0]));
        }
        assert(s =~= t);
    } else {
        assert(s.contains(s.last()));
        assert(t.contains(s.last()));
        assert(t.contains(t.last()));
        assert(s.contains(t.last()));
        lemma_last_is_greatest(s, t.last());
        lemma_last_is_greatest(t, s.last());
        lemma_address_order(s.last(), t.last(), s.last());
        assert(s.last() == t.last());
        let s0 = s.drop_last();
        let t0 = t.drop_last();
        assert forall|a: Address| s0.contains(a) <==> t0.contains(a) by {
            lemma_address_order(a, s.last(), a);
            if s0.contains(a) {
                let k = choose|k: int| 0 <= k < s0.len() && s0[k] == a;
                assert(s[k].precedes(s[s.len() - 1]));
                assert(s.contains(a));
                assert(t.contains(a));
                let m = choose|m: int| 0 <= m < t.len() && t[m] == a;
                assert(t0[m] == a);
            }
            if t0.contains(a) {
                let k = choose|k: int| 0 <= k < t0.len() && t0[k] == a;
                assert(t[k].precedes(t[t.len() - 1]));
                assert(t.contains(a));
                assert(s.contains(a));
                let m = choose|m: int| 0 <= m < s.len() && s[m] == a;
                assert(s0[m] == a);
            }
        }
        assert(strictly_ascending(s0)) by {
            assert forall|i: int, j: int| 0 <= i < j < s0.len() implies (#[trigger] s0[i]).precedes(
                #[trigger] s0[j],
            ) by {
                assert(s[i].precedes(s[j]));
            }
        }
        assert(strictly_ascending(t0)) by {
            assert forall|i: int, j: int| 0 <= i < j < t0.len() implies (#[trigger] t0[i]).precedes(
                #[trigger] t0[j],
            ) by {
                assert(t[i].precedes(t[j]));
            }
        }
        lemma_ascending_unique(s0, t0);
        assert(s =~= s0.push(s.last()));
        assert(t =~= t0.push(t.last()));
    }
}

/// A sequence in canonical form of `s` is the canonical form of `s`.
pub proof fn lemma_canonical_is(t: Seq<Address>, s: Seq<Address>)
    requires
        is_canonical_form(t, s),
    ensures
        t == canonical(s),
{
    let c = canonical(s);
    assert(is_canonical_form(c, s));
    assert(same_addresses(t, c));
    lemma_ascending_unique(t, c);
}

/// The index at which `a` stands in `sorted`, or at which it would have to
/// be put to keep the order.
fn search(sorted: &Vec<Address>, a: &Address) -> (k: usize)
    requires
        strictly_ascending(sorted@),
    ensures
        k <= sorted.len(),
        forall|i: int| 0 <= i < k ==> (#[trigger] sorted@[i]).precedes(*a),
        forall|i: int| k <= i < sorted.len() ==> !(#[trigger] sorted@[i]).precedes(*a),
{
    let mut lo: usize = 0;
    let mut hi: usize = sorted.len();
    while lo < hi
        invariant
            lo <= hi <= sorted.len(),
            strictly_ascending(sorted@),
            forall|i: int| 0 <= i < lo ==> (#[trigger] sorted@[i]).precedes(*a),
            forall|i: int| hi <= i < sorted.len() ==> !(#[trigger] sorted@[i]).precedes(*a),
        decreases hi - lo,
    {
        let mid = lo + (hi - lo) / 2;
        if sorted[mid].is_before(a) {
            proof {
                assert forall|i: int| 0 <= i < mid + 1 implies (#[trigger] sorted@[i]).precedes(
                    *a,
                ) by {
                    if i < mid {
                        assert(sorted@[i].precedes(sorted@[mid as int]));
                        lemma_address_order(sorted@[i], sorted@[mid as int], *a);
                    }
                }
            }
            lo = mid + 1;
        } else {
            proof {
                assert forall|i: int| mid <= i < sorted.len() implies !(#[trigger] sorted@[i]).precedes(
                    *a,
                ) by {
                    if mid < i {
                        assert(sorted@[mid as int].precedes(sorted@[i]));
                        lemma_address_order(sorted@[mid as int], sorted@[i], *a);
                    }
                }
            }
            hi = mid;
        }
    }
    lo
}

/// Putting `a` at index `k` of a strictly ascending sequence, between the
/// addresses that precede it and those that it precedes, keeps the sequence
/// strictly ascending and adds `a` to what it holds.
proof fn lemma_insert_in_place(before: Seq<Address>, k: int, a: Address)
    requires
        strictly_ascending(before),
        0 <= k <= before.len(),
        forall|i: int| 0 <= i < k ==> (#[trigger] before[i]).precedes(a),
        forall|i: int| k <= i < before.len() ==> a.precedes(#[trigger] before[i]),
    ensures
        strictly_ascending(before.insert(k, a)),
        forall|x: Address| #[trigger]
            before.insert(k, a).contains(x) <==> (before.contains(x) || x == a),
{
    let after = before.insert(k, a);
    before.insert_ensures(k, a);
    assert forall|i: int, j: int| 0 <= i < j < after.len() implies (#[trigger] after[i]).precedes(
        #[trigger] after[j],
    ) by {
        if j < k {
            assert(before[i].precedes(before[j]));
        } else if j == k {
            assert(before[i].precedes(a));
        } else if i < k {
            assert(before[i].precedes(before[j - 1]));
        } else if i == k {
            assert(a.precedes(before[j - 1]));
        } else {
            assert(before[i - 1].precedes(before[j - 1]));
        }
    }
    assert forall|x: Address| after.contains(x) <==> (before.contains(x) || x == a) by {
        if after.contains(x) {
            let m = choose|m: int| 0 <= m < after.len() && after[m] == x;
            if m < k {
                assert(before[m] == x);
            } else if m > k {
                assert(before[m - 1] == x);
            }
        }
        if before.contains(x) {
            let m = choose|m: int| 0 <= m < before.len() && before[m] == x;
            if m < k {
                assert(after[m] == x);
            } else {
                assert(after[m + 1] == x);
            }
        }
        if x == a {
            assert(after[k] == x);
        }
    }
}

/// Puts `a` into the strictly ascending `sorted`, unless it is there.
fn insert_unique(sorted: &mut Vec<Address>, a: Address)
    requires
        strictly_ascending(old(sorted)@),
    ensures
        strictly_ascending(final(sorted)@),
        forall|x: Address| #[trigger]
            final(sorted)@.contains(x) <==> (old(sorted)@.contains(x) || x == a),
{
    let k = search(sorted, &a);
    let ghost before = sorted@;
    if k < sorted.len() && sorted[k] == a {
        assert(before[k as int] == a);
        return ;
    }
    proof {
        assert forall|i: int| k <= i < before.len() implies a.precedes(#[trigger] before[i]) by {
            lemma_address_order(a, before[k as int], before[i]);
            if k < i {
                assert(before[k as int].precedes(before[i]));
            }
        }
        lemma_insert_in_place(before, k as int, a);
    }
    sorted.insert(k, a);
    assert(sorted@ == before.insert(k as int, a));
}

/// The addresses of `list`, each once, in ascending order.
pub fn sort_dedup(list: &Vec<Address>) -> (sorted: Vec<Address>)
    ensures
        is_canonical_form(sorted@, list@),
        sorted@ == canonical(list@),
{
    let mut sorted: Vec<Address> = Vec::new();
    let mut i: usize = 0;
    while i < list.len()
        invariant
            i <= list.len(),
            is_canonical_form(sorted@, list@.take(i as int)),
        decreases list.len() - i,
    {
        let ghost before = sorted@;
        insert_unique(&mut sorted, list[i]);
        proof {
            let done = list@.take(i as int);
            let next = list@.take(i + 1);
            assert(next =~= done.push(list@[i as int]));
            assert forall|x: Address| sorted@.contains(x) <==> next.contains(x) by {
                if next.contains(x) {
                    let m = choose|m: int| 0 <= m < next.len() && next[m] == x;
                    if m < i {
                        assert(done[m] == x);
                    }
                }
                if done.contains(x) {
                    let m = choose|m: int| 0 <= m < done.len() && done[m] == x;
                    assert(next[m] == x);
                }
                if x == list@[i as int] {
                    assert(next[i as int] == x);
                }
            }
        }
        i = i + 1;
    }
    proof {
        assert(list@.take(i as int) =~= list@);
        lemma_canonical_is(sorted@, list@);
    }
    sorted
}

/// Where a strictly ascending sequence that lacks `a` would take it: the
/// addresses before that index precede `a`, and `a` precedes the others.
proof fn lemma_insertion_point(t: Seq<Address>, a: Address) -> (k: int)
    requires
        strictly_ascending(t),
        !t.contains(a),
    ensures
        0 <= k <= t.len(),
        forall|i: int| 0 <= i < k ==> (#[trigger] t[i]).precedes(a),
        forall|i: int| k <= i < t.len() ==> a.precedes(#[trigger] t[i]),
    decreases t.len(),
{
    if t.len() == 0 {
        0
    } else if t.last().precedes(a) {
        assert forall|i: int| 0 <= i < t.len() implies (#[trigger] t[i]).precedes(a) by {
            if i < t.len() - 1 {
                assert(t[i].precedes(t[t.len() - 1]));
                lemma_address_order(t[i], t.last(), a);
            }
        }
        t.len() as int
    } else {
        let front = t.drop_last();
        assert(strictly_ascending(front)) by {
            assert forall|i: int, j: int| 0 <= i < j < front.len() implies (#[trigger] front[i]).precedes(
                #[trigger] front[j],
            ) by {
                assert(t[i].precedes(t[j]));
            }
        }
        assert(!front.contains(a)) by {
            if front.contains(a) {
                let m = choose|m: int| 0 <= m < front.len() && front[m] == a;
                assert(t[m] == a);
            }
        }
        let k = lemma_insertion_point(front, a);
        assert(t.contains(t.last()));
        lemma_address_order(a, t.last(), a);
        assert forall|i: int| 0 <= i < k implies (#[trigger] t[i]).precedes(a) by {
            assert(front[i].precedes(a));
        }
        assert forall|i: int| k <= i < t.len() implies a.precedes(#[trigger] t[i]) by {
            if i < t.len() - 1 {
                assert(a.precedes(front[i]));
            }
        }
        k
    }
}

/// Every sequence of addresses has a canonical form.
pub proof fn lemma_canonical_exists(s: Seq<Address>)
    ensures
        is_canonical_form(canonical(s), s),
    decreases s.len(),
{
    if s.len() == 0 {
        assert(is_canonical_form(Seq::<Address>::empty(), s));
    } else {
        let front = s.drop_last();
        let a = s.last();
        lemma_canonical_exists(front);
        let t = canonical(front);
        assert(s =~= front.push(a));
        if t.contains(a) {
            assert forall|x: Address| t.contains(x) <==> s.contains(x) by {
                lemma_push_contains(front, a, x);
            }
            assert(is_canonical_form(t, s));
        } else {
            let k = lemma_insertion_point(t, a);
            lemma_insert_in_place(t, k, a);
            let u = t.insert(k, a);
            assert forall|x: Address| u.contains(x) <==> s.contains(x) by {
                lemma_push_contains(front, a, x);
            }
            assert(is_canonical_form(u, s));
        }
    }
}

/// What a sequence holds after one more address was put at its end.
proof fn lemma_push_contains(s: Seq<Address>, a: Address, x: Address)
    ensures
        s.push(a).contains(x) <==> (s.contains(x) || x == a),
{
    let t = s.push(a);
    if t.contains(x) {
        let m = choose|m: int| 0 <= m < t.len() && t[m] == x;
        if m < s.len() {
            assert(s[m] == x);
        }
    }
    if s.contains(x) {
        let m = choose|m: int| 0 <= m < s.len() && s[m] == x;
        assert(t[m] == x);
    }
    if x == a {
        assert(t[s.len() as int] == x);
    }
}

/// The canonical form depends on which addresses a list holds, not on their
/// order or on how often each occurs.
pub proof fn lemma_canonical_order_independent(s: Seq<Address>, t: Seq<Address>)
    requires
        same_addresses(s, t),
    ensures
        canonical(s) == canonical(t),
{
    lemma_canonical_exists(s);
    lemma_canonical_exists(t);
    lemma_ascending_unique(canonical(s), canonical(t));
}

/// Putting a list in canonical form a second time changes nothing.
pub proof fn lemma_canonical_idempotent(s: Seq<Address>)
    ensures
        canonical(canonical(s)) == canonical(s),
{
    lemma_canonical_exists(s);
    lemma_canonical_exists(canonical(s));
    lemma_ascending_unique(canonical(canonical(s)), canonical(s));
}

/// The canonical form holds no address twice.
pub proof fn lemma_canonical_no_duplicates(s: Seq<Address>)
    ensures
        canonical(s).no_duplicates(),
{
    lemma_canonical_exists(s);
    let c = canonical(s);
    assert forall|i: int, j: int| 0 <= i < c.len() && 0 <= j < c.len() && i != j implies c[i]
        != c[j] by {
        lemma_address_order(c[i], c[j], c[i]);
        if i < j {
            assert(c[i].precedes(c[j]));
        } else {
            assert(c[j].precedes(c[i]));
        }
    }
}

/// The addresses found to be reinitialized: sorted, each once.
pub struct ReinitializedAddressSet {
    addresses: Vec<Address>,
}

impl View for ReinitializedAddressSet {
    type V = Seq<Address>;

    closed spec fn view(&self) -> Seq<Address> {
        self.addresses@
    }
}

impl ReinitializedAddressSet {
    #[verifier::type_invariant]
    spec fn ascending(self) -> bool {
        strictly_ascending(self.addresses@)
    }

    /// The set of the addresses flagged within the range and of those found
    /// by the fallback check.
    pub fn collect(in_window: &Vec<Address>, fallback: &Vec<Address>) -> (r:
        ReinitializedAddressSet)
        ensures
            r@ == canonical(in_window@ + fallback@),
    {
        let mut all: Vec<Address> = Vec::new();
        let mut i: usize = 0;
        while i < in_window.len()
            invariant
                i <= in_window.len(),
                all@ == in_window@.take(i as int),
            decreases in_window.len() - i,
        {
            all.push(in_window[i]);
            assert(in_window@.take(i + 1) =~= in_window@.take(i as int).push(in_window@[i as int]));
            i = i + 1;
        }
        assert(in_window@.take(i as int) =~= in_window@);
        let mut j: usize = 0;
        assert(fallback@.take(0) =~= Seq::empty());
        assert(in_window@ + fallback@.take(0) =~= in_window@);
        while j < fallback.len()
            invariant
                j <= fallback.len(),
                all@ == in_window@ + fallback@.take(j as int),
            decreases fallback.len() - j,
        {
            all.push(fallback[j]);
            assert(in_window@ + fallback@.take(j + 1) =~= (in_window@ + fallback@.take(
                j as int,
            )).push(fallback@[j as int]));
            j = j + 1;
        }
        assert(fallback@.take(j as int) =~= fallback@);
        ReinitializedAddressSet { addresses: sort_dedup(&all) }
    }

    /// The addresses in ascending order.
    pub fn addresses(&self) -> (r: &Vec<Address>)
        ensures
            r@ == self@,
            strictly_ascending(r@),
    {
        proof {
            use_type_invariant(self);
        }
        &self.addresses
    }

    /// How many addresses the set holds.
    pub fn len(&self) -> (n: usize)
        ensures
            n == self@.len(),
    {
        self.addresses.len()
    }

    /// Whether the set holds no address.
    pub fn is_empty(&self) -> (r: bool)
        ensures
            r == (self@.len() == 0),
    {
        self.addresses.len() == 0
    }

    /// Whether the set holds `address`.
    pub fn contains(&self, address: &Address) -> (r: bool)
        ensures
            r == self@.contains(*address),
    {
        proof {
            use_type_invariant(self);
        }
        let k = search(&self.addresses, address);
        if k < self.addresses.len() && self.addresses[k] == *address {
            true
        } else {
            proof {
                if self@.contains(*address) {
                    let m = choose|m: int| 0 <= m < self@.len() && self@[m] == *address;
                    lemma_address_order(self@[m], self@[k as int], self@[m]);
                    if k < m {
                        assert(self@[k as int].precedes(self@[m]));
                    }
                }
            }
            false
        }
    }
}

} // verus!
