//! Account addresses and transaction hashes as plain byte arrays, with the
//! byte-wise equality and the lexicographic order that the rest of the crate
//! relies on.

use vstd::prelude::*;

verus! {

broadcast use vstd::array::group_array_axioms;

/// `k` is the first index at which `a` and `b` hold different bytes.
pub open spec fn first_difference(a: Seq<u8>, b: Seq<u8>, k: int) -> bool {
    &&& 0 <= k < a.len()
    &&& k < b.len()
    &&& a[k] != b[k]
    &&& forall|i: int| 0 <= i < k ==> a[i] == b[i]
}

/// Strict lexicographic order on byte strings of one length: at the first
/// index where they differ, `a` holds the smaller byte.
pub open spec fn bytes_precede(a: Seq<u8>, b: Seq<u8>) -> bool {
    exists|k: int| first_difference(a, b, k) && a[k] < b[k]
}

/// Two byte strings of one length that agree on their first `n` bytes, or
/// else have a first index below `n` at which they differ.
proof fn lemma_agree_or_differ(a: Seq<u8>, b: Seq<u8>, n: int)
    requires
        a.len() == b.len(),
        0 <= n <= a.len(),
    ensures
        (forall|i: int| 0 <= i < n ==> a[i] == b[i]) || (exists|k: int|
            k < n && first_difference(a, b, k)),
    decreases n,
{
    if n > 0 {
        lemma_agree_or_differ(a, b, n - 1);
        if forall|i: int| 0 <= i < n - 1 ==> a[i] == b[i] {
            if a[n - 1] != b[n - 1] {
                assert(first_difference(a, b, n - 1));
            }
        } else {
            let k = choose|k: int| k < n - 1 && first_difference(a, b, k);
            assert(k < n && first_difference(a, b, k));
        }
    }
}

/// The order is irreflexive.
pub proof fn lemma_bytes_precede_irreflexive(a: Seq<u8>)
    ensures
        !bytes_precede(a, a),
{
}

/// The order is asymmetric.
pub proof fn lemma_bytes_precede_asymmetric(a: Seq<u8>, b: Seq<u8>)
    requires
        bytes_precede(a, b),
    ensures
        !bytes_precede(b, a),
{
    let k = choose|k: int| first_difference(a, b, k) && a[k] < b[k];
    if bytes_precede(b, a) {
        let j = choose|j: int| first_difference(b, a, j) && b[j] < a[j];
        if j < k {
            assert(a[j] == b[j]);
        } else if k < j {
            assert(b[k] == a[k]);
        }
    }
}

/// The order is transitive.
pub proof fn lemma_bytes_precede_transitive(a: Seq<u8>, b: Seq<u8>, c: Seq<u8>)
    requires
        bytes_precede(a, b),
        bytes_precede(b, c),
    ensures
        bytes_precede(a, c),
{
    let k1 = choose|k: int| first_difference(a, b, k) && a[k] < b[k];
    let k2 = choose|k: int| first_difference(b, c, k) && b[k] < c[k];
    let k = if k1 <= k2 {
        k1
    } else {
        k2
    };
    assert(first_difference(a, c, k) && a[k] < c[k]);
}

/// Of two byte strings of one length, one precedes the other or they are equal.
pub proof fn lemma_bytes_precede_total(a: Seq<u8>, b: Seq<u8>)
    requires
        a.len() == b.len(),
    ensures
        bytes_precede(a, b) || bytes_precede(b, a) || a == b,
{
    lemma_agree_or_differ(a, b, a.len() as int);
    if forall|i: int| 0 <= i < a.len() ==> a[i] == b[i] {
        assert(a =~= b);
    } else {
        let k = choose|k: int| k < a.len() && first_difference(a, b, k);
        if a[k] < b[k] {
            assert(first_difference(a, b, k) && a[k] < b[k]);
        } else {
            assert(first_difference(b, a, k) && b[k] < a[k]);
        }
    }
}

/// Whether two arrays hold the same bytes.
pub fn same_bytes<const N: usize>(a: &[u8; N], b: &[u8; N]) -> (r: bool)
    ensures
        r == (*a == *b),
{
    let mut i: usize = 0;
    while i < N
        invariant
            i <= N,
            forall|j: int| 0 <= j < i ==> a[j] == b[j],
        decreases N - i,
    {
        if a[i] != b[i] {
            return false;
        }
        i = i + 1;
    }
    assert(*a =~= *b);
    true
}

/// Whether `a` comes before `b` in lexicographic order.
pub fn bytes_less<const N: usize>(a: &[u8; N], b: &[u8; N]) -> (r: bool)
    ensures
        r == bytes_precede(a@, b@),
{
    let mut i: usize = 0;
    while i < N
        invariant
            i <= N,
            forall|j: int| 0 <= j < i ==> a[j] == b[j],
        decreases N - i,
    {
        if a[i] != b[i] {
            assert(first_difference(a@, b@, i as int));
            if a[i] < b[i] {
                return true;
            } else {
                proof {
                    assert(first_difference(b@, a@, i as int) && b@[i as int] < a@[i as int]);
                    lemma_bytes_precede_asymmetric(b@, a@);
                }
                return false;
            }
        }
        i = i + 1;
    }
    proof {
        assert(a@ =~= b@);
        lemma_bytes_precede_irreflexive(a@);
    }
    false
}

/// A 20-byte account identifier.
#[derive(Clone, Copy, Debug)]
pub struct Address {
    pub bytes: [u8; 20],
}

impl Address {
    /// The address made of the given bytes.
    pub fn new(bytes: [u8; 20]) -> (r: Address)
        ensures
            r.bytes == bytes,
    {
        Address { bytes }
    }

    /// Strict order of addresses: lexicographic on their bytes.
    pub open spec fn precedes(self, other: Address) -> bool {
        bytes_precede(self.bytes@, other.bytes@)
    }

    /// Whether `self` sorts strictly before `other`.
    pub fn is_before(&self, other: &Address) -> (r: bool)
        ensures
            r == self.precedes(*other),
    {
        bytes_less(&self.bytes, &other.bytes)
    }
}

impl PartialEq for Address {
    fn eq(&self, other: &Address) -> (r: bool) {
        same_bytes(&self.bytes, &other.bytes)
    }
}

impl Eq for Address {

}

impl vstd::std_specs::cmp::PartialEqSpecImpl for Address {
    open spec fn obeys_eq_spec() -> bool {
        true
    }

    open spec fn eq_spec(&self, other: &Address) -> bool {
        *self == *other
    }
}

/// A 32-byte transaction identifier.
#[derive(Clone, Copy, Debug)]
pub struct TxHash {
    pub bytes: [u8; 32],
}

impl TxHash {
    /// The transaction hash made of the given bytes.
    pub fn new(bytes: [u8; 32]) -> (r: TxHash)
        ensures
            r.bytes == bytes,
    {
        TxHash { bytes }
    }
}

impl PartialEq for TxHash {
    fn eq(&self, other: &TxHash) -> (r: bool) {
        same_bytes(&self.bytes, &other.bytes)
    }
}

impl Eq for TxHash {

}

impl vstd::std_specs::cmp::PartialEqSpecImpl for TxHash {
    open spec fn obeys_eq_spec() -> bool {
        true
    }

    open spec fn eq_spec(&self, other: &TxHash) -> bool {
        *self == *other
    }
}

/// The order of addresses is a strict total order: no address precedes
/// itself, the order is transitive, and of two different addresses exactly
/// one precedes the other.
pub proof fn lemma_address_order(a: Address, b: Address, c: Address)
    ensures
        !a.precedes(a),
        a.precedes(b) ==> !b.precedes(a),
        a.precedes(b) && b.precedes(c) ==> a.precedes(c),
        a.precedes(b) || b.precedes(a) || a == b,
{
    lemma_bytes_precede_irreflexive(a.bytes@);
    if a.precedes(b) {
        lemma_bytes_precede_asymmetric(a.bytes@, b.bytes@);
        if b.precedes(c) {
            lemma_bytes_precede_transitive(a.bytes@, b.bytes@, c.bytes@);
        }
    }
    lemma_bytes_precede_total(a.bytes@, b.bytes@);
    if a.bytes@ == b.bytes@ {
        assert(a.bytes =~= b.bytes);
    }
}

} // verus!
