use reinitialized_contracts::address::{bytes_less, same_bytes, Address, TxHash};
use reinitialized_contracts::aggregate::{sort_dedup, ReinitializedAddressSet};

fn account(first: u8, last: u8) -> Address {
    let mut bytes = [0u8; 20];
    bytes[0] = first;
    bytes[19] = last;
    Address::new(bytes)
}

#[test]
fn addresses_compare_byte_by_byte() {
    assert_eq!(account(1, 2), account(1, 2));
    assert_ne!(account(1, 2), account(1, 3));
    assert_ne!(account(1, 2), account(2, 2));
    assert!(same_bytes(&[1u8, 2, 3], &[1u8, 2, 3]));
    assert!(!same_bytes(&[1u8, 2, 3], &[1u8, 2, 4]));
    assert_eq!(TxHash::new([9u8; 32]), TxHash::new([9u8; 32]));
    assert_ne!(TxHash::new([9u8; 32]), TxHash::new([8u8; 32]));
}

#[test]
fn address_order_is_lexicographic() {
    assert!(account(0, 1).is_before(&account(0, 2)));
    assert!(!account(0, 2).is_before(&account(0, 1)));
    assert!(!account(0, 2).is_before(&account(0, 2)));
    assert!(account(0, 255).is_before(&account(1, 0)));
    assert!(!account(1, 0).is_before(&account(0, 255)));
    assert!(bytes_less(&[0u8, 9], &[1u8, 0]));
    assert!(!bytes_less(&[1u8, 0], &[0u8, 9]));
    assert!(!bytes_less::<0>(&[], &[]));
}

#[test]
fn address_order_agrees_with_the_order_of_alloy_addresses() {
    let samples = vec![
        account(0, 0),
        account(0, 1),
        account(0, 255),
        account(1, 0),
        account(127, 128),
        account(128, 127),
        account(255, 255),
        Address::new([0x11; 20]),
        Address::new([0xfe; 20]),
    ];
    for a in &samples {
        for b in &samples {
            let x = alloy_primitives::Address::new(a.bytes);
            let y = alloy_primitives::Address::new(b.bytes);
            assert_eq!(a.is_before(b), x < y);
            assert_eq!(a == b, x == y);
        }
    }
}

#[test]
fn duplicates_are_removed_and_the_rest_is_sorted() {
    let list = vec![
        account(0, 3),
        account(0, 1),
        account(0, 3),
        account(2, 0),
        account(0, 1),
        account(0, 2),
        account(0, 3),
    ];
    assert_eq!(
        sort_dedup(&list),
        vec![account(0, 1), account(0, 2), account(0, 3), account(2, 0)]
    );
}

#[test]
fn sorting_agrees_with_sort_and_dedup_of_alloy_addresses() {
    let mut seed: u32 = 12345;
    let mut list = Vec::new();
    for _ in 0..200 {
        let mut bytes = [0u8; 20];
        for b in bytes.iter_mut() {
            seed = seed.wrapping_mul(1103515245).wrapping_add(12345);
            *b = ((seed >> 16) & 3) as u8;
        }
        bytes[..17].fill(0);
        list.push(Address::new(bytes));
    }
    let mut expected: Vec<alloy_primitives::Address> =
        list.iter().map(|a| alloy_primitives::Address::new(a.bytes)).collect();
    expected.sort();
    expected.dedup();
    let got: Vec<alloy_primitives::Address> =
        sort_dedup(&list).iter().map(|a| alloy_primitives::Address::new(a.bytes)).collect();
    assert_eq!(got, expected);
    assert!(got.len() < 200);
}

#[test]
fn sorting_twice_changes_nothing() {
    let list = vec![account(9, 9), account(0, 1), account(9, 9), account(3, 3)];
    let once = sort_dedup(&list);
    let twice = sort_dedup(&once);
    assert_eq!(once, twice);
}

#[test]
fn order_of_the_input_does_not_matter() {
    let one = vec![account(5, 0), account(1, 0), account(3, 0), account(1, 0)];
    let other = vec![account(3, 0), account(5, 0), account(5, 0), account(1, 0)];
    assert_eq!(sort_dedup(&one), sort_dedup(&other));
}

#[test]
fn empty_list_gives_empty_set() {
    assert_eq!(sort_dedup(&vec![]), vec![]);
    let set = ReinitializedAddressSet::collect(&vec![], &vec![]);
    assert!(set.is_empty());
    assert_eq!(set.len(), 0);
    assert!(!set.contains(&account(0, 0)));
}

#[test]
fn set_merges_both_sources() {
    let in_window = vec![account(0, 7), account(0, 2), account(0, 7)];
    let fallback = vec![account(0, 5), account(0, 2)];
    let set = ReinitializedAddressSet::collect(&in_window, &fallback);
    assert_eq!(set.addresses(), &vec![account(0, 2), account(0, 5), account(0, 7)]);
    assert_eq!(set.len(), 3);
    assert!(!set.is_empty());
    assert!(set.contains(&account(0, 2)));
    assert!(set.contains(&account(0, 5)));
    assert!(set.contains(&account(0, 7)));
    assert!(!set.contains(&account(0, 6)));
    assert!(!set.contains(&account(0, 0)));
    assert!(!set.contains(&account(9, 0)));
}
