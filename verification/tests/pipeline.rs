use reinitialized_contracts::address::Address;
use reinitialized_contracts::event::{LifecycleEvent, TraceType};
use reinitialized_contracts::fallback::{
    fallback_candidates, fallback_matches, StoreLookup, FALLBACK_CHUNK_SIZE,
};
use reinitialized_contracts::output::{to_json, OUTPUT_FILE};
use reinitialized_contracts::pipeline::{
    combine_block_results, conclude, detect, scan_window, WindowScan,
};
use reinitialized_contracts::request::{block_param, trace_request};

fn account(last: u8) -> Address {
    let mut bytes = [0u8; 20];
    bytes[19] = last;
    Address::new(bytes)
}

fn sd(address: u8, block: u64, position: u64) -> LifecycleEvent {
    LifecycleEvent::self_destruct(account(address), block, position)
}

fn cr(address: u8, block: u64, position: u64) -> LifecycleEvent {
    LifecycleEvent::create(account(address), block, position)
}

fn lookups_for(candidates: &[Address], store: &[Address]) -> Vec<StoreLookup> {
    candidates.iter().map(|a| StoreLookup::new(*a, store.contains(a))).collect()
}

#[test]
fn candidates_are_the_destroyed_addresses_in_order() {
    let destroyed = vec![sd(3, 1, 0), sd(1, 1, 1), sd(3, 2, 0)];
    assert_eq!(fallback_candidates(&destroyed), vec![account(3), account(1), account(3)]);
    assert_eq!(fallback_candidates(&vec![]), vec![]);
}

#[test]
fn fallback_flags_what_the_store_holds() {
    let lookups = vec![
        StoreLookup::new(account(1), false),
        StoreLookup::new(account(2), true),
        StoreLookup::new(account(3), false),
        StoreLookup::new(account(4), true),
        StoreLookup::new(account(2), true),
    ];
    assert_eq!(fallback_matches(&lookups), vec![account(2), account(4), account(2)]);
    assert_eq!(fallback_matches(&vec![]), vec![]);
}

#[test]
fn lookups_go_out_in_chunks_of_ten() {
    assert_eq!(FALLBACK_CHUNK_SIZE, 10);
}

#[test]
fn failed_and_empty_fetches_contribute_nothing() {
    let results: Vec<Result<Option<Vec<LifecycleEvent>>, String>> = vec![
        Ok(Some(vec![sd(1, 1, 0), cr(1, 1, 1)])),
        Err(String::from("task failed")),
        Ok(None),
        Ok(Some(vec![cr(2, 3, 0)])),
        Ok(Some(vec![])),
    ];
    assert_eq!(combine_block_results(&results), vec![sd(1, 1, 0), cr(1, 1, 1), cr(2, 3, 0)]);
    let nothing: Vec<Result<Option<Vec<LifecycleEvent>>, String>> = vec![];
    assert_eq!(combine_block_results(&nothing), vec![]);
}

#[test]
fn scan_reconciles_and_lists_the_candidates() {
    let events = vec![cr(1, 6, 0), sd(1, 5, 1), sd(2, 5, 2), cr(2, 5, 1)];
    let scan = scan_window(events);
    assert_eq!(scan.flagged, vec![account(1)]);
    assert_eq!(scan.candidates, vec![account(1), account(2)]);
}

#[test]
fn conclusion_adds_the_fallback_matches() {
    let scan = WindowScan { flagged: vec![account(9), account(9)], candidates: vec![account(4)] };
    let set = conclude(&scan, &vec![StoreLookup::new(account(4), true)]);
    assert_eq!(set.addresses(), &vec![account(4), account(9)]);
}

#[test]
fn destroyed_and_recreated_in_range_is_reported() {
    let events = vec![sd(0xaa, 5, 1), cr(0xaa, 5, 3)];
    let scan = scan_window(events.clone());
    let lookups = lookups_for(&scan.candidates, &[]);
    let set = detect(events, &lookups);
    assert_eq!(set.addresses(), &vec![account(0xaa)]);
    assert_eq!(to_json(&set).unwrap(), "[\"0x00000000000000000000000000000000000000aa\"]");
}

#[test]
fn destroyed_and_absent_from_the_store_is_not_reported() {
    let events = vec![sd(0xbb, 5, 1)];
    let scan = scan_window(events.clone());
    let lookups = lookups_for(&scan.candidates, &[]);
    let set = detect(events, &lookups);
    assert!(set.is_empty());
    assert_eq!(to_json(&set).unwrap(), "[]");
}

#[test]
fn destroyed_without_create_in_range_but_present_in_store_is_reported() {
    let events = vec![sd(0xcc, 100, 0), cr(0xdd, 105, 0)];
    let scan = scan_window(events);
    assert_eq!(scan.flagged, vec![]);
    let lookups = lookups_for(&scan.candidates, &[account(0xcc)]);
    let set = conclude(&scan, &lookups);
    assert_eq!(set.addresses(), &vec![account(0xcc)]);
}

#[test]
fn range_without_activity_gives_the_empty_array() {
    let set = detect(vec![], &vec![]);
    assert!(set.is_empty());
    assert_eq!(to_json(&set).unwrap(), "[]");
}

#[test]
fn creates_alone_give_the_empty_array() {
    let events = vec![cr(1, 1, 0), cr(2, 2, 0)];
    let scan = scan_window(events);
    assert!(scan.candidates.is_empty());
    let set = conclude(&scan, &vec![]);
    assert_eq!(to_json(&set).unwrap(), "[]");
}

#[test]
fn result_does_not_depend_on_the_order_of_events() {
    let events = vec![sd(1, 5, 1), cr(1, 5, 3), sd(2, 6, 0), cr(2, 7, 0), sd(3, 8, 0)];
    let mut shuffled = events.clone();
    shuffled.reverse();
    let store = [account(3)];
    let first = scan_window(events);
    let second = scan_window(shuffled);
    let a = conclude(&first, &lookups_for(&first.candidates, &store));
    let b = conclude(&second, &lookups_for(&second.candidates, &store));
    assert_eq!(a.addresses(), b.addresses());
    assert_eq!(a.addresses(), &vec![account(1), account(2), account(3)]);
}

#[test]
fn running_twice_gives_the_same_output() {
    let events = vec![sd(1, 5, 1), cr(1, 5, 3), sd(2, 6, 0)];
    let lookups = vec![StoreLookup::new(account(1), true), StoreLookup::new(account(2), true)];
    let first = to_json(&detect(events.clone(), &lookups)).unwrap();
    let second = to_json(&detect(events, &lookups)).unwrap();
    assert_eq!(first, second);
}

#[test]
fn json_lists_addresses_in_lower_case_hex() {
    let mut high = [0u8; 20];
    high[0] = 0xAB;
    high[1] = 0xCD;
    high[19] = 0xEF;
    let flagged = vec![Address::new(high), account(1)];
    let set = conclude(&WindowScan { flagged, candidates: vec![] }, &vec![]);
    assert_eq!(
        to_json(&set).unwrap(),
        "[\"0x0000000000000000000000000000000000000001\",\"0xabcd0000000000000000000000000000000000ef\"]"
    );
}

#[test]
fn json_is_what_serde_json_gives_for_alloy_addresses() {
    let flagged = vec![account(7), account(3), account(200)];
    let set = conclude(&WindowScan { flagged, candidates: vec![] }, &vec![]);
    let expected: Vec<alloy_primitives::Address> =
        set.addresses().iter().map(|a| alloy_primitives::Address::new(a.bytes)).collect();
    assert_eq!(to_json(&set).unwrap(), serde_json::to_string(&expected).unwrap());
}

#[test]
fn output_file_name_is_fixed() {
    assert_eq!(OUTPUT_FILE, "reinitialized_contracts.json");
}

#[test]
fn block_number_is_sent_as_prefixed_hex() {
    assert_eq!(block_param(0), "0x0");
    assert_eq!(block_param(9), "0x9");
    assert_eq!(block_param(10), "0xa");
    assert_eq!(block_param(15), "0xf");
    assert_eq!(block_param(16), "0x10");
    assert_eq!(block_param(255), "0xff");
    assert_eq!(block_param(4096), "0x1000");
    assert_eq!(block_param(1_000_000), "0xf4240");
    assert_eq!(block_param(19_000_000), "0x121eac0");
    assert_eq!(block_param(u64::MAX), "0xffffffffffffffff");
}

#[test]
fn block_parameter_agrees_with_std_formatting() {
    let mut n: u64 = 1;
    for _ in 0..64 {
        assert_eq!(block_param(n), format!("0x{:x}", n));
        assert_eq!(block_param(n - 1), format!("0x{:x}", n - 1));
        n = n.wrapping_mul(3).wrapping_add(7);
    }
}

#[test]
fn trace_request_names_method_block_and_id() {
    let request = trace_request(17);
    assert_eq!(request.jsonrpc, "2.0");
    assert_eq!(request.method, "trace_block");
    assert_eq!(request.params, vec![String::from("0x11")]);
    assert_eq!(request.id, 1);
}

#[test]
fn trace_type_names() {
    assert_eq!(TraceType::SelfDestruct.to_string(), "selfdestruct");
    assert_eq!(TraceType::Create.to_string(), "create");
    assert_eq!(TraceType::SelfDestruct.as_str(), "selfdestruct");
    assert_eq!(TraceType::Create.as_str(), "create");
}

#[test]
fn trace_type_is_read_in_any_case() {
    assert_eq!(TraceType::from_str("selfdestruct"), Ok(TraceType::SelfDestruct));
    assert_eq!(TraceType::from_str("SelfDestruct"), Ok(TraceType::SelfDestruct));
    assert_eq!(TraceType::from_str("SELFDESTRUCT"), Ok(TraceType::SelfDestruct));
    assert_eq!(TraceType::from_str("create"), Ok(TraceType::Create));
    assert_eq!(TraceType::from_str("CREATE"), Ok(TraceType::Create));
    assert_eq!(TraceType::from_str("Create"), Ok(TraceType::Create));
}

#[test]
fn unknown_trace_type_is_refused() {
    assert_eq!(TraceType::from_str("call"), Err(String::from("Trace type invalid")));
    assert_eq!(TraceType::from_str(""), Err(String::from("Trace type invalid")));
    assert_eq!(TraceType::from_str(" create"), Err(String::from("Trace type invalid")));
    assert_eq!(
        TraceType::from_lowercase(&String::from("Create")),
        Err(String::from("Trace type invalid"))
    );
    assert_eq!(TraceType::from_lowercase(&String::from("create")), Ok(TraceType::Create));
}
