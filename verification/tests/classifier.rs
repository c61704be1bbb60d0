use reinitialized_contracts::address::{Address, TxHash};
use reinitialized_contracts::classify::{
    block_events, classify, classify_block, InvalidTransactionSet, RawTraceRecord, TraceAction,
    TraceOutput,
};
use reinitialized_contracts::event::{LifecycleEvent, TraceType};

fn addr(last: u8) -> Address {
    let mut bytes = [0u8; 20];
    bytes[19] = last;
    Address::new(bytes)
}

fn hash(last: u8) -> TxHash {
    let mut bytes = [0u8; 32];
    bytes[31] = last;
    TxHash::new(bytes)
}

fn destruct(address: Address, tx: u8, position: u64) -> RawTraceRecord {
    RawTraceRecord {
        action: TraceAction::SelfDestruct { address },
        result: None,
        error: None,
        transaction_hash: Some(hash(tx)),
        transaction_position: Some(position),
    }
}

fn create(address: Address, tx: u8, position: u64) -> RawTraceRecord {
    RawTraceRecord {
        action: TraceAction::Create,
        result: Some(TraceOutput::Create { address }),
        error: None,
        transaction_hash: Some(hash(tx)),
        transaction_position: Some(position),
    }
}

fn failed(action: TraceAction, tx: u8, position: u64) -> RawTraceRecord {
    RawTraceRecord {
        action,
        result: None,
        error: Some(String::from("Reverted")),
        transaction_hash: Some(hash(tx)),
        transaction_position: Some(position),
    }
}

#[test]
fn self_destruct_record_yields_self_destruct_event() {
    let mut invalid = InvalidTransactionSet::new();
    let event = classify(&destruct(addr(0xaa), 1, 4), 17, &mut invalid);
    assert_eq!(
        event,
        Some(LifecycleEvent {
            kind: TraceType::SelfDestruct,
            address: addr(0xaa),
            block_number: 17,
            transaction_position: 4,
        })
    );
    assert!(!invalid.contains(&hash(1)));
}

#[test]
fn self_destruct_keeps_its_event_whatever_the_result() {
    let mut invalid = InvalidTransactionSet::new();
    let mut record = destruct(addr(0xaa), 1, 4);
    record.result = Some(TraceOutput::Other);
    let event = classify(&record, 17, &mut invalid);
    assert_eq!(event, Some(LifecycleEvent::self_destruct(addr(0xaa), 17, 4)));
}

#[test]
fn create_record_yields_create_event_for_the_deployed_address() {
    let mut invalid = InvalidTransactionSet::new();
    let event = classify(&create(addr(0xbb), 2, 9), 300, &mut invalid);
    assert_eq!(
        event,
        Some(LifecycleEvent {
            kind: TraceType::Create,
            address: addr(0xbb),
            block_number: 300,
            transaction_position: 9,
        })
    );
}

#[test]
fn create_without_result_yields_nothing() {
    let mut invalid = InvalidTransactionSet::new();
    let mut record = create(addr(0xbb), 2, 9);
    record.result = None;
    assert_eq!(classify(&record, 300, &mut invalid), None);
    record.result = Some(TraceOutput::Other);
    assert_eq!(classify(&record, 300, &mut invalid), None);
}

#[test]
fn other_actions_yield_nothing() {
    let mut invalid = InvalidTransactionSet::new();
    let record = RawTraceRecord {
        action: TraceAction::Other,
        result: Some(TraceOutput::Create { address: addr(1) }),
        error: None,
        transaction_hash: Some(hash(1)),
        transaction_position: Some(0),
    };
    assert_eq!(classify(&record, 1, &mut invalid), None);
    assert!(!invalid.contains(&hash(1)));
}

#[test]
fn record_with_error_yields_nothing_and_marks_its_transaction() {
    let mut invalid = InvalidTransactionSet::new();
    let record = failed(TraceAction::SelfDestruct { address: addr(0xaa) }, 7, 3);
    assert_eq!(classify(&record, 5, &mut invalid), None);
    assert!(invalid.contains(&hash(7)));
    assert!(!invalid.contains(&hash(8)));
}

#[test]
fn error_wins_over_a_create_with_result() {
    let mut invalid = InvalidTransactionSet::new();
    let mut record = create(addr(0xbb), 7, 3);
    record.error = Some(String::from("out of gas"));
    assert_eq!(classify(&record, 5, &mut invalid), None);
    assert!(invalid.contains(&hash(7)));
}

#[test]
fn later_events_of_a_failed_transaction_are_suppressed() {
    let mut invalid = InvalidTransactionSet::new();
    assert_eq!(classify(&failed(TraceAction::Other, 7, 3), 5, &mut invalid), None);
    assert_eq!(classify(&destruct(addr(0xaa), 7, 3), 5, &mut invalid), None);
    assert_eq!(classify(&create(addr(0xbb), 7, 3), 5, &mut invalid), None);
    assert_eq!(
        classify(&destruct(addr(0xcc), 8, 4), 5, &mut invalid),
        Some(LifecycleEvent::self_destruct(addr(0xcc), 5, 4))
    );
}

#[test]
fn event_before_the_error_of_its_transaction_is_kept() {
    let records = vec![destruct(addr(0xaa), 7, 3), failed(TraceAction::Other, 7, 3)];
    assert_eq!(
        classify_block(&records, 5),
        vec![LifecycleEvent::self_destruct(addr(0xaa), 5, 3)]
    );
}

#[test]
fn record_without_transaction_hash_or_position_is_dropped() {
    let mut invalid = InvalidTransactionSet::new();
    let mut no_hash = destruct(addr(0xaa), 1, 4);
    no_hash.transaction_hash = None;
    assert_eq!(classify(&no_hash, 17, &mut invalid), None);
    let mut no_position = create(addr(0xaa), 1, 4);
    no_position.transaction_position = None;
    assert_eq!(classify(&no_position, 17, &mut invalid), None);
    let mut failed_without_hash = failed(TraceAction::Other, 1, 4);
    failed_without_hash.transaction_hash = None;
    assert_eq!(classify(&failed_without_hash, 17, &mut invalid), None);
    assert!(!invalid.contains(&hash(1)));
}

#[test]
fn invalid_set_holds_what_was_inserted() {
    let mut invalid = InvalidTransactionSet::new();
    assert!(!invalid.contains(&hash(1)));
    invalid.insert(hash(1));
    invalid.insert(hash(2));
    invalid.insert(hash(1));
    assert!(invalid.contains(&hash(1)));
    assert!(invalid.contains(&hash(2)));
    assert!(!invalid.contains(&hash(3)));
}

#[test]
fn block_is_classified_in_record_order() {
    let records = vec![
        create(addr(1), 1, 0),
        failed(TraceAction::Create, 2, 1),
        destruct(addr(2), 2, 1),
        destruct(addr(3), 3, 2),
        RawTraceRecord {
            action: TraceAction::Other,
            result: None,
            error: None,
            transaction_hash: None,
            transaction_position: None,
        },
        create(addr(3), 4, 3),
    ];
    assert_eq!(
        classify_block(&records, 42),
        vec![
            LifecycleEvent::create(addr(1), 42, 0),
            LifecycleEvent::self_destruct(addr(3), 42, 2),
            LifecycleEvent::create(addr(3), 42, 3),
        ]
    );
}

#[test]
fn invalid_transactions_do_not_carry_over_to_the_next_block() {
    let first = vec![failed(TraceAction::Other, 7, 0)];
    let second = vec![destruct(addr(0xaa), 7, 0)];
    assert_eq!(classify_block(&first, 1), vec![]);
    assert_eq!(
        classify_block(&second, 2),
        vec![LifecycleEvent::self_destruct(addr(0xaa), 2, 0)]
    );
}

#[test]
fn block_without_traces_has_no_events() {
    assert_eq!(block_events(None, 9), None);
    assert_eq!(block_events(Some(vec![]), 9), None);
}

#[test]
fn block_whose_traces_yield_nothing_has_no_events() {
    let records = vec![failed(TraceAction::Other, 7, 0), destruct(addr(1), 7, 0)];
    assert_eq!(block_events(Some(records), 9), None);
}

#[test]
fn block_with_events_reports_them() {
    let records = vec![destruct(addr(1), 7, 0)];
    assert_eq!(
        block_events(Some(records), 9),
        Some(vec![LifecycleEvent::self_destruct(addr(1), 9, 0)])
    );
}
