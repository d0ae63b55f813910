use retry_engine::dlq::{DLQEntry, DeadLetterQueue};

fn entry(id: &str, psp: &str, attempts: u32, error: &str) -> DLQEntry {
    DLQEntry {
        transaction_id: id.to_string(),
        psp_name: psp.to_string(),
        payload: vec![1, 2, 3],
        attempt_count: attempts,
        last_error: error.to_string(),
        timestamp_ms: 1000,
    }
}

#[test]
fn test_add_and_retrieve_entry() {
    let mut dlq = DeadLetterQueue::new();
    let entry = DLQEntry {
        transaction_id: "txn_123".to_string(),
        psp_name: "stripe".to_string(),
        payload: vec![1, 2, 3],
        attempt_count: 5,
        last_error: "Connection timeout".to_string(),
        timestamp_ms: 1000,
    };

    dlq.add_entry(entry.clone());

    assert!(dlq.contains("txn_123"));
    let retrieved = dlq.get_entry("txn_123").unwrap();
    assert_eq!(retrieved.transaction_id, "txn_123");
    assert_eq!(retrieved.attempt_count, 5);
}

#[test]
fn test_remove_entry() {
    let mut dlq = DeadLetterQueue::new();
    let entry = DLQEntry {
        transaction_id: "txn_456".to_string(),
        psp_name: "adyen".to_string(),
        payload: vec![],
        attempt_count: 3,
        last_error: "PSP error".to_string(),
        timestamp_ms: 2000,
    };

    dlq.add_entry(entry);
    assert_eq!(dlq.count(), 1);

    let removed = dlq.remove_entry("txn_456");
    assert!(removed.is_some());
    assert_eq!(dlq.count(), 0);
    assert!(!dlq.contains("txn_456"));
}

#[test]
fn second_entry_under_same_id_replaces_first() {
    let mut dlq = DeadLetterQueue::new();
    dlq.add_entry(entry("txn_1", "stripe", 3, "first"));
    dlq.add_entry(entry("txn_2", "adyen", 1, "other"));
    assert_eq!(dlq.count(), 2);
    dlq.add_entry(entry("txn_1", "paypal", 7, "second"));
    assert_eq!(dlq.count(), 2);
    let e = dlq.get_entry("txn_1").unwrap();
    assert_eq!(e.psp_name, "paypal");
    assert_eq!(e.attempt_count, 7);
    assert_eq!(e.last_error, "second");
    assert_eq!(dlq.get_entry("txn_2").unwrap().last_error, "other");
}

#[test]
fn empty_store_has_nothing() {
    let mut dlq = DeadLetterQueue::default();
    assert_eq!(dlq.count(), 0);
    assert!(!dlq.contains(""));
    assert!(dlq.get_entry("txn").is_none());
    assert!(dlq.remove_entry("txn").is_none());
    assert!(dlq.get_all_entries().is_empty());
}

#[test]
fn remove_returns_the_stored_entry_and_keeps_the_others() {
    let mut dlq = DeadLetterQueue::new();
    dlq.add_entry(entry("a", "stripe", 1, "e1"));
    dlq.add_entry(entry("b", "adyen", 2, "e2"));
    dlq.add_entry(entry("c", "paypal", 3, "e3"));
    let removed = dlq.remove_entry("b").unwrap();
    assert_eq!(removed.transaction_id, "b");
    assert_eq!(removed.psp_name, "adyen");
    assert_eq!(removed.payload, vec![1, 2, 3]);
    assert_eq!(dlq.count(), 2);
    assert!(dlq.contains("a"));
    assert!(!dlq.contains("b"));
    assert!(dlq.contains("c"));
    assert!(dlq.remove_entry("b").is_none());
}

#[test]
fn all_entries_lists_each_stored_transaction_once() {
    let mut dlq = DeadLetterQueue::new();
    dlq.add_entry(entry("a", "stripe", 1, "e1"));
    dlq.add_entry(entry("b", "adyen", 2, "e2"));
    dlq.add_entry(entry("a", "paypal", 9, "e3"));
    let mut all = dlq.get_all_entries();
    all.sort_by(|x, y| x.transaction_id.cmp(&y.transaction_id));
    assert_eq!(all.len(), 2);
    assert_eq!(all[0].transaction_id, "a");
    assert_eq!(all[0].attempt_count, 9);
    assert_eq!(all[1].transaction_id, "b");
    assert_eq!(all[1].attempt_count, 2);
}

#[test]
fn cloned_entry_keeps_every_field() {
    let e = entry("txn_9", "stripe", 4, "boom");
    let c = e.clone();
    assert_eq!(c.transaction_id, "txn_9");
    assert_eq!(c.psp_name, "stripe");
    assert_eq!(c.payload, vec![1, 2, 3]);
    assert_eq!(c.attempt_count, 4);
    assert_eq!(c.last_error, "boom");
    assert_eq!(c.timestamp_ms, 1000);
}
