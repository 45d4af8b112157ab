use terminalclustering::correlation::{CorrelationError, PendingTable};

#[test]
fn ids_are_distinct_and_increasing() {
    let mut t: PendingTable<u32> = PendingTable::new();
    let mut ids = vec![];
    for k in 0..100 {
        ids.push(t.register(k).unwrap());
    }
    for (i, id) in ids.iter().enumerate() {
        assert_eq!(*id, i as u64 + 1);
    }
    assert_eq!(t.len(), 100);
}

#[test]
fn response_completes_its_caller_once() {
    let mut t: PendingTable<&str> = PendingTable::new();
    let a = t.register("a").unwrap();
    let b = t.register("b").unwrap();
    assert_eq!((a, b), (1, 2));
    assert_eq!(t.complete("2"), Some("b"));
    assert_eq!(t.complete("2"), None);
    assert_eq!(t.complete("1"), Some("a"));
    assert_eq!(t.len(), 0);
}

#[test]
fn unknown_or_noncanonical_ids_are_discarded() {
    let mut t: PendingTable<&str> = PendingTable::new();
    t.register("a").unwrap();
    assert_eq!(t.complete("7"), None);
    assert_eq!(t.complete("01"), None);
    assert_eq!(t.complete("x"), None);
    assert_eq!(t.complete(""), None);
    assert_eq!(t.len(), 1);
}

#[test]
fn close_fails_every_outstanding_request_once() {
    let mut t: PendingTable<u32> = PendingTable::new();
    for k in 10..15 {
        t.register(k).unwrap();
    }
    t.complete("3");
    assert_eq!(t.close(), vec![10, 11, 13, 14]);
    assert_eq!(t.close(), Vec::<u32>::new());
    assert_eq!(t.complete("1"), None);
    // Once the engine is gone nothing more is accepted.
    assert!(t.closed());
    assert_eq!(t.register(99), Err(CorrelationError::EngineGone));
}

#[test]
fn stale_response_does_not_block_a_pending_one() {
    let mut t: PendingTable<&str> = PendingTable::new();
    t.register("a").unwrap();
    t.register("b").unwrap();
    assert_eq!(t.complete("1"), Some("a"));
    assert_eq!(t.complete("1"), None);
    assert_eq!(t.complete("9"), None);
    assert_eq!(t.complete("2"), Some("b"));
}
