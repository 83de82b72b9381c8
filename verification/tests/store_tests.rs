use netmon::metrics::MetricRecord;
use netmon::schedule::append_cycle;
use netmon::store::{Db, StoreError};

fn open_db() -> Db {
    Db::new(":memory:").expect("in-memory database")
}

#[test]
fn insert_then_query_roundtrip() {
    let db = open_db();
    db.insert_metric("edge", 100, 42, 2500).unwrap();
    let rows = db.query_metrics(0).unwrap();
    assert_eq!(rows.len(), 1);
    assert_eq!(rows[0].alias, "edge");
    assert_eq!(rows[0].timestamp, 100);
    assert_eq!(rows[0].latency_ms, 42);
    assert_eq!(rows[0].loss_cp, 2500);
}

#[test]
fn query_returns_rows_ordered_by_timestamp() {
    let db = open_db();
    db.insert_metric("b", 300, 1, 0).unwrap();
    db.insert_metric("a", 100, 2, 0).unwrap();
    db.insert_metric("c", 200, 3, 0).unwrap();
    let rows = db.query_metrics(0).unwrap();
    let stamps: Vec<u64> = rows.iter().map(|r| r.timestamp).collect();
    assert_eq!(stamps, vec![100, 200, 300]);
    assert_eq!(rows[0].alias, "a");
    assert_eq!(rows[1].alias, "c");
    assert_eq!(rows[2].alias, "b");
}

#[test]
fn query_filters_by_since() {
    let db = open_db();
    db.insert_metric("a", 100, 1, 0).unwrap();
    db.insert_metric("a", 200, 1, 0).unwrap();
    db.insert_metric("a", 300, 1, 0).unwrap();
    let rows = db.query_metrics(200).unwrap();
    let stamps: Vec<u64> = rows.iter().map(|r| r.timestamp).collect();
    assert_eq!(stamps, vec![200, 300]);
}

#[test]
fn invalid_loss_is_rejected_exactly() {
    let db = open_db();
    assert_eq!(db.insert_metric("a", 1, 1, 10001), Err(StoreError::InvalidRecord));
    assert_eq!(db.insert_metric("a", 1, 1, 10000), Ok(()));
    assert_eq!(db.insert_metric("a", u64::MAX, 1, 0), Err(StoreError::InvalidRecord));
    assert_eq!(db.insert_metric("a", 1, u64::MAX, 0), Err(StoreError::InvalidRecord));
}

#[test]
fn failed_append_of_one_row_leaves_the_others_appended() {
    // a cycle of three rows where the middle one cannot be stored:
    // the other two still land, and the cycle runs to completion
    let db = open_db();
    let records = vec![
        MetricRecord { alias: "a".to_string(), timestamp: 10, latency_ms: 1, loss_cp: 0 },
        MetricRecord { alias: "bad".to_string(), timestamp: 10, latency_ms: 1, loss_cp: 20000 },
        MetricRecord { alias: "c".to_string(), timestamp: 10, latency_ms: 1, loss_cp: 100 },
    ];
    let flags = append_cycle(&db, &records);
    assert_eq!(flags, vec![true, false, true]);
    let rows = db.query_metrics(0).unwrap();
    assert_eq!(rows.len(), 2);
    assert_eq!(rows[0].alias, "a");
    assert_eq!(rows[1].alias, "c");
}

#[test]
fn subscriptions_add_check_remove() {
    let db = open_db();
    assert_eq!(db.is_subscribed(7).unwrap(), false);
    db.add_subscription(7).unwrap();
    assert_eq!(db.is_subscribed(7).unwrap(), true);
    // subscribing twice is harmless
    db.add_subscription(7).unwrap();
    assert_eq!(db.is_subscribed(7).unwrap(), true);
    db.remove_subscription(7).unwrap();
    assert_eq!(db.is_subscribed(7).unwrap(), false);
    assert_eq!(db.is_subscribed(8).unwrap(), false);
}

#[test]
fn open_failure_is_a_backend_error() {
    let r = Db::new("/nonexistent-dir/netmon-test/db.sqlite");
    assert!(matches!(r, Err(StoreError::Backend)));
}
