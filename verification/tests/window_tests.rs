use netmon::metrics::MetricRecord;
use netmon::window::{bucketize, classify, window_start_of, BucketStatus};

fn record(alias: &str, timestamp: u64, loss_cp: u64) -> MetricRecord {
    MetricRecord { alias: alias.to_string(), timestamp, latency_ms: 5, loss_cp }
}

#[test]
fn window_start_truncates_to_epoch_aligned_multiples() {
    assert_eq!(window_start_of(0, 900), 0);
    assert_eq!(window_start_of(899, 900), 0);
    assert_eq!(window_start_of(900, 900), 900);
    assert_eq!(window_start_of(1000, 900), 900);
    assert_eq!(window_start_of(1799, 900), 900);
    assert_eq!(window_start_of(1800, 900), 1800);
    // fifteen-minute windows coincide with wall-clock quarter hours
    assert_eq!(window_start_of(1_700_000_123, 900), 1_700_000_100);
}

#[test]
fn window_assignment_is_monotone_on_samples() {
    let mut prev = 0u64;
    for ts in [0u64, 1, 899, 900, 901, 1800, 100_000] {
        let ws = window_start_of(ts, 900);
        assert!(ws >= prev);
        prev = ws;
    }
}

#[test]
fn status_thresholds() {
    // values in hundredths of a percent
    assert_eq!(classify(0), BucketStatus::Healthy);
    assert_eq!(classify(5000), BucketStatus::Healthy); // 50.0% still healthy
    assert_eq!(classify(5001), BucketStatus::Degraded);
    assert_eq!(classify(7500), BucketStatus::Degraded); // 75%
    assert_eq!(classify(9999), BucketStatus::Degraded);
    assert_eq!(classify(10000), BucketStatus::Down); // 100%
    assert_eq!(classify(15000), BucketStatus::Down); // 150%
}

#[test]
fn three_records_two_buckets() {
    // alias "edge1": t=0s loss 30%, t=600s loss 40%, t=1000s loss 100%,
    // 900-second windows: [0,900) sums to 70% (degraded), [900,1800) is 100% (down)
    let records = vec![
        record("edge1", 0, 3000),
        record("edge1", 600, 4000),
        record("edge1", 1000, 10000),
    ];
    let out = bucketize(&records, 900);
    assert_eq!(out.len(), 1);
    assert_eq!(out[0].alias, "edge1");
    let buckets = &out[0].buckets;
    assert_eq!(buckets.len(), 2);
    assert_eq!(buckets[0].alias, "edge1");
    assert_eq!(buckets[0].window_start, 0);
    assert_eq!(buckets[0].summed_loss_cp, 7000);
    assert_eq!(classify(buckets[0].summed_loss_cp), BucketStatus::Degraded);
    assert_eq!(buckets[1].window_start, 900);
    assert_eq!(buckets[1].summed_loss_cp, 10000);
    assert_eq!(classify(buckets[1].summed_loss_cp), BucketStatus::Down);
}

#[test]
fn empty_windows_yield_no_bucket() {
    // two rows three windows apart: exactly two buckets, no zero-filled gap
    let records = vec![record("a", 0, 1000), record("a", 2700, 2000)];
    let out = bucketize(&records, 900);
    assert_eq!(out.len(), 1);
    let buckets = &out[0].buckets;
    assert_eq!(buckets.len(), 2);
    assert_eq!(buckets[0].window_start, 0);
    assert_eq!(buckets[0].summed_loss_cp, 1000);
    assert_eq!(buckets[1].window_start, 2700);
    assert_eq!(buckets[1].summed_loss_cp, 2000);
}

#[test]
fn no_records_no_buckets() {
    let out = bucketize(&Vec::new(), 900);
    assert!(out.is_empty());
}

#[test]
fn aliases_are_grouped_separately_and_sums_accumulate() {
    // interleaved aliases sharing timestamps; sums add, never average
    let records = vec![
        record("a", 10, 1000),
        record("b", 10, 2000),
        record("a", 20, 500),
        record("b", 950, 2500),
        record("a", 1000, 0),
    ];
    let out = bucketize(&records, 900);
    assert_eq!(out.len(), 2);
    assert_eq!(out[0].alias, "a");
    assert_eq!(out[1].alias, "b");
    assert_eq!(out[0].buckets.len(), 2);
    assert_eq!(out[0].buckets[0].window_start, 0);
    assert_eq!(out[0].buckets[0].summed_loss_cp, 1500);
    assert_eq!(out[0].buckets[1].window_start, 900);
    assert_eq!(out[0].buckets[1].summed_loss_cp, 0);
    assert_eq!(out[1].buckets.len(), 2);
    assert_eq!(out[1].buckets[0].window_start, 0);
    assert_eq!(out[1].buckets[0].summed_loss_cp, 2000);
    assert_eq!(out[1].buckets[1].window_start, 900);
    assert_eq!(out[1].buckets[1].summed_loss_cp, 2500);
}

#[test]
fn bucket_with_zero_summed_loss_is_present_when_a_row_exists() {
    // absence means no data; a healthy row still materializes its bucket
    let records = vec![record("a", 42, 0)];
    let out = bucketize(&records, 900);
    assert_eq!(out.len(), 1);
    assert_eq!(out[0].buckets.len(), 1);
    assert_eq!(out[0].buckets[0].window_start, 0);
    assert_eq!(out[0].buckets[0].summed_loss_cp, 0);
}
