use netmon::probe::{ProbeOutcome, ProbeResult};
use netmon::schedule::cycle_records;

fn reduced(alias: &str, outcomes: &[Option<u32>]) -> ProbeResult {
    let v: Vec<ProbeOutcome> = outcomes
        .iter()
        .map(|o| match o {
            Some(ms) => ProbeOutcome::Success { latency_ms: *ms },
            None => ProbeOutcome::Failure,
        })
        .collect();
    ProbeResult::from_outcomes(alias.to_string(), &v)
}

#[test]
fn one_cycle_shares_one_timestamp() {
    let results = vec![
        reduced("a", &[Some(10), Some(20)]),
        reduced("b", &[None, None]),
        reduced("c", &[Some(7), None]),
    ];
    let records = cycle_records(4242, &results);
    assert_eq!(records.len(), 3);
    for rec in &records {
        assert_eq!(rec.timestamp, 4242);
    }
    assert_eq!(records[0].alias, "a");
    assert_eq!(records[0].latency_ms, 15);
    assert_eq!(records[0].loss_cp, 0);
    assert_eq!(records[1].alias, "b");
    assert_eq!(records[1].latency_ms, 0);
    assert_eq!(records[1].loss_cp, 10000); // 100%
    assert_eq!(records[2].alias, "c");
    assert_eq!(records[2].latency_ms, 7);
    assert_eq!(records[2].loss_cp, 5000); // 50%
}

#[test]
fn loss_rounds_down_to_hundredths_of_a_percent() {
    // one failure out of three: 33.33...%, stored as 3333 hundredths
    let results = vec![reduced("a", &[Some(1), Some(1), None])];
    let records = cycle_records(0, &results);
    assert_eq!(records[0].loss_cp, 3333);
}
