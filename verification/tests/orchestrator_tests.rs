use netmon::config::TargetConfig;
use netmon::orchestrator::{probe_all, result_for_alias};
use netmon::probe::ProbeOutcome;

fn target(alias: &str) -> TargetConfig {
    TargetConfig { address: "127.0.0.1:1".to_string(), alias: alias.to_string() }
}

#[test]
fn fan_out_preserves_alias_attribution() {
    // A fails fast, B succeeds fast, C times out: the mapping must read
    // A: loss=100, B: loss=0, C: loss=100, whatever order attempts finished in
    let targets = vec![target("A"), target("B"), target("C")];
    let outcomes = vec![
        vec![ProbeOutcome::Failure, ProbeOutcome::Failure],
        vec![
            ProbeOutcome::Success { latency_ms: 1 },
            ProbeOutcome::Success { latency_ms: 3 },
        ],
        vec![ProbeOutcome::Failure, ProbeOutcome::Failure],
    ];
    let results = probe_all(&targets, &outcomes);
    assert_eq!(results.len(), 3);

    let a = result_for_alias(&results, &"A".to_string()).unwrap();
    assert_eq!(a.loss_percent.num, 200); // 100%
    assert_eq!(a.loss_percent.den, 2);
    let b = result_for_alias(&results, &"B".to_string()).unwrap();
    assert_eq!(b.loss_percent.num, 0); // 0%
    assert_eq!(b.average_latency_ms, 2);
    let c = result_for_alias(&results, &"C".to_string()).unwrap();
    assert_eq!(c.loss_percent.num, 200);
    assert_eq!(c.loss_percent.den, 2);
}

#[test]
fn one_dead_endpoint_never_disturbs_the_others() {
    let targets = vec![target("up"), target("down")];
    let outcomes = vec![
        vec![ProbeOutcome::Success { latency_ms: 9 }],
        vec![ProbeOutcome::Failure],
    ];
    let results = probe_all(&targets, &outcomes);
    assert_eq!(results.len(), 2);
    assert_eq!(results[0].alias, "up");
    assert_eq!(results[0].success_count, 1);
    assert_eq!(results[1].alias, "down");
    assert_eq!(results[1].success_count, 0);
    assert_eq!(results[1].loss_percent.num, 100);
    assert_eq!(results[1].loss_percent.den, 1);
}

#[test]
fn unknown_alias_has_no_result() {
    let targets = vec![target("A")];
    let outcomes = vec![vec![ProbeOutcome::Failure]];
    let results = probe_all(&targets, &outcomes);
    assert!(result_for_alias(&results, &"B".to_string()).is_none());
}
