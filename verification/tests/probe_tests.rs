use netmon::probe::{ProbeOutcome, ProbeResult};

fn outcomes(list: &[Option<u32>]) -> Vec<ProbeOutcome> {
    list.iter()
        .map(|o| match o {
            Some(ms) => ProbeOutcome::Success { latency_ms: *ms },
            None => ProbeOutcome::Failure,
        })
        .collect()
}

#[test]
fn all_attempts_fail_gives_zero_latency_and_full_loss() {
    let r = ProbeResult::from_outcomes("edge".to_string(), &outcomes(&[None, None, None]));
    assert_eq!(r.success_count, 0);
    assert_eq!(r.total_count, 3);
    assert_eq!(r.average_latency_ms, 0);
    // loss is exactly 100%: 300 / 3
    assert_eq!(r.loss_percent.num, 300);
    assert_eq!(r.loss_percent.den, 3);
}

#[test]
fn all_attempts_succeed_gives_zero_loss_and_mean_latency() {
    let r = ProbeResult::from_outcomes(
        "edge".to_string(),
        &outcomes(&[Some(10), Some(20), Some(33)]),
    );
    assert_eq!(r.success_count, 3);
    assert_eq!(r.total_count, 3);
    assert_eq!(r.loss_percent.num, 0);
    assert_eq!(r.loss_percent.den, 3);
    // mean of 10, 20, 33 rounded down
    assert_eq!(r.average_latency_ms, 21);
}

#[test]
fn mixed_attempts_average_over_successes_only() {
    let r = ProbeResult::from_outcomes(
        "edge".to_string(),
        &outcomes(&[Some(40), None, Some(10), None]),
    );
    assert_eq!(r.success_count, 2);
    assert_eq!(r.total_count, 4);
    assert_eq!(r.average_latency_ms, 25);
    // 2 of 4 failed: exactly 50%
    assert_eq!(r.loss_percent.num, 200);
    assert_eq!(r.loss_percent.den, 4);
}

#[test]
fn counts_always_partition_and_loss_is_exact() {
    for fails in 0..4u32 {
        let mut list = vec![Some(7u32); (4 - fails) as usize];
        list.extend(std::iter::repeat(None).take(fails as usize));
        let r = ProbeResult::from_outcomes("a".to_string(), &outcomes(&list));
        let fail_count = r.total_count - r.success_count;
        assert_eq!(r.success_count + fail_count, r.total_count);
        // loss_percent == 100 * (total - success) / total, as an exact fraction
        assert_eq!(r.loss_percent.num, 100 * fail_count as u64);
        assert_eq!(r.loss_percent.den, r.total_count as u64);
    }
}

#[test]
fn single_failed_attempt_is_terminal_for_that_attempt() {
    // one failure among successes is one failure, not retried away
    let r = ProbeResult::from_outcomes("a".to_string(), &outcomes(&[Some(5), None, Some(5)]));
    assert_eq!(r.success_count, 2);
    assert_eq!(r.loss_percent.num, 100);
    assert_eq!(r.loss_percent.den, 3);
}
