//! Probe engine: reducing the outcomes of one endpoint's timeout-bounded
//! connection attempts to a single per-cycle result.
//!
//! Latencies are whole milliseconds. The loss percentage is kept as an exact
//! rational so the result carries no rounding at all.

use vstd::prelude::*;

verus! {

/// The outcome of one timeout-bounded connection attempt: either the elapsed
/// time of a successful connect (in milliseconds), or a failure (timeout,
/// refusal, network error). A failed attempt is terminal; there are no
/// retries within an attempt.
#[derive(Clone, Copy, PartialEq, Eq, Structural, Debug)]
pub enum ProbeOutcome {
    Success { latency_ms: u32 },
    Failure,
}

/// An exact percentage, the rational `num / den`. Keeping the fraction
/// avoids any rounding inside a probe result.
#[derive(Clone, Copy, PartialEq, Eq, Structural, Debug)]
pub struct LossPercent {
    pub num: u64,
    pub den: u64,
}

impl LossPercent {
    /// A meaningful percentage: a positive denominator and a value in [0, 100].
    pub open spec fn wf(self) -> bool {
        0 < self.den && self.num <= 100 * self.den
    }
}

/// Health of one endpoint over one probing cycle.
#[derive(Clone, Debug)]
pub struct ProbeResult {
    pub alias: String,
    pub success_count: u32,
    pub total_count: u32,
    /// Mean latency over the successful attempts only, rounded down to whole
    /// milliseconds; 0 when no attempt succeeded.
    pub average_latency_ms: u64,
    /// Exactly `100 * (total_count - success_count) / total_count`.
    pub loss_percent: LossPercent,
}

/// How many attempts succeeded.
pub open spec fn count_successes(o: Seq<ProbeOutcome>) -> nat
    decreases o.len(),
{
    if o.len() == 0 {
        0
    } else {
        count_successes(o.drop_last()) + (if o.last() is Success {
            1nat
        } else {
            0nat
        })
    }
}

/// How many attempts failed.
pub open spec fn count_failures(o: Seq<ProbeOutcome>) -> nat
    decreases o.len(),
{
    if o.len() == 0 {
        0
    } else {
        count_failures(o.drop_last()) + (if o.last() is Failure {
            1nat
        } else {
            0nat
        })
    }
}

/// Total latency of the successful attempts.
pub open spec fn sum_latencies(o: Seq<ProbeOutcome>) -> nat
    decreases o.len(),
{
    if o.len() == 0 {
        0
    } else {
        sum_latencies(o.drop_last()) + (match o.last() {
            ProbeOutcome::Success { latency_ms } => latency_ms as nat,
            ProbeOutcome::Failure => 0nat,
        })
    }
}

impl ProbeResult {
    /// The counts are consistent and the loss fraction is exactly
    /// `100 * (total - success) / total`.
    pub open spec fn wf(self) -> bool {
        &&& 0 < self.total_count
        &&& self.success_count <= self.total_count
        &&& self.loss_percent.den == self.total_count
        &&& self.loss_percent.num == 100 * (self.total_count - self.success_count)
    }
}

/// `r` is the exact reduction of the attempt outcomes `o` for the endpoint
/// with display alias `alias`.
pub open spec fn reduces(o: Seq<ProbeOutcome>, alias: Seq<char>, r: ProbeResult) -> bool {
    &&& r.alias@ == alias
    &&& r.total_count == o.len()
    &&& r.success_count == count_successes(o)
    &&& r.average_latency_ms == (if count_successes(o) == 0 {
        0int
    } else {
        sum_latencies(o) as int / count_successes(o) as int
    })
    &&& r.loss_percent.den == o.len()
    &&& r.loss_percent.num == 100 * (o.len() - count_successes(o))
}

pub proof fn lemma_count_successes_le_len(o: Seq<ProbeOutcome>)
    ensures
        count_successes(o) <= o.len(),
    decreases o.len(),
{
    if o.len() > 0 {
        lemma_count_successes_le_len(o.drop_last());
    }
}

/// The total latency never exceeds the number of successes times the largest
/// possible per-attempt latency.
pub proof fn lemma_sum_latencies_le(o: Seq<ProbeOutcome>)
    ensures
        sum_latencies(o) <= count_successes(o) * 0xffff_ffff,
    decreases o.len(),
{
    if o.len() > 0 {
        lemma_sum_latencies_le(o.drop_last());
    }
}

impl ProbeResult {
    /// Reduces one endpoint's attempt outcomes for one cycle. Every kind of
    /// per-attempt outcome is folded into the result; there is no error path.
    pub fn from_outcomes(alias: String, outcomes: &Vec<ProbeOutcome>) -> (r: ProbeResult)
        requires
            0 < outcomes@.len() <= u32::MAX,
        ensures
            reduces(outcomes@, alias@, r),
            r.wf(),
            r.average_latency_ms <= u32::MAX,
    {
        let n: u32 = outcomes.len() as u32;
        let mut successes: u32 = 0;
        let mut latency_sum: u64 = 0;
        let mut i: usize = 0;
        while i < outcomes.len()
            invariant
                i <= outcomes@.len(),
                outcomes@.len() <= u32::MAX,
                successes == count_successes(outcomes@.subrange(0, i as int)),
                latency_sum == sum_latencies(outcomes@.subrange(0, i as int)),
                latency_sum <= i * 0xffff_ffffu64,
            decreases outcomes@.len() - i,
        {
            proof {
                lemma_count_successes_le_len(outcomes@.subrange(0, i as int));
                assert(outcomes@.subrange(0, i + 1 as int).drop_last() =~= outcomes@.subrange(
                    0,
                    i as int,
                ));
            }
            match outcomes[i] {
                ProbeOutcome::Success { latency_ms } => {
                    successes = successes + 1;
                    latency_sum = latency_sum + latency_ms as u64;
                },
                ProbeOutcome::Failure => {},
            }
            i = i + 1;
        }
        proof {
            assert(outcomes@.subrange(0, outcomes@.len() as int) =~= outcomes@);
            lemma_count_successes_le_len(outcomes@);
        }
        let average_latency_ms: u64 = if successes == 0 {
            0
        } else {
            proof {
                lemma_sum_latencies_le(outcomes@);
                vstd::arithmetic::div_mod::lemma_div_is_ordered(
                    latency_sum as int,
                    successes as int * 0xffff_ffff,
                    successes as int,
                );
                vstd::arithmetic::mul::lemma_mul_is_commutative(successes as int, 0xffff_ffff);
                vstd::arithmetic::div_mod::lemma_div_multiples_vanish(
                    0xffff_ffff,
                    successes as int,
                );
            }
            latency_sum / (successes as u64)
        };
        ProbeResult {
            alias,
            success_count: successes,
            total_count: n,
            average_latency_ms,
            loss_percent: LossPercent { num: 100 * ((n - successes) as u64), den: n as u64 },
        }
    }
}

/// Accounting of a reduced result: successes and failures partition the
/// attempts, and the loss fraction is exactly
/// `100 * (total_count - success_count) / total_count`.
pub proof fn lemma_result_accounting(o: Seq<ProbeOutcome>, alias: Seq<char>, r: ProbeResult)
    requires
        reduces(o, alias, r),
    ensures
        r.success_count + count_failures(o) == r.total_count,
        r.loss_percent.den == r.total_count,
        r.loss_percent.num == 100 * (r.total_count - r.success_count),
        r.loss_percent.num * r.total_count == 100 * (r.total_count - r.success_count)
            * r.loss_percent.den,
{
    lemma_counts_partition(o);
}

pub proof fn lemma_counts_partition(o: Seq<ProbeOutcome>)
    ensures
        count_successes(o) + count_failures(o) == o.len(),
    decreases o.len(),
{
    if o.len() > 0 {
        lemma_counts_partition(o.drop_last());
    }
}

/// If every attempt failed, the reduced result reports no latency and a loss
/// of exactly 100 percent.
pub proof fn lemma_all_failed(o: Seq<ProbeOutcome>, alias: Seq<char>, r: ProbeResult)
    requires
        reduces(o, alias, r),
        o.len() > 0,
        forall|i: int| 0 <= i < o.len() ==> o[i] is Failure,
    ensures
        r.average_latency_ms == 0,
        r.loss_percent.num == 100 * r.loss_percent.den,
{
    lemma_no_success_count(o);
}

pub proof fn lemma_no_success_count(o: Seq<ProbeOutcome>)
    requires
        forall|i: int| 0 <= i < o.len() ==> o[i] is Failure,
    ensures
        count_successes(o) == 0,
    decreases o.len(),
{
    if o.len() > 0 {
        assert(forall|i: int| 0 <= i < o.drop_last().len() ==> o.drop_last()[i] is Failure);
        lemma_no_success_count(o.drop_last());
    }
}

/// If every attempt succeeded, the reduced result reports zero loss and its
/// average is the mean (rounded down) of all recorded latencies.
pub proof fn lemma_all_succeeded(o: Seq<ProbeOutcome>, alias: Seq<char>, r: ProbeResult)
    requires
        reduces(o, alias, r),
        o.len() > 0,
        forall|i: int| 0 <= i < o.len() ==> o[i] is Success,
    ensures
        r.loss_percent.num == 0,
        r.success_count == r.total_count,
        r.average_latency_ms == sum_latencies(o) as int / o.len() as int,
{
    lemma_all_success_count(o);
}

pub proof fn lemma_all_success_count(o: Seq<ProbeOutcome>)
    requires
        forall|i: int| 0 <= i < o.len() ==> o[i] is Success,
    ensures
        count_successes(o) == o.len(),
    decreases o.len(),
{
    if o.len() > 0 {
        assert(forall|i: int| 0 <= i < o.drop_last().len() ==> o.drop_last()[i] is Success);
        lemma_all_success_count(o.drop_last());
    }
}

} // verus!
