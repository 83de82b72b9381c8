//! One scheduler cycle, after the probing: turn the cycle's results into
//! rows that all share the cycle's single timestamp, and append them one by
//! one, where one row's failure never stops the others.

use crate::metrics::MetricRecord;
use crate::probe::ProbeResult;
use crate::store::Db;
use vstd::prelude::*;

verus! {

/// The rows of one cycle: one per result, all sharing `now` (the timestamp
/// read once at the cycle's start), each carrying its result's average
/// latency and its loss percentage rounded down to hundredths of a percent.
pub fn cycle_records(now: u64, results: &Vec<ProbeResult>) -> (records: Vec<MetricRecord>)
    requires
        now <= i64::MAX,
        forall|i: int|
            0 <= i < results@.len() ==> (#[trigger] results@[i]).wf()
                && results@[i].average_latency_ms <= u32::MAX,
    ensures
        records@.len() == results@.len(),
        forall|i: int|
            0 <= i < records@.len() ==> {
                &&& (#[trigger] records@[i]).alias == results@[i].alias
                &&& records@[i].timestamp == now
                &&& records@[i].latency_ms == results@[i].average_latency_ms
                &&& records@[i].loss_cp == 100 * (results@[i].loss_percent.num as int) / (
                results@[i].loss_percent.den as int)
                &&& records@[i].wf()
            },
{
    let mut records: Vec<MetricRecord> = Vec::new();
    let mut i: usize = 0;
    while i < results.len()
        invariant
            now <= i64::MAX,
            forall|k: int|
                0 <= k < results@.len() ==> (#[trigger] results@[k]).wf()
                    && results@[k].average_latency_ms <= u32::MAX,
            i <= results@.len(),
            records@.len() == i,
            forall|k: int|
                0 <= k < i ==> {
                    &&& (#[trigger] records@[k]).alias == results@[k].alias
                    &&& records@[k].timestamp == now
                    &&& records@[k].latency_ms == results@[k].average_latency_ms
                    &&& records@[k].loss_cp == 100 * (results@[k].loss_percent.num as int) / (
                    results@[k].loss_percent.den as int)
                    &&& records@[k].wf()
                },
        decreases results@.len() - i,
    {
        let num = results[i].loss_percent.num;
        let den = results[i].loss_percent.den;
        proof {
            assert(results@[i as int].wf());
            assert(num <= 100 * den);
            assert(den <= u32::MAX);
            vstd::arithmetic::div_mod::lemma_div_is_ordered(
                100 * num as int,
                10000 * den as int,
                den as int,
            );
            vstd::arithmetic::mul::lemma_mul_is_commutative(10000, den as int);
            vstd::arithmetic::div_mod::lemma_div_multiples_vanish(10000, den as int);
        }
        let loss_cp = (100 * num) / den;
        records.push(
            MetricRecord {
                alias: results[i].alias.clone(),
                timestamp: now,
                latency_ms: results[i].average_latency_ms,
                loss_cp,
            },
        );
        i = i + 1;
    }
    records
}

/// Appends one cycle's rows. Row `i`'s fate is `flags[i]`; a failed append
/// (an invalid row, or the backing engine refusing it) is recorded there and
/// the remaining rows are still appended — one bad row or one write failure
/// never aborts the cycle.
pub fn append_cycle(db: &Db, records: &Vec<MetricRecord>) -> (flags: Vec<bool>)
    ensures
        flags@.len() == records@.len(),
        forall|i: int| 0 <= i < flags@.len() && flags@[i] ==> (#[trigger] records@[i]).wf(),
{
    let mut flags: Vec<bool> = Vec::new();
    let mut i: usize = 0;
    while i < records.len()
        invariant
            i <= records@.len(),
            flags@.len() == i,
            forall|k: int| 0 <= k < i && flags@[k] ==> (#[trigger] records@[k]).wf(),
        decreases records@.len() - i,
    {
        let ok = match db.insert_metric(
            records[i].alias.as_str(),
            records[i].timestamp,
            records[i].latency_ms,
            records[i].loss_cp,
        ) {
            Ok(()) => true,
            Err(_) => false,
        };
        flags.push(ok);
        i = i + 1;
    }
    flags
}

} // verus!
