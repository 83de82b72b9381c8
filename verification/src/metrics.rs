//! The persisted measurement row: one endpoint's health at one instant.

use vstd::prelude::*;

verus! {

/// One persisted measurement. Written once by the scheduler after a cycle,
/// never updated; all reads are ordered by `timestamp` ascending.
#[derive(Clone, Debug)]
pub struct MetricRecord {
    /// Display alias of the endpoint, the grouping key for reporting.
    pub alias: String,
    /// UTC seconds since the epoch.
    pub timestamp: u64,
    /// Average latency of the cycle, whole milliseconds.
    pub latency_ms: u64,
    /// Loss percentage of the cycle in hundredths of a percent, 0 ..= 10000.
    pub loss_cp: u64,
}

impl MetricRecord {
    /// The loss is a percentage in [0, 100] and the numeric fields fit the
    /// store's signed 64-bit columns.
    pub open spec fn wf(self) -> bool {
        &&& self.loss_cp <= 10000
        &&& self.timestamp <= i64::MAX
        &&& self.latency_ms <= i64::MAX
    }
}

} // verus!
