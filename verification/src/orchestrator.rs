//! Fan-in of one probing cycle: each endpoint's attempt outcomes are reduced
//! and paired with that endpoint's alias by position, never by completion
//! order, so a result is attributed to the right alias by construction.

use crate::config::TargetConfig;
use crate::probe::{reduces, ProbeOutcome, ProbeResult};
use vstd::prelude::*;

verus! {

/// Reduces one cycle's outcomes, one entry of `outcomes` per entry of
/// `targets`, in the same order. Result `i` belongs to endpoint `i`: an
/// endpoint whose attempts all failed still yields a result (with total
/// loss); it never disturbs the others.
pub fn probe_all(targets: &Vec<TargetConfig>, outcomes: &Vec<Vec<ProbeOutcome>>) -> (results: Vec<
    ProbeResult,
>)
    requires
        targets@.len() == outcomes@.len(),
        forall|i: int| 0 <= i < outcomes@.len() ==> 0 < (#[trigger] outcomes@[i])@.len() <= u32::MAX,
    ensures
        results@.len() == targets@.len(),
        forall|i: int|
            0 <= i < results@.len() ==> reduces(
                outcomes@[i]@,
                targets@[i].alias@,
                #[trigger] results@[i],
            ),
        forall|i: int|
            0 <= i < results@.len() ==> (#[trigger] results@[i]).wf()
                && results@[i].average_latency_ms <= u32::MAX,
{
    let mut results: Vec<ProbeResult> = Vec::new();
    let mut i: usize = 0;
    while i < targets.len()
        invariant
            targets@.len() == outcomes@.len(),
            forall|k: int|
                0 <= k < outcomes@.len() ==> 0 < (#[trigger] outcomes@[k])@.len() <= u32::MAX,
            i <= targets@.len(),
            results@.len() == i,
            forall|k: int|
                0 <= k < i ==> reduces(outcomes@[k]@, targets@[k].alias@, #[trigger] results@[k]),
            forall|k: int|
                0 <= k < i ==> (#[trigger] results@[k]).wf() && results@[k].average_latency_ms
                    <= u32::MAX,
        decreases targets@.len() - i,
    {
        let alias = targets[i].alias.clone();
        let r = ProbeResult::from_outcomes(alias, &outcomes[i]);
        results.push(r);
        i = i + 1;
    }
    results
}

/// The mapping view of a cycle's ordered results: the first result attributed
/// to `alias`, if there is one.
pub fn result_for_alias<'a>(results: &'a Vec<ProbeResult>, alias: &String) -> (r: Option<
    &'a ProbeResult,
>)
    ensures
        match r {
            Some(pr) => exists|i: int|
                0 <= i < results@.len() && #[trigger] results@[i] == *pr && results@[i].alias@
                    == alias@,
            None => forall|i: int|
                0 <= i < results@.len() ==> (#[trigger] results@[i]).alias@ != alias@,
        },
{
    let mut i: usize = 0;
    while i < results.len()
        invariant
            i <= results@.len(),
            forall|j: int| 0 <= j < i ==> (#[trigger] results@[j]).alias@ != alias@,
        decreases results@.len() - i,
    {
        if results[i].alias.eq(alias) {
            return Some(&results[i]);
        }
        i = i + 1;
    }
    None
}

} // verus!
