//! Window aggregation: raw measurement rows are grouped per alias into
//! fixed-width, epoch-aligned time buckets; each bucket carries the sum of
//! the loss percentages of the rows that fell into it, and is classified
//! into a traffic-light status. A window without rows yields no bucket.

use crate::metrics::MetricRecord;
use vstd::prelude::*;

verus! {

/// The start of the window that holds instant `ts`: `ts` truncated down to
/// the nearest multiple of `width` (both in seconds since the epoch).
pub open spec fn window_start(ts: int, width: int) -> int {
    ts - ts % width
}

/// Computes the epoch-aligned window start for a timestamp.
pub fn window_start_of(ts: u64, width: u64) -> (ws: u64)
    requires
        width > 0,
    ensures
        ws == window_start(ts as int, width as int),
        ws <= ts,
        ws % width == 0,
{
    proof {
        let t = ts as int;
        let w = width as int;
        vstd::arithmetic::div_mod::lemma_fundamental_div_mod(t, w);
        vstd::arithmetic::div_mod::lemma_mod_bound(t, w);
        vstd::arithmetic::div_mod::lemma_div_pos_is_pos(t, w);
        vstd::arithmetic::mul::lemma_mul_nonnegative(w, t / w);
        vstd::arithmetic::mul::lemma_mul_is_commutative(w, t / w);
        vstd::arithmetic::div_mod::lemma_mod_multiples_basic(t / w, w);
        assert(t - t % w == (t / w) * w);
    }
    ts - ts % width
}

/// Window assignment is monotone: an earlier instant never lands in a later
/// window.
pub proof fn lemma_window_monotone(t1: int, t2: int, width: int)
    requires
        width > 0,
        0 <= t1 <= t2,
    ensures
        window_start(t1, width) <= window_start(t2, width),
{
    vstd::arithmetic::div_mod::lemma_fundamental_div_mod(t1, width);
    vstd::arithmetic::div_mod::lemma_fundamental_div_mod(t2, width);
    vstd::arithmetic::div_mod::lemma_div_is_ordered(t1, t2, width);
    vstd::arithmetic::mul::lemma_mul_inequality(t1 / width, t2 / width, width);
    vstd::arithmetic::mul::lemma_mul_is_commutative(width, t1 / width);
    vstd::arithmetic::mul::lemma_mul_is_commutative(width, t2 / width);
    assert(window_start(t1, width) == (t1 / width) * width);
    assert(window_start(t2, width) == (t2 / width) * width);
}

/// One aggregated window of one alias: the loss percentages (in hundredths
/// of a percent) of every row that fell into `[window_start,
/// window_start + width)`, added together.
#[derive(Clone, Debug)]
pub struct TimeBucket {
    pub alias: String,
    pub window_start: u64,
    pub summed_loss_cp: u64,
}

/// All buckets of one alias, ordered by ascending window start.
#[derive(Clone, Debug)]
pub struct AliasBuckets {
    pub alias: String,
    pub buckets: Vec<TimeBucket>,
}

/// Traffic-light classification of a bucket's summed loss.
#[derive(Clone, Copy, PartialEq, Eq, Structural, Debug)]
pub enum BucketStatus {
    Healthy,
    Degraded,
    Down,
}

/// Status of a summed loss, in hundredths of a percent: up to and including
/// 50% is healthy, strictly between 50% and 100% is degraded, 100% or more
/// is down.
pub open spec fn status_of(summed_loss_cp: int) -> BucketStatus {
    if summed_loss_cp <= 5000 {
        BucketStatus::Healthy
    } else if summed_loss_cp < 10000 {
        BucketStatus::Degraded
    } else {
        BucketStatus::Down
    }
}

/// Classifies a bucket's summed loss.
pub fn classify(summed_loss_cp: u64) -> (s: BucketStatus)
    ensures
        s == status_of(summed_loss_cp as int),
{
    if summed_loss_cp <= 5000 {
        BucketStatus::Healthy
    } else if summed_loss_cp < 10000 {
        BucketStatus::Degraded
    } else {
        BucketStatus::Down
    }
}

/// Row `r` belongs to the bucket of `alias` that starts at `ws`.
pub open spec fn rec_in_bucket(r: MetricRecord, alias: Seq<char>, ws: int, width: int) -> bool {
    r.alias@ == alias && window_start(r.timestamp as int, width) == ws
}

/// The exact sum of the loss of every row of `records` that belongs to the
/// bucket of `alias` starting at `ws`.
pub open spec fn sum_loss(records: Seq<MetricRecord>, alias: Seq<char>, ws: int, width: int) -> int
    decreases records.len(),
{
    if records.len() == 0 {
        0
    } else {
        sum_loss(records.drop_last(), alias, ws, width) + (if rec_in_bucket(
            records.last(),
            alias,
            ws,
            width,
        ) {
            records.last().loss_cp as int
        } else {
            0int
        })
    }
}

/// The rows are ordered by ascending timestamp.
pub open spec fn sorted_by_timestamp(records: Seq<MetricRecord>) -> bool {
    forall|i: int, j: int|
        0 <= i <= j < records.len() ==> (#[trigger] records[i]).timestamp
            <= (#[trigger] records[j]).timestamp
}

/// If no row at position `k` or later belongs to the bucket, the bucket's sum
/// is already complete after the first `k` rows.
proof fn lemma_sum_stable(
    records: Seq<MetricRecord>,
    k: int,
    alias: Seq<char>,
    ws: int,
    width: int,
)
    requires
        0 <= k <= records.len(),
        forall|j: int| k <= j < records.len() ==> !rec_in_bucket(#[trigger] records[j], alias, ws, width),
    ensures
        sum_loss(records, alias, ws, width) == sum_loss(records.subrange(0, k), alias, ws, width),
    decreases records.len() - k,
{
    if k == records.len() {
        assert(records.subrange(0, k) =~= records);
    } else {
        lemma_sum_stable(records.drop_last(), k, alias, ws, width);
        assert(records.drop_last().subrange(0, k) =~= records.subrange(0, k));
    }
}

/// A bucket's sum is nonnegative and at most 100% per contributing row.
proof fn lemma_sum_loss_bound(records: Seq<MetricRecord>, alias: Seq<char>, ws: int, width: int)
    requires
        forall|i: int| 0 <= i < records.len() ==> (#[trigger] records[i]).wf(),
    ensures
        0 <= sum_loss(records, alias, ws, width) <= records.len() * 10000,
    decreases records.len(),
{
    if records.len() > 0 {
        lemma_sum_loss_bound(records.drop_last(), alias, ws, width);
    }
}

/// `aliases` holds a string whose characters are `a`.
pub open spec fn contains_alias(aliases: Seq<String>, a: Seq<char>) -> bool {
    exists|i: int| 0 <= i < aliases.len() && (#[trigger] aliases[i])@ == a
}

/// Some row of `records` carries the alias `a`.
pub open spec fn alias_occurs(records: Seq<MetricRecord>, a: Seq<char>) -> bool {
    exists|k: int| 0 <= k < records.len() && (#[trigger] records[k]).alias@ == a
}

/// Whether some listed alias reads `alias`.
fn alias_listed(aliases: &Vec<String>, alias: &String) -> (r: bool)
    ensures
        r == contains_alias(aliases@, alias@),
{
    let mut i: usize = 0;
    while i < aliases.len()
        invariant
            i <= aliases@.len(),
            forall|j: int| 0 <= j < i ==> (#[trigger] aliases@[j])@ != alias@,
        decreases aliases@.len() - i,
    {
        if aliases[i].eq(alias) {
            assert(contains_alias(aliases@, alias@));
            return true;
        }
        i = i + 1;
    }
    false
}

/// The distinct aliases of `records`, in order of first appearance.
fn distinct_aliases(records: &Vec<MetricRecord>) -> (aliases: Vec<String>)
    ensures
        forall|i1: int, i2: int|
            0 <= i1 < i2 < aliases@.len() ==> (#[trigger] aliases@[i1])@ != (
            #[trigger] aliases@[i2])@,
        forall|k: int|
            0 <= k < records@.len() ==> contains_alias(aliases@, (#[trigger] records@[k]).alias@),
        forall|i: int|
            0 <= i < aliases@.len() ==> alias_occurs(records@, (#[trigger] aliases@[i])@),
{
    let mut aliases: Vec<String> = Vec::new();
    let mut k: usize = 0;
    while k < records.len()
        invariant
            k <= records@.len(),
            forall|i1: int, i2: int|
                0 <= i1 < i2 < aliases@.len() ==> (#[trigger] aliases@[i1])@ != (
                #[trigger] aliases@[i2])@,
            forall|k0: int|
                0 <= k0 < k ==> contains_alias(aliases@, (#[trigger] records@[k0]).alias@),
            forall|i: int|
                0 <= i < aliases@.len() ==> alias_occurs(records@, (#[trigger] aliases@[i])@),
        decreases records@.len() - k,
    {
        if !alias_listed(&aliases, &records[k].alias) {
            let ghost pre = aliases@;
            aliases.push(records[k].alias.clone());
            proof {
                assert(forall|j: int| 0 <= j < pre.len() ==> aliases@[j] == pre[j]);
                assert(aliases@[pre.len() as int]@ == records@[k as int].alias@);
                assert(alias_occurs(records@, aliases@[pre.len() as int]@));
                assert forall|k0: int| 0 <= k0 < k + 1 implies contains_alias(
                    aliases@,
                    (#[trigger] records@[k0]).alias@,
                ) by {
                    if k0 < k {
                        let i0 = choose|i0: int|
                            0 <= i0 < pre.len() && (#[trigger] pre[i0])@ == records@[k0].alias@;
                        assert(aliases@[i0]@ == records@[k0].alias@);
                    } else {
                        assert(aliases@[pre.len() as int]@ == records@[k0].alias@);
                    }
                }
            }
        }
        k = k + 1;
    }
    aliases
}

/// The window a row falls into.
pub open spec fn rec_window(r: MetricRecord, width: int) -> int {
    window_start(r.timestamp as int, width)
}


/// Some row among the first `upto` falls into the bucket of `alias` starting
/// at `ws`. Kept opaque so that searches for witnesses stay local to the
/// proofs that need them.
#[verifier::opaque]
pub open spec fn some_row_in_window(
    records: Seq<MetricRecord>,
    alias: Seq<char>,
    ws: int,
    w: int,
    upto: int,
) -> bool {
    exists|k0: int| 0 <= k0 < upto && rec_in_bucket(#[trigger] records[k0], alias, ws, w)
}

/// Some bucket's window is the one row `r` falls into. Kept opaque for the
/// same reason.
#[verifier::opaque]
pub open spec fn row_has_bucket(buckets: Seq<TimeBucket>, r: MetricRecord, w: int) -> bool {
    exists|j: int|
        0 <= j < buckets.len() && (#[trigger] buckets[j]).window_start == rec_window(r, w)
}

/// All invariants of one alias's bucket list after the first `k` rows have
/// been folded in: every bucket carries the alias; window starts strictly
/// ascend; each bucket holds the exact loss sum, over the rows seen so far,
/// of its window; each bucket was created by some matching row; every
/// matching row seen so far has a bucket; and no such row lies beyond the
/// last window.
pub open spec fn buckets_inv(
    records: Seq<MetricRecord>,
    alias: Seq<char>,
    w: int,
    buckets: Seq<TimeBucket>,
    k: int,
) -> bool {
    &&& forall|j: int| 0 <= j < buckets.len() ==> (#[trigger] buckets[j]).alias@ == alias
    &&& forall|j1: int, j2: int|
        0 <= j1 < j2 < buckets.len() ==> (#[trigger] buckets[j1]).window_start < (
        #[trigger] buckets[j2]).window_start
    &&& forall|j: int|
        0 <= j < buckets.len() ==> (#[trigger] buckets[j]).summed_loss_cp == sum_loss(
            records.subrange(0, k),
            alias,
            buckets[j].window_start as int,
            w,
        )
    &&& forall|j: int|
        0 <= j < buckets.len() ==> some_row_in_window(
            records,
            alias,
            (#[trigger] buckets[j]).window_start as int,
            w,
            k,
        )
    &&& forall|k0: int|
        0 <= k0 < k && (#[trigger] records[k0]).alias@ == alias ==> row_has_bucket(
            buckets,
            records[k0],
            w,
        )
    &&& forall|k0: int|
        0 <= k0 < k && (#[trigger] records[k0]).alias@ == alias ==> buckets.len() > 0
            && rec_window(records[k0], w) <= buckets[buckets.len() - 1].window_start
}

/// A witness among the first `k1` rows is one among the first `k2 >= k1` too.
proof fn lemma_some_row_mono(
    records: Seq<MetricRecord>,
    alias: Seq<char>,
    ws: int,
    w: int,
    k1: int,
    k2: int,
)
    requires
        k1 <= k2,
        some_row_in_window(records, alias, ws, w, k1),
    ensures
        some_row_in_window(records, alias, ws, w, k2),
{
    reveal(some_row_in_window);
    let k0 = choose|k0: int| 0 <= k0 < k1 && rec_in_bucket(#[trigger] records[k0], alias, ws, w);
    assert(0 <= k0 < k2 && rec_in_bucket(records[k0], alias, ws, w));
}

/// One more row extends a bucket's sum by that row's loss if the row belongs
/// to the bucket, and by nothing otherwise.
proof fn lemma_sum_extend(records: Seq<MetricRecord>, k: int, alias: Seq<char>, ws: int, w: int)
    requires
        0 <= k < records.len(),
    ensures
        sum_loss(records.subrange(0, k + 1), alias, ws, w) == sum_loss(
            records.subrange(0, k),
            alias,
            ws,
            w,
        ) + (if rec_in_bucket(records[k], alias, ws, w) {
            records[k].loss_cp as int
        } else {
            0int
        }),
{
    assert(records.subrange(0, k + 1).drop_last() =~= records.subrange(0, k));
    assert(records.subrange(0, k + 1).last() == records[k]);
}

/// Folding in a row of another alias leaves the bucket list invariant.
proof fn lemma_inv_skip(
    records: Seq<MetricRecord>,
    alias: Seq<char>,
    w: int,
    buckets: Seq<TimeBucket>,
    k: int,
)
    requires
        buckets_inv(records, alias, w, buckets, k),
        0 <= k < records.len(),
        records[k].alias@ != alias,
    ensures
        buckets_inv(records, alias, w, buckets, k + 1),
{
    assert forall|j: int| 0 <= j < buckets.len() implies (#[trigger] buckets[j]).summed_loss_cp
        == sum_loss(records.subrange(0, k + 1), alias, buckets[j].window_start as int, w) by {
        lemma_sum_extend(records, k, alias, buckets[j].window_start as int, w);
    }
    assert forall|j: int| 0 <= j < buckets.len() implies some_row_in_window(
        records,
        alias,
        (#[trigger] buckets[j]).window_start as int,
        w,
        k + 1,
    ) by {
        lemma_some_row_mono(records, alias, buckets[j].window_start as int, w, k, k + 1);
    }
}

/// Folding a matching row into the last bucket (the row's own window) keeps
/// the invariant, the last bucket replaced by one whose sum has grown by the
/// row's loss.
proof fn lemma_inv_accum(
    records: Seq<MetricRecord>,
    alias: Seq<char>,
    w: int,
    buckets: Seq<TimeBucket>,
    k: int,
    b2: TimeBucket,
)
    requires
        buckets_inv(records, alias, w, buckets, k),
        0 <= k < records.len(),
        buckets.len() > 0,
        records[k].alias@ == alias,
        rec_window(records[k], w) == buckets[buckets.len() - 1].window_start as int,
        b2.alias@ == alias,
        b2.window_start == buckets[buckets.len() - 1].window_start,
        b2.summed_loss_cp == buckets[buckets.len() - 1].summed_loss_cp + records[k].loss_cp,
    ensures
        buckets_inv(records, alias, w, buckets.drop_last().push(b2), k + 1),
{
    let nb = buckets.drop_last().push(b2);
    assert(nb.len() == buckets.len());
    assert(forall|j: int|
        0 <= j < nb.len() ==> (#[trigger] nb[j]).window_start == buckets[j].window_start);
    assert(forall|j: int| 0 <= j < nb.len() ==> (#[trigger] nb[j]).alias@ == alias);
    assert forall|j: int| 0 <= j < nb.len() implies (#[trigger] nb[j]).summed_loss_cp == sum_loss(
        records.subrange(0, k + 1),
        alias,
        nb[j].window_start as int,
        w,
    ) by {
        lemma_sum_extend(records, k, alias, nb[j].window_start as int, w);
        if j < nb.len() - 1 {
            assert(buckets[j].window_start < buckets[buckets.len() - 1].window_start);
            assert(!rec_in_bucket(records[k], alias, nb[j].window_start as int, w));
            assert(nb[j].summed_loss_cp == buckets[j].summed_loss_cp);
        } else {
            assert(nb[j] == b2);
            assert(rec_in_bucket(records[k], alias, nb[j].window_start as int, w));
        }
    }
    assert forall|j: int| 0 <= j < nb.len() implies some_row_in_window(
        records,
        alias,
        (#[trigger] nb[j]).window_start as int,
        w,
        k + 1,
    ) by {
        lemma_some_row_mono(records, alias, buckets[j].window_start as int, w, k, k + 1);
    }
    assert forall|k0: int| 0 <= k0 < k + 1 && (#[trigger] records[k0]).alias@
        == alias implies row_has_bucket(nb, records[k0], w) by {
        reveal(row_has_bucket);
        if k0 < k {
            let j = choose|j: int|
                0 <= j < buckets.len() && (#[trigger] buckets[j]).window_start == rec_window(
                    records[k0],
                    w,
                );
            assert(nb[j].window_start == rec_window(records[k0], w));
        } else {
            assert(nb[nb.len() - 1].window_start == rec_window(records[k0], w));
        }
    }
}

/// Opening a fresh bucket for a matching row whose window lies beyond every
/// existing bucket keeps the invariant.
proof fn lemma_inv_extend(
    records: Seq<MetricRecord>,
    alias: Seq<char>,
    w: int,
    buckets: Seq<TimeBucket>,
    k: int,
    b: TimeBucket,
)
    requires
        buckets_inv(records, alias, w, buckets, k),
        0 <= k < records.len(),
        records[k].alias@ == alias,
        b.alias@ == alias,
        b.window_start as int == rec_window(records[k], w),
        b.summed_loss_cp == records[k].loss_cp,
        buckets.len() > 0 ==> buckets[buckets.len() - 1].window_start < b.window_start,
    ensures
        buckets_inv(records, alias, w, buckets.push(b), k + 1),
{
    let nb = buckets.push(b);
    assert forall|j: int| 0 <= j < buckets.len() implies (#[trigger] buckets[j]).window_start
        < b.window_start by {
        if j < buckets.len() - 1 {
            assert(buckets[j].window_start < buckets[buckets.len() - 1].window_start);
        }
    }
    assert forall|k0: int| 0 <= k0 < k implies !rec_in_bucket(
        #[trigger] records[k0],
        alias,
        b.window_start as int,
        w,
    ) by {
        if records[k0].alias@ == alias {
            assert(rec_window(records[k0], w) <= buckets[buckets.len() - 1].window_start);
        }
    }
    let pre = records.subrange(0, k);
    assert forall|j: int| 0 <= j < pre.len() implies !rec_in_bucket(
        #[trigger] pre[j],
        alias,
        b.window_start as int,
        w,
    ) by {
        assert(pre[j] == records[j]);
    }
    lemma_sum_stable(pre, 0, alias, b.window_start as int, w);
    assert(pre.subrange(0, 0) =~= Seq::<MetricRecord>::empty());
    assert(sum_loss(pre, alias, b.window_start as int, w) == 0);
    assert forall|j: int| 0 <= j < nb.len() implies (#[trigger] nb[j]).summed_loss_cp == sum_loss(
        records.subrange(0, k + 1),
        alias,
        nb[j].window_start as int,
        w,
    ) by {
        lemma_sum_extend(records, k, alias, nb[j].window_start as int, w);
        if j < buckets.len() {
            assert(nb[j] == buckets[j]);
            assert(!rec_in_bucket(records[k], alias, nb[j].window_start as int, w));
        } else {
            assert(nb[j] == b);
            assert(rec_in_bucket(records[k], alias, b.window_start as int, w));
        }
    }
    assert forall|j: int| 0 <= j < nb.len() implies some_row_in_window(
        records,
        alias,
        (#[trigger] nb[j]).window_start as int,
        w,
        k + 1,
    ) by {
        if j < buckets.len() {
            lemma_some_row_mono(records, alias, buckets[j].window_start as int, w, k, k + 1);
            assert(nb[j] == buckets[j]);
        } else {
            reveal(some_row_in_window);
            assert(nb[j] == b);
            assert(rec_in_bucket(records[k], alias, b.window_start as int, w));
        }
    }
    assert forall|k0: int| 0 <= k0 < k + 1 && (#[trigger] records[k0]).alias@
        == alias implies row_has_bucket(nb, records[k0], w) by {
        reveal(row_has_bucket);
        if k0 < k {
            let j = choose|j: int|
                0 <= j < buckets.len() && (#[trigger] buckets[j]).window_start == rec_window(
                    records[k0],
                    w,
                );
            assert(nb[j].window_start == rec_window(records[k0], w));
        } else {
            assert(nb[nb.len() - 1].window_start == rec_window(records[k0], w));
        }
    }
}

/// The ordered buckets of one alias: scans the rows in timestamp order and
/// folds each row of this alias into the bucket of its window, opening a new
/// bucket whenever the row's window lies beyond the last one. Rows of other
/// aliases are skipped.
fn buckets_for_alias(records: &Vec<MetricRecord>, alias: &String, width: u64) -> (buckets: Vec<
    TimeBucket,
>)
    requires
        width > 0,
        sorted_by_timestamp(records@),
        forall|i: int| 0 <= i < records@.len() ==> (#[trigger] records@[i]).wf(),
        records@.len() * 10000 <= u64::MAX,
    ensures
        buckets_inv(records@, alias@, width as int, buckets@, records@.len() as int),
{
    let ghost w = width as int;
    let mut buckets: Vec<TimeBucket> = Vec::new();
    let mut k: usize = 0;
    while k < records.len()
        invariant
            width > 0,
            w == width as int,
            sorted_by_timestamp(records@),
            forall|i: int| 0 <= i < records@.len() ==> (#[trigger] records@[i]).wf(),
            records@.len() * 10000 <= u64::MAX,
            k <= records@.len(),
            buckets_inv(records@, alias@, w, buckets@, k as int),
        decreases records@.len() - k,
    {
        if records[k].alias.eq(alias) {
            let ws = window_start_of(records[k].timestamp, width);
            let loss = records[k].loss_cp;
            let blen = buckets.len();
            proof {
                assert(records@[k as int].wf());
            }
            if blen > 0 && buckets[blen - 1].window_start == ws {
                let ghost bpre = buckets@;
                proof {
                    assert forall|i: int|
                        0 <= i < records@.subrange(0, k as int).len() implies (
                    #[trigger] records@.subrange(0, k as int)[i]).wf() by {
                        assert(records@.subrange(0, k as int)[i] == records@[i]);
                    }
                    lemma_sum_loss_bound(records@.subrange(0, k as int), alias@, ws as int, w);
                }
                let last = buckets.pop().unwrap();
                let b2 = TimeBucket {
                    alias: last.alias,
                    window_start: last.window_start,
                    summed_loss_cp: last.summed_loss_cp + loss,
                };
                buckets.push(b2);
                proof {
                    assert(buckets@ =~= bpre.drop_last().push(b2));
                    lemma_inv_accum(records@, alias@, w, bpre, k as int, b2);
                }
            } else {
                let b = TimeBucket { alias: alias.clone(), window_start: ws, summed_loss_cp: loss };
                let ghost bpre = buckets@;
                proof {
                    if bpre.len() > 0 {
                        reveal(some_row_in_window);
                        let j = bpre.len() - 1;
                        let k0 = choose|k0: int|
                            0 <= k0 < k && rec_in_bucket(
                                #[trigger] records@[k0],
                                alias@,
                                bpre[j].window_start as int,
                                w,
                            );
                        lemma_window_monotone(
                            records@[k0].timestamp as int,
                            records@[k as int].timestamp as int,
                            w,
                        );
                        assert(bpre[j].window_start < ws);
                    }
                }
                buckets.push(b);
                proof {
                    lemma_inv_extend(records@, alias@, w, bpre, k as int, b);
                }
            }
        } else {
            proof {
                lemma_inv_skip(records@, alias@, w, buckets@, k as int);
            }
        }
        k = k + 1;
    }
    buckets
}

/// Some series in `out` is for alias `a`.
#[verifier::opaque]
pub open spec fn series_for_alias(out: Seq<AliasBuckets>, a: Seq<char>) -> bool {
    exists|i: int| 0 <= i < out.len() && (#[trigger] out[i]).alias@ == a
}

/// Groups rows (ordered by timestamp) per alias into fixed-width,
/// epoch-aligned buckets, summing the loss of the rows of each window.
/// One series per alias that occurs in the rows, in order of first
/// appearance; within a series, buckets ascend by window start. A window in
/// which an alias has no row yields no bucket.
pub fn bucketize(records: &Vec<MetricRecord>, width: u64) -> (out: Vec<AliasBuckets>)
    requires
        width > 0,
        sorted_by_timestamp(records@),
        forall|i: int| 0 <= i < records@.len() ==> (#[trigger] records@[i]).wf(),
        records@.len() * 10000 <= u64::MAX,
    ensures
        forall|i1: int, i2: int|
            0 <= i1 < i2 < out@.len() ==> (#[trigger] out@[i1]).alias@ != (
            #[trigger] out@[i2]).alias@,
        forall|i: int|
            0 <= i < out@.len() ==> buckets_inv(
                records@,
                (#[trigger] out@[i]).alias@,
                width as int,
                out@[i].buckets@,
                records@.len() as int,
            ),
        forall|i: int, j: int|
            0 <= i < out@.len() && 0 <= j < out@[i].buckets@.len() ==> (#[trigger] out@[i].buckets@[j]).summed_loss_cp
                == sum_loss(
                records@,
                out@[i].alias@,
                out@[i].buckets@[j].window_start as int,
                width as int,
            ),
        forall|i: int| 0 <= i < out@.len() ==> alias_occurs(records@, (#[trigger] out@[i]).alias@),
        forall|k: int|
            0 <= k < records@.len() ==> series_for_alias(out@, (#[trigger] records@[k]).alias@),
{
    let ghost w = width as int;
    let aliases = distinct_aliases(records);
    let mut out: Vec<AliasBuckets> = Vec::new();
    let mut i: usize = 0;
    while i < aliases.len()
        invariant
            width > 0,
            w == width as int,
            sorted_by_timestamp(records@),
            forall|i0: int| 0 <= i0 < records@.len() ==> (#[trigger] records@[i0]).wf(),
            records@.len() * 10000 <= u64::MAX,
            i <= aliases@.len(),
            out@.len() == i,
            forall|i1: int, i2: int|
                0 <= i1 < i2 < aliases@.len() ==> (#[trigger] aliases@[i1])@ != (
                #[trigger] aliases@[i2])@,
            forall|k: int|
                0 <= k < records@.len() ==> contains_alias(
                    aliases@,
                    (#[trigger] records@[k]).alias@,
                ),
            forall|i0: int|
                0 <= i0 < aliases@.len() ==> alias_occurs(records@, (#[trigger] aliases@[i0])@),
            forall|i0: int| 0 <= i0 < i ==> (#[trigger] out@[i0]).alias@ == aliases@[i0]@,
            forall|i0: int|
                0 <= i0 < i ==> buckets_inv(
                    records@,
                    (#[trigger] out@[i0]).alias@,
                    w,
                    out@[i0].buckets@,
                    records@.len() as int,
                ),
        decreases aliases@.len() - i,
    {
        let buckets = buckets_for_alias(records, &aliases[i], width);
        let series = AliasBuckets { alias: aliases[i].clone(), buckets };
        out.push(series);
        i = i + 1;
    }
    proof {
        assert(records@.subrange(0, records@.len() as int) =~= records@);
        assert forall|i1: int, j: int|
            0 <= i1 < out@.len() && 0 <= j < out@[i1].buckets@.len() implies (
        #[trigger] out@[i1].buckets@[j]).summed_loss_cp == sum_loss(
            records@,
            out@[i1].alias@,
            out@[i1].buckets@[j].window_start as int,
            w,
        ) by {
            assert(buckets_inv(records@, out@[i1].alias@, w, out@[i1].buckets@, records@.len() as int));
        }
        assert forall|k: int| 0 <= k < records@.len() implies series_for_alias(
            out@,
            (#[trigger] records@[k]).alias@,
        ) by {
            reveal(series_for_alias);
            let i0 = choose|i0: int|
                0 <= i0 < aliases@.len() && (#[trigger] aliases@[i0])@ == records@[k].alias@;
            assert(out@[i0].alias@ == records@[k].alias@);
        }
    }
    out
}

} // verus!
