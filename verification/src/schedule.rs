//! The aggregation and retention schedule: every tick, raw 1 s rows roll
//! into 1 min buckets, 1 min rows older than their retention roll into
//! 5 min buckets, and rows past the retention window are pruned.

use vstd::prelude::*;

use crate::aggregate::{aggregate_aggregated_snapshots, aggregate_snapshots};
use crate::models::{
    AggregatedSnapshotV, FullSystemSnapshotV, aggregated_views, snapshot_views,
};
use crate::store::{
    HistoryStore, agg_row_ok, lemma_min_raw_before_props, raw_row_ok, spec_agg_range,
    spec_agg_outside, spec_min_agg_before, spec_min_raw_before, spec_raw_outside, spec_raw_range,
    ts_of,
};
use vstd::multiset::Multiset;

verus! {

/// Width of a 1 min bucket in milliseconds.
pub const MS_PER_MINUTE: i64 = 60000;

/// Width of a 5 min bucket in milliseconds.
pub const MS_PER_5_MINUTES: i64 = 300000;

/// Resolution tag of a 1 min row.
pub const RESOLUTION_1MIN: i32 = 60;

/// Resolution tag of a 5 min row.
pub const RESOLUTION_5MIN: i32 = 300;

/// Settings of the aggregation worker.
pub struct AggregationWorkerConfig {
    pub aggregation_interval_secs: u64,
    pub raw_retention_hours: u32,
    pub minute_retention_hours: u32,
    pub retention_days: u32,
    /// Optional cron expression for compaction (local time).
    pub vacuum_schedule: Option<String>,
    /// Compaction interval in seconds when no cron expression is set.
    pub vacuum_interval_secs: u64,
}

/// The start of the bucket a timestamp falls in.
pub open spec fn spec_bucket_floor(ts: int, width: int) -> int {
    (ts / width) * width
}

/// Compute the bucket a timestamp falls in.
pub fn bucket_floor(ts: i64, width: i64) -> (r: i64)
    requires
        ts >= 0,
        width > 0,
    ensures
        r == spec_bucket_floor(ts as int, width as int),
        r <= ts < r + width,
        r % width == 0,
        r >= 0,
{
    proof {
        let t = ts as int;
        let w = width as int;
        assert((t / w) * w <= t < (t / w) * w + w && (t / w) * w >= 0 && ((t / w) * w) % w == 0)
            by (nonlinear_arith)
            requires
                t >= 0,
                w > 0,
        ;
    }
    (ts / width) * width
}

/// Filtering with pointwise-equal predicates gives the same rows.
proof fn lemma_raw_filter_equiv(
    s: Seq<FullSystemSnapshotV>,
    p: spec_fn(FullSystemSnapshotV) -> bool,
    q: spec_fn(FullSystemSnapshotV) -> bool,
)
    requires
        forall|i: int| 0 <= i < s.len() ==> p(#[trigger] s[i]) == q(s[i]),
    ensures
        s.filter(p) == s.filter(q),
    decreases s.len(),
{
    broadcast use vstd::prelude::Seq::lemma_filter_push;

    if s.len() == 0 {
    } else {
        let rest = s.drop_last();
        assert(forall|i: int| 0 <= i < rest.len() ==> rest[i] == s[i]);
        lemma_raw_filter_equiv(rest, p, q);
        assert(s =~= rest.push(s.last()));
        assert(p(s[s.len() - 1]) == q(s[s.len() - 1]));
    }
}

/// Two successive filters collapse into one conjunction filter.
proof fn lemma_raw_filter_compose(
    s: Seq<FullSystemSnapshotV>,
    p: spec_fn(FullSystemSnapshotV) -> bool,
    q: spec_fn(FullSystemSnapshotV) -> bool,
    r: spec_fn(FullSystemSnapshotV) -> bool,
)
    requires
        forall|x: FullSystemSnapshotV| #[trigger] r(x) == (p(x) && q(x)),
    ensures
        s.filter(p).filter(q) == s.filter(r),
    decreases s.len(),
{
    broadcast use vstd::prelude::Seq::lemma_filter_push;

    if s.len() == 0 {
        assert(s.filter(p) =~= s);
    } else {
        let rest = s.drop_last();
        lemma_raw_filter_compose(rest, p, q, r);
        assert(s =~= rest.push(s.last()));
        assert(r(s.last()) == (p(s.last()) && q(s.last())));
    }
}

/// A filter that keeps every row is the identity.
proof fn lemma_raw_filter_all(s: Seq<FullSystemSnapshotV>, p: spec_fn(FullSystemSnapshotV) -> bool)
    requires
        forall|i: int| 0 <= i < s.len() ==> p(#[trigger] s[i]),
    ensures
        s.filter(p) == s,
    decreases s.len(),
{
    broadcast use vstd::prelude::Seq::lemma_filter_push;

    if s.len() == 0 {
    } else {
        let rest = s.drop_last();
        assert(forall|i: int| 0 <= i < rest.len() ==> rest[i] == s[i]);
        lemma_raw_filter_all(rest, p);
        assert(s =~= rest.push(s.last()));
        assert(p(s[s.len() - 1]));
        assert(rest.filter(p).push(s.last()) =~= s);
    }
}

/// Same for the aggregated table.
proof fn lemma_agg_filter_equiv(
    s: Seq<AggregatedSnapshotV>,
    p: spec_fn(AggregatedSnapshotV) -> bool,
    q: spec_fn(AggregatedSnapshotV) -> bool,
)
    requires
        forall|i: int| 0 <= i < s.len() ==> p(#[trigger] s[i]) == q(s[i]),
    ensures
        s.filter(p) == s.filter(q),
    decreases s.len(),
{
    broadcast use vstd::prelude::Seq::lemma_filter_push;

    if s.len() == 0 {
    } else {
        let rest = s.drop_last();
        assert(forall|i: int| 0 <= i < rest.len() ==> rest[i] == s[i]);
        lemma_agg_filter_equiv(rest, p, q);
        assert(s =~= rest.push(s.last()));
        assert(p(s[s.len() - 1]) == q(s[s.len() - 1]));
    }
}

proof fn lemma_agg_filter_compose(
    s: Seq<AggregatedSnapshotV>,
    p: spec_fn(AggregatedSnapshotV) -> bool,
    q: spec_fn(AggregatedSnapshotV) -> bool,
    r: spec_fn(AggregatedSnapshotV) -> bool,
)
    requires
        forall|x: AggregatedSnapshotV| #[trigger] r(x) == (p(x) && q(x)),
    ensures
        s.filter(p).filter(q) == s.filter(r),
    decreases s.len(),
{
    broadcast use vstd::prelude::Seq::lemma_filter_push;

    if s.len() == 0 {
        assert(s.filter(p) =~= s);
    } else {
        let rest = s.drop_last();
        lemma_agg_filter_compose(rest, p, q, r);
        assert(s =~= rest.push(s.last()));
        assert(r(s.last()) == (p(s.last()) && q(s.last())));
    }
}

proof fn lemma_agg_filter_all(s: Seq<AggregatedSnapshotV>, p: spec_fn(AggregatedSnapshotV) -> bool)
    requires
        forall|i: int| 0 <= i < s.len() ==> p(#[trigger] s[i]),
    ensures
        s.filter(p) == s,
    decreases s.len(),
{
    broadcast use vstd::prelude::Seq::lemma_filter_push;

    if s.len() == 0 {
    } else {
        let rest = s.drop_last();
        assert(forall|i: int| 0 <= i < rest.len() ==> rest[i] == s[i]);
        lemma_agg_filter_all(rest, p);
        assert(s =~= rest.push(s.last()));
        assert(p(s[s.len() - 1]));
        assert(rest.filter(p).push(s.last()) =~= s);
    }
}

/// Division floor facts for bucket arithmetic.
proof fn lemma_floor_basic(t: int, w: int)
    requires
        w > 0,
    ensures
        spec_bucket_floor(t, w) <= t < spec_bucket_floor(t, w) + w,
        t >= 0 ==> spec_bucket_floor(t, w) >= 0,
{
    assert((t / w) * w <= t < (t / w) * w + w && (t >= 0 ==> (t / w) * w >= 0))
        by (nonlinear_arith)
        requires
            w > 0,
    ;
}

/// Bucket floors are monotone, and fixed on aligned points.
proof fn lemma_floor_mono(a: int, b: int, w: int)
    requires
        w > 0,
        a <= b,
    ensures
        spec_bucket_floor(a, w) <= spec_bucket_floor(b, w),
{
    assert((a / w) * w <= (b / w) * w) by (nonlinear_arith)
        requires
            w > 0,
            a <= b,
    ;
}

proof fn lemma_floor_aligned(b: int, w: int)
    requires
        w > 0,
        b % w == 0,
    ensures
        spec_bucket_floor(b, w) == b,
{
    assert((b / w) * w == b) by (nonlinear_arith)
        requires
            w > 0,
            b % w == 0,
    ;
}

/// A row survives the raw-to-1-min pass exactly when its bucket is not yet
/// complete at the cutoff.
pub open spec fn raw_partial_pred(cutoff: i64) -> spec_fn(FullSystemSnapshotV) -> bool {
    |s: FullSystemSnapshotV| spec_bucket_floor(ts_of(s) as int, 60000) + 60000 > cutoff
}

/// The raw table after one raw-to-1-min pass at `cutoff`: exactly the rows
/// of buckets that the cutoff has not yet completed.
pub open spec fn spec_raw_after_phase_a(raw: Seq<FullSystemSnapshotV>, cutoff: i64) -> Seq<
    FullSystemSnapshotV,
> {
    raw.filter(raw_partial_pred(cutoff))
}

/// The 1-min rows one pass writes for the first `count` buckets starting
/// at `b0`: one aggregate per non-empty bucket, in bucket order.
pub open spec fn spec_phase_a_rows(raw: Seq<FullSystemSnapshotV>, b0: int, count: nat) -> Seq<
    AggregatedSnapshotV,
>
    decreases count,
{
    if count == 0 {
        Seq::empty()
    } else {
        let prev = spec_phase_a_rows(raw, b0, (count - 1) as nat);
        let b = b0 + 60000 * (count - 1);
        let bucket = spec_raw_range(raw, b as i64, (b + 60000) as i64);
        if bucket.len() > 0 {
            prev.push(crate::aggregate::spec_aggregate_snapshots(bucket, b as i64, 60))
        } else {
            prev
        }
    }
}

/// How many complete buckets lie between an aligned start and the cutoff.
pub open spec fn spec_phase_a_bucket_count(b0: int, cutoff: int) -> nat {
    if cutoff >= b0 {
        ((cutoff - b0) / 60000) as nat
    } else {
        0
    }
}

/// Everything one raw-to-1-min pass writes, from the first bucket holding
/// data up to the cutoff; nothing when no raw row lies below the cutoff.
pub open spec fn spec_phase_a_new(raw: Seq<FullSystemSnapshotV>, cutoff: i64) -> Seq<
    AggregatedSnapshotV,
> {
    match spec_min_raw_before(raw, cutoff) {
        None => Seq::empty(),
        Some(m) => spec_phase_a_rows(
            raw,
            spec_bucket_floor(m as int, 60000),
            spec_phase_a_bucket_count(spec_bucket_floor(m as int, 60000), cutoff as int),
        ),
    }
}

/// The aggregated table after inserting a run of new rows one after the
/// other, each at its bucket position.
pub open spec fn spec_insert_all(
    table: Seq<AggregatedSnapshotV>,
    rows: Seq<AggregatedSnapshotV>,
) -> Seq<AggregatedSnapshotV>
    decreases rows.len(),
{
    if rows.len() == 0 {
        table
    } else {
        crate::store::spec_insert_agg(spec_insert_all(table, rows.drop_last()), rows.last())
    }
}

/// Phase A: roll every complete 1 min bucket of raw rows older than the
/// cutoff into one aggregated row each, deleting the bucket's raw rows
/// whether or not it was empty. Exactly the rows of still-incomplete
/// buckets survive; when nothing lies below the cutoff the store is
/// untouched.
pub fn run_phase_a(store: &mut HistoryStore, cutoff_raw: i64)
    requires
        old(store).wf(),
        cutoff_raw <= i64::MAX - 60000,
    ensures
        final(store).wf(),
        final(store).system_info == old(store).system_info,
        snapshot_views(final(store).raw@) == spec_raw_after_phase_a(
            snapshot_views(old(store).raw@),
            cutoff_raw,
        ),
        aggregated_views(final(store).aggregated@) == spec_insert_all(
            aggregated_views(old(store).aggregated@),
            spec_phase_a_new(snapshot_views(old(store).raw@), cutoff_raw),
        ),
        aggregated_views(final(store).aggregated@).to_multiset() == aggregated_views(
            old(store).aggregated@,
        ).to_multiset().add(
            spec_phase_a_new(snapshot_views(old(store).raw@), cutoff_raw).to_multiset(),
        ),
        spec_phase_a_new(snapshot_views(old(store).raw@), cutoff_raw).len() == 0
            ==> final(store).aggregated@ == old(store).aggregated@,
        forall|i: int|
            0 <= i < final(store).raw@.len() ==> spec_bucket_floor(
                ts_of(#[trigger] snapshot_views(final(store).raw@)[i]) as int,
                60000,
            ) + 60000 > cutoff_raw,
{
    broadcast use vstd::seq_lib::group_to_multiset_ensures;
    broadcast use vstd::prelude::Seq::lemma_filter_pred;

    let ghost raw0 = snapshot_views(old(store).raw@);
    let ghost agg0 = aggregated_views(old(store).aggregated@);
    let min_opt = store.get_min_raw_created_at_before(cutoff_raw);
    proof {
        lemma_min_raw_before_props(raw0, cutoff_raw);
    }
    let min_ts = match min_opt {
        None => {
            proof {
                assert forall|i: int| 0 <= i < raw0.len() implies raw_partial_pred(cutoff_raw)(
                    #[trigger] raw0[i],
                ) by {
                    lemma_floor_basic(ts_of(raw0[i]) as int, 60000);
                }
                lemma_raw_filter_all(raw0, raw_partial_pred(cutoff_raw));
                assert(spec_insert_all(agg0, spec_phase_a_new(raw0, cutoff_raw)) == agg0);
                assert(spec_phase_a_new(raw0, cutoff_raw).to_multiset() =~= Multiset::empty());
                assert(agg0.to_multiset().add(spec_phase_a_new(raw0, cutoff_raw).to_multiset())
                    =~= agg0.to_multiset());
            }
            return ;
        },
        Some(m) => m,
    };
    proof {
        let w = choose|w: int| 0 <= w < raw0.len() && ts_of(raw0[w]) == min_ts;
        assert(raw_row_ok(raw0[w]));
        assert(min_ts >= 0);
    }
    let b0 = bucket_floor(min_ts, MS_PER_MINUTE);
    let ghost b0i = b0 as int;
    let mut b = b0;
    let ghost mut k: nat = 0nat;
    proof {
        assert(spec_raw_outside(raw0, b0, b0) =~= raw0) by {
            assert forall|i: int| 0 <= i < raw0.len() implies crate::store::raw_keep_pred(b0, b0)(
                #[trigger] raw0[i],
            ) by {}
            lemma_raw_filter_all(raw0, crate::store::raw_keep_pred(b0, b0));
        }
        assert(agg0.to_multiset().add(spec_phase_a_rows(raw0, b0i, 0nat).to_multiset())
            =~= agg0.to_multiset());
        assert(spec_insert_all(agg0, spec_phase_a_rows(raw0, b0i, 0nat)) == agg0);
    }
    while b + MS_PER_MINUTE <= cutoff_raw
        invariant
            store.wf(),
            store.system_info == old(store).system_info,
            raw0 == snapshot_views(old(store).raw@),
            agg0 == aggregated_views(old(store).aggregated@),
            cutoff_raw <= i64::MAX - 60000,
            b0i == b0 as int,
            0 <= b0 <= b,
            b == b0i + 60000 * k,
            b0 % 60000 == 0,
            b % 60000 == 0,
            k == 0 || b <= cutoff_raw,
            b0 <= min_ts < cutoff_raw,
            spec_min_raw_before(raw0, cutoff_raw) == Some(min_ts),
            b0i == spec_bucket_floor(min_ts as int, 60000),
            snapshot_views(store.raw@) == spec_raw_outside(raw0, b0, b),
            aggregated_views(store.aggregated@) == spec_insert_all(
                agg0,
                spec_phase_a_rows(raw0, b0i, k),
            ),
            aggregated_views(store.aggregated@).to_multiset() == agg0.to_multiset().add(
                spec_phase_a_rows(raw0, b0i, k).to_multiset(),
            ),
            spec_phase_a_rows(raw0, b0i, k).len() == 0 ==> store.aggregated@
                == old(store).aggregated@,
        decreases cutoff_raw - b,
    {
        let bucket_end = b + MS_PER_MINUTE;
        let ghost cur = snapshot_views(store.raw@);
        proof {
            // The rows fetched from the live table are the bucket's rows of
            // the starting table: the bucket is disjoint from everything
            // deleted so far.
            assert forall|x: FullSystemSnapshotV| #[trigger] crate::store::raw_window_pred(
                b,
                bucket_end,
            )(x) == (crate::store::raw_keep_pred(b0, b)(x) && crate::store::raw_window_pred(
                b,
                bucket_end,
            )(x)) by {}
            lemma_raw_filter_compose(
                raw0,
                crate::store::raw_keep_pred(b0, b),
                crate::store::raw_window_pred(b, bucket_end),
                crate::store::raw_window_pred(b, bucket_end),
            );
            assert(spec_raw_range(cur, b, bucket_end) == spec_raw_range(raw0, b, bucket_end));
        }
        let rows = store.get_raw_snapshots_by_time_range(b, bucket_end);
        let ghost bucket = spec_raw_range(raw0, b, bucket_end);
        proof {
            assert(snapshot_views(rows@) == bucket);
            assert(rows@.len() == bucket.len());
        }
        if rows.len() > 0 {
            proof {
                assert forall|i: int| 0 <= i < rows@.len() implies (#[trigger] rows@[i]).ram.used
                    <= i64::MAX by {
                    assert(raw_row_ok(snapshot_views(rows@)[i]));
                }
            }
            let agg_opt = aggregate_snapshots(rows.as_slice(), b, RESOLUTION_1MIN);
            match agg_opt {
                Some(agg) => {
                    proof {
                        crate::aggregate::lemma_memory_used_pointwise(bucket);
                        assert forall|q: int|
                            0 <= q < crate::aggregate::spec_memory_used(bucket).len() implies
                            #[trigger] crate::aggregate::spec_memory_used(bucket)[q] >= 0 by {
                            assert(raw_row_ok(bucket[q]));
                        }
                        crate::aggregate::lemma_min_max_members_i64(
                            crate::aggregate::spec_memory_used(bucket),
                        );
                        crate::aggregate::lemma_mean_bounds_i64(
                            crate::aggregate::spec_memory_used(bucket),
                        );
                        assert(agg_row_ok(agg@));
                    }
                    let ghost before_agg = aggregated_views(store.aggregated@);
                    store.save_aggregated_snapshot(&agg);
                    proof {
                        let newrows = spec_phase_a_rows(raw0, b0i, (k + 1) as nat);
                        assert(newrows == spec_phase_a_rows(raw0, b0i, k).push(agg@));
                        assert(newrows.drop_last() =~= spec_phase_a_rows(raw0, b0i, k));
                        assert(spec_insert_all(agg0, newrows) == crate::store::spec_insert_agg(
                            spec_insert_all(agg0, spec_phase_a_rows(raw0, b0i, k)),
                            agg@,
                        ));
                        spec_phase_a_rows(raw0, b0i, k).to_multiset_ensures();
                        assert(newrows.to_multiset() =~= spec_phase_a_rows(
                            raw0,
                            b0i,
                            k,
                        ).to_multiset().insert(agg@));
                        assert(aggregated_views(store.aggregated@).to_multiset()
                            =~= agg0.to_multiset().add(newrows.to_multiset()));
                    }
                },
                None => {
                    proof {
                        assert(false);
                    }
                },
            }
        } else {
            proof {
                assert(spec_phase_a_rows(raw0, b0i, (k + 1) as nat) == spec_phase_a_rows(
                    raw0,
                    b0i,
                    k,
                ));
            }
        }
        store.delete_raw_range(b, bucket_end);
        proof {
            // Deleting the bucket extends the deleted prefix to its end.
            assert forall|x: FullSystemSnapshotV| #[trigger] crate::store::raw_keep_pred(
                b0,
                bucket_end,
            )(x) == (crate::store::raw_keep_pred(b0, b)(x) && crate::store::raw_keep_pred(
                b,
                bucket_end,
            )(x)) by {}
            lemma_raw_filter_compose(
                raw0,
                crate::store::raw_keep_pred(b0, b),
                crate::store::raw_keep_pred(b, bucket_end),
                crate::store::raw_keep_pred(b0, bucket_end),
            );
        }
        b = bucket_end;
        proof {
            k = k + 1;
        }
    }
    proof {
        // The number of processed buckets is the complete-bucket count.
        assert(k == spec_phase_a_bucket_count(b0i, cutoff_raw as int)) by {
            assert(b0i <= cutoff_raw);
            if k == 0 {
                assert(b0i + 60000 > cutoff_raw);
                assert((cutoff_raw - b0i) / 60000 == 0) by (nonlinear_arith)
                    requires
                        0 <= cutoff_raw - b0i < 60000,
                ;
            } else {
                assert(b <= cutoff_raw && b + 60000 > cutoff_raw);
                assert((cutoff_raw - b0i) / 60000 == k) by (nonlinear_arith)
                    requires
                        b == b0i + 60000 * k,
                        b <= cutoff_raw,
                        b + 60000 > cutoff_raw,
                        k >= 0,
                ;
            }
        }
        assert(spec_phase_a_new(raw0, cutoff_raw) == spec_phase_a_rows(raw0, b0i, k));
        // The rows that survive are exactly those of incomplete buckets.
        assert forall|i: int| 0 <= i < raw0.len() implies #[trigger] crate::store::raw_keep_pred(
            b0,
            b,
        )(raw0[i]) == raw_partial_pred(cutoff_raw)(raw0[i]) by {
            let t = ts_of(raw0[i]) as int;
            let fl = spec_bucket_floor(t, 60000);
            lemma_floor_basic(t, 60000);
            if b0 <= t < b {
                // In a processed bucket: its floor is aligned within [b0, b).
                lemma_floor_mono(b0 as int, t, 60000);
                lemma_floor_aligned(b0 as int, 60000);
                assert(fl >= b0);
                assert(fl <= t);
                assert(fl + 60000 <= b) by (nonlinear_arith)
                    requires
                        fl == (t / 60000) * 60000,
                        t < b,
                        b % 60000 == 0,
                        fl <= t,
                ;
                assert(b <= cutoff_raw || k == 0);
                assert(fl + 60000 <= cutoff_raw);
            } else {
                if t < b0 {
                    // No row lies below the first bucket: b0 floors the minimum.
                    if t < cutoff_raw {
                        assert(min_ts <= ts_of(raw0[i]));
                        lemma_floor_mono(min_ts as int, t, 60000);
                        lemma_floor_aligned(b0 as int, 60000);
                        assert(false);
                    } else {
                        assert(fl + 60000 > t >= cutoff_raw);
                    }
                } else {
                    // At or beyond the processed prefix: the bucket is incomplete.
                    assert(t >= b);
                    lemma_floor_mono(b as int, t, 60000);
                    lemma_floor_aligned(b as int, 60000);
                    assert(fl >= b);
                    assert(fl + 60000 > cutoff_raw);
                }
            }
        }
        lemma_raw_filter_equiv(raw0, crate::store::raw_keep_pred(b0, b), raw_partial_pred(
            cutoff_raw,
        ));
        assert(snapshot_views(store.raw@) == spec_raw_after_phase_a(raw0, cutoff_raw));
        let fin = snapshot_views(store.raw@);
        assert forall|i: int| 0 <= i < fin.len() implies spec_bucket_floor(
            ts_of(#[trigger] fin[i]) as int,
            60000,
        ) + 60000 > cutoff_raw by {
            assert(raw_partial_pred(cutoff_raw)(fin[i]));
        }
    }
}

/// Splitting a table by a predicate and its negation partitions its rows.
proof fn lemma_agg_filter_partition(
    s: Seq<AggregatedSnapshotV>,
    p: spec_fn(AggregatedSnapshotV) -> bool,
    q: spec_fn(AggregatedSnapshotV) -> bool,
)
    requires
        forall|x: AggregatedSnapshotV| #[trigger] q(x) == !p(x),
    ensures
        s.to_multiset() == s.filter(p).to_multiset().add(s.filter(q).to_multiset()),
    decreases s.len(),
{
    broadcast use vstd::prelude::Seq::lemma_filter_push;
    broadcast use vstd::seq_lib::group_to_multiset_ensures;

    if s.len() == 0 {
        assert(s.filter(p) =~= s);
        assert(s.filter(q) =~= s);
        assert(s.to_multiset() =~= s.filter(p).to_multiset().add(s.filter(q).to_multiset()));
    } else {
        let rest = s.drop_last();
        lemma_agg_filter_partition(rest, p, q);
        assert(s =~= rest.push(s.last()));
        assert(q(s.last()) == !p(s.last()));
        assert(s.to_multiset() == rest.to_multiset().insert(s.last()));
        if p(s.last()) {
            assert(s.filter(p) == rest.filter(p).push(s.last()));
            assert(s.filter(p).to_multiset() == rest.filter(p).to_multiset().insert(s.last()));
            assert(s.to_multiset() =~= s.filter(p).to_multiset().add(s.filter(q).to_multiset()));
        } else {
            assert(s.filter(q) == rest.filter(q).push(s.last()));
            assert(s.filter(q).to_multiset() == rest.filter(q).to_multiset().insert(s.last()));
            assert(s.to_multiset() =~= s.filter(p).to_multiset().add(s.filter(q).to_multiset()));
        }
    }
}

/// A sorted insertion of a row the predicate rejects does not change the
/// filtered rows.
proof fn lemma_insert_agg_filter(
    s: Seq<AggregatedSnapshotV>,
    x: AggregatedSnapshotV,
    p: spec_fn(AggregatedSnapshotV) -> bool,
)
    requires
        !p(x),
    ensures
        crate::store::spec_insert_agg(s, x).filter(p) == s.filter(p),
    decreases s.len(),
{
    broadcast use vstd::prelude::Seq::lemma_filter_push;

    if s.len() == 0 {
        assert(crate::store::spec_insert_agg(s, x) =~= Seq::empty().push(x));
        assert(Seq::<AggregatedSnapshotV>::empty().push(x).filter(p) == Seq::<
            AggregatedSnapshotV,
        >::empty().filter(p));
        assert(Seq::<AggregatedSnapshotV>::empty().filter(p) =~= s.filter(p));
    } else if s.last().created_at <= x.created_at {
        assert(crate::store::spec_insert_agg(s, x) == s.push(x));
    } else {
        let rest = s.drop_last();
        lemma_insert_agg_filter(rest, x, p);
        assert(crate::store::spec_insert_agg(s, x) == crate::store::spec_insert_agg(
            rest,
            x,
        ).push(s.last()));
        assert(s =~= rest.push(s.last()));
    }
}

/// The 1 min rows of the aggregated table.
pub open spec fn res60_pred() -> spec_fn(AggregatedSnapshotV) -> bool {
    |a: AggregatedSnapshotV| a.resolution_seconds == 60
}

/// The 1 min rows outside a time window.
pub open spec fn res60_outside_pred(from: i64, to: i64) -> spec_fn(AggregatedSnapshotV) -> bool {
    |a: AggregatedSnapshotV| a.resolution_seconds == 60 && !(from <= a.created_at < to)
}

/// A row survives the 1-min-to-5-min pass exactly when it is not a 1 min
/// row of a 5 min bucket the cutoff has completed.
pub open spec fn agg_partial_pred(cutoff: i64) -> spec_fn(AggregatedSnapshotV) -> bool {
    |a: AggregatedSnapshotV| a.resolution_seconds != 60 || spec_bucket_floor(
        a.created_at as int,
        300000,
    ) + 300000 > cutoff
}

/// The aggregated table after one 1-min-to-5-min pass at `cutoff`, not
/// counting the freshly written 5 min rows.
pub open spec fn spec_agg_after_phase_b(aggs: Seq<AggregatedSnapshotV>, cutoff: i64) -> Seq<
    AggregatedSnapshotV,
> {
    aggs.filter(agg_partial_pred(cutoff))
}

/// The 5 min rows one pass writes for the first `count` buckets starting
/// at `b0`: one roll-up per 5 min bucket holding 1 min rows.
pub open spec fn spec_phase_b_rows(aggs: Seq<AggregatedSnapshotV>, b0: int, count: nat) -> Seq<
    AggregatedSnapshotV,
>
    decreases count,
{
    if count == 0 {
        Seq::empty()
    } else {
        let prev = spec_phase_b_rows(aggs, b0, (count - 1) as nat);
        let b = b0 + 300000 * (count - 1);
        let bucket = spec_agg_range(aggs, b as i64, (b + 300000) as i64, 60);
        if bucket.len() > 0 {
            prev.push(crate::aggregate::spec_aggregate_aggregated(bucket, b as i64, 300))
        } else {
            prev
        }
    }
}

pub open spec fn spec_phase_b_bucket_count(b0: int, cutoff: int) -> nat {
    if cutoff >= b0 {
        ((cutoff - b0) / 300000) as nat
    } else {
        0
    }
}

/// Everything one 1-min-to-5-min pass writes; nothing when no 1 min row
/// lies below the cutoff.
pub open spec fn spec_phase_b_new(aggs: Seq<AggregatedSnapshotV>, cutoff: i64) -> Seq<
    AggregatedSnapshotV,
> {
    match spec_min_agg_before(aggs, cutoff, 60) {
        None => Seq::empty(),
        Some(m) => spec_phase_b_rows(
            aggs,
            spec_bucket_floor(m as int, 300000),
            spec_phase_b_bucket_count(spec_bucket_floor(m as int, 300000), cutoff as int),
        ),
    }
}

/// The aggregated table after the first `count` 5 min buckets of one
/// 1-min-to-5-min pass, bucket by bucket: the bucket's roll-up inserted
/// when the bucket holds 1 min rows, then the bucket's 1 min rows deleted.
pub open spec fn spec_phase_b_table(
    agg1: Seq<AggregatedSnapshotV>,
    b0: int,
    count: nat,
) -> Seq<AggregatedSnapshotV>
    decreases count,
{
    if count == 0 {
        agg1
    } else {
        let prev = spec_phase_b_table(agg1, b0, (count - 1) as nat);
        let b = b0 + 300000 * (count - 1);
        let bucket = spec_agg_range(agg1, b as i64, (b + 300000) as i64, 60);
        let mid = if bucket.len() > 0 {
            crate::store::spec_insert_agg(
                prev,
                crate::aggregate::spec_aggregate_aggregated(bucket, b as i64, 300),
            )
        } else {
            prev
        };
        mid.filter(crate::store::agg_keep_pred(b as i64, (b + 300000) as i64, 60))
    }
}

/// The aggregated table one full 1-min-to-5-min pass leaves behind;
/// unchanged when no 1 min row lies below the cutoff.
pub open spec fn spec_phase_b_result(agg1: Seq<AggregatedSnapshotV>, cutoff: i64) -> Seq<
    AggregatedSnapshotV,
> {
    match spec_min_agg_before(agg1, cutoff, 60) {
        None => agg1,
        Some(m) => spec_phase_b_table(
            agg1,
            spec_bucket_floor(m as int, 300000),
            spec_phase_b_bucket_count(spec_bucket_floor(m as int, 300000), cutoff as int),
        ),
    }
}

/// Phase B: roll every complete 5 min bucket of 1 min rows older than the
/// cutoff into one 5 min row each, deleting the bucket's 1 min rows.
/// Exactly the 1 min rows of still-incomplete 5 min buckets survive,
/// beside everything that never was a 1 min row.
pub fn run_phase_b(store: &mut HistoryStore, cutoff_1min: i64)
    requires
        old(store).wf(),
        cutoff_1min <= i64::MAX - 300000,
    ensures
        final(store).wf(),
        final(store).system_info == old(store).system_info,
        final(store).raw@ == old(store).raw@,
        aggregated_views(final(store).aggregated@) == spec_phase_b_result(
            aggregated_views(old(store).aggregated@),
            cutoff_1min,
        ),
        aggregated_views(final(store).aggregated@).to_multiset() == spec_agg_after_phase_b(
            aggregated_views(old(store).aggregated@),
            cutoff_1min,
        ).to_multiset().add(
            spec_phase_b_new(aggregated_views(old(store).aggregated@), cutoff_1min).to_multiset(),
        ),
        spec_min_agg_before(aggregated_views(old(store).aggregated@), cutoff_1min, 60) is None
            ==> final(store).aggregated@ == old(store).aggregated@,
{
    broadcast use vstd::seq_lib::group_to_multiset_ensures;
    broadcast use vstd::prelude::Seq::lemma_filter_pred;

    let ghost agg1 = aggregated_views(old(store).aggregated@);
    let min_opt = store.get_min_aggregated_created_at_before(cutoff_1min, RESOLUTION_1MIN);
    proof {
        crate::store::lemma_min_agg_before_props(agg1, cutoff_1min, 60);
    }
    let min_ts = match min_opt {
        None => {
            proof {
                assert forall|i: int| 0 <= i < agg1.len() implies agg_partial_pred(cutoff_1min)(
                    #[trigger] agg1[i],
                ) by {
                    lemma_floor_basic(agg1[i].created_at as int, 300000);
                }
                lemma_agg_filter_all(agg1, agg_partial_pred(cutoff_1min));
                assert(spec_phase_b_result(agg1, cutoff_1min) == agg1);
                assert(spec_phase_b_new(agg1, cutoff_1min).to_multiset() =~= Multiset::empty());
                assert(spec_agg_after_phase_b(agg1, cutoff_1min).to_multiset().add(
                    spec_phase_b_new(agg1, cutoff_1min).to_multiset(),
                ) =~= agg1.to_multiset());
            }
            return ;
        },
        Some(m) => m,
    };
    proof {
        let w = choose|w: int|
            0 <= w < agg1.len() && agg1[w].created_at == min_ts && agg1[w].resolution_seconds
                == 60;
        assert(agg_row_ok(agg1[w]));
        assert(min_ts >= 0);
    }
    let b0 = bucket_floor(min_ts, MS_PER_5_MINUTES);
    let ghost b0i = b0 as int;
    let mut b = b0;
    let ghost mut k: nat = 0nat;
    proof {
        assert(spec_agg_outside(agg1, b0, b0, 60) =~= agg1) by {
            assert forall|i: int| 0 <= i < agg1.len() implies crate::store::agg_keep_pred(
                b0,
                b0,
                60,
            )(#[trigger] agg1[i]) by {}
            lemma_agg_filter_all(agg1, crate::store::agg_keep_pred(b0, b0, 60));
        }
        assert(spec_agg_outside(agg1, b0, b0, 60).to_multiset().add(
            spec_phase_b_rows(agg1, b0i, 0nat).to_multiset(),
        ) =~= agg1.to_multiset());
        assert(spec_agg_outside(agg1, b0, b0, 60).filter(res60_pred()) == aggregated_views(
            store.aggregated@,
        ).filter(res60_pred()));
        assert(spec_phase_b_table(agg1, b0i, 0nat) == agg1);
    }
    while b + MS_PER_5_MINUTES <= cutoff_1min
        invariant
            store.wf(),
            store.system_info == old(store).system_info,
            store.raw@ == old(store).raw@,
            agg1 == aggregated_views(old(store).aggregated@),
            cutoff_1min <= i64::MAX - 300000,
            b0i == b0 as int,
            0 <= b0 <= b,
            b == b0i + 300000 * k,
            b0 % 300000 == 0,
            b % 300000 == 0,
            k == 0 || b <= cutoff_1min,
            b0 <= min_ts < cutoff_1min,
            spec_min_agg_before(agg1, cutoff_1min, 60) == Some(min_ts),
            b0i == spec_bucket_floor(min_ts as int, 300000),
            aggregated_views(store.aggregated@).filter(res60_pred()) == spec_agg_outside(
                agg1,
                b0,
                b,
                60,
            ).filter(res60_pred()),
            aggregated_views(store.aggregated@).to_multiset() == spec_agg_outside(
                agg1,
                b0,
                b,
                60,
            ).to_multiset().add(spec_phase_b_rows(agg1, b0i, k).to_multiset()),
            aggregated_views(store.aggregated@) == spec_phase_b_table(agg1, b0i, k),
        decreases cutoff_1min - b,
    {
        let bucket_end = b + MS_PER_5_MINUTES;
        let ghost cur = aggregated_views(store.aggregated@);
        proof {
            // The fetched 1 min rows are the starting table's bucket rows.
            assert forall|x: AggregatedSnapshotV| #[trigger] crate::store::agg_window_pred(
                b,
                bucket_end,
                60,
            )(x) == (res60_pred()(x) && crate::store::agg_window_pred(b, bucket_end, 60)(x)) by {}
            lemma_agg_filter_compose(
                cur,
                res60_pred(),
                crate::store::agg_window_pred(b, bucket_end, 60),
                crate::store::agg_window_pred(b, bucket_end, 60),
            );
            lemma_agg_filter_compose(
                spec_agg_outside(agg1, b0, b, 60),
                res60_pred(),
                crate::store::agg_window_pred(b, bucket_end, 60),
                crate::store::agg_window_pred(b, bucket_end, 60),
            );
            assert forall|x: AggregatedSnapshotV| #[trigger] crate::store::agg_window_pred(
                b,
                bucket_end,
                60,
            )(x) == (crate::store::agg_keep_pred(b0, b, 60)(x) && crate::store::agg_window_pred(
                b,
                bucket_end,
                60,
            )(x)) by {}
            lemma_agg_filter_compose(
                agg1,
                crate::store::agg_keep_pred(b0, b, 60),
                crate::store::agg_window_pred(b, bucket_end, 60),
                crate::store::agg_window_pred(b, bucket_end, 60),
            );
            assert(spec_agg_range(cur, b, bucket_end, 60) == spec_agg_range(
                agg1,
                b,
                bucket_end,
                60,
            ));
        }
        let rows = store.get_aggregated_snapshots_by_time_range(b, bucket_end, RESOLUTION_1MIN);
        let ghost bucket = spec_agg_range(agg1, b, bucket_end, 60);
        proof {
            assert(aggregated_views(rows@) == bucket);
            assert(rows@.len() == bucket.len());
        }
        if rows.len() > 0 {
            proof {
                assert forall|i: int| 0 <= i < rows@.len() implies
                    (#[trigger] rows@[i]).memory_used_avg >= 0 by {
                    assert(agg_row_ok(aggregated_views(rows@)[i]));
                }
            }
            let agg_opt = aggregate_aggregated_snapshots(rows.as_slice(), b, RESOLUTION_5MIN);
            match agg_opt {
                Some(agg) => {
                    proof {
                        crate::aggregate::lemma_agg_scalar_pointwise(bucket);
                        assert forall|q: int| 0 <= q < bucket.len() implies agg_row_ok(
                            #[trigger] bucket[q],
                        ) by {}
                        let mavgs = crate::aggregate::spec_mem_avgs(bucket);
                        let mmins = crate::aggregate::spec_mem_mins(bucket);
                        let mmaxes = crate::aggregate::spec_mem_maxes(bucket);
                        assert forall|q: int| 0 <= q < mavgs.len() implies #[trigger] mavgs[q]
                            >= 0 by {
                            assert(agg_row_ok(bucket[q]));
                        }
                        assert forall|q: int| 0 <= q < mmins.len() implies #[trigger] mmins[q]
                            >= 0 by {
                            assert(agg_row_ok(bucket[q]));
                        }
                        assert forall|q: int| 0 <= q < mmaxes.len() implies #[trigger] mmaxes[q]
                            >= 0 by {
                            assert(agg_row_ok(bucket[q]));
                        }
                        crate::aggregate::lemma_min_max_members_i64(mavgs);
                        crate::aggregate::lemma_mean_bounds_i64(mavgs);
                        crate::aggregate::lemma_min_max_members_i64(mmins);
                        crate::aggregate::lemma_min_max_members_i64(mmaxes);
                        assert(crate::aggregate::seq_min_i64(mmins) >= 0) by {
                            let w = choose|w: int|
                                0 <= w < mmins.len() && mmins[w] == crate::aggregate::seq_min_i64(
                                    mmins,
                                );
                        }
                        assert(crate::aggregate::seq_max_i64(mmaxes) >= 0) by {
                            let w = choose|w: int|
                                0 <= w < mmaxes.len() && mmaxes[w]
                                    == crate::aggregate::seq_max_i64(mmaxes);
                        }
                        assert forall|q: int| 0 <= q < rows@.len() implies {
                            let s = (#[trigger] rows@[q])@;
                            s.cpu_load_min <= s.cpu_load_avg <= s.cpu_load_max
                                && s.memory_used_min <= s.memory_used_avg <= s.memory_used_max
                        } by {
                            assert(agg_row_ok(aggregated_views(rows@)[q]));
                        }
                        assert(agg_row_ok(agg@));
                    }
                    let ghost before_agg = aggregated_views(store.aggregated@);
                    store.save_aggregated_snapshot(&agg);
                    proof {
                        assert(aggregated_views(store.aggregated@) == crate::store::spec_insert_agg(
                            cur,
                            crate::aggregate::spec_aggregate_aggregated(bucket, b, 300),
                        ));
                        lemma_insert_agg_filter(before_agg, agg@, res60_pred());
                        let newrows = spec_phase_b_rows(agg1, b0i, (k + 1) as nat);
                        assert(newrows == spec_phase_b_rows(agg1, b0i, k).push(agg@));
                        spec_phase_b_rows(agg1, b0i, k).to_multiset_ensures();
                        assert(newrows.to_multiset() =~= spec_phase_b_rows(
                            agg1,
                            b0i,
                            k,
                        ).to_multiset().insert(agg@));
                        assert(aggregated_views(store.aggregated@).to_multiset()
                            =~= spec_agg_outside(agg1, b0, b, 60).to_multiset().add(
                            newrows.to_multiset(),
                        ));
                    }
                },
                None => {
                    proof {
                        assert(false);
                    }
                },
            }
        } else {
            proof {
                assert(spec_phase_b_rows(agg1, b0i, (k + 1) as nat) == spec_phase_b_rows(
                    agg1,
                    b0i,
                    k,
                ));
            }
        }
        let ghost cur2 = aggregated_views(store.aggregated@);
        store.delete_aggregated_range(b, bucket_end, RESOLUTION_1MIN);
        proof {
            let cur3 = aggregated_views(store.aggregated@);
            // The 1 min rows after the delete: the kept window widens to the
            // bucket's end.
            assert forall|x: AggregatedSnapshotV| #[trigger] res60_outside_pred(b, bucket_end)(x)
                == (crate::store::agg_keep_pred(b, bucket_end, 60)(x) && res60_pred()(x)) by {}
            assert forall|x: AggregatedSnapshotV| #[trigger] res60_outside_pred(b, bucket_end)(x)
                == (res60_pred()(x) && crate::store::agg_keep_pred(b, bucket_end, 60)(x)) by {}
            lemma_agg_filter_compose(
                cur2,
                crate::store::agg_keep_pred(b, bucket_end, 60),
                res60_pred(),
                res60_outside_pred(b, bucket_end),
            );
            lemma_agg_filter_compose(
                cur2,
                res60_pred(),
                crate::store::agg_keep_pred(b, bucket_end, 60),
                res60_outside_pred(b, bucket_end),
            );
            assert(cur3.filter(res60_pred()) == cur2.filter(res60_pred()).filter(
                crate::store::agg_keep_pred(b, bucket_end, 60),
            ));
            // And on the starting table's side the same window widening holds.
            lemma_agg_filter_compose(
                spec_agg_outside(agg1, b0, b, 60),
                res60_pred(),
                crate::store::agg_keep_pred(b, bucket_end, 60),
                res60_outside_pred(b, bucket_end),
            );
            lemma_agg_filter_compose(
                spec_agg_outside(agg1, b0, bucket_end, 60),
                res60_pred(),
                res60_pred(),
                res60_pred(),
            );
            assert forall|x: AggregatedSnapshotV| #[trigger] res60_pred()(x) == (res60_pred()(x)
                && res60_pred()(x)) by {}
            assert forall|x: AggregatedSnapshotV| #[trigger] crate::store::agg_keep_pred(
                b0,
                bucket_end,
                60,
            )(x) == (crate::store::agg_keep_pred(b0, b, 60)(x) && crate::store::agg_keep_pred(
                b,
                bucket_end,
                60,
            )(x)) by {}
            lemma_agg_filter_compose(
                agg1,
                crate::store::agg_keep_pred(b0, b, 60),
                crate::store::agg_keep_pred(b, bucket_end, 60),
                crate::store::agg_keep_pred(b0, bucket_end, 60),
            );
            // 1 min rows line up between the live table and the starting one.
            assert(spec_agg_outside(agg1, b0, b, 60).filter(res60_pred()).filter(
                crate::store::agg_keep_pred(b, bucket_end, 60),
            ) == spec_agg_outside(agg1, b0, bucket_end, 60).filter(res60_pred())) by {
                lemma_agg_filter_compose(
                    spec_agg_outside(agg1, b0, b, 60),
                    res60_pred(),
                    crate::store::agg_keep_pred(b, bucket_end, 60),
                    res60_outside_pred(b, bucket_end),
                );
                lemma_agg_filter_compose(
                    agg1,
                    crate::store::agg_keep_pred(b0, b, 60),
                    res60_outside_pred(b, bucket_end),
                    res60_outside_pred(b0, bucket_end),
                );
                assert forall|x: AggregatedSnapshotV| #[trigger] res60_outside_pred(
                    b0,
                    bucket_end,
                )(x) == (crate::store::agg_keep_pred(b0, b, 60)(x) && res60_outside_pred(
                    b,
                    bucket_end,
                )(x)) by {}
                lemma_agg_filter_compose(
                    agg1,
                    crate::store::agg_keep_pred(b0, bucket_end, 60),
                    res60_pred(),
                    res60_outside_pred(b0, bucket_end),
                );
                assert forall|x: AggregatedSnapshotV| #[trigger] res60_outside_pred(
                    b0,
                    bucket_end,
                )(x) == (crate::store::agg_keep_pred(b0, bucket_end, 60)(x) && res60_pred()(
                    x,
                )) by {}
            }
            // Multiset bookkeeping: the delete removes exactly the bucket.
            assert forall|x: AggregatedSnapshotV| #[trigger] crate::store::agg_window_pred(
                b,
                bucket_end,
                60,
            )(x) == !crate::store::agg_keep_pred(b, bucket_end, 60)(x) by {}
            lemma_agg_filter_partition(
                cur2,
                crate::store::agg_keep_pred(b, bucket_end, 60),
                crate::store::agg_window_pred(b, bucket_end, 60),
            );
            lemma_agg_filter_partition(
                spec_agg_outside(agg1, b0, b, 60),
                crate::store::agg_keep_pred(b, bucket_end, 60),
                crate::store::agg_window_pred(b, bucket_end, 60),
            );
            // The deleted rows equal the starting table's bucket on both sides.
            assert(cur2.filter(crate::store::agg_window_pred(b, bucket_end, 60)) == spec_agg_range(
                agg1,
                b,
                bucket_end,
                60,
            )) by {
                lemma_agg_filter_compose(
                    cur2,
                    res60_pred(),
                    crate::store::agg_window_pred(b, bucket_end, 60),
                    crate::store::agg_window_pred(b, bucket_end, 60),
                );
                lemma_agg_filter_compose(
                    spec_agg_outside(agg1, b0, b, 60),
                    res60_pred(),
                    crate::store::agg_window_pred(b, bucket_end, 60),
                    crate::store::agg_window_pred(b, bucket_end, 60),
                );
                lemma_agg_filter_compose(
                    agg1,
                    crate::store::agg_keep_pred(b0, b, 60),
                    crate::store::agg_window_pred(b, bucket_end, 60),
                    crate::store::agg_window_pred(b, bucket_end, 60),
                );
                assert forall|x: AggregatedSnapshotV| #[trigger] crate::store::agg_window_pred(
                    b,
                    bucket_end,
                    60,
                )(x) == (crate::store::agg_keep_pred(b0, b, 60)(x)
                    && crate::store::agg_window_pred(b, bucket_end, 60)(x)) by {}
            }
            assert(spec_agg_outside(agg1, b0, b, 60).filter(
                crate::store::agg_keep_pred(b, bucket_end, 60),
            ) == spec_agg_outside(agg1, b0, bucket_end, 60));
            assert(spec_agg_outside(agg1, b0, b, 60).filter(
                crate::store::agg_window_pred(b, bucket_end, 60),
            ) == spec_agg_range(agg1, b, bucket_end, 60)) by {
                lemma_agg_filter_compose(
                    agg1,
                    crate::store::agg_keep_pred(b0, b, 60),
                    crate::store::agg_window_pred(b, bucket_end, 60),
                    crate::store::agg_window_pred(b, bucket_end, 60),
                );
            }
            // Cancel the bucket from both multiset equations.
            broadcast use vstd::multiset::group_multiset_axioms;

            let rangem = spec_agg_range(agg1, b, bucket_end, 60).to_multiset();
            let newm = spec_phase_b_rows(agg1, b0i, (k + 1) as nat).to_multiset();
            assert(cur2.to_multiset() == cur3.to_multiset().add(rangem)) by {
                assert(cur3 == cur2.filter(crate::store::agg_keep_pred(b, bucket_end, 60)));
                assert(cur2.filter(crate::store::agg_window_pred(b, bucket_end, 60)).to_multiset()
                    == rangem);
            }
            assert(spec_agg_outside(agg1, b0, b, 60).to_multiset() == spec_agg_outside(
                agg1,
                b0,
                bucket_end,
                60,
            ).to_multiset().add(rangem));
            assert(cur2.to_multiset() == spec_agg_outside(agg1, b0, b, 60).to_multiset().add(
                newm,
            ));
            assert(cur3.to_multiset() =~= spec_agg_outside(
                agg1,
                b0,
                bucket_end,
                60,
            ).to_multiset().add(newm)) by {
                assert forall|x: AggregatedSnapshotV|
                    #[trigger] cur3.to_multiset().count(x) == spec_agg_outside(
                        agg1,
                        b0,
                        bucket_end,
                        60,
                    ).to_multiset().add(newm).count(x) by {
                    assert(cur2.to_multiset().count(x) == cur3.to_multiset().count(x)
                        + rangem.count(x));
                    assert(cur2.to_multiset().count(x) == spec_agg_outside(
                        agg1,
                        b0,
                        b,
                        60,
                    ).to_multiset().count(x) + newm.count(x));
                    assert(spec_agg_outside(agg1, b0, b, 60).to_multiset().count(x)
                        == spec_agg_outside(agg1, b0, bucket_end, 60).to_multiset().count(x)
                        + rangem.count(x));
                    assert(spec_agg_outside(agg1, b0, bucket_end, 60).to_multiset().add(
                        newm,
                    ).count(x) == spec_agg_outside(agg1, b0, bucket_end, 60).to_multiset().count(
                        x,
                    ) + newm.count(x));
                }
            }
            // The live table now matches the next bucket-by-bucket step.
            assert((b0i + 300000 * k) as i64 == b);
            assert((b0i + 300000 * k + 300000) as i64 == bucket_end);
            assert(cur2 == (if bucket.len() > 0 {
                crate::store::spec_insert_agg(
                    cur,
                    crate::aggregate::spec_aggregate_aggregated(bucket, b, 300),
                )
            } else {
                cur
            }));
            assert(aggregated_views(store.aggregated@) == spec_phase_b_table(
                agg1,
                b0i,
                (k + 1) as nat,
            ));
        }
        b = bucket_end;
        proof {
            k = k + 1;
        }
    }
    proof {
        assert(k == spec_phase_b_bucket_count(b0i, cutoff_1min as int)) by {
            assert(b0i <= cutoff_1min);
            if k == 0 {
                assert(b0i + 300000 > cutoff_1min);
                assert((cutoff_1min - b0i) / 300000 == 0) by (nonlinear_arith)
                    requires
                        0 <= cutoff_1min - b0i < 300000,
                ;
            } else {
                assert(b <= cutoff_1min && b + 300000 > cutoff_1min);
                assert((cutoff_1min - b0i) / 300000 == k) by (nonlinear_arith)
                    requires
                        b == b0i + 300000 * k,
                        b <= cutoff_1min,
                        b + 300000 > cutoff_1min,
                        k >= 0,
                ;
            }
        }
        assert(spec_phase_b_new(agg1, cutoff_1min) == spec_phase_b_rows(agg1, b0i, k));
        assert(spec_phase_b_result(agg1, cutoff_1min) == spec_phase_b_table(agg1, b0i, k));
        // The kept rows are exactly those of incomplete 5 min buckets.
        assert forall|i: int| 0 <= i < agg1.len() implies #[trigger] crate::store::agg_keep_pred(
            b0,
            b,
            60,
        )(agg1[i]) == agg_partial_pred(cutoff_1min)(agg1[i]) by {
            let a = agg1[i];
            if a.resolution_seconds == 60 {
                let t = a.created_at as int;
                let fl = spec_bucket_floor(t, 300000);
                lemma_floor_basic(t, 300000);
                if b0 <= t < b {
                    lemma_floor_mono(b0 as int, t, 300000);
                    lemma_floor_aligned(b0 as int, 300000);
                    assert(fl + 300000 <= b) by (nonlinear_arith)
                        requires
                            fl == (t / 300000) * 300000,
                            t < b,
                            b % 300000 == 0,
                            fl <= t,
                    ;
                    assert(b <= cutoff_1min || k == 0);
                } else {
                    if t < b0 {
                        if t < cutoff_1min {
                            assert(min_ts <= a.created_at);
                            lemma_floor_mono(min_ts as int, t, 300000);
                            lemma_floor_aligned(b0 as int, 300000);
                            assert(false);
                        } else {
                            assert(fl + 300000 > t >= cutoff_1min);
                        }
                    } else {
                        assert(t >= b);
                        lemma_floor_mono(b as int, t, 300000);
                        lemma_floor_aligned(b as int, 300000);
                        assert(fl >= b);
                        assert(fl + 300000 > cutoff_1min);
                    }
                }
            }
        }
        lemma_agg_filter_equiv(agg1, crate::store::agg_keep_pred(b0, b, 60), agg_partial_pred(
            cutoff_1min,
        ));
    }
}

/// The wall-clock cutoff below which raw rows are due for aggregation.
pub open spec fn spec_raw_cutoff(now_ms: i64, raw_retention_hours: u32) -> int {
    now_ms - (raw_retention_hours as int) * 3600000
}

/// The wall-clock cutoff below which 1 min rows are due for roll-up.
pub open spec fn spec_minute_cutoff(now_ms: i64, minute_retention_hours: u32) -> int {
    now_ms - (minute_retention_hours as int) * 3600000
}

/// The wall-clock cutoff below which every row is past retention.
pub open spec fn spec_retention_cutoff(now_ms: i64, retention_days: u32) -> int {
    now_ms - (retention_days as int) * 86400000
}

/// One aggregation pass: Phase A rolls raw rows into 1 min buckets below
/// the raw cutoff, Phase B rolls 1 min rows into 5 min buckets below the
/// minute cutoff, and Phase C prunes everything past the retention window.
/// Both tables come out exactly as the three phases compose: the raw table
/// is the retention-pruned remainder of Phase A, the aggregated table the
/// retention-pruned result of Phase B over Phase A's insertions. Afterwards
/// no raw row of a completed 1 min bucket remains, and an empty store stays
/// empty.
pub fn run_one_tick(store: &mut HistoryStore, now_ms: i64, config: &AggregationWorkerConfig)
    requires
        old(store).wf(),
        0 <= now_ms <= i64::MAX - 300000,
    ensures
        final(store).wf(),
        final(store).system_info == old(store).system_info,
        snapshot_views(final(store).raw@) == crate::store::spec_raw_from(
            spec_raw_after_phase_a(
                snapshot_views(old(store).raw@),
                spec_raw_cutoff(now_ms, config.raw_retention_hours) as i64,
            ),
            spec_retention_cutoff(now_ms, config.retention_days) as i64,
        ),
        aggregated_views(final(store).aggregated@) == crate::store::spec_agg_from(
            spec_phase_b_result(
                spec_insert_all(
                    aggregated_views(old(store).aggregated@),
                    spec_phase_a_new(
                        snapshot_views(old(store).raw@),
                        spec_raw_cutoff(now_ms, config.raw_retention_hours) as i64,
                    ),
                ),
                spec_minute_cutoff(now_ms, config.minute_retention_hours) as i64,
            ),
            spec_retention_cutoff(now_ms, config.retention_days) as i64,
        ),
        forall|i: int|
            0 <= i < final(store).raw@.len() ==> spec_bucket_floor(
                ts_of(#[trigger] snapshot_views(final(store).raw@)[i]) as int,
                60000,
            ) + 60000 > spec_raw_cutoff(now_ms, config.raw_retention_hours),
        old(store).raw@.len() == 0 && old(store).aggregated@.len() == 0
            ==> final(store).raw@.len() == 0 && final(store).aggregated@.len() == 0,
{
    broadcast use vstd::seq_lib::group_to_multiset_ensures;

    let cutoff_raw = now_ms - (config.raw_retention_hours as i64) * 3600000;
    let cutoff_1min = now_ms - (config.minute_retention_hours as i64) * 3600000;
    let cutoff_retention = now_ms - (config.retention_days as i64) * 86400000;
    proof {
        assert(cutoff_raw == spec_raw_cutoff(now_ms, config.raw_retention_hours) as i64);
        assert(cutoff_1min == spec_minute_cutoff(now_ms, config.minute_retention_hours) as i64);
        assert(cutoff_retention == spec_retention_cutoff(now_ms, config.retention_days) as i64);
    }
    let ghost raw0 = snapshot_views(old(store).raw@);
    let ghost agg0 = aggregated_views(old(store).aggregated@);
    run_phase_a(store, cutoff_raw);
    let ghost raw_a = snapshot_views(store.raw@);
    proof {
        if raw0.len() == 0 && agg0.len() == 0 {
            lemma_raw_filter_all(raw0, raw_partial_pred(cutoff_raw));
            assert(raw_a.len() == 0);
            assert(spec_min_raw_before(raw0, cutoff_raw) is None);
            assert(spec_phase_a_new(raw0, cutoff_raw).len() == 0);
            assert(store.aggregated@ == old(store).aggregated@);
        }
    }
    run_phase_b(store, cutoff_1min);
    let ghost agg_b = aggregated_views(store.aggregated@);
    proof {
        if raw0.len() == 0 && agg0.len() == 0 {
            assert(spec_min_agg_before(aggregated_views(old(store).aggregated@), cutoff_1min, 60)
                is None);
            assert(store.aggregated@.len() == 0);
        }
    }
    let ghost raw_b = snapshot_views(store.raw@);
    let ghost agg_bv = aggregated_views(store.aggregated@);
    store.prune_raw_before(cutoff_retention);
    store.prune_aggregated_before(cutoff_retention);
    proof {
        if raw0.len() == 0 && agg0.len() == 0 {
            lemma_raw_filter_all(raw_b, crate::store::raw_from_pred(cutoff_retention));
            lemma_agg_filter_all(agg_bv, crate::store::agg_from_pred(cutoff_retention));
        }
        broadcast use vstd::prelude::Seq::lemma_filter_pred;

        let fin = snapshot_views(store.raw@);
        assert forall|i: int| 0 <= i < fin.len() implies spec_bucket_floor(
            ts_of(#[trigger] fin[i]) as int,
            60000,
        ) + 60000 > spec_raw_cutoff(now_ms, config.raw_retention_hours) by {
            assert(fin == raw_a.filter(crate::store::raw_from_pred(cutoff_retention)));
            raw_a.lemma_filter_contains_rev(crate::store::raw_from_pred(cutoff_retention), fin[i]);
            assert(raw_a.contains(fin[i]));
            let w = choose|w: int| 0 <= w < raw_a.len() && raw_a[w] == fin[i];
            assert(spec_bucket_floor(ts_of(raw_a[w]) as int, 60000) + 60000 > cutoff_raw);
        }
    }
}

/// One backfill: a single aggregation pass at startup, rolling whatever
/// raw and 1 min backlog the store holds, with the same table equations
/// as the pass itself.
pub fn run_backfill(store: &mut HistoryStore, now_ms: i64, config: &AggregationWorkerConfig)
    requires
        old(store).wf(),
        0 <= now_ms <= i64::MAX - 300000,
    ensures
        final(store).wf(),
        final(store).system_info == old(store).system_info,
        snapshot_views(final(store).raw@) == crate::store::spec_raw_from(
            spec_raw_after_phase_a(
                snapshot_views(old(store).raw@),
                spec_raw_cutoff(now_ms, config.raw_retention_hours) as i64,
            ),
            spec_retention_cutoff(now_ms, config.retention_days) as i64,
        ),
        aggregated_views(final(store).aggregated@) == crate::store::spec_agg_from(
            spec_phase_b_result(
                spec_insert_all(
                    aggregated_views(old(store).aggregated@),
                    spec_phase_a_new(
                        snapshot_views(old(store).raw@),
                        spec_raw_cutoff(now_ms, config.raw_retention_hours) as i64,
                    ),
                ),
                spec_minute_cutoff(now_ms, config.minute_retention_hours) as i64,
            ),
            spec_retention_cutoff(now_ms, config.retention_days) as i64,
        ),
        forall|i: int|
            0 <= i < final(store).raw@.len() ==> spec_bucket_floor(
                ts_of(#[trigger] snapshot_views(final(store).raw@)[i]) as int,
                60000,
            ) + 60000 > spec_raw_cutoff(now_ms, config.raw_retention_hours),
{
    run_one_tick(store, now_ms, config);
}

/// After an aggregation tick completes, every 1 min bucket wholly below
/// the raw cutoff holds no raw row at all.
pub proof fn lemma_no_rows_in_complete_buckets(
    rows: Seq<FullSystemSnapshotV>,
    cutoff: i64,
    b: i64,
)
    requires
        forall|i: int|
            0 <= i < rows.len() ==> spec_bucket_floor(ts_of(#[trigger] rows[i]) as int, 60000)
                + 60000 > cutoff,
        b % 60000 == 0,
        b + 60000 <= cutoff,
    ensures
        spec_raw_range(rows, b, (b + 60000) as i64).len() == 0,
{
    assert forall|i: int| 0 <= i < rows.len() implies !(crate::store::raw_window_pred(
        b,
        (b + 60000) as i64,
    )(#[trigger] rows[i])) by {
        let t = ts_of(rows[i]) as int;
        if b <= t < b + 60000 {
            lemma_floor_aligned(b as int, 60000);
            lemma_floor_mono(b as int, t, 60000);
            lemma_floor_basic(t, 60000);
            assert(spec_bucket_floor(t, 60000) == b) by (nonlinear_arith)
                requires
                    b <= t < b + 60000,
                    b % 60000 == 0,
                    spec_bucket_floor(t, 60000) == (t / 60000) * 60000,
            ;
        }
    }
    rows.lemma_all_neg_filter_empty(crate::store::raw_window_pred(b, (b + 60000) as i64));
}

/// Re-running Phase A over an already-aggregated window is a no-op: once
/// every remaining raw row sits in a bucket the cutoff has not completed,
/// another pass neither deletes a row nor writes one.
pub proof fn lemma_phase_a_idempotent(rows: Seq<FullSystemSnapshotV>, cutoff: i64)
    requires
        forall|i: int|
            0 <= i < rows.len() ==> spec_bucket_floor(ts_of(#[trigger] rows[i]) as int, 60000)
                + 60000 > cutoff,
    ensures
        spec_raw_after_phase_a(rows, cutoff) == rows,
        spec_phase_a_new(rows, cutoff) == Seq::<AggregatedSnapshotV>::empty(),
{
    assert forall|i: int| 0 <= i < rows.len() implies raw_partial_pred(cutoff)(
        #[trigger] rows[i],
    ) by {}
    lemma_raw_filter_all(rows, raw_partial_pred(cutoff));
    lemma_min_raw_before_props(rows, cutoff);
    if spec_min_raw_before(rows, cutoff) is Some {
        let m = spec_min_raw_before(rows, cutoff).unwrap();
        let w = choose|w: int| 0 <= w < rows.len() && ts_of(rows[w]) == m;
        let b0 = spec_bucket_floor(m as int, 60000);
        assert(b0 + 60000 > cutoff);
        lemma_floor_basic(m as int, 60000);
        assert(b0 <= m < cutoff);
        assert((cutoff - b0) / 60000 == 0) by (nonlinear_arith)
            requires
                0 <= cutoff - b0 < 60000,
        ;
        assert(spec_phase_a_bucket_count(b0, cutoff as int) == 0);
    }
}

} // verus!
