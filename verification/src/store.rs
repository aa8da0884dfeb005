//! The tiered time-series store: a raw table of 1 s samples, an
//! aggregated table of 1 min and 5 min rows, and the static identity
//! singleton. This module carries the store's semantics — what each
//! operation keeps, removes and returns — over an in-memory model kept
//! sorted by time, the way the indexed tables behave.

use vstd::multiset::Multiset;
use vstd::prelude::*;

use crate::models::{
    AggregatedSnapshot, AggregatedSnapshotV, FullSystemSnapshot, FullSystemSnapshotV, SystemInfo,
    aggregated_views, snapshot_views,
};

verus! {

/// The stored timestamp of a raw row: the sample time as the signed
/// column the table keys on.
pub open spec fn ts_of(s: FullSystemSnapshotV) -> i64 {
    s.timestamp as i64
}

/// Raw rows in ascending timestamp order.
pub open spec fn raw_sorted(s: Seq<FullSystemSnapshotV>) -> bool {
    forall|i: int, j: int|
        0 <= i < j < s.len() ==> (#[trigger] s[i]).timestamp <= (#[trigger] s[j]).timestamp
}

/// Aggregated rows in ascending bucket-start order.
pub open spec fn agg_sorted(s: Seq<AggregatedSnapshotV>) -> bool {
    forall|i: int, j: int|
        0 <= i < j < s.len() ==> (#[trigger] s[i]).created_at <= (#[trigger] s[j]).created_at
}

/// A raw row the store accepts: its timestamp and memory reading fit the
/// signed columns they are stored in.
pub open spec fn raw_row_ok(s: FullSystemSnapshotV) -> bool {
    &&& s.timestamp <= i64::MAX as u64
    &&& s.ram.used <= i64::MAX as u64
}

/// An aggregated row the store accepts: a persisted resolution, a
/// non-negative bucket start, non-negative memory scalars, and scalars
/// that satisfy `min <= avg <= max`.
pub open spec fn agg_row_ok(a: AggregatedSnapshotV) -> bool {
    &&& a.resolution_seconds == 60 || a.resolution_seconds == 300
    &&& a.created_at >= 0
    &&& a.memory_used_avg >= 0
    &&& a.memory_used_min >= 0
    &&& a.memory_used_max >= 0
    &&& a.cpu_load_min <= a.cpu_load_avg <= a.cpu_load_max
    &&& a.memory_used_min <= a.memory_used_avg <= a.memory_used_max
}

/// The tiered store: both tables and the identity singleton.
pub struct HistoryStore {
    pub raw: Vec<FullSystemSnapshot>,
    pub aggregated: Vec<AggregatedSnapshot>,
    pub system_info: Option<SystemInfo>,
}

impl HistoryStore {
    /// Well-formedness: both tables sorted by time, every row acceptable.
    pub open spec fn wf(&self) -> bool {
        &&& raw_sorted(snapshot_views(self.raw@))
        &&& forall|i: int|
            0 <= i < self.raw@.len() ==> raw_row_ok(#[trigger] snapshot_views(self.raw@)[i])
        &&& agg_sorted(aggregated_views(self.aggregated@))
        &&& forall|i: int|
            0 <= i < self.aggregated@.len() ==> agg_row_ok(
                #[trigger] aggregated_views(self.aggregated@)[i],
            )
    }

    /// How many identity rows the store holds.
    pub open spec fn system_info_rows(&self) -> nat {
        match self.system_info {
            Some(_) => 1,
            None => 0,
        }
    }

    pub fn new() -> (r: Self)
        ensures
            r.wf(),
            r.raw@.len() == 0,
            r.aggregated@.len() == 0,
            r.system_info is None,
    {
        HistoryStore { raw: Vec::new(), aggregated: Vec::new(), system_info: None }
    }
}

/// The identity singleton can never hold more than one row, whatever was
/// saved into the store.
pub proof fn lemma_system_info_singleton(store: &HistoryStore)
    ensures
        store.system_info_rows() <= 1,
{
}

/// A raw row within the half-open window `[from, to)`.
pub open spec fn spec_raw_in_window(s: FullSystemSnapshotV, from: i64, to: i64) -> bool {
    from <= ts_of(s) < to
}

/// The window membership test, as a function of a row.
pub open spec fn raw_window_pred(from: i64, to: i64) -> spec_fn(FullSystemSnapshotV) -> bool {
    |s: FullSystemSnapshotV| spec_raw_in_window(s, from, to)
}

/// The survival test for deleting `[from, to)`.
pub open spec fn raw_keep_pred(from: i64, to: i64) -> spec_fn(FullSystemSnapshotV) -> bool {
    |s: FullSystemSnapshotV| !spec_raw_in_window(s, from, to)
}

/// The survival test for pruning everything before a cutoff.
pub open spec fn raw_from_pred(cutoff: i64) -> spec_fn(FullSystemSnapshotV) -> bool {
    |s: FullSystemSnapshotV| ts_of(s) >= cutoff
}

/// The raw rows of a table that lie within `[from, to)`, in table order.
pub open spec fn spec_raw_range(rows: Seq<FullSystemSnapshotV>, from: i64, to: i64) -> Seq<
    FullSystemSnapshotV,
> {
    rows.filter(raw_window_pred(from, to))
}

/// The raw rows that survive deleting `[from, to)`.
pub open spec fn spec_raw_outside(rows: Seq<FullSystemSnapshotV>, from: i64, to: i64) -> Seq<
    FullSystemSnapshotV,
> {
    rows.filter(raw_keep_pred(from, to))
}

/// An aggregated row within `[from, to)` at the given resolution.
pub open spec fn spec_agg_in_window(a: AggregatedSnapshotV, from: i64, to: i64, res: i32) -> bool {
    from <= a.created_at < to && a.resolution_seconds == res
}

/// The window-and-resolution membership test, as a function of a row.
pub open spec fn agg_window_pred(from: i64, to: i64, res: i32) -> spec_fn(AggregatedSnapshotV) -> bool {
    |a: AggregatedSnapshotV| spec_agg_in_window(a, from, to, res)
}

/// The survival test for deleting `[from, to)` at a resolution.
pub open spec fn agg_keep_pred(from: i64, to: i64, res: i32) -> spec_fn(AggregatedSnapshotV) -> bool {
    |a: AggregatedSnapshotV| !spec_agg_in_window(a, from, to, res)
}

/// The survival test for pruning everything before a cutoff.
pub open spec fn agg_from_pred(cutoff: i64) -> spec_fn(AggregatedSnapshotV) -> bool {
    |a: AggregatedSnapshotV| a.created_at >= cutoff
}

/// The aggregated rows within `[from, to)` at a resolution, in table order.
pub open spec fn spec_agg_range(rows: Seq<AggregatedSnapshotV>, from: i64, to: i64, res: i32) -> Seq<
    AggregatedSnapshotV,
> {
    rows.filter(agg_window_pred(from, to, res))
}

/// The aggregated rows that survive deleting `[from, to)` at a resolution.
pub open spec fn spec_agg_outside(rows: Seq<AggregatedSnapshotV>, from: i64, to: i64, res: i32) -> Seq<
    AggregatedSnapshotV,
> {
    rows.filter(agg_keep_pred(from, to, res))
}

/// The raw rows kept by pruning everything before a cutoff.
pub open spec fn spec_raw_from(rows: Seq<FullSystemSnapshotV>, cutoff: i64) -> Seq<
    FullSystemSnapshotV,
> {
    rows.filter(raw_from_pred(cutoff))
}

/// The aggregated rows kept by pruning everything before a cutoff.
pub open spec fn spec_agg_from(rows: Seq<AggregatedSnapshotV>, cutoff: i64) -> Seq<
    AggregatedSnapshotV,
> {
    rows.filter(agg_from_pred(cutoff))
}

/// The least raw timestamp strictly below a cutoff, if any row lies there.
pub open spec fn spec_min_raw_before(rows: Seq<FullSystemSnapshotV>, cutoff: i64) -> Option<i64>
    decreases rows.len(),
{
    if rows.len() == 0 {
        None
    } else {
        let rest = spec_min_raw_before(rows.drop_last(), cutoff);
        let t = ts_of(rows.last());
        if t < cutoff {
            match rest {
                None => Some(t),
                Some(m) => if t < m {
                    Some(t)
                } else {
                    Some(m)
                },
            }
        } else {
            rest
        }
    }
}

/// What the least-below-cutoff value means: `None` exactly when no row
/// lies below the cutoff, and otherwise a member that bounds all of them.
pub proof fn lemma_min_raw_before_props(rows: Seq<FullSystemSnapshotV>, cutoff: i64)
    ensures
        spec_min_raw_before(rows, cutoff) is None <==> (forall|i: int|
            0 <= i < rows.len() ==> ts_of(#[trigger] rows[i]) >= cutoff),
        spec_min_raw_before(rows, cutoff) matches Some(m) ==> m < cutoff && (exists|i: int|
            0 <= i < rows.len() && ts_of(#[trigger] rows[i]) == m) && (forall|i: int|
            0 <= i < rows.len() && ts_of(#[trigger] rows[i]) < cutoff ==> m <= ts_of(rows[i])),
    decreases rows.len(),
{
    if rows.len() == 0 {
    } else {
        let rest = rows.drop_last();
        lemma_min_raw_before_props(rest, cutoff);
        assert(forall|i: int| 0 <= i < rest.len() ==> rest[i] == rows[i]);
        if spec_min_raw_before(rows, cutoff) matches Some(m) {
            if spec_min_raw_before(rest, cutoff) is Some {
                let mr = spec_min_raw_before(rest, cutoff).unwrap();
                let w = choose|w: int| 0 <= w < rest.len() && ts_of(rest[w]) == mr;
                assert(ts_of(rows[w]) == mr);
            }
            if ts_of(rows.last()) < cutoff {
                assert(ts_of(rows[rows.len() - 1]) == ts_of(rows.last()));
            }
        }
    }
}

/// The least aggregated bucket start strictly below a cutoff at a
/// resolution, if any such row exists.
pub open spec fn spec_min_agg_before(rows: Seq<AggregatedSnapshotV>, cutoff: i64, res: i32) -> Option<
    i64,
>
    decreases rows.len(),
{
    if rows.len() == 0 {
        None
    } else {
        let rest = spec_min_agg_before(rows.drop_last(), cutoff, res);
        let a = rows.last();
        if a.created_at < cutoff && a.resolution_seconds == res {
            match rest {
                None => Some(a.created_at),
                Some(m) => if a.created_at < m {
                    Some(a.created_at)
                } else {
                    Some(m)
                },
            }
        } else {
            rest
        }
    }
}

pub proof fn lemma_min_agg_before_props(rows: Seq<AggregatedSnapshotV>, cutoff: i64, res: i32)
    ensures
        spec_min_agg_before(rows, cutoff, res) is None <==> (forall|i: int|
            0 <= i < rows.len() ==> ((#[trigger] rows[i]).created_at >= cutoff
                || rows[i].resolution_seconds != res)),
        spec_min_agg_before(rows, cutoff, res) matches Some(m) ==> m < cutoff && (exists|i: int|
            0 <= i < rows.len() && (#[trigger] rows[i]).created_at == m && rows[i].resolution_seconds
                == res) && (forall|i: int|
            0 <= i < rows.len() && (#[trigger] rows[i]).created_at < cutoff
                && rows[i].resolution_seconds == res ==> m <= rows[i].created_at),
    decreases rows.len(),
{
    if rows.len() == 0 {
    } else {
        let rest = rows.drop_last();
        lemma_min_agg_before_props(rest, cutoff, res);
        assert(forall|i: int| 0 <= i < rest.len() ==> rest[i] == rows[i]);
        if spec_min_agg_before(rows, cutoff, res) matches Some(m) {
            if spec_min_agg_before(rest, cutoff, res) is Some {
                let mr = spec_min_agg_before(rest, cutoff, res).unwrap();
                let w = choose|w: int|
                    0 <= w < rest.len() && rest[w].created_at == mr && rest[w].resolution_seconds
                        == res;
                assert(rows[w].created_at == mr);
            }
            let a = rows.last();
            if a.created_at < cutoff && a.resolution_seconds == res {
                assert(rows[rows.len() - 1] == a);
            }
        }
    }
}

/// Filtering a timestamp-sorted raw table leaves it sorted.
pub proof fn lemma_filter_raw_sorted(rows: Seq<FullSystemSnapshotV>, p: spec_fn(
    FullSystemSnapshotV,
) -> bool)
    requires
        raw_sorted(rows),
    ensures
        raw_sorted(rows.filter(p)),
        forall|i: int|
            0 <= i < rows.filter(p).len() ==> rows.contains(#[trigger] rows.filter(p)[i]),
    decreases rows.len(),
{
    broadcast use vstd::prelude::Seq::lemma_filter_push;
    broadcast use vstd::prelude::Seq::lemma_filter_pred;

    if rows.len() == 0 {
    } else {
        let rest = rows.drop_last();
        assert(forall|i: int| 0 <= i < rest.len() ==> rest[i] == rows[i]);
        lemma_filter_raw_sorted(rest, p);
        assert(rows =~= rest.push(rows.last()));
        let f = rows.filter(p);
        if p(rows.last()) {
            assert(f == rest.filter(p).push(rows.last()));
            assert forall|i: int, j: int| 0 <= i < j < f.len() implies (#[trigger] f[i]).timestamp
                <= (#[trigger] f[j]).timestamp by {
                if j == f.len() - 1 {
                    assert(rest.contains(f[i]));
                    let w = choose|w: int| 0 <= w < rest.len() && rest[w] == f[i];
                    assert(rows[w].timestamp <= rows[rows.len() - 1].timestamp);
                }
            }
            assert forall|i: int| 0 <= i < f.len() implies rows.contains(#[trigger] f[i]) by {
                if i < f.len() - 1 {
                    assert(rest.contains(f[i]));
                    let w = choose|w: int| 0 <= w < rest.len() && rest[w] == f[i];
                    assert(rows[w] == f[i]);
                } else {
                    assert(rows[rows.len() - 1] == f[i]);
                }
            }
        } else {
            assert(f == rest.filter(p));
            assert forall|i: int| 0 <= i < f.len() implies rows.contains(#[trigger] f[i]) by {
                assert(rest.contains(f[i]));
                let w = choose|w: int| 0 <= w < rest.len() && rest[w] == f[i];
                assert(rows[w] == f[i]);
            }
        }
    }
}

/// Filtering a bucket-sorted aggregated table leaves it sorted.
pub proof fn lemma_filter_agg_sorted(rows: Seq<AggregatedSnapshotV>, p: spec_fn(
    AggregatedSnapshotV,
) -> bool)
    requires
        agg_sorted(rows),
    ensures
        agg_sorted(rows.filter(p)),
        forall|i: int|
            0 <= i < rows.filter(p).len() ==> rows.contains(#[trigger] rows.filter(p)[i]),
    decreases rows.len(),
{
    broadcast use vstd::prelude::Seq::lemma_filter_push;
    broadcast use vstd::prelude::Seq::lemma_filter_pred;

    if rows.len() == 0 {
    } else {
        let rest = rows.drop_last();
        assert(forall|i: int| 0 <= i < rest.len() ==> rest[i] == rows[i]);
        lemma_filter_agg_sorted(rest, p);
        assert(rows =~= rest.push(rows.last()));
        let f = rows.filter(p);
        if p(rows.last()) {
            assert(f == rest.filter(p).push(rows.last()));
            assert forall|i: int, j: int| 0 <= i < j < f.len() implies (#[trigger] f[i]).created_at
                <= (#[trigger] f[j]).created_at by {
                if j == f.len() - 1 {
                    assert(rest.contains(f[i]));
                    let w = choose|w: int| 0 <= w < rest.len() && rest[w] == f[i];
                    assert(rows[w].created_at <= rows[rows.len() - 1].created_at);
                }
            }
            assert forall|i: int| 0 <= i < f.len() implies rows.contains(#[trigger] f[i]) by {
                if i < f.len() - 1 {
                    assert(rest.contains(f[i]));
                    let w = choose|w: int| 0 <= w < rest.len() && rest[w] == f[i];
                    assert(rows[w] == f[i]);
                } else {
                    assert(rows[rows.len() - 1] == f[i]);
                }
            }
        } else {
            assert(f == rest.filter(p));
            assert forall|i: int| 0 <= i < f.len() implies rows.contains(#[trigger] f[i]) by {
                assert(rest.contains(f[i]));
                let w = choose|w: int| 0 <= w < rest.len() && rest[w] == f[i];
                assert(rows[w] == f[i]);
            }
        }
    }
}

/// Insertion of a raw row into a timestamp-ordered table: the row lands
/// after every row whose timestamp is at most its own.
pub open spec fn spec_insert_raw(s: Seq<FullSystemSnapshotV>, x: FullSystemSnapshotV) -> Seq<
    FullSystemSnapshotV,
>
    decreases s.len(),
{
    if s.len() == 0 {
        seq![x]
    } else if s.last().timestamp <= x.timestamp {
        s.push(x)
    } else {
        spec_insert_raw(s.drop_last(), x).push(s.last())
    }
}

proof fn lemma_insert_raw_at(s: Seq<FullSystemSnapshotV>, x: FullSystemSnapshotV, j: int)
    requires
        0 <= j <= s.len(),
        forall|k: int| j <= k < s.len() ==> (#[trigger] s[k]).timestamp > x.timestamp,
        j > 0 ==> s[j - 1].timestamp <= x.timestamp,
    ensures
        spec_insert_raw(s, x) == s.subrange(0, j) + seq![x] + s.subrange(j, s.len() as int),
    decreases s.len(),
{
    if j == s.len() {
        if s.len() == 0 {
            assert(spec_insert_raw(s, x) =~= s.subrange(0, j) + seq![x] + s.subrange(
                j,
                s.len() as int,
            ));
        } else {
            assert(s.subrange(0, j) + seq![x] + s.subrange(j, s.len() as int) =~= s.push(x));
        }
    } else {
        assert(s[s.len() - 1].timestamp > x.timestamp);
        let rest = s.drop_last();
        assert(forall|k: int| j <= k < rest.len() ==> (#[trigger] rest[k]).timestamp > x.timestamp);
        if j > 0 {
            assert(rest[j - 1] == s[j - 1]);
        }
        lemma_insert_raw_at(rest, x, j);
        assert((rest.subrange(0, j) + seq![x] + rest.subrange(j, rest.len() as int)).push(s.last())
            =~= s.subrange(0, j) + seq![x] + s.subrange(j, s.len() as int));
    }
}

/// Inserting into a sorted raw table keeps it sorted and adds exactly the
/// inserted row.
pub proof fn lemma_insert_raw_sorted(s: Seq<FullSystemSnapshotV>, x: FullSystemSnapshotV)
    requires
        raw_sorted(s),
    ensures
        raw_sorted(spec_insert_raw(s, x)),
        spec_insert_raw(s, x).to_multiset() == s.to_multiset().insert(x),
        spec_insert_raw(s, x).len() == s.len() + 1,
    decreases s.len(),
{
    broadcast use vstd::seq_lib::group_to_multiset_ensures;

    if s.len() == 0 {
        assert(spec_insert_raw(s, x) =~= Seq::empty().push(x));
        assert(s.to_multiset().insert(x) =~= Seq::empty().push(x).to_multiset());
    } else if s.last().timestamp <= x.timestamp {
        let r = s.push(x);
        assert forall|i: int, j: int| 0 <= i < j < r.len() implies (#[trigger] r[i]).timestamp
            <= (#[trigger] r[j]).timestamp by {
            if j == r.len() - 1 && i < s.len() - 1 {
                assert(s[i].timestamp <= s[s.len() - 1].timestamp);
            }
        }
    } else {
        let rest = s.drop_last();
        assert(raw_sorted(rest));
        lemma_insert_raw_sorted(rest, x);
        let ri = spec_insert_raw(rest, x);
        let r = ri.push(s.last());
        assert forall|i: int, j: int| 0 <= i < j < r.len() implies (#[trigger] r[i]).timestamp
            <= (#[trigger] r[j]).timestamp by {
            if j == r.len() - 1 {
                assert(ri.to_multiset().contains(ri[i]));
                assert(rest.to_multiset().insert(x).contains(ri[i]));
                if rest.to_multiset().contains(ri[i]) {
                    let w = choose|w: int| 0 <= w < rest.len() && rest[w] == ri[i];
                    assert(s[w].timestamp <= s[s.len() - 1].timestamp);
                } else {
                    assert(ri[i] == x);
                }
            }
        }
        assert(r.to_multiset() =~= s.to_multiset().insert(x)) by {
            assert(ri.to_multiset() == rest.to_multiset().insert(x));
            assert(r.to_multiset() == ri.to_multiset().insert(s.last()));
            assert(s =~= rest.push(s.last()));
            assert(s.to_multiset() == rest.to_multiset().insert(s.last()));
        }
    }
}

/// Insertion of an aggregated row into a bucket-ordered table.
pub open spec fn spec_insert_agg(s: Seq<AggregatedSnapshotV>, x: AggregatedSnapshotV) -> Seq<
    AggregatedSnapshotV,
>
    decreases s.len(),
{
    if s.len() == 0 {
        seq![x]
    } else if s.last().created_at <= x.created_at {
        s.push(x)
    } else {
        spec_insert_agg(s.drop_last(), x).push(s.last())
    }
}

proof fn lemma_insert_agg_at(s: Seq<AggregatedSnapshotV>, x: AggregatedSnapshotV, j: int)
    requires
        0 <= j <= s.len(),
        forall|k: int| j <= k < s.len() ==> (#[trigger] s[k]).created_at > x.created_at,
        j > 0 ==> s[j - 1].created_at <= x.created_at,
    ensures
        spec_insert_agg(s, x) == s.subrange(0, j) + seq![x] + s.subrange(j, s.len() as int),
    decreases s.len(),
{
    if j == s.len() {
        if s.len() == 0 {
            assert(spec_insert_agg(s, x) =~= s.subrange(0, j) + seq![x] + s.subrange(
                j,
                s.len() as int,
            ));
        } else {
            assert(s.subrange(0, j) + seq![x] + s.subrange(j, s.len() as int) =~= s.push(x));
        }
    } else {
        assert(s[s.len() - 1].created_at > x.created_at);
        let rest = s.drop_last();
        assert(forall|k: int| j <= k < rest.len() ==> (#[trigger] rest[k]).created_at > x.created_at);
        if j > 0 {
            assert(rest[j - 1] == s[j - 1]);
        }
        lemma_insert_agg_at(rest, x, j);
        assert((rest.subrange(0, j) + seq![x] + rest.subrange(j, rest.len() as int)).push(s.last())
            =~= s.subrange(0, j) + seq![x] + s.subrange(j, s.len() as int));
    }
}

/// Inserting into a sorted aggregated table keeps it sorted and adds
/// exactly the inserted row.
pub proof fn lemma_insert_agg_sorted(s: Seq<AggregatedSnapshotV>, x: AggregatedSnapshotV)
    requires
        agg_sorted(s),
    ensures
        agg_sorted(spec_insert_agg(s, x)),
        spec_insert_agg(s, x).to_multiset() == s.to_multiset().insert(x),
        spec_insert_agg(s, x).len() == s.len() + 1,
    decreases s.len(),
{
    broadcast use vstd::seq_lib::group_to_multiset_ensures;

    if s.len() == 0 {
        assert(spec_insert_agg(s, x) =~= Seq::empty().push(x));
        assert(s.to_multiset().insert(x) =~= Seq::empty().push(x).to_multiset());
    } else if s.last().created_at <= x.created_at {
        let r = s.push(x);
        assert forall|i: int, j: int| 0 <= i < j < r.len() implies (#[trigger] r[i]).created_at
            <= (#[trigger] r[j]).created_at by {
            if j == r.len() - 1 && i < s.len() - 1 {
                assert(s[i].created_at <= s[s.len() - 1].created_at);
            }
        }
    } else {
        let rest = s.drop_last();
        assert(agg_sorted(rest));
        lemma_insert_agg_sorted(rest, x);
        let ri = spec_insert_agg(rest, x);
        let r = ri.push(s.last());
        assert forall|i: int, j: int| 0 <= i < j < r.len() implies (#[trigger] r[i]).created_at
            <= (#[trigger] r[j]).created_at by {
            if j == r.len() - 1 {
                assert(ri.to_multiset().contains(ri[i]));
                assert(rest.to_multiset().insert(x).contains(ri[i]));
                if rest.to_multiset().contains(ri[i]) {
                    let w = choose|w: int| 0 <= w < rest.len() && rest[w] == ri[i];
                    assert(s[w].created_at <= s[s.len() - 1].created_at);
                } else {
                    assert(ri[i] == x);
                }
            }
        }
        assert(r.to_multiset() =~= s.to_multiset().insert(x)) by {
            assert(ri.to_multiset() == rest.to_multiset().insert(x));
            assert(r.to_multiset() == ri.to_multiset().insert(s.last()));
            assert(s =~= rest.push(s.last()));
            assert(s.to_multiset() == rest.to_multiset().insert(s.last()));
        }
    }
}

/// Insert a raw row at its timestamp position.
fn insert_raw_sorted(rows: &mut Vec<FullSystemSnapshot>, x: FullSystemSnapshot)
    ensures
        snapshot_views(final(rows)@) == spec_insert_raw(snapshot_views(old(rows)@), x@),
{
    let ghost s = snapshot_views(rows@);
    let mut j: usize = rows.len();
    while j > 0 && rows[j - 1].timestamp > x.timestamp
        invariant
            j <= rows.len(),
            s == snapshot_views(rows@),
            s.len() == rows@.len(),
            forall|k: int| j <= k < s.len() ==> (#[trigger] s[k]).timestamp > x.timestamp,
        decreases j,
    {
        assert(rows@[j - 1]@ == s[j - 1 as int]);
        j -= 1;
    }
    proof {
        if j > 0 {
            assert(rows@[j - 1]@ == s[j - 1 as int]);
        }
        lemma_insert_raw_at(s, x@, j as int);
    }
    rows.insert(j, x);
    proof {
        assert(snapshot_views(rows@) =~= s.subrange(0, j as int) + seq![x@] + s.subrange(
            j as int,
            s.len() as int,
        ));
    }
}

/// Insert an aggregated row at its bucket position.
fn insert_agg_sorted(rows: &mut Vec<AggregatedSnapshot>, x: AggregatedSnapshot)
    ensures
        aggregated_views(final(rows)@) == spec_insert_agg(aggregated_views(old(rows)@), x@),
{
    let ghost s = aggregated_views(rows@);
    let mut j: usize = rows.len();
    while j > 0 && rows[j - 1].created_at > x.created_at
        invariant
            j <= rows.len(),
            s == aggregated_views(rows@),
            s.len() == rows@.len(),
            forall|k: int| j <= k < s.len() ==> (#[trigger] s[k]).created_at > x.created_at,
        decreases j,
    {
        assert(rows@[j - 1]@ == s[j - 1 as int]);
        j -= 1;
    }
    proof {
        if j > 0 {
            assert(rows@[j - 1]@ == s[j - 1 as int]);
        }
        lemma_insert_agg_at(s, x@, j as int);
    }
    rows.insert(j, x);
    proof {
        assert(aggregated_views(rows@) =~= s.subrange(0, j as int) + seq![x@] + s.subrange(
            j as int,
            s.len() as int,
        ));
    }
}

impl HistoryStore {
    /// Atomically persist a batch: upsert the identity singleton, then
    /// insert every sample. An empty batch leaves the store untouched and
    /// issues no write at all.
    pub fn save_snapshots(&mut self, snapshots: &[FullSystemSnapshot], system_info: &SystemInfo)
        requires
            old(self).wf(),
            forall|i: int|
                0 <= i < snapshots@.len() ==> raw_row_ok(
                    #[trigger] snapshot_views(snapshots@)[i],
                ),
        ensures
            final(self).wf(),
            snapshots@.len() == 0 ==> *final(self) == *old(self),
            snapshots@.len() > 0 ==> (final(self).system_info matches Some(info) && info@
                == system_info@),
            snapshot_views(final(self).raw@).to_multiset() == snapshot_views(
                old(self).raw@,
            ).to_multiset().add(snapshot_views(snapshots@).to_multiset()),
            final(self).aggregated@ == old(self).aggregated@,
            final(self).system_info_rows() <= 1,
    {
        broadcast use vstd::seq_lib::group_to_multiset_ensures;

        let ghost batch = snapshot_views(snapshots@);
        if snapshots.len() == 0 {
            proof {
                assert(batch.to_multiset() =~= Multiset::empty());
                assert(snapshot_views(self.raw@).to_multiset().add(batch.to_multiset())
                    =~= snapshot_views(self.raw@).to_multiset());
            }
            return ;
        }
        self.system_info = Some(system_info.duplicate());
        let ghost base = snapshot_views(self.raw@).to_multiset();
        let mut i: usize = 0;
        while i < snapshots.len()
            invariant
                i <= snapshots.len(),
                batch == snapshot_views(snapshots@),
                batch.len() == snapshots@.len(),
                forall|k: int| 0 <= k < batch.len() ==> raw_row_ok(#[trigger] batch[k]),
                raw_sorted(snapshot_views(self.raw@)),
                forall|k: int|
                    0 <= k < self.raw@.len() ==> raw_row_ok(
                        #[trigger] snapshot_views(self.raw@)[k],
                    ),
                snapshot_views(self.raw@).to_multiset() == base.add(
                    batch.subrange(0, i as int).to_multiset(),
                ),
                self.aggregated@ == old(self).aggregated@,
                self.system_info matches Some(info) && info@ == system_info@,
                agg_sorted(aggregated_views(self.aggregated@)),
                forall|k: int|
                    0 <= k < self.aggregated@.len() ==> agg_row_ok(
                        #[trigger] aggregated_views(self.aggregated@)[k],
                    ),
            decreases snapshots.len() - i,
        {
            let ghost before = snapshot_views(self.raw@);
            proof {
                lemma_insert_raw_sorted(before, batch[i as int]);
            }
            insert_raw_sorted(&mut self.raw, snapshots[i].duplicate());
            proof {
                let after = snapshot_views(self.raw@);
                assert(after == spec_insert_raw(before, batch[i as int]));
                assert forall|k: int| 0 <= k < after.len() implies raw_row_ok(
                    #[trigger] after[k],
                ) by {
                    after.to_multiset_ensures();
                    before.to_multiset_ensures();
                    assert(after.contains(after[k]));
                    assert(after.to_multiset().contains(after[k]));
                    if after[k] != batch[i as int] {
                        assert(before.to_multiset().count(after[k]) > 0);
                        let w = choose|w: int| 0 <= w < before.len() && before[w] == after[k];
                        assert(raw_row_ok(before[w]));
                    }
                }
                assert(batch.subrange(0, i + 1 as int) =~= batch.subrange(0, i as int).push(
                    batch[i as int],
                ));
                batch.subrange(0, i as int).to_multiset_ensures();
                assert(batch.subrange(0, i as int).push(batch[i as int]).to_multiset()
                    =~= batch.subrange(0, i as int).to_multiset().insert(batch[i as int]));
                assert(after.to_multiset() =~= base.add(
                    batch.subrange(0, i + 1 as int).to_multiset(),
                ));
            }
            i += 1;
        }
        proof {
            assert(batch.subrange(0, batch.len() as int) =~= batch);
        }
    }

    /// Insert one aggregated row at its bucket position.
    pub fn save_aggregated_snapshot(&mut self, agg: &AggregatedSnapshot)
        requires
            old(self).wf(),
            agg_row_ok(agg@),
        ensures
            final(self).wf(),
            aggregated_views(final(self).aggregated@) == spec_insert_agg(
                aggregated_views(old(self).aggregated@),
                agg@,
            ),
            aggregated_views(final(self).aggregated@).to_multiset() == aggregated_views(
                old(self).aggregated@,
            ).to_multiset().insert(agg@),
            final(self).raw@ == old(self).raw@,
            final(self).system_info == old(self).system_info,
    {
        broadcast use vstd::seq_lib::group_to_multiset_ensures;

        let ghost before = aggregated_views(self.aggregated@);
        proof {
            lemma_insert_agg_sorted(before, agg@);
        }
        insert_agg_sorted(&mut self.aggregated, agg.duplicate());
        proof {
            let after = aggregated_views(self.aggregated@);
            assert forall|k: int| 0 <= k < after.len() implies agg_row_ok(#[trigger] after[k]) by {
                after.to_multiset_ensures();
                before.to_multiset_ensures();
                assert(after.contains(after[k]));
                assert(after.to_multiset().contains(after[k]));
                if after[k] != agg@ {
                    assert(before.to_multiset().count(after[k]) > 0);
                    let w = choose|w: int| 0 <= w < before.len() && before[w] == after[k];
                    assert(agg_row_ok(before[w]));
                }
            }
        }
    }

    /// The raw rows within `[from_ts, to_ts)`, ascending by timestamp.
    pub fn get_raw_snapshots_by_time_range(&self, from_ts: i64, to_ts: i64) -> (r: Vec<
        FullSystemSnapshot,
    >)
        requires
            self.wf(),
        ensures
            snapshot_views(r@) == spec_raw_range(snapshot_views(self.raw@), from_ts, to_ts),
            raw_sorted(snapshot_views(r@)),
            forall|i: int| 0 <= i < r@.len() ==> raw_row_ok(#[trigger] snapshot_views(r@)[i]),
    {
        broadcast use vstd::prelude::Seq::lemma_filter_push;

        let ghost rv = snapshot_views(self.raw@);
        let mut out: Vec<FullSystemSnapshot> = Vec::new();
        let mut i: usize = 0;
        while i < self.raw.len()
            invariant
                i <= self.raw.len(),
                rv == snapshot_views(self.raw@),
                rv.len() == self.raw@.len(),
                snapshot_views(out@) == spec_raw_range(rv.subrange(0, i as int), from_ts, to_ts),
            decreases self.raw.len() - i,
        {
            proof {
                assert(rv.subrange(0, i + 1 as int) =~= rv.subrange(0, i as int).push(
                    rv[i as int],
                ));
                vstd::prelude::Seq::lemma_filter_push(
                    rv.subrange(0, i as int),
                    rv[i as int],
                    raw_window_pred(from_ts, to_ts),
                );
            }
            let t = self.raw[i].timestamp as i64;
            if from_ts <= t && t < to_ts {
                out.push(self.raw[i].duplicate());
                proof {
                    assert(snapshot_views(out@) =~= spec_raw_range(
                        rv.subrange(0, i as int),
                        from_ts,
                        to_ts,
                    ).push(rv[i as int]));
                }
            }
            i += 1;
        }
        proof {
            assert(rv.subrange(0, rv.len() as int) =~= rv);
            lemma_filter_raw_sorted(rv, raw_window_pred(from_ts, to_ts));
            let f = spec_raw_range(rv, from_ts, to_ts);
            assert forall|k: int| 0 <= k < f.len() implies raw_row_ok(#[trigger] f[k]) by {
                assert(rv.contains(f[k]));
                let w = choose|w: int| 0 <= w < rv.len() && rv[w] == f[k];
                assert(raw_row_ok(rv[w]));
            }
        }
        out
    }

    /// The aggregated rows within `[from_ts, to_ts)` at one resolution,
    /// ascending by bucket start.
    pub fn get_aggregated_snapshots_by_time_range(
        &self,
        from_ts: i64,
        to_ts: i64,
        resolution_seconds: i32,
    ) -> (r: Vec<AggregatedSnapshot>)
        requires
            self.wf(),
        ensures
            aggregated_views(r@) == spec_agg_range(
                aggregated_views(self.aggregated@),
                from_ts,
                to_ts,
                resolution_seconds,
            ),
            agg_sorted(aggregated_views(r@)),
            forall|i: int| 0 <= i < r@.len() ==> agg_row_ok(#[trigger] aggregated_views(r@)[i]),
    {
        broadcast use vstd::prelude::Seq::lemma_filter_push;

        let ghost av = aggregated_views(self.aggregated@);
        let mut out: Vec<AggregatedSnapshot> = Vec::new();
        let mut i: usize = 0;
        while i < self.aggregated.len()
            invariant
                i <= self.aggregated.len(),
                av == aggregated_views(self.aggregated@),
                av.len() == self.aggregated@.len(),
                aggregated_views(out@) == spec_agg_range(
                    av.subrange(0, i as int),
                    from_ts,
                    to_ts,
                    resolution_seconds,
                ),
            decreases self.aggregated.len() - i,
        {
            proof {
                assert(av.subrange(0, i + 1 as int) =~= av.subrange(0, i as int).push(
                    av[i as int],
                ));
                vstd::prelude::Seq::lemma_filter_push(
                    av.subrange(0, i as int),
                    av[i as int],
                    agg_window_pred(from_ts, to_ts, resolution_seconds),
                );
            }
            let a = &self.aggregated[i];
            if from_ts <= a.created_at && a.created_at < to_ts && a.resolution_seconds
                == resolution_seconds {
                out.push(a.duplicate());
                proof {
                    assert(aggregated_views(out@) =~= spec_agg_range(
                        av.subrange(0, i as int),
                        from_ts,
                        to_ts,
                        resolution_seconds,
                    ).push(av[i as int]));
                }
            }
            i += 1;
        }
        proof {
            assert(av.subrange(0, av.len() as int) =~= av);
            lemma_filter_agg_sorted(av, agg_window_pred(from_ts, to_ts, resolution_seconds));
            let f = spec_agg_range(av, from_ts, to_ts, resolution_seconds);
            assert forall|k: int| 0 <= k < f.len() implies agg_row_ok(#[trigger] f[k]) by {
                assert(av.contains(f[k]));
                let w = choose|w: int| 0 <= w < av.len() && av[w] == f[k];
                assert(agg_row_ok(av[w]));
            }
        }
        out
    }

    /// The least raw timestamp strictly below the cutoff, if any.
    pub fn get_min_raw_created_at_before(&self, cutoff_ts: i64) -> (r: Option<i64>)
        ensures
            r == spec_min_raw_before(snapshot_views(self.raw@), cutoff_ts),
    {
        let ghost rv = snapshot_views(self.raw@);
        let mut r: Option<i64> = None;
        let mut i: usize = 0;
        while i < self.raw.len()
            invariant
                i <= self.raw.len(),
                rv == snapshot_views(self.raw@),
                rv.len() == self.raw@.len(),
                r == spec_min_raw_before(rv.subrange(0, i as int), cutoff_ts),
            decreases self.raw.len() - i,
        {
            proof {
                assert(rv.subrange(0, i + 1 as int).drop_last() =~= rv.subrange(0, i as int));
                assert(rv.subrange(0, i + 1 as int).last() == rv[i as int]);
            }
            let t = self.raw[i].timestamp as i64;
            if t < cutoff_ts {
                r = match r {
                    None => Some(t),
                    Some(m) => if t < m {
                        Some(t)
                    } else {
                        Some(m)
                    },
                };
            }
            i += 1;
        }
        proof {
            assert(rv.subrange(0, rv.len() as int) =~= rv);
        }
        r
    }

    /// The least aggregated bucket start strictly below the cutoff at one
    /// resolution, if any.
    pub fn get_min_aggregated_created_at_before(&self, cutoff_ts: i64, resolution_seconds: i32) -> (r:
        Option<i64>)
        ensures
            r == spec_min_agg_before(
                aggregated_views(self.aggregated@),
                cutoff_ts,
                resolution_seconds,
            ),
    {
        let ghost av = aggregated_views(self.aggregated@);
        let mut r: Option<i64> = None;
        let mut i: usize = 0;
        while i < self.aggregated.len()
            invariant
                i <= self.aggregated.len(),
                av == aggregated_views(self.aggregated@),
                av.len() == self.aggregated@.len(),
                r == spec_min_agg_before(av.subrange(0, i as int), cutoff_ts, resolution_seconds),
            decreases self.aggregated.len() - i,
        {
            proof {
                assert(av.subrange(0, i + 1 as int).drop_last() =~= av.subrange(0, i as int));
                assert(av.subrange(0, i + 1 as int).last() == av[i as int]);
            }
            let a = &self.aggregated[i];
            if a.created_at < cutoff_ts && a.resolution_seconds == resolution_seconds {
                let t = a.created_at;
                r = match r {
                    None => Some(t),
                    Some(m) => if t < m {
                        Some(t)
                    } else {
                        Some(m)
                    },
                };
            }
            i += 1;
        }
        proof {
            assert(av.subrange(0, av.len() as int) =~= av);
        }
        r
    }

    /// Delete the raw rows within `[from_ts, to_ts)`; returns how many went.
    pub fn delete_raw_range(&mut self, from_ts: i64, to_ts: i64) -> (r: u64)
        requires
            old(self).wf(),
        ensures
            final(self).wf(),
            snapshot_views(final(self).raw@) == spec_raw_outside(
                snapshot_views(old(self).raw@),
                from_ts,
                to_ts,
            ),
            r == old(self).raw@.len() - final(self).raw@.len(),
            final(self).aggregated@ == old(self).aggregated@,
            final(self).system_info == old(self).system_info,
    {
        broadcast use vstd::prelude::Seq::lemma_filter_push;

        let ghost rv = snapshot_views(self.raw@);
        let mut kept: Vec<FullSystemSnapshot> = Vec::new();
        let mut i: usize = 0;
        while i < self.raw.len()
            invariant
                i <= self.raw.len(),
                rv == snapshot_views(self.raw@),
                rv.len() == self.raw@.len(),
                kept@.len() <= i,
                snapshot_views(kept@) == spec_raw_outside(rv.subrange(0, i as int), from_ts, to_ts),
            decreases self.raw.len() - i,
        {
            proof {
                assert(rv.subrange(0, i + 1 as int) =~= rv.subrange(0, i as int).push(
                    rv[i as int],
                ));
                vstd::prelude::Seq::lemma_filter_push(
                    rv.subrange(0, i as int),
                    rv[i as int],
                    raw_keep_pred(from_ts, to_ts),
                );
            }
            let t = self.raw[i].timestamp as i64;
            if !(from_ts <= t && t < to_ts) {
                kept.push(self.raw[i].duplicate());
                proof {
                    assert(snapshot_views(kept@) =~= spec_raw_outside(
                        rv.subrange(0, i as int),
                        from_ts,
                        to_ts,
                    ).push(rv[i as int]));
                }
            }
            i += 1;
        }
        let removed = (self.raw.len() - kept.len()) as u64;
        self.raw = kept;
        proof {
            assert(rv.subrange(0, rv.len() as int) =~= rv);
            lemma_filter_raw_sorted(rv, raw_keep_pred(from_ts, to_ts));
            let f = spec_raw_outside(rv, from_ts, to_ts);
            assert forall|k: int| 0 <= k < f.len() implies raw_row_ok(#[trigger] f[k]) by {
                assert(rv.contains(f[k]));
                let w = choose|w: int| 0 <= w < rv.len() && rv[w] == f[k];
                assert(raw_row_ok(rv[w]));
            }
        }
        removed
    }

    /// Delete the aggregated rows within `[from_ts, to_ts)` at one
    /// resolution; returns how many went.
    pub fn delete_aggregated_range(&mut self, from_ts: i64, to_ts: i64, resolution_seconds: i32) -> (r:
        u64)
        requires
            old(self).wf(),
        ensures
            final(self).wf(),
            aggregated_views(final(self).aggregated@) == spec_agg_outside(
                aggregated_views(old(self).aggregated@),
                from_ts,
                to_ts,
                resolution_seconds,
            ),
            r == old(self).aggregated@.len() - final(self).aggregated@.len(),
            final(self).raw@ == old(self).raw@,
            final(self).system_info == old(self).system_info,
    {
        broadcast use vstd::prelude::Seq::lemma_filter_push;

        let ghost av = aggregated_views(self.aggregated@);
        let mut kept: Vec<AggregatedSnapshot> = Vec::new();
        let mut i: usize = 0;
        while i < self.aggregated.len()
            invariant
                i <= self.aggregated.len(),
                av == aggregated_views(self.aggregated@),
                av.len() == self.aggregated@.len(),
                kept@.len() <= i,
                aggregated_views(kept@) == spec_agg_outside(
                    av.subrange(0, i as int),
                    from_ts,
                    to_ts,
                    resolution_seconds,
                ),
            decreases self.aggregated.len() - i,
        {
            proof {
                assert(av.subrange(0, i + 1 as int) =~= av.subrange(0, i as int).push(
                    av[i as int],
                ));
                vstd::prelude::Seq::lemma_filter_push(
                    av.subrange(0, i as int),
                    av[i as int],
                    agg_keep_pred(from_ts, to_ts, resolution_seconds),
                );
            }
            let a = &self.aggregated[i];
            if !(from_ts <= a.created_at && a.created_at < to_ts && a.resolution_seconds
                == resolution_seconds) {
                kept.push(a.duplicate());
                proof {
                    assert(aggregated_views(kept@) =~= spec_agg_outside(
                        av.subrange(0, i as int),
                        from_ts,
                        to_ts,
                        resolution_seconds,
                    ).push(av[i as int]));
                }
            }
            i += 1;
        }
        let removed = (self.aggregated.len() - kept.len()) as u64;
        self.aggregated = kept;
        proof {
            assert(av.subrange(0, av.len() as int) =~= av);
            lemma_filter_agg_sorted(av, agg_keep_pred(from_ts, to_ts, resolution_seconds));
            let f = spec_agg_outside(av, from_ts, to_ts, resolution_seconds);
            assert forall|k: int| 0 <= k < f.len() implies agg_row_ok(#[trigger] f[k]) by {
                assert(av.contains(f[k]));
                let w = choose|w: int| 0 <= w < av.len() && av[w] == f[k];
                assert(agg_row_ok(av[w]));
            }
        }
        removed
    }

    /// Remove every raw row older than the cutoff.
    pub fn prune_raw_before(&mut self, cutoff_ts: i64)
        requires
            old(self).wf(),
        ensures
            final(self).wf(),
            snapshot_views(final(self).raw@) == spec_raw_from(
                snapshot_views(old(self).raw@),
                cutoff_ts,
            ),
            final(self).aggregated@ == old(self).aggregated@,
            final(self).system_info == old(self).system_info,
    {
        broadcast use vstd::prelude::Seq::lemma_filter_push;

        let ghost rv = snapshot_views(self.raw@);
        let mut kept: Vec<FullSystemSnapshot> = Vec::new();
        let mut i: usize = 0;
        while i < self.raw.len()
            invariant
                i <= self.raw.len(),
                rv == snapshot_views(self.raw@),
                rv.len() == self.raw@.len(),
                snapshot_views(kept@) == spec_raw_from(rv.subrange(0, i as int), cutoff_ts),
            decreases self.raw.len() - i,
        {
            proof {
                assert(rv.subrange(0, i + 1 as int) =~= rv.subrange(0, i as int).push(
                    rv[i as int],
                ));
                vstd::prelude::Seq::lemma_filter_push(
                    rv.subrange(0, i as int),
                    rv[i as int],
                    raw_from_pred(cutoff_ts),
                );
            }
            let t = self.raw[i].timestamp as i64;
            if t >= cutoff_ts {
                kept.push(self.raw[i].duplicate());
                proof {
                    assert(snapshot_views(kept@) =~= spec_raw_from(
                        rv.subrange(0, i as int),
                        cutoff_ts,
                    ).push(rv[i as int]));
                }
            }
            i += 1;
        }
        self.raw = kept;
        proof {
            assert(rv.subrange(0, rv.len() as int) =~= rv);
            lemma_filter_raw_sorted(rv, raw_from_pred(cutoff_ts));
            let f = spec_raw_from(rv, cutoff_ts);
            assert forall|k: int| 0 <= k < f.len() implies raw_row_ok(#[trigger] f[k]) by {
                assert(rv.contains(f[k]));
                let w = choose|w: int| 0 <= w < rv.len() && rv[w] == f[k];
                assert(raw_row_ok(rv[w]));
            }
        }
    }

    /// Remove every aggregated row older than the cutoff, at any resolution.
    pub fn prune_aggregated_before(&mut self, cutoff_ts: i64)
        requires
            old(self).wf(),
        ensures
            final(self).wf(),
            aggregated_views(final(self).aggregated@) == spec_agg_from(
                aggregated_views(old(self).aggregated@),
                cutoff_ts,
            ),
            final(self).raw@ == old(self).raw@,
            final(self).system_info == old(self).system_info,
    {
        broadcast use vstd::prelude::Seq::lemma_filter_push;

        let ghost av = aggregated_views(self.aggregated@);
        let mut kept: Vec<AggregatedSnapshot> = Vec::new();
        let mut i: usize = 0;
        while i < self.aggregated.len()
            invariant
                i <= self.aggregated.len(),
                av == aggregated_views(self.aggregated@),
                av.len() == self.aggregated@.len(),
                aggregated_views(kept@) == spec_agg_from(av.subrange(0, i as int), cutoff_ts),
            decreases self.aggregated.len() - i,
        {
            proof {
                assert(av.subrange(0, i + 1 as int) =~= av.subrange(0, i as int).push(
                    av[i as int],
                ));
                vstd::prelude::Seq::lemma_filter_push(
                    av.subrange(0, i as int),
                    av[i as int],
                    agg_from_pred(cutoff_ts),
                );
            }
            let a = &self.aggregated[i];
            if a.created_at >= cutoff_ts {
                kept.push(a.duplicate());
                proof {
                    assert(aggregated_views(kept@) =~= spec_agg_from(
                        av.subrange(0, i as int),
                        cutoff_ts,
                    ).push(av[i as int]));
                }
            }
            i += 1;
        }
        self.aggregated = kept;
        proof {
            assert(av.subrange(0, av.len() as int) =~= av);
            lemma_filter_agg_sorted(av, agg_from_pred(cutoff_ts));
            let f = spec_agg_from(av, cutoff_ts);
            assert forall|k: int| 0 <= k < f.len() implies agg_row_ok(#[trigger] f[k]) by {
                assert(av.contains(f[k]));
                let w = choose|w: int| 0 <= w < av.len() && av[w] == f[k];
                assert(agg_row_ok(av[w]));
            }
        }
    }

    /// The `limit` most recent raw rows in ascending time order — the
    /// tail of the table — beside the stored identity row.
    pub fn get_recent_snapshots(&self, limit: u32) -> (r: (
        Option<SystemInfo>,
        Vec<FullSystemSnapshot>,
    ))
        requires
            self.wf(),
        ensures
            ({
                let n = snapshot_views(self.raw@).len() as int;
                let k = if limit as int <= n {
                    limit as int
                } else {
                    n
                };
                snapshot_views(r.1@) == snapshot_views(self.raw@).subrange(n - k, n)
            }),
            r.0 is Some <==> self.system_info is Some,
            r.0 matches Some(info) ==> self.system_info matches Some(stored) && info@ == stored@,
    {
        let info = self.get_stored_system_info();
        let ghost rv = snapshot_views(self.raw@);
        let n = self.raw.len();
        let start: usize = if (limit as usize) <= n {
            n - (limit as usize)
        } else {
            0
        };
        let mut out: Vec<FullSystemSnapshot> = Vec::new();
        let mut i: usize = start;
        while i < n
            invariant
                start <= i <= n,
                rv == snapshot_views(self.raw@),
                rv.len() == n,
                out@.len() == i - start,
                forall|j: int| 0 <= j < i - start ==> (#[trigger] out@[j])@ == rv[start + j],
            decreases n - i,
        {
            out.push(self.raw[i].duplicate());
            proof {
                assert(rv[i as int] == self.raw@[i as int]@);
            }
            i += 1;
        }
        proof {
            assert forall|j: int|
                0 <= j < rv.subrange(start as int, n as int).len() implies snapshot_views(out@)[j]
                == rv.subrange(start as int, n as int)[j] by {
                assert((out@[j])@ == rv[start + j]);
            }
            assert(snapshot_views(out@) =~= rv.subrange(start as int, n as int));
        }
        (info, out)
    }

    /// The stored identity row, if one was ever saved.
    pub fn get_stored_system_info(&self) -> (r: Option<SystemInfo>)
        ensures
            r is Some <==> self.system_info is Some,
            r matches Some(info) ==> self.system_info matches Some(stored) && info@ == stored@,
    {
        match &self.system_info {
            Some(info) => Some(info.duplicate()),
            None => None,
        }
    }
}

} // verus!
