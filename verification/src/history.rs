//! The history query layer: resolution parsing, last-in-bucket
//! downsampling of raw rows, projection of aggregated rows back into
//! sample shape, and the stitcher that merges both into one ascending
//! series.

use vstd::prelude::*;

use crate::models::{
    AggregatedSnapshot, AggregatedSnapshotV, CpuStats, CpuStatsV, FullSystemSnapshot,
    FullSystemSnapshotV, RamStats, RamStatsV, aggregated_views, snapshot_views, spec_lower_char,
};
use crate::store::{raw_row_ok, raw_sorted, ts_of};

verus! {

/// ASCII whitespace, the blank space a resolution argument may carry.
pub open spec fn spec_is_ws(c: char) -> bool {
    c == ' ' || c == '\t' || c == '\n' || c == '\r'
}

/// Count of leading whitespace characters.
pub open spec fn spec_leading_ws(s: Seq<char>) -> int
    decreases s.len(),
{
    if s.len() == 0 {
        0
    } else if spec_is_ws(s[0]) {
        1 + spec_leading_ws(s.drop_first())
    } else {
        0
    }
}

/// Count of trailing whitespace characters.
pub open spec fn spec_trailing_ws(s: Seq<char>) -> int
    decreases s.len(),
{
    if s.len() == 0 {
        0
    } else if spec_is_ws(s.last()) {
        1 + spec_trailing_ws(s.drop_last())
    } else {
        0
    }
}

/// The argument with surrounding whitespace removed.
pub open spec fn spec_trimmed(s: Seq<char>) -> Seq<char> {
    if spec_leading_ws(s) == s.len() {
        Seq::empty()
    } else {
        s.subrange(spec_leading_ws(s), s.len() - spec_trailing_ws(s))
    }
}

/// A decimal digit.
pub open spec fn spec_is_digit(c: char) -> bool {
    '0' <= c && c <= '9'
}

pub open spec fn spec_digit_val(c: char) -> int {
    c as u32 - 48
}

/// The number a digit string denotes.
pub open spec fn spec_digits_value(t: Seq<char>) -> int
    decreases t.len(),
{
    if t.len() == 0 {
        0
    } else {
        spec_digits_value(t.drop_last()) * 10 + spec_digit_val(t.last())
    }
}

pub open spec fn spec_all_digits(t: Seq<char>) -> bool {
    forall|i: int| 0 <= i < t.len() ==> spec_is_digit(#[trigger] t[i])
}

/// The unsigned number a string parses to: an optional plus sign, then
/// digits, valued within the 32-bit range.
pub open spec fn spec_parse_u32(t: Seq<char>) -> Option<u32> {
    let body = if t.len() > 0 && t[0] == '+' {
        t.drop_first()
    } else {
        t
    };
    if body.len() == 0 || !spec_all_digits(body) {
        None
    } else if spec_digits_value(body) > u32::MAX {
        None
    } else {
        Some(spec_digits_value(body) as u32)
    }
}

/// Case-folded equality against a lowercase word.
pub open spec fn spec_word_eq(t: Seq<char>, w: Seq<char>) -> bool {
    crate::models::spec_eq_ignore_ascii_case(t, w)
}

/// The resolution in seconds an argument denotes: a named step ("1s",
/// "30s", "1m", "5m", case-insensitive), or any number of seconds from 1
/// to 3600; anything else is rejected.
pub open spec fn spec_parse_resolution(s: Seq<char>) -> Option<u32> {
    let t = spec_trimmed(s);
    if spec_word_eq(t, "1s"@) || spec_word_eq(t, "1"@) {
        Some(1u32)
    } else if spec_word_eq(t, "30s"@) || spec_word_eq(t, "30"@) {
        Some(30u32)
    } else if spec_word_eq(t, "1m"@) || spec_word_eq(t, "60"@) {
        Some(60u32)
    } else if spec_word_eq(t, "5m"@) || spec_word_eq(t, "300"@) {
        Some(300u32)
    } else {
        match spec_parse_u32(t) {
            Some(n) => if 0 < n <= 3600 {
                Some(n)
            } else {
                None
            },
            None => None,
        }
    }
}

/// Digit strings denote non-negative, prefix-monotone numbers.
proof fn lemma_digits_value_nonneg(t: Seq<char>)
    requires
        spec_all_digits(t),
    ensures
        spec_digits_value(t) >= 0,
    decreases t.len(),
{
    if t.len() > 0 {
        let rest = t.drop_last();
        assert(forall|i: int| 0 <= i < rest.len() ==> rest[i] == t[i]);
        lemma_digits_value_nonneg(rest);
        assert(spec_is_digit(t[t.len() - 1]));
    }
}

/// Trim boundaries characterised by indices: `lo` past the leading blank
/// run and `hi` before the trailing one locate the trimmed window.
proof fn lemma_trim_window(s: Seq<char>, lo: int, hi: int)
    requires
        0 <= lo <= hi <= s.len(),
        forall|i: int| 0 <= i < lo ==> spec_is_ws(#[trigger] s[i]),
        forall|i: int| hi <= i < s.len() ==> spec_is_ws(#[trigger] s[i]),
        lo < hi ==> !spec_is_ws(s[lo]) && !spec_is_ws(s[hi - 1]),
        lo == hi ==> lo == s.len(),
    ensures
        lo < hi ==> spec_trimmed(s) == s.subrange(lo, hi),
        lo == hi ==> spec_trimmed(s) == Seq::<char>::empty(),
    decreases s.len(),
{
    if lo == hi {
        assert(forall|i: int| 0 <= i < s.len() ==> spec_is_ws(#[trigger] s[i]));
        lemma_leading_ws_all(s);
    } else {
        lemma_leading_ws_exact(s, lo);
        lemma_trailing_ws_exact(s, s.len() - hi);
    }
}

/// A string of nothing but whitespace is all leading whitespace.
proof fn lemma_leading_ws_all(s: Seq<char>)
    requires
        forall|i: int| 0 <= i < s.len() ==> spec_is_ws(#[trigger] s[i]),
    ensures
        spec_leading_ws(s) == s.len(),
    decreases s.len(),
{
    if s.len() > 0 {
        let rest = s.drop_first();
        assert(forall|i: int| 0 <= i < rest.len() ==> rest[i] == s[i + 1]);
        lemma_leading_ws_all(rest);
    }
}

proof fn lemma_leading_ws_exact(s: Seq<char>, lo: int)
    requires
        0 <= lo <= s.len(),
        forall|i: int| 0 <= i < lo ==> spec_is_ws(#[trigger] s[i]),
        lo < s.len() ==> !spec_is_ws(s[lo]),
    ensures
        lo < s.len() ==> spec_leading_ws(s) == lo,
        lo == s.len() ==> spec_leading_ws(s) == s.len(),
    decreases s.len(),
{
    if s.len() == 0 {
    } else if lo == 0 {
    } else {
        let rest = s.drop_first();
        assert(forall|i: int| 0 <= i < rest.len() ==> rest[i] == s[i + 1]);
        lemma_leading_ws_exact(rest, lo - 1);
        assert(spec_is_ws(s[0]));
    }
}

proof fn lemma_trailing_ws_exact(s: Seq<char>, k: int)
    requires
        0 <= k <= s.len(),
        forall|i: int| s.len() - k <= i < s.len() ==> spec_is_ws(#[trigger] s[i]),
        k < s.len() ==> !spec_is_ws(s[s.len() - k - 1]),
    ensures
        k < s.len() ==> spec_trailing_ws(s) == k,
        k == s.len() ==> spec_trailing_ws(s) >= 0,
    decreases s.len(),
{
    if s.len() == 0 {
    } else if k == 0 {
    } else {
        let rest = s.drop_last();
        assert(forall|i: int| 0 <= i < rest.len() ==> rest[i] == s[i]);
        lemma_trailing_ws_exact(rest, k - 1);
        assert(spec_is_ws(s[s.len() - 1]));
    }
}

/// Is the character ASCII whitespace?
fn is_ws_char(c: char) -> (r: bool)
    ensures
        r == spec_is_ws(c),
{
    c == ' ' || c == '\t' || c == '\n' || c == '\r'
}

/// Case-folded comparison of a window of `s` against a lowercase word.
fn window_eq_word(s: &str, lo: usize, hi: usize, word: &str) -> (r: bool)
    requires
        lo <= hi <= s@.len(),
    ensures
        r == spec_word_eq(s@.subrange(lo as int, hi as int), word@),
{
    let n = hi - lo;
    if n != word.unicode_len() {
        return false;
    }
    let ghost t = s@.subrange(lo as int, hi as int);
    let mut i: usize = 0;
    while i < n
        invariant
            i <= n,
            lo <= hi <= s@.len(),
            n == hi - lo,
            t == s@.subrange(lo as int, hi as int),
            n == word@.len(),
            forall|j: int| 0 <= j < i ==> spec_lower_char(t[j]) == spec_lower_char(word@[j]),
        decreases n - i,
    {
        let a = s.get_char(lo + i);
        let b = word.get_char(i);
        proof {
            assert(t[i as int] == s@[lo + i]);
        }
        let a32 = a as u32;
        let b32 = b as u32;
        let la: u32 = if 'A' <= a && a <= 'Z' {
            a32 + 32
        } else {
            a32
        };
        let lb: u32 = if 'A' <= b && b <= 'Z' {
            b32 + 32
        } else {
            b32
        };
        if la != lb {
            assert(spec_lower_char(t[i as int]) != spec_lower_char(word@[i as int]));
            return false;
        }
        assert(spec_lower_char(t[i as int]) == spec_lower_char(word@[i as int]));
        i += 1;
    }
    true
}

/// Parse the digits of a window of `s` as a 32-bit number.
fn window_parse_u32(s: &str, lo: usize, hi: usize) -> (r: Option<u32>)
    requires
        lo <= hi <= s@.len(),
    ensures
        r == spec_parse_u32(s@.subrange(lo as int, hi as int)),
{
    let ghost t = s@.subrange(lo as int, hi as int);
    if lo == hi {
        return None;
    }
    let first = s.get_char(lo);
    proof {
        assert(t[0] == s@[lo as int]);
    }
    let start: usize = if first == '+' {
        lo + 1
    } else {
        lo
    };
    let ghost body = if t[0] == '+' {
        t.drop_first()
    } else {
        t
    };
    proof {
        assert(body =~= s@.subrange(start as int, hi as int));
    }
    if start == hi {
        return None;
    }
    let mut acc: u64 = 0;
    let mut over = false;
    let mut i: usize = start;
    while i < hi
        invariant
            start <= i <= hi <= s@.len(),
            lo <= start,
            lo < hi,
            t == s@.subrange(lo as int, hi as int),
            body == (if t[0] == '+' {
                t.drop_first()
            } else {
                t
            }),
            body == s@.subrange(start as int, hi as int),
            body.len() == hi - start,
            forall|j: int| 0 <= j < i - start ==> spec_is_digit(#[trigger] body[j]),
            !over ==> acc == spec_digits_value(body.subrange(0, i - start)) && acc <= u32::MAX,
            over ==> spec_digits_value(body.subrange(0, i - start)) > u32::MAX,
        decreases hi - i,
    {
        let c = s.get_char(i);
        proof {
            assert(body[i - start] == s@[i as int]);
            assert(body.subrange(0, i - start + 1).drop_last() =~= body.subrange(0, i - start));
        }
        if !(c >= '0' && c <= '9') {
            proof {
                assert(!spec_is_digit(body[i - start]));
                assert(!spec_all_digits(body));
            }
            return None;
        }
        let d = (c as u32) - 48;
        proof {
            let prefix = body.subrange(0, i - start);
            assert(forall|j: int| 0 <= j < prefix.len() ==> prefix[j] == body[j]);
            lemma_digits_value_nonneg(prefix);
        }
        if over {
        } else {
            let next = acc * 10 + d as u64;
            if next > u32::MAX as u64 {
                over = true;
            } else {
                acc = next;
            }
        }
        i += 1;
    }
    proof {
        assert(body.subrange(0, (hi - start) as int) =~= body);
    }
    if over {
        None
    } else {
        Some(acc as u32)
    }
}

/// Parse a resolution argument: a named step, or seconds from 1 to 3600.
pub fn parse_resolution(s: &str) -> (r: Option<u32>)
    ensures
        r == spec_parse_resolution(s@),
{
    let n = s.unicode_len();
    let mut lo: usize = 0;
    while lo < n && is_ws_char(s.get_char(lo))
        invariant
            lo <= n,
            n == s@.len(),
            forall|i: int| 0 <= i < lo ==> spec_is_ws(#[trigger] s@[i]),
        decreases n - lo,
    {
        lo += 1;
    }
    let mut hi: usize = n;
    while hi > lo && is_ws_char(s.get_char(hi - 1))
        invariant
            lo <= hi <= n,
            n == s@.len(),
            forall|i: int| 0 <= i < lo ==> spec_is_ws(#[trigger] s@[i]),
            forall|i: int| hi <= i < n ==> spec_is_ws(#[trigger] s@[i]),
            lo < n ==> !spec_is_ws(s@[lo as int]),
        decreases hi,
    {
        hi -= 1;
    }
    proof {
        lemma_trim_window(s@, lo as int, hi as int);
    }
    if window_eq_word(s, lo, hi, "1s") || window_eq_word(s, lo, hi, "1") {
        Some(1)
    } else if window_eq_word(s, lo, hi, "30s") || window_eq_word(s, lo, hi, "30") {
        Some(30)
    } else if window_eq_word(s, lo, hi, "1m") || window_eq_word(s, lo, hi, "60") {
        Some(60)
    } else if window_eq_word(s, lo, hi, "5m") || window_eq_word(s, lo, hi, "300") {
        Some(300)
    } else {
        match window_parse_u32(s, lo, hi) {
            Some(v) => {
                if v > 0 && v <= 3600 {
                    Some(v)
                } else {
                    None
                }
            },
            None => None,
        }
    }
}

/// The sample shape an aggregated row projects back to: the bucket start
/// as the timestamp, the scalar averages in the CPU and RAM slots, and
/// the opaque columns carried through.
pub open spec fn spec_aggregated_to_snapshot(a: AggregatedSnapshotV) -> FullSystemSnapshotV {
    FullSystemSnapshotV {
        timestamp: a.created_at as u64,
        cpu: CpuStatsV {
            model: Seq::empty(),
            physical_cores: 0,
            logical_cores: 0,
            usage_percent: a.cpu_load_avg,
            temperature: 0,
        },
        ram: RamStatsV {
            total: 0,
            used: a.memory_used_avg as u64,
            available: 0,
            usage_percent: 0,
        },
        containers: a.containers,
        storage: a.storage,
        network: a.network,
        system: a.system,
    }
}

/// Project one aggregated row back into sample shape.
pub fn aggregated_to_snapshot(agg: AggregatedSnapshot) -> (r: FullSystemSnapshot)
    ensures
        r@ == spec_aggregated_to_snapshot(agg@),
{
    FullSystemSnapshot {
        timestamp: agg.created_at as u64,
        cpu: CpuStats {
            model: String::new(),
            physical_cores: 0,
            logical_cores: 0,
            usage_percent: agg.cpu_load_avg,
            temperature: 0,
        },
        ram: RamStats { total: 0, used: agg.memory_used_avg as u64, available: 0, usage_percent: 0 },
        containers: agg.containers,
        storage: agg.storage,
        network: agg.network,
        system: agg.system,
    }
}

/// The projections of a run of aggregated rows, in order.
pub open spec fn spec_project_aggs(aggs: Seq<AggregatedSnapshotV>) -> Seq<FullSystemSnapshotV>
    decreases aggs.len(),
{
    if aggs.len() == 0 {
        Seq::empty()
    } else {
        spec_project_aggs(aggs.drop_last()).push(spec_aggregated_to_snapshot(aggs.last()))
    }
}

/// Last-in-bucket downsampling of a run of samples sorted by time: for
/// each bucket of `width` milliseconds, the latest sample survives.
pub open spec fn spec_downsample(ss: Seq<FullSystemSnapshotV>, width: int) -> Seq<
    FullSystemSnapshotV,
>
    decreases ss.len(),
{
    if ss.len() == 0 {
        Seq::empty()
    } else {
        let rest = spec_downsample(ss.drop_last(), width);
        if rest.len() > 0 && crate::schedule::spec_bucket_floor(ts_of(rest.last()) as int, width)
            == crate::schedule::spec_bucket_floor(ts_of(ss.last()) as int, width) {
            rest.drop_last().push(ss.last())
        } else {
            rest.push(ss.last())
        }
    }
}

/// Downsample a run of samples sorted by time, keeping the last of each
/// bucket. A non-positive width leaves the run as it is.
pub fn downsample_snapshots(snapshots: &[FullSystemSnapshot], resolution_ms: i64) -> (r: Vec<
    FullSystemSnapshot,
>)
    requires
        raw_sorted(snapshot_views(snapshots@)),
        forall|i: int|
            0 <= i < snapshots@.len() ==> raw_row_ok(#[trigger] snapshot_views(snapshots@)[i]),
    ensures
        resolution_ms <= 0 ==> snapshot_views(r@) == snapshot_views(snapshots@),
        resolution_ms > 0 ==> snapshot_views(r@) == spec_downsample(
            snapshot_views(snapshots@),
            resolution_ms as int,
        ),
{
    let ghost sv = snapshot_views(snapshots@);
    let mut out: Vec<FullSystemSnapshot> = Vec::new();
    if resolution_ms <= 0 {
        let mut i: usize = 0;
        while i < snapshots.len()
            invariant
                i <= snapshots.len(),
                sv == snapshot_views(snapshots@),
                sv.len() == snapshots@.len(),
                out@.len() == i,
                forall|j: int| 0 <= j < i ==> (#[trigger] out@[j])@ == sv[j],
            decreases snapshots.len() - i,
        {
            out.push(snapshots[i].duplicate());
            i += 1;
        }
        proof {
            assert(snapshot_views(out@) =~= sv);
        }
        return out;
    }
    let mut i: usize = 0;
    while i < snapshots.len()
        invariant
            i <= snapshots.len(),
            sv == snapshot_views(snapshots@),
            sv.len() == snapshots@.len(),
            resolution_ms > 0,
            forall|j: int| 0 <= j < sv.len() ==> raw_row_ok(#[trigger] sv[j]),
            snapshot_views(out@) == spec_downsample(sv.subrange(0, i as int), resolution_ms as int),
        decreases snapshots.len() - i,
    {
        proof {
            assert(sv.subrange(0, i + 1 as int).drop_last() =~= sv.subrange(0, i as int));
            assert(sv.subrange(0, i + 1 as int).last() == sv[i as int]);
            assert(raw_row_ok(sv[i as int]));
        }
        let cur_ts = snapshots[i].timestamp as i64;
        let cur_bucket = crate::schedule::bucket_floor(cur_ts, resolution_ms);
        let mut replace = false;
        if out.len() > 0 {
            let last_ts = out[out.len() - 1].timestamp as i64;
            proof {
                let ov = snapshot_views(out@);
                assert(out@[out@.len() - 1]@ == ov.last());
                assert(ov.last() == spec_downsample(sv.subrange(0, i as int), resolution_ms as int).last());
                lemma_downsample_rows_ok(sv.subrange(0, i as int), resolution_ms as int);
            }
            let last_bucket = crate::schedule::bucket_floor(last_ts, resolution_ms);
            if last_bucket == cur_bucket {
                replace = true;
            }
        }
        let ghost before = snapshot_views(out@);
        if replace {
            out.pop();
            out.push(snapshots[i].duplicate());
            proof {
                assert(snapshot_views(out@) =~= before.drop_last().push(sv[i as int]));
            }
        } else {
            out.push(snapshots[i].duplicate());
            proof {
                assert(snapshot_views(out@) =~= before.push(sv[i as int]));
            }
        }
        i += 1;
    }
    proof {
        assert(sv.subrange(0, sv.len() as int) =~= sv);
    }
    out
}

/// Every downsampled row was one of the source rows.
proof fn lemma_downsample_rows_ok(ss: Seq<FullSystemSnapshotV>, width: int)
    requires
        forall|i: int| 0 <= i < ss.len() ==> raw_row_ok(#[trigger] ss[i]),
    ensures
        forall|i: int|
            0 <= i < spec_downsample(ss, width).len() ==> raw_row_ok(
                #[trigger] spec_downsample(ss, width)[i],
            ),
        ss.len() > 0 ==> spec_downsample(ss, width).len() > 0,
    decreases ss.len(),
{
    if ss.len() > 0 {
        let rest = ss.drop_last();
        assert(forall|i: int| 0 <= i < rest.len() ==> rest[i] == ss[i]);
        lemma_downsample_rows_ok(rest, width);
        let prev = spec_downsample(rest, width);
        assert(raw_row_ok(ss[ss.len() - 1]));
        assert forall|i: int| 0 <= i < spec_downsample(ss, width).len() implies raw_row_ok(
            #[trigger] spec_downsample(ss, width)[i],
        ) by {
            let d = spec_downsample(ss, width);
            if i == d.len() - 1 {
            } else {
                assert(d[i] == prev[i]);
            }
        }
    }
}

/// Merging two runs sorted by time, first run first on ties.
pub open spec fn spec_merge_by_ts(a: Seq<FullSystemSnapshotV>, b: Seq<FullSystemSnapshotV>) -> Seq<
    FullSystemSnapshotV,
>
    decreases a.len() + b.len(),
{
    if a.len() == 0 {
        b
    } else if b.len() == 0 {
        a
    } else if a[0].timestamp <= b[0].timestamp {
        seq![a[0]] + spec_merge_by_ts(a.drop_first(), b)
    } else {
        seq![b[0]] + spec_merge_by_ts(a, b.drop_first())
    }
}

/// Merge two runs of samples, each sorted by time, into one sorted run.
pub fn merge_by_timestamp(a: Vec<FullSystemSnapshot>, b: Vec<FullSystemSnapshot>) -> (r: Vec<
    FullSystemSnapshot,
>)
    requires
        raw_sorted(snapshot_views(a@)),
        raw_sorted(snapshot_views(b@)),
    ensures
        snapshot_views(r@) == spec_merge_by_ts(snapshot_views(a@), snapshot_views(b@)),
        raw_sorted(snapshot_views(r@)),
{
    let ghost av = snapshot_views(a@);
    let ghost bv = snapshot_views(b@);
    let mut out: Vec<FullSystemSnapshot> = Vec::new();
    let mut i: usize = 0;
    let mut j: usize = 0;
    proof {
        assert(av.skip(0) =~= av);
        assert(bv.skip(0) =~= bv);
    }
    while i < a.len() || j < b.len()
        invariant
            i <= a.len(),
            j <= b.len(),
            av == snapshot_views(a@),
            bv == snapshot_views(b@),
            av.len() == a@.len(),
            bv.len() == b@.len(),
            raw_sorted(av),
            raw_sorted(bv),
            spec_merge_by_ts(av, bv) == snapshot_views(out@) + spec_merge_by_ts(
                av.skip(i as int),
                bv.skip(j as int),
            ),
            raw_sorted(snapshot_views(out@)),
            forall|k: int, m: int|
                0 <= k < out@.len() && i <= m < av.len() ==> (#[trigger] snapshot_views(
                    out@,
                )[k]).timestamp <= (#[trigger] av[m]).timestamp,
            forall|k: int, m: int|
                0 <= k < out@.len() && j <= m < bv.len() ==> (#[trigger] snapshot_views(
                    out@,
                )[k]).timestamp <= (#[trigger] bv[m]).timestamp,
        decreases a.len() + b.len() - i - j,
    {
        let ghost before = snapshot_views(out@);
        let take_a: bool = if i < a.len() {
            if j < b.len() {
                a[i].timestamp <= b[j].timestamp
            } else {
                true
            }
        } else {
            false
        };
        proof {
            if i < av.len() {
                assert(av.skip(i as int)[0] == av[i as int]);
                assert(av.skip(i as int).drop_first() =~= av.skip(i + 1 as int));
            }
            if j < bv.len() {
                assert(bv.skip(j as int)[0] == bv[j as int]);
                assert(bv.skip(j as int).drop_first() =~= bv.skip(j + 1 as int));
            }
        }
        if take_a {
            out.push(a[i].duplicate());
            proof {
                assert(snapshot_views(out@) =~= before.push(av[i as int]));
                if j < bv.len() {
                    assert(spec_merge_by_ts(av.skip(i as int), bv.skip(j as int)) == seq![
                        av[i as int],
                    ] + spec_merge_by_ts(av.skip(i + 1 as int), bv.skip(j as int)));
                } else {
                    assert(bv.skip(j as int).len() == 0);
                    assert(spec_merge_by_ts(av.skip(i as int), bv.skip(j as int)) == av.skip(
                        i as int,
                    ));
                    assert(av.skip(i as int) =~= seq![av[i as int]] + av.skip(i + 1 as int));
                    assert(spec_merge_by_ts(av.skip(i + 1 as int), bv.skip(j as int)) == av.skip(
                        i + 1 as int,
                    ));
                }
                assert(spec_merge_by_ts(av, bv) =~= snapshot_views(out@) + spec_merge_by_ts(
                    av.skip(i + 1 as int),
                    bv.skip(j as int),
                ));
            }
            i += 1;
        } else {
            out.push(b[j].duplicate());
            proof {
                assert(snapshot_views(out@) =~= before.push(bv[j as int]));
                if i < av.len() {
                    assert(spec_merge_by_ts(av.skip(i as int), bv.skip(j as int)) == seq![
                        bv[j as int],
                    ] + spec_merge_by_ts(av.skip(i as int), bv.skip(j + 1 as int)));
                } else {
                    assert(av.skip(i as int).len() == 0);
                    assert(spec_merge_by_ts(av.skip(i as int), bv.skip(j as int)) == bv.skip(
                        j as int,
                    ));
                    assert(bv.skip(j as int) =~= seq![bv[j as int]] + bv.skip(j + 1 as int));
                    assert(spec_merge_by_ts(av.skip(i as int), bv.skip(j + 1 as int)) == bv.skip(
                        j + 1 as int,
                    ));
                }
                assert(spec_merge_by_ts(av, bv) =~= snapshot_views(out@) + spec_merge_by_ts(
                    av.skip(i as int),
                    bv.skip(j + 1 as int),
                ));
            }
            j += 1;
        }
    }
    proof {
        assert(av.skip(i as int).len() == 0);
        assert(bv.skip(j as int).len() == 0);
        assert(spec_merge_by_ts(av, bv) =~= snapshot_views(out@));
    }
    out
}

/// Rebuild one raw sample from its stored row: the scalar columns land in
/// their slots, and each opaque column that failed to decode falls back
/// to its empty value — a corrupted column never loses the whole row.
pub fn snapshot_from_row(
    created_at: i64,
    cpu_load: u64,
    memory_used: i64,
    containers: Option<Vec<crate::models::ContainerStats>>,
    storage: Option<crate::models::StorageStats>,
    network: Option<crate::models::NetworkStats>,
    system: Option<crate::models::SystemStatsDynamic>,
) -> (r: FullSystemSnapshot)
    ensures
        r.timestamp == created_at as u64,
        r.cpu@.usage_percent == cpu_load,
        r.cpu@.model.len() == 0 && r.cpu@.physical_cores == 0 && r.cpu@.logical_cores == 0
            && r.cpu@.temperature == 0,
        r.ram@.used == memory_used as u64,
        r.ram@.total == 0 && r.ram@.available == 0 && r.ram@.usage_percent == 0,
        match containers {
            Some(cs) => crate::models::container_views(r.containers@)
                == crate::models::container_views(cs@),
            None => r.containers@.len() == 0,
        },
        match storage {
            Some(st) => r.storage@ == st@,
            None => r.storage@.partitions.len() == 0 && r.storage@.disks.len() == 0,
        },
        match network {
            Some(n) => r.network@ == n@,
            None => r.network@.interfaces.len() == 0,
        },
        match system {
            Some(sy) => r.system@ == sy@,
            None => r.system@ == (crate::models::SystemStatsDynamicV {
                uptime_secs: 0,
                process_count: 0,
                thread_count: 0,
                cpu_voltage: 0,
                fan_speeds: Seq::empty(),
            }),
        },
{
    let r = FullSystemSnapshot {
        timestamp: created_at as u64,
        cpu: CpuStats {
            model: String::new(),
            physical_cores: 0,
            logical_cores: 0,
            usage_percent: cpu_load,
            temperature: 0,
        },
        ram: RamStats { total: 0, used: memory_used as u64, available: 0, usage_percent: 0 },
        containers: match containers {
            Some(cs) => cs,
            None => Vec::new(),
        },
        storage: match storage {
            Some(st) => st,
            None => crate::models::StorageStats { partitions: Vec::new(), disks: Vec::new() },
        },
        network: match network {
            Some(n) => n,
            None => crate::models::NetworkStats { interfaces: Vec::new() },
        },
        system: match system {
            Some(sy) => sy,
            None => crate::models::SystemStatsDynamic {
                uptime_secs: 0,
                process_count: 0,
                thread_count: 0,
                cpu_voltage: 0,
                fan_speeds: Vec::new(),
            },
        },
    };
    proof {
        assert(crate::models::container_views(Seq::<crate::models::ContainerStats>::empty())
            =~= Seq::<crate::models::ContainerStatsV>::empty());
    }
    r
}

/// Rebuild one aggregated row from its stored columns, with the same
/// per-column fallback as raw rows.
pub fn aggregated_from_row(
    created_at: i64,
    resolution_seconds: i32,
    cpu_load_avg: u64,
    cpu_load_min: u64,
    cpu_load_max: u64,
    memory_used_avg: i64,
    memory_used_min: i64,
    memory_used_max: i64,
    containers: Option<Vec<crate::models::ContainerStats>>,
    storage: Option<crate::models::StorageStats>,
    network: Option<crate::models::NetworkStats>,
    system: Option<crate::models::SystemStatsDynamic>,
) -> (r: AggregatedSnapshot)
    ensures
        r.created_at == created_at,
        r.resolution_seconds == resolution_seconds,
        r.cpu_load_avg == cpu_load_avg && r.cpu_load_min == cpu_load_min && r.cpu_load_max
            == cpu_load_max,
        r.memory_used_avg == memory_used_avg && r.memory_used_min == memory_used_min
            && r.memory_used_max == memory_used_max,
        match containers {
            Some(cs) => crate::models::container_views(r.containers@)
                == crate::models::container_views(cs@),
            None => r.containers@.len() == 0,
        },
        match storage {
            Some(st) => r.storage@ == st@,
            None => r.storage@.partitions.len() == 0 && r.storage@.disks.len() == 0,
        },
        match network {
            Some(n) => r.network@ == n@,
            None => r.network@.interfaces.len() == 0,
        },
        match system {
            Some(sy) => r.system@ == sy@,
            None => r.system@ == (crate::models::SystemStatsDynamicV {
                uptime_secs: 0,
                process_count: 0,
                thread_count: 0,
                cpu_voltage: 0,
                fan_speeds: Seq::empty(),
            }),
        },
{
    let r = AggregatedSnapshot {
        created_at,
        resolution_seconds,
        cpu_load_avg,
        cpu_load_min,
        cpu_load_max,
        memory_used_avg,
        memory_used_min,
        memory_used_max,
        containers: match containers {
            Some(cs) => cs,
            None => Vec::new(),
        },
        storage: match storage {
            Some(st) => st,
            None => crate::models::StorageStats { partitions: Vec::new(), disks: Vec::new() },
        },
        network: match network {
            Some(n) => n,
            None => crate::models::NetworkStats { interfaces: Vec::new() },
        },
        system: match system {
            Some(sy) => sy,
            None => crate::models::SystemStatsDynamic {
                uptime_secs: 0,
                process_count: 0,
                thread_count: 0,
                cpu_voltage: 0,
                fan_speeds: Vec::new(),
            },
        },
    };
    proof {
        assert(crate::models::container_views(Seq::<crate::models::ContainerStats>::empty())
            =~= Seq::<crate::models::ContainerStatsV>::empty());
    }
    r
}

/// Downsampling a sorted run keeps it sorted, drawn from the same rows,
/// and ending on the same last sample.
proof fn lemma_downsample_sorted(ss: Seq<FullSystemSnapshotV>, width: int)
    requires
        raw_sorted(ss),
    ensures
        raw_sorted(spec_downsample(ss, width)),
        spec_downsample(ss, width).len() > 0 <==> ss.len() > 0,
        ss.len() > 0 ==> spec_downsample(ss, width).last() == ss.last(),
        forall|i: int|
            0 <= i < spec_downsample(ss, width).len() ==> ss.contains(
                #[trigger] spec_downsample(ss, width)[i],
            ),
    decreases ss.len(),
{
    if ss.len() > 0 {
        let rest = ss.drop_last();
        assert(forall|i: int| 0 <= i < rest.len() ==> rest[i] == ss[i]);
        lemma_downsample_sorted(rest, width);
        let prev = spec_downsample(rest, width);
        let d = spec_downsample(ss, width);
        assert forall|i: int| 0 <= i < d.len() implies ss.contains(#[trigger] d[i]) by {
            if i == d.len() - 1 {
                assert(d[i] == ss[ss.len() - 1]);
            } else {
                assert(d[i] == prev[i]);
                assert(rest.contains(prev[i]));
                let w = choose|w: int| 0 <= w < rest.len() && rest[w] == prev[i];
                assert(ss[w] == d[i]);
            }
        }
        assert forall|i: int, j: int| 0 <= i < j < d.len() implies (#[trigger] d[i]).timestamp
            <= (#[trigger] d[j]).timestamp by {
            if j == d.len() - 1 {
                assert(rest.contains(d[i]));
                let w = choose|w: int| 0 <= w < rest.len() && rest[w] == d[i];
                assert(ss[w].timestamp <= ss[ss.len() - 1].timestamp);
            } else {
                assert(d[i] == prev[i] && d[j] == prev[j]);
            }
        }
    }
}

/// The full history a query returns, stitched from both tiers: the raw
/// rows of `[max(from, cutoff), to)` when the window reaches past the
/// cutoff, downsampled to the requested resolution when it is coarser
/// than a second; the aggregated rows of `[from, min(to, cutoff))` at
/// 5 min resolution for coarse queries and 1 min otherwise, projected
/// back to sample shape; merged ascending by time, aggregated rows first.
pub open spec fn spec_get_history(
    raw: Seq<FullSystemSnapshotV>,
    agg: Seq<AggregatedSnapshotV>,
    from_ts: i64,
    to_ts: i64,
    resolution_secs: u32,
    raw_cutoff_ts: i64,
) -> Seq<FullSystemSnapshotV> {
    let raw_part0 = if to_ts > raw_cutoff_ts {
        crate::store::spec_raw_range(
            raw,
            if from_ts > raw_cutoff_ts {
                from_ts
            } else {
                raw_cutoff_ts
            },
            to_ts,
        )
    } else {
        Seq::empty()
    };
    let raw_part = if resolution_secs > 1 && raw_part0.len() > 0 {
        spec_downsample(raw_part0, resolution_secs as int * 1000)
    } else {
        raw_part0
    };
    let agg_part = if from_ts < raw_cutoff_ts {
        spec_project_aggs(
            crate::store::spec_agg_range(
                agg,
                from_ts,
                if to_ts < raw_cutoff_ts {
                    to_ts
                } else {
                    raw_cutoff_ts
                },
                if resolution_secs >= 300 {
                    300
                } else {
                    60
                },
            ),
        )
    } else {
        Seq::empty()
    };
    spec_merge_by_ts(agg_part, raw_part)
}

impl crate::store::HistoryStore {
    /// Answer a history query: stitch aggregated rows (older than the raw
    /// cutoff) and raw rows (younger) into one run ascending by time.
    pub fn get_history(
        &self,
        from_ts: i64,
        to_ts: i64,
        resolution_secs: u32,
        raw_cutoff_ts: i64,
    ) -> (r: Vec<FullSystemSnapshot>)
        requires
            self.wf(),
        ensures
            snapshot_views(r@) == spec_get_history(
                snapshot_views(self.raw@),
                aggregated_views(self.aggregated@),
                from_ts,
                to_ts,
                resolution_secs,
                raw_cutoff_ts,
            ),
            raw_sorted(snapshot_views(r@)),
    {
        let ghost rv = snapshot_views(self.raw@);
        let ghost av = aggregated_views(self.aggregated@);
        let resolution_ms = (resolution_secs as i64) * 1000;
        let mut raw_part: Vec<FullSystemSnapshot> = Vec::new();
        if to_ts > raw_cutoff_ts {
            let raw_from = if from_ts > raw_cutoff_ts {
                from_ts
            } else {
                raw_cutoff_ts
            };
            raw_part = self.get_raw_snapshots_by_time_range(raw_from, to_ts);
        }
        let ghost raw_part0 = snapshot_views(raw_part@);
        proof {
            crate::store::lemma_filter_raw_sorted(
                rv,
                crate::store::raw_window_pred(
                    if from_ts > raw_cutoff_ts {
                        from_ts
                    } else {
                        raw_cutoff_ts
                    },
                    to_ts,
                ),
            );
        }
        if resolution_secs > 1 && raw_part.len() > 0 {
            proof {
                lemma_downsample_sorted(raw_part0, resolution_ms as int);
            }
            raw_part = downsample_snapshots(raw_part.as_slice(), resolution_ms);
        }
        let mut agg_snaps: Vec<FullSystemSnapshot> = Vec::new();
        let ghost agg_resolution_g: i32 = if resolution_secs >= 300 {
            300
        } else {
            60
        };
        if from_ts < raw_cutoff_ts {
            let agg_to = if to_ts < raw_cutoff_ts {
                to_ts
            } else {
                raw_cutoff_ts
            };
            let agg_resolution: i32 = if resolution_secs >= 300 {
                300
            } else {
                60
            };
            let aggs = self.get_aggregated_snapshots_by_time_range(from_ts, agg_to, agg_resolution);
            let ghost avr = aggregated_views(aggs@);
            let mut m: usize = 0;
            while m < aggs.len()
                invariant
                    m <= aggs.len(),
                    avr == aggregated_views(aggs@),
                    avr.len() == aggs@.len(),
                    snapshot_views(agg_snaps@) == spec_project_aggs(avr.subrange(0, m as int)),
                decreases aggs.len() - m,
            {
                proof {
                    assert(avr.subrange(0, m + 1 as int).drop_last() =~= avr.subrange(0, m as int));
                    assert(avr.subrange(0, m + 1 as int).last() == avr[m as int]);
                }
                agg_snaps.push(aggregated_to_snapshot(aggs[m].duplicate()));
                proof {
                    assert(snapshot_views(agg_snaps@) =~= spec_project_aggs(
                        avr.subrange(0, m as int),
                    ).push(spec_aggregated_to_snapshot(avr[m as int])));
                }
                m += 1;
            }
            proof {
                assert(avr.subrange(0, avr.len() as int) =~= avr);
                lemma_project_aggs_sorted(avr);
            }
        }
        merge_by_timestamp(agg_snaps, raw_part)
    }
}

/// Projection keeps a sorted run of well-formed rows sorted: the bucket
/// starts become the timestamps.
proof fn lemma_project_aggs_sorted(aggs: Seq<AggregatedSnapshotV>)
    requires
        crate::store::agg_sorted(aggs),
        forall|i: int| 0 <= i < aggs.len() ==> crate::store::agg_row_ok(#[trigger] aggs[i]),
    ensures
        raw_sorted(spec_project_aggs(aggs)),
        spec_project_aggs(aggs).len() == aggs.len(),
        forall|i: int|
            0 <= i < aggs.len() ==> #[trigger] spec_project_aggs(aggs)[i]
                == spec_aggregated_to_snapshot(aggs[i]),
    decreases aggs.len(),
{
    if aggs.len() > 0 {
        let rest = aggs.drop_last();
        assert(forall|i: int| 0 <= i < rest.len() ==> rest[i] == aggs[i]);
        lemma_project_aggs_sorted(rest);
        let p = spec_project_aggs(aggs);
        assert forall|i: int, j: int| 0 <= i < j < p.len() implies (#[trigger] p[i]).timestamp
            <= (#[trigger] p[j]).timestamp by {
            if j == p.len() - 1 {
                assert(p[i] == spec_aggregated_to_snapshot(aggs[i]));
                assert(aggs[i].created_at <= aggs[j].created_at);
                assert(aggs[i].created_at >= 0 && aggs[j].created_at >= 0);
            }
        }
    }
}

/// Which tier answers a query: a window wholly past the raw cutoff reads
/// only raw rows, and a window wholly before it reads only aggregated
/// rows, at 5 min resolution when the requested step is at least 5 min.
pub proof fn lemma_history_tiers(
    raw: Seq<FullSystemSnapshotV>,
    agg: Seq<AggregatedSnapshotV>,
    from_ts: i64,
    to_ts: i64,
    resolution_secs: u32,
    raw_cutoff_ts: i64,
)
    ensures
        from_ts >= raw_cutoff_ts && to_ts > raw_cutoff_ts && resolution_secs == 1
            ==> spec_get_history(raw, agg, from_ts, to_ts, resolution_secs, raw_cutoff_ts)
            == crate::store::spec_raw_range(raw, from_ts, to_ts),
        to_ts <= raw_cutoff_ts && from_ts < raw_cutoff_ts && resolution_secs >= 300
            ==> spec_get_history(raw, agg, from_ts, to_ts, resolution_secs, raw_cutoff_ts)
            == spec_project_aggs(crate::store::spec_agg_range(agg, from_ts, to_ts, 300)),
{
    if from_ts >= raw_cutoff_ts && to_ts > raw_cutoff_ts && resolution_secs == 1 {
        let raw_part = crate::store::spec_raw_range(raw, from_ts, to_ts);
        assert(spec_merge_by_ts(Seq::empty(), raw_part) == raw_part);
    }
    if to_ts <= raw_cutoff_ts && from_ts < raw_cutoff_ts && resolution_secs >= 300 {
        let agg_part = spec_project_aggs(crate::store::spec_agg_range(agg, from_ts, to_ts, 300));
        assert(spec_merge_by_ts(agg_part, Seq::empty()) == agg_part);
    }
}

} // verus!
