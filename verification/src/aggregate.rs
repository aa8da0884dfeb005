//! Bucket aggregation: scalar means, minima and maxima over a bucket of
//! samples, and per-container grouping with mean/sum/last-observation
//! semantics for the individual fields.

use vstd::prelude::*;
use vstd::relations::sorted_by;

use crate::models::{AggregatedSnapshot, AggregatedSnapshotV, ContainerStats, ContainerStatsV,
    FullSystemSnapshot, FullSystemSnapshotV, aggregated_views, container_views, snapshot_views,
    string_views};

verus! {

/// Sum of a sequence of unsigned values, as a mathematical integer.
pub open spec fn seq_sum_u64(s: Seq<u64>) -> int
    decreases s.len(),
{
    if s.len() == 0 {
        0
    } else {
        seq_sum_u64(s.drop_last()) + s.last()
    }
}

/// Sum of a sequence of signed values, as a mathematical integer.
pub open spec fn seq_sum_i64(s: Seq<i64>) -> int
    decreases s.len(),
{
    if s.len() == 0 {
        0
    } else {
        seq_sum_i64(s.drop_last()) + s.last()
    }
}

/// Truncating mean of unsigned values; 0 for an empty sequence.
pub open spec fn spec_mean_u64(s: Seq<u64>) -> int {
    if s.len() == 0 {
        0
    } else {
        seq_sum_u64(s) / s.len() as int
    }
}

/// Truncating mean of signed values; 0 for an empty sequence. Exact for
/// non-negative elements, which is all the store ever holds.
pub open spec fn spec_mean_i64(s: Seq<i64>) -> int {
    if s.len() == 0 {
        0
    } else {
        seq_sum_i64(s) / s.len() as int
    }
}

/// Minimum of an unsigned sequence; 0 when empty.
pub open spec fn seq_min_u64(s: Seq<u64>) -> u64
    decreases s.len(),
{
    if s.len() == 0 {
        0
    } else if s.len() == 1 {
        s[0]
    } else {
        let rest = seq_min_u64(s.drop_last());
        if s.last() < rest {
            s.last()
        } else {
            rest
        }
    }
}

/// Maximum of an unsigned sequence; 0 when empty.
pub open spec fn seq_max_u64(s: Seq<u64>) -> u64
    decreases s.len(),
{
    if s.len() == 0 {
        0
    } else if s.len() == 1 {
        s[0]
    } else {
        let rest = seq_max_u64(s.drop_last());
        if s.last() > rest {
            s.last()
        } else {
            rest
        }
    }
}

/// Minimum of a signed sequence; 0 when empty.
pub open spec fn seq_min_i64(s: Seq<i64>) -> i64
    decreases s.len(),
{
    if s.len() == 0 {
        0
    } else if s.len() == 1 {
        s[0]
    } else {
        let rest = seq_min_i64(s.drop_last());
        if s.last() < rest {
            s.last()
        } else {
            rest
        }
    }
}

/// Maximum of a signed sequence; 0 when empty.
pub open spec fn seq_max_i64(s: Seq<i64>) -> i64
    decreases s.len(),
{
    if s.len() == 0 {
        0
    } else if s.len() == 1 {
        s[0]
    } else {
        let rest = seq_max_i64(s.drop_last());
        if s.last() > rest {
            s.last()
        } else {
            rest
        }
    }
}

/// A sum clamped into the unsigned 64-bit range.
pub open spec fn sat_u64(x: int) -> u64 {
    if x > u64::MAX {
        u64::MAX
    } else if x < 0 {
        0
    } else {
        x as u64
    }
}

/// The sum of a non-empty sequence lies between `len * min` and `len * max`.
pub proof fn lemma_sum_bounds_u64(s: Seq<u64>)
    ensures
        s.len() * seq_min_u64(s) <= seq_sum_u64(s) <= s.len() * seq_max_u64(s),
    decreases s.len(),
{
    if s.len() == 0 {
    } else if s.len() == 1 {
        assert(seq_sum_u64(s) == seq_sum_u64(s.drop_last()) + s.last());
        assert(seq_sum_u64(s.drop_last()) == 0);
    } else {
        let rest = s.drop_last();
        lemma_sum_bounds_u64(rest);
        let n = rest.len() as int;
        let mn = seq_min_u64(s) as int;
        let mx = seq_max_u64(s) as int;
        let mnr = seq_min_u64(rest) as int;
        let mxr = seq_max_u64(rest) as int;
        let l = s.last() as int;
        let sumr = seq_sum_u64(rest);
        assert(mn <= mnr && mn <= l);
        assert(mx >= mxr && mx >= l);
        assert((n + 1) * mn <= sumr + l) by (nonlinear_arith)
            requires
                n >= 0,
                n * mnr <= sumr,
                mn <= mnr,
                mn <= l,
        ;
        assert((n + 1) * mx >= sumr + l) by (nonlinear_arith)
            requires
                n >= 0,
                n * mxr >= sumr,
                mx >= mxr,
                mx >= l,
        ;
        assert(seq_sum_u64(s) == sumr + l);
        assert(s.len() as int == n + 1);
    }
}

/// The truncating mean of a non-empty sequence lies between its minimum
/// and its maximum.
pub proof fn lemma_mean_bounds_u64(s: Seq<u64>)
    requires
        s.len() > 0,
    ensures
        seq_min_u64(s) <= spec_mean_u64(s) <= seq_max_u64(s),
{
    lemma_sum_bounds_u64(s);
    let n = s.len() as int;
    let sum = seq_sum_u64(s);
    let mn = seq_min_u64(s) as int;
    let mx = seq_max_u64(s) as int;
    assert(mn <= sum / n <= mx) by (nonlinear_arith)
        requires
            n > 0,
            n * mn <= sum <= n * mx,
            0 <= mn,
            0 <= mx,
    ;
}

/// The sum of a non-empty signed sequence lies between `len * min` and `len * max`.
pub proof fn lemma_sum_bounds_i64(s: Seq<i64>)
    ensures
        s.len() * seq_min_i64(s) <= seq_sum_i64(s) <= s.len() * seq_max_i64(s),
    decreases s.len(),
{
    if s.len() == 0 {
    } else if s.len() == 1 {
        assert(seq_sum_i64(s) == seq_sum_i64(s.drop_last()) + s.last());
        assert(seq_sum_i64(s.drop_last()) == 0);
    } else {
        let rest = s.drop_last();
        lemma_sum_bounds_i64(rest);
        let n = rest.len() as int;
        let mn = seq_min_i64(s) as int;
        let mx = seq_max_i64(s) as int;
        let mnr = seq_min_i64(rest) as int;
        let mxr = seq_max_i64(rest) as int;
        let l = s.last() as int;
        let sumr = seq_sum_i64(rest);
        assert(mn <= mnr && mn <= l);
        assert(mx >= mxr && mx >= l);
        assert((n + 1) * mn <= sumr + l) by (nonlinear_arith)
            requires
                n >= 0,
                n * mnr <= sumr,
                mn <= mnr,
                mn <= l,
        ;
        assert((n + 1) * mx >= sumr + l) by (nonlinear_arith)
            requires
                n >= 0,
                n * mxr >= sumr,
                mx >= mxr,
                mx >= l,
        ;
        assert(seq_sum_i64(s) == sumr + l);
        assert(s.len() as int == n + 1);
    }
}

/// The truncating mean of a non-empty sequence of non-negative signed
/// values lies between its minimum and its maximum.
pub proof fn lemma_mean_bounds_i64(s: Seq<i64>)
    requires
        s.len() > 0,
        forall|i: int| 0 <= i < s.len() ==> s[i] >= 0,
    ensures
        seq_min_i64(s) <= spec_mean_i64(s) <= seq_max_i64(s),
{
    lemma_sum_bounds_i64(s);
    lemma_min_max_members_i64(s);
    let n = s.len() as int;
    let sum = seq_sum_i64(s);
    let mn = seq_min_i64(s) as int;
    let mx = seq_max_i64(s) as int;
    assert(mn <= sum / n <= mx) by (nonlinear_arith)
        requires
            n > 0,
            n * mn <= sum <= n * mx,
            0 <= mn,
            0 <= mx,
    ;
}

/// The minimum and maximum of a non-empty sequence are members of it and
/// bound every element.
pub proof fn lemma_min_max_members_i64(s: Seq<i64>)
    requires
        s.len() > 0,
    ensures
        s.contains(seq_min_i64(s)),
        s.contains(seq_max_i64(s)),
        forall|i: int| 0 <= i < s.len() ==> seq_min_i64(s) <= #[trigger] s[i] <= seq_max_i64(s),
    decreases s.len(),
{
    if s.len() == 1 {
        assert(s[0] == s.last());
    } else {
        let rest = s.drop_last();
        lemma_min_max_members_i64(rest);
        assert forall|i: int| 0 <= i < s.len() implies seq_min_i64(s) <= #[trigger] s[i]
            <= seq_max_i64(s) by {
            if i < rest.len() {
                assert(rest[i] == s[i]);
            }
        }
        if rest.contains(seq_min_i64(s)) {
            let j = choose|j: int| 0 <= j < rest.len() && rest[j] == seq_min_i64(s);
            assert(s[j] == seq_min_i64(s));
        }
        if rest.contains(seq_max_i64(s)) {
            let j = choose|j: int| 0 <= j < rest.len() && rest[j] == seq_max_i64(s);
            assert(s[j] == seq_max_i64(s));
        }
    }
}

/// The minimum and maximum of a non-empty unsigned sequence are members of
/// it and bound every element.
pub proof fn lemma_min_max_members_u64(s: Seq<u64>)
    requires
        s.len() > 0,
    ensures
        s.contains(seq_min_u64(s)),
        s.contains(seq_max_u64(s)),
        forall|i: int| 0 <= i < s.len() ==> seq_min_u64(s) <= #[trigger] s[i] <= seq_max_u64(s),
    decreases s.len(),
{
    if s.len() == 1 {
        assert(s[0] == s.last());
    } else {
        let rest = s.drop_last();
        lemma_min_max_members_u64(rest);
        assert forall|i: int| 0 <= i < s.len() implies seq_min_u64(s) <= #[trigger] s[i]
            <= seq_max_u64(s) by {
            if i < rest.len() {
                assert(rest[i] == s[i]);
            }
        }
        if rest.contains(seq_min_u64(s)) {
            let j = choose|j: int| 0 <= j < rest.len() && rest[j] == seq_min_u64(s);
            assert(s[j] == seq_min_u64(s));
        }
        if rest.contains(seq_max_u64(s)) {
            let j = choose|j: int| 0 <= j < rest.len() && rest[j] == seq_max_u64(s);
            assert(s[j] == seq_max_u64(s));
        }
    }
}

/// Truncating mean of a slice of unsigned values; 0 for an empty slice.
pub fn mean_u64(v: &[u64]) -> (r: u64)
    ensures
        r == spec_mean_u64(v@),
{
    if v.len() == 0 {
        return 0;
    }
    let mut sum: u128 = 0;
    let mut i: usize = 0;
    while i < v.len()
        invariant
            i <= v.len(),
            sum == seq_sum_u64(v@.subrange(0, i as int)),
            sum <= (i as int) * (u64::MAX as int),
        decreases v.len() - i,
    {
        proof {
            assert(v@.subrange(0, i + 1 as int).drop_last() =~= v@.subrange(0, i as int));
            assert((i + 1 as int) * (u64::MAX as int) == (i as int) * (u64::MAX as int) + (
            u64::MAX as int)) by (nonlinear_arith);
        }
        sum = sum + v[i] as u128;
        i += 1;
    }
    proof {
        assert(v@.subrange(0, v@.len() as int) =~= v@);
        lemma_mean_bounds_u64(v@);
        lemma_min_max_members_u64(v@);
    }
    (sum / (v.len() as u128)) as u64
}

/// Truncating mean of a slice of non-negative signed values; 0 when empty.
pub fn mean_i64(v: &[i64]) -> (r: i64)
    requires
        forall|i: int| 0 <= i < v@.len() ==> v@[i] >= 0,
    ensures
        r == spec_mean_i64(v@),
{
    if v.len() == 0 {
        return 0;
    }
    let mut sum: u128 = 0;
    let mut i: usize = 0;
    while i < v.len()
        invariant
            i <= v.len(),
            forall|j: int| 0 <= j < v@.len() ==> v@[j] >= 0,
            sum == seq_sum_i64(v@.subrange(0, i as int)),
            sum <= (i as int) * (i64::MAX as int),
        decreases v.len() - i,
    {
        proof {
            assert(v@.subrange(0, i + 1 as int).drop_last() =~= v@.subrange(0, i as int));
            assert((i + 1 as int) * (i64::MAX as int) == (i as int) * (i64::MAX as int) + (
            i64::MAX as int)) by (nonlinear_arith);
        }
        sum = sum + (v[i] as u64) as u128;
        i += 1;
    }
    proof {
        assert(v@.subrange(0, v@.len() as int) =~= v@);
        lemma_mean_bounds_i64(v@);
        lemma_min_max_members_i64(v@);
    }
    (sum / (v.len() as u128)) as i64
}

/// Minimum of a slice of unsigned values; 0 when empty.
pub fn min_u64(v: &[u64]) -> (r: u64)
    ensures
        r == seq_min_u64(v@),
{
    let mut r: u64 = 0;
    let mut i: usize = 0;
    while i < v.len()
        invariant
            i <= v.len(),
            r == seq_min_u64(v@.subrange(0, i as int)),
        decreases v.len() - i,
    {
        proof {
            assert(v@.subrange(0, i + 1 as int).drop_last() =~= v@.subrange(0, i as int));
        }
        if i == 0 || v[i] < r {
            r = v[i];
        }
        i += 1;
    }
    proof {
        assert(v@.subrange(0, v@.len() as int) =~= v@);
    }
    r
}

/// Maximum of a slice of unsigned values; 0 when empty.
pub fn max_u64(v: &[u64]) -> (r: u64)
    ensures
        r == seq_max_u64(v@),
{
    let mut r: u64 = 0;
    let mut i: usize = 0;
    while i < v.len()
        invariant
            i <= v.len(),
            r == seq_max_u64(v@.subrange(0, i as int)),
        decreases v.len() - i,
    {
        proof {
            assert(v@.subrange(0, i + 1 as int).drop_last() =~= v@.subrange(0, i as int));
        }
        if i == 0 || v[i] > r {
            r = v[i];
        }
        i += 1;
    }
    proof {
        assert(v@.subrange(0, v@.len() as int) =~= v@);
    }
    r
}

/// Minimum of a slice of signed values; 0 when empty.
pub fn min_i64(v: &[i64]) -> (r: i64)
    ensures
        r == seq_min_i64(v@),
{
    let mut r: i64 = 0;
    let mut i: usize = 0;
    while i < v.len()
        invariant
            i <= v.len(),
            r == seq_min_i64(v@.subrange(0, i as int)),
        decreases v.len() - i,
    {
        proof {
            assert(v@.subrange(0, i + 1 as int).drop_last() =~= v@.subrange(0, i as int));
        }
        if i == 0 || v[i] < r {
            r = v[i];
        }
        i += 1;
    }
    proof {
        assert(v@.subrange(0, v@.len() as int) =~= v@);
    }
    r
}

/// Maximum of a slice of signed values; 0 when empty.
pub fn max_i64(v: &[i64]) -> (r: i64)
    ensures
        r == seq_max_i64(v@),
{
    let mut r: i64 = 0;
    let mut i: usize = 0;
    while i < v.len()
        invariant
            i <= v.len(),
            r == seq_max_i64(v@.subrange(0, i as int)),
        decreases v.len() - i,
    {
        proof {
            assert(v@.subrange(0, i + 1 as int).drop_last() =~= v@.subrange(0, i as int));
        }
        if i == 0 || v[i] > r {
            r = v[i];
        }
        i += 1;
    }
    proof {
        assert(v@.subrange(0, v@.len() as int) =~= v@);
    }
    r
}

/// Lexicographic order on character sequences by code point, the order in
/// which container names are kept for deterministic serialization.
pub open spec fn spec_lex_le(a: Seq<char>, b: Seq<char>) -> bool
    decreases a.len(),
{
    if a.len() == 0 {
        true
    } else if b.len() == 0 {
        false
    } else if (a[0] as u32) < (b[0] as u32) {
        true
    } else if (a[0] as u32) > (b[0] as u32) {
        false
    } else {
        spec_lex_le(a.drop_first(), b.drop_first())
    }
}

/// The name order is total: any two names compare one way or the other.
pub proof fn lemma_lex_le_total(a: Seq<char>, b: Seq<char>)
    ensures
        spec_lex_le(a, b) || spec_lex_le(b, a),
    decreases a.len(),
{
    if a.len() == 0 || b.len() == 0 {
    } else if (a[0] as u32) == (b[0] as u32) {
        lemma_lex_le_total(a.drop_first(), b.drop_first());
    }
}

/// The name order is transitive.
pub proof fn lemma_lex_le_trans(a: Seq<char>, b: Seq<char>, c: Seq<char>)
    requires
        spec_lex_le(a, b),
        spec_lex_le(b, c),
    ensures
        spec_lex_le(a, c),
    decreases a.len(),
{
    if a.len() == 0 {
    } else {
        if b.len() == 0 {
        } else if c.len() == 0 {
        } else {
            if (a[0] as u32) == (b[0] as u32) && (b[0] as u32) == (c[0] as u32) {
                lemma_lex_le_trans(a.drop_first(), b.drop_first(), c.drop_first());
            }
        }
    }
}

/// Compare two strings in the lexicographic code-point order.
pub fn str_lex_le(a: &str, b: &str) -> (r: bool)
    ensures
        r == spec_lex_le(a@, b@),
{
    let alen = a.unicode_len();
    let blen = b.unicode_len();
    let mut i: usize = 0;
    proof {
        assert(a@.skip(0) =~= a@);
        assert(b@.skip(0) =~= b@);
    }
    loop
        invariant
            i <= alen,
            i <= blen,
            alen == a@.len(),
            blen == b@.len(),
            spec_lex_le(a@, b@) == spec_lex_le(a@.skip(i as int), b@.skip(i as int)),
        decreases alen - i,
    {
        if i >= alen {
            assert(a@.skip(i as int).len() == 0);
            return true;
        }
        if i >= blen {
            assert(b@.skip(i as int).len() == 0);
            assert(a@.skip(i as int).len() > 0);
            return false;
        }
        let ca = a.get_char(i);
        let cb = b.get_char(i);
        proof {
            assert(a@.skip(i as int)[0] == a@[i as int]);
            assert(b@.skip(i as int)[0] == b@[i as int]);
        }
        if (ca as u32) < (cb as u32) {
            return true;
        }
        if (ca as u32) > (cb as u32) {
            return false;
        }
        proof {
            assert(a@.skip(i as int).drop_first() =~= a@.skip(i + 1 as int));
            assert(b@.skip(i as int).drop_first() =~= b@.skip(i + 1 as int));
        }
        i += 1;
    }
}

/// The name order on container rows.
pub open spec fn name_le(a: ContainerStatsV, b: ContainerStatsV) -> bool {
    spec_lex_le(a.name, b.name)
}

/// Insertion of a row into a name-ordered sequence: the row lands after
/// every row whose name is less than or equal to its own.
pub open spec fn spec_insert_by_name(s: Seq<ContainerStatsV>, x: ContainerStatsV) -> Seq<
    ContainerStatsV,
>
    decreases s.len(),
{
    if s.len() == 0 {
        seq![x]
    } else if name_le(s.last(), x) {
        s.push(x)
    } else {
        spec_insert_by_name(s.drop_last(), x).push(s.last())
    }
}

/// Stable insertion sort of container rows by name.
pub open spec fn spec_sort_by_name(s: Seq<ContainerStatsV>) -> Seq<ContainerStatsV>
    decreases s.len(),
{
    if s.len() == 0 {
        Seq::empty()
    } else {
        spec_insert_by_name(spec_sort_by_name(s.drop_last()), s.last())
    }
}

/// Where the insertion lands positionally: before the first run of rows
/// whose names are strictly greater.
proof fn lemma_insert_by_name_at(s: Seq<ContainerStatsV>, x: ContainerStatsV, j: int)
    requires
        0 <= j <= s.len(),
        forall|k: int| j <= k < s.len() ==> !name_le(#[trigger] s[k], x),
        j > 0 ==> name_le(s[j - 1], x),
    ensures
        spec_insert_by_name(s, x) == s.subrange(0, j) + seq![x] + s.subrange(j, s.len() as int),
    decreases s.len(),
{
    if j == s.len() {
        if s.len() == 0 {
            assert(spec_insert_by_name(s, x) =~= s.subrange(0, j) + seq![x] + s.subrange(
                j,
                s.len() as int,
            ));
        } else {
            assert(name_le(s.last(), x));
            assert(s.subrange(0, j) + seq![x] + s.subrange(j, s.len() as int) =~= s.push(x));
        }
    } else {
        assert(!name_le(s[s.len() - 1], x));
        let rest = s.drop_last();
        assert(forall|k: int| j <= k < rest.len() ==> !name_le(#[trigger] rest[k], x));
        if j > 0 {
            assert(rest[j - 1] == s[j - 1]);
        }
        lemma_insert_by_name_at(rest, x, j);
        assert(spec_insert_by_name(s, x) == spec_insert_by_name(rest, x).push(s.last()));
        assert((rest.subrange(0, j) + seq![x] + rest.subrange(j, rest.len() as int)).push(s.last())
            =~= s.subrange(0, j) + seq![x] + s.subrange(j, s.len() as int));
    }
}

/// Inserting into a name-sorted sequence keeps it sorted and adds exactly
/// the inserted row to the contents.
pub proof fn lemma_insert_by_name_sorted(s: Seq<ContainerStatsV>, x: ContainerStatsV)
    requires
        sorted_by(s, |a: ContainerStatsV, b: ContainerStatsV| name_le(a, b)),
    ensures
        sorted_by(
            spec_insert_by_name(s, x),
            |a: ContainerStatsV, b: ContainerStatsV| name_le(a, b),
        ),
        spec_insert_by_name(s, x).to_multiset() == s.to_multiset().insert(x),
    decreases s.len(),
{
    broadcast use vstd::seq_lib::group_to_multiset_ensures;

    let leq = |a: ContainerStatsV, b: ContainerStatsV| name_le(a, b);
    if s.len() == 0 {
        assert(spec_insert_by_name(s, x) =~= Seq::empty().push(x));
        assert(s.to_multiset().insert(x) =~= Seq::empty().push(x).to_multiset());
    } else if name_le(s.last(), x) {
        let r = s.push(x);
        assert forall|i: int, k: int| 0 <= i < k < r.len() implies #[trigger] leq(r[i], r[k]) by {
            if k == r.len() - 1 {
                if i < s.len() - 1 {
                    assert(leq(s[i], s[s.len() - 1]));
                    lemma_lex_le_trans(s[i].name, s.last().name, x.name);
                }
            }
        }
    } else {
        let rest = s.drop_last();
        assert(sorted_by(rest, leq));
        lemma_insert_by_name_sorted(rest, x);
        let ri = spec_insert_by_name(rest, x);
        let r = ri.push(s.last());
        assert(spec_insert_by_name(s, x) == r);
        lemma_lex_le_total(s.last().name, x.name);
        assert(name_le(x, s.last()));
        assert forall|i: int, k: int| 0 <= i < k < r.len() implies #[trigger] leq(r[i], r[k]) by {
            if k == r.len() - 1 {
                // every element of ri is either from rest or is x; both are <= s.last()
                assert(ri.to_multiset().contains(ri[i]));
                assert(rest.to_multiset().insert(x).contains(ri[i]));
                if rest.to_multiset().contains(ri[i]) {
                    let w = choose|w: int| 0 <= w < rest.len() && rest[w] == ri[i];
                    assert(leq(rest[w], s[s.len() - 1]));
                } else {
                    assert(ri[i] == x);
                }
            }
        }
        assert(r.to_multiset() =~= s.to_multiset().insert(x)) by {
            assert(ri.to_multiset() == rest.to_multiset().insert(x));
            assert(r.to_multiset() == ri.to_multiset().insert(s.last()));
            assert(s =~= rest.push(s.last()));
            assert(s.to_multiset() == rest.to_multiset().insert(s.last()));
        }
    }
}

/// Sorting by name yields a name-sorted sequence with the same contents.
pub proof fn lemma_sort_by_name_ensures(s: Seq<ContainerStatsV>)
    ensures
        sorted_by(spec_sort_by_name(s), |a: ContainerStatsV, b: ContainerStatsV| name_le(a, b)),
        spec_sort_by_name(s).to_multiset() == s.to_multiset(),
    decreases s.len(),
{
    broadcast use vstd::seq_lib::group_to_multiset_ensures;

    if s.len() == 0 {
        assert(spec_sort_by_name(s).to_multiset() =~= s.to_multiset());
    } else {
        let rest = s.drop_last();
        lemma_sort_by_name_ensures(rest);
        lemma_insert_by_name_sorted(spec_sort_by_name(rest), s.last());
        assert(s =~= rest.push(s.last()));
        assert(s.to_multiset() == rest.to_multiset().insert(s.last()));
    }
}

/// Insert a container row into a name-sorted vector, keeping it sorted.
fn insert_container_sorted(out: &mut Vec<ContainerStats>, x: ContainerStats)
    ensures
        container_views(final(out)@) == spec_insert_by_name(container_views(old(out)@), x@),
{
    let ghost s = container_views(out@);
    let mut j: usize = out.len();
    while j > 0 && !str_lex_le(&out[j - 1].name, &x.name)
        invariant
            j <= out.len(),
            s == container_views(out@),
            forall|k: int| j <= k < s.len() ==> !name_le(#[trigger] s[k], x@),
        decreases j,
    {
        assert(out@[j - 1]@ == s[j - 1 as int]);
        j -= 1;
    }
    proof {
        if j > 0 {
            assert(out@[j - 1]@ == s[j - 1 as int]);
        }
        lemma_insert_by_name_at(s, x@, j as int);
    }
    out.insert(j, x);
    proof {
        assert(container_views(out@) =~= s.subrange(0, j as int) + seq![x@] + s.subrange(
            j as int,
            s.len() as int,
        ));
    }
}

/// Sum of `cpu_percent` over a group of container observations.
pub open spec fn sum_cpu_percent(obs: Seq<ContainerStatsV>) -> int
    decreases obs.len(),
{
    if obs.len() == 0 {
        0
    } else {
        sum_cpu_percent(obs.drop_last()) + obs.last().cpu_percent
    }
}

/// Sum of `cpu_kernel_percent` over a group.
pub open spec fn sum_cpu_kernel_percent(obs: Seq<ContainerStatsV>) -> int
    decreases obs.len(),
{
    if obs.len() == 0 {
        0
    } else {
        sum_cpu_kernel_percent(obs.drop_last()) + obs.last().cpu_kernel_percent
    }
}

/// Sum of `cpu_user_percent` over a group.
pub open spec fn sum_cpu_user_percent(obs: Seq<ContainerStatsV>) -> int
    decreases obs.len(),
{
    if obs.len() == 0 {
        0
    } else {
        sum_cpu_user_percent(obs.drop_last()) + obs.last().cpu_user_percent
    }
}

/// Sum of `memory_usage_bytes` over a group.
pub open spec fn sum_memory_usage(obs: Seq<ContainerStatsV>) -> int
    decreases obs.len(),
{
    if obs.len() == 0 {
        0
    } else {
        sum_memory_usage(obs.drop_last()) + obs.last().memory_usage_bytes
    }
}

/// Sum of `memory_limit_bytes` over a group.
pub open spec fn sum_memory_limit(obs: Seq<ContainerStatsV>) -> int
    decreases obs.len(),
{
    if obs.len() == 0 {
        0
    } else {
        sum_memory_limit(obs.drop_last()) + obs.last().memory_limit_bytes
    }
}

/// Sum of `network_rx_bytes` over a group.
pub open spec fn sum_network_rx_bytes(obs: Seq<ContainerStatsV>) -> int
    decreases obs.len(),
{
    if obs.len() == 0 {
        0
    } else {
        sum_network_rx_bytes(obs.drop_last()) + obs.last().network_rx_bytes
    }
}

/// Sum of `network_tx_bytes` over a group.
pub open spec fn sum_network_tx_bytes(obs: Seq<ContainerStatsV>) -> int
    decreases obs.len(),
{
    if obs.len() == 0 {
        0
    } else {
        sum_network_tx_bytes(obs.drop_last()) + obs.last().network_tx_bytes
    }
}

/// Sum of `network_rx_packets` over a group.
pub open spec fn sum_network_rx_packets(obs: Seq<ContainerStatsV>) -> int
    decreases obs.len(),
{
    if obs.len() == 0 {
        0
    } else {
        sum_network_rx_packets(obs.drop_last()) + obs.last().network_rx_packets
    }
}

/// Sum of `network_tx_packets` over a group.
pub open spec fn sum_network_tx_packets(obs: Seq<ContainerStatsV>) -> int
    decreases obs.len(),
{
    if obs.len() == 0 {
        0
    } else {
        sum_network_tx_packets(obs.drop_last()) + obs.last().network_tx_packets
    }
}

/// Sum of `block_read_bytes` over a group.
pub open spec fn sum_block_read_bytes(obs: Seq<ContainerStatsV>) -> int
    decreases obs.len(),
{
    if obs.len() == 0 {
        0
    } else {
        sum_block_read_bytes(obs.drop_last()) + obs.last().block_read_bytes
    }
}

/// Sum of `block_write_bytes` over a group.
pub open spec fn sum_block_write_bytes(obs: Seq<ContainerStatsV>) -> int
    decreases obs.len(),
{
    if obs.len() == 0 {
        0
    } else {
        sum_block_write_bytes(obs.drop_last()) + obs.last().block_write_bytes
    }
}

/// Sum of `cpu_throttled_periods` over a group.
pub open spec fn sum_throttled_periods(obs: Seq<ContainerStatsV>) -> int
    decreases obs.len(),
{
    if obs.len() == 0 {
        0
    } else {
        sum_throttled_periods(obs.drop_last()) + obs.last().cpu_throttled_periods
    }
}

/// Sum of `cpu_throttled_time_ns` over a group.
pub open spec fn sum_throttled_time(obs: Seq<ContainerStatsV>) -> int
    decreases obs.len(),
{
    if obs.len() == 0 {
        0
    } else {
        sum_throttled_time(obs.drop_last()) + obs.last().cpu_throttled_time_ns
    }
}

/// The aggregate of one container's observations within a bucket:
/// identity from the first observation, gauges averaged (truncating),
/// counters summed (saturating), and everything else taken from the last
/// observation.
pub open spec fn spec_aggregate_one_container(obs: Seq<ContainerStatsV>) -> ContainerStatsV
    recommends
        obs.len() > 0,
{
    let n = obs.len() as int;
    ContainerStatsV {
        id: obs[0].id,
        name: obs[0].name,
        cpu_percent: (sum_cpu_percent(obs) / n) as u64,
        cpu_kernel_percent: (sum_cpu_kernel_percent(obs) / n) as u64,
        cpu_user_percent: (sum_cpu_user_percent(obs) / n) as u64,
        online_cpus: obs.last().online_cpus,
        memory_usage_bytes: (sum_memory_usage(obs) / n) as u64,
        memory_limit_bytes: (sum_memory_limit(obs) / n) as u64,
        state: obs.last().state,
        network_rx_bytes: sat_u64(sum_network_rx_bytes(obs)),
        network_tx_bytes: sat_u64(sum_network_tx_bytes(obs)),
        network_rx_packets: sat_u64(sum_network_rx_packets(obs)),
        network_tx_packets: sat_u64(sum_network_tx_packets(obs)),
        network_rx_errors: obs.last().network_rx_errors,
        network_tx_errors: obs.last().network_tx_errors,
        network_rx_dropped: obs.last().network_rx_dropped,
        network_tx_dropped: obs.last().network_tx_dropped,
        block_read_bytes: sat_u64(sum_block_read_bytes(obs)),
        block_write_bytes: sat_u64(sum_block_write_bytes(obs)),
        block_read_ops: obs.last().block_read_ops,
        block_write_ops: obs.last().block_write_ops,
        pids: obs.last().pids,
        pids_limit: obs.last().pids_limit,
        cpu_throttled: obs.last().cpu_throttled,
        cpu_throttled_periods: sat_u64(sum_throttled_periods(obs)),
        cpu_throttled_time_ns: sat_u64(sum_throttled_time(obs)),
        memory_max_usage_bytes: obs.last().memory_max_usage_bytes,
    }
}

/// Aggregate one container's observations within a bucket.
pub fn aggregate_one_container(refs: &[ContainerStats]) -> (r: ContainerStats)
    requires
        refs@.len() > 0,
    ensures
        r@ == spec_aggregate_one_container(container_views(refs@)),
{
    let ghost obs = container_views(refs@);
    let n = refs.len();
    let mut s_cpu: u128 = 0;
    let mut s_kernel: u128 = 0;
    let mut s_user: u128 = 0;
    let mut s_mem_usage: u128 = 0;
    let mut s_mem_limit: u128 = 0;
    let mut s_rx_bytes: u128 = 0;
    let mut s_tx_bytes: u128 = 0;
    let mut s_rx_packets: u128 = 0;
    let mut s_tx_packets: u128 = 0;
    let mut s_block_read: u128 = 0;
    let mut s_block_write: u128 = 0;
    let mut s_thr_periods: u128 = 0;
    let mut s_thr_time: u128 = 0;
    let mut i: usize = 0;
    while i < n
        invariant
            i <= n,
            n == refs@.len(),
            obs == container_views(refs@),
            obs.len() == n,
            s_cpu == sum_cpu_percent(obs.subrange(0, i as int)),
            s_kernel == sum_cpu_kernel_percent(obs.subrange(0, i as int)),
            s_user == sum_cpu_user_percent(obs.subrange(0, i as int)),
            s_mem_usage == sum_memory_usage(obs.subrange(0, i as int)),
            s_mem_limit == sum_memory_limit(obs.subrange(0, i as int)),
            s_rx_bytes == sum_network_rx_bytes(obs.subrange(0, i as int)),
            s_tx_bytes == sum_network_tx_bytes(obs.subrange(0, i as int)),
            s_rx_packets == sum_network_rx_packets(obs.subrange(0, i as int)),
            s_tx_packets == sum_network_tx_packets(obs.subrange(0, i as int)),
            s_block_read == sum_block_read_bytes(obs.subrange(0, i as int)),
            s_block_write == sum_block_write_bytes(obs.subrange(0, i as int)),
            s_thr_periods == sum_throttled_periods(obs.subrange(0, i as int)),
            s_thr_time == sum_throttled_time(obs.subrange(0, i as int)),
            s_cpu <= (i as int) * (u64::MAX as int),
            s_kernel <= (i as int) * (u64::MAX as int),
            s_user <= (i as int) * (u64::MAX as int),
            s_mem_usage <= (i as int) * (u64::MAX as int),
            s_mem_limit <= (i as int) * (u64::MAX as int),
            s_rx_bytes <= (i as int) * (u64::MAX as int),
            s_tx_bytes <= (i as int) * (u64::MAX as int),
            s_rx_packets <= (i as int) * (u64::MAX as int),
            s_tx_packets <= (i as int) * (u64::MAX as int),
            s_block_read <= (i as int) * (u64::MAX as int),
            s_block_write <= (i as int) * (u64::MAX as int),
            s_thr_periods <= (i as int) * (u64::MAX as int),
            s_thr_time <= (i as int) * (u64::MAX as int),
        decreases n - i,
    {
        proof {
            assert(obs.subrange(0, i + 1 as int).drop_last() =~= obs.subrange(0, i as int));
            assert(obs.subrange(0, i + 1 as int).last() == refs@[i as int]@);
            assert((i + 1 as int) * (u64::MAX as int) == (i as int) * (u64::MAX as int) + (
            u64::MAX as int)) by (nonlinear_arith);
        }
        s_cpu = s_cpu + refs[i].cpu_percent as u128;
        s_kernel = s_kernel + refs[i].cpu_kernel_percent as u128;
        s_user = s_user + refs[i].cpu_user_percent as u128;
        s_mem_usage = s_mem_usage + refs[i].memory_usage_bytes as u128;
        s_mem_limit = s_mem_limit + refs[i].memory_limit_bytes as u128;
        s_rx_bytes = s_rx_bytes + refs[i].network_rx_bytes as u128;
        s_tx_bytes = s_tx_bytes + refs[i].network_tx_bytes as u128;
        s_rx_packets = s_rx_packets + refs[i].network_rx_packets as u128;
        s_tx_packets = s_tx_packets + refs[i].network_tx_packets as u128;
        s_block_read = s_block_read + refs[i].block_read_bytes as u128;
        s_block_write = s_block_write + refs[i].block_write_bytes as u128;
        s_thr_periods = s_thr_periods + refs[i].cpu_throttled_periods as u128;
        s_thr_time = s_thr_time + refs[i].cpu_throttled_time_ns as u128;
        i += 1;
    }
    proof {
        assert(obs.subrange(0, n as int) =~= obs);
        assert(refs@[0]@ == obs[0]);
        assert(refs@[n - 1 as int]@ == obs.last());
    }
    let nn = n as u128;
    let first = &refs[0];
    let last = &refs[n - 1];
    let r = ContainerStats {
        id: first.id.clone(),
        name: first.name.clone(),
        cpu_percent: (s_cpu / nn) as u64,
        cpu_kernel_percent: (s_kernel / nn) as u64,
        cpu_user_percent: (s_user / nn) as u64,
        online_cpus: last.online_cpus,
        memory_usage_bytes: (s_mem_usage / nn) as u64,
        memory_limit_bytes: (s_mem_limit / nn) as u64,
        state: last.state,
        network_rx_bytes: saturate_u64(s_rx_bytes),
        network_tx_bytes: saturate_u64(s_tx_bytes),
        network_rx_packets: saturate_u64(s_rx_packets),
        network_tx_packets: saturate_u64(s_tx_packets),
        network_rx_errors: last.network_rx_errors,
        network_tx_errors: last.network_tx_errors,
        network_rx_dropped: last.network_rx_dropped,
        network_tx_dropped: last.network_tx_dropped,
        block_read_bytes: saturate_u64(s_block_read),
        block_write_bytes: saturate_u64(s_block_write),
        block_read_ops: last.block_read_ops,
        block_write_ops: last.block_write_ops,
        pids: last.pids,
        pids_limit: last.pids_limit,
        cpu_throttled: last.cpu_throttled,
        cpu_throttled_periods: saturate_u64(s_thr_periods),
        cpu_throttled_time_ns: saturate_u64(s_thr_time),
        memory_max_usage_bytes: last.memory_max_usage_bytes,
    };
    proof {
        lemma_div_le_max(s_cpu as int, n as int);
        lemma_div_le_max(s_kernel as int, n as int);
        lemma_div_le_max(s_user as int, n as int);
        lemma_div_le_max(s_mem_usage as int, n as int);
        lemma_div_le_max(s_mem_limit as int, n as int);
    }
    r
}

/// A quotient of a sum of at most `n` 64-bit terms by `n` fits in 64 bits.
proof fn lemma_div_le_max(sum: int, n: int)
    requires
        n > 0,
        0 <= sum <= n * (u64::MAX as int),
    ensures
        0 <= sum / n <= u64::MAX as int,
{
    assert(0 <= sum / n <= u64::MAX as int) by (nonlinear_arith)
        requires
            n > 0,
            0 <= sum <= n * (u64::MAX as int),
    ;
}

/// Clamp a wide sum into the unsigned 64-bit range.
fn saturate_u64(x: u128) -> (r: u64)
    ensures
        r == sat_u64(x as int),
{
    if x > u64::MAX as u128 {
        u64::MAX
    } else {
        x as u64
    }
}

/// What each field of a container group's aggregate is: counters are the
/// (saturating) sum of the source counters, gauges the truncating
/// arithmetic mean, the state and the remaining snapshot-like fields come
/// from the last observation, and the identity from the first.
pub proof fn lemma_container_group_semantics(obs: Seq<ContainerStatsV>)
    requires
        obs.len() > 0,
    ensures
        spec_aggregate_one_container(obs).id == obs[0].id,
        spec_aggregate_one_container(obs).name == obs[0].name,
        spec_aggregate_one_container(obs).cpu_percent == (sum_cpu_percent(obs) / obs.len() as int)
            as u64,
        spec_aggregate_one_container(obs).memory_usage_bytes == (sum_memory_usage(obs)
            / obs.len() as int) as u64,
        spec_aggregate_one_container(obs).memory_limit_bytes == (sum_memory_limit(obs)
            / obs.len() as int) as u64,
        spec_aggregate_one_container(obs).network_rx_bytes == sat_u64(sum_network_rx_bytes(obs)),
        spec_aggregate_one_container(obs).network_tx_bytes == sat_u64(sum_network_tx_bytes(obs)),
        spec_aggregate_one_container(obs).network_rx_packets == sat_u64(
            sum_network_rx_packets(obs),
        ),
        spec_aggregate_one_container(obs).network_tx_packets == sat_u64(
            sum_network_tx_packets(obs),
        ),
        spec_aggregate_one_container(obs).block_read_bytes == sat_u64(sum_block_read_bytes(obs)),
        spec_aggregate_one_container(obs).block_write_bytes == sat_u64(sum_block_write_bytes(obs)),
        spec_aggregate_one_container(obs).cpu_throttled_periods == sat_u64(
            sum_throttled_periods(obs),
        ),
        spec_aggregate_one_container(obs).cpu_throttled_time_ns == sat_u64(
            sum_throttled_time(obs),
        ),
        spec_aggregate_one_container(obs).state == obs.last().state,
        spec_aggregate_one_container(obs).pids == obs.last().pids,
        spec_aggregate_one_container(obs).memory_max_usage_bytes == obs.last().memory_max_usage_bytes,
{
}

/// The distinct container ids of a bucket, in order of first appearance.
pub open spec fn spec_distinct_ids(flat: Seq<ContainerStatsV>) -> Seq<Seq<char>>
    decreases flat.len(),
{
    if flat.len() == 0 {
        Seq::empty()
    } else {
        let rest = spec_distinct_ids(flat.drop_last());
        if rest.contains(flat.last().id) {
            rest
        } else {
            rest.push(flat.last().id)
        }
    }
}

/// The observations of one container id, in bucket order.
pub open spec fn spec_group(flat: Seq<ContainerStatsV>, id: Seq<char>) -> Seq<ContainerStatsV> {
    flat.filter(|c: ContainerStatsV| c.id == id)
}

/// Per-container aggregates of a bucket, one per distinct id, in order of
/// first appearance.
pub open spec fn spec_container_aggregates(flat: Seq<ContainerStatsV>) -> Seq<ContainerStatsV> {
    spec_distinct_ids(flat).map_values(
        |id: Seq<char>| spec_aggregate_one_container(spec_group(flat, id)),
    )
}

/// Per-container aggregates of a bucket, sorted by container name.
pub open spec fn spec_aggregate_containers(flat: Seq<ContainerStatsV>) -> Seq<ContainerStatsV> {
    spec_sort_by_name(spec_container_aggregates(flat))
}

/// Every distinct id occurs somewhere in the bucket.
proof fn lemma_distinct_id_occurs(flat: Seq<ContainerStatsV>, id: Seq<char>)
    requires
        spec_distinct_ids(flat).contains(id),
    ensures
        exists|i: int| 0 <= i < flat.len() && flat[i].id == id,
    decreases flat.len(),
{
    if flat.len() == 0 {
    } else {
        let rest = flat.drop_last();
        if spec_distinct_ids(rest).contains(id) {
            lemma_distinct_id_occurs(rest, id);
            let i = choose|i: int| 0 <= i < rest.len() && rest[i].id == id;
            assert(flat[i].id == id);
        } else {
            assert(flat.last().id == id);
            assert(flat[flat.len() - 1].id == id);
        }
    }
}

/// The group of a distinct id is non-empty, and all its rows carry that id.
pub proof fn lemma_distinct_id_group_nonempty(flat: Seq<ContainerStatsV>, id: Seq<char>)
    requires
        spec_distinct_ids(flat).contains(id),
    ensures
        spec_group(flat, id).len() > 0,
        forall|k: int|
            0 <= k < spec_group(flat, id).len() ==> (#[trigger] spec_group(flat, id)[k]).id == id,
{
    broadcast use vstd::prelude::Seq::lemma_filter_pred;
    broadcast use vstd::prelude::Seq::lemma_filter_contains;

    lemma_distinct_id_occurs(flat, id);
    let i = choose|i: int| 0 <= i < flat.len() && flat[i].id == id;
    let pred = |c: ContainerStatsV| c.id == id;
    assert(pred(flat[i]));
    assert(spec_group(flat, id).contains(flat[i]));
}

/// Does `ids` contain the given id string?
fn contains_id(ids: &Vec<String>, id: &String) -> (r: bool)
    ensures
        r == string_views(ids@).contains(id@),
{
    let mut j: usize = 0;
    while j < ids.len()
        invariant
            j <= ids.len(),
            forall|k: int| 0 <= k < j ==> ids@[k]@ != id@,
        decreases ids.len() - j,
    {
        if ids[j].eq(id) {
            assert(string_views(ids@)[j as int] == id@);
            return true;
        }
        j += 1;
    }
    assert(forall|k: int|
        0 <= k < string_views(ids@).len() ==> #[trigger] string_views(ids@)[k] != id@);
    false
}

/// Aggregate a flattened bucket of container observations: group by id,
/// aggregate each group, and sort the result by container name.
pub fn aggregate_container_groups(flat: &Vec<ContainerStats>) -> (r: Vec<ContainerStats>)
    ensures
        container_views(r@) == spec_aggregate_containers(container_views(flat@)),
{
    broadcast use vstd::prelude::Seq::lemma_filter_push;

    let ghost fv = container_views(flat@);
    // Distinct ids in order of first appearance.
    let mut ids: Vec<String> = Vec::new();
    let mut i: usize = 0;
    while i < flat.len()
        invariant
            i <= flat.len(),
            fv == container_views(flat@),
            fv.len() == flat@.len(),
            string_views(ids@) == spec_distinct_ids(fv.subrange(0, i as int)),
        decreases flat.len() - i,
    {
        proof {
            assert(fv.subrange(0, i + 1 as int).drop_last() =~= fv.subrange(0, i as int));
            assert(fv.subrange(0, i + 1 as int).last() == flat@[i as int]@);
        }
        let present = contains_id(&ids, &flat[i].id);
        if !present {
            ids.push(flat[i].id.clone());
            proof {
                assert(string_views(ids@) =~= spec_distinct_ids(fv.subrange(0, i as int)).push(
                    flat@[i as int]@.id,
                ));
            }
        }
        i += 1;
    }
    proof {
        assert(fv.subrange(0, fv.len() as int) =~= fv);
    }
    // One aggregate per distinct id.
    let mut grouped: Vec<ContainerStats> = Vec::new();
    let mut k: usize = 0;
    while k < ids.len()
        invariant
            k <= ids.len(),
            fv == container_views(flat@),
            fv.len() == flat@.len(),
            string_views(ids@) == spec_distinct_ids(fv),
            container_views(grouped@) == spec_container_aggregates(fv).subrange(0, k as int),
        decreases ids.len() - k,
    {
        let ghost idv = ids@[k as int]@;
        let mut group: Vec<ContainerStats> = Vec::new();
        let mut m: usize = 0;
        while m < flat.len()
            invariant
                m <= flat.len(),
                fv == container_views(flat@),
                fv.len() == flat@.len(),
                idv == ids@[k as int]@,
                k < ids@.len(),
                container_views(group@) == spec_group(fv.subrange(0, m as int), idv),
            decreases flat.len() - m,
        {
            proof {
                assert(fv.subrange(0, m + 1 as int) =~= fv.subrange(0, m as int).push(
                    flat@[m as int]@,
                ));
                vstd::prelude::Seq::lemma_filter_push(
                    fv.subrange(0, m as int),
                    flat@[m as int]@,
                    |c: ContainerStatsV| c.id == idv,
                );
            }
            if flat[m].id.eq(&ids[k]) {
                group.push(flat[m].duplicate());
                proof {
                    assert(container_views(group@) =~= spec_group(
                        fv.subrange(0, m as int),
                        idv,
                    ).push(flat@[m as int]@));
                }
            }
            m += 1;
        }
        proof {
            assert(fv.subrange(0, fv.len() as int) =~= fv);
            assert(container_views(group@) == spec_group(fv, idv));
            assert(string_views(ids@)[k as int] == idv);
            lemma_distinct_id_group_nonempty(fv, idv);
        }
        let agg = aggregate_one_container(group.as_slice());
        let ghost aggv = agg@;
        let ghost g0 = container_views(grouped@);
        grouped.push(agg);
        proof {
            assert(aggv == spec_aggregate_one_container(spec_group(fv, idv)));
            assert(spec_distinct_ids(fv)[k as int] == idv);
            assert(spec_container_aggregates(fv)[k as int] == spec_aggregate_one_container(
                spec_group(fv, idv),
            ));
            assert(container_views(grouped@) =~= g0.push(aggv));
            assert(container_views(grouped@) =~= spec_container_aggregates(fv).subrange(
                0,
                k + 1 as int,
            ));
        }
        k += 1;
    }
    proof {
        assert(spec_container_aggregates(fv).subrange(0, spec_container_aggregates(fv).len() as int)
            =~= spec_container_aggregates(fv));
    }
    // Sort by container name for deterministic output.
    let ghost cv0 = container_views(grouped@);
    let mut out: Vec<ContainerStats> = Vec::new();
    let mut w: usize = 0;
    while w < grouped.len()
        invariant
            w <= grouped.len(),
            cv0 == container_views(grouped@),
            cv0.len() == grouped@.len(),
            container_views(out@) == spec_sort_by_name(cv0.subrange(0, w as int)),
        decreases grouped.len() - w,
    {
        proof {
            assert(cv0.subrange(0, w + 1 as int).drop_last() =~= cv0.subrange(0, w as int));
            assert(cv0.subrange(0, w + 1 as int).last() == grouped@[w as int]@);
        }
        insert_container_sorted(&mut out, grouped[w].duplicate());
        w += 1;
    }
    proof {
        assert(cv0.subrange(0, cv0.len() as int) =~= cv0);
    }
    out
}

/// The CPU loads of a bucket of raw samples, in bucket order.
pub open spec fn spec_cpu_loads(ss: Seq<FullSystemSnapshotV>) -> Seq<u64>
    decreases ss.len(),
{
    if ss.len() == 0 {
        Seq::empty()
    } else {
        spec_cpu_loads(ss.drop_last()).push(ss.last().cpu.usage_percent)
    }
}

/// The used-memory readings of a bucket of raw samples, in bucket order.
pub open spec fn spec_memory_used(ss: Seq<FullSystemSnapshotV>) -> Seq<i64>
    decreases ss.len(),
{
    if ss.len() == 0 {
        Seq::empty()
    } else {
        spec_memory_used(ss.drop_last()).push(ss.last().ram.used as i64)
    }
}

/// All container observations of a bucket of raw samples, in bucket order.
pub open spec fn spec_flat_containers(ss: Seq<FullSystemSnapshotV>) -> Seq<ContainerStatsV>
    decreases ss.len(),
{
    if ss.len() == 0 {
        Seq::empty()
    } else {
        spec_flat_containers(ss.drop_last()) + ss.last().containers
    }
}

/// The aggregate of a non-empty bucket of raw samples: truncating mean,
/// minimum and maximum of the scalars, per-container aggregation, and the
/// last observation of the opaque columns.
pub open spec fn spec_aggregate_snapshots(
    ss: Seq<FullSystemSnapshotV>,
    bucket_start_ts: i64,
    resolution_seconds: i32,
) -> AggregatedSnapshotV
    recommends
        ss.len() > 0,
{
    AggregatedSnapshotV {
        created_at: bucket_start_ts,
        resolution_seconds: resolution_seconds,
        cpu_load_avg: spec_mean_u64(spec_cpu_loads(ss)) as u64,
        cpu_load_min: seq_min_u64(spec_cpu_loads(ss)),
        cpu_load_max: seq_max_u64(spec_cpu_loads(ss)),
        memory_used_avg: spec_mean_i64(spec_memory_used(ss)) as i64,
        memory_used_min: seq_min_i64(spec_memory_used(ss)),
        memory_used_max: seq_max_i64(spec_memory_used(ss)),
        containers: spec_aggregate_containers(spec_flat_containers(ss)),
        storage: ss.last().storage,
        network: ss.last().network,
        system: ss.last().system,
    }
}

/// Aggregate one bucket of raw samples into one row; `None` exactly when
/// the bucket is empty. The resulting scalars satisfy `min <= avg <= max`.
pub fn aggregate_snapshots(
    snapshots: &[FullSystemSnapshot],
    bucket_start_ts: i64,
    resolution_seconds: i32,
) -> (r: Option<AggregatedSnapshot>)
    requires
        forall|i: int|
            0 <= i < snapshots@.len() ==> (#[trigger] snapshots@[i]).ram.used <= i64::MAX,
    ensures
        r.is_some() <==> snapshots@.len() > 0,
        r matches Some(a) ==> a@ == spec_aggregate_snapshots(
            snapshot_views(snapshots@),
            bucket_start_ts,
            resolution_seconds,
        ),
        r matches Some(a) ==> a@.cpu_load_min <= a@.cpu_load_avg <= a@.cpu_load_max,
        r matches Some(a) ==> a@.memory_used_min <= a@.memory_used_avg <= a@.memory_used_max,
{
    let ghost sv = snapshot_views(snapshots@);
    if snapshots.len() == 0 {
        return None;
    }
    let n = snapshots.len();
    let mut loads: Vec<u64> = Vec::new();
    let mut mems: Vec<i64> = Vec::new();
    let mut flat: Vec<ContainerStats> = Vec::new();
    let mut i: usize = 0;
    while i < n
        invariant
            i <= n,
            n == snapshots@.len(),
            sv == snapshot_views(snapshots@),
            sv.len() == n,
            forall|j: int| 0 <= j < n ==> (#[trigger] snapshots@[j]).ram.used <= i64::MAX,
            loads@.len() == i,
            mems@.len() == i,
            loads@ == spec_cpu_loads(sv.subrange(0, i as int)),
            mems@ == spec_memory_used(sv.subrange(0, i as int)),
            forall|j: int| 0 <= j < i ==> #[trigger] mems@[j] >= 0,
            container_views(flat@) == spec_flat_containers(sv.subrange(0, i as int)),
        decreases n - i,
    {
        proof {
            assert(sv.subrange(0, i + 1 as int).drop_last() =~= sv.subrange(0, i as int));
            assert(sv.subrange(0, i + 1 as int).last() == snapshots@[i as int]@);
        }
        loads.push(snapshots[i].cpu.usage_percent);
        proof {
            assert(snapshots@[i as int].ram.used <= i64::MAX);
            assert(snapshots@[i as int].ram.used as i64 >= 0);
        }
        mems.push(snapshots[i].ram.used as i64);
        let cs = &snapshots[i].containers;
        let ghost prev = flat@;
        let ghost base = flat@.len();
        let mut j: usize = 0;
        while j < cs.len()
            invariant
                j <= cs.len(),
                i < snapshots@.len(),
                cs@ == snapshots@[i as int].containers@,
                flat@.len() == base + j,
                base == prev.len(),
                forall|k: int| 0 <= k < base ==> #[trigger] flat@[k] == prev[k],
                forall|k: int| 0 <= k < j ==> (#[trigger] flat@[base + k])@ == cs@[k]@,
            decreases cs.len() - j,
        {
            flat.push(cs[j].duplicate());
            j += 1;
        }
        proof {
            assert(i < sv.len());
            assert(sv[i as int] == snapshots@[i as int]@);
            assert(sv[i as int].containers.len() == cs@.len());
            assert forall|k: int| 0 <= k < flat@.len() implies container_views(flat@)[k]
                == (container_views(prev) + sv[i as int].containers)[k] by {
                if k < base {
                    assert(flat@[k] == prev[k]);
                } else {
                    let m = k - base;
                    assert(flat@[base + m]@ == cs@[m]@);
                    assert(sv[i as int].containers[m] == snapshots@[i as int].containers@[m]@);
                }
            }
            assert(container_views(flat@) =~= container_views(prev) + sv[i as int].containers);
            assert(container_views(flat@) == spec_flat_containers(sv.subrange(0, i + 1 as int)));
        }
        i += 1;
    }
    proof {
        assert(sv.subrange(0, n as int) =~= sv);
        assert(sv.last() == snapshots@[n - 1 as int]@);
    }
    let containers = aggregate_container_groups(&flat);
    let last = &snapshots[n - 1];
    let cpu_load_avg = mean_u64(loads.as_slice());
    let cpu_load_min = min_u64(loads.as_slice());
    let cpu_load_max = max_u64(loads.as_slice());
    let memory_used_avg = mean_i64(mems.as_slice());
    let memory_used_min = min_i64(mems.as_slice());
    let memory_used_max = max_i64(mems.as_slice());
    proof {
        lemma_mean_bounds_u64(loads@);
        lemma_mean_bounds_i64(mems@);
    }
    Some(
        AggregatedSnapshot {
            created_at: bucket_start_ts,
            resolution_seconds,
            cpu_load_avg,
            cpu_load_min,
            cpu_load_max,
            memory_used_avg,
            memory_used_min,
            memory_used_max,
            containers,
            storage: last.storage.duplicate(),
            network: last.network.duplicate(),
            system: last.system.duplicate(),
        },
    )
}

/// The used-memory column of a bucket, elementwise: the reading of each
/// sample, and non-negative whenever each reading fits the signed column.
pub proof fn lemma_memory_used_pointwise(ss: Seq<FullSystemSnapshotV>)
    ensures
        spec_memory_used(ss).len() == ss.len(),
        forall|q: int|
            0 <= q < ss.len() ==> #[trigger] spec_memory_used(ss)[q] == (ss[q].ram.used as i64),
    decreases ss.len(),
{
    if ss.len() == 0 {
    } else {
        let rest = ss.drop_last();
        lemma_memory_used_pointwise(rest);
        assert(forall|q: int| 0 <= q < rest.len() ==> rest[q] == ss[q]);
    }
}

/// The scalar columns of a bucket of 1-min rows, in bucket order.
pub open spec fn spec_cpu_avgs(aggs: Seq<AggregatedSnapshotV>) -> Seq<u64>
    decreases aggs.len(),
{
    if aggs.len() == 0 {
        Seq::empty()
    } else {
        spec_cpu_avgs(aggs.drop_last()).push(aggs.last().cpu_load_avg)
    }
}

pub open spec fn spec_cpu_mins(aggs: Seq<AggregatedSnapshotV>) -> Seq<u64>
    decreases aggs.len(),
{
    if aggs.len() == 0 {
        Seq::empty()
    } else {
        spec_cpu_mins(aggs.drop_last()).push(aggs.last().cpu_load_min)
    }
}

pub open spec fn spec_cpu_maxes(aggs: Seq<AggregatedSnapshotV>) -> Seq<u64>
    decreases aggs.len(),
{
    if aggs.len() == 0 {
        Seq::empty()
    } else {
        spec_cpu_maxes(aggs.drop_last()).push(aggs.last().cpu_load_max)
    }
}

pub open spec fn spec_mem_avgs(aggs: Seq<AggregatedSnapshotV>) -> Seq<i64>
    decreases aggs.len(),
{
    if aggs.len() == 0 {
        Seq::empty()
    } else {
        spec_mem_avgs(aggs.drop_last()).push(aggs.last().memory_used_avg)
    }
}

pub open spec fn spec_mem_mins(aggs: Seq<AggregatedSnapshotV>) -> Seq<i64>
    decreases aggs.len(),
{
    if aggs.len() == 0 {
        Seq::empty()
    } else {
        spec_mem_mins(aggs.drop_last()).push(aggs.last().memory_used_min)
    }
}

pub open spec fn spec_mem_maxes(aggs: Seq<AggregatedSnapshotV>) -> Seq<i64>
    decreases aggs.len(),
{
    if aggs.len() == 0 {
        Seq::empty()
    } else {
        spec_mem_maxes(aggs.drop_last()).push(aggs.last().memory_used_max)
    }
}

/// All container rows of a bucket of 1-min rows, in bucket order.
pub open spec fn spec_flat_containers_agg(aggs: Seq<AggregatedSnapshotV>) -> Seq<ContainerStatsV>
    decreases aggs.len(),
{
    if aggs.len() == 0 {
        Seq::empty()
    } else {
        spec_flat_containers_agg(aggs.drop_last()) + aggs.last().containers
    }
}

/// The scalar columns of a bucket of rows, elementwise.
pub proof fn lemma_agg_scalar_pointwise(aggs: Seq<AggregatedSnapshotV>)
    ensures
        spec_cpu_avgs(aggs).len() == aggs.len(),
        spec_cpu_mins(aggs).len() == aggs.len(),
        spec_cpu_maxes(aggs).len() == aggs.len(),
        spec_mem_avgs(aggs).len() == aggs.len(),
        spec_mem_mins(aggs).len() == aggs.len(),
        spec_mem_maxes(aggs).len() == aggs.len(),
        forall|q: int|
            0 <= q < aggs.len() ==> #[trigger] spec_cpu_avgs(aggs)[q] == aggs[q].cpu_load_avg,
        forall|q: int|
            0 <= q < aggs.len() ==> #[trigger] spec_cpu_mins(aggs)[q] == aggs[q].cpu_load_min,
        forall|q: int|
            0 <= q < aggs.len() ==> #[trigger] spec_cpu_maxes(aggs)[q] == aggs[q].cpu_load_max,
        forall|q: int|
            0 <= q < aggs.len() ==> #[trigger] spec_mem_avgs(aggs)[q] == aggs[q].memory_used_avg,
        forall|q: int|
            0 <= q < aggs.len() ==> #[trigger] spec_mem_mins(aggs)[q] == aggs[q].memory_used_min,
        forall|q: int|
            0 <= q < aggs.len() ==> #[trigger] spec_mem_maxes(aggs)[q] == aggs[q].memory_used_max,
    decreases aggs.len(),
{
    if aggs.len() == 0 {
    } else {
        let rest = aggs.drop_last();
        lemma_agg_scalar_pointwise(rest);
        assert(forall|q: int| 0 <= q < rest.len() ==> rest[q] == aggs[q]);
    }
}

/// The roll-up of a non-empty bucket of finer rows: the mean of the
/// sources' averages (equal-width windows), the least minimum, the
/// greatest maximum, per-container aggregation, and the last observation
/// of the opaque columns.
pub open spec fn spec_aggregate_aggregated(
    aggs: Seq<AggregatedSnapshotV>,
    bucket_start_ts: i64,
    resolution_seconds: i32,
) -> AggregatedSnapshotV
    recommends
        aggs.len() > 0,
{
    AggregatedSnapshotV {
        created_at: bucket_start_ts,
        resolution_seconds: resolution_seconds,
        cpu_load_avg: spec_mean_u64(spec_cpu_avgs(aggs)) as u64,
        cpu_load_min: seq_min_u64(spec_cpu_mins(aggs)),
        cpu_load_max: seq_max_u64(spec_cpu_maxes(aggs)),
        memory_used_avg: spec_mean_i64(spec_mem_avgs(aggs)) as i64,
        memory_used_min: seq_min_i64(spec_mem_mins(aggs)),
        memory_used_max: seq_max_i64(spec_mem_maxes(aggs)),
        containers: spec_aggregate_containers(spec_flat_containers_agg(aggs)),
        storage: aggs.last().storage,
        network: aggs.last().network,
        system: aggs.last().system,
    }
}

/// If every element of `ys` is bounded by the matching element of `xs`,
/// the minima are ordered the same way.
proof fn lemma_pointwise_min_u64(ys: Seq<u64>, xs: Seq<u64>)
    requires
        ys.len() == xs.len(),
        ys.len() > 0,
        forall|i: int| 0 <= i < ys.len() ==> #[trigger] ys[i] <= xs[i],
    ensures
        seq_min_u64(ys) <= seq_min_u64(xs),
{
    lemma_min_max_members_u64(xs);
    lemma_min_max_members_u64(ys);
    let w = choose|w: int| 0 <= w < xs.len() && xs[w] == seq_min_u64(xs);
    assert(seq_min_u64(ys) <= ys[w]);
}

/// If every element of `ys` dominates the matching element of `xs`,
/// the maxima are ordered the same way.
proof fn lemma_pointwise_max_u64(ys: Seq<u64>, xs: Seq<u64>)
    requires
        ys.len() == xs.len(),
        ys.len() > 0,
        forall|i: int| 0 <= i < ys.len() ==> #[trigger] ys[i] >= xs[i],
    ensures
        seq_max_u64(ys) >= seq_max_u64(xs),
{
    lemma_min_max_members_u64(xs);
    lemma_min_max_members_u64(ys);
    let w = choose|w: int| 0 <= w < xs.len() && xs[w] == seq_max_u64(xs);
    assert(seq_max_u64(ys) >= ys[w]);
}

proof fn lemma_pointwise_min_i64(ys: Seq<i64>, xs: Seq<i64>)
    requires
        ys.len() == xs.len(),
        ys.len() > 0,
        forall|i: int| 0 <= i < ys.len() ==> #[trigger] ys[i] <= xs[i],
    ensures
        seq_min_i64(ys) <= seq_min_i64(xs),
{
    lemma_min_max_members_i64(xs);
    lemma_min_max_members_i64(ys);
    let w = choose|w: int| 0 <= w < xs.len() && xs[w] == seq_min_i64(xs);
    assert(seq_min_i64(ys) <= ys[w]);
}

proof fn lemma_pointwise_max_i64(ys: Seq<i64>, xs: Seq<i64>)
    requires
        ys.len() == xs.len(),
        ys.len() > 0,
        forall|i: int| 0 <= i < ys.len() ==> #[trigger] ys[i] >= xs[i],
    ensures
        seq_max_i64(ys) >= seq_max_i64(xs),
{
    lemma_min_max_members_i64(xs);
    lemma_min_max_members_i64(ys);
    let w = choose|w: int| 0 <= w < xs.len() && xs[w] == seq_max_i64(xs);
    assert(seq_max_i64(ys) >= ys[w]);
}

/// Roll one bucket of finer aggregated rows up into one coarser row;
/// `None` exactly when the bucket is empty. When every source row is
/// well-formed (its minimum at most its average at most its maximum), the
/// rolled-up scalars are well-formed too.
pub fn aggregate_aggregated_snapshots(
    aggs: &[AggregatedSnapshot],
    bucket_start_ts: i64,
    resolution_seconds: i32,
) -> (r: Option<AggregatedSnapshot>)
    requires
        forall|i: int| 0 <= i < aggs@.len() ==> (#[trigger] aggs@[i]).memory_used_avg >= 0,
    ensures
        r.is_some() <==> aggs@.len() > 0,
        r matches Some(a) ==> a@ == spec_aggregate_aggregated(
            aggregated_views(aggs@),
            bucket_start_ts,
            resolution_seconds,
        ),
        r matches Some(a) ==> ((forall|i: int|
            0 <= i < aggs@.len() ==> {
                let s = (#[trigger] aggs@[i])@;
                s.cpu_load_min <= s.cpu_load_avg <= s.cpu_load_max
                    && s.memory_used_min <= s.memory_used_avg <= s.memory_used_max
            }) ==> (a@.cpu_load_min <= a@.cpu_load_avg <= a@.cpu_load_max
                && a@.memory_used_min <= a@.memory_used_avg <= a@.memory_used_max)),
{
    let ghost av = aggregated_views(aggs@);
    if aggs.len() == 0 {
        return None;
    }
    let n = aggs.len();
    let mut cpu_avgs: Vec<u64> = Vec::new();
    let mut cpu_mins: Vec<u64> = Vec::new();
    let mut cpu_maxes: Vec<u64> = Vec::new();
    let mut mem_avgs: Vec<i64> = Vec::new();
    let mut mem_mins: Vec<i64> = Vec::new();
    let mut mem_maxes: Vec<i64> = Vec::new();
    let mut flat: Vec<ContainerStats> = Vec::new();
    let mut i: usize = 0;
    while i < n
        invariant
            i <= n,
            n == aggs@.len(),
            av == aggregated_views(aggs@),
            av.len() == n,
            forall|j: int| 0 <= j < n ==> (#[trigger] aggs@[j]).memory_used_avg >= 0,
            cpu_avgs@.len() == i,
            cpu_mins@.len() == i,
            cpu_maxes@.len() == i,
            mem_avgs@.len() == i,
            mem_mins@.len() == i,
            mem_maxes@.len() == i,
            cpu_avgs@ == spec_cpu_avgs(av.subrange(0, i as int)),
            cpu_mins@ == spec_cpu_mins(av.subrange(0, i as int)),
            cpu_maxes@ == spec_cpu_maxes(av.subrange(0, i as int)),
            mem_avgs@ == spec_mem_avgs(av.subrange(0, i as int)),
            mem_mins@ == spec_mem_mins(av.subrange(0, i as int)),
            mem_maxes@ == spec_mem_maxes(av.subrange(0, i as int)),
            forall|j: int| 0 <= j < i ==> #[trigger] mem_avgs@[j] >= 0,
            forall|j: int| 0 <= j < i ==> #[trigger] cpu_avgs@[j] == av[j].cpu_load_avg,
            forall|j: int| 0 <= j < i ==> #[trigger] cpu_mins@[j] == av[j].cpu_load_min,
            forall|j: int| 0 <= j < i ==> #[trigger] cpu_maxes@[j] == av[j].cpu_load_max,
            forall|j: int| 0 <= j < i ==> #[trigger] mem_avgs@[j] == av[j].memory_used_avg,
            forall|j: int| 0 <= j < i ==> #[trigger] mem_mins@[j] == av[j].memory_used_min,
            forall|j: int| 0 <= j < i ==> #[trigger] mem_maxes@[j] == av[j].memory_used_max,
            container_views(flat@) == spec_flat_containers_agg(av.subrange(0, i as int)),
        decreases n - i,
    {
        proof {
            assert(av.subrange(0, i + 1 as int).drop_last() =~= av.subrange(0, i as int));
            assert(av.subrange(0, i + 1 as int).last() == aggs@[i as int]@);
        }
        cpu_avgs.push(aggs[i].cpu_load_avg);
        cpu_mins.push(aggs[i].cpu_load_min);
        cpu_maxes.push(aggs[i].cpu_load_max);
        mem_avgs.push(aggs[i].memory_used_avg);
        mem_mins.push(aggs[i].memory_used_min);
        mem_maxes.push(aggs[i].memory_used_max);
        let cs = &aggs[i].containers;
        let ghost prev = flat@;
        let ghost base = flat@.len();
        let mut j: usize = 0;
        while j < cs.len()
            invariant
                j <= cs.len(),
                i < aggs@.len(),
                cs@ == aggs@[i as int].containers@,
                flat@.len() == base + j,
                base == prev.len(),
                forall|k: int| 0 <= k < base ==> #[trigger] flat@[k] == prev[k],
                forall|k: int| 0 <= k < j ==> (#[trigger] flat@[base + k])@ == cs@[k]@,
            decreases cs.len() - j,
        {
            flat.push(cs[j].duplicate());
            j += 1;
        }
        proof {
            assert(i < av.len());
            assert(av[i as int] == aggs@[i as int]@);
            assert(av[i as int].containers.len() == cs@.len());
            assert forall|k: int| 0 <= k < flat@.len() implies container_views(flat@)[k]
                == (container_views(prev) + av[i as int].containers)[k] by {
                if k < base {
                    assert(flat@[k] == prev[k]);
                } else {
                    let m = k - base;
                    assert(flat@[base + m]@ == cs@[m]@);
                    assert(av[i as int].containers[m] == aggs@[i as int].containers@[m]@);
                }
            }
            assert(container_views(flat@) =~= container_views(prev) + av[i as int].containers);
            assert(container_views(flat@) == spec_flat_containers_agg(
                av.subrange(0, i + 1 as int),
            ));
        }
        i += 1;
    }
    proof {
        assert(av.subrange(0, n as int) =~= av);
        assert(av.last() == aggs@[n - 1 as int]@);
    }
    let containers = aggregate_container_groups(&flat);
    let last = &aggs[n - 1];
    let cpu_load_avg = mean_u64(cpu_avgs.as_slice());
    let cpu_load_min = min_u64(cpu_mins.as_slice());
    let cpu_load_max = max_u64(cpu_maxes.as_slice());
    let memory_used_avg = mean_i64(mem_avgs.as_slice());
    let memory_used_min = min_i64(mem_mins.as_slice());
    let memory_used_max = max_i64(mem_maxes.as_slice());
    proof {
        if forall|q: int|
            0 <= q < aggs@.len() ==> {
                let s = (#[trigger] aggs@[q])@;
                s.cpu_load_min <= s.cpu_load_avg <= s.cpu_load_max
                    && s.memory_used_min <= s.memory_used_avg <= s.memory_used_max
            } {
            assert forall|q: int| 0 <= q < n implies #[trigger] cpu_mins@[q] <= cpu_avgs@[q]
                && cpu_avgs@[q] <= cpu_maxes@[q] by {
                assert(aggs@[q]@.cpu_load_min <= aggs@[q]@.cpu_load_avg <= aggs@[q]@.cpu_load_max);
            }
            assert forall|q: int| 0 <= q < n implies #[trigger] mem_mins@[q] <= mem_avgs@[q]
                && mem_avgs@[q] <= mem_maxes@[q] by {
                assert(aggs@[q]@.memory_used_min <= aggs@[q]@.memory_used_avg <= aggs@[q]@.memory_used_max);
            }
            lemma_mean_bounds_u64(cpu_avgs@);
            lemma_mean_bounds_i64(mem_avgs@);
            lemma_pointwise_min_u64(cpu_mins@, cpu_avgs@);
            lemma_pointwise_max_u64(cpu_maxes@, cpu_avgs@);
            lemma_pointwise_min_i64(mem_mins@, mem_avgs@);
            lemma_pointwise_max_i64(mem_maxes@, mem_avgs@);
        }
    }
    Some(
        AggregatedSnapshot {
            created_at: bucket_start_ts,
            resolution_seconds,
            cpu_load_avg,
            cpu_load_min,
            cpu_load_max,
            memory_used_avg,
            memory_used_min,
            memory_used_max,
            containers,
            storage: last.storage.duplicate(),
            network: last.network.duplicate(),
            system: last.system.duplicate(),
        },
    )
}

} // verus!
