//! Checkpoint tables and the queries that move a range from one side of a
//! table to the other.

use std::ops::Range;
use vstd::prelude::*;

verus! {

/// A query named an offset past the last checkpoint of a table (or the table
/// was empty).
#[derive(Debug, Clone, Copy, PartialEq, Eq)]
pub struct RangeOutOfBounds;

/// Every entry is at most every later entry.
pub open spec fn sorted(v: Seq<usize>) -> bool {
    forall|i: int, j: int| 0 <= i <= j < v.len() ==> v[i] <= v[j]
}

/// For a sorted table: the first index whose entry is at least `x`
/// (the table's length when there is none).
pub open spec fn lower_index(v: Seq<usize>, x: usize) -> int
    decreases v.len(),
{
    if v.len() == 0 {
        0
    } else if v.last() < x {
        v.len() as int
    } else {
        lower_index(v.drop_last(), x)
    }
}

/// For a sorted table: the first index whose entry is above `x`
/// (the table's length when there is none).
pub open spec fn upper_index(v: Seq<usize>, x: usize) -> int
    decreases v.len(),
{
    if v.len() == 0 {
        0
    } else if v.last() <= x {
        v.len() as int
    } else {
        upper_index(v.drop_last(), x)
    }
}

/// Both ends of a query lie within the table: `0 <= start, end <= last entry`.
pub open spec fn in_bounds(v: Seq<usize>, start: usize, end: usize) -> bool {
    v.len() > 0 && start <= v.last() && end <= v.last()
}

/// The index where a range of values starts in a sorted table: the earliest
/// index holding `start` (or the first one past it).
pub open spec fn convert_start(v: Seq<usize>, start: usize) -> int {
    lower_index(v, start)
}

/// The index where a range of values ends in a sorted table: for an empty
/// range, its start; otherwise the latest index at or after the start holding
/// `end` (or, when no entry there equals `end`, the first one past it).
pub open spec fn convert_end(v: Seq<usize>, start: usize, end: usize) -> int {
    let s = lower_index(v, start);
    if end == start {
        s
    } else {
        let u0 = upper_index(v, end);
        let u = if u0 < s { s } else { u0 };
        if u > s && v[u - 1] == end { u - 1 } else { u }
    }
}

/// What `convert_range` returns.
pub open spec fn convert_result(v: Seq<usize>, r: Range<usize>) -> Result<Range<usize>, RangeOutOfBounds> {
    if in_bounds(v, r.start, r.end) {
        Ok(Range { start: convert_start(v, r.start) as usize, end: convert_end(v, r.start, r.end) as usize })
    } else {
        Err(RangeOutOfBounds)
    }
}

/// What `invert_idx` returns.
pub open spec fn invert_result(i: Seq<usize>, o: Seq<usize>, r: Range<usize>) -> Result<Range<usize>, RangeOutOfBounds> {
    if in_bounds(o, r.start, r.end) {
        Ok(Range { start: i[convert_start(o, r.start)], end: i[convert_end(o, r.start, r.end)] })
    } else {
        Err(RangeOutOfBounds)
    }
}

proof fn lemma_lower_index(v: Seq<usize>, x: usize)
    requires
        sorted(v),
    ensures
        0 <= lower_index(v, x) <= v.len(),
        forall|j: int| 0 <= j < lower_index(v, x) ==> v[j] < x,
        lower_index(v, x) < v.len() ==> v[lower_index(v, x)] >= x,
    decreases v.len(),
{
    if v.len() > 0 {
        if v.last() >= x {
            let w = v.drop_last();
            assert(sorted(w));
            lemma_lower_index(w, x);
            assert(forall|j: int| 0 <= j < w.len() ==> w[j] == v[j]);
        } else {
            assert(forall|j: int| 0 <= j < v.len() ==> #[trigger] v[j] <= v[v.len() - 1]);
        }
    }
}

proof fn lemma_upper_index(v: Seq<usize>, x: usize)
    requires
        sorted(v),
    ensures
        0 <= upper_index(v, x) <= v.len(),
        forall|j: int| 0 <= j < upper_index(v, x) ==> v[j] <= x,
        upper_index(v, x) < v.len() ==> v[upper_index(v, x)] > x,
    decreases v.len(),
{
    if v.len() > 0 {
        if v.last() > x {
            let w = v.drop_last();
            assert(sorted(w));
            lemma_upper_index(w, x);
            assert(forall|j: int| 0 <= j < w.len() ==> w[j] == v[j]);
        } else {
            assert(forall|j: int| 0 <= j < v.len() ==> #[trigger] v[j] <= v[v.len() - 1]);
        }
    }
}

proof fn lemma_convert_bounds(v: Seq<usize>, start: usize, end: usize)
    requires
        sorted(v),
        in_bounds(v, start, end),
    ensures
        0 <= convert_start(v, start) <= convert_end(v, start, end) < v.len(),
{
    lemma_lower_index(v, start);
    lemma_upper_index(v, end);
}

/// First index in `from..v.len()` whose entry is at least `x`.
fn first_at_least(v: &[usize], from: usize, x: usize) -> (r: usize)
    requires
        sorted(v@),
        from <= v@.len(),
    ensures
        from <= r <= v@.len(),
        forall|j: int| from <= j < r ==> v@[j] < x,
        r < v@.len() ==> v@[r as int] >= x,
{
    let mut lo = from;
    let mut hi = v.len();
    while lo < hi
        invariant
            from <= lo <= hi <= v@.len(),
            sorted(v@),
            forall|j: int| from <= j < lo ==> v@[j] < x,
            hi < v@.len() ==> v@[hi as int] >= x,
        decreases hi - lo,
    {
        let mid = lo + (hi - lo) / 2;
        if v[mid] < x {
            lo = mid + 1;
        } else {
            hi = mid;
        }
    }
    lo
}

/// First index in `from..v.len()` whose entry is above `x`.
fn first_above(v: &[usize], from: usize, x: usize) -> (r: usize)
    requires
        sorted(v@),
        from <= v@.len(),
    ensures
        from <= r <= v@.len(),
        forall|j: int| from <= j < r ==> v@[j] <= x,
        r < v@.len() ==> v@[r as int] > x,
{
    let mut lo = from;
    let mut hi = v.len();
    while lo < hi
        invariant
            from <= lo <= hi <= v@.len(),
            sorted(v@),
            forall|j: int| from <= j < lo ==> v@[j] <= x,
            hi < v@.len() ==> v@[hi as int] > x,
        decreases hi - lo,
    {
        let mid = lo + (hi - lo) / 2;
        if v[mid] <= x {
            lo = mid + 1;
        } else {
            hi = mid;
        }
    }
    lo
}

/// Maps a range of values to the range of indices of a sorted table that it
/// covers, widening over repeated entries: the start moves to the earliest
/// entry equal to it, the end (of a non-empty range) to the latest. An empty
/// range stays empty, at its start. Fails when either end lies past the last
/// entry.
pub fn convert_range(v: &[usize], r: &Range<usize>) -> (res: Result<Range<usize>, RangeOutOfBounds>)
    requires
        sorted(v@),
    ensures
        res == convert_result(v@, *r),
{
    let n = v.len();
    if n == 0 || r.start > v[n - 1] || r.end > v[n - 1] {
        return Err(RangeOutOfBounds);
    }
    let s = first_at_least(v, 0, r.start);
    proof {
        lemma_lower_index(v@, r.start);
        assert(s as int == convert_start(v@, r.start));
    }
    if r.start == r.end {
        return Ok(Range { start: s, end: s });
    }
    let u = first_above(v, s, r.end);
    let e = if u > s && v[u - 1] == r.end {
        u - 1
    } else {
        u
    };
    proof {
        lemma_upper_index(v@, r.end);
        let s0 = convert_start(v@, r.start);
        let u0 = upper_index(v@, r.end);
        let uu = if u0 < s0 { s0 } else { u0 };
        if (u as int) < uu {
            assert(v@[u as int] > r.end);
        } else if (u as int) > uu {
            if u0 < s0 {
                assert(v@[s as int] >= r.start);
            }
            assert(v@[uu] > r.end);
        }
        assert(u as int == uu);
    }
    Ok(Range { start: s, end: e })
}

/// The pair of entries at the two indices of `r`.
pub fn lookup_range(v: &[usize], r: &Range<usize>) -> (res: Range<usize>)
    requires
        r.start < v@.len(),
        r.end < v@.len(),
    ensures
        res.start == v@[r.start as int],
        res.end == v@[r.end as int],
{
    Range { start: v[r.start], end: v[r.end] }
}

/// Maps a range on the `o` side of a table of paired checkpoints (`i[k]`
/// pairs with `o[k]`) to the `i` side, taking the widest range of checkpoints
/// that the query's ends select.
pub fn invert_idx(i: &[usize], o: &[usize], r: &Range<usize>) -> (res: Result<Range<usize>, RangeOutOfBounds>)
    requires
        i@.len() == o@.len(),
        sorted(o@),
    ensures
        res == invert_result(i@, o@, *r),
{
    if o.len() == 0 {
        return Err(RangeOutOfBounds);
    }
    match convert_range(o, r) {
        Ok(idx) => {
            proof {
                lemma_convert_bounds(o@, r.start, r.end);
            }
            Ok(lookup_range(i, &idx))
        },
        Err(e) => Err(e),
    }
}

/// For a sorted table and two indices `a <= b` with `v[a] < v[b]`: the
/// range of values `v[a]..v[b]` selects indices that enclose `a..b`.
proof fn lemma_anchor(v: Seq<usize>, a: int, b: int)
    requires
        sorted(v),
        0 <= a <= b < v.len(),
        v[a] < v[b],
    ensures
        in_bounds(v, v[a], v[b]),
        0 <= convert_start(v, v[a]) <= a,
        b <= convert_end(v, v[a], v[b]) < v.len(),
{
    lemma_lower_index(v, v[a]);
    lemma_upper_index(v, v[b]);
    let s = lower_index(v, v[a]);
    let u0 = upper_index(v, v[b]);
    if s > a {
        assert(v[a] < v[a]);
    }
    if u0 <= b {
        assert(v[u0] > v[b]);
    }
    assert(v[u0 - 1] <= v[b]);
    assert(v[u0 - 1] >= v[b]);
}

/// Carrying a non-empty range whose ends are checkpoints of the `i` side
/// over to the `o` side, where it lands on a non-empty range, and back again
/// gives a range that covers the one it started from. (An empty range maps to
/// an empty range at its start, which covers nothing.)
pub proof fn lemma_round_trip_covers(i: Seq<usize>, o: Seq<usize>, a: int, b: int)
    requires
        i.len() == o.len(),
        sorted(i),
        sorted(o),
        0 <= a <= b < i.len(),
        i[a] < i[b],
        invert_result(o, i, Range { start: i[a], end: i[b] }) matches Ok(there) && there.start
            < there.end,
    ensures
        ({
            let there = invert_result(o, i, Range { start: i[a], end: i[b] })->Ok_0;
            let back = invert_result(i, o, there);
            &&& back is Ok
            &&& back->Ok_0.start <= i[a]
            &&& back->Ok_0.end >= i[b]
        }),
{
    lemma_anchor(i, a, b);
    let s1 = convert_start(i, i[a]);
    let e1 = convert_end(i, i[a], i[b]);
    lemma_anchor(o, s1, e1);
    let s2 = convert_start(o, o[s1]);
    let e2 = convert_end(o, o[s1], o[e1]);
    assert(i[s2] <= i[s1] <= i[a]);
    assert(i[e2] >= i[e1] >= i[b]);
}

} // verus!
