//! Splitting the value range of a partition column into consecutive ranges of
//! a given size, one select query per range.

use vstd::prelude::*;

verus! {

/// `a / b` rounded up, for `a >= 0` and `b > 0`.
pub open spec fn ceil_div(a: int, b: int) -> int {
    a / b + if a % b == 0 { 0int } else { 1int }
}

/// The ranges `[start, end]` that cover `first..=last` in steps of `size`
/// values; the last range ends at `last`.
pub open spec fn ranges_from(first: int, last: int, size: int) -> Seq<(int, int)>
    decreases last - first + 1,
{
    if first > last || size < 1 {
        Seq::empty()
    } else {
        let end = if first + size - 1 < last { first + size - 1 } else { last };
        seq![(first, end)] + ranges_from(end + 1, last, size)
    }
}

/// Whether stepping through the ranges from `first` stays within `i64`: each
/// start plus the size, and each end plus one.
pub open spec fn steps_fit(first: int, last: int, size: int) -> bool
    decreases last - first + 1,
{
    if first > last || size < 1 {
        true
    } else {
        let end = if first + size - 1 < last { first + size - 1 } else { last };
        &&& first + size <= i64::MAX
        &&& end < i64::MAX
        &&& steps_fit(end + 1, last, size)
    }
}

/// Whether `min..=max` can be split into ranges of `size` values: there is
/// nothing to split, or the size is positive (with no positive size the
/// stepping never ends) and every step stays within `i64`.
pub open spec fn partition_fits(min: int, max: int, size: int) -> bool {
    min <= max ==> size >= 1 && steps_fit(min, max, size)
}

/// Whether `partition_ranges(min, max, size)` can run, as `partition_fits`
/// says.
pub fn check_partition_fits(min: i64, max: i64, size: i64) -> (r: bool)
    ensures
        r == partition_fits(min as int, max as int, size as int),
{
    if max < min {
        return true;
    }
    if size < 1 {
        return false;
    }
    let mut first: i128 = min as i128;
    let last: i128 = max as i128;
    while first <= last
        invariant
            min <= first,
            last == max,
            size >= 1,
            steps_fit(min as int, max as int, size as int) == steps_fit(first as int, last as int, size as int),
        decreases last - first + 1,
    {
        let end: i128 = if first + size as i128 - 1 < last { first + size as i128 - 1 } else { last };
        if !(first + size as i128 <= i64::MAX as i128 && end < i64::MAX as i128) {
            assert(!steps_fit(first as int, last as int, size as int));
            return false;
        }
        first = end + 1;
    }
    true
}

/// The ranges `(start, end)` of `size` values each (the last one possibly
/// shorter), in increasing order, into which `min..=max` is split.
pub fn partition_ranges(min: i64, max: i64, size: i64) -> (r: Vec<(i64, i64)>)
    requires
        partition_fits(min as int, max as int, size as int),
    ensures
        r@.len() == ranges_from(min as int, max as int, size as int).len(),
        forall|k: int|
            0 <= k < r@.len() ==> (#[trigger] r@[k]).0 as int == ranges_from(
                min as int,
                max as int,
                size as int,
            )[k].0 && r@[k].1 as int == ranges_from(min as int, max as int, size as int)[k].1,
{
    let mut r: Vec<(i64, i64)> = Vec::new();
    if max < min {
        return r;
    }
    let ghost all = ranges_from(min as int, max as int, size as int);
    let mut start: i64 = min;
    while start <= max
        invariant
            min <= start,
            size >= 1,
            all == ranges_from(min as int, max as int, size as int),
            steps_fit(start as int, max as int, size as int),
            r@.len() + ranges_from(start as int, max as int, size as int).len() == all.len(),
            forall|k: int|
                0 <= k < r@.len() ==> (#[trigger] r@[k]).0 as int == all[k].0 && r@[k].1 as int
                    == all[k].1,
            forall|k: int|
                0 <= k < ranges_from(start as int, max as int, size as int).len() ==> all[r@.len() + k]
                    == #[trigger] ranges_from(start as int, max as int, size as int)[k],
        decreases max - start + 1,
    {
        let ghost rest = ranges_from(start as int, max as int, size as int);
        let reach = start + size - 1;
        let end = if reach < max { reach } else { max };
        let ghost next = ranges_from(end as int + 1, max as int, size as int);
        assert(rest == seq![(start as int, end as int)] + next);
        assert(all[r@.len() as int] == rest[0]);
        assert forall|k: int| 0 <= k < next.len() implies all[r@.len() + 1 + k] == #[trigger] next[k] by {
            assert(rest[k + 1] == next[k]);
        }
        r.push((start, end));
        start = end + 1;
    }
    r
}

/// Whether `v` lies in one of the ranges `rs`.
pub open spec fn in_some_range(rs: Seq<(int, int)>, v: int) -> bool {
    exists|k: int| 0 <= k < rs.len() && (#[trigger] rs[k]).0 <= v <= rs[k].1
}

/// Lemma: the ranges from `first` to `last` lie inside `first..=last`, are in
/// increasing order, each nonempty and at most `size` wide, each but the last
/// exactly `size` wide, each beginning right after the previous one ends, and
/// together cover every value; there are `ceil_div(last - first + 1, size)`.
pub proof fn lemma_ranges_tile(first: int, last: int, size: int)
    requires
        size >= 1,
    ensures
        ({
            let rs = ranges_from(first, last, size);
            &&& first > last ==> rs.len() == 0
            &&& first <= last ==> {
                &&& rs.len() == ceil_div(last - first + 1, size)
                &&& rs[0].0 == first
                &&& rs[rs.len() - 1].1 == last
            }
            &&& forall|k: int|
                0 <= k < rs.len() ==> {
                    &&& first <= (#[trigger] rs[k]).0 <= rs[k].1 <= last
                    &&& rs[k].1 - rs[k].0 + 1 <= size
                }
            &&& forall|k: int| 1 <= k < rs.len() ==> (#[trigger] rs[k]).0 == rs[k - 1].1 + 1
            &&& forall|k: int| 0 <= k < rs.len() - 1 ==> (#[trigger] rs[k]).1 - rs[k].0 + 1 == size
            &&& forall|j: int, k: int| 0 <= j < k < rs.len() ==> (#[trigger] rs[j]).1 < (#[trigger] rs[k]).0
            &&& forall|v: int| first <= v <= last ==> #[trigger] in_some_range(rs, v)
        }),
    decreases last - first + 1,
{
    let rs = ranges_from(first, last, size);
    if first <= last {
        let end = if first + size - 1 < last { first + size - 1 } else { last };
        let rest = ranges_from(end + 1, last, size);
        lemma_ranges_tile(end + 1, last, size);
        assert(rs == seq![(first, end)] + rest);
        assert forall|k: int| 0 < k < rs.len() implies rs[k] == rest[k - 1] by {}
        let n = last - first + 1;
        if end == last {
            assert(rest.len() == 0);
            assert(ceil_div(n, size) == 1) by (nonlinear_arith)
                requires
                    1 <= n <= size,
            {
                if n == size {
                    assert(n / size == 1);
                    assert(n % size == 0);
                } else {
                    assert(n / size == 0);
                    assert(n % size == n);
                }
            }
        } else {
            assert(rest.len() == ceil_div(n - size, size));
            assert(ceil_div(n, size) == ceil_div(n - size, size) + 1) by (nonlinear_arith)
                requires
                    n > size >= 1,
            {
                assert(n / size == (n - size) / size + 1);
                assert(n % size == (n - size) % size);
            }
            assert(rest[0].0 == end + 1);
        }
        assert forall|k: int| 1 <= k < rs.len() implies (#[trigger] rs[k]).0 == rs[k - 1].1 + 1 by {
            if k > 1 {
                assert(rest[k - 1].0 == rest[k - 2].1 + 1);
            } else {
                assert(rest[0].0 == end + 1);
            }
        }
        assert forall|k: int| 0 <= k < rs.len() - 1 implies (#[trigger] rs[k]).1 - rs[k].0 + 1 == size by {
            if k > 0 {
                assert(rest[k - 1].1 - rest[k - 1].0 + 1 == size);
            } else {
                assert(end != last);
            }
        }
        assert forall|j: int, k: int| 0 <= j < k < rs.len() implies (#[trigger] rs[j]).1 < (#[trigger] rs[k]).0 by {
            if j > 0 {
                assert(rest[j - 1].1 < rest[k - 1].0);
            } else {
                assert(end + 1 <= rest[k - 1].0);
            }
        }
        assert forall|v: int| first <= v <= last implies #[trigger] in_some_range(rs, v) by {
            if v <= end {
                assert(rs[0].0 <= v <= rs[0].1);
            } else {
                assert(in_some_range(rest, v));
                let k = choose|k: int| 0 <= k < rest.len() && (#[trigger] rest[k]).0 <= v <= rest[k].1;
                assert(rs[k + 1] == rest[k]);
            }
        }
    }
}

/// The end of the range that starts at `start`: `size` values on, or `last`
/// where that is nearer.
pub open spec fn range_end(start: int, last: int, size: int) -> int {
    if start + size - 1 < last {
        start + size - 1
    } else {
        last
    }
}

/// The position of the range that holds `v`, among the ranges from `first` of
/// `size` values each.
pub open spec fn range_index(v: int, first: int, size: int) -> int {
    (v - first) / size
}

/// Lemma: the `k`-th range from `first` starts `k` sizes after `first`, and
/// ends `size` values on or at `last`, whichever is nearer.
pub proof fn lemma_range_at(first: int, last: int, size: int, k: int)
    requires
        size >= 1,
        0 <= k < ranges_from(first, last, size).len(),
    ensures
        ranges_from(first, last, size)[k] == (first + k * size, range_end(first + k * size, last, size)),
    decreases k,
{
    let rs = ranges_from(first, last, size);
    lemma_ranges_tile(first, last, size);
    if k > 0 {
        lemma_range_at(first, last, size, k - 1);
        assert(rs[k].0 == rs[k - 1].1 + 1);
        assert(rs[k - 1].1 - rs[k - 1].0 + 1 == size);
        assert(first + (k - 1) * size + size == first + k * size) by (nonlinear_arith);
    } else {
        assert(k * size == 0) by (nonlinear_arith)
            requires
                k == 0,
        ;
    }
    assert(rs[k].0 == first + k * size);
    if k < rs.len() - 1 {
        assert(rs[k].1 - rs[k].0 + 1 == size);
        assert(rs[k + 1].0 == rs[k].1 + 1);
        assert(rs[k + 1].1 <= last);
    } else {
        assert(rs[k].1 == last);
        assert(rs[k].1 - rs[k].0 + 1 <= size);
    }
}

/// The ranges of a partition column tile its values: for `min <= max` and a
/// positive size they lie inside `min..=max`, are in increasing order and
/// nonempty, begin at `min`, end at `max`, each begins right after the previous
/// one ends, every value of `min..=max` lies in one of them, all but the last
/// hold exactly `size` values, and there are `ceil_div` of the value count by
/// the size of them; for `max < min` there are none.
pub proof fn partition_ranges_tile(min: int, max: int, size: int)
    requires
        size >= 1,
    ensures
        ({
            let rs = ranges_from(min, max, size);
            &&& max < min ==> rs.len() == 0
            &&& min <= max ==> {
                &&& rs.len() == ceil_div(max - min + 1, size)
                &&& rs[0].0 == min
                &&& rs[rs.len() - 1].1 == max
                &&& forall|k: int|
                    0 <= k < rs.len() ==> min <= (#[trigger] rs[k]).0 <= rs[k].1 <= max
                &&& forall|k: int| 1 <= k < rs.len() ==> (#[trigger] rs[k]).0 == rs[k - 1].1 + 1
                &&& forall|k: int| 0 <= k < rs.len() - 1 ==> (#[trigger] rs[k]).1 - rs[k].0 + 1 == size
                &&& forall|v: int| min <= v <= max ==> #[trigger] in_some_range(rs, v)
            }
        }),
{
    lemma_ranges_tile(min, max, size);
}

/// A value range is split into at most `parts` ranges when the size is at
/// least the value count divided by `parts` (as the rounded-up quotient is).
pub proof fn partition_ranges_at_most_parts(min: int, max: int, size: int, parts: int)
    requires
        size >= 1,
        parts >= 1,
        size * parts >= max - min + 1,
    ensures
        ranges_from(min, max, size).len() <= parts,
{
    lemma_ranges_tile(min, max, size);
    if min <= max {
        let rows = max - min + 1;
        assert(ceil_div(rows, size) <= parts) by (nonlinear_arith)
            requires
                rows >= 1,
                size >= 1,
                parts >= 1,
                size * parts >= rows,
        {
            let c = ceil_div(rows, size);
            assert(rows == size * (rows / size) + rows % size);
            assert(c * size - size < rows);
            assert(c * size - size < size * parts);
            assert((c - 1) < parts);
        }
    }
}

/// Lemma: the steps from `first` stay within `i64` when `last` plus the size
/// does.
pub proof fn lemma_steps_fit_with_room(first: int, last: int, size: int)
    requires
        size >= 1,
        last + size <= i64::MAX,
    ensures
        steps_fit(first, last, size),
    decreases last - first + 1,
{
    if first <= last {
        let end = if first + size - 1 < last { first + size - 1 } else { last };
        lemma_steps_fit_with_room(end + 1, last, size);
    }
}

/// Splitting `min..=max` (with `min <= max`) into ranges of a positive size
/// never leaves `i64` when `max` plus the size fits in it: `partition_ranges`
/// can run, and it yields at most one range per value, so its stepping ends
/// after at most `max - min + 1` rounds.
pub proof fn partition_fits_with_room(min: int, max: int, size: int)
    requires
        min <= max,
        size >= 1,
        max + size <= i64::MAX,
    ensures
        partition_fits(min, max, size),
        ranges_from(min, max, size).len() <= max - min + 1,
{
    lemma_steps_fit_with_room(min, max, size);
    assert(size * (max - min + 1) >= max - min + 1) by (nonlinear_arith)
        requires
            size >= 1,
            max - min + 1 >= 1,
    ;
    partition_ranges_at_most_parts(min, max, size, max - min + 1);
}

} // verus!
