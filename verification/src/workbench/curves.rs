//! Curves: which samples are drawn, and which stretch of time is shown. Times are nanoseconds.
//! Values are given by numbers that are ordered as they are.
use crate::ratio::{law_parts_follow_their_fractions, part, part_of, Ratio};
use crate::text;
use std::collections::VecDeque;
use vstd::prelude::*;

verus! {

/// A sample: its time and its value.
pub type Sample = (i64, i64);

/// The range of the axis of a curve: that of all curves, or its own.
pub fn chart_axis_range<T>(own_range: (T, T), shared_range: (T, T), y_mode: i32) -> (r: (T, T))
    ensures
        r == if y_mode == 1 {
            shared_range
        } else {
            own_range
        },
{
    if y_mode == 1 {
        shared_range
    } else {
        own_range
    }
}

// ---------------------------------------------------------------- fewer points

/// The first place of the smallest value of a stretch.
pub open spec fn least_at(p: Seq<Sample>, a: int, b: int) -> int
    decreases b - a,
{
    if b <= a + 1 {
        a
    } else {
        let m = least_at(p, a, b - 1);
        if p[b - 1].1 < p[m].1 {
            b - 1
        } else {
            m
        }
    }
}

/// The first place of the greatest value of a stretch.
pub open spec fn greatest_at(p: Seq<Sample>, a: int, b: int) -> int
    decreases b - a,
{
    if b <= a + 1 {
        a
    } else {
        let m = greatest_at(p, a, b - 1);
        if p[b - 1].1 > p[m].1 {
            b - 1
        } else {
            m
        }
    }
}

/// Places with a further one, unless the last one holds the same sample.
pub open spec fn with_place(out: Seq<int>, p: Seq<Sample>, i: int) -> Seq<int> {
    if out.len() > 0 && p[out.last()] == p[i] {
        out
    } else {
        out.push(i)
    }
}

/// Places with those of the smallest and of the greatest value of a stretch.
pub open spec fn with_extremes(out: Seq<int>, p: Seq<Sample>, a: int, b: int) -> Seq<int> {
    let lo = least_at(p, a, b);
    let hi = greatest_at(p, a, b);
    let first = if lo <= hi {
        lo
    } else {
        hi
    };
    let second = if lo <= hi {
        hi
    } else {
        lo
    };
    let one = with_place(out, p, first);
    if second != first {
        with_place(one, p, second)
    } else {
        one
    }
}

/// Places with the extremes of each stretch of a size.
pub open spec fn with_stretches(out: Seq<int>, p: Seq<Sample>, a: int, end: int, size: int) -> Seq<int>
    decreases end - a,
{
    if a >= end || size <= 0 {
        out
    } else {
        let b = if a + size < end {
            a + size
        } else {
            end
        };
        with_stretches(with_extremes(out, p, a, b), p, b, end, size)
    }
}

/// The stretches in which the extremes are kept, where four points or more may be drawn.
pub open spec fn stretch_count(max_pts: int) -> int {
    (max_pts - 2) / 2
}

/// The size of those stretches.
pub open spec fn stretch_size(interior: int, max_pts: int) -> int {
    let n = stretch_count(max_pts);
    (interior + n - 1) / n
}

/// The numbers from one to another.
pub open spec fn places(start: int, end: int) -> Seq<int> {
    Seq::new((end - start) as nat, |i: int| start + i)
}

/// The one sample that is drawn between the first and the last: the greatest where it rises above
/// both of them, else the smallest.
pub open spec fn middle(p: Seq<Sample>, start: int, end: int) -> int {
    let hi = greatest_at(p, start + 1, end - 1);
    if p[hi].1 > p[start].1 && p[hi].1 > p[end - 1].1 {
        hi
    } else {
        least_at(p, start + 1, end - 1)
    }
}

/// The places of the samples that are drawn: all of them where they are few enough, else the first,
/// the last and the extremes of stretches in between. Where only one can be drawn in between, it is
/// one of the extremes.
pub open spec fn reduced(p: Seq<Sample>, start: int, end: int, max_pts: int) -> Seq<int> {
    let len = end - start;
    if len <= 0 || max_pts <= 0 {
        seq![]
    } else if len <= max_pts {
        places(start, end)
    } else if max_pts == 1 {
        seq![start]
    } else if max_pts == 2 {
        seq![start, end - 1]
    } else if max_pts == 3 {
        with_place(with_place(seq![start], p, middle(p, start, end)), p, end - 1)
    } else {
        with_place(
            with_stretches(
                seq![start],
                p,
                start + 1,
                end - 1,
                stretch_size(len - 2, max_pts),
            ),
            p,
            end - 1,
        )
    }
}

/// Places as they are held.
pub open spec fn places_view(out: Seq<usize>) -> Seq<int> {
    out.map_values(|i: usize| i as int)
}

fn push_place(out: &mut Vec<usize>, p: &VecDeque<Sample>, i: usize)
    requires
        i < p@.len(),
        forall|k: int| 0 <= k < old(out)@.len() ==> (#[trigger] old(out)@[k]) < p@.len(),
    ensures
        places_view(final(out)@) == with_place(places_view(old(out)@), p@, i as int),
        forall|k: int| 0 <= k < final(out)@.len() ==> (#[trigger] final(out)@[k]) < p@.len(),
{
    let n: usize = out.len();
    if n > 0 {
        let last: usize = out[n - 1];
        assert(places_view(out@).last() == last);
        if p[last].0 == p[i].0 && p[last].1 == p[i].1 {
            return;
        }
    }
    let ghost before = out@;
    out.push(i);
    assert(places_view(out@) =~= places_view(before).push(i as int));
}

fn extremes(points: &VecDeque<Sample>, a: usize, b: usize) -> (r: (usize, usize))
    requires
        a < b <= points@.len(),
    ensures
        r.0 == least_at(points@, a as int, b as int),
        r.1 == greatest_at(points@, a as int, b as int),
        a <= r.0 < b,
        a <= r.1 < b,
{
    let mut lo: usize = a;
    let mut hi: usize = a;
    let mut i: usize = a + 1;
    while i < b
        invariant
            a < i <= b <= points@.len(),
            a <= lo < i,
            a <= hi < i,
            lo == least_at(points@, a as int, i as int),
            hi == greatest_at(points@, a as int, i as int),
        decreases b - i,
    {
        if points[i].1 < points[lo].1 {
            lo = i;
        }
        if points[i].1 > points[hi].1 {
            hi = i;
        }
        i += 1;
    }
    (lo, hi)
}

/// The places of the samples that are drawn of a stretch.
pub fn decimate_min_max_deque(points: &VecDeque<Sample>, start: usize, end: usize, max_pts: usize) -> (r:
    Vec<usize>)
    requires
        end <= points@.len(),
    ensures
        places_view(r@) == reduced(points@, start as int, end as int, max_pts as int),
        r@.len() <= max_pts,
{
    proof {
        if start < end {
            law_points_are_limited(points@, start as int, end as int, max_pts as int);
        }
    }
    let ghost p = points@;
    let mut out: Vec<usize> = Vec::new();
    assert(places_view(out@) =~= seq![]);
    if start >= end || max_pts == 0 {
        return out;
    }
    let len: usize = end - start;
    if len <= max_pts {
        let mut i: usize = start;
        assert(places_view(out@) =~= places(start as int, start as int));
        while i < end
            invariant
                start <= i <= end,
                places_view(out@) =~= places(start as int, i as int),
            decreases end - i,
        {
            let ghost before = out@;
            out.push(i);
            proof {
                assert(places_view(out@) =~= places_view(before).push(i as int));
                assert(places(start as int, i + 1) =~= places(start as int, i as int).push(i as int));
            }
            i += 1;
        }
        return out;
    }
    out.push(start);
    assert(places_view(out@) =~= seq![start as int]);
    if max_pts == 1 {
        return out;
    }
    if max_pts == 2 {
        out.push(end - 1);
        assert(places_view(out@) =~= seq![start as int, end - 1]);
        return out;
    }
    if max_pts == 3 {
        let (lo, hi) = extremes(points, start + 1, end - 1);
        let value: i64 = points[hi].1;
        let kept: usize = if value > points[start].1 && value > points[end - 1].1 {
            hi
        } else {
            lo
        };
        push_place(&mut out, points, kept);
        push_place(&mut out, points, end - 1);
        return out;
    }
    let count: usize = (max_pts - 2) / 2;
    let interior: usize = len - 2;
    let size: usize = if interior % count == 0 {
        interior / count
    } else {
        interior / count + 1
    };
    proof {
        lemma_rounded_up(interior as int, count as int);
        assert(size == stretch_size(interior as int, max_pts as int));
    }
    let ghost seed = places_view(out@);
    let mut a: usize = start + 1;
    while a < end - 1
        invariant
            start + 1 <= a <= end - 1,
            end <= p.len(),
            p == points@,
            size >= 1,
            forall|k: int| 0 <= k < out@.len() ==> (#[trigger] out@[k]) < p.len(),
            with_stretches(seed, p, start + 1, end - 1, size as int) == with_stretches(
                places_view(out@),
                p,
                a as int,
                end - 1,
                size as int,
            ),
        decreases end - a,
    {
        let b: usize = if size < end - 1 - a {
            a + size
        } else {
            end - 1
        };
        let (lo, hi) = extremes(points, a, b);
        let first: usize = if lo <= hi {
            lo
        } else {
            hi
        };
        let second: usize = if lo <= hi {
            hi
        } else {
            lo
        };
        push_place(&mut out, points, first);
        if second != first {
            push_place(&mut out, points, second);
        }
        a = b;
    }
    push_place(&mut out, points, end - 1);
    out
}

proof fn lemma_rounded_up(n: int, d: int)
    requires
        n >= 1,
        d >= 1,
    ensures
        (n + d - 1) / d == if n % d == 0 {
            n / d
        } else {
            n / d + 1
        },
        (n + d - 1) / d >= 1,
        ((n + d - 1) / d) * d >= n,
{
    let q = n / d;
    let r = n % d;
    assert(n == q * d + r && 0 <= r < d) by {
        vstd::arithmetic::div_mod::lemma_fundamental_div_mod(n, d);
        assert(d * q == q * d) by (nonlinear_arith);
    }
    if r == 0 {
        assert(n + d - 1 == q * d + (d - 1));
        vstd::arithmetic::div_mod::lemma_fundamental_div_mod_converse(n + d - 1, d, q, d - 1);
        assert(q >= 1) by (nonlinear_arith)
            requires
                q * d >= 1,
                d >= 1,
        ;
    } else {
        assert(n + d - 1 == (q + 1) * d + (r - 1)) by (nonlinear_arith)
            requires
                n == q * d + r,
        ;
        vstd::arithmetic::div_mod::lemma_fundamental_div_mod_converse(n + d - 1, d, q + 1, r - 1);
        assert((q + 1) * d >= n) by (nonlinear_arith)
            requires
                n == q * d + r,
                r < d,
        ;
        assert(q >= 0) by (nonlinear_arith)
            requires
                n == q * d + r,
                n >= 1,
                r < d,
                d >= 1,
        ;
    }
}

// ---------------------------------------------------------------- what is kept

/// Whether places rise and lie within a stretch.
pub open spec fn rising_within(out: Seq<int>, start: int, end: int) -> bool {
    &&& forall|i: int| 0 <= i < out.len() ==> start <= #[trigger] out[i] < end
    &&& forall|i: int, j: int| 0 <= i < j < out.len() ==> #[trigger] out[i] < #[trigger] out[j]
}

/// Whether some place holds a value as small, and some place one as great, as that of a sample.
pub open spec fn enclosed(out: Seq<int>, p: Seq<Sample>, i: int) -> bool {
    &&& exists|k: int| 0 <= k < out.len() && p[#[trigger] out[k]].1 <= p[i].1
    &&& exists|k: int| 0 <= k < out.len() && p[#[trigger] out[k]].1 >= p[i].1
}

proof fn lemma_extremes(p: Seq<Sample>, a: int, b: int, i: int)
    requires
        a <= i < b,
    ensures
        a <= least_at(p, a, b) < b,
        a <= greatest_at(p, a, b) < b,
        p[least_at(p, a, b)].1 <= p[i].1,
        p[greatest_at(p, a, b)].1 >= p[i].1,
    decreases b - a,
{
    if b > a + 1 {
        if i < b - 1 {
            lemma_extremes(p, a, b - 1, i);
        } else {
            lemma_extremes(p, a, b - 1, a);
        }
    }
}

proof fn lemma_with_place(out: Seq<int>, p: Seq<Sample>, i: int, start: int, end: int)
    requires
        rising_within(out, start, i),
        start <= i < end,
        out.len() > 0,
    ensures
        rising_within(with_place(out, p, i), start, end),
        with_place(out, p, i).len() <= out.len() + 1,
        with_place(out, p, i).len() > 0,
        with_place(out, p, i)[0] == out[0],
        enclosed(with_place(out, p, i), p, i),
        p[with_place(out, p, i).last()] == p[i],
        forall|j: int| enclosed(out, p, j) ==> #[trigger] enclosed(with_place(out, p, i), p, j),
{
    let r = with_place(out, p, i);
    let last = r.len() - 1;
    assert(p[r[last]] == p[i]);
    assert forall|j: int| enclosed(out, p, j) implies #[trigger] enclosed(r, p, j) by {
        let x = choose|k: int| 0 <= k < out.len() && p[#[trigger] out[k]].1 <= p[j].1;
        let y = choose|k: int| 0 <= k < out.len() && p[#[trigger] out[k]].1 >= p[j].1;
        assert(r[x] == out[x] && r[y] == out[y]);
    }
}

proof fn lemma_rising_more(out: Seq<int>, start: int, end: int, further: int)
    requires
        rising_within(out, start, end),
        end <= further,
    ensures
        rising_within(out, start, further),
{
}

proof fn lemma_with_extremes(out: Seq<int>, p: Seq<Sample>, start: int, a: int, b: int)
    requires
        rising_within(out, start, a),
        out.len() > 0,
        start <= a < b,
    ensures
        rising_within(with_extremes(out, p, a, b), start, b),
        out.len() <= with_extremes(out, p, a, b).len() <= out.len() + 2,
        with_extremes(out, p, a, b)[0] == out[0],
        forall|j: int| a <= j < b ==> #[trigger] enclosed(with_extremes(out, p, a, b), p, j),
        forall|j: int| enclosed(out, p, j) ==> #[trigger] enclosed(with_extremes(out, p, a, b), p, j),
{
    lemma_extremes(p, a, b, a);
    let lo = least_at(p, a, b);
    let hi = greatest_at(p, a, b);
    let first = if lo <= hi {
        lo
    } else {
        hi
    };
    let second = if lo <= hi {
        hi
    } else {
        lo
    };
    lemma_rising_more(out, start, a, first);
    lemma_with_place(out, p, first, start, first + 1);
    let one = with_place(out, p, first);
    if second != first {
        lemma_rising_more(one, start, first + 1, second);
        lemma_with_place(one, p, second, start, second + 1);
        lemma_rising_more(with_place(one, p, second), start, second + 1, b);
    } else {
        lemma_rising_more(one, start, first + 1, b);
    }
    let r = with_extremes(out, p, a, b);
    assert(enclosed(r, p, lo) && enclosed(r, p, hi)) by {
        assert(enclosed(one, p, first));
    }
    assert forall|j: int| a <= j < b implies #[trigger] enclosed(r, p, j) by {
        lemma_extremes(p, a, b, j);
        let x = choose|k: int| 0 <= k < r.len() && p[#[trigger] r[k]].1 <= p[lo].1;
        let y = choose|k: int| 0 <= k < r.len() && p[#[trigger] r[k]].1 >= p[hi].1;
        assert(p[r[x]].1 <= p[j].1 && p[r[y]].1 >= p[j].1);
    }
}

proof fn lemma_with_stretches(
    out: Seq<int>,
    p: Seq<Sample>,
    start: int,
    a: int,
    end: int,
    size: int,
    n: int,
)
    requires
        rising_within(out, start, a),
        out.len() > 0,
        start <= a <= end,
        size >= 1,
        n >= 0,
        end - a <= n * size,
    ensures
        rising_within(with_stretches(out, p, a, end, size), start, end),
        0 < with_stretches(out, p, a, end, size).len() <= out.len() + 2 * n,
        with_stretches(out, p, a, end, size)[0] == out[0],
        forall|j: int|
            a <= j < end ==> #[trigger] enclosed(with_stretches(out, p, a, end, size), p, j),
        forall|j: int|
            enclosed(out, p, j) ==> #[trigger] enclosed(
                with_stretches(out, p, a, end, size),
                p,
                j,
            ),
    decreases end - a,
{
    if a < end {
        let b = if a + size < end {
            a + size
        } else {
            end
        };
        let next = with_extremes(out, p, a, b);
        lemma_with_extremes(out, p, start, a, b);
        assert(n >= 1) by (nonlinear_arith)
            requires
                end - a <= n * size,
                a < end,
                n >= 0,
        ;
        assert(end - b <= (n - 1) * size) by (nonlinear_arith)
            requires
                end - a <= n * size,
                b == a + size || (b == end && n >= 1 && size >= 1),
        ;
        lemma_with_stretches(next, p, start, b, end, size, n - 1);
        let r = with_stretches(out, p, a, end, size);
        assert(r == with_stretches(next, p, b, end, size));
        assert forall|j: int| a <= j < end implies #[trigger] enclosed(r, p, j) by {
            if j < b {
                assert(enclosed(next, p, j));
            }
        }
        assert forall|j: int| enclosed(out, p, j) implies #[trigger] enclosed(r, p, j) by {
            assert(enclosed(next, p, j));
        }
    }
}

/// Whether the samples between the first and the last rise above both and fall below both.
pub open spec fn beyond_both(p: Seq<Sample>, start: int, end: int) -> bool {
    &&& exists|i: int|
        start < i < end - 1 && (#[trigger] p[i]).1 > p[start].1 && p[i].1 > p[end - 1].1
    &&& exists|i: int|
        start < i < end - 1 && (#[trigger] p[i]).1 < p[start].1 && p[i].1 < p[end - 1].1
}

/// Fewer points show the same curve: the places rise, the first and the last sample stay, and no
/// sample lies outside of what the points that are drawn enclose, so that no narrow peak is lost.
/// Three points show a peak or a drop, but not both.
pub proof fn law_fewer_points_keep_the_envelope(p: Seq<Sample>, start: int, end: int, max_pts: int)
    requires
        0 <= start < end <= p.len(),
        max_pts >= 4 || end - start <= max_pts || (max_pts == 3 && !beyond_both(p, start, end)),
    ensures
        ({
            let r = reduced(p, start, end, max_pts);
            &&& rising_within(r, start, end)
            &&& r.len() > 0
            &&& p[r[0]] == p[start]
            &&& p[r.last()] == p[end - 1]
            &&& forall|j: int| start <= j < end ==> #[trigger] enclosed(r, p, j)
        }),
{
    let r = reduced(p, start, end, max_pts);
    let len = end - start;
    if len <= max_pts {
        assert(r[0] == start);
        assert forall|j: int| start <= j < end implies #[trigger] enclosed(r, p, j) by {
            assert(r[j - start] == j);
        }
    } else if max_pts == 3 {
        lemma_three(p, start, end);
        let m = middle(p, start, end);
        let hi = greatest_at(p, start + 1, end - 1);
        let lo = least_at(p, start + 1, end - 1);
        lemma_extremes(p, start + 1, end - 1, start + 1);
        assert(enclosed(r, p, start) && enclosed(r, p, m) && enclosed(r, p, end - 1));
        assert forall|j: int| start <= j < end implies #[trigger] enclosed(r, p, j) by {
            if start < j < end - 1 {
                lemma_extremes(p, start + 1, end - 1, j);
                let above = if m == hi && p[hi].1 > p[start].1 && p[hi].1 > p[end - 1].1 {
                    m
                } else if p[hi].1 <= p[start].1 {
                    start
                } else {
                    end - 1
                };
                let below = if m == lo {
                    m
                } else if p[start].1 <= p[lo].1 {
                    start
                } else {
                    end - 1
                };
                assert(p[above].1 >= p[hi].1);
                assert(p[below].1 <= p[lo].1);
                assert(enclosed(r, p, above) && enclosed(r, p, below));
                let x = choose|k: int| 0 <= k < r.len() && p[#[trigger] r[k]].1 <= p[below].1;
                let y = choose|k: int| 0 <= k < r.len() && p[#[trigger] r[k]].1 >= p[above].1;
                assert(p[r[x]].1 <= p[j].1 && p[r[y]].1 >= p[j].1);
            }
        }
    } else {
        lemma_reduced(p, start, end, max_pts);
    }
}

proof fn lemma_three(p: Seq<Sample>, start: int, end: int)
    requires
        0 <= start < end <= p.len(),
        end - start > 3,
    ensures
        ({
            let r = reduced(p, start, end, 3);
            &&& rising_within(r, start, end)
            &&& 0 < r.len() <= 3
            &&& p[r[0]] == p[start]
            &&& p[r.last()] == p[end - 1]
            &&& enclosed(r, p, start)
            &&& enclosed(r, p, middle(p, start, end))
            &&& enclosed(r, p, end - 1)
        }),
{
    let m = middle(p, start, end);
    lemma_extremes(p, start + 1, end - 1, start + 1);
    let seed = seq![start];
    assert(rising_within(seed, start, m));
    assert(enclosed(seed, p, start)) by {
        assert(seed[0] == start);
    }
    lemma_with_place(seed, p, m, start, m + 1);
    let two = with_place(seed, p, m);
    lemma_rising_more(two, start, m + 1, end - 1);
    lemma_with_place(two, p, end - 1, start, end);
    assert(enclosed(two, p, start) && enclosed(two, p, m));
}

proof fn lemma_reduced(p: Seq<Sample>, start: int, end: int, max_pts: int)
    requires
        0 <= start < end <= p.len(),
        max_pts >= 4,
        end - start > max_pts,
    ensures
        ({
            let r = reduced(p, start, end, max_pts);
            &&& rising_within(r, start, end)
            &&& 0 < r.len() <= 2 + 2 * stretch_count(max_pts)
            &&& p[r[0]] == p[start]
            &&& p[r.last()] == p[end - 1]
            &&& forall|j: int| start <= j < end ==> #[trigger] enclosed(r, p, j)
        }),
{
    let len = end - start;
    let n = stretch_count(max_pts);
    let size = stretch_size(len - 2, max_pts);
    lemma_rounded_up(len - 2, n);
    assert(n * size == size * n) by (nonlinear_arith);
    let seed = seq![start];
    assert(rising_within(seed, start, start + 1));
    assert(enclosed(seed, p, start)) by {
        assert(seed[0] == start);
    }
    lemma_with_stretches(seed, p, start, start + 1, end - 1, size, n);
    let mid = with_stretches(seed, p, start + 1, end - 1, size);
    lemma_with_place(mid, p, end - 1, start, end);
    let r = reduced(p, start, end, max_pts);
    assert(r == with_place(mid, p, end - 1));
    assert forall|j: int| start <= j < end implies #[trigger] enclosed(r, p, j) by {
        if j < end - 1 {
            assert(enclosed(mid, p, j));
        }
    }
}

/// No more points are drawn than allowed.
pub proof fn law_points_are_limited(p: Seq<Sample>, start: int, end: int, max_pts: int)
    requires
        0 <= start <= end <= p.len(),
        max_pts >= 0,
    ensures
        reduced(p, start, end, max_pts).len() <= max_pts,
{
    if end - start > max_pts {
        if max_pts == 3 {
            lemma_three(p, start, end);
        } else if max_pts >= 4 {
            lemma_reduced(p, start, end, max_pts);
        }
    }
}

proof fn lemma_reduced_rises(p: Seq<Sample>, start: int, end: int, max_pts: int)
    requires
        0 <= start < end <= p.len(),
    ensures
        rising_within(reduced(p, start, end, max_pts), start, end),
{
    if max_pts >= 4 || end - start <= max_pts {
        law_fewer_points_keep_the_envelope(p, start, end, max_pts);
    } else if max_pts == 3 {
        lemma_three(p, start, end);
    }
}

// ---------------------------------------------------------------- a window of samples

/// Whether the times of samples rise.
pub open spec fn in_time(p: Seq<Sample>) -> bool {
    forall|i: int, j: int| 0 <= i <= j < p.len() ==> (#[trigger] p[i]).0 <= (#[trigger] p[j]).0
}

/// The first place, from one on, at or behind a time.
pub open spec fn first_past(p: Seq<Sample>, time: i64, inclusive: bool, from: int) -> int
    decreases p.len() - from,
{
    if from >= p.len() {
        p.len() as int
    } else if p[from].0 < time || (inclusive && p[from].0 <= time) {
        first_past(p, time, inclusive, from + 1)
    } else {
        from
    }
}

proof fn lemma_first_past(p: Seq<Sample>, time: i64, inclusive: bool, from: int, at: int)
    requires
        0 <= from <= at <= p.len(),
        forall|i: int|
            from <= i < at ==> (#[trigger] p[i]).0 < time || (inclusive && p[i].0 <= time),
        at < p.len() ==> !(p[at].0 < time || (inclusive && p[at].0 <= time)),
    ensures
        first_past(p, time, inclusive, from) == at,
    decreases at - from,
{
    if from < at {
        assert(p[from].0 < time || (inclusive && p[from].0 <= time));
        lemma_first_past(p, time, inclusive, from + 1, at);
    }
}

fn lower_bound(samples: &VecDeque<Sample>, time: i64, inclusive: bool) -> (r: usize)
    requires
        in_time(samples@),
    ensures
        r == first_past(samples@, time, inclusive, 0),
        r <= samples@.len(),
{
    let ghost p = samples@;
    let mut left: usize = 0;
    let mut right: usize = samples.len();
    while left < right
        invariant
            left <= right <= p.len(),
            p == samples@,
            in_time(p),
            forall|i: int|
                0 <= i < left ==> (#[trigger] p[i]).0 < time || (inclusive && p[i].0 <= time),
            forall|i: int|
                right <= i < p.len() ==> !((#[trigger] p[i]).0 < time || (inclusive && p[i].0
                    <= time)),
        decreases right - left,
    {
        let mid: usize = left + (right - left) / 2;
        let t: i64 = samples[mid].0;
        if t < time || (inclusive && t <= time) {
            assert forall|i: int| 0 <= i < mid + 1 implies (#[trigger] p[i]).0 < time || (inclusive
                && p[i].0 <= time) by {
                assert(p[i].0 <= p[mid as int].0);
            }
            left = mid + 1;
        } else {
            assert forall|i: int| mid <= i < p.len() implies !((#[trigger] p[i]).0 < time || (
            inclusive && p[i].0 <= time)) by {
                assert(p[mid as int].0 <= p[i].0);
            }
            right = mid;
        }
    }
    proof {
        lemma_first_past(p, time, inclusive, 0, left as int);
    }
    left
}

/// The places of the samples that are drawn between two times: those in between and one more at
/// each side, so that the curve reaches the borders.
pub open spec fn windowed(p: Seq<Sample>, tmin: i64, tmax: i64, max_pts: int) -> Seq<int> {
    let start = first_past(p, tmin, false, 0);
    let end = first_past(p, tmax, true, 0);
    let a = if start > 0 {
        start - 1
    } else {
        0
    };
    let b = if end + 1 < p.len() {
        end + 1
    } else {
        p.len() as int
    };
    reduced(p, a, b, max_pts)
}

proof fn lemma_past(p: Seq<Sample>, time: i64, inclusive: bool, from: int)
    requires
        in_time(p),
        0 <= from <= p.len(),
    ensures
        ({
            let at = first_past(p, time, inclusive, from);
            &&& from <= at <= p.len()
            &&& forall|i: int|
                from <= i < at ==> (#[trigger] p[i]).0 < time || (inclusive && p[i].0 <= time)
            &&& forall|i: int|
                at <= i < p.len() ==> !((#[trigger] p[i]).0 < time || (inclusive && p[i].0
                    <= time))
        }),
    decreases p.len() - from,
{
    if from < p.len() {
        if p[from].0 < time || (inclusive && p[from].0 <= time) {
            lemma_past(p, time, inclusive, from + 1);
        } else {
            assert forall|i: int| from <= i < p.len() implies !((#[trigger] p[i]).0 < time || (
            inclusive && p[i].0 <= time)) by {
                assert(p[from].0 <= p[i].0);
            }
        }
    }
}

/// Every sample of a window lies between samples that are drawn, and where there is room for all of
/// them each is drawn.
pub proof fn law_windows_miss_no_sample(p: Seq<Sample>, tmin: i64, tmax: i64, max_pts: int, i: int)
    requires
        in_time(p),
        max_pts >= 4,
        0 <= i < p.len(),
        tmin <= p[i].0 <= tmax,
    ensures
        enclosed(windowed(p, tmin, tmax, max_pts), p, i),
        p.len() <= max_pts ==> windowed(p, tmin, tmax, max_pts).contains(i),
{
    lemma_past(p, tmin, false, 0);
    lemma_past(p, tmax, true, 0);
    let start = first_past(p, tmin, false, 0);
    let end = first_past(p, tmax, true, 0);
    assert(start <= i < end);
    let a = if start > 0 {
        start - 1
    } else {
        0
    };
    let b = if end + 1 < p.len() {
        end + 1
    } else {
        p.len() as int
    };
    law_fewer_points_keep_the_envelope(p, a, b, max_pts);
    if p.len() <= max_pts {
        assert(windowed(p, tmin, tmax, max_pts) == places(a, b));
        assert(places(a, b)[i - a] == i);
    }
}

/// What is drawn of a window are samples in the order of their times, no more than allowed. Each
/// lies between the two times, or is the last sample before the first time or the first one behind
/// the last time.
pub proof fn law_windows_hold_their_samples(p: Seq<Sample>, tmin: i64, tmax: i64, max_pts: int)
    requires
        in_time(p),
        max_pts >= 0,
    ensures
        ({
            let r = windowed(p, tmin, tmax, max_pts);
            &&& r.len() <= max_pts
            &&& rising_within(r, 0, p.len() as int)
            &&& forall|k: int|
                0 <= k < r.len() ==> {
                    let i = #[trigger] r[k];
                    ||| tmin <= p[i].0 <= tmax
                    ||| p[i].0 < tmin && forall|j: int| i < j < p.len() ==> (#[trigger] p[j]).0
                        >= tmin
                    ||| p[i].0 > tmax && forall|j: int| 0 <= j < i ==> (#[trigger] p[j]).0 <= tmax
                }
        }),
{
    let start = first_past(p, tmin, false, 0);
    let end = first_past(p, tmax, true, 0);
    lemma_past(p, tmin, false, 0);
    lemma_past(p, tmax, true, 0);
    let a = if start > 0 {
        start - 1
    } else {
        0
    };
    let b = if end + 1 < p.len() {
        end + 1
    } else {
        p.len() as int
    };
    if a < b {
        law_points_are_limited(p, a, b, max_pts);
        lemma_reduced_rises(p, a, b, max_pts);
    }
}

/// The places of the samples that are drawn between two times.
pub fn window_pts(samples: &VecDeque<Sample>, tmin: i64, tmax: i64, max_pts: usize) -> (r: Vec<
    usize,
>)
    requires
        in_time(samples@),
    ensures
        places_view(r@) == windowed(samples@, tmin, tmax, max_pts as int),
        r@.len() <= max_pts,
{
    let n: usize = samples.len();
    if n == 0 {
        let out: Vec<usize> = Vec::new();
        assert(places_view(out@) =~= seq![]);
        return out;
    }
    let start: usize = lower_bound(samples, tmin, false);
    let end: usize = lower_bound(samples, tmax, true);
    let a: usize = if start > 0 {
        start - 1
    } else {
        0
    };
    let b: usize = if end < n {
        end + 1
    } else {
        n
    };
    decimate_min_max_deque(samples, a, b, max_pts)
}

// ---------------------------------------------------------------- stretches of time

/// A series of samples.
#[derive(Debug)]
pub struct Series {
    pub visible: bool,
    pub samples: VecDeque<Sample>,
}

/// Whether a time is that of a sample of a visible series.
pub open spec fn has_time(series: Seq<Series>, t: i64) -> bool {
    exists|i: int, k: int|
        0 <= i < series.len() && series[i].visible && 0 <= k < series[i].samples@.len() && (
        #[trigger] series[i].samples@[k]).0 == t
}

/// Whether two times are the first and the last of all samples of visible series.
pub open spec fn spans(series: Seq<Series>, lo: i64, hi: i64) -> bool {
    &&& has_time(series, lo)
    &&& has_time(series, hi)
    &&& forall|t: i64| #[trigger] has_time(series, t) ==> lo <= t <= hi
}

fn series_span(samples: &VecDeque<Sample>) -> (r: Option<(i64, i64)>)
    ensures
        r is None <==> samples@.len() == 0,
        r matches Some((lo, hi)) ==> {
            &&& forall|k: int|
                0 <= k < samples@.len() ==> lo <= (#[trigger] samples@[k]).0 <= hi
            &&& exists|k: int| 0 <= k < samples@.len() && (#[trigger] samples@[k]).0 == lo
            &&& exists|k: int| 0 <= k < samples@.len() && (#[trigger] samples@[k]).0 == hi
        },
{
    let n: usize = samples.len();
    if n == 0 {
        return None;
    }
    let mut lo: i64 = samples[0].0;
    let mut hi: i64 = samples[0].0;
    let mut k: usize = 1;
    assert(samples@[0].0 == lo);
    while k < n
        invariant
            0 < k <= n == samples@.len(),
            forall|j: int| 0 <= j < k ==> lo <= (#[trigger] samples@[j]).0 <= hi,
            exists|j: int| 0 <= j < k && (#[trigger] samples@[j]).0 == lo,
            exists|j: int| 0 <= j < k && (#[trigger] samples@[j]).0 == hi,
        decreases n - k,
    {
        let t: i64 = samples[k].0;
        assert(samples@[k as int].0 == t);
        if t < lo {
            lo = t;
        }
        if t > hi {
            hi = t;
        }
        k += 1;
    }
    Some((lo, hi))
}

/// The stretch of time of all visible series, or one second where they have no sample.
pub fn chart_full_range(series: &[Series]) -> (r: (i64, i64))
    ensures
        if exists|t: i64| #[trigger] has_time(series@, t) {
            spans(series@, r.0, r.1)
        } else {
            r == (0i64, 1_000_000_000i64)
        },
{
    let mut found: bool = false;
    let mut lo: i64 = 0;
    let mut hi: i64 = 0;
    let mut i: usize = 0;
    while i < series.len()
        invariant
            i <= series@.len(),
            found ==> has_time(series@, lo) && has_time(series@, hi),
            forall|a: int, k: int|
                0 <= a < i && series@[a].visible && 0 <= k < series@[a].samples@.len() ==> found
                    && lo <= (#[trigger] series@[a].samples@[k]).0 <= hi,
        decreases series@.len() - i,
    {
        if series[i].visible {
            if let Some((first, last)) = series_span(&series[i].samples) {
                proof {
                    let p = series@[i as int].samples@;
                    let x = choose|x: int| 0 <= x < p.len() && (#[trigger] p[x]).0 == first;
                    let y = choose|y: int| 0 <= y < p.len() && (#[trigger] p[y]).0 == last;
                    assert(series@[i as int].samples@[x].0 == first);
                    assert(series@[i as int].samples@[y].0 == last);
                    assert(has_time(series@, first));
                    assert(has_time(series@, last));
                }
                if !found || first < lo {
                    lo = first;
                }
                if !found || last > hi {
                    hi = last;
                }
                found = true;
            }
        }
        i += 1;
    }
    if found {
        assert(spans(series@, lo, hi));
        (lo, hi)
    } else {
        (0, 1_000_000_000)
    }
}

/// The smaller number.
pub open spec fn lesser(a: int, b: int) -> int {
    if a < b {
        a
    } else {
        b
    }
}

/// The greater number.
pub open spec fn greater(a: int, b: int) -> int {
    if a > b {
        a
    } else {
        b
    }
}

/// The stretch that is asked for: while paused or in a replay the one that was chosen, else as long
/// a one at the end of the data.
pub open spec fn asked_range(
    data: (i64, i64),
    view: Option<(i64, i64)>,
    pause: Option<(i64, i64)>,
    paused: bool,
    finite: bool,
) -> (int, int) {
    let whole = (data.0 as int, data.1 as int);
    let chosen = match view {
        Some(v) => (v.0 as int, v.1 as int),
        None => whole,
    };
    if paused {
        match view {
            Some(_) => chosen,
            None => match pause {
                Some(v) => (v.0 as int, v.1 as int),
                None => whole,
            },
        }
    } else if finite {
        chosen
    } else {
        match view {
            Some(v) => {
                let span = lesser(greater(v.1 - v.0, 1), greater(data.1 - data.0, 1));
                (greater(data.1 - span, data.0 as int), data.1 as int)
            },
            None => whole,
        }
    }
}

/// A stretch moved into the data, and shortened where it is longer.
pub open spec fn moved_inside(asked: (int, int), data: (i64, i64)) -> (int, int) {
    if data.1 > data.0 {
        let width = greater(lesser(asked.1 - asked.0, data.1 - data.0), 1);
        let start = lesser(greater(asked.0, data.0 as int), data.1 - width);
        (start, start + width)
    } else {
        asked
    }
}

fn smaller(a: i128, b: i128) -> (r: i128)
    ensures
        r == lesser(a as int, b as int),
{
    if a < b {
        a
    } else {
        b
    }
}

fn larger(a: i128, b: i128) -> (r: i128)
    ensures
        r == greater(a as int, b as int),
{
    if a > b {
        a
    } else {
        b
    }
}

/// The stretch of time that is shown. A replay stays where the user put it; a live capture follows
/// the newest samples.
pub fn visible_chart_range(
    data: (i64, i64),
    chart_view: Option<(i64, i64)>,
    pause_view: Option<(i64, i64)>,
    paused: bool,
    finite_source: bool,
) -> (r: (i64, i64))
    ensures
        (r.0 as int, r.1 as int) == moved_inside(
            asked_range(data, chart_view, pause_view, paused, finite_source),
            data,
        ),
{
    let d0: i128 = data.0 as i128;
    let d1: i128 = data.1 as i128;
    let view: (i64, i64) = if paused {
        match chart_view {
            Some(v) => v,
            None => match pause_view {
                Some(v) => v,
                None => data,
            },
        }
    } else if finite_source {
        match chart_view {
            Some(v) => v,
            None => data,
        }
    } else {
        match chart_view {
            Some(v) => {
                let span: i128 = smaller(larger(v.1 as i128 - v.0 as i128, 1), larger(d1 - d0, 1));
                (larger(d1 - span, d0) as i64, data.1)
            },
            None => data,
        }
    };
    if data.1 > data.0 {
        let width: i128 = larger(smaller(view.1 as i128 - view.0 as i128, d1 - d0), 1);
        let start: i128 = smaller(larger(view.0 as i128, d0), d1 - width);
        (start as i64, (start + width) as i64)
    } else {
        view
    }
}

/// What is shown lies within the data, and is never empty.
pub proof fn law_visible_ranges_stay_inside(
    data: (i64, i64),
    view: Option<(i64, i64)>,
    pause: Option<(i64, i64)>,
    paused: bool,
    finite: bool,
)
    requires
        data.0 < data.1,
    ensures
        ({
            let r = moved_inside(asked_range(data, view, pause, paused, finite), data);
            &&& data.0 <= r.0 < r.1 <= data.1
            &&& !paused && !finite ==> r.1 == data.1
            &&& (paused || finite) && view is Some && data.0 <= (view->0).0 < (view->0).1 <= data.1
                ==> r == ((view->0).0 as int, (view->0).1 as int)
        }),
{
}

/// The length of a stretch, within that of the data.
pub open spec fn view_span(view: (i64, i64), data: (i64, i64)) -> int {
    lesser(greater(view.1 - view.0, 1), greater(data.1 - data.0, 1))
}

/// The stretch after it was dragged by a fraction of its length: it stays within the data.
pub fn pan_chart_range(view: (i64, i64), data: (i64, i64), drag_delta: Ratio) -> (r: (i64, i64))
    requires
        data.0 < data.1,
    ensures
        ({
            let span = view_span(view, data);
            let moved = part_of(span, drag_delta.within_one(), drag_delta.whole());
            let start = lesser(greater(view.0 - moved, data.0 as int), data.1 - span);
            r.0 == start && r.1 == start + span
        }),
        data.0 <= r.0 < r.1 <= data.1,
{
    let d0: i128 = data.0 as i128;
    let d1: i128 = data.1 as i128;
    let span: i128 = smaller(larger(view.1 as i128 - view.0 as i128, 1), larger(d1 - d0, 1));
    let moved: i128 = part(span, drag_delta.numerator(), drag_delta.denominator());
    let start: i128 = smaller(larger(view.0 as i128 - moved, d0), d1 - span);
    (start as i64, (start + span) as i64)
}

/// Whether two fractions between zero and one, the second no smaller than the first, are less than
/// a hundredth apart.
pub open spec fn close(low: Ratio, high: Ratio) -> bool {
    100 * (high.unit() * low.whole() - low.unit() * high.whole()) < low.whole() * high.whole()
}

/// The stretch between two fractions of a stretch.
pub open spec fn between(view: (i64, i64), low: Ratio, high: Ratio) -> Option<(int, int)> {
    let span = greater(view.1 - view.0, 1);
    if close(low, high) {
        None
    } else {
        Some(
            (
                view.0 + part_of(span, low.unit(), low.whole()),
                view.0 + part_of(span, high.unit(), high.whole()),
            ),
        )
    }
}

/// The stretch between two fractions of a stretch, in either order, or none where they are less than
/// a hundredth apart. A stretch has at least one nanosecond.
pub fn selected_chart_range(view: (i64, i64), start: Ratio, end: Ratio) -> (r: Option<(i64, i64)>)
    requires
        view.0 < i64::MAX,
    ensures
        match r {
            None => (if start.unit_up_to(end) {
                between(view, start, end)
            } else {
                between(view, end, start)
            }) is None,
            Some(v) => Some((v.0 as int, v.1 as int)) == (if start.unit_up_to(end) {
                between(view, start, end)
            } else {
                between(view, end, start)
            }) && view.0 <= v.0 <= v.1 <= greater(view.1 as int, view.0 + 1),
        },
{
    let sn: i128 = start.unit_numerator();
    let sd: i128 = start.denominator();
    let en: i128 = end.unit_numerator();
    let ed: i128 = end.denominator();
    proof {
        assert(0 <= sn * ed <= 0xFFFF_FFFF * 0xFFFF_FFFF && 0 <= en * sd <= 0xFFFF_FFFF
            * 0xFFFF_FFFF && 0 <= sd * ed <= 0xFFFF_FFFF * 0xFFFF_FFFF) by (nonlinear_arith)
            requires
                0 <= sn <= 0xFFFF_FFFF,
                0 <= en <= 0xFFFF_FFFF,
                1 <= sd <= 0xFFFF_FFFF,
                1 <= ed <= 0xFFFF_FFFF,
        ;
        assert(sd * ed == ed * sd) by (nonlinear_arith);
    }
    let left: i128 = sn * ed;
    let right: i128 = en * sd;
    let (low, high) = if left <= right {
        (start, end)
    } else {
        (end, start)
    };
    let apart: i128 = if left <= right {
        right - left
    } else {
        left - right
    };
    if 100 * apart < sd * ed {
        return None;
    }
    let span: i128 = larger(view.1 as i128 - view.0 as i128, 1);
    proof {
        law_parts_follow_their_fractions(span as int, low, high);
    }
    let a: i128 = part(span, low.unit_numerator(), low.denominator());
    let b: i128 = part(span, high.unit_numerator(), high.denominator());
    Some(((view.0 as i128 + a) as i64, (view.0 as i128 + b) as i64))
}

/// A border after a step towards its goal: 42 of a hundred parts of the way.
pub open spec fn eased(current: int, target: int) -> int {
    if target >= current {
        current + (target - current) * 42 / 100
    } else {
        current - (current - target) * 42 / 100
    }
}

/// The distance between two numbers.
pub open spec fn distance(a: int, b: int) -> int {
    if a > b {
        a - b
    } else {
        b - a
    }
}

/// How near a stretch is to come to its goal: a five-hundredth of its length, but a microsecond at
/// least.
pub open spec fn nearness(target: (i64, i64)) -> int {
    greater(distance(target.0 as int, target.1 as int) / 500, 1000)
}

fn ease(current: i64, target: i64) -> (r: i64)
    ensures
        r == eased(current as int, target as int),
{
    let c: i128 = current as i128;
    let t: i128 = target as i128;
    if t >= c {
        (c + (t - c) * 42 / 100) as i64
    } else {
        (c - (c - t) * 42 / 100) as i64
    }
}

fn apart(a: i64, b: i64) -> (r: i128)
    ensures
        r == distance(a as int, b as int),
{
    if a > b {
        a as i128 - b as i128
    } else {
        b as i128 - a as i128
    }
}

/// A step of a stretch towards the one that was asked for, and whether it is reached.
pub fn eased_zoom_step(current: (i64, i64), target: (i64, i64)) -> (r: ((i64, i64), bool))
    ensures
        ({
            let a = eased(current.0 as int, target.0 as int);
            let b = eased(current.1 as int, target.1 as int);
            &&& r.1 == (distance(a, target.0 as int) <= nearness(target) && distance(
                b,
                target.1 as int,
            ) <= nearness(target))
            &&& if r.1 {
                r.0 == target
            } else {
                r.0.0 == a && r.0.1 == b
            }
        }),
{
    let a: i64 = ease(current.0, target.0);
    let b: i64 = ease(current.1, target.1);
    let near: i128 = larger(apart(target.0, target.1) / 500, 1000);
    if apart(a, target.0) <= near && apart(b, target.1) <= near {
        (target, true)
    } else {
        ((a, b), false)
    }
}

/// A step never leads away from its goal or beyond it, and it comes nearer while it is not near.
pub proof fn law_zoom_moves_towards_its_goal(current: int, target: int)
    ensures
        current <= target ==> current <= eased(current, target) <= target,
        current >= target ==> target <= eased(current, target) <= current,
        distance(current, target) > 1000 ==> distance(eased(current, target), target) < distance(
            current,
            target,
        ),
{
}

/// The stretch that is shown and the one that it moves to.
#[derive(Clone, Copy, Debug)]
pub struct ZoomState {
    pub view: Option<(i64, i64)>,
    pub target: Option<(i64, i64)>,
}

impl ZoomState {
    /// Moves on towards the stretch that was asked for, if one was.
    pub fn advance_chart_zoom(&mut self)
        ensures
            match (old(self).view, old(self).target) {
                (Some(current), Some(target)) => {
                    let a = eased(current.0 as int, target.0 as int);
                    let b = eased(current.1 as int, target.1 as int);
                    if distance(a, target.0 as int) <= nearness(target) && distance(
                        b,
                        target.1 as int,
                    ) <= nearness(target) {
                        final(self).view == Some(target) && final(self).target is None
                    } else {
                        &&& final(self).view is Some
                        &&& (final(self).view->0).0 == a
                        &&& (final(self).view->0).1 == b
                        &&& final(self).target == old(self).target
                    }
                },
                _ => *final(self) == *old(self),
            },
    {
        if let Some(current) = self.view {
            if let Some(target) = self.target {
                let (next, finished) = eased_zoom_step(current, target);
                self.view = Some(next);
                if finished {
                    self.target = None;
                }
            }
        }
    }
}

// ---------------------------------------------------------------- readout

/// What the cursors read off a curve, as texts.
#[derive(Debug)]
pub struct Reading {
    pub name: String,
    pub visible: bool,
    pub value: Option<String>,
    /// The value at the second cursor, and the difference.
    pub second: Option<(String, String)>,
}

/// The part of a readout that a curve gives, with one cursor or with two.
pub open spec fn reading_text(r: Reading, dual: bool, english: bool) -> Option<Seq<char>> {
    if !r.visible {
        None
    } else if !dual {
        match r.value {
            Some(v) => Some(r.name@ + "="@ + v@),
            None => None,
        }
    } else {
        match (r.value, r.second) {
            (Some(v), Some((w, d))) => Some(
                r.name@ + ": "@ + v@ + " -> "@ + w@ + (if english {
                    "  delta="@
                } else {
                    "  差值="@
                }) + d@,
            ),
            _ => None,
        }
    }
}

/// The parts of a readout.
pub open spec fn readout_parts(
    head: Seq<char>,
    readings: Seq<Reading>,
    dual: bool,
    english: bool,
) -> Seq<Seq<char>>
    decreases readings.len(),
{
    if readings.len() == 0 {
        seq![head]
    } else {
        let before = readout_parts(head, readings.drop_last(), dual, english);
        match reading_text(readings.last(), dual, english) {
            Some(part) => before.push(part),
            None => before,
        }
    }
}

fn reading_string(r: &Reading, dual: bool, english: bool) -> (s: Option<String>)
    ensures
        match s {
            Some(t) => reading_text(*r, dual, english) == Some(t@),
            None => reading_text(*r, dual, english) is None,
        },
{
    if !r.visible {
        return None;
    }
    match &r.value {
        None => None,
        Some(v) => {
            let mut out = r.name.clone();
            if !dual {
                out.push_str("=");
                out.push_str(v.as_str());
                return Some(out);
            }
            match &r.second {
                None => None,
                Some((w, d)) => {
                    out.push_str(": ");
                    out.push_str(v.as_str());
                    out.push_str(" -> ");
                    out.push_str(w.as_str());
                    if english {
                        out.push_str("  delta=");
                    } else {
                        out.push_str("  差值=");
                    }
                    out.push_str(d.as_str());
                    Some(out)
                },
            }
        },
    }
}

/// The readout of the cursors: the times, then each visible curve.
pub fn cursor_readout(head: &str, readings: &[Reading], dual: bool, english: bool) -> (r: String)
    ensures
        r@ == text::joined(
            readout_parts(head@, readings@, dual, english),
            if dual {
                "   |   "@
            } else {
                "  |  "@
            },
        ),
{
    let mut parts: Vec<String> = Vec::new();
    parts.push(head.to_owned());
    let mut i: usize = 0;
    assert(readings@.take(0) =~= seq![]);
    assert(text::texts(parts@) =~= readout_parts(head@, readings@.take(0), dual, english));
    while i < readings.len()
        invariant
            i <= readings@.len(),
            text::texts(parts@) == readout_parts(head@, readings@.take(i as int), dual, english),
        decreases readings@.len() - i,
    {
        let ghost before = parts@;
        assert(readings@.take(i + 1).drop_last() =~= readings@.take(i as int));
        if let Some(part) = reading_string(&readings[i], dual, english) {
            parts.push(part);
            assert(text::texts(parts@) =~= text::texts(before).push(part@));
        }
        i += 1;
    }
    assert(readings@.take(i as int) =~= readings@);
    if dual {
        text::join(parts.as_slice(), "   |   ")
    } else {
        text::join(parts.as_slice(), "  |  ")
    }
}

} // verus!
