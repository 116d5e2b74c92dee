//! Order statistics on whole numbers.

use vstd::prelude::*;

verus! {

/// Whether no number is larger than one that follows it.
pub open spec fn is_sorted(s: Seq<u64>) -> bool {
    forall|i: int, j: int| 0 <= i <= j < s.len() ==> s[i] <= s[j]
}

/// Whether `t` is `s` in ascending order.
pub open spec fn sorts(t: Seq<u64>, s: Seq<u64>) -> bool {
    is_sorted(t) && t.to_multiset() == s.to_multiset()
}

/// There is only one ascending order.
pub proof fn law_sorted_order_is_unique(a: Seq<u64>, b: Seq<u64>, s: Seq<u64>)
    requires
        sorts(a, s),
        sorts(b, s),
    ensures
        a == b,
{
    let leq = |x: u64, y: u64| x <= y;
    assert(vstd::relations::sorted_by(a, leq));
    assert(vstd::relations::sorted_by(b, leq));
    vstd::seq_lib::lemma_sorted_unique(a, b, leq);
}

/// Sorting keeps the length.
pub proof fn lemma_sorts_len(t: Seq<u64>, s: Seq<u64>)
    requires
        sorts(t, s),
    ensures
        t.len() == s.len(),
{
    broadcast use vstd::seq_lib::group_to_multiset_ensures;

    assert(t.len() == t.to_multiset().len());
    assert(s.len() == s.to_multiset().len());
}

/// The numbers of `s` in ascending order.
pub fn sorted(s: &[u64]) -> (t: Vec<u64>)
    ensures
        sorts(t@, s@),
{
    let mut t: Vec<u64> = Vec::new();
    let mut i: usize = 0;
    assert(s@.subrange(0, 0) =~= t@);
    while i < s.len()
        invariant
            i <= s@.len(),
            t@.len() == i,
            sorts(t@, s@.subrange(0, i as int)),
        decreases s@.len() - i,
    {
        let x: u64 = s[i];
        let mut at: usize = i;
        while at > 0 && t[at - 1] > x
            invariant
                at <= i,
                t@.len() == i,
                is_sorted(t@),
                forall|k: int| at <= k < i ==> t@[k] > x,
            decreases at,
        {
            at = at - 1;
        }
        let ghost before = t@;
        t.insert(at, x);
        proof {
            broadcast use vstd::seq_lib::group_to_multiset_ensures;

            vstd::seq_lib::to_multiset_insert(before, at as int, x);
            assert(s@.subrange(0, i + 1) =~= s@.subrange(0, i as int).push(x));
            assert forall|a: int, b: int| 0 <= a <= b < t@.len() implies t@[a] <= t@[b] by {
                let pa = if a < at {
                    a
                } else {
                    a - 1
                };
                let pb = if b < at {
                    b
                } else {
                    b - 1
                };
                if a != at && b != at {
                    assert(before[pa] <= before[pb]);
                } else if a != at {
                    if at > 0 {
                        assert(before[pa] <= before[at - 1]);
                    }
                }
            }
        }
        i = i + 1;
    }
    assert(s@.subrange(0, i as int) =~= s@);
    t
}

/// The value a `percent` part of the way through a sorted list, in hundredths, with
/// linear interpolation between neighbours.
pub open spec fn percentile_of(t: Seq<u64>, percent: int) -> int {
    if t.len() == 0 {
        0
    } else {
        let pos = percent * (t.len() - 1);
        let at = pos / 100;
        let next = if at + 1 < t.len() {
            at + 1
        } else {
            t.len() - 1
        };
        t[at] * (100 - pos % 100) + t[next] * (pos % 100)
    }
}

pub proof fn lemma_percentile_bounds(t: Seq<u64>, percent: int)
    requires
        is_sorted(t),
        t.len() > 0,
        0 <= percent <= 100,
    ensures
        ({
            let pos = percent * (t.len() - 1);
            let at = pos / 100;
            let next = if at + 1 < t.len() {
                at + 1
            } else {
                t.len() - 1
            };
            &&& 0 <= at < t.len()
            &&& at <= next < t.len()
            &&& 100 * t[at] <= percentile_of(t, percent) <= 100 * t[next]
        }),
{
    let n = t.len() - 1;
    let pos = percent * n;
    let at = pos / 100;
    let r = pos % 100;
    assert(0 <= pos <= 100 * n) by (nonlinear_arith)
        requires
            pos == percent * n,
            0 <= percent <= 100,
            0 <= n,
    ;
    let next = if at + 1 < t.len() {
        at + 1
    } else {
        t.len() - 1
    };
    let a = t[at] as int;
    let b = t[next] as int;
    assert(a <= b);
    assert(100 * a <= a * (100 - r) + b * r <= 100 * b) by (nonlinear_arith)
        requires
            0 <= a <= b,
            0 <= r < 100,
    ;
}

/// A larger part of the way through a sorted list is never a smaller value.
pub proof fn law_percentiles_ascend(t: Seq<u64>, p: int, q: int)
    requires
        is_sorted(t),
        0 <= p <= q <= 100,
    ensures
        percentile_of(t, p) <= percentile_of(t, q),
{
    if t.len() > 0 {
        let n = t.len() - 1;
        lemma_percentile_bounds(t, p);
        lemma_percentile_bounds(t, q);
        let (pp, pq) = (p * n, q * n);
        assert(pp <= pq) by (nonlinear_arith)
            requires
                pp == p * n,
                pq == q * n,
                p <= q,
                0 <= n,
        ;
        let (a, b) = (pp / 100, pq / 100);
        if a == b {
            let next = if a + 1 < t.len() {
                a + 1
            } else {
                t.len() - 1
            };
            let x = t[a] as int;
            let y = t[next] as int;
            let (r, s) = (pp % 100, pq % 100);
            assert(r <= s);
            assert(x * (100 - r) + y * r <= x * (100 - s) + y * s) by (nonlinear_arith)
                requires
                    x <= y,
                    r <= s,
            ;
        } else {
            assert(a + 1 <= b);
            assert(t[a + 1] <= t[b]);
        }
    }
}

/// The value a `percent` part of the way through a sorted list, in hundredths.
pub fn percentile(t: &[u64], percent: u64) -> (v: u128)
    requires
        is_sorted(t@),
        percent <= 100,
    ensures
        v == percentile_of(t@, percent as int),
{
    if t.len() == 0 {
        return 0;
    }
    let n: u128 = (t.len() - 1) as u128;
    assert(0 <= percent * n <= 100 * n) by (nonlinear_arith)
        requires
            0 <= percent <= 100,
            0 <= n,
    ;
    let pos: u128 = (percent as u128) * n;
    let at: usize = (pos / 100) as usize;
    let r: u128 = pos % 100;
    let next: usize = if at + 1 < t.len() { at + 1 } else { t.len() - 1 };
    let low: u128 = t[at] as u128;
    let high: u128 = t[next] as u128;
    assert(0 <= low * (100 - r) <= 100 * low && 0 <= high * r <= 100 * high) by (nonlinear_arith)
        requires
            0 <= low,
            0 <= high,
            0 <= r < 100,
    ;
    low * (100 - r) + high * r
}

/// How often neighbours lie on different sides of the median, and how many lie above it.
pub struct RunCounts {
    pub runs: usize,
    pub above: usize,
    pub below: usize,
}

/// Whether a number lies above the median of the sorted list `t`.
pub open spec fn above_median(t: Seq<u64>, x: u64) -> bool {
    100 * x > percentile_of(t, 50)
}

/// How many of the first `n` numbers of `s` lie above the median of `t`.
pub open spec fn count_above(s: Seq<u64>, t: Seq<u64>, n: int) -> int
    decreases n,
{
    if n <= 0 {
        0
    } else {
        count_above(s, t, n - 1) + if above_median(t, s[n - 1]) {
            1int
        } else {
            0
        }
    }
}

/// How many runs on one side of the median the first `n` numbers of `s` make.
pub open spec fn count_runs(s: Seq<u64>, t: Seq<u64>, n: int) -> int
    decreases n,
{
    if n <= 1 {
        1
    } else {
        count_runs(s, t, n - 1) + if above_median(t, s[n - 1]) != above_median(t, s[n - 2]) {
            1int
        } else {
            0
        }
    }
}

/// Counts the runs above and below the median.
pub fn runs_about_median(s: &[u64]) -> (r: RunCounts)
    ensures
        r.runs == count_runs(s@, in_order(s@), s@.len() as int),
        r.above == count_above(s@, in_order(s@), s@.len() as int),
        r.above + r.below == s@.len(),
        s@.len() > 0 ==> r.runs <= s@.len(),
{
    let t = sorted(s);
    proof {
        lemma_in_order(t@, s@);
    }
    let median: u128 = percentile(t.as_slice(), 50);
    let mut runs: usize = 1;
    let mut above: usize = 0;
    let mut last: bool = false;
    let mut i: usize = 0;
    while i < s.len()
        invariant
            i <= s@.len(),
            sorts(t@, s@),
            median == percentile_of(t@, 50),
            above == count_above(s@, t@, i as int),
            0 <= above <= i,
            runs == count_runs(s@, t@, i as int),
            runs <= i + 1,
            i == 0 ==> runs == 1,
            i > 0 ==> last == above_median(t@, s@[i - 1]) && runs <= i,
        decreases s@.len() - i,
    {
        let now: bool = 100 * (s[i] as u128) > median;
        if now {
            above = above + 1;
        }
        if i > 0 && now != last {
            runs = runs + 1;
        }
        last = now;
        i = i + 1;
    }
    RunCounts { runs, above, below: s.len() - above }
}

/// The numbers of `s` in ascending order.
pub open spec fn in_order(s: Seq<u64>) -> Seq<u64> {
    choose|t: Seq<u64>| sorts(t, s)
}

/// A sorted list of the same numbers is that order.
pub proof fn lemma_in_order(t: Seq<u64>, s: Seq<u64>)
    requires
        sorts(t, s),
    ensures
        in_order(s) == t,
{
    law_sorted_order_is_unique(in_order(s), t, s);
}

/// Every list has an ascending order.
pub proof fn lemma_order_exists(s: Seq<u64>)
    ensures
        sorts(in_order(s), s),
{
    let leq = |x: u64, y: u64| x <= y;
    s.lemma_sort_by_ensures(leq);
    let t = s.sort_by(leq);
    assert forall|i: int, j: int| 0 <= i <= j < t.len() implies t[i] <= t[j] by {
        if i < j {
            assert(leq(t[i], t[j]));
        }
    }
    assert(sorts(t, s));
}

/// Where the number a `percent` part of the way through `n` sorted ones stands, rounded to
/// the nearest.
pub open spec fn rank(n: int, percent: int) -> int {
    (percent * (n - 1) + 50) / 100
}

/// The number a `percent` part of the way through the ordered numbers of `s`.
pub open spec fn ranked(s: Seq<u64>, percent: int) -> u64 {
    in_order(s)[rank(s.len() as int, percent)]
}

/// A rank lies within the list, and a larger part of the way is no smaller rank.
pub proof fn lemma_rank(n: int, p: int, q: int)
    requires
        n > 0,
        0 <= p <= q <= 100,
    ensures
        0 <= rank(n, p) <= rank(n, q) < n,
{
    assert(0 <= p * (n - 1) <= q * (n - 1) <= 100 * (n - 1)) by (nonlinear_arith)
        requires
            n > 0,
            0 <= p <= q <= 100,
    ;
}

/// The number a `percent` part of the way through a sorted list.
pub fn nearest(t: &[u64], percent: u64) -> (v: u64)
    requires
        t@.len() > 0,
        percent <= 100,
    ensures
        v == t@[rank(t@.len() as int, percent as int)],
{
    let n: u128 = (t.len() - 1) as u128;
    proof {
        lemma_rank(t@.len() as int, percent as int, percent as int);
        assert(0 <= percent * n <= 100 * n) by (nonlinear_arith)
            requires
                0 <= percent <= 100,
                0 <= n,
        ;
    }
    let at: u128 = ((percent as u128) * n + 50) / 100;
    t[at as usize]
}

/// The squares of the numbers of `s`, added up.
pub open spec fn square_total(s: Seq<u64>) -> int
    decreases s.len(),
{
    if s.len() == 0 {
        0
    } else {
        square_total(s.drop_last()) + s.last() * s.last()
    }
}

/// The ends of a list in order are its least and its greatest number, and between two neighbours
/// a percentile moves in proportion.
pub proof fn law_percentiles_reach_the_ends(t: Seq<u64>, percent: int)
    requires
        t.len() > 0,
        0 <= percent <= 100,
    ensures
        percentile_of(t, 0) == 100 * t[0],
        percentile_of(t, 100) == 100 * t[t.len() - 1],
        t.len() == 1 ==> percentile_of(t, percent) == 100 * t[0],
        t.len() == 2 ==> percentile_of(t, percent) == 100 * t[0] + percent * (t[1] - t[0]),
        t.len() == 3 ==> percentile_of(t, 50) == 100 * t[1],
        t.len() == 4 ==> percentile_of(t, 50) == 50 * t[1] + 50 * t[2],
{
    let n = t.len() - 1;
    assert(0 * n == 0) by (nonlinear_arith);
    assert((100 * n) / 100 == n && (100 * n) % 100 == 0);
    let a = t[0] as int;
    let b = t[n] as int;
    assert(a * 100 + t[if 1 < t.len() { 1 } else { n }] * 0 == 100 * a) by (nonlinear_arith);
    assert(b * 100 + b * 0 == 100 * b) by (nonlinear_arith);
    if t.len() == 1 {
        assert(percent * n == 0) by (nonlinear_arith)
            requires
                n == 0,
        ;
    }
    if t.len() == 2 {
        assert(percent * n == percent) by (nonlinear_arith)
            requires
                n == 1,
        ;
        assert(percent < 100 ==> percent / 100 == 0 && percent % 100 == percent);
        assert(a * (100 - percent) + b * percent == 100 * a + percent * (b - a)) by (nonlinear_arith);
    }
    if t.len() == 3 {
        assert(50 * n == 100);
        assert(t[1] * 100 + t[2] * 0 == 100 * t[1]) by (nonlinear_arith);
    }
    if t.len() == 4 {
        assert(50 * n == 150);
        let pos = 50 * n;
        assert(pos / 100 == 1 && pos % 100 == 50);
        assert(percentile_of(t, 50) == t[1] * (100 - pos % 100) + t[2] * (pos % 100));
        let (x, y, r) = (t[1] as int, t[2] as int, pos % 100);
        assert(x * (100 - r) + y * r == 50 * x + 50 * y) by (nonlinear_arith)
            requires
                r == 50,
        ;
    }
}

/// A number ranked a part of the way through a list stands no farther from that part of the way
/// than half a place; the ends rank first and last.
pub proof fn law_ranks_are_the_nearest(n: int, percent: int)
    requires
        n > 0,
    ensures
        -50 <= 100 * rank(n, percent) - percent * (n - 1) <= 50,
        rank(n, 0) == 0,
        rank(n, 100) == n - 1,
{
    assert(0 * (n - 1) == 0) by (nonlinear_arith);
}

/// Equal numbers lie all on one side of their median and make one run.
pub proof fn law_equal_numbers_make_one_run(s: Seq<u64>, t: Seq<u64>, x: u64, n: int)
    requires
        0 <= n <= s.len(),
        t.len() > 0,
        forall|i: int| 0 <= i < s.len() ==> #[trigger] s[i] == x,
        forall|i: int| 0 <= i < t.len() ==> #[trigger] t[i] == x,
    ensures
        count_runs(s, t, n) == 1,
        count_above(s, t, n) == 0,
    decreases n,
{
    let last = t.len() - 1;
    let pos = 50 * last;
    let at = pos / 100;
    assert(0 <= at <= last);
    let next = if at + 1 < t.len() {
        at + 1
    } else {
        last
    };
    let r = pos % 100;
    assert(t[at] == x && t[next] == x);
    assert(x * (100 - r) + x * r == 100 * x) by (nonlinear_arith);
    assert(percentile_of(t, 50) == 100 * x);
    if n > 0 {
        law_equal_numbers_make_one_run(s, t, x, n - 1);
    }
}

/// A number that lies on the other side of the median than the one before begins a run; one on
/// the same side does not. Only numbers above the median count as above.
pub proof fn law_runs_end_at_the_median(s: Seq<u64>, t: Seq<u64>, n: int)
    requires
        1 <= n < s.len(),
    ensures
        100 * s[n - 1] > percentile_of(t, 50) && 100 * s[n] > percentile_of(t, 50) ==> count_runs(
            s,
            t,
            n + 1,
        ) == count_runs(s, t, n) && count_above(s, t, n + 1) == count_above(s, t, n) + 1,
        100 * s[n - 1] <= percentile_of(t, 50) && 100 * s[n] <= percentile_of(t, 50) ==> count_runs(
            s,
            t,
            n + 1,
        ) == count_runs(s, t, n) && count_above(s, t, n + 1) == count_above(s, t, n),
        100 * s[n - 1] <= percentile_of(t, 50) && 100 * s[n] > percentile_of(t, 50) ==> count_runs(
            s,
            t,
            n + 1,
        ) == count_runs(s, t, n) + 1,
        100 * s[n - 1] > percentile_of(t, 50) && 100 * s[n] <= percentile_of(t, 50) ==> count_runs(
            s,
            t,
            n + 1,
        ) == count_runs(s, t, n) + 1,
{
}

} // verus!
