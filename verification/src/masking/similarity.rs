//! How alike traffic is, and when it stops being so.
//!
//! Scores and measures are held in millionths, thresholds in thousandths.

use crate::masking::empirical::Moments;
use crate::utils::goodness::chi_squared;
#[allow(unused_imports)]
use crate::utils::goodness;
use crate::utils::roots::square_root;
#[allow(unused_imports)]
use crate::utils::roots;
#[allow(unused_imports)]
use crate::utils::spread;
use crate::utils::stats::sorted;
#[allow(unused_imports)]
use crate::utils::stats;
use crate::utils::window::{mean_of, SlidingWindow};
#[allow(unused_imports)]
use crate::utils::window;
use vstd::prelude::*;

verus! {

/// How many numbers of `s` are at most `v`.
pub open spec fn count_upto(s: Seq<u64>, v: u64) -> int
    decreases s.len(),
{
    if s.len() == 0 {
        0
    } else {
        count_upto(s.drop_last(), v) + if s.last() <= v {
            1int
        } else {
            0
        }
    }
}

/// How far the parts of two lists up to `v` are apart, times both lengths.
pub open spec fn gap_at(a: Seq<u64>, b: Seq<u64>, v: u64) -> int {
    let d = count_upto(a, v) * b.len() - count_upto(b, v) * a.len();
    if d < 0 {
        -d
    } else {
        d
    }
}

/// The points at which two sorted lists are compared: those of the first, and then those of
/// the second, but none below the end of the first.
pub open spec fn point(a: Seq<u64>, b: Seq<u64>, k: int) -> u64 {
    if k < a.len() {
        a[k]
    } else if b[k - a.len()] < a.last() {
        a.last()
    } else {
        b[k - a.len()]
    }
}

/// The widest gap at the first `k` points.
pub open spec fn widest(a: Seq<u64>, b: Seq<u64>, k: int) -> int
    decreases k,
{
    if k <= 0 {
        0
    } else {
        let before = widest(a, b, k - 1);
        let here = gap_at(a, b, point(a, b, k - 1));
        if here > before {
            here
        } else {
            before
        }
    }
}

/// The Kolmogorov-Smirnov distance of two lists, in millionths; one where a list is empty.
pub open spec fn ks_of(a: Seq<u64>, b: Seq<u64>) -> int {
    if a.len() == 0 || b.len() == 0 {
        1_000_000
    } else {
        let (s, t) = (stats::in_order(a), stats::in_order(b));
        1_000_000 * widest(s, t, (s.len() + t.len()) as int) / (s.len() * t.len()) as int
    }
}

/// The `i`-th number, or the last one beyond the end.
pub open spec fn at_or_last(s: Seq<u64>, i: int) -> u64 {
    if i < s.len() {
        s[i]
    } else {
        s.last()
    }
}

/// The distances of two sorted lists at the first `k` places, added up.
pub open spec fn distances(a: Seq<u64>, b: Seq<u64>, k: int) -> int
    decreases k,
{
    if k <= 0 {
        0
    } else {
        let (x, y) = (at_or_last(a, k - 1), at_or_last(b, k - 1));
        distances(a, b, k - 1) + if x < y {
            y - x
        } else {
            x - y
        }
    }
}

/// The longer of two lengths.
pub open spec fn longer(a: int, b: int) -> int {
    if a < b {
        b
    } else {
        a
    }
}

/// The mean distance of two lists in order, in millionths; none where a list is empty.
pub open spec fn wasserstein_of(a: Seq<u64>, b: Seq<u64>) -> Option<int> {
    if a.len() == 0 || b.len() == 0 {
        None
    } else {
        let (s, t) = (stats::in_order(a), stats::in_order(b));
        let n = longer(s.len() as int, t.len() as int);
        Some(1_000_000 * distances(s, t, n) / n)
    }
}

/// The distance of two measures in parts of the larger, in millionths.
pub open spec fn apart(a: int, b: int) -> int {
    let top = longer(a, b);
    let d = if a < b {
        b - a
    } else {
        a - b
    };
    if top < 1 {
        0
    } else {
        1_000_000 * d / top
    }
}

/// The middle that is reckoned for samples: their mean, from two samples on.
pub open spec fn middle(m: Moments) -> int {
    if m.count < 2 {
        0
    } else {
        m.mean_law()
    }
}

/// How alike two distributions are: one, less a tenth of their distance by mean, spread and
/// middle.
pub open spec fn likeness(a: Moments, b: Moments) -> int {
    1_000_000 - (3 * apart(a.mean_law(), b.mean_law()) + 3 * apart(a.spread_law(), b.spread_law())
        + 4 * apart(middle(a), middle(b))) / 100
}

fn count_sorted(t: &Vec<u64>, from: usize, v: u64) -> (n: usize)
    requires
        stats::is_sorted(t@),
        from <= t@.len(),
        forall|k: int| 0 <= k < from ==> t@[k] <= v,
    ensures
        from <= n <= t@.len(),
        n == count_upto(t@, v),
        forall|k: int| 0 <= k < n ==> t@[k] <= v,
{
    let mut n: usize = from;
    while n < t.len() && t[n] <= v
        invariant
            from <= n <= t@.len(),
            forall|k: int| 0 <= k < n ==> t@[k] <= v,
        decreases t@.len() - n,
    {
        n = n + 1;
    }
    proof {
        assert forall|k: int| n <= k < t@.len() implies t@[k] > v by {
            assert(t@[n as int] <= t@[k]);
        }
        lemma_count_sorted(t@, v, n as int);
    }
    n
}

proof fn lemma_count_sorted(t: Seq<u64>, v: u64, n: int)
    requires
        0 <= n <= t.len(),
        forall|k: int| 0 <= k < n ==> t[k] <= v,
        forall|k: int| n <= k < t.len() ==> t[k] > v,
    ensures
        count_upto(t, v) == n,
    decreases t.len(),
{
    if t.len() > 0 {
        let rest = t.drop_last();
        if n == t.len() {
            assert(t.last() == t[n - 1]);
            lemma_count_sorted(rest, v, n - 1);
        } else {
            assert(t.last() == t[t.len() - 1]);
            lemma_count_sorted(rest, v, n);
        }
    }
}

proof fn lemma_count_bounds(s: Seq<u64>, v: u64)
    ensures
        0 <= count_upto(s, v) <= s.len(),
    decreases s.len(),
{
    if s.len() > 0 {
        lemma_count_bounds(s.drop_last(), v);
    }
}

proof fn lemma_gap_bounds(a: Seq<u64>, b: Seq<u64>, v: u64)
    ensures
        0 <= gap_at(a, b, v) <= a.len() * b.len(),
{
    lemma_count_bounds(a, v);
    lemma_count_bounds(b, v);
    let (x, y, n, m) = (count_upto(a, v), count_upto(b, v), a.len() as int, b.len() as int);
    assert(-(n * m) <= x * m - y * n <= n * m) by (nonlinear_arith)
        requires
            0 <= x <= n,
            0 <= y <= m,
    ;
}

proof fn lemma_widest_bounds(a: Seq<u64>, b: Seq<u64>, k: int)
    ensures
        0 <= widest(a, b, k) <= a.len() * b.len(),
    decreases k,
{
    assert(0 <= a.len() * b.len()) by (nonlinear_arith);
    if k > 0 {
        lemma_widest_bounds(a, b, k - 1);
        lemma_gap_bounds(a, b, point(a, b, k - 1));
    }
}

/// Compares distributions of traffic.
#[derive(Debug, Clone, Copy)]
pub struct ProfileSimilarityChecker {
    pub ks_significance_micro: u64,
    pub chi_sq_significance_micro: u64,
}

impl Default for ProfileSimilarityChecker {
    fn default() -> (c: Self)
        ensures
            c.ks_significance_micro == 50_000,
            c.chi_sq_significance_micro == 50_000,
    {
        ProfileSimilarityChecker::new()
    }
}

impl ProfileSimilarityChecker {
    pub fn new() -> (c: Self)
        ensures
            c.ks_significance_micro == 50_000,
            c.chi_sq_significance_micro == 50_000,
    {
        ProfileSimilarityChecker {
            ks_significance_micro: 50_000,
            chi_sq_significance_micro: 50_000,
        }
    }

    /// How far counts are from expected ones, which are in millionths; without any, or with
    /// not as many of both, there is no telling.
    pub fn chi_squared_test(&self, observed: &[u64], expected: &[u64]) -> (c: Option<u128>)
        requires
            observed@.len() == expected@.len() ==> goodness::are_counts(
                observed@,
                expected@,
                observed@.len() as int,
            ),
        ensures
            c == if observed@.len() != expected@.len() || observed@.len() == 0 {
                None
            } else {
                Some(goodness::chi_total(observed@, expected@, observed@.len() as int) as u128)
            },
    {
        if observed.len() != expected.len() || observed.len() == 0 {
            return None;
        }
        Some(chi_squared(observed, expected, observed.len()))
    }

    /// The Kolmogorov-Smirnov distance, in millionths.
    pub fn kolmogorov_smirnov(&self, a: &[u64], b: &[u64]) -> (d: u64)
        requires
            a@.len() <= u32::MAX,
            b@.len() <= u32::MAX,
        ensures
            d == ks_of(a@, b@),
            d <= 1_000_000,
    {
        if a.len() == 0 || b.len() == 0 {
            return 1_000_000;
        }
        let s = sorted(a);
        let t = sorted(b);
        proof {
            stats::lemma_in_order(s@, a@);
            stats::lemma_in_order(t@, b@);
            stats::lemma_sorts_len(s@, a@);
            stats::lemma_sorts_len(t@, b@);
        }
        let (n, m): (usize, usize) = (s.len(), t.len());
        let mut widest_gap: u128 = 0;
        let mut i: usize = 0;
        let mut j: usize = 0;
        let mut k: u64 = 0;
        let all: u64 = n as u64 + m as u64;
        while k < all
            invariant
                0 < n <= u32::MAX,
                0 < m <= u32::MAX,
                n == s@.len(),
                m == t@.len(),
                all == n + m,
                k <= all,
                i <= n,
                j <= m,
                stats::is_sorted(s@),
                stats::is_sorted(t@),
                k > 0 ==> forall|x: int| 0 <= x < i ==> s@[x] <= point(s@, t@, k - 1),
                k > 0 ==> forall|x: int| 0 <= x < j ==> t@[x] <= point(s@, t@, k - 1),
                k == 0 ==> i == 0 && j == 0,
                widest_gap == widest(s@, t@, k as int),
            decreases all - k,
        {
            let v: u64 = if k < n as u64 {
                s[k as usize]
            } else if t[(k - n as u64) as usize] < s[n - 1] {
                s[n - 1]
            } else {
                t[(k - n as u64) as usize]
            };
            proof {
                assert(v == point(s@, t@, k as int));
                if k > 0 {
                    lemma_points_ascend(s@, t@, k as int);
                }
                lemma_gap_bounds(s@, t@, v);
                lemma_widest_bounds(s@, t@, k as int);
                assert(n * m <= 0xFFFF_FFFF * 0xFFFF_FFFF) by (nonlinear_arith)
                    requires
                        0 < n <= 0xFFFF_FFFF,
                        0 < m <= 0xFFFF_FFFF,
                ;
            }
            i = count_sorted(&s, i, v);
            j = count_sorted(&t, j, v);
            proof {
                assert(0 <= i * m <= 0xFFFF_FFFF * 0xFFFF_FFFF) by (nonlinear_arith)
                    requires
                        0 <= i <= 0xFFFF_FFFF,
                        0 < m <= 0xFFFF_FFFF,
                ;
                assert(0 <= j * n <= 0xFFFF_FFFF * 0xFFFF_FFFF) by (nonlinear_arith)
                    requires
                        0 <= j <= 0xFFFF_FFFF,
                        0 < n <= 0xFFFF_FFFF,
                ;
            }
            let x: u128 = (i as u128) * (m as u128);
            let y: u128 = (j as u128) * (n as u128);
            let gap: u128 = if x < y { y - x } else { x - y };
            if gap > widest_gap {
                widest_gap = gap;
            }
            k = k + 1;
        }
        proof {
            lemma_widest_bounds(s@, t@, k as int);
            assert(0 < n * m <= 0xFFFF_FFFF * 0xFFFF_FFFF) by (nonlinear_arith)
                requires
                    0 < n <= 0xFFFF_FFFF,
                    0 < m <= 0xFFFF_FFFF,
            ;
            let (w, p) = (widest_gap as int, n * m);
            assert(1_000_000 * w / p <= 1_000_000) by (nonlinear_arith)
                requires
                    0 <= w <= p,
                    p > 0,
            ;
        }
        (1_000_000 * widest_gap / ((n as u128) * (m as u128))) as u64
    }

    /// The mean distance of two lists in order, in millionths.
    pub fn wasserstein_distance(&self, a: &[u64], b: &[u64]) -> (d: Option<u128>)
        ensures
            match d {
                Some(x) => wasserstein_of(a@, b@) == Some(x as int),
                None => wasserstein_of(a@, b@) is None,
            },
    {
        if a.len() == 0 || b.len() == 0 {
            return None;
        }
        let s = sorted(a);
        let t = sorted(b);
        proof {
            stats::lemma_in_order(s@, a@);
            stats::lemma_in_order(t@, b@);
            stats::lemma_sorts_len(s@, a@);
            stats::lemma_sorts_len(t@, b@);
        }
        let n: usize = if s.len() < t.len() { t.len() } else { s.len() };
        let mut all: u128 = 0;
        let mut i: usize = 0;
        while i < n
            invariant
                i <= n,
                s@.len() > 0,
                t@.len() > 0,
                all == distances(s@, t@, i as int),
                all <= i * 0xFFFF_FFFF_FFFF_FFFF,
            decreases n - i,
        {
            let x: u64 = if i < s.len() { s[i] } else { s[s.len() - 1] };
            let y: u64 = if i < t.len() { t[i] } else { t[t.len() - 1] };
            let d: u64 = if x < y { y - x } else { x - y };
            all = all + d as u128;
            i = i + 1;
        }
        Some(mean_of(all, n))
    }

    /// How alike two distributions are, in millionths.
    pub fn distribution_similarity(&self, a: &Moments, b: &Moments) -> (s: u64)
        requires
            a.wf(),
            b.wf(),
        ensures
            s == likeness(*a, *b),
            900_000 <= s <= 1_000_000,
    {
        let (am, bm): (u128, u128) = (a.mean_micro(), b.mean_micro());
        let (ac, bc): (u128, u128) = (
            if a.count < 2 {
                0
            } else {
                am
            },
            if b.count < 2 {
                0
            } else {
                bm
            },
        );
        let mean: u64 = distance(am, bm);
        let spread: u64 = distance(a.spread_milli(), b.spread_milli());
        let mid: u64 = distance(ac, bc);
        1_000_000 - (3 * mean + 3 * spread + 4 * mid) / 100
    }
}

/// Points ascend.
proof fn lemma_points_ascend(a: Seq<u64>, b: Seq<u64>, k: int)
    requires
        stats::is_sorted(a),
        stats::is_sorted(b),
        a.len() > 0,
        0 < k < a.len() + b.len(),
    ensures
        point(a, b, k - 1) <= point(a, b, k),
{
    let n = a.len() as int;
    if k < n {
        assert(a[k - 1] <= a[k]);
    } else if k > n {
        assert(b[k - 1 - n] <= b[k - n]);
    }
}

fn distance(a: u128, b: u128) -> (d: u64)
    requires
        a <= 0x400_0000_0000_0000_0000_0000,
        b <= 0x400_0000_0000_0000_0000_0000,
    ensures
        d == apart(a as int, b as int),
        d <= 1_000_000,
{
    let top: u128 = if a < b {
        b
    } else {
        a
    };
    let off: u128 = if a < b {
        b - a
    } else {
        a - b
    };
    if top < 1 {
        return 0;
    }
    assert(1_000_000 * (off as int) / (top as int) <= 1_000_000) by (nonlinear_arith)
        requires
            0 <= off <= top,
            top > 0,
    ;
    (1_000_000 * off / top) as u64
}

/// A list is at no distance from itself, and a distribution is wholly like itself.
pub proof fn law_same_traffic_is_alike(m: Moments, s: Seq<u64>)
    requires
        m.wf(),
        s.len() > 0,
    ensures
        likeness(m, m) == 1_000_000,
        ks_of(s, s) == 0,
        wasserstein_of(s, s) == Some(0int),
{
    let t = stats::in_order(s);
    stats::lemma_order_exists(s);
    stats::lemma_sorts_len(t, s);
    lemma_widest_self(t, (t.len() + t.len()) as int);
    lemma_distances_self(t, t.len() as int);
    assert(0 < t.len() * t.len()) by (nonlinear_arith)
        requires
            t.len() > 0,
    ;
    let p = (t.len() * t.len()) as int;
    assert(1_000_000 * 0int / p == 0) by (nonlinear_arith)
        requires
            p > 0,
    ;
    let n = t.len() as int;
    assert(1_000_000 * 0int / n == 0) by (nonlinear_arith)
        requires
            n > 0,
    ;
    assert(apart(m.mean_law(), m.mean_law()) == 0) by {
        lemma_apart_self(m.mean_law());
    }
    assert(apart(m.spread_law(), m.spread_law()) == 0) by {
        lemma_apart_self(m.spread_law());
    }
    assert(apart(middle(m), middle(m)) == 0) by {
        lemma_apart_self(middle(m));
    }
}

proof fn lemma_apart_self(a: int)
    ensures
        apart(a, a) == 0,
{
    if a >= 1 {
        assert(1_000_000 * 0int / a == 0) by (nonlinear_arith)
            requires
                a > 0,
        ;
    }
}

proof fn lemma_widest_self(t: Seq<u64>, k: int)
    ensures
        widest(t, t, k) == 0,
    decreases k,
{
    if k > 0 {
        lemma_widest_self(t, k - 1);
    }
}

proof fn lemma_distances_self(t: Seq<u64>, k: int)
    ensures
        distances(t, t, k) == 0,
    decreases k,
{
    if k > 0 {
        lemma_distances_self(t, k - 1);
    }
}

/// The largest window that scores can be compared over.
pub const WINDOW_LIMIT: usize = 0x4000;

/// How far the last score is from the mean, squared, times the number of scores cubed less
/// its square.
pub open spec fn last_off(s: Seq<u64>) -> int {
    let d = s.len() * s.last() - window::total(s);
    (s.len() - 1) * (d * d)
}

/// Whether scores differ by next to nothing: their deviation is below a millionth.
pub open spec fn is_flat(s: Seq<u64>) -> bool {
    s.len() < 2 || spread::scatter(s) < s.len() * (s.len() - 1)
}

/// Whether the last of at least eight scores is farther from their mean than so many
/// thousandths of their deviation.
pub open spec fn stands_out(s: Seq<u64>, threshold_milli: int) -> bool {
    s.len() >= 8 && !is_flat(s) && 1_000_000 * last_off(s) > threshold_milli * threshold_milli * (
    s.len() * spread::scatter(s))
}

/// How far the last score is from their mean, in thousandths of their deviation.
pub open spec fn outlier_law(s: Seq<u64>) -> int {
    if is_flat(s) {
        0
    } else {
        roots::root(1_000_000 * last_off(s) / (s.len() * spread::scatter(s)))
    }
}

/// The terms of the comparison fit their words.
proof fn lemma_terms(n: int, last: int, total: int, squares: int)
    requires
        2 <= n <= WINDOW_LIMIT,
        0 <= last <= 0x1_0000_0000,
        0 <= total <= n * 0x1_0000_0000,
        0 <= squares <= n * 0x1_0000_0000_0000_0000,
        0 <= n * squares - total * total,
    ensures
        0 <= n * last <= 0x4000_0000_0000,
        total <= 0x4000_0000_0000,
        0 <= total * total <= 0x1000_0000_0000_0000_0000_0000,
        0 <= n * squares <= 0x1000_0000_0000_0000_0000_0000,
        0 <= (n * last - total) * (n * last - total) <= 0x1000_0000_0000_0000_0000_0000,
        0 <= 1_000_000 * ((n - 1) * ((n * last - total) * (n * last - total))) <= u128::MAX,
        0 <= n * (n * squares - total * total) <= u128::MAX,
{
    assert(0 <= n * last <= 0x4000_0000_0000) by (nonlinear_arith)
        requires
            2 <= n <= 0x4000,
            0 <= last <= 0x1_0000_0000,
    ;
    assert(total <= 0x4000_0000_0000) by (nonlinear_arith)
        requires
            total <= n * 0x1_0000_0000,
            n <= 0x4000,
    ;
    assert(0 <= total * total <= 0x4000_0000_0000 * 0x4000_0000_0000) by (nonlinear_arith)
        requires
            0 <= total <= 0x4000_0000_0000,
    ;
    assert(0 <= n * squares <= 0x4000 * (0x4000 * 0x1_0000_0000_0000_0000)) by (nonlinear_arith)
        requires
            2 <= n <= 0x4000,
            0 <= squares <= n * 0x1_0000_0000_0000_0000,
    ;
    let d = n * last - total;
    assert(0 <= d * d <= 0x4000_0000_0000 * 0x4000_0000_0000) by (nonlinear_arith)
        requires
            -0x4000_0000_0000 <= d <= 0x4000_0000_0000,
    ;
    let e = d * d;
    assert(0 <= (n - 1) * e <= 0x4000 * (0x4000_0000_0000 * 0x4000_0000_0000)) by (nonlinear_arith)
        requires
            2 <= n <= 0x4000,
            0 <= e <= 0x4000_0000_0000 * 0x4000_0000_0000,
    ;
    let c = n * squares - total * total;
    assert(0 <= n * c <= 0x4000 * (0x4000 * (0x4000 * 0x1_0000_0000_0000_0000))) by (nonlinear_arith)
        requires
            2 <= n <= 0x4000,
            0 <= c <= 0x4000 * (0x4000 * 0x1_0000_0000_0000_0000),
    ;
}

/// Notices scores that stand out from recent ones.
#[derive(Debug)]
pub struct AnomalyDetector {
    threshold_milli: u32,
    recent_scores: SlidingWindow,
}

impl AnomalyDetector {
    /// The recent scores, oldest first.
    pub closed spec fn scores(&self) -> Seq<u64> {
        self.recent_scores@
    }

    /// How many scores are recent.
    pub closed spec fn limit(&self) -> int {
        self.recent_scores.limit as int
    }

    /// The threshold, in thousandths.
    pub closed spec fn level(&self) -> int {
        self.threshold_milli as int
    }

    pub closed spec fn wf(&self) -> bool {
        &&& self.recent_scores.wf()
        &&& 16 <= self.recent_scores.limit <= WINDOW_LIMIT
        &&& spread::are_small(self.recent_scores@)
        &&& self.threshold_milli >= 1000
    }

    /// A detector that keeps at least sixteen scores, with a threshold of at least one.
    pub fn new(threshold_milli: u32, window_size: usize) -> (d: Self)
        requires
            window_size <= WINDOW_LIMIT,
        ensures
            d.scores() == Seq::<u64>::empty(),
            d.limit() == longer(window_size as int, 16),
            d.level() == longer(threshold_milli as int, 1000),
            d.wf(),
    {
        AnomalyDetector {
            threshold_milli: if threshold_milli < 1000 { 1000 } else { threshold_milli },
            recent_scores: SlidingWindow::new(if window_size < 16 { 16 } else { window_size }),
        }
    }

    /// Remembers a score, in millionths.
    pub fn add_score(&mut self, score_micro: u32)
        requires
            old(self).wf(),
        ensures
            final(self).scores() == window::slid(
                old(self).scores(),
                score_micro as u64,
                old(self).limit(),
            ),
            final(self).limit() == old(self).limit(),
            final(self).level() == old(self).level(),
            final(self).wf(),
    {
        let ghost before = self.recent_scores@;
        self.recent_scores.observe(score_micro as u64);
        proof {
            let t = self.recent_scores@;
            assert forall|i: int| 0 <= i < t.len() implies #[trigger] t[i] <= u32::MAX by {
                if i < t.len() - 1 {
                    let k = i + before.len() + 1 - t.len();
                    assert(t[i] == before[k]);
                }
            }
        }
    }

    /// The terms of the comparison: the last score's distance, and the spread; none
    /// where the scores are flat.
    fn terms(&self) -> (r: Option<(u128, u128)>)
        requires
            self.wf(),
        ensures
            match r {
                None => is_flat(self.scores()),
                Some((top, bottom)) => {
                    let s = self.scores();
                    &&& !is_flat(s)
                    &&& top == 1_000_000 * last_off(s)
                    &&& bottom == s.len() * spread::scatter(s)
                    &&& bottom > 0
                },
            },
    {
        let v = self.recent_scores.to_vec();
        let n: usize = v.len();
        if n < 2 {
            return None;
        }
        let total: u128 = window::sum_of(v.as_slice());
        let mut squares: u128 = 0;
        let mut i: usize = 0;
        assert(v@.subrange(0, 0) =~= Seq::empty());
        while i < n
            invariant
                i <= n,
                n == v@.len(),
                n <= WINDOW_LIMIT,
                spread::are_small(v@),
                squares == stats::square_total(v@.subrange(0, i as int)),
                squares <= i * 0x1_0000_0000_0000_0000,
            decreases n - i,
        {
            let x: u128 = v[i] as u128;
            proof {
                assert(v@.subrange(0, i + 1).drop_last() =~= v@.subrange(0, i as int));
                assert(v@[i as int] <= u32::MAX);
                assert(0 <= x * x <= 0x1_0000_0000_0000_0000) by (nonlinear_arith)
                    requires
                        0 <= x <= 0x1_0000_0000,
                ;
            }
            squares = squares + x * x;
            i = i + 1;
        }
        assert(v@.subrange(0, i as int) =~= v@);
        let last: u128 = v[n - 1] as u128;
        let m: u128 = n as u128;
        proof {
            spread::lemma_scatter(v@);
            spread::lemma_sums_within(v@, u32::MAX as int);
            assert(v@[n - 1] <= u32::MAX);
            lemma_terms(n as int, last as int, total as int, squares as int);
            assert(0 < m * (m - 1) <= 0x4000 * 0x4000) by (nonlinear_arith)
                requires
                    2 <= m <= 0x4000,
            ;
        }
        let scatter: u128 = m * squares - total * total;
        if scatter < m * (m - 1) {
            return None;
        }
        let d: u128 = if m * last < total { total - m * last } else { m * last - total };
        proof {
            let e = n * last - total;
            assert(d * d == e * e) by (nonlinear_arith)
                requires
                    d == e || d == -e,
            ;
            assert(m * scatter > 0) by (nonlinear_arith)
                requires
                    m > 0,
                    scatter > 0,
            ;
            assert(0 <= (m - 1) * (d * d));
        }
        Some((1_000_000 * ((m - 1) * (d * d)), m * scatter))
    }

    /// Whether the last score stands out.
    pub fn is_anomalous(&self) -> (b: bool)
        requires
            self.wf(),
        ensures
            b == stands_out(self.scores(), self.level()),
    {
        if self.recent_scores.len() < 8 {
            return false;
        }
        match self.terms() {
            None => false,
            Some((top, bottom)) => {
                let t: u128 = self.threshold_milli as u128;
                assert(0 <= t * t <= 0x1_0000_0000_0000_0000) by (nonlinear_arith)
                    requires
                        0 <= t <= 0x1_0000_0000,
                ;
                let limit: u128 = t * t;
                let q: u128 = top / bottom;
                let r: u128 = top % bottom;
                proof {
                    vstd::arithmetic::div_mod::lemma_fundamental_div_mod(
                        top as int,
                        bottom as int,
                    );
                    let (x, y) = (top as int, bottom as int);
                    assert((q > limit || q == limit && r > 0) == (x > limit * y))
                        by (nonlinear_arith)
                        requires
                            x == y * q + r,
                            0 <= r < y,
                            0 <= limit,
                            0 <= q,
                    ;
                }
                q > limit || q == limit && r > 0
            },
        }
    }

    /// How far the last score is from the mean, in thousandths of the deviation.
    pub fn anomaly_score(&self) -> (z: u128)
        requires
            self.wf(),
        ensures
            z == outlier_law(self.scores()),
    {
        match self.terms() {
            None => 0,
            Some((top, bottom)) => square_root(top / bottom),
        }
    }

    pub fn threshold(&self) -> (t: u32)
        ensures
            t == self.level(),
    {
        self.threshold_milli
    }

    pub fn set_threshold(&mut self, threshold_milli: u32)
        requires
            old(self).wf(),
        ensures
            final(self).level() == longer(threshold_milli as int, 1000),
            final(self).scores() == old(self).scores(),
            final(self).limit() == old(self).limit(),
            final(self).wf(),
    {
        self.threshold_milli = if threshold_milli < 1000 { 1000 } else { threshold_milli };
    }
}

/// Equal scores never stand out.
pub proof fn law_equal_scores_do_not_stand_out(s: Seq<u64>, x: u64, threshold_milli: int)
    requires
        forall|i: int| 0 <= i < s.len() ==> #[trigger] s[i] == x,
    ensures
        !stands_out(s, threshold_milli),
{
    lemma_equal_sums(s, x);
    let n = s.len() as int;
    if n >= 8 {
        assert(n * (n * (x * x)) - (n * x) * (n * x) == 0) by (nonlinear_arith);
        assert(0 < n * (n - 1)) by (nonlinear_arith)
            requires
                n >= 8,
        ;
    }
}

proof fn lemma_equal_sums(s: Seq<u64>, x: u64)
    requires
        forall|i: int| 0 <= i < s.len() ==> #[trigger] s[i] == x,
    ensures
        window::total(s) == s.len() * x,
        stats::square_total(s) == s.len() * (x * x),
    decreases s.len(),
{
    if s.len() > 0 {
        let rest = s.drop_last();
        assert forall|i: int| 0 <= i < rest.len() implies #[trigger] rest[i] == x by {
            assert(rest[i] == s[i]);
        }
        lemma_equal_sums(rest, x);
        let n = s.len() as int;
        assert(s[n - 1] == x);
        assert(n * x == (n - 1) * x + x) by (nonlinear_arith);
        assert(n * (x * x) == (n - 1) * (x * x) + x * x) by (nonlinear_arith);
    } else {
        assert(0 * x == 0 && 0 * (x * x) == 0) by (nonlinear_arith);
    }
}

// ---- What likeness keeps to ----

/// Two measures are as far apart as the part of the larger that they differ by: not at all where they
/// are the same, by a half where one is twice the other, fully where one is nothing; and in either
/// order.
pub proof fn law_measures_are_apart_by_the_larger(a: int, b: int)
    requires
        a >= 0,
        b >= 0,
    ensures
        apart(a, b) == apart(b, a),
        0 <= apart(a, b) <= 1_000_000,
        apart(a, a) == 0,
        a > 0 ==> apart(a, 2 * a) == 500_000,
        a > 0 ==> apart(a, 0) == 1_000_000,
{
    let top = longer(a, b);
    let d = if a < b {
        b - a
    } else {
        a - b
    };
    if top >= 1 {
        assert(0 <= 1_000_000 * d / top <= 1_000_000) by (nonlinear_arith)
            requires
                0 <= d <= top,
                top >= 1,
        ;
    }
    lemma_apart_self(a);
    if a > 0 {
        assert(1_000_000 * a / (2 * a) == 500_000 && 1_000_000 * a / a == 1_000_000)
            by (nonlinear_arith)
            requires
                a > 0,
        ;
    }
}

/// Likeness is the same in either order, falls by three hundredths each for means and spreads and by
/// four for middles that are fully apart, and by no more than a tenth in all.
pub proof fn law_likeness_is_mutual(a: Moments, b: Moments)
    requires
        a.mean_law() >= 0,
        b.mean_law() >= 0,
        a.spread_law() >= 0,
        b.spread_law() >= 0,
    ensures
        likeness(a, b) == likeness(b, a),
        900_000 <= likeness(a, b) <= 1_000_000,
        a.count >= 2 && b.count >= 2 && a.spread_law() == b.spread_law() && b.mean_law() == 2
            * a.mean_law() && a.mean_law() > 0 ==> likeness(a, b) == 965_000,
        a.count >= 2 && b.count >= 2 && a.mean_law() == b.mean_law() && b.spread_law() == 2
            * a.spread_law() && a.spread_law() > 0 ==> likeness(a, b) == 985_000,
{
    law_measures_are_apart_by_the_larger(a.mean_law(), b.mean_law());
    law_measures_are_apart_by_the_larger(a.spread_law(), b.spread_law());
    law_measures_are_apart_by_the_larger(middle(a), middle(b));
}

/// Lists of which one lies wholly below the other are fully apart.
pub proof fn law_separate_lists_are_fully_apart(a: Seq<u64>, b: Seq<u64>)
    requires
        a.len() > 0,
        b.len() > 0,
        stats::is_sorted(a),
        stats::is_sorted(b),
        a.last() < b[0],
    ensures
        ks_of(a, b) == 1_000_000,
{
    stats::lemma_in_order(a, a);
    stats::lemma_in_order(b, b);
    let (n, m) = (a.len() as int, b.len() as int);
    let v = a.last();
    assert(forall|k: int| 0 <= k < n ==> a[k] <= v);
    lemma_count_sorted(a, v, n);
    assert forall|k: int| 0 <= k < m implies b[k] > v by {
        assert(b[0] <= b[k]);
    }
    lemma_count_sorted(b, v, 0);
    assert(gap_at(a, b, v) == n * m) by {
        assert(0int * n == 0 && n * m >= 0) by (nonlinear_arith)
            requires
                n > 0,
                m > 0,
        ;
    }
    assert(point(a, b, n - 1) == v);
    lemma_widest_grows(a, b, n, n + m);
    lemma_widest_bounds(a, b, n + m);
    let p = n * m;
    assert(p > 0 && 1_000_000 * p / p == 1_000_000) by (nonlinear_arith)
        requires
            p == n * m,
            n > 0,
            m > 0,
    ;
}

proof fn lemma_widest_grows(a: Seq<u64>, b: Seq<u64>, j: int, k: int)
    requires
        1 <= j <= k,
    ensures
        widest(a, b, k) >= gap_at(a, b, point(a, b, j - 1)),
    decreases k,
{
    if j < k {
        lemma_widest_grows(a, b, j, k - 1);
    }
}

/// Lists of which one is the other moved by so much are that much apart.
pub proof fn law_moved_lists_are_that_far_apart(a: Seq<u64>, b: Seq<u64>, c: int)
    requires
        a.len() > 0,
        a.len() == b.len(),
        c >= 0,
        stats::is_sorted(a),
        forall|i: int| 0 <= i < a.len() ==> #[trigger] b[i] == a[i] + c,
    ensures
        wasserstein_of(a, b) == Some(1_000_000 * c),
        wasserstein_of(b, a) == Some(1_000_000 * c),
{
    assert(stats::is_sorted(b)) by {
        assert forall|i: int, j: int| 0 <= i <= j < b.len() implies b[i] <= b[j] by {
            assert(a[i] <= a[j]);
        }
    }
    stats::lemma_in_order(a, a);
    stats::lemma_in_order(b, b);
    let n = a.len() as int;
    lemma_distances_moved(a, b, c, n);
    assert(1_000_000 * (n * c) / n == 1_000_000 * c) by (nonlinear_arith)
        requires
            n > 0,
    ;
}

proof fn lemma_distances_moved(a: Seq<u64>, b: Seq<u64>, c: int, k: int)
    requires
        0 <= k <= a.len(),
        a.len() == b.len(),
        c >= 0,
        forall|i: int| 0 <= i < a.len() ==> #[trigger] b[i] == a[i] + c,
    ensures
        distances(a, b, k) == k * c,
        distances(b, a, k) == k * c,
    decreases k,
{
    if k > 0 {
        lemma_distances_moved(a, b, c, k - 1);
        assert(b[k - 1] == a[k - 1] + c);
        assert(k * c == (k - 1) * c + c) by (nonlinear_arith);
    } else {
        assert(0int * c == 0) by (nonlinear_arith);
    }
}

/// A score that stands out at some threshold stands out at any lower one; fewer than eight scores
/// never stand out.
pub proof fn law_lower_thresholds_see_more(s: Seq<u64>, low: int, high: int)
    requires
        0 <= low <= high,
    ensures
        stands_out(s, high) ==> stands_out(s, low),
        s.len() < 8 ==> !stands_out(s, low),
{
    if stands_out(s, high) {
        let b = s.len() * spread::scatter(s);
        let n = s.len() as int;
        assert(0 < n * (n - 1)) by (nonlinear_arith)
            requires
                n >= 8,
        ;
        assert(b >= 0) by (nonlinear_arith)
            requires
                b == n * spread::scatter(s),
                n >= 8,
                spread::scatter(s) >= 0,
        ;
        assert(low * low * b <= high * high * b) by (nonlinear_arith)
            requires
                0 <= low <= high,
                b >= 0,
        ;
    }
}

/// A single score that is off among others that are all the same stands out where the threshold, in
/// deviations, is squared less than the number of the others over the root of their count.
pub proof fn law_lone_scores_stand_out(s: Seq<u64>, x: u64, y: u64, threshold_milli: int)
    requires
        s.len() >= 8,
        forall|i: int| 0 <= i < s.len() - 1 ==> #[trigger] s[i] == x,
        s.last() == y,
        x < y,
        y - x >= s.len(),
    ensures
        stands_out(s, threshold_milli) <==> threshold_milli * threshold_milli * s.len() < 1_000_000
            * ((s.len() - 1) * (s.len() - 1)),
{
    let n = s.len() as int;
    let rest = s.drop_last();
    assert forall|i: int| 0 <= i < rest.len() implies #[trigger] rest[i] == x by {
        assert(rest[i] == s[i]);
    }
    lemma_equal_sums(rest, x);
    let (p, q) = (x as int, y as int);
    let e = q - p;
    let total = (n - 1) * p + q;
    let squares = (n - 1) * (p * p) + q * q;
    let c = n * squares - total * total;
    let (k, pp, qq, pq) = (n - 1, p * p, q * q, p * q);
    assert(total * total == k * (k * pp) + 2 * (k * pq) + qq) by (nonlinear_arith)
        requires
            total == k * p + q,
            pp == p * p,
            qq == q * q,
            pq == p * q,
    ;
    assert(n * squares == k * (k * pp) + k * qq + k * pp + qq) by (nonlinear_arith)
        requires
            n == k + 1,
            squares == k * pp + qq,
    ;
    assert(e * e == pp + qq - 2 * pq) by (nonlinear_arith)
        requires
            e == q - p,
            pp == p * p,
            qq == q * q,
            pq == p * q,
    ;
    assert(k * (pp + qq - 2 * pq) == k * pp + k * qq - 2 * (k * pq)) by (nonlinear_arith);
    assert(c == (n - 1) * (e * e));
    let d = n * q - total;
    assert(d == (n - 1) * e) by (nonlinear_arith)
        requires
            d == n * q - total,
            total == (n - 1) * p + q,
            e == q - p,
    ;
    assert(spread::scatter(s) == c);
    assert(c >= n * (n - 1)) by (nonlinear_arith)
        requires
            c == (n - 1) * (e * e),
            e >= n,
            n >= 8,
    ;
    let off = (n - 1) * (d * d);
    let t = threshold_milli * threshold_milli;
    let w = (n - 1) * (e * e);
    assert(off == ((n - 1) * (n - 1)) * w) by (nonlinear_arith)
        requires
            off == (n - 1) * (d * d),
            d == (n - 1) * e,
            w == (n - 1) * (e * e),
    ;
    assert(w > 0) by (nonlinear_arith)
        requires
            w == (n - 1) * (e * e),
            e >= 8,
            n >= 8,
    ;
    let m = (n - 1) * (n - 1);
    assert((1_000_000 * (m * w) > t * (n * w)) == (1_000_000 * m > t * n)) by (nonlinear_arith)
        requires
            w > 0,
    ;
    assert(last_off(s) == off);
}

/// The last score stands out just where its distance is beyond the threshold, but for the last
/// thousandth.
pub proof fn law_distant_scores_stand_out(s: Seq<u64>, threshold_milli: int)
    requires
        s.len() >= 8,
        threshold_milli >= 0,
    ensures
        outlier_law(s) > threshold_milli ==> stands_out(s, threshold_milli),
        stands_out(s, threshold_milli) ==> outlier_law(s) >= threshold_milli,
        is_flat(s) ==> outlier_law(s) == 0,
{
    if !is_flat(s) {
        let n = s.len() as int;
        let c = spread::scatter(s);
        assert(n * (n - 1) > 0) by (nonlinear_arith)
            requires
                n >= 8,
        ;
        let d = n * c;
        assert(d > 0) by (nonlinear_arith)
            requires
                n >= 8,
                c > 0,
                d == n * c,
        ;
        let off = n * s.last() - window::total(s);
        let sq = off * off;
        assert(sq >= 0) by (nonlinear_arith)
            requires
                sq == off * off,
        ;
        assert((n - 1) * sq >= 0) by (nonlinear_arith)
            requires
                sq >= 0,
                n >= 8,
        ;
        let x = 1_000_000 * last_off(s);
        let q = x / d;
        assert(q * d <= x < (q + 1) * d && q >= 0) by (nonlinear_arith)
            requires
                d > 0,
                x >= 0,
                q == x / d,
        ;
        roots::lemma_root_exists(q);
        let z = roots::root(q);
        let t = threshold_milli;
        let tt = t * t;
        if z > t {
            assert(z * z > tt) by (nonlinear_arith)
                requires
                    z > t,
                    t >= 0,
                    tt == t * t,
            ;
            assert(q * d > tt * d) by (nonlinear_arith)
                requires
                    q > tt,
                    d > 0,
            ;
        }
        if stands_out(s, t) {
            assert(q >= tt) by (nonlinear_arith)
                requires
                    x > tt * d,
                    x < (q + 1) * d,
                    d > 0,
            ;
            assert(z >= t) by (nonlinear_arith)
                requires
                    t * t <= q < (z + 1) * (z + 1),
                    z >= 0,
                    t >= 0,
            ;
        }
    }
}

} // verus!
