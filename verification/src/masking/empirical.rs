//! Distributions that are learned from samples.
//!
//! Samples are whole numbers: bytes, microseconds or milliseconds.

use crate::masking::statistical_model::ROLL_RANGE;
use crate::utils::random::random_between;
#[allow(unused_imports)]
use crate::utils::roots;
use crate::utils::wide::Wide;
#[allow(unused_imports)]
use crate::utils::wide;
use vstd::prelude::*;

verus! {

/// How many samples there are, their sum and the sum of their squares.
#[derive(Debug, Clone, Copy, PartialEq, Eq, Structural)]
pub struct Moments {
    pub count: u32,
    pub total: u128,
    pub square_total: Wide,
}

/// Samples, added up.
pub open spec fn sum(s: Seq<u64>) -> int
    decreases s.len(),
{
    if s.len() == 0 {
        0
    } else {
        sum(s.drop_last()) + s.last()
    }
}

/// Squares of samples, added up.
pub open spec fn square_sum(s: Seq<u64>) -> int
    decreases s.len(),
{
    if s.len() == 0 {
        0
    } else {
        square_sum(s.drop_last()) + s.last() * s.last()
    }
}

/// The largest square of a sample.
pub open spec fn square() -> int {
    0xFFFF_FFFF_FFFF_FFFE_0000_0000_0000_0001int
}

impl Moments {
    /// The moments of some samples.
    pub open spec fn of(s: Seq<u64>) -> Moments {
        Moments {
            count: s.len() as u32,
            total: sum(s) as u128,
            square_total: wide::wide_of(square_sum(s)),
        }
    }

    /// The bounds that the moments of so many samples keep to.
    pub open spec fn wf(self) -> bool {
        &&& self.total <= self.count * u64::MAX
        &&& self.square_total@ <= self.count * square()
        &&& self.total * self.total <= self.count * self.square_total@
    }

    /// With one more sample.
    pub open spec fn with(self, x: u64) -> Moments {
        Moments {
            count: (self.count + 1) as u32,
            total: (self.total + x) as u128,
            square_total: wide::wide_of(self.square_total@ + x * x),
        }
    }

    /// So many times the sum of squares, less the square of the sum.
    pub open spec fn scatter(self) -> int {
        self.count * self.square_total@ - self.total * self.total
    }

    /// The mean, in millionths; zero where there is no sample.
    pub open spec fn mean_law(self) -> int {
        if self.count == 0 {
            0
        } else {
            1_000_000 * self.total / self.count as int
        }
    }

    /// The variance of a population of which these are samples, in millionths; zero where
    /// there are fewer than two samples.
    pub open spec fn variance_law(self) -> int {
        if self.count < 2 {
            0
        } else {
            1_000_000 * self.scatter() / (self.count * (self.count - 1))
        }
    }

    /// The deviation of a population of which these are samples, in thousandths.
    pub open spec fn deviation_law(self) -> int {
        roots::root(self.variance_law())
    }

    /// The root of the squared distances from the mean, added up, in thousandths.
    pub open spec fn spread_law(self) -> int {
        if self.count == 0 {
            0
        } else {
            roots::root(1_000_000 * self.scatter() / self.count as int)
        }
    }

    pub fn new() -> (m: Self)
        ensures
            m == Self::of(Seq::empty()),
            m.wf(),
    {
        Moments { count: 0, total: 0, square_total: Wide { high: 0, low: 0 } }
    }

    pub fn update(&mut self, x: u64)
        requires
            old(self).wf(),
            old(self).count < u32::MAX,
        ensures
            *final(self) == old(self).with(x),
            final(self).wf(),
    {
        proof {
            lemma_moments_step(*self, x);
        }
        let y: u128 = x as u128;
        self.count = self.count + 1;
        self.total = self.total + y;
        self.square_total = self.square_total.plus(Wide::product(y, y));
        proof {
            wide::lemma_wide_of(self.square_total);
        }
    }

    /// The mean, in millionths.
    pub fn mean_micro(&self) -> (m: u128)
        requires
            self.wf(),
        ensures
            m == self.mean_law(),
            m <= 1_000_000 * u64::MAX,
    {
        if self.count == 0 {
            return 0;
        }
        proof {
            lemma_totals_fit(*self);
            let (t, n) = (self.total as int, self.count as int);
            assert(1_000_000 * t / n <= 1_000_000 * u64::MAX) by (nonlinear_arith)
                requires
                    0 <= t <= n * u64::MAX,
                    n > 0,
            ;
        }
        1_000_000 * self.total / (self.count as u128)
    }

    /// So many times the sum of squares, less the square of the sum.
    fn scattered(&self) -> (c: Wide)
        requires
            self.wf(),
        ensures
            c@ == self.scatter(),
            0 <= c@ <= scatter_limit(),
    {
        proof {
            lemma_totals_fit(*self);
            let (n, q) = (self.count as int, self.square_total@);
            assert(q * n == n * q) by (nonlinear_arith);
        }
        self.square_total.times(self.count as u128).minus(Wide::product(self.total, self.total))
    }

    /// The variance, in millionths.
    pub fn variance_micro(&self) -> (v: Wide)
        requires
            self.wf(),
        ensures
            v@ == self.variance_law(),
            0 <= v@ <= 2_000_000 * square(),
    {
        if self.count < 2 {
            return Wide::of(0);
        }
        let n: u128 = self.count as u128;
        assert(0 < n * (n - 1) <= 0xFFFF_FFFF_FFFF_FFFF) by (nonlinear_arith)
            requires
                2 <= n <= 0xFFFF_FFFF,
        ;
        let d: u128 = n * (n - 1);
        proof {
            lemma_part_of_squares(*self, d as int);
        }
        self.scattered().times(1_000_000).divide(Wide::of(d)).0
    }

    /// The deviation, in thousandths.
    pub fn std_dev_milli(&self) -> (s: u128)
        requires
            self.wf(),
        ensures
            s == self.deviation_law(),
            s <= DEVIATION_LIMIT,
    {
        let v: Wide = self.variance_micro();
        let r: u128 = v.root();
        assert(r <= 0x800_0000_0000_0000_0000) by (nonlinear_arith)
            requires
                r * r <= v@,
                v@ <= 0x800_0000_0000_0000_0000int * 0x800_0000_0000_0000_0000int,
                r >= 0,
        ;
        r
    }

    /// The root of the squared distances from the mean, added up, in thousandths.
    pub fn spread_milli(&self) -> (s: u128)
        requires
            self.wf(),
        ensures
            s == self.spread_law(),
            s <= 0x400_0000_0000_0000_0000_0000,
    {
        if self.count == 0 {
            return 0;
        }
        let n: u128 = self.count as u128;
        let all: Wide = self.scattered().times(1_000_000);
        proof {
            lemma_totals_fit(*self);
            let (q, t, top) = (self.square_total@, self.total as int, all@);
            assert(t * t >= 0) by (nonlinear_arith);
            assert(top / (n as int) <= 1_000_000 * q) by (nonlinear_arith)
                requires
                    top <= 1_000_000 * (n * q),
                    n > 0,
            ;
        }
        let part: Wide = all.divide(Wide::of(n)).0;
        let r: u128 = part.root();
        assert(r <= 0x400_0000_0000_0000_0000_0000) by (nonlinear_arith)
            requires
                r * r <= part@,
                part@ <= 0x400_0000_0000_0000_0000_0000int * 0x400_0000_0000_0000_0000_0000int,
                r >= 0,
        ;
        r
    }
}

/// More thousandths than the deviation of any samples.
pub const DEVIATION_LIMIT: u128 = 0x800_0000_0000_0000_0000;

/// 2 to the 192nd.
pub open spec fn scatter_limit() -> int {
    0x1_0000_0000_0000_0000_0000_0000_0000_0000_0000_0000_0000_0000int
}

/// Totals of any number of samples fit their words.
proof fn lemma_totals_fit(m: Moments)
    requires
        m.wf(),
    ensures
        m.total <= 0x1_0000_0000_0000_0000_0000_0000,
        m.square_total@ <= 0x1_0000_0000_0000_0000_0000_0000_0000_0000_0000_0000int,
        0 <= m.total * m.total <= scatter_limit(),
        0 <= m.count * m.square_total@ <= scatter_limit(),
        0 <= m.scatter() <= scatter_limit(),
{
    let (n, t, q) = (m.count as int, m.total as int, m.square_total@);
    assert(t <= 0x1_0000_0000_0000_0000_0000_0000) by (nonlinear_arith)
        requires
            t <= n * u64::MAX,
            0 <= n <= 0xFFFF_FFFF,
    ;
    assert(q <= 0x1_0000_0000 * square()) by (nonlinear_arith)
        requires
            q <= n * square(),
            0 <= n <= 0xFFFF_FFFF,
    ;
    assert(0 <= n * q <= 0x1_0000_0000 * (0x1_0000_0000 * square())) by (nonlinear_arith)
        requires
            0 <= q <= 0x1_0000_0000 * square(),
            0 <= n <= 0xFFFF_FFFF,
    ;
    assert(0 <= t * t) by (nonlinear_arith);
}

/// The variance is no larger than twice the largest square.
proof fn lemma_part_of_squares(m: Moments, d: int)
    requires
        m.wf(),
        m.count >= 2,
        d == m.count * (m.count - 1),
    ensures
        0 <= 1_000_000 * m.scatter() / d <= 2_000_000 * square(),
{
    lemma_totals_fit(m);
    let (n, t, q) = (m.count as int, m.total as int, m.square_total@);
    let s = m.scatter();
    assert(0 < d && s <= d * (2 * square())) by (nonlinear_arith)
        requires
            s == n * q - t * t,
            q <= n * square(),
            d == n * (n - 1),
            n >= 2,
            q >= 0,
    ;
    assert(0 <= 1_000_000 * s / d <= 2_000_000 * square()) by (nonlinear_arith)
        requires
            0 <= s <= d * (2 * square()),
            d > 0,
    ;
}

/// One more sample keeps the bounds.
proof fn lemma_moments_step(m: Moments, x: u64)
    requires
        m.wf(),
        m.count < u32::MAX,
    ensures
        m.with(x).wf(),
        m.with(x).square_total@ == m.square_total@ + x * x,
        m.total + x <= u128::MAX,
        0 <= x * x,
        m.square_total@ + x * x < wide::limit(),
{
    lemma_totals_fit(m);
    let (n, t, q, y) = (m.count as int, m.total as int, m.square_total@, x as int);
    assert(0 <= y * y <= square()) by (nonlinear_arith)
        requires
            0 <= y <= u64::MAX,
    ;
    wide::lemma_wide_exists(q + y * y);
    assert((n + 1) * u64::MAX == n * u64::MAX + u64::MAX) by (nonlinear_arith);
    assert((n + 1) * square() == n * square() + square()) by (nonlinear_arith);
    assert((t + y) * (t + y) <= (n + 1) * (q + y * y)) by {
        assert(0 <= (n * y - t) * (n * y - t)) by (nonlinear_arith);
        if n == 0 {
            assert(t == 0) by (nonlinear_arith)
                requires
                    t <= n * u64::MAX,
                    n == 0,
                    t >= 0,
            ;
            assert((0 + y) * (0 + y) <= (0 + 1) * (q + y * y)) by (nonlinear_arith)
                requires
                    q >= 0,
            ;
        } else {
            assert(n * (2 * (t * y)) <= n * (q + n * (y * y))) by (nonlinear_arith)
                requires
                    t * t <= n * q,
                    0 <= (n * y - t) * (n * y - t),
                    n > 0,
            ;
            assert(2 * (t * y) <= q + n * (y * y)) by (nonlinear_arith)
                requires
                    n * (2 * (t * y)) <= n * (q + n * (y * y)),
                    n > 0,
            ;
            assert((t + y) * (t + y) <= (n + 1) * (q + y * y)) by (nonlinear_arith)
                requires
                    2 * (t * y) <= q + n * (y * y),
                    t * t <= n * q,
            ;
        }
    }
}

/// Counts, added up.
pub open spec fn weight(bins: Seq<u64>) -> int
    decreases bins.len(),
{
    if bins.len() == 0 {
        0
    } else {
        weight(bins.drop_last()) + bins.last()
    }
}

/// The first `n` counts, added up.
pub open spec fn weight_to(bins: Seq<u64>, n: int) -> int {
    weight(bins.subrange(0, n))
}

/// The bin that a sample falls into, of `n` over a range.
pub open spec fn bin_of(x: int, low: int, high: int, n: int) -> int {
    (x - low) * (n - 1) / (high - low)
}

/// The bin that the middle of an old bin falls into when the range grows.
pub open spec fn moved_bin(i: int, old_range: (int, int), new_range: (int, int), n: int) -> int {
    let at = (2 * n * (old_range.0 - new_range.0) + (old_range.1 - old_range.0) * (2 * i + 1)) * (n
        - 1) / (2 * n * (new_range.1 - new_range.0));
    if at < n - 1 {
        at
    } else {
        n - 1
    }
}

/// The first `k` old counts moved to where their bins fall when the range grows.
pub open spec fn moved(
    bins: Seq<u64>,
    old_range: (int, int),
    new_range: (int, int),
    k: int,
) -> Seq<u64>
    decreases k,
{
    if k <= 0 {
        Seq::new(bins.len(), |i: int| 0)
    } else {
        let rest = moved(bins, old_range, new_range, k - 1);
        let to = moved_bin(k - 1, old_range, new_range, bins.len() as int);
        rest.update(to, (rest[to] + bins[k - 1]) as u64)
    }
}

/// Where the bins of a histogram lie: nowhere yet, around the first sample, or evenly over
/// a range.
#[derive(Debug, Clone, Copy, PartialEq, Eq, Structural)]
pub enum Edges {
    Unset,
    First(u64),
    Even(u128, u128),
}

/// No range reaches farther.
pub const EDGE_LIMIT: u128 = 0x2_0000_0000_0000_0000;

impl Edges {
    /// The range of the bins. Around the first sample it is one unit wide.
    pub open spec fn range(self, unit: int) -> (int, int) {
        match self {
            Edges::Unset => (0, unit),
            Edges::First(x) => (x as int, x + unit),
            Edges::Even(low, high) => (low as int, high as int),
        }
    }

    pub open spec fn wf(self, unit: int) -> bool {
        let r = self.range(unit);
        0 <= r.0 < r.1 <= EDGE_LIMIT
    }

    /// Edge `i` in millionths, if there is one. Around the first sample there are two.
    pub open spec fn edge(self, i: int, n: int, unit: int) -> Option<int> {
        match self {
            Edges::Unset => None,
            Edges::First(x) => if i == 0 {
                Some(1_000_000 * x)
            } else if i == 1 {
                Some(1_000_000 * (x + unit))
            } else {
                None
            },
            Edges::Even(low, high) => if i <= n {
                Some(1_000_000 * low + 1_000_000 * ((high - low) * i) / n)
            } else {
                None
            },
        }
    }

    /// What bin `i` spans, in millionths. A missing lower edge counts as zero, a missing
    /// upper one as one unit above the lower; the last bin reaches to the end of the range.
    pub open spec fn span(self, i: int, n: int, unit: int) -> (int, int) {
        let low = match self.edge(i, n, unit) {
            Some(e) => e,
            None => 0,
        };
        let high = if i >= n - 1 && i > 0 {
            1_000_000 * self.range(unit).1
        } else {
            match self.edge(i + 1, n, unit) {
                Some(e) => e,
                None => low + 1_000_000 * unit,
            }
        };
        (low, high)
    }
}

/// A distribution learned from samples.
#[derive(Debug)]
pub struct EmpiricalDistribution {
    pub bins: Vec<u64>,
    pub edges: Edges,
    pub moments: Moments,
    /// How wide the range around the first sample is.
    pub unit: u64,
}

/// A distribution as plain data.
pub struct DistributionView {
    pub bins: Seq<u64>,
    pub edges: Edges,
    pub moments: Moments,
    pub unit: u64,
}

impl View for EmpiricalDistribution {
    type V = DistributionView;

    open spec fn view(&self) -> DistributionView {
        DistributionView {
            bins: self.bins@,
            edges: self.edges,
            moments: self.moments,
            unit: self.unit,
        }
    }
}

/// From bin `i` on, the first up to which the counts reach the roll; else the last.
pub open spec fn rolled_bin(bins: Seq<u64>, roll: int, i: int) -> int
    decreases bins.len() - i,
{
    if i >= bins.len() - 1 {
        bins.len() - 1
    } else if roll * weight(bins) <= weight_to(bins, i + 1) * ROLL_RANGE {
        i
    } else {
        rolled_bin(bins, roll, i + 1)
    }
}

/// A point between two others, by a roll.
pub open spec fn point_between(low: int, high: int, roll: int) -> int {
    low + (high - low) * roll / ROLL_RANGE as int
}

impl DistributionView {
    /// No samples, and at least eight bins.
    pub open spec fn fresh(bin_count: int, unit: u64) -> DistributionView {
        DistributionView {
            bins: Seq::new(
                (if bin_count < 8 {
                    8
                } else {
                    bin_count
                }) as nat,
                |i: int| 0u64,
            ),
            edges: Edges::Unset,
            moments: Moments::of(Seq::empty()),
            unit,
        }
    }

    pub open spec fn wf(self) -> bool {
        &&& 8 <= self.bins.len() <= 0x1_0000_0000
        &&& self.moments.wf()
        &&& weight(self.bins) <= self.moments.count
        &&& self.edges is Unset <==> self.moments.count == 0
        &&& 0 < self.unit
        &&& self.edges.wf(self.unit as int)
    }

    /// With one more sample. The first sample, and one outside of the range so far, sets
    /// the range and is not counted.
    pub open spec fn with(self, x: u64) -> DistributionView {
        let n = self.bins.len() as int;
        let r = self.edges.range(self.unit as int);
        let moments = self.moments.with(x);
        if self.edges is Unset {
            DistributionView {
                bins: Seq::new(self.bins.len(), |i: int| 0u64),
                edges: Edges::First(x),
                moments,
                ..self
            }
        } else if x < r.0 || x > r.1 {
            let wide = if x < r.0 {
                (x as int, r.1)
            } else {
                (r.0, x as int)
            };
            DistributionView {
                bins: moved(self.bins, r, wide, n),
                edges: Edges::Even(wide.0 as u128, wide.1 as u128),
                moments,
                ..self
            }
        } else {
            let at = bin_of(x as int, r.0, r.1, n);
            DistributionView {
                bins: self.bins.update(at, (self.bins[at] + 1) as u64),
                moments,
                ..self
            }
        }
    }

    /// With the first `k` of some samples.
    pub open spec fn with_all(self, s: Seq<u64>, k: int) -> DistributionView
        decreases k,
    {
        if k <= 0 {
            self
        } else {
            self.with_all(s, k - 1).with(s[k - 1])
        }
    }

    /// What two rolls draw, in millionths: the mean where nothing is counted, else a point
    /// of the bin that the first selects.
    pub open spec fn drawn(self, bin_roll: int, point_roll: int) -> int {
        if weight(self.bins) == 0 {
            self.moments.mean_law()
        } else {
            let i = rolled_bin(self.bins, bin_roll, 0);
            let s = self.edges.span(i, self.bins.len() as int, self.unit as int);
            point_between(s.0, s.1, point_roll)
        }
    }

    /// The part of the counts below `x`, in millionths.
    pub open spec fn below(self, x: int) -> int {
        let n = self.bins.len() as int;
        let r = self.edges.range(self.unit as int);
        if weight(self.bins) == 0 || x <= r.0 {
            0
        } else if x >= r.1 {
            1_000_000
        } else {
            let at = bin_of(x, r.0, r.1, n);
            let rest = (x - r.0) * (n - 1) % (r.1 - r.0);
            1_000_000 * (weight_to(self.bins, at) * (r.1 - r.0) + self.bins[at] * rest) / (weight(
                self.bins,
            ) * (r.1 - r.0))
        }
    }
}

proof fn lemma_weight_update(bins: Seq<u64>, i: int, x: u64)
    requires
        0 <= i < bins.len(),
    ensures
        weight(bins.update(i, x)) == weight(bins) - bins[i] + x,
    decreases bins.len(),
{
    let new_bins = bins.update(i, x);
    if i == bins.len() - 1 {
        assert(new_bins.drop_last() =~= bins.drop_last());
    } else {
        assert(new_bins.drop_last() =~= bins.drop_last().update(i, x));
        lemma_weight_update(bins.drop_last(), i, x);
    }
}

proof fn lemma_weight_zero(n: nat)
    ensures
        weight(Seq::new(n, |i: int| 0u64)) == 0,
    decreases n,
{
    let s = Seq::new(n, |i: int| 0u64);
    if n > 0 {
        assert(s.drop_last() =~= Seq::new((n - 1) as nat, |i: int| 0u64));
        lemma_weight_zero((n - 1) as nat);
    }
}

proof fn lemma_weight_part(bins: Seq<u64>, i: int)
    requires
        0 <= i < bins.len(),
    ensures
        0 <= bins[i] <= weight(bins),
    decreases bins.len(),
{
    lemma_weight_nonneg(bins.drop_last());
    if i < bins.len() - 1 {
        lemma_weight_part(bins.drop_last(), i);
    }
}

proof fn lemma_weight_nonneg(bins: Seq<u64>)
    ensures
        weight(bins) >= 0,
    decreases bins.len(),
{
    if bins.len() > 0 {
        lemma_weight_nonneg(bins.drop_last());
    }
}

/// One more bin adds its count.
proof fn lemma_weight_to(bins: Seq<u64>, k: int)
    requires
        0 <= k < bins.len(),
    ensures
        weight_to(bins, k + 1) == weight_to(bins, k) + bins[k],
        weight_to(bins, k) >= 0,
{
    assert(bins.subrange(0, k + 1).drop_last() =~= bins.subrange(0, k));
    lemma_weight_nonneg(bins.subrange(0, k));
}

proof fn lemma_weight_to_all(bins: Seq<u64>, k: int)
    requires
        0 <= k <= bins.len(),
    ensures
        weight_to(bins, k) <= weight(bins),
        weight_to(bins, bins.len() as int) == weight(bins),
    decreases bins.len() - k,
{
    assert(bins.subrange(0, bins.len() as int) =~= bins);
    if k < bins.len() {
        lemma_weight_to(bins, k);
        lemma_weight_to_all(bins, k + 1);
    }
}

proof fn lemma_weight_to_grows(bins: Seq<u64>, j: int, k: int)
    requires
        0 <= j <= k <= bins.len(),
    ensures
        0 <= weight_to(bins, j) <= weight_to(bins, k) <= weight(bins),
        weight_to(bins, bins.len() as int) == weight(bins),
    decreases k - j,
{
    lemma_weight_to_all(bins, k);
    lemma_weight_nonneg(bins.subrange(0, j));
    if j < k {
        lemma_weight_to(bins, j);
        lemma_weight_to_grows(bins, j + 1, k);
    }
}

/// Where an old bin falls is one of the new bins.
proof fn lemma_moved_bin(i: int, old_range: (int, int), new_range: (int, int), n: int)
    requires
        0 <= i < n,
        n >= 2,
        new_range.0 <= old_range.0 < old_range.1 <= new_range.1,
    ensures
        0 <= moved_bin(i, old_range, new_range, n) < n,
{
    let (a, b) = (old_range.0 - new_range.0, old_range.1 - old_range.0);
    let w = new_range.1 - new_range.0;
    let top = (2 * n * a + b * (2 * i + 1)) * (n - 1);
    let bottom = 2 * n * w;
    assert(0 <= top && 0 < bottom) by (nonlinear_arith)
        requires
            top == (2 * n * a + b * (2 * i + 1)) * (n - 1),
            bottom == 2 * n * w,
            a >= 0,
            b > 0,
            w > 0,
            0 <= i,
            n >= 2,
    ;
    assert(0 <= top / bottom) by (nonlinear_arith)
        requires
            0 <= top,
            0 < bottom,
    ;
}

/// Moving counts to a wider range loses none.
pub proof fn law_moving_keeps_counts(
    bins: Seq<u64>,
    old_range: (int, int),
    new_range: (int, int),
    k: int,
)
    requires
        bins.len() >= 2,
        0 <= k <= bins.len(),
        weight(bins) <= u64::MAX,
        new_range.0 <= old_range.0 < old_range.1 <= new_range.1,
    ensures
        moved(bins, old_range, new_range, k).len() == bins.len(),
        weight(moved(bins, old_range, new_range, k)) == weight_to(bins, k),
    decreases k,
{
    if k == 0 {
        assert(moved(bins, old_range, new_range, 0) =~= Seq::new(bins.len(), |i: int| 0u64));
        lemma_weight_zero(bins.len());
        assert(bins.subrange(0, 0) =~= Seq::empty());
    } else {
        law_moving_keeps_counts(bins, old_range, new_range, k - 1);
        let rest = moved(bins, old_range, new_range, k - 1);
        let to = moved_bin(k - 1, old_range, new_range, bins.len() as int);
        lemma_moved_bin(k - 1, old_range, new_range, bins.len() as int);
        lemma_weight_to(bins, k - 1);
        lemma_weight_to_grows(bins, k, bins.len() as int);
        lemma_weight_part(rest, to);
        lemma_weight_update(rest, to, (rest[to] + bins[k - 1]) as u64);
    }
}

/// The bin of a sample within the range.
proof fn lemma_bin_of(x: int, low: int, high: int, n: int)
    requires
        low <= x <= high,
        low < high,
        n >= 1,
    ensures
        0 <= bin_of(x, low, high, n) < n,
        x < high && n >= 2 ==> bin_of(x, low, high, n) < n - 1,
{
    let (a, w) = (x - low, high - low);
    let q = a * (n - 1) / w;
    assert(0 <= q <= n - 1) by (nonlinear_arith)
        requires
            q == a * (n - 1) / w,
            0 <= a <= w,
            w > 0,
            n >= 1,
    ;
    if a < w && n >= 2 {
        assert(q < n - 1) by (nonlinear_arith)
            requires
                q == a * (n - 1) / w,
                0 <= a < w,
                n >= 2,
        ;
    }
}

fn zeros(n: usize) -> (v: Vec<u64>)
    ensures
        v@ == Seq::new(n as nat, |i: int| 0u64),
{
    let mut v: Vec<u64> = Vec::new();
    while v.len() < n
        invariant
            v@.len() <= n,
            v@ == Seq::new(v@.len(), |i: int| 0u64),
        decreases n - v@.len(),
    {
        v.push(0);
        assert(v@ =~= Seq::new(v@.len(), |i: int| 0u64));
    }
    v
}

fn weigh(bins: &Vec<u64>) -> (w: u64)
    requires
        weight(bins@) <= u32::MAX,
    ensures
        w == weight(bins@),
{
    let mut w: u64 = 0;
    let mut i: usize = 0;
    assert(bins@.subrange(0, 0) =~= Seq::empty());
    while i < bins.len()
        invariant
            i <= bins@.len(),
            weight(bins@) <= u32::MAX,
            w == weight_to(bins@, i as int),
        decreases bins@.len() - i,
    {
        proof {
            lemma_weight_to(bins@, i as int);
            lemma_weight_to_grows(bins@, i + 1, bins@.len() as int);
        }
        w = w + bins[i];
        i = i + 1;
    }
    assert(bins@.subrange(0, i as int) =~= bins@);
    w
}

/// The bin that the middle of an old bin falls into.
fn move_bin(i: usize, old_range: (u128, u128), new_range: (u128, u128), n: usize) -> (to: usize)
    requires
        i < n,
        2 <= n <= 0x1_0000_0000,
        new_range.0 <= old_range.0 < old_range.1 <= new_range.1 <= EDGE_LIMIT,
    ensures
        to == moved_bin(
            i as int,
            (old_range.0 as int, old_range.1 as int),
            (new_range.0 as int, new_range.1 as int),
            n as int,
        ),
        to < n,
{
    let m: u128 = n as u128;
    let a: u128 = old_range.0 - new_range.0;
    let b: u128 = old_range.1 - old_range.0;
    let w: u128 = new_range.1 - new_range.0;
    let k: u128 = i as u128;
    proof {
        lemma_moved_bin(
            i as int,
            (old_range.0 as int, old_range.1 as int),
            (new_range.0 as int, new_range.1 as int),
            n as int,
        );
        assert(0 <= 2 * m * a <= 0x4_0000_0000_0000_0000_0000_0000) by (nonlinear_arith)
            requires
                0 <= m <= 0x1_0000_0000,
                0 <= a <= 0x2_0000_0000_0000_0000,
        ;
        assert(0 <= b * (2 * k + 1) <= 0x4_0000_0000_0000_0000_0000_0000) by (nonlinear_arith)
            requires
                0 <= b <= 0x2_0000_0000_0000_0000,
                0 <= k < 0x1_0000_0000,
        ;
        assert(0 < 2 * m * w <= 0x4_0000_0000_0000_0000_0000_0000) by (nonlinear_arith)
            requires
                2 <= m <= 0x1_0000_0000,
                0 < w <= 0x2_0000_0000_0000_0000,
        ;
    }
    let at: u128 = 2 * m * a + b * (2 * k + 1);
    let q: Wide = Wide::product(at, m - 1).divide(Wide::of(2 * m * w)).0;
    if q.less(Wide::of(m - 1)) {
        q.low as usize
    } else {
        n - 1
    }
}

impl EmpiricalDistribution {
    pub open spec fn wf(&self) -> bool {
        self@.wf()
    }

    /// No samples, and at least eight bins.
    pub fn new(bin_count: usize) -> (d: Self)
        requires
            bin_count <= u32::MAX,
        ensures
            d@ == DistributionView::fresh(bin_count as int, 1),
            d.wf(),
    {
        Self::with_unit(bin_count, 1)
    }

    /// No samples, at least eight bins, and a first range as wide as the unit.
    pub fn with_unit(bin_count: usize, unit: u64) -> (d: Self)
        requires
            bin_count <= u32::MAX,
            unit > 0,
        ensures
            d@ == DistributionView::fresh(bin_count as int, unit),
            d.wf(),
    {
        let n: usize = if bin_count < 8 { 8 } else { bin_count };
        proof {
            lemma_weight_zero(n as nat);
        }
        EmpiricalDistribution {
            bins: zeros(n),
            edges: Edges::Unset,
            moments: Moments::new(),
            unit,
        }
    }

    /// A distribution from its parts, if they are sound.
    pub fn from_parts(bins: Vec<u64>, edges: Edges, moments: Moments, unit: u64) -> (d: Option<Self>)
        ensures
            ({
                let v = DistributionView { bins: bins@, edges, moments, unit };
                match d {
                    Some(e) => e@ == v && v.wf(),
                    None => !v.wf(),
                }
            }),
    {
        if bins.len() < 8 || bins.len() as u64 > 0x1_0000_0000 || unit == 0 {
            return None;
        }
        let n: u128 = moments.count as u128;
        let (t, q): (u128, Wide) = (moments.total, moments.square_total);
        let top: u128 = 0xFFFF_FFFF_FFFF_FFFF;
        proof {
            assert(0 <= n * u64::MAX <= 0xFFFF_FFFF * u64::MAX) by (nonlinear_arith)
                requires
                    0 <= n <= 0xFFFF_FFFF,
            ;
            assert(top * top == square()) by (nonlinear_arith)
                requires
                    top == u64::MAX,
            ;
            assert(0 <= square() * n < wide::limit()) by (nonlinear_arith)
                requires
                    0 <= n <= 0xFFFF_FFFF,
            ;
            assert(square() * n == n * square()) by (nonlinear_arith);
        }
        if t > n * top || Wide::product(top, top).times(n).less(q) {
            return None;
        }
        proof {
            let x = q@;
            assert(0 <= x * n < wide::limit()) by (nonlinear_arith)
                requires
                    0 <= n <= 0xFFFF_FFFF,
                    0 <= x <= 0xFFFF_FFFF * square(),
            ;
            assert(x * n == n * x) by (nonlinear_arith);
        }
        if q.times(n).less(Wide::product(t, t)) {
            return None;
        }
        let mut w: u128 = 0;
        let mut i: usize = 0;
        assert(bins@.subrange(0, 0) =~= Seq::empty());
        while i < bins.len()
            invariant
                i <= bins@.len() <= 0x1_0000_0000,
                w == weight_to(bins@, i as int),
                w <= i * 0xFFFF_FFFF_FFFF_FFFF,
            decreases bins@.len() - i,
        {
            proof {
                lemma_weight_to(bins@, i as int);
            }
            w = w + bins[i] as u128;
            i = i + 1;
        }
        assert(bins@.subrange(0, i as int) =~= bins@);
        if w > n {
            return None;
        }
        let sound = match edges {
            Edges::Unset => moments.count == 0,
            Edges::First(x) => moments.count > 0,
            Edges::Even(low, high) => moments.count > 0 && low < high && high <= EDGE_LIMIT,
        };
        if sound {
            Some(EmpiricalDistribution { bins, edges, moments, unit })
        } else {
            None
        }
    }

    /// The range of the bins.
    fn reach(&self) -> (r: (u128, u128))
        requires
            self.edges.wf(self.unit as int),
        ensures
            r.0 == self.edges.range(self.unit as int).0,
            r.1 == self.edges.range(self.unit as int).1,
    {
        match self.edges {
            Edges::Unset => (0, self.unit as u128),
            Edges::First(v) => (v as u128, v as u128 + self.unit as u128),
            Edges::Even(a, b) => (a, b),
        }
    }

    pub fn add_sample(&mut self, x: u64)
        requires
            old(self).wf(),
            old(self).moments.count < u32::MAX,
        ensures
            final(self)@ == old(self)@.with(x),
            final(self).wf(),
    {
        let ghost before = self@;
        let (low, high): (u128, u128) = self.reach();
        self.moments.update(x);
        let n: usize = self.bins.len();
        let fresh: bool = match self.edges {
            Edges::Unset => true,
            _ => false,
        };
        if fresh {
            proof {
                lemma_weight_zero(n as nat);
            }
            self.bins = zeros(n);
            self.edges = Edges::First(x);
            return;
        }
        if (x as u128) < low || (x as u128) > high {
            self.rebuild_histogram(x, low, high);
            return;
        }
        proof {
            lemma_bin_of(x as int, low as int, high as int, n as int);
            assert(0 <= (x - low) * (n - 1) <= 0x2_0000_0000_0000_0000 * 0x1_0000_0000)
                by (nonlinear_arith)
                requires
                    0 <= x - low <= 0x2_0000_0000_0000_0000,
                    0 <= n - 1 < 0x1_0000_0000,
            ;
        }
        let at: usize = ((x as u128 - low) * (n as u128 - 1) / (high - low)) as usize;
        proof {
            lemma_weight_part(self.bins@, at as int);
            lemma_weight_update(self.bins@, at as int, (self.bins@[at as int] + 1) as u64);
        }
        let count: u64 = self.bins[at];
        self.bins.set(at, count + 1);
    }

    /// Widens the range to a sample, and moves the counts to where their bins fall.
    fn rebuild_histogram(&mut self, x: u64, low: u128, high: u128)
        requires
            8 <= old(self).bins@.len() <= 0x1_0000_0000,
            weight(old(self).bins@) <= u32::MAX,
            low < high <= EDGE_LIMIT,
            x < low || x > high,
        ensures
            final(self).moments == old(self).moments,
            final(self).unit == old(self).unit,
            final(self).bins@.len() == old(self).bins@.len(),
            weight(final(self).bins@) == weight(old(self).bins@),
            ({
                let wide = if x < low {
                    (x as int, high as int)
                } else {
                    (low as int, x as int)
                };
                &&& final(self).bins@ == moved(
                    old(self).bins@,
                    (low as int, high as int),
                    wide,
                    old(self).bins@.len() as int,
                )
                &&& final(self).edges == Edges::Even(wide.0 as u128, wide.1 as u128)
            }),
    {
        let wide: (u128, u128) = if (x as u128) < low { (x as u128, high) } else { (low, x as u128) };
        let n: usize = self.bins.len();
        let mut new_bins: Vec<u64> = zeros(n);
        let mut i: usize = 0;
        let ghost old_range = (low as int, high as int);
        let ghost new_range = (wide.0 as int, wide.1 as int);
        assert(new_bins@ =~= moved(self.bins@, old_range, new_range, 0));
        while i < n
            invariant
                i <= n,
                n == self.bins@.len(),
                8 <= n <= 0x1_0000_0000,
                weight(self.bins@) <= u32::MAX,
                low < high <= EDGE_LIMIT,
                wide.0 <= low,
                high <= wide.1 <= EDGE_LIMIT,
                old_range == (low as int, high as int),
                new_range == (wide.0 as int, wide.1 as int),
                new_bins@ == moved(self.bins@, old_range, new_range, i as int),
            decreases n - i,
        {
            proof {
                law_moving_keeps_counts(self.bins@, old_range, new_range, i as int);
                lemma_weight_to(self.bins@, i as int);
                lemma_weight_to_grows(self.bins@, i + 1, n as int);
            }
            let to: usize = move_bin(i, (low, high), wide, n);
            proof {
                lemma_weight_part(new_bins@, to as int);
            }
            let count: u64 = new_bins[to] + self.bins[i];
            new_bins.set(to, count);
            i = i + 1;
        }
        proof {
            law_moving_keeps_counts(self.bins@, old_range, new_range, n as int);
            lemma_weight_to_grows(self.bins@, n as int, n as int);
        }
        self.bins = new_bins;
        self.edges = Edges::Even(wide.0, wide.1);
    }

    /// Adds samples one by one.
    pub fn merge_samples(&mut self, samples: &Vec<u64>)
        requires
            old(self).wf(),
            old(self).moments.count + samples@.len() <= u32::MAX,
        ensures
            final(self)@ == old(self)@.with_all(samples@, samples@.len() as int),
            final(self).wf(),
    {
        let ghost before = self@;
        let mut i: usize = 0;
        while i < samples.len()
            invariant
                i <= samples@.len(),
                self.wf(),
                self@ == before.with_all(samples@, i as int),
                self.moments.count == before.moments.count + i,
                before.moments.count + samples@.len() <= u32::MAX,
            decreases samples@.len() - i,
        {
            self.add_sample(samples[i]);
            i = i + 1;
        }
    }

    /// The bin that a roll selects.
    fn bin_for_roll(&self, roll: u64) -> (i: usize)
        requires
            self.wf(),
            roll < ROLL_RANGE,
        ensures
            i == rolled_bin(self.bins@, roll as int, 0),
            i < self.bins@.len(),
    {
        let n: usize = self.bins.len();
        let all: u64 = weigh(&self.bins);
        let mut upto: u64 = 0;
        let mut i: usize = 0;
        assert(self.bins@.subrange(0, 0) =~= Seq::empty());
        while i + 1 < n
            invariant
                i < n,
                n == self.bins@.len(),
                self.wf(),
                roll < ROLL_RANGE,
                all == weight(self.bins@),
                upto == weight_to(self.bins@, i as int),
                rolled_bin(self.bins@, roll as int, 0) == rolled_bin(
                    self.bins@,
                    roll as int,
                    i as int,
                ),
            decreases n - i,
        {
            proof {
                lemma_weight_to(self.bins@, i as int);
                lemma_weight_to_grows(self.bins@, i + 1, n as int);
                assert(0 <= roll * all <= 0x20_0000_0000_0000 * 0x1_0000_0000) by (nonlinear_arith)
                    requires
                        0 <= roll <= 0x20_0000_0000_0000,
                        0 <= all <= 0x1_0000_0000,
                ;
            }
            upto = upto + self.bins[i];
            if (roll as u128) * (all as u128) <= (upto as u128) * 0x20_0000_0000_0000 {
                return i;
            }
            i = i + 1;
        }
        i
    }

    /// Edge `i`, in millionths.
    fn edge_micro(&self, i: usize) -> (e: Option<u128>)
        requires
            self.wf(),
            i <= self.bins@.len(),
        ensures
            ({
                let edge = self.edges.edge(i as int, self.bins@.len() as int, self.unit as int);
                match e {
                    Some(x) => edge == Some(x as int) && x <= 1_000_000 * EDGE_LIMIT,
                    None => edge is None,
                }
            }),
    {
        let n: usize = self.bins.len();
        match self.edges {
            Edges::Unset => None,
            Edges::First(x) => if i == 0 {
                Some(1_000_000 * (x as u128))
            } else if i == 1 {
                Some(1_000_000 * (x as u128 + self.unit as u128))
            } else {
                None
            },
            Edges::Even(low, high) => {
                let w: u128 = high - low;
                proof {
                    assert(0 <= w * i <= 0x2_0000_0000_0000_0000 * 0x1_0000_0000) by (nonlinear_arith)
                        requires
                            0 <= w <= 0x2_0000_0000_0000_0000,
                            0 <= i <= 0x1_0000_0000,
                    ;
                    let part = 1_000_000 * (w * i) / n as int;
                    assert(0 <= part <= 1_000_000 * w) by (nonlinear_arith)
                        requires
                            part == 1_000_000 * (w * i) / n as int,
                            0 <= i <= n,
                            n > 0,
                            w >= 0,
                    ;
                }
                Some(1_000_000 * low + 1_000_000 * (w * (i as u128)) / (n as u128))
            },
        }
    }

    /// What two rolls draw, in millionths.
    pub fn sample_for_rolls(&self, bin_roll: u64, point_roll: u64) -> (x: u128)
        requires
            self.wf(),
            bin_roll < ROLL_RANGE,
            point_roll < ROLL_RANGE,
        ensures
            x == self@.drawn(bin_roll as int, point_roll as int),
            x <= SAMPLE_LIMIT,
    {
        if weigh(&self.bins) == 0 {
            return self.moments.mean_micro();
        }
        let n: usize = self.bins.len();
        let i: usize = self.bin_for_roll(bin_roll);
        let low: u128 = match self.edge_micro(i) {
            Some(e) => e,
            None => 0,
        };
        let high: u128 = if i >= n - 1 && i > 0 {
            1_000_000 * self.reach().1
        } else {
            match self.edge_micro(i + 1) {
                Some(e) => e,
                None => low + 1_000_000 * (self.unit as u128),
            }
        };
        proof {
            lemma_span(self.edges, i as int, n as int, self.unit as int);
            let w = high - low;
            assert(0 <= w * point_roll / 0x20_0000_0000_0000 <= w) by (nonlinear_arith)
                requires
                    0 <= w,
                    0 <= point_roll <= 0x20_0000_0000_0000,
            ;
        }
        low + Wide::product(high - low, point_roll as u128).over(Wide::of(ROLL_RANGE as u128))
    }

    /// A drawn sample, in millionths.
    pub fn sample(&self) -> (x: u128)
        requires
            self.wf(),
        ensures
            exists|a: int, b: int|
                0 <= a < ROLL_RANGE && 0 <= b < ROLL_RANGE && x == #[trigger] self@.drawn(a, b),
            x <= SAMPLE_LIMIT,
    {
        let bin_roll: u64 = random_between(0, ROLL_RANGE - 1);
        let point_roll: u64 = random_between(0, ROLL_RANGE - 1);
        let x: u128 = self.sample_for_rolls(bin_roll, point_roll);
        assert(x == self@.drawn(bin_roll as int, point_roll as int));
        x
    }

    /// The part of the counts below `x`, in millionths.
    pub fn cdf(&self, x: u64) -> (p: u64)
        requires
            self.wf(),
        ensures
            p == self@.below(x as int),
            p <= 1_000_000,
    {
        let all: u64 = weigh(&self.bins);
        if all == 0 {
            return 0;
        }
        let (low, high): (u128, u128) = self.reach();
        if x as u128 <= low {
            return 0;
        }
        if x as u128 >= high {
            return 1_000_000;
        }
        let n: usize = self.bins.len();
        let w: u128 = high - low;
        let a: u128 = x as u128 - low;
        proof {
            lemma_bin_of(x as int, low as int, high as int, n as int);
            assert(0 <= a * (n - 1) <= 0x2_0000_0000_0000_0000 * 0x1_0000_0000) by (nonlinear_arith)
                requires
                    0 <= a <= 0x2_0000_0000_0000_0000,
                    0 <= n - 1 < 0x1_0000_0000,
            ;
        }
        let scaled: u128 = a * (n as u128 - 1);
        let at: usize = (scaled / w) as usize;
        let rest: u128 = scaled % w;
        let mut upto: u64 = 0;
        let mut i: usize = 0;
        assert(self.bins@.subrange(0, 0) =~= Seq::empty());
        while i < at
            invariant
                i <= at,
                at < n,
                n == self.bins@.len(),
                weight(self.bins@) <= u32::MAX,
                upto == weight_to(self.bins@, i as int),
            decreases at - i,
        {
            proof {
                lemma_weight_to(self.bins@, i as int);
                lemma_weight_to_grows(self.bins@, i + 1, n as int);
            }
            upto = upto + self.bins[i];
            i = i + 1;
        }
        let here: u128 = self.bins[at] as u128;
        let below: u128 = upto as u128;
        proof {
            lemma_weight_to(self.bins@, at as int);
            lemma_weight_to_grows(self.bins@, at + 1, n as int);
            let total = all as int;
            assert(0 <= below * w <= 0x1_0000_0000 * 0x2_0000_0000_0000_0000) by (nonlinear_arith)
                requires
                    0 <= below <= 0x1_0000_0000,
                    0 <= w <= 0x2_0000_0000_0000_0000,
            ;
            assert(0 <= here * rest <= 0x1_0000_0000 * 0x2_0000_0000_0000_0000) by (nonlinear_arith)
                requires
                    0 <= here <= 0x1_0000_0000,
                    0 <= rest <= 0x2_0000_0000_0000_0000,
            ;
            assert(0 < total * w <= 0x1_0000_0000 * 0x2_0000_0000_0000_0000) by (nonlinear_arith)
                requires
                    0 < total <= 0x1_0000_0000,
                    0 < w <= 0x2_0000_0000_0000_0000,
            ;
            assert(below * w + here * rest <= total * w) by (nonlinear_arith)
                requires
                    below + here <= total,
                    0 <= rest < w,
                    0 <= here,
            ;
            let (top, bottom) = (below * w + here * rest, total * w);
            assert(1_000_000 * top / bottom <= 1_000_000) by (nonlinear_arith)
                requires
                    0 <= top <= bottom,
                    bottom > 0,
            ;
        }
        (1_000_000 * (below * w + here * rest) / (all as u128 * w)) as u64
    }

    pub fn is_empty(&self) -> (b: bool)
        ensures
            b == (self.moments.count == 0),
    {
        self.moments.count == 0
    }

    /// The deviation of the samples, in thousandths.
    pub fn std_dev(&self) -> (s: u128)
        requires
            self.wf(),
        ensures
            s == self.moments.deviation_law(),
            s <= DEVIATION_LIMIT,
    {
        self.moments.std_dev_milli()
    }
}

/// No drawn sample is larger, in millionths.
pub const SAMPLE_LIMIT: u128 = 0x40_0000_0000_0000_0000_0000;

/// What a bin spans lies within bounds, in order.
proof fn lemma_span(e: Edges, i: int, n: int, unit: int)
    requires
        e.wf(unit),
        0 < unit <= u64::MAX,
        0 <= i < n,
        n >= 8,
    ensures
        0 <= e.span(i, n, unit).0 <= e.span(i, n, unit).1 <= SAMPLE_LIMIT,
{
    match e {
        Edges::Even(low, high) => {
            let w = high - low;
            let (p, q) = (1_000_000 * (w * i) / n, 1_000_000 * (w * (i + 1)) / n);
            assert(0 <= p <= q <= 1_000_000 * w) by (nonlinear_arith)
                requires
                    p == 1_000_000 * (w * i) / n,
                    q == 1_000_000 * (w * (i + 1)) / n,
                    0 <= i < n,
                    w > 0,
            ;
        },
        _ => {},
    }
}

/// What is drawn from an evenly divided range lies within it.
pub proof fn law_drawn_within_range(d: DistributionView, low: u128, high: u128, a: int, b: int)
    requires
        d.wf(),
        d.edges == Edges::Even(low, high),
        weight(d.bins) > 0,
        0 <= a < ROLL_RANGE,
        0 <= b < ROLL_RANGE,
    ensures
        1_000_000 * low <= d.drawn(a, b) <= 1_000_000 * high,
{
    let n = d.bins.len() as int;
    let i = rolled_bin(d.bins, a, 0);
    lemma_rolled_bin(d.bins, a, 0);
    let s = d.edges.span(i, n, d.unit as int);
    let w = high - low;
    let (p, q) = (1_000_000 * (w * i) / n, 1_000_000 * (w * (i + 1)) / n);
    assert(0 <= p <= q <= 1_000_000 * w) by (nonlinear_arith)
        requires
            p == 1_000_000 * (w * i) / n,
            q == 1_000_000 * (w * (i + 1)) / n,
            0 <= i < n,
            w > 0,
    ;
    let (x, y) = (s.1 - s.0, (s.1 - s.0) * b / 0x20_0000_0000_0000);
    assert(0 <= y <= x) by (nonlinear_arith)
        requires
            y == x * b / 0x20_0000_0000_0000,
            0 <= x,
            0 <= b < 0x20_0000_0000_0000,
    ;
}

proof fn lemma_rolled_bin(bins: Seq<u64>, roll: int, i: int)
    requires
        0 <= i < bins.len(),
    ensures
        0 <= rolled_bin(bins, roll, i) < bins.len(),
    decreases bins.len() - i,
{
    if i < bins.len() - 1 {
        lemma_rolled_bin(bins, roll, i + 1);
    }
}

/// A distribution's moments are those of the samples it was made from, and no more samples
/// are counted than there are.
pub proof fn law_distribution_of_samples(bin_count: int, unit: u64, s: Seq<u64>, k: int)
    requires
        0 <= bin_count <= u32::MAX,
        unit > 0,
        0 <= k <= s.len() <= u32::MAX,
    ensures
        ({
            let d = DistributionView::fresh(bin_count, unit).with_all(s, k);
            &&& d.moments == Moments::of(s.subrange(0, k))
            &&& d.moments.count == k
            &&& d.wf()
        }),
    decreases k,
{
    let fresh = DistributionView::fresh(bin_count, unit);
    if k == 0 {
        assert(s.subrange(0, 0) =~= Seq::<u64>::empty());
        lemma_weight_zero(fresh.bins.len());
        assert(fresh.bins =~= Seq::new(fresh.bins.len(), |i: int| 0u64));
    } else {
        law_distribution_of_samples(bin_count, unit, s, k - 1);
        let d = fresh.with_all(s, k - 1);
        let x = s[k - 1];
        assert(s.subrange(0, k).drop_last() =~= s.subrange(0, k - 1));
        lemma_with(d, x);
        lemma_sums(s.subrange(0, k - 1));
        lemma_moments_step(d.moments, x);
    }
}

/// Sums of samples are not negative and fit their words.
pub proof fn lemma_sums(s: Seq<u64>)
    ensures
        0 <= sum(s) <= s.len() * u64::MAX,
        0 <= square_sum(s) <= s.len() * square(),
        s.len() <= u32::MAX ==> wide::wide_of(square_sum(s))@ == square_sum(s),
    decreases s.len(),
{
    let n = s.len() as int;
    if n > 0 {
        lemma_sums(s.drop_last());
        let y = s.last() as int;
        assert(0 <= y * y <= square()) by (nonlinear_arith)
            requires
                0 <= y <= u64::MAX,
        ;
        assert(n * u64::MAX == (n - 1) * u64::MAX + u64::MAX) by (nonlinear_arith);
        assert(n * square() == (n - 1) * square() + square()) by (nonlinear_arith);
    }
    if n <= u32::MAX {
        assert(n * square() <= u32::MAX * square()) by (nonlinear_arith)
            requires
                n <= u32::MAX,
        ;
        wide::lemma_wide_exists(square_sum(s));
    }
}

/// One more sample keeps a distribution sound.
proof fn lemma_with(d: DistributionView, x: u64)
    requires
        d.wf(),
        d.moments.count < u32::MAX,
    ensures
        d.with(x).wf(),
        d.with(x).bins.len() == d.bins.len(),
{
    lemma_moments_step(d.moments, x);
    let n = d.bins.len() as int;
    let r = d.edges.range(d.unit as int);
    if d.edges is Unset {
        lemma_weight_zero(d.bins.len());
    } else if x < r.0 || x > r.1 {
        let wide = if x < r.0 {
            (x as int, r.1)
        } else {
            (r.0, x as int)
        };
        law_moving_keeps_counts(d.bins, r, wide, n);
        lemma_weight_to_all(d.bins, n);
    } else {
        lemma_bin_of(x as int, r.0, r.1, n);
        let at = bin_of(x as int, r.0, r.1, n);
        lemma_weight_part(d.bins, at);
        lemma_weight_update(d.bins, at, (d.bins[at] + 1) as u64);
    }
}

/// Running statistics, with averages that forget.
#[derive(Debug, Clone, Copy, PartialEq, Eq, Structural)]
pub struct OnlineStatisticsUpdater {
    pub moments: Moments,
    pub ema_mean_micro: u128,
    /// In trillionths.
    pub ema_variance: Wide,
    pub alpha_micro: u64,
}

/// The largest variance there can be, in trillionths.
pub open spec fn ema_limit() -> int {
    0x100_0000_0000_0000_0000_0000_0000_0000_0000_0000_0000int
}

impl OnlineStatisticsUpdater {
    /// Between a thousandth and a half.
    pub open spec fn alpha_of(alpha: int) -> int {
        if alpha < 1_000 {
            1_000
        } else if alpha > 500_000 {
            500_000
        } else {
            alpha
        }
    }

    pub open spec fn wf(self) -> bool {
        &&& self.moments.wf()
        &&& 1_000 <= self.alpha_micro <= 500_000
        &&& self.ema_mean_micro <= 1_000_000 * u64::MAX
        &&& self.ema_variance@ <= ema_limit()
    }

    /// How far a sample is from the average, in millionths.
    pub open spec fn off(self, x: u64) -> int {
        if 1_000_000 * x < self.ema_mean_micro {
            self.ema_mean_micro - 1_000_000 * x
        } else {
            1_000_000 * x - self.ema_mean_micro
        }
    }

    /// With one more sample.
    pub open spec fn with(self, x: u64) -> OnlineStatisticsUpdater {
        let a = self.alpha_micro as int;
        if self.moments.count == 0 {
            OnlineStatisticsUpdater {
                moments: self.moments.with(x),
                ema_mean_micro: (1_000_000 * x) as u128,
                ema_variance: Wide { high: 0, low: 0 },
                ..self
            }
        } else {
            OnlineStatisticsUpdater {
                moments: self.moments.with(x),
                ema_mean_micro: (((1_000_000 - a) * self.ema_mean_micro + a * (1_000_000 * x))
                    / 1_000_000) as u128,
                ema_variance: wide::wide_of(
                    (1_000_000 - a) * (self.ema_variance@ + a * (self.off(x) * self.off(x))
                        / 1_000_000) / 1_000_000,
                ),
                ..self
            }
        }
    }

    pub fn new(alpha_micro: u64) -> (u: Self)
        ensures
            u.alpha_micro == Self::alpha_of(alpha_micro as int),
            u.moments == Moments::of(Seq::empty()),
            u.ema_mean_micro == 0,
            u.ema_variance@ == 0,
            u.wf(),
    {
        OnlineStatisticsUpdater {
            moments: Moments::new(),
            ema_mean_micro: 0,
            ema_variance: Wide { high: 0, low: 0 },
            alpha_micro: if alpha_micro < 1_000 {
                1_000
            } else if alpha_micro > 500_000 {
                500_000
            } else {
                alpha_micro
            },
        }
    }

    pub fn update(&mut self, x: u64)
        requires
            old(self).wf(),
            old(self).moments.count < u32::MAX,
        ensures
            *final(self) == old(self).with(x),
            final(self).wf(),
    {
        let value: u128 = 1_000_000 * (x as u128);
        if self.moments.count == 0 {
            self.ema_mean_micro = value;
            self.ema_variance = Wide { high: 0, low: 0 };
        } else {
            let a: u128 = self.alpha_micro as u128;
            let old_mean: u128 = self.ema_mean_micro;
            let off: u128 = if value < old_mean {
                old_mean - value
            } else {
                value - old_mean
            };
            proof {
                lemma_ema(a as int, old_mean as int, value as int, off as int, self.ema_variance@);
                let (q, k) = (off * off, 1_000_000 - a);
                assert(q * a == a * q) by (nonlinear_arith);
                let whole = self.ema_variance@ + a * q / 1_000_000;
                assert(whole * k == k * whole) by (nonlinear_arith);
            }
            self.ema_mean_micro = ((1_000_000 - a) * old_mean + a * value) / 1_000_000;
            let million = Wide::of(1_000_000);
            let part: Wide = Wide::product(off, off).times(a).divide(million).0;
            self.ema_variance = self.ema_variance.plus(part).times(1_000_000 - a).divide(million).0;
            proof {
                wide::lemma_wide_of(self.ema_variance);
            }
        }
        self.moments.update(x);
    }

    /// The variance, in millionths.
    pub fn variance(&self) -> (v: Wide)
        requires
            self.wf(),
        ensures
            v@ == self.moments.variance_law(),
    {
        self.moments.variance_micro()
    }

    /// The deviation, in thousandths.
    pub fn std_dev(&self) -> (s: u128)
        requires
            self.wf(),
        ensures
            s == self.moments.deviation_law(),
            s <= DEVIATION_LIMIT,
    {
        self.moments.std_dev_milli()
    }

    /// The forgetful mean, in millionths.
    pub fn ema_mean(&self) -> (m: u128)
        ensures
            m == self.ema_mean_micro,
    {
        self.ema_mean_micro
    }

    /// The root of the forgetful variance, in millionths.
    pub fn ema_std_dev(&self) -> (s: u128)
        ensures
            s == roots::root(self.ema_variance@),
    {
        self.ema_variance.root()
    }

    pub fn count(&self) -> (n: u32)
        ensures
            n == self.moments.count,
    {
        self.moments.count
    }

    /// The mean, in millionths.
    pub fn mean(&self) -> (m: u128)
        requires
            self.wf(),
        ensures
            m == self.moments.mean_law(),
    {
        self.moments.mean_micro()
    }
}

/// The steps of a forgetful average and variance fit their words.
proof fn lemma_ema(a: int, mean: int, value: int, off: int, variance: int)
    requires
        1_000 <= a <= 500_000,
        0 <= mean <= 1_000_000 * u64::MAX,
        0 <= value <= 1_000_000 * u64::MAX,
        0 <= off <= 1_000_000 * u64::MAX,
        0 <= variance <= ema_limit(),
    ensures
        0 <= (1_000_000 - a) * mean <= u128::MAX,
        0 <= a * value,
        (1_000_000 - a) * mean + a * value <= u128::MAX,
        0 <= ((1_000_000 - a) * mean + a * value) / 1_000_000 <= 1_000_000 * u64::MAX,
        0 <= off * off < wide::limit(),
        0 <= a * (off * off) < wide::limit(),
        0 <= variance + a * (off * off) / 1_000_000 < wide::limit(),
        0 <= (1_000_000 - a) * (variance + a * (off * off) / 1_000_000) < wide::limit(),
        0 <= (1_000_000 - a) * (variance + a * (off * off) / 1_000_000) / 1_000_000 <= ema_limit(),
{
    let top = 1_000_000 * 0xFFFF_FFFF_FFFF_FFFFint;
    assert(0 <= (1_000_000 - a) * mean && 0 <= a * value && (1_000_000 - a) * mean + a * value
        <= 1_000_000 * top) by (nonlinear_arith)
        requires
            1_000 <= a <= 500_000,
            0 <= mean <= top,
            0 <= value <= top,
    ;
    assert(0 <= off * off <= top * top) by (nonlinear_arith)
        requires
            0 <= off <= top,
    ;
    let q = off * off;
    assert(top * top <= ema_limit()) by (nonlinear_arith)
        requires
            top == 1_000_000 * 0xFFFF_FFFF_FFFF_FFFFint,
    ;
    assert(0 <= a * q <= 500_000 * ema_limit()) by (nonlinear_arith)
        requires
            1_000 <= a <= 500_000,
            0 <= q <= ema_limit(),
    ;
    let part = a * q / 1_000_000;
    let whole = variance + part;
    assert(1_000_000 * part <= a * ema_limit()) by (nonlinear_arith)
        requires
            1_000_000 * part <= a * q,
            q <= ema_limit(),
            a >= 0,
    ;
    assert(0 <= (1_000_000 - a) * whole <= 1_000_000 * ema_limit()) by (nonlinear_arith)
        requires
            1_000 <= a <= 500_000,
            0 <= variance <= ema_limit(),
            whole == variance + part,
            0 <= 1_000_000 * part <= a * ema_limit(),
    ;
}

// ---- What distributions keep to ----

/// The range that samples give: it holds all of them, starts at one of them, and ends at one of them
/// or one unit above the first. It is around the first sample until one lies outside of that.
proof fn lemma_range_of_samples(bin_count: int, unit: u64, s: Seq<u64>, k: int)
    requires
        0 <= bin_count <= u32::MAX,
        unit > 0,
        0 < k <= s.len() <= u32::MAX,
    ensures
        ({
            let d = DistributionView::fresh(bin_count, unit).with_all(s, k);
            let r = d.edges.range(unit as int);
            &&& d.unit == unit
            &&& forall|i: int| 0 <= i < k ==> r.0 <= #[trigger] s[i] <= r.1
            &&& exists|i: int| 0 <= i < k && #[trigger] s[i] == r.0
            &&& r.1 == s[0] + unit || exists|i: int| 0 <= i < k && #[trigger] s[i] == r.1
            &&& s[0] + unit <= r.1
            &&& if forall|i: int| 0 <= i < k ==> s[0] <= #[trigger] s[i] <= s[0] + unit {
                d.edges == Edges::First(s[0])
            } else {
                d.edges is Even
            }
        }),
    decreases k,
{
    let fresh = DistributionView::fresh(bin_count, unit);
    law_distribution_of_samples(bin_count, unit, s, k - 1);
    let d = fresh.with_all(s, k - 1);
    let x = s[k - 1];
    if k == 1 {
        assert(fresh.with_all(s, 0) == fresh);
        assert(s[0] == x);
    } else {
        lemma_range_of_samples(bin_count, unit, s, k - 1);
        let r = d.edges.range(unit as int);
        let e = d.with(x);
        let q = e.edges.range(unit as int);
        assert(fresh.with_all(s, k) == e);
        assert(!(d.edges is Unset));
        let at = choose|i: int| 0 <= i < k - 1 && #[trigger] s[i] == r.0;
        if x < r.0 {
            assert(s[k - 1] == q.0);
        } else {
            assert(s[at] == q.0);
        }
        if x > r.1 {
            assert(s[k - 1] == q.1);
        } else if r.1 != s[0] + unit {
            let top = choose|i: int| 0 <= i < k - 1 && #[trigger] s[i] == r.1;
            assert(s[top] == q.1);
        }
        assert forall|i: int| 0 <= i < k implies q.0 <= #[trigger] s[i] <= q.1 by {
            if i < k - 1 {
                assert(r.0 <= s[i] <= r.1);
            }
        }
        if forall|i: int| 0 <= i < k ==> s[0] <= #[trigger] s[i] <= s[0] + unit {
            assert(s[0] <= s[k - 1] <= s[0] + unit);
            assert(forall|i: int| 0 <= i < k - 1 ==> s[0] <= #[trigger] s[i] <= s[0] + unit);
        } else if forall|i: int| 0 <= i < k - 1 ==> s[0] <= #[trigger] s[i] <= s[0] + unit {
            let i = choose|i: int| 0 <= i < k && !(s[0] <= #[trigger] s[i] <= s[0] + unit);
            assert(i == k - 1);
        }
    }
}

/// The sum of numbers within bounds.
proof fn lemma_sum_between(s: Seq<u64>, least: int, most: int)
    requires
        forall|i: int| 0 <= i < s.len() ==> least <= #[trigger] s[i] <= most,
    ensures
        s.len() * least <= sum(s) <= s.len() * most,
    decreases s.len(),
{
    let n = s.len() as int;
    if n > 0 {
        let rest = s.drop_last();
        assert forall|i: int| 0 <= i < rest.len() implies least <= #[trigger] rest[i] <= most by {
            assert(rest[i] == s[i]);
        }
        lemma_sum_between(rest, least, most);
        assert(least <= s[n - 1] <= most);
        assert(n * least == (n - 1) * least + least && n * most == (n - 1) * most + most)
            by (nonlinear_arith);
    } else {
        assert(0int * least == 0 && 0int * most == 0) by (nonlinear_arith);
    }
}

/// The mean of samples lies between the least and the greatest of them, and that of samples that are
/// all the same is that sample.
pub proof fn law_means_lie_among_the_samples(s: Seq<u64>, least: int, most: int)
    requires
        0 < s.len() <= u32::MAX,
        0 <= least,
        forall|i: int| 0 <= i < s.len() ==> least <= #[trigger] s[i] <= most,
    ensures
        1_000_000 * least <= Moments::of(s).mean_law() <= 1_000_000 * most,
        least == most ==> Moments::of(s).mean_law() == 1_000_000 * least,
{
    lemma_sum_between(s, least, most);
    lemma_sums(s);
    let (n, t) = (s.len() as int, sum(s));
    assert(t <= 0xFFFF_FFFF * 0xFFFF_FFFF_FFFF_FFFF) by (nonlinear_arith)
        requires
            t <= n * 0xFFFF_FFFF_FFFF_FFFF,
            n <= 0xFFFF_FFFF,
    ;
    assert(1_000_000 * least <= 1_000_000 * t / n <= 1_000_000 * most) by (nonlinear_arith)
        requires
            n * least <= t <= n * most,
            n > 0,
    ;
}

/// What is drawn from a distribution of samples that reach farther than one unit from the first lies
/// between the least and the greatest of them, in millionths; the greatest counts as at least one
/// unit above the first.
pub proof fn law_draws_stay_among_the_samples(
    bin_count: int,
    unit: u64,
    s: Seq<u64>,
    least: int,
    most: int,
    a: int,
    b: int,
)
    requires
        0 <= bin_count <= u32::MAX,
        unit > 0,
        0 < s.len() <= u32::MAX,
        0 <= least,
        s[0] + unit <= most,
        forall|i: int| 0 <= i < s.len() ==> least <= #[trigger] s[i] <= most,
        exists|i: int|
            0 <= i < s.len() && !(s[0] <= #[trigger] s[i] <= s[0] + unit),
        0 <= a < ROLL_RANGE,
        0 <= b < ROLL_RANGE,
    ensures
        1_000_000 * least <= DistributionView::fresh(bin_count, unit).with_all(
            s,
            s.len() as int,
        ).drawn(a, b) <= 1_000_000 * most,
{
    let n = s.len() as int;
    let d = DistributionView::fresh(bin_count, unit).with_all(s, n);
    lemma_range_of_samples(bin_count, unit, s, n);
    law_distribution_of_samples(bin_count, unit, s, n);
    assert(s.subrange(0, n) =~= s);
    let r = d.edges.range(unit as int);
    let low = choose|i: int| 0 <= i < n && #[trigger] s[i] == r.0;
    assert(least <= s[low] <= most);
    if r.1 != s[0] + unit {
        let top = choose|i: int| 0 <= i < n && #[trigger] s[i] == r.1;
        assert(least <= s[top] <= most);
    }
    lemma_weight_nonneg(d.bins);
    if weight(d.bins) > 0 {
        match d.edges {
            Edges::Even(x, y) => {
                law_drawn_within_range(d, x, y, a, b);
            },
            _ => {},
        }
    } else {
        law_means_lie_among_the_samples(s, least, most);
    }
}

/// Where all samples are the same, what is drawn lies within one unit above them.
pub proof fn law_draws_from_equal_samples(bin_count: int, unit: u64, s: Seq<u64>, x: u64, a: int, b: int)
    requires
        0 <= bin_count <= u32::MAX,
        unit > 0,
        0 < s.len() <= u32::MAX,
        forall|i: int| 0 <= i < s.len() ==> #[trigger] s[i] == x,
        0 <= a < ROLL_RANGE,
        0 <= b < ROLL_RANGE,
    ensures
        1_000_000 * x <= DistributionView::fresh(bin_count, unit).with_all(
            s,
            s.len() as int,
        ).drawn(a, b) <= 1_000_000 * (x + unit),
{
    let n = s.len() as int;
    let d = DistributionView::fresh(bin_count, unit).with_all(s, n);
    lemma_equal_bins(bin_count, unit, s, x, n);
    law_distribution_of_samples(bin_count, unit, s, n);
    assert(s.subrange(0, n) =~= s);
    if weight(d.bins) == 0 {
        law_means_lie_among_the_samples(s, x as int, x as int);
    } else {
        let w = weight(d.bins);
        lemma_weight_to(d.bins, 0);
        assert(d.bins.subrange(0, 0) =~= Seq::empty());
        assert(a * w <= w * 0x20_0000_0000_0000) by (nonlinear_arith)
            requires
                0 <= a < 0x20_0000_0000_0000,
                w >= 0,
        ;
        assert(rolled_bin(d.bins, a, 0) == 0);
        let u = 1_000_000 * unit as int;
        assert(0 <= u * b / 0x20_0000_0000_0000 <= u) by (nonlinear_arith)
            requires
                0 <= b < 0x20_0000_0000_0000,
                u >= 0,
        ;
    }
}

/// Samples that are all the same are all counted in the first bin.
proof fn lemma_equal_bins(bin_count: int, unit: u64, s: Seq<u64>, x: u64, k: int)
    requires
        0 <= bin_count <= u32::MAX,
        unit > 0,
        0 < k <= s.len() <= u32::MAX,
        forall|i: int| 0 <= i < s.len() ==> #[trigger] s[i] == x,
    ensures
        ({
            let d = DistributionView::fresh(bin_count, unit).with_all(s, k);
            &&& d.edges == Edges::First(x)
            &&& d.unit == unit
            &&& d.bins.len() >= 8
            &&& d.bins[0] == k - 1
            &&& weight(d.bins) == k - 1
        }),
    decreases k,
{
    let fresh = DistributionView::fresh(bin_count, unit);
    let d = fresh.with_all(s, k - 1);
    assert(s[k - 1] == x);
    if k == 1 {
        assert(fresh.with_all(s, 0) == fresh);
        lemma_weight_zero(fresh.bins.len());
    } else {
        lemma_equal_bins(bin_count, unit, s, x, k - 1);
        let n = d.bins.len() as int;
        assert(0int * (n - 1) / (unit as int) == 0) by (nonlinear_arith)
            requires
                unit > 0,
        ;
        assert(bin_of(x as int, x as int, x + unit, n) == 0);
        lemma_weight_update(d.bins, 0, (d.bins[0] + 1) as u64);
    }
}

/// A sample within the range is counted once, and changes no other bin; one outside of it widens the
/// range to itself and no farther.
pub proof fn law_samples_are_counted_once(d: DistributionView, x: u64)
    requires
        d.wf(),
        d.moments.count > 0,
        d.moments.count < u32::MAX,
    ensures
        ({
            let r = d.edges.range(d.unit as int);
            let e = d.with(x);
            let q = e.edges.range(d.unit as int);
            &&& e.moments.count == d.moments.count + 1
            &&& e.moments.total == d.moments.total + x
            &&& r.0 <= x <= r.1 ==> weight(e.bins) == weight(d.bins) + 1 && q == r
            &&& x < r.0 ==> weight(e.bins) == weight(d.bins) && q == (x as int, r.1)
            &&& x > r.1 ==> weight(e.bins) == weight(d.bins) && q == (r.0, x as int)
            &&& x == r.0 ==> e.bins[0] == d.bins[0] + 1
            &&& x == r.1 ==> e.bins[d.bins.len() - 1] == d.bins[d.bins.len() - 1] + 1
        }),
{
    lemma_moments_step(d.moments, x);
    let n = d.bins.len() as int;
    let r = d.edges.range(d.unit as int);
    if x < r.0 || x > r.1 {
        let wide = if x < r.0 {
            (x as int, r.1)
        } else {
            (r.0, x as int)
        };
        law_moving_keeps_counts(d.bins, r, wide, n);
        lemma_weight_to_all(d.bins, n);
    } else {
        lemma_bin_of(x as int, r.0, r.1, n);
        let at = bin_of(x as int, r.0, r.1, n);
        lemma_weight_part(d.bins, at);
        lemma_weight_update(d.bins, at, (d.bins[at] + 1) as u64);
        let w = r.1 - r.0;
        assert(0int * (n - 1) / w == 0 && w * (n - 1) / w == n - 1) by (nonlinear_arith)
            requires
                w > 0,
        ;
    }
}

/// A running average moves by its rate: it stays where samples are the same, and lies between the
/// average before and the sample; a first sample sets it.
pub proof fn law_running_averages_follow_samples(u: OnlineStatisticsUpdater, x: u64)
    requires
        u.wf(),
        u.moments.count < u32::MAX,
    ensures
        u.moments.count == 0 ==> u.with(x).ema_mean_micro == 1_000_000 * x && u.with(
            x,
        ).ema_variance@ == 0,
        u.moments.count > 0 && u.ema_mean_micro == 1_000_000 * x ==> u.with(x).ema_mean_micro
            == u.ema_mean_micro,
        u.moments.count > 0 && u.ema_mean_micro <= 1_000_000 * x ==> u.ema_mean_micro <= u.with(
            x,
        ).ema_mean_micro <= 1_000_000 * x,
        u.moments.count > 0 && 1_000_000 * x <= u.ema_mean_micro ==> 1_000_000 * x <= u.with(
            x,
        ).ema_mean_micro <= u.ema_mean_micro,
        u.moments.count > 0 && u.alpha_micro == 500_000 ==> u.with(x).ema_mean_micro == (
        u.ema_mean_micro + 1_000_000 * x) / 2,
        u.with(x).moments.count == u.moments.count + 1,
        u.with(x).moments.total == u.moments.total + x,
{
    lemma_moments_step(u.moments, x);
    let (a, m, v) = (u.alpha_micro as int, u.ema_mean_micro as int, 1_000_000 * x);
    lemma_ema(a, m, v, u.off(x), u.ema_variance@);
    let t = (1_000_000 - a) * m + a * v;
    assert((m <= v ==> 1_000_000 * m <= t <= 1_000_000 * v) && (v <= m ==> 1_000_000 * v <= t
        <= 1_000_000 * m)) by (nonlinear_arith)
        requires
            t == (1_000_000 - a) * m + a * v,
            0 <= a <= 1_000_000,
    ;
    if a == 500_000 {
        assert(t == 500_000 * (m + v)) by (nonlinear_arith)
            requires
                t == (1_000_000 - a) * m + a * v,
                a == 500_000,
        ;
    }
}

/// The part of the counts below a point grows with the point: none at the start of the range, and
/// all at its end.
pub proof fn law_part_below_has_its_ends(d: DistributionView)
    requires
        d.wf(),
        weight(d.bins) > 0,
    ensures
        d.below(d.edges.range(d.unit as int).0) == 0,
        d.below(d.edges.range(d.unit as int).1) == 1_000_000,
{
}

/// A deviation is not negative.
pub proof fn lemma_deviation_fits(m: Moments)
    requires
        m.wf(),
    ensures
        0 <= m.deviation_law(),
{
    lemma_totals_fit(m);
    if m.count >= 2 {
        lemma_part_of_squares(m, m.count * (m.count - 1));
    }
    roots::lemma_root_exists(m.variance_law());
}

/// A rate of learning is kept between a thousandth and a half, and as it is in between.
pub proof fn law_rates_are_kept_in_bounds(a: int, b: int)
    requires
        a <= b,
    ensures
        1_000 <= OnlineStatisticsUpdater::alpha_of(a) <= OnlineStatisticsUpdater::alpha_of(b)
            <= 500_000,
        1_000 <= a <= 500_000 ==> OnlineStatisticsUpdater::alpha_of(a) == a,
{
}

/// Two samples are counted and added up, and vary by half the square of how far they are apart.
pub proof fn law_two_samples_vary_by_their_distance(m: Moments, x: u64, y: u64)
    requires
        m.count == 0,
        m.total == 0,
        m.square_total@ == 0,
    ensures
        m.with(x).with(y).count == 2,
        m.with(x).with(y).total == x + y,
        m.with(x).with(y).variance_law() == 500_000 * ((x - y) * (x - y)),
        m.with(x).with(x).deviation_law() == 0,
{
    let (a, b) = (x as int, y as int);
    lemma_pair_of_samples(m, x, y);
    lemma_pair_of_samples(m, x, x);
    assert((a - a) * (a - a) == 0) by (nonlinear_arith);
    roots::law_root_is_unique(0, 0);
}

proof fn lemma_pair_of_samples(m: Moments, x: u64, y: u64)
    requires
        m.count == 0,
        m.total == 0,
        m.square_total@ == 0,
    ensures
        m.with(x).with(y).variance_law() == 500_000 * ((x - y) * (x - y)),
{
    let (a, b) = (x as int, y as int);
    assert(0 <= a * a <= 0xFFFF_FFFF_FFFF_FFFF * 0xFFFF_FFFF_FFFF_FFFF) by (nonlinear_arith)
        requires
            0 <= a <= 0xFFFF_FFFF_FFFF_FFFF,
    ;
    assert(0 <= b * b <= 0xFFFF_FFFF_FFFF_FFFF * 0xFFFF_FFFF_FFFF_FFFF) by (nonlinear_arith)
        requires
            0 <= b <= 0xFFFF_FFFF_FFFF_FFFF,
    ;
    wide::lemma_wide_exists(a * a);
    wide::lemma_wide_exists(a * a + b * b);
    let two = m.with(x).with(y);
    assert(two.square_total@ == a * a + b * b);
    assert(2 * (a * a + b * b) - (a + b) * (a + b) == (a - b) * (a - b)) by (nonlinear_arith);
    let sq = (a - b) * (a - b);
    assert(two.total == a + b);
    assert(two.scatter() == sq);
    assert(sq >= 0) by (nonlinear_arith)
        requires
            sq == (a - b) * (a - b),
    ;
    assert((1_000_000 * sq) / 2 == 500_000 * sq);
}

} // verus!
