//! What a flow should look like: the measures of a game's traffic.
//!
//! Sizes are in millionths of a byte, gaps in nanoseconds, which are millionths of a
//! millisecond, and fractions in millionths.

use crate::masking::dpi_analysis::TargetStats;
use crate::masking::dpi_simulator::FEATURE_LIMIT;
use crate::utils::wide::Wide;
#[allow(unused_imports)]
use crate::utils::wide;
use crate::masking::statistical_model::{
    sample_from_cdf, GaussianComponent, StatisticalGameTrafficModel, ROLL_RANGE,
};
#[allow(unused_imports)]
use crate::masking::{periodicity, statistical_model};
use crate::utils::random::random_between;
use crate::utils::roots::square_root;
#[allow(unused_imports)]
use crate::utils::roots;
use crate::utils::spread::divided;
#[allow(unused_imports)]
use crate::utils::spread;
use crate::utils::stats::sorted;
#[allow(unused_imports)]
use crate::utils::stats;
use vstd::prelude::*;

verus! {

/// How many steps a table of quantiles has.
pub const QUANTILES: usize = 64;

/// How many gaps are drawn for the table of gaps.
pub const GAP_SAMPLES: usize = 4096;

/// The most that a component of a mixture may have for a mean or a deviation.
pub const MIXTURE_LIMIT: u64 = 1_000_000_000_000;

/// More nanoseconds than the mean or the deviation of any gaps.
pub const GAP_LIMIT: u128 = 0x1_0000_0000_0000_0000_0000;

/// The most that all weights of a mixture may add up to.
pub const MOST_WEIGHT: u64 = 1_000_000_000;

/// The most that the probabilities of all gaps may add up to.
pub const MOST_CHANCE: u64 = 16_000_000;

/// How packet sizes are distributed.
#[derive(Debug, Clone, Copy, PartialEq, Eq, Structural)]
pub struct PacketSizeDistribution {
    pub mean: u64,
    pub std: u64,
    pub median: u64,
    pub p25: u64,
    pub p75: u64,
    pub p95: u64,
    pub min: u64,
    pub max: u64,
}

/// How gaps are distributed.
#[derive(Debug, Clone, Copy, PartialEq, Eq, Structural)]
pub struct TimingDistribution {
    pub mean_iat: u128,
    pub std_iat: u128,
    pub cv: u128,
    pub p50_iat: u128,
    pub p95_iat: u128,
    pub burstiness: u64,
}

/// `x` moved into the range of a mixture.
pub open spec fn as_size(x: int) -> int {
    if x < 0 {
        0
    } else {
        periodicity::capped(x, MIXTURE_LIMIT as int)
    }
}

fn to_size(x: i128) -> (f: u64)
    ensures
        f == as_size(x as int),
        f <= MIXTURE_LIMIT,
{
    if x < 0 {
        0
    } else if x > MIXTURE_LIMIT as i128 {
        MIXTURE_LIMIT
    } else {
        x as u64
    }
}

// ---- Sizes ----

/// The weights of components, added up.
pub open spec fn weight_total(c: Seq<GaussianComponent>, n: int) -> int
    decreases n,
{
    if n <= 0 {
        0
    } else {
        weight_total(c, n - 1) + c[n - 1].weight_micro
    }
}

/// What a component counts: its weight, or one where no component has any.
pub open spec fn counts(c: Seq<GaussianComponent>, i: int) -> int {
    if weight_total(c, c.len() as int) == 0 {
        1
    } else {
        c[i].weight_micro as int
    }
}

/// What all components count.
pub open spec fn count_total(c: Seq<GaussianComponent>) -> int {
    let total = weight_total(c, c.len() as int);
    if total == 0 {
        c.len() as int
    } else {
        total
    }
}

/// The means of the first `n` components, weighted and added up.
pub open spec fn mean_sum(c: Seq<GaussianComponent>, n: int) -> int
    decreases n,
{
    if n <= 0 {
        0
    } else {
        mean_sum(c, n - 1) + counts(c, n - 1) * c[n - 1].mean_micro
    }
}

/// The mean of a mixture.
pub open spec fn mixture_mean(c: Seq<GaussianComponent>) -> int {
    spread::quotient(mean_sum(c, c.len() as int), count_total(c))
}

/// The mean square of a component about `mean`.
pub open spec fn square_about(c: GaussianComponent, mean: int) -> int {
    let off = c.mean_micro - mean;
    c.std_dev_micro * c.std_dev_micro + off * off
}

/// The mean squares of the first `n` components, weighted and added up.
pub open spec fn square_sum(c: Seq<GaussianComponent>, mean: int, n: int) -> int
    decreases n,
{
    if n <= 0 {
        0
    } else {
        square_sum(c, mean, n - 1) + counts(c, n - 1) * square_about(c[n - 1], mean)
    }
}

/// The standard deviation of a mixture.
pub open spec fn mixture_std(c: Seq<GaussianComponent>) -> int {
    roots::root(square_sum(c, mixture_mean(c), c.len() as int) / count_total(c))
}

/// Whether a mixture can be measured: there is something, nothing is too large, and the
/// weights do not add up to too much.
pub open spec fn is_mixture(c: Seq<GaussianComponent>) -> bool {
    &&& 0 < c.len() <= MOST_WEIGHT
    &&& weight_total(c, c.len() as int) <= MOST_WEIGHT
    &&& forall|i: int|
        0 <= i < c.len() ==> -MIXTURE_LIMIT <= (#[trigger] c[i]).mean_micro <= MIXTURE_LIMIT && 0
            <= c[i].std_dev_micro <= MIXTURE_LIMIT
}

/// Which of `n` numbers in order stands a `percent` part of the way through them.
pub open spec fn place(n: int, percent: int) -> int {
    percent * (n - 1) / 100
}

/// The sizes of a mixture, where `t` is sizes drawn from it, in order.
pub open spec fn size_stats(c: Seq<GaussianComponent>, t: Seq<u64>) -> PacketSizeDistribution {
    let n = t.len() as int;
    PacketSizeDistribution {
        mean: as_size(mixture_mean(c)) as u64,
        std: as_size(mixture_std(c)) as u64,
        median: t[place(n, 50)],
        p25: t[place(n, 25)],
        p75: t[place(n, 75)],
        p95: t[place(n, 95)],
        min: t[0],
        max: t[n - 1],
    }
}

proof fn lemma_weights_grow(c: Seq<GaussianComponent>, i: int, j: int)
    requires
        0 <= i <= j <= c.len(),
    ensures
        0 <= weight_total(c, i) <= weight_total(c, j),
    decreases j,
{
    if i < j {
        lemma_weights_grow(c, i, j - 1);
    } else if i > 0 {
        lemma_weights_grow(c, i - 1, i - 1);
    }
}

/// What the first `n` components count.
pub open spec fn counted(c: Seq<GaussianComponent>, n: int) -> int {
    if weight_total(c, c.len() as int) == 0 {
        n
    } else {
        weight_total(c, n)
    }
}

/// Weighted sums stay within what the weights allow.
proof fn lemma_sums_fit(c: Seq<GaussianComponent>, mean: int, n: int)
    requires
        is_mixture(c),
        -MIXTURE_LIMIT <= mean <= MIXTURE_LIMIT,
        0 <= n <= c.len(),
    ensures
        0 <= counted(c, n) <= MOST_WEIGHT,
        -(counted(c, n) * MIXTURE_LIMIT) <= mean_sum(c, n) <= counted(c, n) * MIXTURE_LIMIT,
        0 <= square_sum(c, mean, n) <= counted(c, n) * 5_000_000_000_000_000_000_000_000,
    decreases n,
{
    lemma_weights_grow(c, n, c.len() as int);
    let limit = MIXTURE_LIMIT as int;
    if n > 0 {
        lemma_sums_fit(c, mean, n - 1);
        let w = counts(c, n - 1);
        let one = c[n - 1];
        let before = counted(c, n - 1);
        assert(counted(c, n) == before + w);
        let m = one.mean_micro as int;
        let q = square_about(one, mean);
        let (s, off) = (one.std_dev_micro as int, m - mean);
        assert(0 <= s * s <= limit * limit) by (nonlinear_arith)
            requires
                0 <= s <= limit,
        ;
        assert(0 <= off * off <= 4 * (limit * limit)) by (nonlinear_arith)
            requires
                -(2 * limit) <= off <= 2 * limit,
        ;
        assert(limit * limit == 1_000_000_000_000_000_000_000_000) by (nonlinear_arith)
            requires
                limit == 1_000_000_000_000,
        ;
        assert(-(w * limit) <= w * m <= w * limit) by (nonlinear_arith)
            requires
                w >= 0,
                -limit <= m <= limit,
        ;
        assert(0 <= w * q <= w * 5_000_000_000_000_000_000_000_000) by (nonlinear_arith)
            requires
                w >= 0,
                0 <= q <= 5_000_000_000_000_000_000_000_000,
        ;
        assert((before + w) * limit == before * limit + w * limit) by (nonlinear_arith);
        assert((before + w) * 5_000_000_000_000_000_000_000_000 == before
            * 5_000_000_000_000_000_000_000_000 + w * 5_000_000_000_000_000_000_000_000)
            by (nonlinear_arith);
    }
}

/// What a component counts.
fn count_of(c: &[GaussianComponent], i: usize, total: u64) -> (w: i128)
    requires
        i < c@.len(),
        total == weight_total(c@, c@.len() as int),
    ensures
        w == counts(c@, i as int),
{
    if total == 0 {
        1
    } else {
        c[i].weight_micro as i128
    }
}

/// The mean and the standard deviation of a mixture.
fn measure_mixture(c: &[GaussianComponent]) -> (r: (u64, u64))
    requires
        is_mixture(c@),
    ensures
        r.0 == as_size(mixture_mean(c@)),
        r.1 == as_size(mixture_std(c@)),
        r.0 <= MIXTURE_LIMIT,
        r.1 <= MIXTURE_LIMIT,
{
    let n: usize = c.len();
    let ghost limit = MIXTURE_LIMIT as int;
    let mut total: u64 = 0;
    let mut i: usize = 0;
    while i < n
        invariant
            i <= n,
            n == c@.len(),
            is_mixture(c@),
            total == weight_total(c@, i as int),
            total <= MOST_WEIGHT,
        decreases n - i,
    {
        proof {
            lemma_weights_grow(c@, i + 1, n as int);
        }
        total = total + c[i].weight_micro;
        i += 1;
    }
    let all: i128 = if total == 0 {
        n as i128
    } else {
        total as i128
    };
    let mut sum: i128 = 0;
    i = 0;
    while i < n
        invariant
            i <= n,
            n == c@.len(),
            is_mixture(c@),
            total == weight_total(c@, n as int),
            sum == mean_sum(c@, i as int),
        decreases n - i,
    {
        proof {
            lemma_sums_fit(c@, 0, i as int);
            lemma_sums_fit(c@, 0, i + 1);
            let k = counted(c@, i as int);
            let l = counted(c@, i + 1);
            assert(k * MIXTURE_LIMIT <= 1_000_000_000_000_000_000_000 && l * MIXTURE_LIMIT
                <= 1_000_000_000_000_000_000_000) by (nonlinear_arith)
                requires
                    k <= 1_000_000_000,
                    l <= 1_000_000_000,
                    MIXTURE_LIMIT == 1_000_000_000_000,
            ;
        }
        let w: i128 = count_of(c, i, total);
        let m: i128 = c[i].mean_micro as i128;
        assert(mean_sum(c@, i + 1) == sum + w * m);
        assert(-1_000_000_000_000_000_000_000 <= w * m <= 1_000_000_000_000_000_000_000)
            by (nonlinear_arith)
            requires
                0 <= w <= 1_000_000_000,
                -1_000_000_000_000 <= m <= 1_000_000_000_000,
        ;
        sum = sum + w * m;
        i += 1;
    }
    proof {
        lemma_sums_fit(c@, 0, n as int);
        assert(all == count_total(c@) && all == counted(c@, n as int) && all > 0);
        let k = all as int;
        assert(k * MIXTURE_LIMIT <= 1_000_000_000_000_000_000_000) by (nonlinear_arith)
            requires
                k <= 1_000_000_000,
                MIXTURE_LIMIT == 1_000_000_000_000,
        ;
    }
    let mean: i128 = divided(sum, all);
    proof {
        let (s, k) = (sum as int, all as int);
        let m = if s >= 0 {
            s
        } else {
            -s
        };
        assert(0 <= m / k <= limit) by (nonlinear_arith)
            requires
                0 <= m <= k * limit,
                k > 0,
        ;
        lemma_sums_fit(c@, mean as int, n as int);
    }
    let mut squares: i128 = 0;
    i = 0;
    while i < n
        invariant
            i <= n,
            n == c@.len(),
            is_mixture(c@),
            -MIXTURE_LIMIT <= mean <= MIXTURE_LIMIT,
            total == weight_total(c@, n as int),
            squares == square_sum(c@, mean as int, i as int),
        decreases n - i,
    {
        proof {
            lemma_sums_fit(c@, mean as int, i as int);
            lemma_sums_fit(c@, mean as int, i + 1);
            lemma_weights_grow(c@, i + 1, n as int);
        }
        let w: i128 = count_of(c, i, total);
        let s: i128 = c[i].std_dev_micro as i128;
        let off: i128 = c[i].mean_micro as i128 - mean;
        proof {
            assert(0 <= s * s <= 1_000_000_000_000_000_000_000_000) by (nonlinear_arith)
                requires
                    0 <= s <= 1_000_000_000_000,
            ;
            assert(0 <= off * off <= 4_000_000_000_000_000_000_000_000) by (nonlinear_arith)
                requires
                    -2_000_000_000_000 <= off <= 2_000_000_000_000,
            ;
            let q = s * s + off * off;
            assert(0 <= w * q <= 5_000_000_000_000_000_000_000_000_000_000_000)
                by (nonlinear_arith)
                requires
                    0 <= w <= 1_000_000_000,
                    0 <= q <= 5_000_000_000_000_000_000_000_000,
            ;
            let k = counted(c@, i as int);
            assert(k * 5_000_000_000_000_000_000_000_000
                <= 5_000_000_000_000_000_000_000_000_000_000_000) by (nonlinear_arith)
                requires
                    k <= 1_000_000_000,
            ;
        }
        squares = squares + w * (s * s + off * off);
        i += 1;
    }
    proof {
        lemma_sums_fit(c@, mean as int, n as int);
        assert(squares as int / all as int <= squares) by (nonlinear_arith)
            requires
                all >= 1,
                squares >= 0,
        ;
    }
    let std: u128 = square_root((squares / all) as u128);
    assert(std <= 0xFFFF_FFFF_FFFF_FFFF) by (nonlinear_arith)
        requires
            std * std <= 0x7FFF_FFFF_FFFF_FFFF_FFFF_FFFF_FFFF_FFFF,
    ;
    (to_size(mean), to_size(std as i128))
}

/// The number a `percent` part of the way through numbers in order.
fn at_place(t: &Vec<u64>, percent: u64) -> (x: u64)
    requires
        0 < t@.len(),
        percent <= 100,
    ensures
        x == t@[place(t@.len() as int, percent as int)],
        0 <= place(t@.len() as int, percent as int) < t@.len(),
{
    let n: u128 = (t.len() - 1) as u128;
    assert(0 <= percent * n <= 100 * n) by (nonlinear_arith)
        requires
            0 <= percent <= 100,
            0 <= n,
    ;
    let at: u128 = (percent as u128) * n / 100;
    t[at as usize]
}

/// From component `i` on, the first that is no less a part of all than the roll; else the last.
/// Each stands for itself here, not with those before it.
pub open spec fn weight_index(c: Seq<GaussianComponent>, roll: int, i: int) -> int
    decreases c.len() - i,
{
    if i >= c.len() - 1 {
        c.len() - 1
    } else if roll * count_total(c) <= counts(c, i) * ROLL_RANGE {
        i
    } else {
        weight_index(c, roll, i + 1)
    }
}

/// The component that a size to measure is drawn from, for a roll.
pub fn component_by_weight(c: &[GaussianComponent], roll: u64) -> (index: usize)
    requires
        is_mixture(c@),
        roll < ROLL_RANGE,
    ensures
        index == weight_index(c@, roll as int, 0),
        index < c@.len(),
{
    let n: usize = c.len();
    let mut total: u64 = 0;
    let mut i: usize = 0;
    while i < n
        invariant
            i <= n,
            n == c@.len(),
            is_mixture(c@),
            total == weight_total(c@, i as int),
        decreases n - i,
    {
        proof {
            lemma_weights_grow(c@, i + 1, n as int);
        }
        total = total + c[i].weight_micro;
        i += 1;
    }
    let all: u128 = if total == 0 {
        n as u128
    } else {
        total as u128
    };
    assert(0 <= roll * all <= 0x20_0000_0000_0000 * 1_000_000_000) by (nonlinear_arith)
        requires
            0 <= roll <= 0x20_0000_0000_0000,
            0 <= all <= 1_000_000_000,
    ;
    i = 0;
    while i + 1 < n
        invariant
            i < n,
            n == c@.len(),
            total == weight_total(c@, n as int),
            all == count_total(c@),
            roll * all <= 0x20_0000_0000_0000 * 1_000_000_000,
            weight_index(c@, roll as int, 0) == weight_index(c@, roll as int, i as int),
        decreases n - i,
    {
        let here: i128 = count_of(c, i, total);
        if (roll as u128) * all <= (here as u128) * (ROLL_RANGE as u128) {
            return i;
        }
        i += 1;
    }
    i
}

/// The sizes of a mixture, given sizes drawn from it.
pub fn compute_size_distribution_stats(c: &[GaussianComponent], samples: &[u64]) -> (d:
    PacketSizeDistribution)
    requires
        is_mixture(c@),
        samples@.len() > 0,
    ensures
        d == size_stats(c@, stats::in_order(samples@)),
        d.mean <= MIXTURE_LIMIT,
        d.std <= MIXTURE_LIMIT,
{
    let t = sorted(samples);
    proof {
        stats::lemma_in_order(t@, samples@);
        stats::lemma_sorts_len(t@, samples@);
    }
    let (mean, std) = measure_mixture(c);
    PacketSizeDistribution {
        mean,
        std,
        median: at_place(&t, 50),
        p25: at_place(&t, 25),
        p75: at_place(&t, 75),
        p95: at_place(&t, 95),
        min: t[0],
        max: t[t.len() - 1],
    }
}

/// The quantiles of a mixture ascend.
pub proof fn law_size_quantiles_ascend(c: Seq<GaussianComponent>, samples: Seq<u64>)
    requires
        samples.len() > 0,
    ensures
        ({
            let d = size_stats(c, stats::in_order(samples));
            d.min <= d.p25 && d.p25 <= d.median && d.median <= d.p75 && d.p75 <= d.p95 && d.p95
                <= d.max
        }),
{
    stats::lemma_order_exists(samples);
    let t = stats::in_order(samples);
    stats::lemma_sorts_len(t, samples);
    let n = t.len() as int;
    assert(0 <= place(n, 25) <= place(n, 50) <= place(n, 75) <= place(n, 95) <= n - 1);
}

// ---- Gaps ----

/// A gap in nanoseconds.
pub open spec fn gap_ns(bin: (u64, u64)) -> int {
    1000 * bin.0
}

/// The probabilities of the first `n` gaps, added up.
pub open spec fn chance_total(bins: Seq<(u64, u64)>, n: int) -> int
    decreases n,
{
    if n <= 0 {
        0
    } else {
        chance_total(bins, n - 1) + bins[n - 1].1
    }
}

/// The first `n` gaps, weighted with their probabilities and added up.
pub open spec fn gap_sum(bins: Seq<(u64, u64)>, n: int) -> int
    decreases n,
{
    if n <= 0 {
        0
    } else {
        gap_sum(bins, n - 1) + bins[n - 1].1 * gap_ns(bins[n - 1])
    }
}

/// The mean gap, in nanoseconds.
pub open spec fn mean_gap(bins: Seq<(u64, u64)>) -> int {
    gap_sum(bins, bins.len() as int) / 1_000_000
}

/// The squares of how far the first `n` gaps are from `mean`, weighted and added up.
pub open spec fn gap_squares(bins: Seq<(u64, u64)>, mean: int, n: int) -> int
    decreases n,
{
    if n <= 0 {
        0
    } else {
        let off = gap_ns(bins[n - 1]) - mean;
        gap_squares(bins, mean, n - 1) + bins[n - 1].1 * (off * off)
    }
}

/// The standard deviation of the gaps, in nanoseconds.
pub open spec fn std_gap(bins: Seq<(u64, u64)>) -> int {
    roots::root(gap_squares(bins, mean_gap(bins), bins.len() as int) / 1_000_000)
}

/// The gap at which the first `n` probabilities reach one half: the first gap there, but as
/// long as that is the mean, the next one.
pub open spec fn half_gap(bins: Seq<(u64, u64)>, n: int) -> int
    decreases n,
{
    if n <= 0 {
        mean_gap(bins)
    } else {
        let before = half_gap(bins, n - 1);
        if chance_total(bins, n) >= 500_000 && before == mean_gap(bins) {
            gap_ns(bins[n - 1])
        } else {
            before
        }
    }
}

/// From the gap `i` on, the first at which the probabilities reach nineteen twentieths.
pub open spec fn late_index(bins: Seq<(u64, u64)>, i: int) -> Option<int>
    decreases bins.len() - i,
{
    if i < 0 || i >= bins.len() {
        None
    } else if chance_total(bins, i + 1) >= 950_000 {
        Some(i)
    } else {
        late_index(bins, i + 1)
    }
}

/// The measures of gaps. The half-way gap is only looked for up to the late one.
pub open spec fn timing_stats(bins: Seq<(u64, u64)>) -> TimingDistribution {
    let (mean, std) = (mean_gap(bins), std_gap(bins));
    let cv = if mean > 0 {
        1_000_000 * std / mean
    } else {
        0
    };
    let late = late_index(bins, 0);
    TimingDistribution {
        mean_iat: mean as u128,
        std_iat: std as u128,
        cv: cv as u128,
        p50_iat: half_gap(
            bins,
            match late {
                Some(i) => i + 1,
                None => bins.len() as int,
            },
        ) as u128,
        p95_iat: match late {
            Some(i) => gap_ns(bins[i]) as u128,
            None => mean as u128,
        },
        burstiness: (300_000 + periodicity::capped(cv, 1_000_000)) as u64,
    }
}

proof fn lemma_chances_grow(bins: Seq<(u64, u64)>, i: int, j: int)
    requires
        0 <= i <= j <= bins.len(),
    ensures
        0 <= chance_total(bins, i) <= chance_total(bins, j),
    decreases j,
{
    if i < j {
        lemma_chances_grow(bins, i, j - 1);
    } else if i > 0 {
        lemma_chances_grow(bins, i - 1, i - 1);
    }
}

/// Weighted sums of gaps stay within what the probabilities allow.
proof fn lemma_gap_sums(bins: Seq<(u64, u64)>, mean: int, n: int)
    requires
        0 <= n <= bins.len(),
        chance_total(bins, bins.len() as int) <= MOST_CHANCE,
        0 <= mean <= 0x4000_0000_0000_0000_0000,
    ensures
        0 <= chance_total(bins, n) <= MOST_CHANCE,
        0 <= gap_sum(bins, n) <= chance_total(bins, n) * 0x400_0000_0000_0000_0000,
        0 <= gap_squares(bins, mean, n) <= chance_total(bins, n)
            * square_top(),
    decreases n,
{
    lemma_chances_grow(bins, n, bins.len() as int);
    if n > 0 {
        lemma_gap_sums(bins, mean, n - 1);
        let p = bins[n - 1].1 as int;
        let g = gap_ns(bins[n - 1]);
        let off = g - mean;
        let before = chance_total(bins, n - 1);
        assert(0 <= p * g <= p * 0x400_0000_0000_0000_0000) by (nonlinear_arith)
            requires
                p >= 0,
                0 <= g <= 0x400_0000_0000_0000_0000,
        ;
        assert(0 <= off * off <= square_top()) by (nonlinear_arith)
            requires
                -0x4000_0000_0000_0000_0000 <= off <= 0x4000_0000_0000_0000_0000,
        ;
        let q = off * off;
        assert(0 <= p * q <= p * square_top()) by (nonlinear_arith)
            requires
                p >= 0,
                0 <= q <= square_top(),
        ;
        assert((before + p) * 0x400_0000_0000_0000_0000 == before * 0x400_0000_0000_0000_0000 + p
            * 0x400_0000_0000_0000_0000) by (nonlinear_arith);
        assert((before + p) * square_top() == before
            * square_top() + p * square_top())
            by (nonlinear_arith);
    }
}

/// 2 to the 156th and the 180th.
pub open spec fn square_top() -> int {
    0x1000_0000_0000_0000_0000_0000_0000_0000_0000_0000int
}

pub open spec fn squares_top() -> int {
    0x10_0000_0000_0000_0000_0000_0000_0000_0000_0000_0000_0000int
}

/// A gap in nanoseconds.
fn gap_of(bin: (u64, u64)) -> (g: u128)
    ensures
        g == gap_ns(bin),
        g <= 0x400_0000_0000_0000_0000,
{
    1000 * (bin.0 as u128)
}

/// The mean and the standard deviation of gaps.
fn measure_gaps(bins: &[(u64, u64)]) -> (r: (u128, u128))
    requires
        chance_total(bins@, bins@.len() as int) <= MOST_CHANCE,
    ensures
        r.0 == mean_gap(bins@),
        r.1 == std_gap(bins@),
        r.0 <= 0x4000_0000_0000_0000_0000,
        r.1 <= 0x1_0000_0000_0000_0000_0000,
{
    let n: usize = bins.len();
    let mut sum: u128 = 0;
    let mut i: usize = 0;
    while i < n
        invariant
            i <= n,
            n == bins@.len(),
            chance_total(bins@, n as int) <= MOST_CHANCE,
            sum == gap_sum(bins@, i as int),
        decreases n - i,
    {
        proof {
            lemma_gap_sums(bins@, 0, i + 1);
            lemma_gap_sums(bins@, 0, i as int);
            lemma_chances_grow(bins@, i + 1, n as int);
            let k = chance_total(bins@, i + 1);
            assert(k * 0x400_0000_0000_0000_0000 <= 0x400_0000_0000_0000_0000_0000_0000)
                by (nonlinear_arith)
                requires
                    k <= 16_000_000,
            ;
        }
        let p: u128 = bins[i].1 as u128;
        let g: u128 = gap_of(bins[i]);
        assert(p <= 16_000_000) by {
            lemma_chances_grow(bins@, i as int, i as int);
        }
        assert(0 <= p * g <= 0x400_0000_0000_0000_0000_0000_0000) by (nonlinear_arith)
            requires
                0 <= p <= 16_000_000,
                0 <= g <= 0x400_0000_0000_0000_0000,
        ;
        sum = sum + p * g;
        i += 1;
    }
    proof {
        lemma_gap_sums(bins@, 0, n as int);
        let k = chance_total(bins@, n as int);
        assert(k * 0x400_0000_0000_0000_0000 <= 16_000_000 * 0x400_0000_0000_0000_0000)
            by (nonlinear_arith)
            requires
                k <= 16_000_000,
        ;
    }
    let mean: u128 = sum / 1_000_000;
    let mut squares: Wide = Wide::of(0);
    i = 0;
    while i < n
        invariant
            i <= n,
            n == bins@.len(),
            chance_total(bins@, n as int) <= MOST_CHANCE,
            mean <= 0x4000_0000_0000_0000_0000,
            squares@ == gap_squares(bins@, mean as int, i as int),
        decreases n - i,
    {
        let p: u128 = bins[i].1 as u128;
        let g: u128 = gap_of(bins[i]);
        let off: u128 = if g >= mean {
            g - mean
        } else {
            mean - g
        };
        proof {
            lemma_gap_sums(bins@, mean as int, i as int);
            lemma_gap_sums(bins@, mean as int, i + 1);
            lemma_chances_grow(bins@, i as int, i as int);
            let k = chance_total(bins@, i + 1);
            assert(k * square_top() <= squares_top()) by (nonlinear_arith)
                requires
                    k <= 16_000_000,
            ;
            let d = g - mean;
            assert(off * off == d * d) by (nonlinear_arith)
                requires
                    off == d || off == -d,
            ;
            let q = off * off;
            assert(p * q == q * p) by (nonlinear_arith);
        }
        squares = squares.plus(Wide::product(off, off).times(p));
        i += 1;
    }
    let part: Wide = squares.divide(Wide::of(1_000_000)).0;
    let std: u128 = part.root();
    proof {
        lemma_gap_sums(bins@, mean as int, n as int);
        let k = chance_total(bins@, n as int);
        assert(k * square_top() <= 16_000_000 * square_top()) by (nonlinear_arith)
            requires
                k <= 16_000_000,
        ;
        assert(std <= 0x1_0000_0000_0000_0000_0000) by (nonlinear_arith)
            requires
                std * std <= part@,
                part@ <= 0x1_0000_0000_0000_0000_0000int * 0x1_0000_0000_0000_0000_0000int,
                std >= 0,
        ;
    }
    (mean, std)
}

/// The measures of gaps, each with its probability.
pub fn compute_timing_distribution_stats(bins: &[(u64, u64)]) -> (d: TimingDistribution)
    requires
        chance_total(bins@, bins@.len() as int) <= MOST_CHANCE,
    ensures
        d == timing_stats(bins@),
        d.mean_iat <= GAP_LIMIT,
        d.std_iat <= GAP_LIMIT,
        d.burstiness <= 1_300_000,
{
    let (mean, std) = measure_gaps(bins);
    let cv: u128 = if mean > 0 {
        1_000_000 * std / mean
    } else {
        0
    };
    proof {
        if mean > 0 {
            let scaled = 1_000_000 * std as int;
            assert(0 <= scaled / (mean as int) <= scaled) by (nonlinear_arith)
                requires
                    scaled >= 0,
                    mean > 0,
            ;
        }
    }
    let mut cumulative: u64 = 0;
    let mut half: u128 = mean;
    let mut late: u128 = mean;
    let mut i: usize = 0;
    let ghost at = late_index(bins@, 0);
    while i < bins.len()
        invariant_except_break
            i <= bins@.len(),
            chance_total(bins@, bins@.len() as int) <= MOST_CHANCE,
            mean == mean_gap(bins@),
            at == late_index(bins@, 0),
            cumulative == chance_total(bins@, i as int),
            cumulative <= MOST_CHANCE,
            half == half_gap(bins@, i as int),
            at == late_index(bins@, i as int),
            late == mean,
        ensures
            match at {
                Some(k) => late == gap_ns(bins@[k]) && half == half_gap(bins@, k + 1),
                None => late == mean && half == half_gap(bins@, bins@.len() as int),
            },
        decreases bins@.len() - i,
    {
        proof {
            lemma_chances_grow(bins@, i + 1, bins@.len() as int);
        }
        cumulative = cumulative + bins[i].1;
        let gap: u128 = gap_of(bins[i]);
        if cumulative >= 500_000 && half == mean {
            half = gap;
        }
        if cumulative >= 950_000 {
            late = gap;
            break;
        }
        i += 1;
    }
    let burst: u64 = if cv > 1_000_000 {
        1_000_000
    } else {
        cv as u64
    };
    TimingDistribution {
        mean_iat: mean,
        std_iat: std,
        cv,
        p50_iat: half,
        p95_iat: late,
        burstiness: 300_000 + burst,
    }
}

// ---- Quantiles ----

/// The table of quantiles of numbers in order.
pub open spec fn quantiles_of(t: Seq<u64>) -> Seq<u64> {
    Seq::new(QUANTILES as nat, |i: int| t[i * (t.len() - 1) / QUANTILES as int])
}

/// The table of quantiles of drawn numbers.
pub fn build_empirical_cdf(samples: &[u64]) -> (table: Vec<u64>)
    requires
        samples@.len() > 0,
    ensures
        table@ == quantiles_of(stats::in_order(samples@)),
        table@.len() == QUANTILES,
{
    let t = sorted(samples);
    proof {
        stats::lemma_in_order(t@, samples@);
        stats::lemma_sorts_len(t@, samples@);
    }
    let last: u128 = (t.len() - 1) as u128;
    let mut table: Vec<u64> = Vec::new();
    let mut i: usize = 0;
    while i < QUANTILES
        invariant
            i <= QUANTILES,
            t@ == stats::in_order(samples@),
            t@.len() > 0,
            last == t@.len() - 1,
            last <= usize::MAX,
            table@.len() == i,
            forall|k: int|
                0 <= k < i ==> #[trigger] table@[k] == t@[k * (t@.len() - 1) / QUANTILES as int],
        decreases QUANTILES - i,
    {
        assert(0 <= i * last <= 64 * last) by (nonlinear_arith)
            requires
                0 <= i <= 64,
                0 <= last,
        ;
        assert(i * last / 64 <= last) by (nonlinear_arith)
            requires
                0 <= i * last <= 64 * last,
        ;
        let at: u128 = (i as u128) * last / (QUANTILES as u128);
        table.push(t[at as usize]);
        i += 1;
    }
    assert(table@ =~= quantiles_of(t@));
    table
}

/// The number that a roll stands for in a table of quantiles, with linear interpolation
/// between neighbours.
pub open spec fn quantile_at(table: Seq<u64>, roll: int) -> int {
    let pos = roll * (table.len() - 1);
    let at = pos / ROLL_RANGE as int;
    let part = pos % ROLL_RANGE as int;
    let next = if at + 1 < table.len() {
        at + 1
    } else {
        table.len() - 1
    };
    (table[at] * (ROLL_RANGE - part) + table[next] * part) / ROLL_RANGE as int
}

/// Whether a table can be drawn from.
pub open spec fn is_table(table: Seq<u64>) -> bool {
    table.len() == QUANTILES
}

/// The number that a roll stands for in a table of quantiles.
pub fn sample_quantile(table: &Vec<u64>, roll: u64) -> (x: u64)
    requires
        is_table(table@),
        roll < ROLL_RANGE,
    ensures
        x == quantile_at(table@, roll as int),
{
    let pos: u128 = (roll as u128) * 63;
    assert(pos < 63 * 0x20_0000_0000_0000);
    assert(pos / 0x20_0000_0000_0000 < 63);
    let at: usize = (pos / (ROLL_RANGE as u128)) as usize;
    let part: u128 = pos % (ROLL_RANGE as u128);
    let ghost last = table@.len() - 1;
    assert(roll * last == pos) by (nonlinear_arith)
        requires
            last == 63,
            pos == roll * 63,
    ;
    assert(at < 63);
    let (low, high) = (table[at] as u128, table[at + 1] as u128);
    let range: u128 = ROLL_RANGE as u128;
    proof {
        let limit = u64::MAX as int;
        assert(0 <= low * (range - part) <= limit * (range - part)) by (nonlinear_arith)
            requires
                0 <= low <= limit,
                part <= range,
        ;
        assert(0 <= high * part <= limit * part) by (nonlinear_arith)
            requires
                0 <= high <= limit,
                part >= 0,
        ;
        assert(limit * (range - part) + limit * part == limit * range) by (nonlinear_arith);
        let sum = low * (range - part) + high * part;
        assert(0 <= sum / (range as int) <= limit) by (nonlinear_arith)
            requires
                0 <= sum <= limit * range,
                range > 0,
        ;
        assert(limit * range <= 0x20_0000_0000_0000_0000_0000_0000_0000) by (nonlinear_arith)
            requires
                limit == u64::MAX,
                range == 0x20_0000_0000_0000,
        ;
    }
    ((low * (range - part) + high * part) / range) as u64
}

/// What a drawn number lies between: the smallest and the largest of the table.
pub proof fn law_draws_stay_within_the_table(table: Seq<u64>, roll: int, low: int, high: int)
    requires
        is_table(table),
        0 <= roll < ROLL_RANGE,
        0 <= low,
        forall|i: int| 0 <= i < table.len() ==> low <= #[trigger] table[i] <= high,
    ensures
        low <= quantile_at(table, roll) <= high,
{
    let pos = roll * (table.len() - 1);
    let range = ROLL_RANGE as int;
    let at = pos / range;
    let part = pos % range;
    let last = table.len() - 1;
    assert(pos == 63 * roll) by (nonlinear_arith)
        requires
            last == 63,
            pos == roll * last,
    ;
    assert(0 <= at < 63);
    let (a, b) = (table[at] as int, table[at + 1] as int);
    let sum = a * (range - part) + b * part;
    assert(low * range <= sum <= high * range) by (nonlinear_arith)
        requires
            low <= a <= high,
            low <= b <= high,
            0 <= part <= range,
            sum == a * (range - part) + b * part,
    ;
    assert(low <= sum / range <= high) by (nonlinear_arith)
        requires
            low * range <= sum <= high * range,
            range > 0,
    ;
}

/// A gap drawn about `base_us`, moved by up to two milliseconds either way, but at least one
/// millisecond; `shift` counts nanoseconds from the earliest.
pub open spec fn jittered_gap(bin: (u64, u64), shift: int) -> int {
    let moved = gap_ns(bin) + shift - 2_000_000;
    if moved < 1_000_000 {
        1_000_000
    } else {
        moved
    }
}

/// Whether gaps can be drawn about these: each fits 64 bits in nanoseconds, even where it is moved
/// two milliseconds on.
pub open spec fn are_drawable(bins: Seq<(u64, u64)>) -> bool {
    forall|i: int| 0 <= i < bins.len() ==> gap_ns(#[trigger] bins[i]) + 2_000_000 <= u64::MAX
}

/// Whether `x` is a gap that a model draws.
pub open spec fn is_drawn_gap(m: StatisticalGameTrafficModel, x: u64) -> bool {
    exists|roll: int, shift: int|
        0 <= roll < ROLL_RANGE && 0 <= shift <= 4_000_000 && x == #[trigger] jittered_gap(
            m.timing_distribution@[statistical_model::cdf_index(m.timing_cdf@, roll, 0)],
            shift,
        )
}

/// Draws gaps of a model.
pub fn draw_gap_samples(m: &StatisticalGameTrafficModel) -> (samples: Vec<u64>)
    requires
        m.timing_distribution@.len() > 0,
        m.timing_cdf@.len() == m.timing_distribution@.len(),
        are_drawable(m.timing_distribution@),
    ensures
        samples@.len() == GAP_SAMPLES,
        forall|i: int| 0 <= i < samples@.len() ==> is_drawn_gap(*m, #[trigger] samples@[i]),
{
    let mut samples: Vec<u64> = Vec::new();
    let mut i: usize = 0;
    while i < GAP_SAMPLES
        invariant
            i <= GAP_SAMPLES,
            m.timing_distribution@.len() > 0,
            m.timing_cdf@.len() == m.timing_distribution@.len(),
            samples@.len() == i,
            are_drawable(m.timing_distribution@),
            forall|k: int| 0 <= k < i ==> is_drawn_gap(*m, #[trigger] samples@[k]),
        decreases GAP_SAMPLES - i,
    {
        let roll: u64 = random_between(0, ROLL_RANGE - 1);
        let index: usize = sample_from_cdf(m.timing_cdf.as_slice(), roll);
        let shift: u64 = random_between(0, 4_000_000);
        let moved: i128 = gap_of(m.timing_distribution[index]) as i128 + shift as i128 - 2_000_000;
        let gap: u64 = if moved < 1_000_000 {
            1_000_000
        } else {
            moved as u64
        };
        assert(gap == jittered_gap(
            m.timing_distribution@[statistical_model::cdf_index(m.timing_cdf@, roll as int, 0)],
            shift as int,
        ));
        samples.push(gap);
        i += 1;
    }
    samples
}

// ---- The target ----

/// What a flow should look like.
#[derive(Debug)]
pub struct TrafficTarget {
    pub size_dist: PacketSizeDistribution,
    pub timing_dist: TimingDistribution,
    pub direction_ratio: u128,
    pub target_entropy: u128,
    pub packets_per_second: u16,
    pub periodicity_strength: u128,
    pub size_cdf: Vec<u64>,
    pub iat_cdf: Vec<u64>,
}

/// The part that the first number of a ratio is of the second; the most there is where the
/// second is 0.
pub open spec fn ratio_micro(ratio: (u64, u64)) -> int {
    if ratio.1 == 0 {
        FEATURE_LIMIT as int
    } else {
        1_000_000 * ratio.0 / ratio.1 as int
    }
}

/// Whether a model can be made a target.
pub open spec fn is_measurable(m: StatisticalGameTrafficModel) -> bool {
    &&& is_mixture(m.size_distribution@)
    &&& chance_total(m.timing_distribution@, m.timing_distribution@.len() as int) <= MOST_CHANCE
}

impl TrafficTarget {
    pub open spec fn wf(&self) -> bool {
        &&& self.timing_dist.mean_iat <= GAP_LIMIT
        &&& self.timing_dist.std_iat <= GAP_LIMIT
        &&& self.direction_ratio <= FEATURE_LIMIT
        &&& self.target_entropy <= FEATURE_LIMIT
        &&& self.periodicity_strength <= FEATURE_LIMIT
        &&& is_table(self.size_cdf@)
        &&& is_table(self.iat_cdf@)
    }

    /// The target that a model makes, given sizes and gaps drawn from it: one set of sizes
    /// to measure, another for the table of sizes, and gaps for the table of gaps.
    pub fn from_model(
        m: &StatisticalGameTrafficModel,
        sizes: &[u64],
        table_sizes: &[u64],
        gaps: &[u64],
    ) -> (t: Self)
        requires
            is_measurable(*m),
            sizes@.len() > 0,
            table_sizes@.len() > 0,
            gaps@.len() > 0,
        ensures
            t.wf(),
            t.size_dist == size_stats(m.size_distribution@, stats::in_order(sizes@)),
            t.timing_dist == timing_stats(m.timing_distribution@),
            t.direction_ratio == ratio_micro(m.direction_ratio_micro),
            t.target_entropy == m.target_entropy_micro,
            t.packets_per_second == m.packets_per_second,
            t.periodicity_strength == m.periodicity_strength_micro,
            t.size_cdf@ == quantiles_of(stats::in_order(table_sizes@)),
            t.iat_cdf@ == quantiles_of(stats::in_order(gaps@)),
    {
        let size_dist = compute_size_distribution_stats(m.size_distribution.as_slice(), sizes);
        let timing_dist = compute_timing_distribution_stats(m.timing_distribution.as_slice());
        let size_cdf = build_empirical_cdf(table_sizes);
        let iat_cdf = build_empirical_cdf(gaps);
        let (part, whole) = m.direction_ratio_micro;
        let direction_ratio: u128 = if whole == 0 {
            FEATURE_LIMIT
        } else {
            let scaled: u128 = 1_000_000 * (part as u128);
            assert(0 <= scaled as int / whole as int <= scaled) by (nonlinear_arith)
                requires
                    whole >= 1,
                    scaled >= 0,
            ;
            scaled / (whole as u128)
        };
        TrafficTarget {
            size_dist,
            timing_dist,
            direction_ratio,
            target_entropy: m.target_entropy_micro as u128,
            packets_per_second: m.packets_per_second,
            periodicity_strength: m.periodicity_strength_micro as u128,
            size_cdf,
            iat_cdf,
        }
    }

    /// The target as an inspecting middlebox is measured against it.
    pub fn target_stats(&self) -> (t: TargetStats)
        requires
            self.wf(),
        ensures
            t.wf(),
            t == (TargetStats {
                size_mean: self.size_dist.mean as u128,
                size_std: self.size_dist.std as u128,
                timing_mean: self.timing_dist.mean_iat,
                timing_std: self.timing_dist.std_iat,
                entropy: self.target_entropy,
                direction: self.direction_ratio,
                periodicity: self.periodicity_strength,
            }),
    {
        TargetStats {
            size_mean: self.size_dist.mean as u128,
            size_std: self.size_dist.std as u128,
            timing_mean: self.timing_dist.mean_iat,
            timing_std: self.timing_dist.std_iat,
            entropy: self.target_entropy,
            direction: self.direction_ratio,
            periodicity: self.periodicity_strength,
        }
    }

    /// The size that a roll stands for.
    pub fn sample_target_size(&self, roll: u64) -> (x: u64)
        requires
            self.wf(),
            roll < ROLL_RANGE,
        ensures
            x == quantile_at(self.size_cdf@, roll as int),
    {
        sample_quantile(&self.size_cdf, roll)
    }

    /// The gap that a roll stands for.
    pub fn sample_target_iat(&self, roll: u64) -> (x: u64)
        requires
            self.wf(),
            roll < ROLL_RANGE,
        ensures
            x == quantile_at(self.iat_cdf@, roll as int),
    {
        sample_quantile(&self.iat_cdf, roll)
    }
}

/// Whether a mixture can be measured.
fn mixable(c: &[GaussianComponent]) -> (b: bool)
    ensures
        b == is_mixture(c@),
{
    if c.len() == 0 || c.len() as u64 > MOST_WEIGHT {
        return false;
    }
    let mut total: u128 = 0;
    let mut i: usize = 0;
    while i < c.len()
        invariant
            i <= c@.len() <= MOST_WEIGHT,
            total == weight_total(c@, i as int),
            total <= i * 0x1_0000_0000_0000_0000,
            forall|k: int|
                0 <= k < i ==> -MIXTURE_LIMIT <= (#[trigger] c@[k]).mean_micro <= MIXTURE_LIMIT && 0
                    <= c@[k].std_dev_micro <= MIXTURE_LIMIT,
        decreases c@.len() - i,
    {
        let limit: i64 = MIXTURE_LIMIT as i64;
        let (mean, std): (i64, i64) = (c[i].mean_micro, c[i].std_dev_micro);
        if mean < -limit || mean > limit || std < 0 || std > limit {
            assert(!is_mixture(c@)) by {
                assert(c@[i as int].mean_micro == mean);
            }
            return false;
        }
        total = total + c[i].weight_micro as u128;
        i += 1;
    }
    total <= MOST_WEIGHT as u128
}

/// Whether the probabilities of gaps do not add up to too much.
fn within_chance(bins: &[(u64, u64)]) -> (b: bool)
    ensures
        b == (chance_total(bins@, bins@.len() as int) <= MOST_CHANCE),
{
    let mut total: u128 = 0;
    let mut i: usize = 0;
    while i < bins.len()
        invariant
            i <= bins@.len(),
            total == chance_total(bins@, i as int),
            total <= i * 0x1_0000_0000_0000_0000,
        decreases bins@.len() - i,
    {
        total = total + bins[i].1 as u128;
        i += 1;
    }
    total <= MOST_CHANCE as u128
}

/// Whether gaps can be drawn about these.
pub fn drawable(bins: &[(u64, u64)]) -> (b: bool)
    ensures
        b == are_drawable(bins@),
{
    let mut i: usize = 0;
    while i < bins.len()
        invariant
            i <= bins@.len(),
            forall|k: int| 0 <= k < i ==> gap_ns(#[trigger] bins@[k]) + 2_000_000 <= u64::MAX,
        decreases bins@.len() - i,
    {
        if gap_of(bins[i]) + 2_000_000 > u64::MAX as u128 {
            assert(gap_ns(bins@[i as int]) + 2_000_000 > u64::MAX);
            return false;
        }
        i += 1;
    }
    true
}

/// Whether a model can be made a target.
pub fn measurable(m: &StatisticalGameTrafficModel) -> (b: bool)
    ensures
        b == is_measurable(*m),
{
    mixable(m.size_distribution.as_slice()) && within_chance(m.timing_distribution.as_slice())
}

/// What the first `n` components add to the mean, where all means lie between two numbers.
proof fn lemma_means_between(c: Seq<GaussianComponent>, low: int, high: int, n: int)
    requires
        0 <= n <= c.len(),
        forall|i: int| 0 <= i < c.len() ==> low <= (#[trigger] c[i]).mean_micro <= high,
    ensures
        counted(c, n) * low <= mean_sum(c, n) <= counted(c, n) * high,
    decreases n,
{
    if n > 0 {
        lemma_means_between(c, low, high, n - 1);
        let w = counts(c, n - 1);
        let before = counted(c, n - 1);
        let mean = c[n - 1].mean_micro as int;
        assert(counted(c, n) == before + w);
        assert((before + w) * low == before * low + w * low) by (nonlinear_arith);
        assert((before + w) * high == before * high + w * high) by (nonlinear_arith);
        assert(w * low <= w * mean <= w * high) by (nonlinear_arith)
            requires
                w >= 0,
                low <= mean <= high,
        ;
    } else {
        assert(counted(c, 0) == 0);
    }
}

/// The mean of a mixture lies among the means of its components.
pub proof fn law_mean_lies_among_the_means(c: Seq<GaussianComponent>, low: int, high: int)
    requires
        is_mixture(c),
        forall|i: int| 0 <= i < c.len() ==> low <= (#[trigger] c[i]).mean_micro <= high,
    ensures
        low <= mixture_mean(c) <= high,
{
    let n = c.len() as int;
    lemma_means_between(c, low, high, n);
    lemma_weights_grow(c, 0, n);
    let total = count_total(c);
    assert(total == counted(c, n) && total > 0);
    let sum = mean_sum(c, n);
    if sum >= 0 {
        assert(low <= sum / total <= high) by (nonlinear_arith)
            requires
                total * low <= sum <= total * high,
                total > 0,
        ;
    } else {
        let up = -sum;
        assert(-high <= up / total <= -low) by (nonlinear_arith)
            requires
                total * low <= -up <= total * high,
                total > 0,
        ;
    }
}

/// A mixture of one component has the mean and the deviation of that component.
pub proof fn law_one_component_is_the_mixture(c: Seq<GaussianComponent>)
    requires
        is_mixture(c),
        c.len() == 1,
    ensures
        mixture_mean(c) == c[0].mean_micro,
        mixture_std(c) == c[0].std_dev_micro,
{
    let mean = c[0].mean_micro as int;
    let std = c[0].std_dev_micro as int;
    law_mean_lies_among_the_means(c, mean, mean);
    let w = counts(c, 0);
    let total = count_total(c);
    assert(weight_total(c, 0) == 0);
    assert(weight_total(c, 1) == c[0].weight_micro);
    assert(total == w && w > 0);
    assert(square_sum(c, mean, 0) == 0);
    assert(square_sum(c, mean, 1) == w * square_about(c[0], mean));
    let off = c[0].mean_micro - mean;
    assert(off * off == 0) by (nonlinear_arith)
        requires
            off == 0,
    ;
    assert(square_about(c[0], mean) == std * std);
    assert((w * (std * std)) / w == std * std) by (nonlinear_arith)
        requires
            w > 0,
    ;
    assert(std * std < (std + 1) * (std + 1)) by (nonlinear_arith)
        requires
            std >= 0,
    ;
    roots::law_root_is_unique(std, std * std);
}

/// The sizes of a mixture are described by where they stand in order: the least, a quarter of the
/// way, half, three quarters and nineteen twentieths of the way, and the greatest.
pub proof fn law_quantiles_stand_in_their_place(c: Seq<GaussianComponent>, t: Seq<u64>, k: int)
    requires
        0 <= k < t.len(),
    ensures
        size_stats(c, t).min == t[0],
        size_stats(c, t).max == t[t.len() - 1],
        2 * k <= t.len() - 1 < 2 * k + 2 ==> size_stats(c, t).median == t[k],
        4 * k <= t.len() - 1 < 4 * k + 4 ==> size_stats(c, t).p25 == t[k],
        4 * k <= 3 * (t.len() - 1) < 4 * k + 4 ==> size_stats(c, t).p75 == t[k],
        20 * k <= 19 * (t.len() - 1) < 20 * k + 20 ==> size_stats(c, t).p95 == t[k],
{
    let last = t.len() - 1;
    if 20 * k <= 19 * last < 20 * k + 20 {
        assert(100 * k <= 95 * last < 100 * k + 100);
        assert(place(last + 1, 95) == k);
    }
}

/// A roll selects the first component whose own part of all weights is no less than the roll's part
/// of its range, and the last where none before it is.
pub proof fn law_rolls_select_large_components(c: Seq<GaussianComponent>, roll: int)
    requires
        is_mixture(c),
        weight_total(c, c.len() as int) > 0,
    ensures
        0 <= weight_index(c, roll, 0) < c.len(),
        weight_index(c, roll, 0) < c.len() - 1 ==> roll * weight_total(c, c.len() as int)
            <= c[weight_index(c, roll, 0)].weight_micro * 0x20_0000_0000_0000,
        forall|k: int|
            0 <= k < weight_index(c, roll, 0) ==> roll * weight_total(c, c.len() as int) > (
            #[trigger] c[k]).weight_micro * 0x20_0000_0000_0000,
{
    lemma_weight_selected(c, roll, 0);
}

proof fn lemma_weight_selected(c: Seq<GaussianComponent>, roll: int, i: int)
    requires
        0 <= i < c.len(),
    ensures
        i <= weight_index(c, roll, i) < c.len(),
        weight_index(c, roll, i) < c.len() - 1 ==> roll * count_total(c) <= counts(
            c,
            weight_index(c, roll, i),
        ) * ROLL_RANGE,
        forall|k: int|
            #![trigger c[k]]
            i <= k < weight_index(c, roll, i) ==> roll * count_total(c) > counts(c, k) * ROLL_RANGE,
    decreases c.len() - i,
{
    if i < c.len() - 1 && roll * count_total(c) > counts(c, i) * ROLL_RANGE {
        lemma_weight_selected(c, roll, i + 1);
    }
}

/// What the first `n` gaps add to the mean, where all lie between two numbers of microseconds.
proof fn lemma_gaps_between(bins: Seq<(u64, u64)>, low: int, high: int, n: int)
    requires
        0 <= n <= bins.len(),
        forall|i: int| 0 <= i < bins.len() ==> low <= (#[trigger] bins[i]).0 <= high,
    ensures
        chance_total(bins, n) * (1000 * low) <= gap_sum(bins, n) <= chance_total(bins, n) * (1000
            * high),
    decreases n,
{
    if n > 0 {
        lemma_gaps_between(bins, low, high, n - 1);
        let w = bins[n - 1].1 as int;
        let g = gap_ns(bins[n - 1]);
        let before = chance_total(bins, n - 1);
        let (a, b) = (1000 * low, 1000 * high);
        assert((before + w) * a == before * a + w * a) by (nonlinear_arith);
        assert((before + w) * b == before * b + w * b) by (nonlinear_arith);
        assert(w * a <= w * g <= w * b) by (nonlinear_arith)
            requires
                w >= 0,
                a <= g <= b,
        ;
    }
}

/// Where the probabilities of the gaps make up the whole, the mean gap lies, in nanoseconds, among
/// the gaps.
pub proof fn law_mean_gap_lies_among_the_gaps(bins: Seq<(u64, u64)>, low: int, high: int)
    requires
        chance_total(bins, bins.len() as int) == 1_000_000,
        forall|i: int| 0 <= i < bins.len() ==> low <= (#[trigger] bins[i]).0 <= high,
    ensures
        1000 * low <= mean_gap(bins) <= 1000 * high,
{
    lemma_gaps_between(bins, low, high, bins.len() as int);
}

/// Gaps that are all the same, one and another, do not vary: they are their mean, their half-way
/// and their late gap, in nanoseconds, and count as little bursty.
pub proof fn law_even_gaps_do_not_vary(bins: Seq<(u64, u64)>, gap: u64)
    requires
        bins.len() > 0,
        chance_total(bins, bins.len() as int) == 1_000_000,
        forall|i: int| 0 <= i < bins.len() ==> (#[trigger] bins[i]).0 == gap,
    ensures
        timing_stats(bins).mean_iat == 1000 * gap,
        timing_stats(bins).std_iat == 0,
        timing_stats(bins).cv == 0,
        timing_stats(bins).p50_iat == 1000 * gap,
        timing_stats(bins).p95_iat == 1000 * gap,
        timing_stats(bins).burstiness == 300_000,
{
    let n = bins.len() as int;
    let mean = mean_gap(bins);
    law_mean_gap_lies_among_the_gaps(bins, gap as int, gap as int);
    lemma_even_squares(bins, gap, mean, n);
    roots::lemma_root_exists(0);
    roots::law_root_is_unique(0, 0);
    assert(std_gap(bins) == 0);
    if mean > 0 {
        assert(0int / mean == 0) by (nonlinear_arith)
            requires
                mean > 0,
        ;
    }
    lemma_late(bins, 0);
    let upto = match late_index(bins, 0) {
        Some(i) => i + 1,
        None => n,
    };
    lemma_even_half(bins, gap, upto);
}

proof fn lemma_even_squares(bins: Seq<(u64, u64)>, gap: u64, mean: int, n: int)
    requires
        0 <= n <= bins.len(),
        mean == 1000 * gap,
        forall|i: int| 0 <= i < bins.len() ==> (#[trigger] bins[i]).0 == gap,
    ensures
        gap_squares(bins, mean, n) == 0,
    decreases n,
{
    if n > 0 {
        lemma_even_squares(bins, gap, mean, n - 1);
        let off = gap_ns(bins[n - 1]) - mean;
        let w = bins[n - 1].1 as int;
        assert(w * (off * off) == 0) by (nonlinear_arith)
            requires
                off == 0,
        ;
    }
}

proof fn lemma_even_half(bins: Seq<(u64, u64)>, gap: u64, n: int)
    requires
        0 <= n <= bins.len(),
        mean_gap(bins) == 1000 * gap,
        forall|i: int| 0 <= i < bins.len() ==> (#[trigger] bins[i]).0 == gap,
    ensures
        half_gap(bins, n) == 1000 * gap,
    decreases n,
{
    if n > 0 {
        lemma_even_half(bins, gap, n - 1);
    }
}

proof fn lemma_late(bins: Seq<(u64, u64)>, i: int)
    requires
        0 <= i <= bins.len(),
        i > 0 ==> chance_total(bins, i) < 950_000,
    ensures
        late_index(bins, i) matches Some(k) ==> i <= k < bins.len() && chance_total(bins, k + 1)
            >= 950_000 && (k > 0 ==> chance_total(bins, k) < 950_000),
        late_index(bins, i) is None ==> bins.len() == 0 || chance_total(bins, bins.len() as int)
            < 950_000,
    decreases bins.len() - i,
{
    if i < bins.len() && chance_total(bins, i + 1) < 950_000 {
        lemma_late(bins, i + 1);
    }
}

/// The late gap is the one at which nineteen twentieths of all gaps are reached, in nanoseconds;
/// where they never are, it is the mean.
pub proof fn law_late_gaps_are_nineteen_twentieths_on(bins: Seq<(u64, u64)>, k: int)
    requires
        0 <= k < bins.len(),
        chance_total(bins, k) < 950_000 <= chance_total(bins, k + 1),
    ensures
        timing_stats(bins).p95_iat == 1000 * bins[k].0,
{
    lemma_chances_grow(bins, 0, k);
    lemma_late(bins, 0);
    lemma_chances_grow(bins, k + 1, bins.len() as int);
    if let Some(i) = late_index(bins, 0) {
        if i < k {
            lemma_chances_grow(bins, i + 1, k);
        } else if i > k {
            lemma_chances_grow(bins, k + 1, i);
        }
    }
}

/// Gaps count as the burstier the more they vary, for a given mean, from three tenths up to
/// thirteen; the variation is the deviation in parts of the mean.
pub proof fn law_varying_gaps_are_bursty(bins: Seq<(u64, u64)>)
    requires
        0 < mean_gap(bins) <= 0x1_0000_0000_0000_0000_0000,
        0 <= std_gap(bins) <= 0x1_0000_0000_0000_0000_0000,
    ensures
        timing_stats(bins).cv * mean_gap(bins) <= 1_000_000 * std_gap(bins) < (timing_stats(bins).cv
            + 1) * mean_gap(bins),
        300_000 <= timing_stats(bins).burstiness <= 1_300_000,
        std_gap(bins) >= mean_gap(bins) ==> timing_stats(bins).burstiness == 1_300_000,
        2 * std_gap(bins) == mean_gap(bins) ==> timing_stats(bins).burstiness == 800_000,
{
    let mean = mean_gap(bins);
    let std = std_gap(bins);
    let x = 1_000_000 * std;
    let q = x / mean;
    assert(q * mean <= x < (q + 1) * mean && 0 <= q <= x) by (nonlinear_arith)
        requires
            mean > 0,
            x >= 0,
            q == x / mean,
    ;
    assert(std >= mean ==> q >= 1_000_000) by (nonlinear_arith)
        requires
            mean > 0,
            x == 1_000_000 * std,
            q == x / mean,
    ;
    assert(2 * std == mean ==> q == 500_000) by (nonlinear_arith)
        requires
            mean > 0,
            x == 1_000_000 * std,
            q == x / mean,
    ;
}

/// The table of quantiles holds numbers in equal steps through all of them in order, from the
/// least on.
pub proof fn law_table_steps_through_the_numbers(t: Seq<u64>, i: int, k: int)
    requires
        0 <= i < 64,
        0 <= k < t.len(),
        64 * k <= i * (t.len() - 1) < 64 * k + 64,
    ensures
        quantiles_of(t).len() == 64,
        quantiles_of(t)[i] == t[k],
        quantiles_of(t)[0] == t[0],
{
    let n = t.len() - 1;
    assert(0 * n == 0) by (nonlinear_arith);
}

/// A roll moves through the table in proportion: between two neighbours of the table, the number
/// that it stands for is as far from the first as the roll is from the first's own place.
pub proof fn law_rolls_move_between_neighbours(table: Seq<u64>, roll: int, k: int)
    requires
        is_table(table),
        0 <= k < 63,
        k * 0x20_0000_0000_0000 <= 63 * roll < (k + 1) * 0x20_0000_0000_0000,
    ensures
        quantile_at(table, 0) == table[0],
        ({
            let way = 63 * roll - k * 0x20_0000_0000_0000;
            let step = table[k + 1] - table[k];
            let moved = quantile_at(table, roll) - table[k];
            moved * 0x20_0000_0000_0000 <= step * way < (moved + 1) * 0x20_0000_0000_0000
        }),
{
    let range = 0x20_0000_0000_0000int;
    let n = table.len() - 1;
    let pos = roll * n;
    assert(pos == 63 * roll) by (nonlinear_arith)
        requires
            n == 63,
            pos == roll * n,
    ;
    assert(pos / range == k && pos % range == pos - k * range);
    let part = pos % range;
    let (a, b) = (table[k] as int, table[k + 1] as int);
    let sum = a * (range - part) + b * part;
    assert(sum == a * range + (b - a) * part) by (nonlinear_arith)
        requires
            sum == a * (range - part) + b * part,
    ;
    assert(quantile_at(table, roll) == sum / range);
    assert(0 * n == 0) by (nonlinear_arith);
    let c = table[0] as int;
    assert((c * range + table[1] * 0) / range == c) by (nonlinear_arith)
        requires
            range == 0x20_0000_0000_0000,
    ;
}

/// A gap drawn about one of the model's, in nanoseconds, is moved by at most two milliseconds and
/// no shorter than one; in the middle of the shifts it is the model's gap.
pub proof fn law_drawn_gaps_are_near_the_gap(bin: (u64, u64), shift: int)
    requires
        0 <= shift <= 4_000_000,
    ensures
        jittered_gap(bin, shift) >= 1_000_000,
        bin.0 >= 3000 ==> jittered_gap(bin, 2_000_000) == 1000 * bin.0,
        bin.0 >= 3000 ==> jittered_gap(bin, shift) == jittered_gap(bin, 2_000_000) + shift
            - 2_000_000,
        jittered_gap(bin, shift) <= 1000 * bin.0 + 2_000_000,
{
}

/// A ratio is the first number in millionths of the second, rounded down.
pub proof fn law_ratios_are_parts_of_the_second(ratio: (u64, u64))
    requires
        ratio.1 > 0,
    ensures
        ratio_micro(ratio) * ratio.1 <= 1_000_000 * ratio.0 < (ratio_micro(ratio) + 1) * ratio.1,
        ratio.0 == ratio.1 ==> ratio_micro(ratio) == 1_000_000,
{
    let x = 1_000_000 * ratio.0;
    let w = ratio.1 as int;
    let q = x / w;
    assert(q * w <= x < (q + 1) * w) by (nonlinear_arith)
        requires
            w > 0,
            x >= 0,
            q == x / w,
    ;
    assert(x == 1_000_000 * w ==> q == 1_000_000) by (nonlinear_arith)
        requires
            w > 0,
            q == x / w,
    ;
}

/// Two gaps that are equally likely deviate by half of how far they are apart, in nanoseconds, from
/// the mean half-way between them.
pub proof fn law_two_gaps_deviate_by_half(a: u64, b: u64)
    requires
        a <= b,
    ensures
        mean_gap(seq![(a, 500_000u64), (b, 500_000u64)]) == 500 * (a + b),
        std_gap(seq![(a, 500_000u64), (b, 500_000u64)]) == 500 * (b - a),
{
    let bins = seq![(a, 500_000u64), (b, 500_000u64)];
    let (x, y) = (a as int, b as int);
    assert(gap_sum(bins, 0) == 0);
    assert(bins[0] == (a, 500_000u64) && bins[1] == (b, 500_000u64));
    let (p, q) = (gap_ns(bins[0]), gap_ns(bins[1]));
    assert(p == 1000 * x && q == 1000 * y);
    assert(gap_sum(bins, 1) == bins[0].1 * p);
    assert(gap_sum(bins, 2) == bins[0].1 * p + bins[1].1 * q);
    assert(gap_sum(bins, 2) == 500_000 * p + 500_000 * q);
    let mean = mean_gap(bins);
    assert(bins.len() == 2);
    let sum = gap_sum(bins, 2);
    assert(sum == 500_000_000 * (x + y));
    assert(mean == sum / 1_000_000);
    assert(mean == 500 * (x + y));
    let h = 500 * (y - x);
    let sq = h * h;
    assert((1000 * x - mean) == -h && (1000 * y - mean) == h);
    assert((-h) * (-h) == sq) by (nonlinear_arith)
        requires
            sq == h * h,
    ;
    assert(gap_squares(bins, mean, 0) == 0);
    assert(gap_squares(bins, mean, 1) == 500_000 * sq);
    assert(gap_squares(bins, mean, 2) == 1_000_000 * sq);
    assert((1_000_000 * sq) / 1_000_000 == sq);
    assert(sq < (h + 1) * (h + 1)) by (nonlinear_arith)
        requires
            sq == h * h,
            h >= 0,
    ;
    roots::law_root_is_unique(h, sq);
}

} // verus!
