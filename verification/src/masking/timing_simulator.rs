//! Delays between packets that keep to the timing of a game.
//!
//! Times of packets are whole microseconds up to about an hour, times of noise whole
//! nanoseconds, and fractions millionths. Sines, bell curves and their distribution
//! functions are the caller's.

use crate::masking::statistical_model::StatisticalGameTrafficModel;
#[allow(unused_imports)]
use crate::masking::statistical_model;
use crate::utils::goodness::{chi_squared, count_bins, ks_statistic};
#[allow(unused_imports)]
use crate::utils::goodness;
use crate::utils::roots::square_root;
#[allow(unused_imports)]
use crate::utils::roots;
use crate::utils::spread::square_sum;
use crate::utils::wide::Wide;
#[allow(unused_imports)]
use crate::utils::spread;
use crate::utils::stats::{nearest, sorted};
#[allow(unused_imports)]
use crate::utils::stats;
use crate::utils::window::SlidingWindow;
#[allow(unused_imports)]
use crate::utils::window;
use vstd::prelude::*;

verus! {

/// How many delays are remembered.
pub const HISTORY: usize = 256;

/// The error is never held beyond this, in ten-millionths of a microsecond.
pub const ERROR_LIMIT: i128 = 0x10_0000_0000_0000_0000_0000_0000;

/// The timing to keep to.
#[derive(Debug, Clone, Copy, PartialEq, Eq, Structural)]
pub struct TimingTarget {
    pub mean_us: u32,
    pub std_us: u32,
    pub median_us: u32,
    pub p95_us: u32,
    pub cv_micro: u32,
}

/// Corrects delays by how far their median and spread are from the target.
#[derive(Debug, Clone, Copy, PartialEq, Eq, Structural)]
pub struct AdaptiveTimingController {
    pub target_median_us: u32,
    pub target_cv_micro: u32,
    pub current_median_us: u32,
    pub current_cv_micro: u32,
    /// In ten-millionths of a microsecond.
    pub error_integral: i128,
    /// In ten-millionths of a microsecond.
    pub prev_error: i128,
}

/// `x`, or the nearer bound where it lies outside of `low..=high`.
pub open spec fn within(x: int, low: int, high: int) -> int {
    if x < low {
        low
    } else if x > high {
        high
    } else {
        x
    }
}

/// `current` in parts of `target`, between a half and twice; one where there is no target.
pub open spec fn ratio_of(current: int, target: int) -> int {
    if target > 0 {
        within(current * 1_000_000 / target, 500_000, 2_000_000)
    } else {
        1_000_000
    }
}

fn ratio(current: u32, target: u32) -> (r: u64)
    ensures
        r == ratio_of(current as int, target as int),
        500_000 <= r <= 2_000_000,
{
    if target > 0 {
        let q: u64 = current as u64 * 1_000_000 / target as u64;
        if q < 500_000 {
            500_000
        } else if q > 2_000_000 {
            2_000_000
        } else {
            q
        }
    } else {
        1_000_000
    }
}

impl AdaptiveTimingController {
    /// On target.
    pub open spec fn made(median: u32, cv: u32) -> AdaptiveTimingController {
        AdaptiveTimingController {
            target_median_us: median,
            target_cv_micro: cv,
            current_median_us: median,
            current_cv_micro: cv,
            error_integral: 0,
            prev_error: 0,
        }
    }

    /// How far the measures are off: seven tenths by the median and three by the spread, in
    /// ten-millionths of a microsecond.
    pub open spec fn error(self, median: int, cv: int) -> int {
        7_000_000 * (self.target_median_us - median) + 3 * ((self.target_cv_micro - cv)
            * self.target_median_us)
    }

    /// After a measure.
    pub open spec fn measured(self, median: u32, cv: u32) -> AdaptiveTimingController {
        let e = self.error(median as int, cv as int);
        AdaptiveTimingController {
            current_median_us: median,
            current_cv_micro: cv,
            error_integral: within(
                self.error_integral + e,
                -ERROR_LIMIT as int,
                ERROR_LIMIT as int,
            ) as i128,
            prev_error: e as i128,
            ..self
        }
    }

    /// The correction for a measure: a hundredth of the error, a thousandth of the errors
    /// so far, counted up to a tenth of a second, and five thousandths of the change; five
    /// milliseconds at most. In ten-billionths of a microsecond.
    pub open spec fn correction(self, median: int, cv: int) -> int {
        let e = self.error(median, cv);
        let sum = within(self.error_integral + e, -1_000_000_000_000, 1_000_000_000_000);
        within(
            10 * e + sum + 5 * (e - self.prev_error),
            -50_000_000_000_000,
            50_000_000_000_000,
        )
    }

    pub open spec fn wf(self) -> bool {
        -ERROR_LIMIT <= self.error_integral <= ERROR_LIMIT && -ERROR_LIMIT <= self.prev_error
            <= ERROR_LIMIT
    }

    pub fn new(target_median_us: u32, target_cv_micro: u32) -> (c: Self)
        ensures
            c == Self::made(target_median_us, target_cv_micro),
            c.wf(),
    {
        AdaptiveTimingController {
            target_median_us,
            target_cv_micro,
            current_median_us: target_median_us,
            current_cv_micro: target_cv_micro,
            error_integral: 0,
            prev_error: 0,
        }
    }

    /// Takes a measure; what comes back is the correction for it.
    pub fn update(&mut self, median_us: u32, cv_micro: u32) -> (correction: i64)
        requires
            old(self).wf(),
        ensures
            *final(self) == old(self).measured(median_us, cv_micro),
            correction == old(self).correction(median_us as int, cv_micro as int),
            final(self).wf(),
    {
        let median_off: i128 = self.target_median_us as i128 - median_us as i128;
        let cv_off: i128 = self.target_cv_micro as i128 - cv_micro as i128;
        let target: i128 = self.target_median_us as i128;
        assert(-0x1_0000_0000_0000_0000 <= cv_off * target <= 0x1_0000_0000_0000_0000)
            by (nonlinear_arith)
            requires
                -0x1_0000_0000 <= cv_off <= 0x1_0000_0000,
                0 <= target <= 0x1_0000_0000,
        ;
        let e: i128 = 7_000_000 * median_off + 3 * (cv_off * target);
        let sum: i128 = self.error_integral + e;
        let counted: i128 = if sum < -1_000_000_000_000 {
            -1_000_000_000_000
        } else if sum > 1_000_000_000_000 {
            1_000_000_000_000
        } else {
            sum
        };
        let c: i128 = 10 * e + counted + 5 * (e - self.prev_error);
        self.current_median_us = median_us;
        self.current_cv_micro = cv_micro;
        self.error_integral =
        if sum < -ERROR_LIMIT {
            -ERROR_LIMIT
        } else if sum > ERROR_LIMIT {
            ERROR_LIMIT
        } else {
            sum
        };
        self.prev_error = e;
        if c < -50_000_000_000_000 {
            -50_000_000_000_000
        } else if c > 50_000_000_000_000 {
            50_000_000_000_000
        } else {
            c as i64
        }
    }

    /// Sets a target and forgets the errors.
    pub fn recalibrate(&mut self, target_median_us: u32, target_cv_micro: u32)
        ensures
            *final(self) == (AdaptiveTimingController {
                target_median_us,
                target_cv_micro,
                error_integral: 0,
                prev_error: 0,
                ..*old(self)
            }),
            final(self).wf(),
    {
        self.target_median_us = target_median_us;
        self.target_cv_micro = target_cv_micro;
        self.error_integral = 0;
        self.prev_error = 0;
    }

    /// How strongly delays are drawn to the period.
    pub open spec fn strength(self) -> int {
        (ratio_of(self.current_median_us as int, self.target_median_us as int) + ratio_of(
            self.current_cv_micro as int,
            self.target_cv_micro as int,
        )) / 2
    }

    pub fn adjustment_strength(&self) -> (s: u64)
        ensures
            s == self.strength(),
            500_000 <= s <= 2_000_000,
    {
        (ratio(self.current_median_us, self.target_median_us) + ratio(
            self.current_cv_micro,
            self.target_cv_micro,
        )) / 2
    }
}

/// Outcome of a comparison with the target's distribution. Without enough delays there is
/// nothing to compare.
#[derive(Debug, Clone, Copy, PartialEq, Eq, Structural)]
pub struct TimingValidation {
    pub chi_squared_milli: Option<u128>,
    pub ks_micro: Option<u64>,
    pub passes: bool,
}

/// Measures of the remembered delays.
#[derive(Debug, Clone, Copy, PartialEq, Eq, Structural)]
pub struct TimingStatistics {
    pub median_us: u64,
    pub mean_ns: u64,
    pub std_ns: u64,
    pub cv_micro: u32,
    pub p25_us: u64,
    pub p75_us: u64,
    pub p95_us: u64,
    pub sample_count: usize,
}

/// The measures of some delays.
pub open spec fn measures_of(s: Seq<u64>) -> TimingStatistics {
    let n = s.len() as int;
    let sum = window::total(s);
    if n == 0 {
        TimingStatistics {
            median_us: 0,
            mean_ns: 0,
            std_ns: 0,
            cv_micro: 0,
            p25_us: 0,
            p75_us: 0,
            p95_us: 0,
            sample_count: 0,
        }
    } else {
        TimingStatistics {
            median_us: stats::ranked(s, 50),
            mean_ns: (1000 * sum / n) as u64,
            std_ns: (roots::root(1_000_000 * spread::scatter(s)) / n) as u64,
            cv_micro: if sum > 0 {
                (roots::root(1_000_000_000_000 * spread::scatter(s)) / sum) as u32
            } else {
                0
            },
            p25_us: stats::ranked(s, 25),
            p75_us: stats::ranked(s, 75),
            p95_us: stats::ranked(s, 95),
            sample_count: n as usize,
        }
    }
}

/// The square of a sum of at most 256 delays, and what is made of it, fit their words.
proof fn lemma_measures_fit(n: int, sum: int, squares: int, scattered: int)
    requires
        0 < n <= HISTORY,
        0 <= sum <= n * u32::MAX,
        0 <= squares <= n * (u32::MAX * u32::MAX),
        squares <= sum * sum,
        scattered == n * squares - sum * sum,
        0 <= scattered,
    ensures
        sum <= 0x100_0000_0000,
        sum * sum <= 0x10000_0000_0000_0000_0000,
        squares <= 0x100_0000_0000_0000_0000,
        n * squares <= 0x10000_0000_0000_0000_0000,
        scattered <= 0x10000_0000_0000_0000_0000,
        1000 * sum / n <= u64::MAX,
        scattered <= 256 * (sum * sum),
{
    assert(sum <= 0x100_0000_0000) by (nonlinear_arith)
        requires
            sum <= n * u32::MAX,
            n <= 256,
    ;
    assert(sum * sum <= 0x100_0000_0000 * 0x100_0000_0000) by (nonlinear_arith)
        requires
            0 <= sum <= 0x100_0000_0000,
    ;
    assert(squares <= 0x100_0000_0000_0000_0000) by (nonlinear_arith)
        requires
            squares <= n * (u32::MAX * u32::MAX),
            n <= 256,
    ;
    assert(n * squares <= 0x10000_0000_0000_0000_0000) by (nonlinear_arith)
        requires
            0 <= squares <= 0x100_0000_0000_0000_0000,
            0 < n <= 256,
    ;
    assert(1000 * sum / n <= 1000 * sum) by (nonlinear_arith)
        requires
            n > 0,
            sum >= 0,
    ;
    assert(scattered <= 256 * (sum * sum)) by (nonlinear_arith)
        requires
            scattered == n * squares - sum * sum,
            0 <= squares <= sum * sum,
            0 < n <= 256,
    ;
}

/// The spread of at most 256 delays, in parts of their mean, fits its word.
proof fn lemma_cv_fits(sum: int, scattered: int, r: int)
    requires
        sum > 0,
        0 <= scattered <= 256 * (sum * sum),
        roots::is_root(r, 1_000_000_000_000 * scattered),
    ensures
        0 <= r / sum <= 16_000_000,
{
    assert(r <= 16_000_000 * sum) by (nonlinear_arith)
        requires
            r * r <= 1_000_000_000_000 * scattered,
            scattered <= 256 * (sum * sum),
            sum > 0,
            r >= 0,
    ;
    assert(0 <= r / sum <= 16_000_000) by (nonlinear_arith)
        requires
            0 <= r <= 16_000_000 * sum,
            sum > 0,
    ;
}

fn measure(v: &Vec<u64>) -> (m: TimingStatistics)
    requires
        v@.len() <= HISTORY,
        spread::are_small(v@),
    ensures
        m == measures_of(v@),
{
    let n: usize = v.len();
    if n == 0 {
        return TimingStatistics {
            median_us: 0,
            mean_ns: 0,
            std_ns: 0,
            cv_micro: 0,
            p25_us: 0,
            p75_us: 0,
            p95_us: 0,
            sample_count: 0,
        };
    }
    let t = sorted(v.as_slice());
    let sum: u128 = window::sum_of(v.as_slice());
    let all: Wide = square_sum(v.as_slice());
    let squares: u128 = all.low;
    proof {
        stats::lemma_in_order(t@, v@);
        stats::lemma_sorts_len(t@, v@);
        spread::lemma_scatter(v@);
        spread::lemma_sums_within(v@, u32::MAX as int);
        assert(all@ <= 0x1_0000_0000_0000_0000_0000) by (nonlinear_arith)
            requires
                all@ <= n * (u32::MAX * u32::MAX),
                n <= 256,
        ;
        lemma_measures_fit(n as int, sum as int, squares as int, spread::scatter(v@));
    }
    let scattered: u128 = (n as u128) * squares - sum * sum;
    let spread: u128 = square_root(1_000_000 * scattered);
    let fine: u128 = square_root(1_000_000_000_000 * scattered);
    proof {
        if sum > 0 {
            lemma_cv_fits(sum as int, scattered as int, fine as int);
        }
        assert(spread <= 0x8_0000_0000_0000) by (nonlinear_arith)
            requires
                spread * spread <= 1_000_000 * scattered,
                scattered <= 0x10000_0000_0000_0000_0000,
        ;
        assert(spread as int / n as int <= spread) by (nonlinear_arith)
            requires
                n > 0,
                spread >= 0,
        ;
    }
    TimingStatistics {
        median_us: nearest(t.as_slice(), 50),
        mean_ns: (1000 * sum / (n as u128)) as u64,
        std_ns: (spread / (n as u128)) as u64,
        cv_micro: if sum > 0 { (fine / sum) as u32 } else { 0 },
        p25_us: nearest(t.as_slice(), 25),
        p75_us: nearest(t.as_slice(), 75),
        p95_us: nearest(t.as_slice(), 95),
        sample_count: n,
    }
}

/// The measures of the target.
pub open spec fn target_measures(t: TimingTarget) -> TimingStatistics {
    TimingStatistics {
        median_us: t.median_us as u64,
        mean_ns: (1000 * t.mean_us) as u64,
        std_ns: (1000 * t.std_us) as u64,
        cv_micro: t.cv_micro,
        p25_us: (3 * t.median_us / 4) as u64,
        p75_us: (5 * t.median_us / 4) as u64,
        p95_us: t.p95_us as u64,
        sample_count: 0,
    }
}

/// Quarters and the median of delays ascend.
pub proof fn law_percentiles_of_delays_ascend(s: Seq<u64>)
    requires
        0 < s.len(),
    ensures
        measures_of(s).p25_us <= measures_of(s).median_us,
        measures_of(s).median_us <= measures_of(s).p75_us,
        measures_of(s).p75_us <= measures_of(s).p95_us,
{
    let n = s.len() as int;
    stats::lemma_order_exists(s);
    let t = stats::in_order(s);
    stats::lemma_sorts_len(t, s);
    stats::lemma_rank(n, 25, 50);
    stats::lemma_rank(n, 50, 75);
    stats::lemma_rank(n, 75, 95);
}

/// What the caller draws for one delay, in nanoseconds.
#[derive(Debug, Clone, Copy)]
pub struct DelaySample {
    /// A delay of the game.
    pub model_ns: i64,
    /// The pulse at this tick.
    pub pulse_ns: i64,
    /// The swing of the phase.
    pub phase_offset_ns: i64,
    /// Noise of the phase's size.
    pub noise_ns: i64,
    /// The gap of a burst, if there is one, in microseconds.
    pub burst_gap_us: Option<u64>,
}

/// The period of a tick rate given in millionths of a hertz, in nanoseconds.
pub open spec fn period_ns(tick_rate: int) -> int {
    1_000_000_000_000_000int / tick_rate
}

/// A delay of the game, moved by a fifth of the pulse, three tenths of the swing, fifteen
/// hundredths of the noise, a burst's distance from the mean, and a tenth of the way to
/// the period, more or less by strength. In ten-millionths of a nanosecond.
pub open spec fn raw_delay(d: DelaySample, mean_us: int, period: int, strength: int) -> int {
    let burst = match d.burst_gap_us {
        Some(gap) => 1000 * (gap - mean_us),
        None => 0,
    };
    10_000_000 * d.model_ns + 2_000_000 * d.pulse_ns + 3_000_000 * d.phase_offset_ns + 1_500_000
        * d.noise_ns + 10_000_000 * burst + (period - d.model_ns) * strength
}

/// Half a millisecond at least.
pub open spec fn delay_of(raw: int) -> int {
    within(raw / 10_000_000_000, 500, u64::MAX as int)
}

/// Noise after a correction of more than half a millisecond: changed by a hundredth of it
/// per millisecond, and between a tenth of a millisecond and fifty.
pub open spec fn noise_after(noise_ns: int, correction: int) -> int {
    if correction > 5_000_000_000_000 || correction < -5_000_000_000_000 {
        within(
            noise_ns * (1_000_000_000_000_000 + correction) / 1_000_000_000_000_000,
            100_000,
            50_000_000,
        )
    } else {
        noise_ns
    }
}

/// A simulator as plain data.
pub struct SimulatorView {
    pub target: TimingTarget,
    pub phase: u64,
    /// In millionths of a hertz.
    pub tick_rate: int,
    pub phase_noise_ns: int,
    pub controller: AdaptiveTimingController,
    pub history: Seq<u64>,
}

impl SimulatorView {
    pub open spec fn wf(self) -> bool {
        &&& self.controller.wf()
        &&& self.history.len() <= HISTORY
        &&& spread::are_small(self.history)
        &&& 1_000_000 <= self.tick_rate <= 65_535_000_000
        &&& 0 <= self.phase_noise_ns <= 429_496_729_500
    }

    /// A simulator that has just been made.
    pub open spec fn made(packets_per_second: int, target: TimingTarget) -> SimulatorView {
        SimulatorView {
            target,
            phase: 0,
            tick_rate: 1_000_000 * (if packets_per_second < 1 {
                1
            } else {
                packets_per_second
            }),
            phase_noise_ns: 100 * target.std_us,
            controller: AdaptiveTimingController::made(target.median_us, target.cv_micro),
            history: Seq::empty(),
        }
    }

    /// The delay for some draws.
    pub open spec fn delay(self, d: DelaySample) -> int {
        delay_of(
            raw_delay(
                d,
                self.target.mean_us as int,
                period_ns(self.tick_rate),
                self.controller.strength(),
            ),
        )
    }

    /// After a delay has been kept: from 32 remembered delays on they are measured.
    pub open spec fn kept(self, actual_us: u64) -> SimulatorView {
        let history = window::slid(self.history, actual_us, HISTORY as int);
        if history.len() >= 32 {
            let m = measures_of(history);
            SimulatorView {
                history,
                controller: self.controller.measured(m.median_us as u32, m.cv_micro),
                phase_noise_ns: noise_after(
                    self.phase_noise_ns,
                    self.controller.correction(m.median_us as int, m.cv_micro as int),
                ),
                ..self
            }
        } else {
            SimulatorView { history, ..self }
        }
    }

    /// After a calibration: the target is set again, and from 16 remembered delays on the
    /// tick rate is scaled by how far their median is from it, within 1 and 128 hertz.
    pub open spec fn calibrated(self) -> SimulatorView {
        let median = measures_of(self.history).median_us;
        SimulatorView {
            controller: AdaptiveTimingController {
                target_median_us: self.target.median_us,
                target_cv_micro: self.target.cv_micro,
                error_integral: 0,
                prev_error: 0,
                ..self.controller
            },
            phase_noise_ns: within(100 * self.target.std_us, 100_000, 50_000_000),
            tick_rate: if self.history.len() >= 16 {
                within(
                    if median > 0 {
                        self.tick_rate * self.target.median_us / median as int
                    } else {
                        self.tick_rate
                    },
                    1_000_000,
                    128_000_000,
                )
            } else {
                self.tick_rate
            },
            history: Seq::empty(),
            ..self
        }
    }

    /// Whether the measures of fit pass: the first below the critical value of nine degrees
    /// of freedom, the second below 1.36 by the root of the number of delays.
    pub open spec fn passes(self, chi_micro: int, ks_micro: int) -> bool {
        chi_micro < 1000 * statistical_model::CHI_CRITICAL@[8] && ks_micro * ks_micro
            * self.history.len() < 1_849_600_000_000
    }
}

/// Whether so many delays can be held against what is expected of them.
pub open spec fn is_expectation(expected: Seq<u64>, theory: Seq<u64>, n: nat) -> bool {
    &&& expected.len() == goodness::BINS
    &&& forall|b: int| 0 <= b < expected.len() ==> #[trigger] expected[b] <= goodness::MOST_EXPECTED
    &&& theory.len() == n
    &&& forall|i: int| 0 <= i < theory.len() ==> #[trigger] theory[i] <= 1_000_000
}

/// How far delays are from what bins of one width are expected to hold; delays that are all
/// the same fit.
pub open spec fn chi_micro_of(history: Seq<u64>, expected: Seq<u64>) -> int {
    let t = stats::in_order(history);
    if t[0] == t.last() {
        0
    } else {
        goodness::chi_total(
            goodness::bin_counts(history, t[0] as int, t.last() as int),
            expected,
            goodness::BINS as int,
        )
    }
}

/// Parts of all delays differ by no more than all.
proof fn lemma_ks_fits(theory: Seq<u64>, n: int)
    requires
        0 <= n <= theory.len(),
        forall|i: int| 0 <= i < theory.len() ==> #[trigger] theory[i] <= 1_000_000,
    ensures
        0 <= goodness::widest_off(theory, n) <= 1_000_000,
    decreases n,
{
    if n > 0 {
        lemma_ks_fits(theory, n - 1);
        let all = theory.len() as int;
        assert(0 <= (1_000_000 * n) / all <= 1_000_000) by (nonlinear_arith)
            requires
                0 < n <= all,
        ;
    }
}

/// Makes delays that keep to a game's timing.
#[derive(Debug)]
pub struct PacketTimingSimulator {
    game_model: StatisticalGameTrafficModel,
    target: TimingTarget,
    phase: u64,
    tick_rate_micro: u64,
    phase_noise_ns: u64,
    adaptive_controller: AdaptiveTimingController,
    timing_history: SlidingWindow,
}

impl View for PacketTimingSimulator {
    type V = SimulatorView;

    closed spec fn view(&self) -> SimulatorView {
        SimulatorView {
            target: self.target,
            phase: self.phase,
            tick_rate: self.tick_rate_micro as int,
            phase_noise_ns: self.phase_noise_ns as int,
            controller: self.adaptive_controller,
            history: self.timing_history@,
        }
    }
}

impl PacketTimingSimulator {
    /// The game's model.
    pub closed spec fn model(&self) -> StatisticalGameTrafficModel {
        self.game_model
    }

    pub closed spec fn wf(&self) -> bool {
        self@.wf() && self.timing_history.wf() && self.timing_history.limit == HISTORY
    }

    pub fn new(game_model: StatisticalGameTrafficModel, target: TimingTarget) -> (s: Self)
        ensures
            s@ == SimulatorView::made(game_model.packets_per_second as int, target),
            s.model() == game_model,
            s.wf(),
            s@.wf(),
    {
        let rate: u64 = if game_model.packets_per_second < 1 {
            1
        } else {
            game_model.packets_per_second as u64
        };
        PacketTimingSimulator {
            game_model,
            target,
            phase: 0,
            tick_rate_micro: 1_000_000 * rate,
            phase_noise_ns: 100 * (target.std_us as u64),
            adaptive_controller: AdaptiveTimingController::new(target.median_us, target.cv_micro),
            timing_history: SlidingWindow::new(HISTORY),
        }
    }

    /// The delay until the next packet, in microseconds.
    pub fn next_delay(&mut self, d: &DelaySample) -> (us: u64)
        requires
            old(self).wf(),
        ensures
            us == old(self)@.delay(*d),
            us >= 500,
            final(self)@ == (SimulatorView {
                phase: old(self)@.phase.wrapping_add(1),
                ..old(self)@
            }),
            final(self).model() == old(self).model(),
            final(self).wf(),
    {
        self.phase = self.phase.wrapping_add(1);
        let period: i128 = 1_000_000_000_000_000 / self.tick_rate_micro as i128;
        let strength: i128 = self.adaptive_controller.adjustment_strength() as i128;
        let burst: i128 = match d.burst_gap_us {
            Some(gap) => 1000 * (gap as i128 - self.target.mean_us as i128),
            None => 0,
        };
        let way: i128 = period - d.model_ns as i128;
        proof {
            assert(0 <= period <= 1_000_000_000) by (nonlinear_arith)
                requires
                    period == 1_000_000_000_000_000int / self.tick_rate_micro as int,
                    self.tick_rate_micro >= 1_000_000,
            ;
            assert(-0x1_0000_0000_0000_0000 * 2_000_000 <= way * strength
                <= 0x1_0000_0000_0000_0000 * 2_000_000) by (nonlinear_arith)
                requires
                    -0x1_0000_0000_0000_0000 <= way <= 0x1_0000_0000_0000_0000,
                    0 <= strength <= 2_000_000,
            ;
        }
        let raw: i128 = 10_000_000 * (d.model_ns as i128) + 2_000_000 * (d.pulse_ns as i128)
            + 3_000_000 * (d.phase_offset_ns as i128) + 1_500_000 * (d.noise_ns as i128)
            + 10_000_000 * burst + way * strength;
        if raw < 5_000_000_000_000 {
            return 500;
        }
        let us: i128 = raw / 10_000_000_000;
        if us > 0xFFFF_FFFF_FFFF_FFFF {
            0xFFFF_FFFF_FFFF_FFFF
        } else {
            us as u64
        }
    }

    /// The gap of a burst, if one is drawn.
    pub fn draw_burst_gap(&self) -> (gap: Option<u64>)
        requires
            statistical_model::mass(
                statistical_model::probabilities(self.model().burst_patterns@),
                self.model().burst_patterns@.len() as int,
            ) <= u64::MAX,
            forall|i: int|
                0 <= i < self.model().burst_patterns@.len() ==> {
                    let r = (#[trigger] self.model().burst_patterns@[i]).inter_packet_time_range_us;
                    r.0 <= r.1
                },
        ensures
            exists|roll: int|
                0 <= roll < statistical_model::ROLL_RANGE
                    && match #[trigger] statistical_model::burst_index(
                    self.model().burst_patterns@,
                    roll,
                    0,
                ) {
                    None => gap is None,
                    Some(i) => gap matches Some(us) && {
                        let r = self.model().burst_patterns@[i].inter_packet_time_range_us;
                        r.0 <= us <= r.1
                    },
                },
    {
        let index = self.game_model.should_burst();
        let ghost patterns = self.game_model.burst_patterns@;
        let ghost roll = choose|roll: int|
            0 <= roll < statistical_model::ROLL_RANGE
                && match #[trigger] statistical_model::burst_index(patterns, roll, 0) {
                None => index is None,
                Some(i) => index == Some(i as usize) && 0 <= i < patterns.len(),
            };
        let gap = match index {
            Some(i) => {
                assert(patterns[i as int] == self.game_model.burst_patterns@[i as int]);
                Some(self.game_model.burst_patterns[i].inter_packet_time())
            },
            None => None,
        };
        assert(patterns.len() == self.game_model.burst_patterns.len());
        assert(statistical_model::burst_index(patterns, roll, 0) is None <==> gap is None);
        gap
    }

    /// Remembers a delay and corrects for what is remembered. What comes back is whether
    /// the remembered delays should be validated.
    pub fn update(&mut self, actual_us: u32) -> (due: bool)
        requires
            old(self).wf(),
        ensures
            final(self)@ == old(self)@.kept(actual_us as u64),
            due == (final(self)@.history.len() == HISTORY),
            final(self).model() == old(self).model(),
            final(self).wf(),
    {
        let ghost before = self@;
        self.timing_history.observe(actual_us as u64);
        proof {
            lemma_slid_delays(before.history, actual_us as u64);
        }
        if self.timing_history.len() >= 32 {
            let v = self.timing_history.to_vec();
            let m = measure(&v);
            proof {
                lemma_median_is_delay(v@);
            }
            let correction: i64 = self.adaptive_controller.update(m.median_us as u32, m.cv_micro);
            if correction > 5_000_000_000_000 || correction < -5_000_000_000_000 {
                let factor: i128 = 1_000_000_000_000_000 + correction as i128;
                let noise: i128 = self.phase_noise_ns as i128;
                assert(0 <= noise * factor <= 429_496_729_500 * 2_000_000_000_000_000)
                    by (nonlinear_arith)
                    requires
                        0 <= noise <= 429_496_729_500,
                        0 <= factor <= 2_000_000_000_000_000,
                ;
                let scaled: i128 = noise * factor / 1_000_000_000_000_000;
                self.phase_noise_ns =
                if scaled < 100_000 {
                    100_000
                } else if scaled > 50_000_000 {
                    50_000_000
                } else {
                    scaled as u64
                };
            }
        }
        self.timing_history.len() == HISTORY
    }

    /// How the remembered delays fall into bins of one width, and between which bounds; none
    /// where all are the same.
    pub fn delay_bins(&self) -> (r: Option<(u64, u64, Vec<u64>)>)
        requires
            self.wf(),
            self@.history.len() > 0,
        ensures
            ({
                let t = stats::in_order(self@.history);
                match r {
                    None => t[0] == t.last(),
                    Some((low, high, counts)) => low == t[0] && high == t.last() && low < high
                        && counts@ == goodness::bin_counts(
                        self@.history,
                        low as int,
                        high as int,
                    ),
                }
            }),
            r matches Some(x) ==> forall|b: int|
                0 <= b < goodness::BINS ==> #[trigger] x.2@[b] <= HISTORY,
    {
        let v = self.timing_history.to_vec();
        let t = sorted(v.as_slice());
        proof {
            stats::lemma_in_order(t@, v@);
            stats::lemma_sorts_len(t@, v@);
            assert forall|i: int| 0 <= i < v@.len() implies t@[0] <= #[trigger] v@[i]
                <= t@.last() by {
                vstd::seq_lib::to_multiset_contains(v@, v@[i]);
                vstd::seq_lib::to_multiset_contains(t@, v@[i]);
                let k = choose|k: int| 0 <= k < t@.len() && t@[k] == v@[i];
                assert(t@[0] <= t@[k] <= t@[t@.len() - 1]);
            }
        }
        let (low, high): (u64, u64) = (t[0], t[t.len() - 1]);
        if low == high {
            return None;
        }
        let counts = count_bins(v.as_slice(), low, high);
        Some((low, high, counts))
    }

    /// Whether the remembered delays fit the target. `expected` is how many delays each bin
    /// is expected to hold, and `theory` for each delay in order the part of all delays that
    /// is expected to be no longer, both in millionths. Fewer than thirty delays never fit.
    pub fn validate_timing(&self, expected: &[u64], theory: &[u64]) -> (v: TimingValidation)
        requires
            self.wf(),
            self@.history.len() >= 30 ==> is_expectation(expected@, theory@, self@.history.len()),
        ensures
            v == if self@.history.len() < 30 {
                TimingValidation { chi_squared_milli: None, ks_micro: None, passes: false }
            } else {
                let chi = chi_micro_of(self@.history, expected@);
                let ks = goodness::widest_off(theory@, theory@.len() as int);
                TimingValidation {
                    chi_squared_milli: Some((chi / 1000) as u128),
                    ks_micro: Some(ks as u64),
                    passes: self@.passes(chi, ks),
                }
            },
    {
        let n: usize = self.timing_history.len();
        if n < 30 {
            return TimingValidation { chi_squared_milli: None, ks_micro: None, passes: false };
        }
        let chi: u128 = match self.delay_bins() {
            None => 0,
            Some((_, _, counts)) => {
                proof {
                    goodness::lemma_small_counts(counts@, expected@, 10);
                }
                chi_squared(counts.as_slice(), expected, 10)
            },
        };
        let ks: u64 = ks_statistic(theory);
        proof {
            lemma_ks_fits(theory@, theory@.len() as int);
        }
        assert(0 <= ks * ks <= 0x1_0000_0000_0000_0000) by (nonlinear_arith)
            requires
                0 <= ks <= 0x1_0000_0000,
        ;
        let square: u128 = (ks as u128) * (ks as u128);
        assert(0 <= square * n <= 0x1_0000_0000_0000_0000 * 256) by (nonlinear_arith)
            requires
                0 <= square <= 0x1_0000_0000_0000_0000,
                0 <= n <= 256,
        ;
        let critical: u128 = 1000 * (statistical_model::CHI_CRITICAL[8] as u128);
        let passes = chi < critical && square * (n as u128) < 1_849_600_000_000;
        TimingValidation { chi_squared_milli: Some(chi / 1000), ks_micro: Some(ks), passes }
    }

    /// Sets the target again and forgets the remembered delays.
    pub fn calibrate(&mut self)
        requires
            old(self).wf(),
        ensures
            final(self)@ == old(self)@.calibrated(),
            final(self).model() == old(self).model(),
            final(self).wf(),
    {
        self.adaptive_controller.recalibrate(self.target.median_us, self.target.cv_micro);
        let noise: u64 = 100 * (self.target.std_us as u64);
        self.phase_noise_ns =
        if noise < 100_000 {
            100_000
        } else if noise > 50_000_000 {
            50_000_000
        } else {
            noise
        };
        if self.timing_history.len() >= 16 {
            let v = self.timing_history.to_vec();
            let median: u64 = measure(&v).median_us;
            let rate: u128 = self.tick_rate_micro as u128;
            let target: u128 = self.target.median_us as u128;
            assert(0 <= rate * target <= 65_535_000_000 * 0x1_0000_0000) by (nonlinear_arith)
                requires
                    0 <= rate <= 65_535_000_000,
                    0 <= target <= 0x1_0000_0000,
            ;
            let scaled: u128 = if median > 0 { rate * target / (median as u128) } else { rate };
            self.tick_rate_micro =
            if scaled < 1_000_000 {
                1_000_000
            } else if scaled > 128_000_000 {
                128_000_000
            } else {
                scaled as u64
            };
        }
        self.timing_history.clear();
    }

    /// Measures of the remembered delays; those of the target where there are none.
    pub fn get_statistics(&self) -> (m: TimingStatistics)
        requires
            self.wf(),
        ensures
            m == if self@.history.len() == 0 {
                target_measures(self@.target)
            } else {
                measures_of(self@.history)
            },
    {
        let v = self.timing_history.to_vec();
        if v.len() == 0 {
            let t: TimingTarget = self.target;
            return TimingStatistics {
                median_us: t.median_us as u64,
                mean_ns: 1000 * (t.mean_us as u64),
                std_ns: 1000 * (t.std_us as u64),
                cv_micro: t.cv_micro,
                p25_us: 3 * (t.median_us as u64) / 4,
                p75_us: 5 * (t.median_us as u64) / 4,
                p95_us: t.p95_us as u64,
                sample_count: 0,
            };
        }
        measure(&v)
    }

    /// The remembered delays, oldest first.
    pub fn history(&self) -> (v: Vec<u64>)
        ensures
            v@ == self@.history,
    {
        self.timing_history.to_vec()
    }

    /// The tick rate, in millionths of a hertz.
    pub fn tick_rate_micro(&self) -> (r: u64)
        ensures
            r == self@.tick_rate,
    {
        self.tick_rate_micro
    }

    pub fn phase(&self) -> (p: u64)
        ensures
            p == self@.phase,
    {
        self.phase
    }

    pub fn phase_noise_ns(&self) -> (n: u64)
        ensures
            n == self@.phase_noise_ns,
    {
        self.phase_noise_ns
    }

    pub fn game_model(&self) -> (m: &StatisticalGameTrafficModel)
        ensures
            *m == self.model(),
    {
        &self.game_model
    }
}

/// A window of delays stays one.
proof fn lemma_slid_delays(s: Seq<u64>, x: u64)
    requires
        spread::are_small(s),
        x <= u32::MAX,
        s.len() <= HISTORY,
    ensures
        spread::are_small(window::slid(s, x, HISTORY as int)),
        window::slid(s, x, HISTORY as int).len() <= HISTORY,
{
    let t = window::slid(s, x, HISTORY as int);
    assert forall|i: int| 0 <= i < t.len() implies #[trigger] t[i] <= u32::MAX by {
        if i < t.len() - 1 {
            let k = i + s.len() + 1 - t.len();
            assert(t[i] == s[k]);
        }
    }
}

/// The median of delays is one of them.
proof fn lemma_median_is_delay(s: Seq<u64>)
    requires
        s.len() > 0,
        spread::are_small(s),
    ensures
        measures_of(s).median_us <= u32::MAX,
{
    broadcast use vstd::seq_lib::group_to_multiset_ensures;

    stats::lemma_order_exists(s);
    let t = stats::in_order(s);
    stats::lemma_sorts_len(t, s);
    stats::lemma_rank(s.len() as int, 50, 50);
    let m = t[stats::rank(s.len() as int, 50)];
    assert(t.contains(m));
    assert(t.to_multiset().count(m) > 0);
    assert(s.to_multiset().count(m) > 0);
    assert(s.contains(m));
    let i = choose|i: int| 0 <= i < s.len() && s[i] == m;
    assert(s[i] <= u32::MAX);
}

/// No more delays are remembered than the history holds, whatever is kept.
pub proof fn law_history_is_bounded(v: SimulatorView, actual_us: u32)
    requires
        v.wf(),
    ensures
        v.kept(actual_us as u64).history.len() == if v.history.len() < HISTORY {
            v.history.len() + 1
        } else {
            HISTORY as nat
        },
        v.kept(actual_us as u64).history.last() == actual_us,
{
}

/// A calibrated simulator is on target again and remembers nothing.
pub proof fn law_calibration_resets(v: SimulatorView)
    requires
        v.wf(),
    ensures
        v.calibrated().history.len() == 0,
        v.calibrated().controller.error_integral == 0,
        v.calibrated().calibrated() == v.calibrated(),
{
    let c = v.calibrated();
    assert(c.calibrated().history =~= c.history);
}

// ---- What delays keep to ----

/// A burst moves a delay by how far its gap is from the mean: one at the mean does not move it, one
/// with a shorter gap never makes it longer, one with a longer gap never shorter, and each more
/// microsecond of the gap is one more of the delay, as far as delays go.
pub proof fn law_bursts_send_sooner(v: SimulatorView, d: DelaySample, gap: u64, longer_gap: u64)
    requires
        gap <= longer_gap,
        d.burst_gap_us is None,
    ensures
        v.delay(DelaySample { burst_gap_us: Some(v.target.mean_us as u64), ..d }) == v.delay(d),
        gap <= v.target.mean_us ==> v.delay(DelaySample { burst_gap_us: Some(gap), ..d })
            <= v.delay(d),
        gap >= v.target.mean_us ==> v.delay(DelaySample { burst_gap_us: Some(gap), ..d })
            >= v.delay(d),
        v.delay(DelaySample { burst_gap_us: Some(gap), ..d }) <= v.delay(
            DelaySample { burst_gap_us: Some(longer_gap), ..d },
        ),
        v.delay(DelaySample { burst_gap_us: Some(gap), ..d }) > 500 && v.delay(
            DelaySample { burst_gap_us: Some(longer_gap), ..d },
        ) < u64::MAX ==> v.delay(DelaySample { burst_gap_us: Some(longer_gap), ..d }) - v.delay(
            DelaySample { burst_gap_us: Some(gap), ..d },
        ) == longer_gap - gap,
        v.delay(DelaySample { burst_gap_us: Some(gap), ..d }) > 500 && 500 < v.delay(d)
            < u64::MAX && v.delay(DelaySample { burst_gap_us: Some(gap), ..d }) < u64::MAX
            ==> v.delay(DelaySample { burst_gap_us: Some(gap), ..d }) - v.delay(d) == gap
            - v.target.mean_us,
{
}

/// A delay moves by a fifth of a pulse, three tenths of a swing and three twentieths of noise: one
/// microsecond for each five of a pulse, three for each ten of a swing and three for each twenty of
/// noise, as far as delays go.
pub proof fn law_draws_move_delays(v: SimulatorView, d: DelaySample, e: DelaySample, k: int)
    requires
        500 < v.delay(d) < u64::MAX,
        500 < v.delay(e) < u64::MAX,
        e.model_ns == d.model_ns,
        e.burst_gap_us == d.burst_gap_us,
    ensures
        e.pulse_ns == d.pulse_ns + 5_000 * k && e.phase_offset_ns == d.phase_offset_ns && e.noise_ns
            == d.noise_ns ==> v.delay(e) == v.delay(d) + k,
        e.pulse_ns == d.pulse_ns && e.phase_offset_ns == d.phase_offset_ns + 10_000 * k
            && e.noise_ns == d.noise_ns ==> v.delay(e) == v.delay(d) + 3 * k,
        e.pulse_ns == d.pulse_ns && e.phase_offset_ns == d.phase_offset_ns && e.noise_ns
            == d.noise_ns + 20_000 * k ==> v.delay(e) == v.delay(d) + 3 * k,
{
}

/// Without a pulse, swing, noise or burst a delay lies between that of the game and the period; on
/// target it is that of the game moved a tenth of the way to the period. It is half a millisecond
/// at least.
pub proof fn law_delays_are_drawn_to_the_period(v: SimulatorView, d: DelaySample)
    requires
        v.wf(),
        d.pulse_ns == 0,
        d.phase_offset_ns == 0,
        d.noise_ns == 0,
        d.burst_gap_us is None,
        d.model_ns >= 500_000,
        period_ns(v.tick_rate) >= 500_000,
    ensures
        ({
            let period = period_ns(v.tick_rate);
            let us = v.delay(d);
            &&& us >= 500
            &&& d.model_ns <= period ==> d.model_ns < 1000 * us + 1000 && 1000 * us <= period
            &&& period <= d.model_ns ==> period < 1000 * us + 1000 && 1000 * us <= d.model_ns
            &&& v.controller.strength() == 1_000_000 ==> 10_000 * us <= 9 * d.model_ns + period
                < 10_000 * (us + 1)
        }),
{
    let (m, p, s) = (d.model_ns as int, period_ns(v.tick_rate), v.controller.strength());
    lemma_ratio(
        v.controller.current_median_us as int,
        v.controller.target_median_us as int,
    );
    lemma_ratio(v.controller.current_cv_micro as int, v.controller.target_cv_micro as int);
    let x = (p - m) * s;
    assert(m <= p ==> 0 <= x <= 2_000_000 * (p - m)) by (nonlinear_arith)
        requires
            x == (p - m) * s,
            0 <= s <= 2_000_000,
    ;
    assert(p <= m ==> 2_000_000 * (p - m) <= x <= 0) by (nonlinear_arith)
        requires
            x == (p - m) * s,
            0 <= s <= 2_000_000,
    ;
    assert(s == 1_000_000 ==> x == 1_000_000 * (p - m)) by (nonlinear_arith)
        requires
            x == (p - m) * s,
    ;
    assert(p <= 1_000_000_000) by (nonlinear_arith)
        requires
            p == 1_000_000_000_000_000int / v.tick_rate,
            v.tick_rate >= 1_000_000,
    ;
}

proof fn lemma_ratio(current: int, target: int)
    ensures
        500_000 <= ratio_of(current, target) <= 2_000_000,
        target > 0 && current == target ==> ratio_of(current, target) == 1_000_000,
{
    if target > 0 && current == target {
        assert(target * 1_000_000 / target == 1_000_000) by (nonlinear_arith)
            requires
                target > 0,
        ;
    }
}

/// A controller on target pulls with its plain strength; one whose measures are both twice the
/// target's or more pulls twice as much, and one whose measures are at most half of the target's
/// half as much. In between the strength is the mean of both parts.
pub proof fn law_strength_follows_the_measures(c: AdaptiveTimingController)
    requires
        c.target_median_us > 0,
        c.target_cv_micro > 0,
    ensures
        500_000 <= c.strength() <= 2_000_000,
        c.current_median_us == c.target_median_us && c.current_cv_micro == c.target_cv_micro
            ==> c.strength() == 1_000_000,
        c.current_median_us >= 2 * c.target_median_us && c.current_cv_micro >= 2 * c.target_cv_micro
            ==> c.strength() == 2_000_000,
        2 * c.current_median_us <= c.target_median_us && 2 * c.current_cv_micro <= c.target_cv_micro
            ==> c.strength() == 500_000,
        c.current_median_us >= 2 * c.target_median_us && c.current_cv_micro == c.target_cv_micro
            ==> c.strength() == 1_500_000,
        c.current_median_us == c.target_median_us && c.current_cv_micro >= 2 * c.target_cv_micro
            ==> c.strength() == 1_500_000,
{
    lemma_ratio_ends(c.current_median_us as int, c.target_median_us as int);
    lemma_ratio_ends(c.current_cv_micro as int, c.target_cv_micro as int);
}

proof fn lemma_ratio_ends(current: int, target: int)
    requires
        0 <= current,
        0 < target,
    ensures
        500_000 <= ratio_of(current, target) <= 2_000_000,
        current == target ==> ratio_of(current, target) == 1_000_000,
        current >= 2 * target ==> ratio_of(current, target) == 2_000_000,
        2 * current <= target ==> ratio_of(current, target) == 500_000,
{
    let q = current * 1_000_000 / target;
    assert(q * target <= current * 1_000_000 < (q + 1) * target) by (nonlinear_arith)
        requires
            q == current * 1_000_000 / target,
            target > 0,
    ;
    if current >= 2 * target {
        assert(q >= 2_000_000) by (nonlinear_arith)
            requires
                current * 1_000_000 < (q + 1) * target,
                current >= 2 * target,
                target > 0,
        ;
    }
    if 2 * current <= target {
        assert(q <= 500_000) by (nonlinear_arith)
            requires
                q * target <= current * 1_000_000,
                2 * current <= target,
                target > 0,
        ;
    }
    lemma_ratio(current, target);
}

/// The period is the time of one tick.
pub proof fn law_period_is_one_tick(tick_rate: int)
    requires
        tick_rate > 0,
    ensures
        period_ns(tick_rate) * tick_rate <= 1_000_000_000_000_000,
        (period_ns(tick_rate) + 1) * tick_rate > 1_000_000_000_000_000,
        period_ns(1_000_000) == 1_000_000_000,
{
    let p = 1_000_000_000_000_000int / tick_rate;
    assert(p * tick_rate <= 1_000_000_000_000_000 < (p + 1) * tick_rate) by (nonlinear_arith)
        requires
            p == 1_000_000_000_000_000int / tick_rate,
            tick_rate > 0,
    ;
}

/// What a fresh controller does about a measure: nothing on target; delays that are too short are
/// made longer and ones that are too long shorter, for each microsecond of the median by the same,
/// and for the spread in proportion to the target; five milliseconds at most. The same measure again
/// is corrected less, as it has not changed.
pub proof fn law_corrections_pull_back(c: AdaptiveTimingController, median: u32, cv: u32)
    requires
        c.error_integral == 0,
        c.prev_error == 0,
    ensures
        -50_000_000_000_000 <= c.correction(median as int, cv as int) <= 50_000_000_000_000,
        median == c.target_median_us && cv == c.target_cv_micro ==> c.correction(
            median as int,
            cv as int,
        ) == 0,
        cv == c.target_cv_micro && median < c.target_median_us ==> c.correction(
            median as int,
            cv as int,
        ) > 0,
        cv == c.target_cv_micro && median > c.target_median_us ==> c.correction(
            median as int,
            cv as int,
        ) < 0,
        cv == c.target_cv_micro && -140_000 <= c.target_median_us - median <= 140_000
            ==> c.correction(median as int, cv as int) == 112_000_000 * (c.target_median_us
            - median),
        cv == c.target_cv_micro && -70_000 <= c.target_median_us - median <= 70_000 ==> c.measured(
            median,
            cv,
        ).correction(median as int, cv as int) == 84_000_000 * (c.target_median_us - median),
        median == c.target_median_us && -300_000_000_000 <= (c.target_cv_micro - cv)
            * c.target_median_us <= 300_000_000_000 ==> c.correction(median as int, cv as int) == 48
            * ((c.target_cv_micro - cv) * c.target_median_us),
{
    let off = c.target_cv_micro - cv;
    assert(off == 0 ==> off * c.target_median_us == 0) by (nonlinear_arith);
}

/// A measure is remembered as the current one, and its error is added to those before it.
pub proof fn law_measures_are_remembered(c: AdaptiveTimingController, median: u32, cv: u32)
    requires
        c.wf(),
    ensures
        c.measured(median, cv).current_median_us == median,
        c.measured(median, cv).current_cv_micro == cv,
        c.measured(median, cv).target_median_us == c.target_median_us,
        median == c.target_median_us && cv == c.target_cv_micro ==> c.measured(
            median,
            cv,
        ).error_integral == c.error_integral && c.measured(median, cv).prev_error == 0,
        cv == c.target_cv_micro && c.error_integral == 0 ==> c.measured(median, cv).error_integral
            == 7_000_000 * (c.target_median_us - median),
{
    let off = c.target_cv_micro - cv;
    assert(off == 0 ==> off * c.target_median_us == 0) by (nonlinear_arith);
}

/// Noise follows a correction of more than half a millisecond, by a hundredth for each millisecond
/// and in its direction, and stays within its bounds; a smaller correction leaves it.
pub proof fn law_noise_follows_corrections(noise_ns: int, correction: int)
    requires
        100_000 <= noise_ns <= 50_000_000,
        -50_000_000_000_000 <= correction <= 50_000_000_000_000,
    ensures
        100_000 <= noise_after(noise_ns, correction) <= 50_000_000,
        -5_000_000_000_000 <= correction <= 5_000_000_000_000 ==> noise_after(noise_ns, correction)
            == noise_ns,
        correction >= 0 ==> noise_after(noise_ns, correction) >= noise_ns,
        correction <= 0 ==> noise_after(noise_ns, correction) <= noise_ns,
        correction == 10_000_000_000_000 && noise_ns <= 49_000_000 ==> 100 * noise_after(
            noise_ns,
            correction,
        ) <= 101 * noise_ns < 100 * (noise_after(noise_ns, correction) + 1),
{
    let m = 1_000_000_000_000_000int;
    let x = noise_ns * (m + correction);
    assert(correction >= 0 ==> x >= noise_ns * m) by (nonlinear_arith)
        requires
            x == noise_ns * (m + correction),
            noise_ns > 0,
    ;
    assert(correction <= 0 ==> x <= noise_ns * m) by (nonlinear_arith)
        requires
            x == noise_ns * (m + correction),
            noise_ns > 0,
    ;
    assert(correction == 10_000_000_000_000 ==> x == 1_010_000_000_000_000 * noise_ns)
        by (nonlinear_arith)
        requires
            x == noise_ns * (m + correction),
            m == 1_000_000_000_000_000int,
    ;
}

/// Delays are not held against the target before 32 are remembered; from then on their median and
/// spread are what the controller has measured.
pub proof fn law_delays_are_measured_from_32_on(v: SimulatorView, actual_us: u64)
    requires
        v.wf(),
    ensures
        v.history.len() < 31 ==> v.kept(actual_us).controller == v.controller && v.kept(
            actual_us,
        ).phase_noise_ns == v.phase_noise_ns,
        v.history.len() >= 31 ==> ({
            let m = measures_of(v.kept(actual_us).history);
            v.kept(actual_us).controller.current_median_us == m.median_us as u32 && v.kept(
                actual_us,
            ).controller.current_cv_micro == m.cv_micro
        }),
        v.kept(actual_us).tick_rate == v.tick_rate,
        v.kept(actual_us).target == v.target,
{
}

/// A calibration keeps the rate where the median is on target, raises it where the median is too
/// short and lowers it where it is too long, in proportion, and between one and 128 hertz.
pub proof fn law_calibration_scales_the_rate(v: SimulatorView)
    requires
        v.wf(),
        v.history.len() >= 16,
        measures_of(v.history).median_us > 0,
    ensures
        ({
            let median = measures_of(v.history).median_us;
            let rate = v.calibrated().tick_rate;
            &&& 1_000_000 <= rate <= 128_000_000
            &&& median == v.target.median_us && v.tick_rate <= 128_000_000 ==> rate == v.tick_rate
            &&& 1_000_000 < rate ==> rate * median <= v.tick_rate * v.target.median_us
            &&& rate < 128_000_000 ==> v.tick_rate * v.target.median_us < (rate + 1) * median
        }),
{
    let (m, t, r) = (
        measures_of(v.history).median_us as int,
        v.target.median_us as int,
        v.tick_rate,
    );
    let q = r * t / m;
    assert(q * m <= r * t < (q + 1) * m) by (nonlinear_arith)
        requires
            q == r * t / m,
            m > 0,
    ;
    assert(m == t ==> q == r) by (nonlinear_arith)
        requires
            q == r * t / m,
            m > 0,
    ;
    let rate = v.calibrated().tick_rate;
    if rate > 1_000_000 {
        assert(rate * m <= q * m) by (nonlinear_arith)
            requires
                rate <= q,
                m > 0,
        ;
    }
    if rate < 128_000_000 {
        assert((q + 1) * m <= (rate + 1) * m) by (nonlinear_arith)
            requires
                q <= rate,
                m > 0,
        ;
    }
}

/// Delays without a calibration history keep the rate.
pub proof fn law_short_histories_keep_the_rate(v: SimulatorView)
    requires
        v.history.len() < 16,
    ensures
        v.calibrated().tick_rate == v.tick_rate,
{
}

/// A better fit passes where a worse one does, a perfect one always does, and one whose first
/// measure comes to 16.919 or whose second, squared and times the number of delays, to 1.36 squared
/// never does.
pub proof fn law_better_fits_pass(v: SimulatorView, chi: int, ks: int, better_chi: int, better_ks: int)
    requires
        better_chi <= chi,
        0 <= better_ks <= ks,
    ensures
        v.passes(chi, ks) ==> v.passes(better_chi, better_ks),
        v.passes(0, 0),
        chi >= 16_919_000 ==> !v.passes(chi, ks),
        v.history.len() > 0 && ks >= 1_360_000 ==> !v.passes(chi, ks),
        v.history.len() == 256 && ks >= 85_000 ==> !v.passes(chi, ks),
{
    let n = v.history.len() as int;
    assert(better_ks * better_ks * n <= ks * ks * n) by (nonlinear_arith)
        requires
            0 <= better_ks <= ks,
            n >= 0,
    ;
    assert(0int * 0int * n == 0) by (nonlinear_arith);
    assert(n > 0 && ks >= 1_360_000 ==> ks * ks * n >= 1_849_600_000_000) by (nonlinear_arith);
    assert(n == 256 && ks >= 85_000 ==> ks * ks * n >= 1_849_600_000_000) by (nonlinear_arith);
}

/// Delays that are all the same have that as their mean and median, and do not spread.
pub proof fn law_measures_of_equal_delays(s: Seq<u64>, x: u64)
    requires
        0 < s.len() <= HISTORY,
        x <= u32::MAX,
        forall|i: int| 0 <= i < s.len() ==> #[trigger] s[i] == x,
    ensures
        measures_of(s).mean_ns == 1000 * x,
        measures_of(s).median_us == x,
        measures_of(s).std_ns == 0,
        measures_of(s).cv_micro == 0,
        measures_of(s).sample_count == s.len(),
{
    broadcast use vstd::seq_lib::group_to_multiset_ensures;

    spread::law_equal_numbers_do_not_spread(s, x);
    spread::law_equal_numbers_are_their_mean(s, x);
    let (n, y) = (s.len() as int, x as int);
    assert(1000 * (n * y) / n == 1000 * y) by (nonlinear_arith)
        requires
            n > 0,
    ;
    assert(roots::is_root(0, 0)) by (nonlinear_arith);
    roots::law_root_is_unique(0, 0);
    assert(0int / n == 0) by (nonlinear_arith)
        requires
            n > 0,
    ;
    let sum = window::total(s);
    if sum > 0 {
        assert(0int / sum == 0) by (nonlinear_arith)
            requires
                sum > 0,
        ;
    }
    stats::lemma_order_exists(s);
    let t = stats::in_order(s);
    stats::lemma_sorts_len(t, s);
    stats::lemma_rank(n, 50, 50);
    let m = t[stats::rank(n, 50)];
    assert(t.contains(m));
    assert(t.to_multiset().count(m) > 0);
    assert(s.to_multiset().count(m) > 0);
    assert(s.contains(m));
}

/// A fresh simulator ticks once for each packet of the game, with noise of a tenth of the target's
/// deviation.
pub proof fn law_fresh_simulators_tick_with_the_game(pps: int, target: TimingTarget)
    requires
        pps >= 1,
    ensures
        SimulatorView::made(pps, target).tick_rate == 1_000_000 * pps,
        10 * SimulatorView::made(pps, target).phase_noise_ns == 1000 * target.std_us,
        SimulatorView::made(pps, target).controller.current_median_us == target.median_us,
        SimulatorView::made(pps, target).history.len() == 0,
{
}

/// The target's own measures are its mean and deviation in nanoseconds, its median, and a quarter of
/// the median to each side.
pub proof fn law_target_measures_spread_about_the_median(t: TimingTarget)
    ensures
        target_measures(t).mean_ns == 1000 * t.mean_us,
        target_measures(t).std_ns == 1000 * t.std_us,
        target_measures(t).median_us == t.median_us,
        target_measures(t).p95_us == t.p95_us,
        -4 < 4 * target_measures(t).p25_us - 3 * t.median_us <= 0,
        -4 < 4 * target_measures(t).p75_us - 5 * t.median_us <= 0,
        target_measures(t).p25_us <= target_measures(t).median_us <= target_measures(t).p75_us,
{
}

/// Delays that are all the same fit, whatever is expected; delays whose counts are just as expected
/// fit too.
pub proof fn law_expected_delays_fit(history: Seq<u64>, expected: Seq<u64>)
    requires
        history.len() > 0,
        expected.len() == 10,
        stats::in_order(history)[0] < stats::in_order(history).last() ==> forall|b: int|
            0 <= b < 10 ==> #[trigger] expected[b] == 1_000_000 * goodness::bin_counts(
                history,
                stats::in_order(history)[0] as int,
                stats::in_order(history).last() as int,
            )[b],
    ensures
        chi_micro_of(history, expected) == 0,
{
    let t = stats::in_order(history);
    stats::lemma_order_exists(history);
    stats::lemma_sorts_len(t, history);
    if t[0] != t.last() {
        let counts = goodness::bin_counts(history, t[0] as int, t.last() as int);
        lemma_met(counts, expected, 10);
    }
}

proof fn lemma_met(counts: Seq<u64>, expected: Seq<u64>, n: int)
    requires
        0 <= n <= 10,
        forall|b: int| 0 <= b < n ==> #[trigger] expected[b] == 1_000_000 * counts[b],
    ensures
        goodness::chi_total(counts, expected, n) == 0,
    decreases n,
{
    if n > 0 {
        lemma_met(counts, expected, n - 1);
        let (c, e) = (counts[n - 1] as int, expected[n - 1] as int);
        if e > 0 {
            goodness::law_counts_add_by_their_distance(c, e);
        }
    }
}

} // verus!
