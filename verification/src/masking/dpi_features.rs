//! Features of a flow as an inspecting middlebox would measure them.
//!
//! Fractions are in millionths, gaps in microseconds.

use crate::masking::adversarial::PacketDirection;
use crate::masking::periodicity::{even, flow_periodicity};
#[allow(unused_imports)]
use crate::masking::periodicity;
use crate::utils::spread::{cv_micro, kurtosis_micro, lag_micro, skewness_micro, std_micro};
#[allow(unused_imports)]
use crate::utils::{spread, stats, window};
use crate::utils::window::{sum_of, SlidingWindow};
use vstd::prelude::*;

verus! {

/// The highest entropy of a byte.
pub const MAX_ENTROPY_MICRO: u64 = 8_000_000;

/// The mean entropy above which a flow looks encrypted.
pub const HIGH_ENTROPY_MICRO: u64 = 7_500_000;

/// How many parts of a millisecond the times of a flow are counted in.
pub const TIME_UNIT: u64 = 65_536;

/// Whether a window holds few enough numbers to be measured.
pub open spec fn is_measurable(w: SlidingWindow) -> bool {
    w.wf() && w.limit <= spread::MOST
}

fn cap(x: u64, most: u64) -> (r: u64)
    ensures
        r == periodicity::capped(x as int, most as int),
{
    if x > most {
        most
    } else {
        x
    }
}

#[derive(Debug)]
pub struct SizeFeatureExtractor {
    pub window: SlidingWindow,
}

impl SizeFeatureExtractor {
    pub open spec fn wf(&self) -> bool {
        is_measurable(self.window)
    }

    pub fn new(window_size: usize) -> (e: Self)
        requires
            window_size <= spread::MOST,
        ensures
            e.wf(),
            e.window@ == Seq::<u64>::empty(),
            e.window.limit == window_size,
    {
        SizeFeatureExtractor { window: SlidingWindow::new(window_size) }
    }

    pub fn observe(&mut self, size: usize)
        requires
            old(self).wf(),
        ensures
            final(self).wf(),
            final(self).window@ == window::slid(
                old(self).window@,
                size as u64,
                old(self).window.limit as int,
            ),
            final(self).window.limit == old(self).window.limit,
    {
        self.window.observe(size as u64);
    }

    /// The mean size, in millionths of a byte.
    pub fn mean(&self) -> (m: u128)
        ensures
            m == window::mean_micro_of(self.window@),
    {
        self.window.mean_micro()
    }

    /// The standard deviation of the sizes, in millionths of a byte.
    pub fn std_dev(&self) -> (d: u128)
        requires
            self.wf(),
        ensures
            d == spread::std_micro_of(self.window@),
    {
        let v = self.window.to_vec();
        std_micro(v.as_slice())
    }

    /// The skewness of the sizes, in millionths.
    pub fn skewness(&self) -> (k: i128)
        requires
            self.wf(),
        ensures
            k == spread::skewness_micro_of(self.window@),
    {
        let v = self.window.to_vec();
        skewness_micro(v.as_slice())
    }

    /// The kurtosis of the sizes, in millionths.
    pub fn kurtosis(&self) -> (k: u128)
        requires
            self.wf(),
        ensures
            k == spread::kurtosis_micro_of(self.window@),
            k <= i128::MAX,
    {
        let v = self.window.to_vec();
        kurtosis_micro(v.as_slice())
    }

    /// The deviation in parts of the mean, in millionths.
    pub fn coefficient_of_variation(&self) -> (c: u64)
        requires
            self.wf(),
        ensures
            c == spread::cv_micro_of(self.window@),
    {
        let v = self.window.to_vec();
        cv_micro(v.as_slice())
    }

    /// The size a `percent` part of the way through the sizes in order, in hundredths.
    pub fn percentile(&self, percent: u64) -> (v: u128)
        requires
            percent <= 100,
        ensures
            v == stats::percentile_of(stats::in_order(self.window@), percent as int),
    {
        self.window.percentile(percent)
    }

    pub fn reset(&mut self)
        requires
            old(self).wf(),
        ensures
            final(self).wf(),
            final(self).window@ == Seq::<u64>::empty(),
            final(self).window.limit == old(self).window.limit,
    {
        self.window.clear();
    }
}

#[derive(Debug)]
pub struct TimingFeatureExtractor {
    pub window: SlidingWindow,
}

impl TimingFeatureExtractor {
    pub open spec fn wf(&self) -> bool {
        is_measurable(self.window)
    }

    pub fn new(window_size: usize) -> (e: Self)
        requires
            window_size <= spread::MOST,
        ensures
            e.wf(),
            e.window@ == Seq::<u64>::empty(),
            e.window.limit == window_size,
    {
        TimingFeatureExtractor { window: SlidingWindow::new(window_size) }
    }

    pub fn observe(&mut self, iat_us: u64)
        requires
            old(self).wf(),
        ensures
            final(self).wf(),
            final(self).window@ == window::slid(
                old(self).window@,
                iat_us,
                old(self).window.limit as int,
            ),
            final(self).window.limit == old(self).window.limit,
    {
        self.window.observe(iat_us);
    }

    /// The mean gap, in millionths of a microsecond.
    pub fn mean(&self) -> (m: u128)
        ensures
            m == window::mean_micro_of(self.window@),
    {
        self.window.mean_micro()
    }

    /// The standard deviation of the gaps, in millionths of a microsecond.
    pub fn std_dev(&self) -> (d: u128)
        requires
            self.wf(),
        ensures
            d == spread::std_micro_of(self.window@),
    {
        let v = self.window.to_vec();
        std_micro(v.as_slice())
    }

    /// How strongly each gap follows the one before it, in millionths, at most all; nothing
    /// for fewer than three gaps or where they hardly vary.
    pub fn autocorrelation_lag1(&self) -> (a: i64)
        requires
            self.wf(),
        ensures
            a == lag_clamped(self.window@),
            -1_000_000 <= a <= 1_000_000,
    {
        let v = self.window.to_vec();
        if v.len() < 3 || even(v.as_slice(), 1000) {
            return 0;
        }
        let lag: i64 = lag_micro(v.as_slice());
        if lag > 1_000_000 {
            1_000_000
        } else if lag < -1_000_000 {
            -1_000_000
        } else {
            lag
        }
    }

    /// How bursty the gaps are, in millionths.
    pub fn burstiness_index(&self) -> (b: u64)
        requires
            self.wf(),
        ensures
            b == burst_micro(self.window@),
            b <= 1_000_000,
    {
        let cv: u64 = self.coefficient_of_variation();
        let lag: i64 = self.autocorrelation_lag1();
        let size: u64 = if lag >= 0 {
            lag as u64
        } else {
            (-lag) as u64
        };
        cap((cv + size) / 2, 1_000_000)
    }

    /// The deviation in parts of the mean, in millionths.
    pub fn coefficient_of_variation(&self) -> (c: u64)
        requires
            self.wf(),
        ensures
            c == spread::cv_micro_of(self.window@),
            c <= 65_536_000_000,
    {
        let v = self.window.to_vec();
        cv_micro(v.as_slice())
    }

    /// The gap a `percent` part of the way through the gaps in order, in hundredths.
    pub fn percentile(&self, percent: u64) -> (v: u128)
        requires
            percent <= 100,
        ensures
            v == stats::percentile_of(stats::in_order(self.window@), percent as int),
    {
        self.window.percentile(percent)
    }

    pub fn reset(&mut self)
        requires
            old(self).wf(),
        ensures
            final(self).wf(),
            final(self).window@ == Seq::<u64>::empty(),
            final(self).window.limit == old(self).window.limit,
    {
        self.window.clear();
    }
}

/// How strongly each gap follows the one before it, at most all; nothing for fewer than
/// three gaps or where they hardly vary.
pub open spec fn lag_clamped(gaps: Seq<u64>) -> int {
    let lag = spread::lag_micro_of(gaps);
    if gaps.len() < 3 || periodicity::is_even(gaps, 1000) {
        0
    } else if lag < -1_000_000 {
        -1_000_000
    } else {
        periodicity::capped(lag, 1_000_000)
    }
}

/// How bursty gaps are: half their variation and half of how strongly each follows the one
/// before, at most all.
pub open spec fn burst_micro(gaps: Seq<u64>) -> int {
    periodicity::capped(
        (spread::cv_micro_of(gaps) + periodicity::magnitude(lag_clamped(gaps))) / 2,
        1_000_000,
    )
}

#[derive(Debug)]
pub struct EntropyFeatureExtractor {
    pub window: SlidingWindow,
}

/// An entropy cut off at the highest there is.
pub open spec fn entropy_clamped(micro: u64) -> u64 {
    if micro > MAX_ENTROPY_MICRO {
        MAX_ENTROPY_MICRO
    } else {
        micro
    }
}

/// How much entropies vary in parts of their mean, at most all; all where the mean is below
/// a millionth.
pub open spec fn stability_micro(entropies: Seq<u64>) -> int {
    if window::total(entropies) < entropies.len() || entropies.len() == 0 {
        1_000_000
    } else {
        periodicity::capped(spread::cv_micro_of(entropies), 1_000_000)
    }
}

impl EntropyFeatureExtractor {
    pub open spec fn wf(&self) -> bool {
        is_measurable(self.window) && spread::are_within(self.window@, MAX_ENTROPY_MICRO as int)
    }

    pub fn new(window_size: usize) -> (e: Self)
        requires
            window_size <= spread::MOST,
        ensures
            e.wf(),
            e.window@ == Seq::<u64>::empty(),
            e.window.limit == window_size,
    {
        EntropyFeatureExtractor { window: SlidingWindow::new(window_size) }
    }

    pub fn observe(&mut self, entropy_micro: u64)
        requires
            old(self).wf(),
        ensures
            final(self).wf(),
            final(self).window@ == window::slid(
                old(self).window@,
                entropy_clamped(entropy_micro),
                old(self).window.limit as int,
            ),
            final(self).window.limit == old(self).window.limit,
    {
        let clamped: u64 = if entropy_micro > MAX_ENTROPY_MICRO {
            MAX_ENTROPY_MICRO
        } else {
            entropy_micro
        };
        proof {
            spread::lemma_slid_within(
                self.window@,
                clamped,
                self.window.limit as int,
                MAX_ENTROPY_MICRO as int,
            );
        }
        self.window.observe(clamped);
    }

    /// The mean entropy in millionths, itself scaled by a million.
    pub fn mean(&self) -> (m: u128)
        ensures
            m == window::mean_micro_of(self.window@),
    {
        self.window.mean_micro()
    }

    /// The standard deviation of the entropies, in millionths.
    pub fn std_dev(&self) -> (d: u64)
        requires
            self.wf(),
        ensures
            d == spread::std_micro_of(self.window@) / 1_000_000,
    {
        let v = self.window.to_vec();
        proof {
            spread::law_measures_stay_within(self.window@, MAX_ENTROPY_MICRO as int);
        }
        (std_micro(v.as_slice()) / 1_000_000) as u64
    }

    /// Whether the mean entropy is above the mark of encrypted traffic.
    pub fn is_high_entropy(&self) -> (b: bool)
        requires
            self.wf(),
        ensures
            b <==> window::total(self.window@) > HIGH_ENTROPY_MICRO * self.window@.len(),
    {
        let v = self.window.to_vec();
        let sum: u128 = sum_of(v.as_slice());
        sum > (HIGH_ENTROPY_MICRO as u128) * (v.len() as u128)
    }

    /// How much the entropies vary, in millionths of their mean.
    pub fn entropy_stability(&self) -> (s: u64)
        requires
            self.wf(),
        ensures
            s == stability_micro(self.window@),
            s <= 1_000_000,
    {
        let v = self.window.to_vec();
        let sum: u128 = sum_of(v.as_slice());
        if v.len() == 0 || sum < v.len() as u128 {
            return 1_000_000;
        }
        cap(cv_micro(v.as_slice()), 1_000_000)
    }

    pub fn reset(&mut self)
        requires
            old(self).wf(),
        ensures
            final(self).wf(),
            final(self).window@ == Seq::<u64>::empty(),
            final(self).window.limit == old(self).window.limit,
    {
        self.window.clear();
    }
}

#[derive(Debug)]
pub struct DirectionFeatureExtractor {
    pub bytes_up: u64,
    pub bytes_down: u64,
    pub packet_count_up: u64,
    pub packet_count_down: u64,
    /// The running share of bytes that went up, in trillionths.
    pub ema_ratio: u64,
}

/// One, in the unit of the running share.
pub const WHOLE_SHARE: u64 = 1_000_000_000_000;

/// A running share after the share of `up` in `up + down` has come in with a weight of a
/// twentieth; unchanged while there is nothing.
pub open spec fn share_after(ema: int, up: int, down: int) -> int {
    if up + down == 0 {
        ema
    } else {
        (WHOLE_SHARE * up / (up + down) + 19 * ema) / 20
    }
}

/// The part that `up` is of `up + down`, in millionths; half where there is nothing.
pub open spec fn share_micro(up: int, down: int) -> int {
    if up + down == 0 {
        500_000
    } else {
        1_000_000 * up / (up + down)
    }
}

/// A sum in 64 bits.
pub open spec fn sum64(a: int, b: int) -> int {
    (a + b) % 0x1_0000_0000_0000_0000
}

/// The part that `up` is of `up + down`, in millionths.
fn share(up: u64, down: u64) -> (r: u64)
    ensures
        r == share_micro(up as int, down as int),
        r <= 1_000_000,
{
    let total: u128 = up as u128 + down as u128;
    if total == 0 {
        return 500_000;
    }
    assert(1_000_000 * (up as int) / (total as int) <= 1_000_000) by (nonlinear_arith)
        requires
            0 <= up <= total,
            total > 0,
    ;
    assert(1_000_000 * (up as int) / (total as int) >= 0) by (nonlinear_arith)
        requires
            0 <= up,
            total > 0,
    ;
    (1_000_000 * (up as u128) / total) as u64
}

impl DirectionFeatureExtractor {
    pub fn new() -> (e: Self)
        ensures
            e.bytes_up == 0,
            e.bytes_down == 0,
            e.packet_count_up == 0,
            e.packet_count_down == 0,
            e.ema_ratio == WHOLE_SHARE / 2,
    {
        DirectionFeatureExtractor {
            bytes_up: 0,
            bytes_down: 0,
            packet_count_up: 0,
            packet_count_down: 0,
            ema_ratio: 500_000_000_000,
        }
    }

    /// The counters after one more packet; each starts over after its largest number.
    pub open spec fn counted(self, size: int, direction: PacketDirection) -> Self {
        match direction {
            PacketDirection::Up => DirectionFeatureExtractor {
                bytes_up: sum64(self.bytes_up as int, size) as u64,
                packet_count_up: sum64(self.packet_count_up as int, 1) as u64,
                ..self
            },
            PacketDirection::Down => DirectionFeatureExtractor {
                bytes_down: sum64(self.bytes_down as int, size) as u64,
                packet_count_down: sum64(self.packet_count_down as int, 1) as u64,
                ..self
            },
        }
    }

    /// Counters and running share after one more packet.
    pub open spec fn after(self, size: int, direction: PacketDirection) -> Self {
        let c = self.counted(size, direction);
        DirectionFeatureExtractor {
            ema_ratio: share_after(
                self.ema_ratio as int,
                c.bytes_up as int,
                c.bytes_down as int,
            ) as u64,
            ..c
        }
    }

    pub open spec fn wf(&self) -> bool {
        self.ema_ratio <= WHOLE_SHARE
    }

    pub fn observe(&mut self, size: usize, direction: PacketDirection)
        requires
            old(self).wf(),
        ensures
            final(self).wf(),
            *final(self) == old(self).after(size as int, direction),
    {
        match direction {
            PacketDirection::Up => {
                self.bytes_up = self.bytes_up.wrapping_add(size as u64);
                self.packet_count_up = self.packet_count_up.wrapping_add(1);
            },
            PacketDirection::Down => {
                self.bytes_down = self.bytes_down.wrapping_add(size as u64);
                self.packet_count_down = self.packet_count_down.wrapping_add(1);
            },
        }
        let up: u128 = self.bytes_up as u128;
        let total: u128 = up + self.bytes_down as u128;
        if total > 0 {
            proof {
                let scaled = WHOLE_SHARE as int * up as int;
                assert(0 <= scaled / (total as int) <= WHOLE_SHARE) by (nonlinear_arith)
                    requires
                        scaled == WHOLE_SHARE as int * up as int,
                        0 <= up <= total,
                        total > 0,
                ;
            }
            let now: u128 = (WHOLE_SHARE as u128) * up / total;
            self.ema_ratio = ((now + 19 * (self.ema_ratio as u128)) / 20) as u64;
        }
    }

    /// The running share of bytes that went up, in trillionths.
    pub fn ema_ratio(&self) -> (r: u64)
        ensures
            r == self.ema_ratio,
    {
        self.ema_ratio
    }

    /// The share of bytes that went up, in millionths.
    pub fn byte_ratio(&self) -> (r: u64)
        ensures
            r == share_micro(self.bytes_up as int, self.bytes_down as int),
            r <= 1_000_000,
    {
        share(self.bytes_up, self.bytes_down)
    }

    /// The share of packets that went up, in millionths.
    pub fn packet_ratio(&self) -> (r: u64)
        ensures
            r == share_micro(self.packet_count_up as int, self.packet_count_down as int),
            r <= 1_000_000,
    {
        share(self.packet_count_up, self.packet_count_down)
    }

    pub fn total_bytes(&self) -> (n: u64)
        ensures
            n == sum64(self.bytes_up as int, self.bytes_down as int),
    {
        self.bytes_up.wrapping_add(self.bytes_down)
    }

    pub fn total_packets(&self) -> (n: u64)
        ensures
            n == sum64(self.packet_count_up as int, self.packet_count_down as int),
    {
        self.packet_count_up.wrapping_add(self.packet_count_down)
    }

    /// How far the byte ratio is from an even one, in millionths: none to all.
    pub fn asymmetry_score(&self) -> (s: u64)
        ensures
            ({
                let r = share_micro(self.bytes_up as int, self.bytes_down as int);
                s == if r >= 500_000 {
                    2 * (r - 500_000)
                } else {
                    2 * (500_000 - r)
                }
            }),
            s <= 1_000_000,
    {
        let r: u64 = self.byte_ratio();
        if r >= 500_000 {
            2 * (r - 500_000)
        } else {
            2 * (500_000 - r)
        }
    }

    pub fn reset(&mut self)
        ensures
            final(self).bytes_up == 0,
            final(self).bytes_down == 0,
            final(self).packet_count_up == 0,
            final(self).packet_count_down == 0,
            final(self).ema_ratio == WHOLE_SHARE / 2,
    {
        self.bytes_up = 0;
        self.bytes_down = 0;
        self.packet_count_up = 0;
        self.packet_count_down = 0;
        self.ema_ratio = 500_000_000_000;
    }
}

/// Times of a flow, each in so many parts of a millisecond as `TIME_UNIT` says.
#[derive(Debug)]
pub struct PeriodicityExtractor {
    pub timestamps: SlidingWindow,
}

/// Gaps between times that follow one another and differ.
pub open spec fn gaps_between(t: Seq<u64>) -> Seq<u64>
    decreases t.len(),
{
    if t.len() <= 1 {
        Seq::empty()
    } else if t[t.len() - 1] > t[t.len() - 2] {
        gaps_between(t.drop_last()).push((t[t.len() - 1] - t[t.len() - 2]) as u64)
    } else {
        gaps_between(t.drop_last())
    }
}

/// The gaps of `t`.
fn positive_gaps(t: &Vec<u64>) -> (gaps: Vec<u64>)
    ensures
        gaps@ == gaps_between(t@),
        gaps@.len() <= t@.len(),
{
    let mut gaps: Vec<u64> = Vec::new();
    if t.len() == 0 {
        return gaps;
    }
    let mut i: usize = 1;
    assert(t@.subrange(0, 1).len() == 1);
    while i < t.len()
        invariant
            1 <= i <= t@.len(),
            gaps@ == gaps_between(t@.subrange(0, i as int)),
            gaps@.len() <= i,
        decreases t@.len() - i,
    {
        proof {
            let upto = t@.subrange(0, i + 1);
            assert(upto.drop_last() =~= t@.subrange(0, i as int));
        }
        if t[i] > t[i - 1] {
            gaps.push(t[i] - t[i - 1]);
        }
        i = i + 1;
    }
    assert(t@.subrange(0, i as int) =~= t@);
    gaps
}

/// How regular times are: nothing for fewer than eight times or four gaps.
pub open spec fn periodicity_micro(times: Seq<u64>) -> int {
    let gaps = gaps_between(times);
    if times.len() < 8 || gaps.len() < 4 {
        0
    } else {
        periodicity::flow_periodicity_of(gaps, TIME_UNIT as int)
    }
}

/// The mean gap in billionths of a millisecond; none from fewer than sixteen times or eight gaps.
pub open spec fn period_of(times: Seq<u64>) -> Option<int> {
    let gaps = gaps_between(times);
    if times.len() < 16 || gaps.len() < 8 {
        None
    } else {
        Some(1_000_000_000 * window::total(gaps) / (TIME_UNIT * gaps.len()))
    }
}

impl PeriodicityExtractor {
    pub open spec fn wf(&self) -> bool {
        is_measurable(self.timestamps)
    }

    pub fn new(window_size: usize) -> (e: Self)
        requires
            window_size <= spread::MOST,
        ensures
            e.wf(),
            e.timestamps@ == Seq::<u64>::empty(),
            e.timestamps.limit == window_size,
    {
        PeriodicityExtractor { timestamps: SlidingWindow::new(window_size) }
    }

    pub fn observe(&mut self, timestamp: u64)
        requires
            old(self).wf(),
        ensures
            final(self).wf(),
            final(self).timestamps@ == window::slid(
                old(self).timestamps@,
                timestamp,
                old(self).timestamps.limit as int,
            ),
            final(self).timestamps.limit == old(self).timestamps.limit,
    {
        self.timestamps.observe(timestamp);
    }

    /// How regular the times are, in millionths.
    pub fn periodicity_score(&self) -> (p: u64)
        requires
            self.wf(),
        ensures
            p == periodicity_micro(self.timestamps@),
            p <= 1_000_000,
    {
        if self.timestamps.len() < 8 {
            return 0;
        }
        let t = self.timestamps.to_vec();
        let gaps = positive_gaps(&t);
        if gaps.len() < 4 {
            return 0;
        }
        flow_periodicity(gaps.as_slice(), TIME_UNIT)
    }

    /// The mean gap in billionths of a millisecond; none from fewer than sixteen times or eight
    /// gaps.
    pub fn dominant_period(&self) -> (p: Option<u128>)
        requires
            self.wf(),
        ensures
            p == match period_of(self.timestamps@) {
                Some(m) => Some(m as u128),
                None => None,
            },
            p matches Some(m) ==> m <= 0x1_0000_0000_0000_0000_0000 && Some(m as int) == period_of(
                self.timestamps@,
            ),
    {
        if self.timestamps.len() < 16 {
            return None;
        }
        let t = self.timestamps.to_vec();
        let gaps = positive_gaps(&t);
        if gaps.len() < 8 {
            return None;
        }
        let sum: u128 = sum_of(gaps.as_slice());
        let n: u128 = gaps.len() as u128;
        proof {
            window::lemma_total_bounds(gaps@);
            let (x, k) = (sum as int, n as int);
            assert(0 <= x <= 0x1_0000_0000_0000_0000_0000_0000) by (nonlinear_arith)
                requires
                    0 <= x <= k * 0xFFFF_FFFF_FFFF_FFFF,
                    k <= 0x1_0000_0000,
            ;
            assert(0 <= 1_000_000_000 * x / (65_536 * k) <= 0x1_0000_0000_0000_0000_0000)
                by (nonlinear_arith)
                requires
                    0 <= x <= k * 0xFFFF_FFFF_FFFF_FFFF,
                    k >= 1,
            ;
        }
        Some(1_000_000_000 * sum / (65_536 * n))
    }

    pub fn reset(&mut self)
        requires
            old(self).wf(),
        ensures
            final(self).wf(),
            final(self).timestamps@ == Seq::<u64>::empty(),
            final(self).timestamps.limit == old(self).timestamps.limit,
    {
        self.timestamps.clear();
    }
}

/// A share is the part that goes up: half where both are alike, all or nothing where one is all
/// there is, and the two shares make up the whole but for the last millionth.
pub proof fn law_shares_make_up_the_whole(up: int, down: int)
    requires
        up >= 0,
        down >= 0,
        up + down > 0,
    ensures
        up == down ==> share_micro(up, down) == 500_000,
        down == 0 ==> share_micro(up, down) == 1_000_000,
        up == 0 ==> share_micro(up, down) == 0,
        999_999 <= share_micro(up, down) + share_micro(down, up) <= 1_000_000,
        share_micro(up, down) * (up + down) <= 1_000_000 * up < (share_micro(up, down) + 1) * (up
            + down),
{
    let all = up + down;
    let (p, q) = (1_000_000 * up / all, 1_000_000 * down / all);
    assert(p * all <= 1_000_000 * up < (p + 1) * all) by (nonlinear_arith)
        requires
            all > 0,
            up >= 0,
            p == 1_000_000 * up / all,
    ;
    assert(q * all <= 1_000_000 * down < (q + 1) * all) by (nonlinear_arith)
        requires
            all > 0,
            down >= 0,
            q == 1_000_000 * down / all,
    ;
    assert(p + q <= 1_000_000 && p + q + 2 > 1_000_000) by (nonlinear_arith)
        requires
            all > 0,
            all == up + down,
            p * all <= 1_000_000 * up < (p + 1) * all,
            q * all <= 1_000_000 * down < (q + 1) * all,
    ;
    assert(up == down ==> p == 500_000) by (nonlinear_arith)
        requires
            all > 0,
            all == up + down,
            p == 1_000_000 * up / all,
    ;
    assert(up == all ==> p == 1_000_000) by (nonlinear_arith)
        requires
            all > 0,
            p == 1_000_000 * up / all,
    ;
    assert(up == 0 ==> p == 0) by (nonlinear_arith)
        requires
            all > 0,
            p == 1_000_000 * up / all,
    ;
}

/// The running share moves a twentieth of the way to the share of all bytes that went up: it rises
/// where only such bytes are there, falls where none are, and stays where it is met.
pub proof fn law_running_share_moves_a_twentieth(ema: int, up: int, down: int)
    requires
        0 <= ema <= 1_000_000_000_000,
        up >= 0,
        down >= 0,
    ensures
        0 <= share_after(ema, up, down) <= 1_000_000_000_000,
        up + down == 0 ==> share_after(ema, up, down) == ema,
        up > 0 && down == 0 ==> -20 < 20 * (share_after(ema, up, down) - ema) - (1_000_000_000_000
            - ema) <= 0,
        up == 0 && down > 0 ==> -20 < 20 * (share_after(ema, up, down) - ema) + ema <= 0,
        up == down && ema == 500_000_000_000 ==> share_after(ema, up, down) == ema,
{
    if up + down > 0 {
        let all = up + down;
        let part = 1_000_000_000_000 * up / all;
        assert(0 <= part <= 1_000_000_000_000) by (nonlinear_arith)
            requires
                all > 0,
                0 <= up <= all,
                part == 1_000_000_000_000 * up / all,
        ;
        assert(up == all ==> part == 1_000_000_000_000) by (nonlinear_arith)
            requires
                all > 0,
                part == 1_000_000_000_000 * up / all,
        ;
        assert(up == 0 ==> part == 0) by (nonlinear_arith)
            requires
                all > 0,
                part == 1_000_000_000_000 * up / all,
        ;
        assert(2 * up == all ==> part == 500_000_000_000) by (nonlinear_arith)
            requires
                all > 0,
                part == 1_000_000_000_000 * up / all,
        ;
    }
}

/// A packet is counted in its own direction only, by one and by its size.
pub proof fn law_packets_count_in_their_direction(e: DirectionFeatureExtractor, size: int)
    requires
        0 <= size,
        e.bytes_up + size <= u64::MAX,
        e.bytes_down + size <= u64::MAX,
        e.packet_count_up < u64::MAX,
        e.packet_count_down < u64::MAX,
    ensures
        e.after(size, PacketDirection::Up).bytes_up == e.bytes_up + size,
        e.after(size, PacketDirection::Up).packet_count_up == e.packet_count_up + 1,
        e.after(size, PacketDirection::Up).bytes_down == e.bytes_down,
        e.after(size, PacketDirection::Up).packet_count_down == e.packet_count_down,
        e.after(size, PacketDirection::Down).bytes_down == e.bytes_down + size,
        e.after(size, PacketDirection::Down).packet_count_down == e.packet_count_down + 1,
        e.after(size, PacketDirection::Down).bytes_up == e.bytes_up,
        e.after(size, PacketDirection::Down).packet_count_up == e.packet_count_up,
{
}

/// How strongly gaps follow each other is told from three on, and is at most all either way.
pub proof fn law_order_is_at_most_all(gaps: Seq<u64>)
    ensures
        -1_000_000 <= lag_clamped(gaps) <= 1_000_000,
        gaps.len() < 3 ==> lag_clamped(gaps) == 0,
        gaps.len() >= 3 && !periodicity::is_even(gaps, 1000) && -1_000_000 <= spread::lag_micro_of(
            gaps,
        ) <= 1_000_000 ==> lag_clamped(gaps) == spread::lag_micro_of(gaps),
{
}

/// Gaps are bursty by the mean of their variation and their order, up or down, and by no more
/// than all.
pub proof fn law_burstiness_is_a_mean(gaps: Seq<u64>)
    requires
        0 <= spread::cv_micro_of(gaps),
    ensures
        0 <= burst_micro(gaps) <= 1_000_000,
        lag_clamped(gaps) == 0 && spread::cv_micro_of(gaps) <= 2_000_000 ==> -1 <= 2 * burst_micro(
            gaps,
        ) - spread::cv_micro_of(gaps) <= 0,
        lag_clamped(gaps) == spread::cv_micro_of(gaps) ==> burst_micro(gaps)
            == spread::cv_micro_of(gaps),
        lag_clamped(gaps) == -spread::cv_micro_of(gaps) ==> burst_micro(gaps)
            == spread::cv_micro_of(gaps),
        spread::cv_micro_of(gaps) >= 2_000_000 ==> burst_micro(gaps) == 1_000_000,
{
    law_order_is_at_most_all(gaps);
}

/// Entropies that are all the same, and not nothing, are stable; no entropies at all, or nothing
/// but zeros, are not. An entropy is at most eight bits.
pub proof fn law_even_entropies_are_stable(entropies: Seq<u64>, x: u64, micro: u64)
    requires
        forall|i: int| 0 <= i < entropies.len() ==> #[trigger] entropies[i] == x,
    ensures
        entropies.len() > 0 && x > 0 ==> stability_micro(entropies) == 0,
        entropies.len() == 0 || x == 0 ==> stability_micro(entropies) == 1_000_000,
        entropy_clamped(micro) <= 8_000_000,
        micro <= 8_000_000 ==> entropy_clamped(micro) == micro,
{
    let n = entropies.len() as int;
    window::lemma_total_between(entropies, x as int, x as int);
    if n > 0 {
        spread::law_equal_numbers_do_not_spread(entropies, x);
        assert(x > 0 ==> n * x >= n) by (nonlinear_arith)
            requires
                n > 0,
        ;
        assert(x == 0 ==> n * x == 0) by (nonlinear_arith);
    }
}

/// Times in equal steps have their step for every gap.
proof fn lemma_even_times(times: Seq<u64>, step: u64)
    requires
        times.len() >= 1,
        step > 0,
        forall|i: int| 0 <= i < times.len() ==> #[trigger] times[i] == times[0] + i * step,
    ensures
        gaps_between(times).len() == times.len() - 1,
        forall|i: int| 0 <= i < times.len() - 1 ==> #[trigger] gaps_between(times)[i] == step,
    decreases times.len(),
{
    let n = times.len() as int;
    if n > 1 {
        let t = times.drop_last();
        assert forall|i: int| 0 <= i < t.len() implies #[trigger] t[i] == t[0] + i * step by {
            assert(t[i] == times[i]);
        }
        lemma_even_times(t, step);
        assert((n - 1) * step == (n - 2) * step + step) by (nonlinear_arith);
        assert(times[n - 1] - times[n - 2] == step);
    }
}

/// Times in equal steps have that step for a period, told from sixteen times on in billionths of a
/// millisecond, of which one has 65536 units of time; a middlebox does not find them regular.
pub proof fn law_steps_are_the_period(times: Seq<u64>, step: u64)
    requires
        times.len() >= 16,
        step > 0,
        forall|i: int| 0 <= i < times.len() ==> #[trigger] times[i] == times[0] + i * step,
    ensures
        period_of(times) is Some,
        65_536 * period_of(times)->Some_0 <= 1_000_000_000 * step < 65_536 * (period_of(
            times,
        )->Some_0 + 1),
        periodicity_micro(times) == 0,
{
    lemma_even_times(times, step);
    let gaps = gaps_between(times);
    let n = gaps.len() as int;
    window::lemma_total_between(gaps, step as int, step as int);
    let x = 1_000_000_000 * (n * step);
    let d = 65_536 * n;
    let q = x / d;
    assert(q == (1_000_000_000 * step) / 65_536) by (nonlinear_arith)
        requires
            n > 0,
            step > 0,
            x == 1_000_000_000 * (n * step),
            d == 65_536 * n,
            q == x / d,
    ;
    periodicity::law_an_exact_beat_is_not_noticed(gaps, step, 65_536);
}

/// Few times tell nothing: neither how regular they are below eight, nor a period below sixteen.
pub proof fn law_few_times_tell_nothing(times: Seq<u64>)
    ensures
        times.len() < 8 ==> periodicity_micro(times) == 0,
        times.len() < 16 ==> period_of(times) is None,
{
}

} // verus!
