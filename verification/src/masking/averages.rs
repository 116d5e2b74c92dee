//! Running averages of a flow, how far they are from a target, and the factors that bring
//! them nearer.
//!
//! Sizes are in millionths of a byte, gaps in nanoseconds, fractions and factors in
//! millionths, and the share of bytes that go up in trillionths.

use crate::masking::dpi_features::WHOLE_SHARE;
#[allow(unused_imports)]
use crate::masking::dpi_features;
use crate::masking::dpi_simulator::FEATURE_LIMIT;
use crate::masking::traffic_target::TrafficTarget;
#[allow(unused_imports)]
use crate::masking::{periodicity, traffic_target};
use vstd::prelude::*;

verus! {

/// More than a billion times any number of packets.
pub const BURST_LIMIT: u128 = 0x400_0000_0000_0000_0000_0000_0000;

#[derive(Debug, Clone, Copy, PartialEq, Eq, Structural)]
pub struct Averages {
    pub packet_size: u128,
    pub inter_packet_time: u128,
    pub burstiness: u128,
    pub entropy: u128,
    pub direction_ratio: u64,
}

/// What one packet brings to the averages.
#[derive(Debug, Clone, Copy, PartialEq, Eq, Structural)]
pub struct Sighting {
    pub size: usize,
    pub entropy_micro: u64,
    /// Time since the packet before, in microseconds.
    pub gap_us: Option<u64>,
    pub bytes_up: u64,
    pub bytes_down: u64,
    /// Packets within the burst window.
    pub burst_count: usize,
    pub burst_window_ms: u64,
}

/// A running average after `x` has come in with a weight of a twentieth; the first number
/// stands for itself.
pub open spec fn averaged(average: int, x: int) -> int {
    if average == 0 {
        x
    } else {
        (x + 19 * average) / 20
    }
}

/// How far a burst is from the target's rate, in parts of that rate.
pub open spec fn burst_ratio(count: int, window_ms: int, packets_per_second: int) -> int {
    if packets_per_second == 0 {
        0
    } else {
        periodicity::magnitude(
            1_000_000_000 * count / (window_ms * packets_per_second) - 1_000_000,
        )
    }
}

impl Averages {
    pub open spec fn wf(self) -> bool {
        &&& self.packet_size <= FEATURE_LIMIT
        &&& self.inter_packet_time <= FEATURE_LIMIT
        &&& self.burstiness <= BURST_LIMIT
        &&& self.entropy <= FEATURE_LIMIT
        &&& self.direction_ratio <= WHOLE_SHARE
    }

    /// Nothing seen yet, and as much up as down.
    pub open spec fn none() -> Averages {
        Averages {
            packet_size: 0,
            inter_packet_time: 0,
            burstiness: 0,
            entropy: 0,
            direction_ratio: 500_000_000_000,
        }
    }

    pub fn new() -> (a: Self)
        ensures
            a == Averages::none(),
            a.wf(),
    {
        Averages {
            packet_size: 0,
            inter_packet_time: 0,
            burstiness: 0,
            entropy: 0,
            direction_ratio: 500_000_000_000,
        }
    }

    /// The averages after one more packet.
    pub open spec fn after(self, s: Sighting, packets_per_second: int) -> Averages {
        Averages {
            packet_size: averaged(
                self.packet_size as int,
                1_000_000 * s.size,
            ) as u128,
            inter_packet_time: match s.gap_us {
                Some(us) => averaged(self.inter_packet_time as int, 1000 * us) as u128,
                None => self.inter_packet_time,
            },
            burstiness: ((burst_ratio(
                s.burst_count as int,
                s.burst_window_ms as int,
                packets_per_second,
            ) + 19 * self.burstiness) / 20) as u128,
            entropy: averaged(self.entropy as int, s.entropy_micro as int) as u128,
            direction_ratio: dpi_features::share_after(
                self.direction_ratio as int,
                s.bytes_up as int,
                s.bytes_down as int,
            ) as u64,
        }
    }

    /// Takes a packet in.
    pub fn update(&mut self, s: &Sighting, packets_per_second: u16)
        requires
            old(self).wf(),
            0 < s.burst_window_ms <= 1_000_000,
        ensures
            final(self).wf(),
            *final(self) == old(self).after(*s, packets_per_second as int),
    {
        let size: u128 = 1_000_000 * (s.size as u128);
        let burst: u128 = burst_off(s.burst_count, s.burst_window_ms, packets_per_second);
        self.packet_size = average(self.packet_size, size);
        if let Some(us) = s.gap_us {
            self.inter_packet_time = average(self.inter_packet_time, 1000 * (us as u128));
        }
        self.burstiness = (burst + 19 * self.burstiness) / 20;
        self.entropy = average(self.entropy, s.entropy_micro as u128);
        let up: u128 = s.bytes_up as u128;
        let total: u128 = up + s.bytes_down as u128;
        if total > 0 {
            proof {
                let scaled = WHOLE_SHARE as int * up as int;
                assert(0 <= scaled / (total as int) <= WHOLE_SHARE) by (nonlinear_arith)
                    requires
                        scaled == WHOLE_SHARE as int * up as int,
                        0 <= up <= total,
                        total > 0,
                ;
            }
            let now: u128 = (WHOLE_SHARE as u128) * up / total;
            self.direction_ratio = ((now + 19 * (self.direction_ratio as u128)) / 20) as u64;
        }
    }
}

fn least(x: u128, most: u128) -> (r: u128)
    ensures
        r == periodicity::capped(x as int, most as int),
{
    if x > most {
        most
    } else {
        x
    }
}

fn average(old_average: u128, x: u128) -> (r: u128)
    requires
        old_average <= FEATURE_LIMIT,
        x <= FEATURE_LIMIT,
    ensures
        r == averaged(old_average as int, x as int),
        r <= FEATURE_LIMIT,
{
    if old_average == 0 {
        x
    } else {
        (x + 19 * old_average) / 20
    }
}

fn burst_off(count: usize, window_ms: u64, packets_per_second: u16) -> (r: u128)
    requires
        0 < window_ms <= 1_000_000,
    ensures
        r == burst_ratio(count as int, window_ms as int, packets_per_second as int),
        r <= BURST_LIMIT,
{
    if packets_per_second == 0 {
        return 0;
    }
    let pps: u128 = packets_per_second as u128;
    assert(1 <= window_ms * pps <= 1_000_000 * 65_535) by (nonlinear_arith)
        requires
            1 <= window_ms <= 1_000_000,
            1 <= pps <= 65_535,
    ;
    let base: u128 = (window_ms as u128) * pps;
    let scaled: u128 = 1_000_000_000 * (count as u128);
    assert(0 <= scaled as int / base as int <= scaled) by (nonlinear_arith)
        requires
            base >= 1,
            scaled >= 0,
    ;
    let rate: u128 = scaled / base;
    if rate >= 1_000_000 {
        rate - 1_000_000
    } else {
        1_000_000 - rate
    }
}

/// How far `x` is from `mean`, in parts of `unit`.
pub open spec fn apart(x: int, mean: int, unit: int) -> int {
    1_000_000 * periodicity::magnitude(x - mean) / unit
}

/// How far averages are from a target, feature by feature.
pub open spec fn distance_of(a: Averages, t: TrafficTarget, regularity: int) -> int {
    let size = if a.packet_size > 0 && t.size_dist.std > 0 {
        apart(a.packet_size as int, t.size_dist.mean as int, t.size_dist.std as int)
    } else {
        0
    };
    let timing = if a.inter_packet_time > 0 && t.timing_dist.std_iat > 0 {
        apart(
            a.inter_packet_time as int,
            t.timing_dist.mean_iat as int,
            t.timing_dist.std_iat as int,
        )
    } else {
        0
    };
    let burst = periodicity::capped(a.burstiness as int, 1_000_000);
    let entropy = if a.entropy == 0 {
        0
    } else if t.target_entropy == 0 {
        FEATURE_LIMIT as int
    } else {
        apart(a.entropy as int, t.target_entropy as int, t.target_entropy as int)
    };
    let direction = periodicity::magnitude(a.direction_ratio / 1_000_000 - t.direction_ratio);
    (30 * size + 25 * timing + 15 * burst + 15 * entropy + 10 * direction + 5 * regularity) / 100
}

fn how_far(x: u128, mean: u128, unit: u128) -> (d: u128)
    requires
        x <= FEATURE_LIMIT,
        mean <= FEATURE_LIMIT,
        unit > 0,
    ensures
        d == apart(x as int, mean as int, unit as int),
        d <= 1_000_000 * FEATURE_LIMIT,
{
    let off: u128 = if x >= mean {
        x - mean
    } else {
        mean - x
    };
    assert(0 <= 1_000_000 * off as int / unit as int <= 1_000_000 * off) by (nonlinear_arith)
        requires
            unit >= 1,
            off >= 0,
    ;
    1_000_000 * off / unit
}

/// How far averages are from a target.
pub fn compute_distance(a: &Averages, t: &TrafficTarget, regularity: u64) -> (d: u128)
    requires
        a.wf(),
        t.wf(),
        regularity <= 1_000_000,
    ensures
        d == distance_of(*a, *t, regularity as int),
        d <= 1_000_000 * FEATURE_LIMIT,
{
    let size: u128 = if a.packet_size > 0 && t.size_dist.std > 0 {
        how_far(a.packet_size, t.size_dist.mean as u128, t.size_dist.std as u128)
    } else {
        0
    };
    let timing: u128 = if a.inter_packet_time > 0 && t.timing_dist.std_iat > 0 {
        how_far(a.inter_packet_time, t.timing_dist.mean_iat, t.timing_dist.std_iat)
    } else {
        0
    };
    let burst: u128 = least(a.burstiness, 1_000_000);
    let entropy: u128 = if a.entropy == 0 {
        0
    } else if t.target_entropy == 0 {
        FEATURE_LIMIT
    } else {
        how_far(a.entropy, t.target_entropy, t.target_entropy)
    };
    let share: u128 = (a.direction_ratio / 1_000_000) as u128;
    let direction: u128 = if share >= t.direction_ratio {
        share - t.direction_ratio
    } else {
        t.direction_ratio - share
    };
    (30 * size + 25 * timing + 15 * burst + 15 * entropy + 10 * direction + 5 * (
    regularity as u128)) / 100
}

/// A flow that is on its target in every feature, without bursts and without a beat, is at no
/// distance from it.
pub proof fn law_on_target_is_no_distance(a: Averages, t: TrafficTarget)
    requires
        a.packet_size == t.size_dist.mean,
        a.inter_packet_time == t.timing_dist.mean_iat,
        a.burstiness == 0,
        a.entropy == t.target_entropy,
        a.direction_ratio == 1_000_000 * t.direction_ratio,
    ensures
        distance_of(a, t, 0) == 0,
{
    assert forall|x: int, unit: int| unit > 0 implies #[trigger] apart(x, x, unit) == 0 by {
        assert(0int / unit == 0) by (nonlinear_arith)
            requires
                unit > 0,
        ;
    }
}

/// What decisions are scaled by.
#[derive(Debug, Clone, Copy, PartialEq, Eq, Structural)]
pub struct Factors {
    pub padding: u64,
    pub delay: u64,
    /// How many deviations too large a packet must be to be split.
    pub split: u64,
    /// How many deviations too small a packet must be to be merged.
    pub merge: u64,
    /// The phase against periodicity, in hundredths.
    pub phase_x100: u64,
}

/// `x` moved into `low..=high`.
pub open spec fn within(x: int, low: int, high: int) -> int {
    if x < low {
        low
    } else if x > high {
        high
    } else {
        x
    }
}

fn move_within(x: u64, low: u64, high: u64) -> (r: u64)
    ensures
        r == within(x as int, low as int, high as int),
{
    if x < low {
        low
    } else if x > high {
        high
    } else {
        x
    }
}

impl Factors {
    pub open spec fn wf(self) -> bool {
        &&& 300_000 <= self.padding <= 3_000_000
        &&& 300_000 <= self.delay <= 3_000_000
        &&& 1_200_000 <= self.split <= 4_000_000
        &&& 200_000 <= self.merge <= 1_500_000
    }

    pub fn new() -> (f: Self)
        ensures
            f.wf(),
            f == (Factors {
                padding: 1_000_000,
                delay: 1_000_000,
                split: 2_000_000,
                merge: 500_000,
                phase_x100: 0,
            }),
    {
        Factors {
            padding: 1_000_000,
            delay: 1_000_000,
            split: 2_000_000,
            merge: 500_000,
            phase_x100: 0,
        }
    }

    /// The factors after they have been adapted: sizes more than a tenth too large are padded
    /// less and split sooner, and more than a tenth too small padded more and merged sooner;
    /// gaps more than three twentieths too long are stretched less, and too short more; and
    /// too strong a beat moves the phase on.
    pub open spec fn adapted(self, a: Averages, t: TrafficTarget, regularity: int) -> Factors {
        let size_off = a.packet_size - t.size_dist.mean;
        let large = a.packet_size > 0 && 10 * size_off > t.size_dist.mean;
        let small = a.packet_size > 0 && 10 * size_off < -t.size_dist.mean;
        let gap_off = a.inter_packet_time - t.timing_dist.mean_iat;
        let long = a.inter_packet_time > 0 && 100 * gap_off > 15 * t.timing_dist.mean_iat;
        let short = a.inter_packet_time > 0 && 100 * gap_off < -(15 * t.timing_dist.mean_iat);
        Factors {
            padding: within(
                if large {
                    self.padding * 92 / 100
                } else if small {
                    self.padding * 108 / 100
                } else {
                    self.padding as int
                },
                300_000,
                3_000_000,
            ) as u64,
            delay: within(
                if long {
                    self.delay * 90 / 100
                } else if short {
                    self.delay * 110 / 100
                } else {
                    self.delay as int
                },
                300_000,
                3_000_000,
            ) as u64,
            split: within(
                if large {
                    self.split * 95 / 100
                } else {
                    self.split as int
                },
                1_200_000,
                4_000_000,
            ) as u64,
            merge: within(
                if small && !large {
                    self.merge * 95 / 100
                } else {
                    self.merge as int
                },
                200_000,
                1_500_000,
            ) as u64,
            phase_x100: if 2 * regularity > 3 * t.periodicity_strength {
                periodicity::capped(self.phase_x100 + 17, u64::MAX as int) as u64
            } else {
                self.phase_x100
            },
        }
    }

    /// Adapts the factors.
    pub fn adapt(&mut self, a: &Averages, t: &TrafficTarget, regularity: u64)
        requires
            old(self).wf(),
            a.wf(),
            t.wf(),
            regularity <= 1_000_000,
        ensures
            final(self).wf(),
            *final(self) == old(self).adapted(*a, *t, regularity as int),
    {
        let size_off: i128 = a.packet_size as i128 - t.size_dist.mean as i128;
        let mean: i128 = t.size_dist.mean as i128;
        if a.packet_size > 0 {
            if 10 * size_off > mean {
                self.padding = self.padding * 92 / 100;
                self.split = self.split * 95 / 100;
            } else if 10 * size_off < -mean {
                self.padding = self.padding * 108 / 100;
                self.merge = self.merge * 95 / 100;
            }
        }
        let gap_off: i128 = a.inter_packet_time as i128 - t.timing_dist.mean_iat as i128;
        let gap: i128 = t.timing_dist.mean_iat as i128;
        if a.inter_packet_time > 0 {
            if 100 * gap_off > 15 * gap {
                self.delay = self.delay * 90 / 100;
            } else if 100 * gap_off < -(15 * gap) {
                self.delay = self.delay * 110 / 100;
            }
        }
        if 2 * (regularity as u128) > 3 * t.periodicity_strength {
            self.phase_x100 = if self.phase_x100 > u64::MAX - 17 {
                u64::MAX
            } else {
                self.phase_x100 + 17
            };
        }
        self.padding = move_within(self.padding, 300_000, 3_000_000);
        self.delay = move_within(self.delay, 300_000, 3_000_000);
        self.split = move_within(self.split, 1_200_000, 4_000_000);
        self.merge = move_within(self.merge, 200_000, 1_500_000);
    }
}

// ---- What averages and factors keep to ----

/// A running average moves a twentieth of the way to what comes in: it stays where what comes in is
/// the same, never leaves the two, and moves by one for each twenty more that come in.
pub proof fn law_averages_move_a_twentieth(average: int, x: int)
    requires
        average >= 0,
        x >= 0,
    ensures
        averaged(average, average) == average,
        averaged(0, x) == x,
        average > 0 ==> averaged(average, x + 20) == averaged(average, x) + 1,
        average <= x ==> average <= averaged(average, x) <= x,
        x <= average ==> x <= averaged(average, x) <= average,
        average > 0 ==> 20 * averaged(average, x) <= 19 * average + x < 20 * averaged(average, x)
            + 20,
{
}

/// A packet is averaged in bytes, its gap in microseconds and its entropy in millionths of a bit,
/// each in the unit of its average; a flow of packets like one another has their features.
pub proof fn law_equal_packets_have_their_features(a: Averages, s: Sighting, pps: int)
    requires
        a.wf(),
        s.gap_us matches Some(us) && a.inter_packet_time == 1000 * us,
        a.packet_size == 1_000_000 * s.size,
        a.entropy == s.entropy_micro,
    ensures
        a.after(s, pps).packet_size == a.packet_size,
        a.after(s, pps).inter_packet_time == a.inter_packet_time,
        a.after(s, pps).entropy == a.entropy,
{
}

/// The first packet sets the averages, and one without a gap leaves that of gaps.
pub proof fn law_first_packet_sets_the_averages(s: Sighting, pps: int)
    ensures
        Averages::none().after(s, pps).packet_size == 1_000_000 * s.size,
        Averages::none().after(s, pps).entropy == s.entropy_micro,
        s.gap_us matches Some(us) ==> Averages::none().after(s, pps).inter_packet_time == 1000 * us,
        s.gap_us is None ==> Averages::none().after(s, pps).inter_packet_time == 0,
{
}

/// A burst at the target's rate is no burst; one at `k` times the rate is `k - 1` rates too strong.
pub proof fn law_bursts_are_measured_by_the_rate(count: int, window_ms: int, pps: int, k: int)
    requires
        window_ms > 0,
        pps > 0,
        k >= 0,
        1000 * count == k * (window_ms * pps),
    ensures
        burst_ratio(count, window_ms, pps) == 1_000_000 * (if k >= 1 {
            k - 1
        } else {
            1
        }),
{
    let b = window_ms * pps;
    assert(b > 0 && 1_000_000 * (k * b) / b == 1_000_000 * k) by (nonlinear_arith)
        requires
            b == window_ms * pps,
            window_ms > 0,
            pps > 0,
    ;
}

/// The parts that features have in the distance of a flow that is off its target in one of them
/// only: three tenths for sizes and a quarter for gaps, by deviations; three twentieths each for
/// bursts, up to one, and for entropy, by parts of the target's; a tenth for the direction; and a
/// twentieth for a beat.
pub proof fn law_distance_weighs_features(a: Averages, t: TrafficTarget, k: int, regularity: int)
    requires
        k >= 0,
        t.size_dist.mean > 0,
        t.timing_dist.mean_iat > 0,
        t.target_entropy > 0,
        a.packet_size == t.size_dist.mean,
        a.inter_packet_time == t.timing_dist.mean_iat,
        a.burstiness == 0,
        a.entropy == t.target_entropy,
        a.direction_ratio == 1_000_000 * t.direction_ratio,
    ensures
        distance_of(a, t, regularity) == 5 * regularity / 100,
        t.size_dist.std > 0 ==> forall|b: Averages|
            b == (Averages { packet_size: b.packet_size, ..a }) && (#[trigger] b.packet_size)
                == t.size_dist.mean + k * t.size_dist.std ==> distance_of(b, t, 0) == 300_000 * k,
        t.timing_dist.std_iat > 0 ==> forall|b: Averages|
            b == (Averages { inter_packet_time: b.inter_packet_time, ..a })
                && (#[trigger] b.inter_packet_time) == t.timing_dist.mean_iat + k
                * t.timing_dist.std_iat ==> distance_of(b, t, 0) == 250_000 * k,
        forall|b: Averages|
            b == (Averages { burstiness: b.burstiness, ..a }) ==> distance_of(b, t, 0) == 15 * (if (
            #[trigger] b.burstiness) > 1_000_000 {
                1_000_000
            } else {
                b.burstiness as int
            }) / 100,
        forall|b: Averages|
            b == (Averages { entropy: b.entropy, ..a }) && (#[trigger] b.entropy) == (k + 1)
                * t.target_entropy ==> distance_of(b, t, 0) == 150_000 * k,
        forall|b: Averages|
            b == (Averages { direction_ratio: b.direction_ratio, ..a }) && (
            #[trigger] b.direction_ratio) == 1_000_000 * (t.direction_ratio + k) ==> distance_of(
                b,
                t,
                0,
            ) == 10 * k / 100,
{
    assert forall|x: int, unit: int| unit > 0 implies #[trigger] apart(x, x, unit) == 0 by {
        assert(0int / unit == 0) by (nonlinear_arith)
            requires
                unit > 0,
        ;
    }
    assert forall|x: int, mean: int, unit: int| unit > 0 && x - mean == k * unit implies
        #[trigger] apart(x, mean, unit) == 1_000_000 * k by {
        assert(k * unit >= 0 && 1_000_000 * (k * unit) / unit == 1_000_000 * k) by (nonlinear_arith)
            requires
                unit > 0,
                k >= 0,
        ;
    }
    let e = t.target_entropy as int;
    assert((k + 1) * e - e == k * e && (k + 1) * e > 0) by (nonlinear_arith)
        requires
            e > 0,
            k >= 0,
    ;
    assert(k * t.size_dist.std >= 0) by (nonlinear_arith)
        requires
            k >= 0,
            t.size_dist.std >= 0,
    ;
    assert(k * t.timing_dist.std_iat >= 0) by (nonlinear_arith)
        requires
            k >= 0,
            t.timing_dist.std_iat >= 0,
    ;
}

/// Packets more than a tenth too large are padded less and split sooner, and packets more than a
/// tenth too small are padded more and merged sooner, as far as factors go; sizes near the target
/// leave the factors for sizes alone.
pub proof fn law_factors_pull_sizes_to_the_target(
    f: Factors,
    a: Averages,
    t: TrafficTarget,
    regularity: int,
)
    requires
        f.wf(),
        a.packet_size > 0,
    ensures
        f.adapted(a, t, regularity).wf(),
        10 * a.packet_size > 11 * t.size_dist.mean ==> {
            let g = f.adapted(a, t, regularity);
            &&& g.padding < f.padding || g.padding == 300_000
            &&& g.split < f.split || g.split == 1_200_000
            &&& g.merge == f.merge
            &&& 100 * (g.padding + 1) > 92 * f.padding
            &&& 100 * (g.split + 1) > 95 * f.split
        },
        10 * a.packet_size < 9 * t.size_dist.mean ==> {
            let g = f.adapted(a, t, regularity);
            &&& g.padding > f.padding || g.padding == 3_000_000
            &&& g.merge < f.merge || g.merge == 200_000
            &&& g.split == f.split
            &&& 100 * g.padding <= 108 * f.padding
            &&& 100 * (g.merge + 1) > 95 * f.merge
        },
        9 * t.size_dist.mean <= 10 * a.packet_size <= 11 * t.size_dist.mean ==> {
            let g = f.adapted(a, t, regularity);
            g.padding == f.padding && g.split == f.split && g.merge == f.merge
        },
{
}

/// Gaps more than three twentieths too long are stretched a tenth less, and gaps too short by as
/// much a tenth more, as far as factors go; gaps near the target leave the factor alone. Too strong
/// a beat moves the phase on, and no other does.
pub proof fn law_factors_pull_gaps_to_the_target(
    f: Factors,
    a: Averages,
    t: TrafficTarget,
    regularity: int,
)
    requires
        f.wf(),
        a.inter_packet_time > 0,
    ensures
        100 * a.inter_packet_time > 115 * t.timing_dist.mean_iat ==> {
            let g = f.adapted(a, t, regularity);
            &&& g.delay < f.delay || g.delay == 300_000
            &&& 100 * (g.delay + 1) > 90 * f.delay
        },
        100 * a.inter_packet_time < 85 * t.timing_dist.mean_iat ==> {
            let g = f.adapted(a, t, regularity);
            &&& g.delay > f.delay || g.delay == 3_000_000
            &&& 100 * g.delay <= 110 * f.delay
        },
        85 * t.timing_dist.mean_iat <= 100 * a.inter_packet_time <= 115 * t.timing_dist.mean_iat
            ==> f.adapted(a, t, regularity).delay == f.delay,
        2 * regularity <= 3 * t.periodicity_strength ==> f.adapted(a, t, regularity).phase_x100
            == f.phase_x100,
        2 * regularity > 3 * t.periodicity_strength && f.phase_x100 < u64::MAX ==> f.adapted(
            a,
            t,
            regularity,
        ).phase_x100 > f.phase_x100,
{
}

/// Before any packet nothing is measured, and half of the bytes are taken to go up.
pub proof fn law_flows_begin_balanced()
    ensures
        2 * Averages::none().direction_ratio == 1_000_000_000_000,
        Averages::none().packet_size == 0,
        Averages::none().inter_packet_time == 0,
        Averages::none().burstiness == 0,
        Averages::none().entropy == 0,
{
}

/// The average burstiness moves a twentieth of the way to that of the packet, and stays where it is
/// met.
pub proof fn law_burstiness_moves_a_twentieth(a: Averages, s: Sighting, pps: int)
    requires
        0 <= burst_ratio(s.burst_count as int, s.burst_window_ms as int, pps) <= BURST_LIMIT,
        a.burstiness <= BURST_LIMIT,
    ensures
        ({
            let ratio = burst_ratio(s.burst_count as int, s.burst_window_ms as int, pps);
            let b = a.after(s, pps).burstiness;
            &&& 20 * b <= ratio + 19 * a.burstiness < 20 * b + 20
            &&& ratio == a.burstiness ==> b == a.burstiness
        }),
{
}

/// The share of bytes that go up rises where only such bytes are there, and falls where none are.
pub proof fn law_share_follows_the_direction(a: Averages, s: Sighting, pps: int)
    requires
        a.wf(),
        a.direction_ratio <= 1_000_000_000_000,
    ensures
        s.bytes_up > 0 && s.bytes_down == 0 ==> 20 * a.after(s, pps).direction_ratio + 20
            > 1_000_000_000_000 + 19 * a.direction_ratio,
        s.bytes_up == 0 && s.bytes_down > 0 ==> 20 * a.after(s, pps).direction_ratio <= 19
            * a.direction_ratio,
        s.bytes_up == 0 && s.bytes_down == 0 ==> a.after(s, pps).direction_ratio
            == a.direction_ratio,
{
    dpi_features::law_running_share_moves_a_twentieth(
        a.direction_ratio as int,
        s.bytes_up as int,
        s.bytes_down as int,
    );
}

} // verus!
