//! The statistical model of a game's traffic.
//!
//! Fractions are held in millionths and times in microseconds. Draws from bell curves
//! are real numbers and are made by the caller; which component, pattern or bin a roll
//! selects is decided here.

use crate::masking::profiles::{BurstPatternDef, GamingProfile, GaussianComponentDef, TimingBinDef};
use crate::utils::goodness::chi_squared;
#[allow(unused_imports)]
use crate::utils::goodness;
use crate::utils::random::random_between;
use crate::utils::text::join;
use crate::utils::{PhantomError, PhantomResult};
use vstd::prelude::*;

verus! {

/// Rolls are whole numbers below this, and stand for fractions of it.
pub const ROLL_RANGE: u64 = 0x20_0000_0000_0000;

/// Number of bins of the goodness-of-fit test.
pub const CHI_BINS: usize = 10;

/// Fewest samples that the goodness-of-fit test takes.
pub const CHI_MIN_SAMPLES: usize = 30;

/// Critical values of the test at five percent, in thousandths, by degrees of freedom
/// from one on.
pub const CHI_CRITICAL: [u32; 15] = [
    3841,
    5991,
    7815,
    9488,
    11070,
    12592,
    14067,
    15507,
    16919,
    18307,
    19675,
    21026,
    22362,
    23685,
    24996,
];

#[derive(Debug, Clone, Copy, PartialEq, Eq, Structural)]
pub struct GaussianComponent {
    pub mean_micro: i64,
    pub std_dev_micro: i64,
    pub weight_micro: u64,
}

impl GaussianComponent {
    /// A component whose deviation is at least one.
    pub open spec fn made(mean: i64, std_dev: i64, weight: u64) -> GaussianComponent {
        GaussianComponent {
            mean_micro: mean,
            std_dev_micro: if std_dev < 1_000_000 {
                1_000_000
            } else {
                std_dev
            },
            weight_micro: weight,
        }
    }

    pub fn new(mean_micro: i64, std_dev_micro: i64, weight_micro: u64) -> (c: Self)
        ensures
            c == Self::made(mean_micro, std_dev_micro, weight_micro),
    {
        GaussianComponent {
            mean_micro,
            std_dev_micro: if std_dev_micro < 1_000_000 { 1_000_000 } else { std_dev_micro },
            weight_micro,
        }
    }
}

#[derive(Debug)]
pub struct BurstPattern {
    pub name: String,
    pub packet_count_range: (usize, usize),
    pub inter_packet_time_range_us: (u64, u64),
    pub size_range: (usize, usize),
    pub probability_micro: u64,
}

impl BurstPattern {
    /// A drawn gap between packets.
    pub fn inter_packet_time(&self) -> (us: u64)
        requires
            self.inter_packet_time_range_us.0 <= self.inter_packet_time_range_us.1,
        ensures
            self.inter_packet_time_range_us.0 <= us <= self.inter_packet_time_range_us.1,
    {
        random_between(self.inter_packet_time_range_us.0, self.inter_packet_time_range_us.1)
    }

    /// A drawn number of packets.
    pub fn packet_count(&self) -> (n: usize)
        requires
            self.packet_count_range.0 <= self.packet_count_range.1,
        ensures
            self.packet_count_range.0 <= n <= self.packet_count_range.1,
    {
        random_between(self.packet_count_range.0 as u64, self.packet_count_range.1 as u64) as usize
    }
}

#[derive(Debug, Clone, Copy, PartialEq, Eq, Structural)]
pub struct EntropyProfile {
    pub mean_entropy_micro: u64,
    pub entropy_std_micro: u64,
}

#[derive(Debug)]
pub struct StatisticalGameTrafficModel {
    pub name: String,
    pub direction_ratio_micro: (u64, u64),
    pub target_entropy_micro: u64,
    pub flow_duration_mean_s: u64,
    pub packets_per_second: u16,
    pub periodicity_strength_micro: u64,
    pub size_distribution: Vec<GaussianComponent>,
    /// Weights of the components, added up one by one.
    pub size_weights_cdf: Vec<u64>,
    pub timing_distribution: Vec<(u64, u64)>,
    /// Probabilities of the gaps, added up one by one.
    pub timing_cdf: Vec<u64>,
    pub burst_patterns: Vec<BurstPattern>,
    pub client_server_size_ratio_micro: (u64, u64),
    pub entropy_profile: EntropyProfile,
}

/// The first `n` weights, added up.
pub open spec fn mass(weights: Seq<u64>, n: int) -> int
    decreases n,
{
    if n <= 0 {
        0
    } else {
        mass(weights, n - 1) + weights[n - 1]
    }
}

proof fn lemma_mass_grows(weights: Seq<u64>, i: int, j: int)
    requires
        0 <= i <= j <= weights.len(),
    ensures
        0 <= mass(weights, i) <= mass(weights, j),
    decreases j,
{
    if i < j {
        lemma_mass_grows(weights, i, j - 1);
    } else if i > 0 {
        lemma_mass_grows(weights, i - 1, i - 1);
    }
}

/// Whether `cdf` is the weights added up one by one.
pub open spec fn is_cdf(cdf: Seq<u64>, weights: Seq<u64>) -> bool {
    cdf.len() == weights.len() && forall|i: int|
        0 <= i < cdf.len() ==> #[trigger] cdf[i] == mass(weights, i + 1)
}

/// Adds weights up one by one.
pub fn compute_cdf(weights: &[u64]) -> (cdf: Vec<u64>)
    requires
        mass(weights@, weights@.len() as int) <= u64::MAX,
    ensures
        is_cdf(cdf@, weights@),
{
    let mut cdf: Vec<u64> = Vec::new();
    let mut cumulative: u64 = 0;
    let mut i: usize = 0;
    while i < weights.len()
        invariant
            i <= weights@.len(),
            mass(weights@, weights@.len() as int) <= u64::MAX,
            cumulative == mass(weights@, i as int),
            cdf@.len() == i,
            forall|k: int| 0 <= k < i ==> #[trigger] cdf@[k] == mass(weights@, k + 1),
        decreases weights@.len() - i,
    {
        proof {
            lemma_mass_grows(weights@, i + 1, weights@.len() as int);
        }
        cumulative = cumulative + weights[i];
        cdf.push(cumulative);
        i = i + 1;
    }
    cdf
}

/// From index `i` on, the first entry of which the roll is no larger a part than the
/// entry is of the last one; else the last. Where all weights are zero they count as
/// equal.
pub open spec fn cdf_index(cdf: Seq<u64>, roll: int, i: int) -> int
    decreases cdf.len() - i,
{
    if i >= cdf.len() - 1 {
        cdf.len() - 1
    } else if cdf.last() == 0 && roll * cdf.len() <= (i + 1) * ROLL_RANGE {
        i
    } else if cdf.last() > 0 && roll * cdf.last() <= cdf[i] * ROLL_RANGE {
        i
    } else {
        cdf_index(cdf, roll, i + 1)
    }
}

/// The entry of `cdf` that a roll selects.
pub fn sample_from_cdf(cdf: &[u64], roll: u64) -> (index: usize)
    requires
        cdf@.len() > 0,
        roll < ROLL_RANGE,
    ensures
        index == cdf_index(cdf@, roll as int, 0),
        index < cdf@.len(),
{
    let n: usize = cdf.len();
    let total: u64 = cdf[n - 1];
    let mut i: usize = 0;
    while i + 1 < n
        invariant
            i < n,
            n == cdf@.len(),
            total == cdf@.last(),
            roll < ROLL_RANGE,
            cdf_index(cdf@, roll as int, 0) == cdf_index(cdf@, roll as int, i as int),
        decreases n - i,
    {
        assert(0 <= roll * total < 0x20_0000_0000_0000 * 0x1_0000_0000_0000_0000)
            by (nonlinear_arith)
            requires
                0 <= roll < 0x20_0000_0000_0000,
                0 <= total < 0x1_0000_0000_0000_0000,
        ;
        assert(0 <= roll * n < 0x20_0000_0000_0000 * 0x1_0000_0000_0000_0000) by (nonlinear_arith)
            requires
                0 <= roll < 0x20_0000_0000_0000,
                0 <= n < 0x1_0000_0000_0000_0000,
        ;
        if total == 0 {
            if (roll as u128) * (n as u128) <= ((i + 1) as u128) * (ROLL_RANGE as u128) {
                return i;
            }
        } else if (roll as u128) * (total as u128) <= (cdf[i] as u128) * (ROLL_RANGE as u128) {
            return i;
        }
        i = i + 1;
    }
    i
}

/// From index `i` on, the first pattern whose cumulative probability lies above the
/// roll.
pub open spec fn burst_index(patterns: Seq<BurstPattern>, roll: int, i: int) -> Option<int>
    decreases patterns.len() - i,
{
    if i >= patterns.len() {
        None
    } else if roll * 1_000_000 < mass(probabilities(patterns), i + 1) * ROLL_RANGE {
        Some(i)
    } else {
        burst_index(patterns, roll, i + 1)
    }
}

/// The probabilities of the patterns.
pub open spec fn probabilities(patterns: Seq<BurstPattern>) -> Seq<u64> {
    patterns.map_values(|p: BurstPattern| p.probability_micro)
}

/// The strength that a jitter gives to periodicity: between 15 and 45 hundredths.
pub open spec fn periodicity_of(jitter_ms: int) -> int {
    150_000 + if jitter_ms < 60 {
        5_000 * jitter_ms
    } else {
        300_000
    }
}

/// Whether `m` was made from `d`.
pub open spec fn pattern_from(m: BurstPattern, d: BurstPatternDef) -> bool {
    &&& m.name@ == d.name@
    &&& m.packet_count_range == d.packet_count_range
    &&& m.inter_packet_time_range_us == d.inter_packet_time_range_us
    &&& m.size_range == d.size_range
    &&& m.probability_micro == d.probability_micro
}

/// The weights of the components.
pub open spec fn size_weights(d: Seq<GaussianComponentDef>) -> Seq<u64> {
    d.map_values(|c: GaussianComponentDef| c.weight_micro)
}

/// The probabilities of the gaps.
pub open spec fn timing_weights(d: Seq<TimingBinDef>) -> Seq<u64> {
    d.map_values(|b: TimingBinDef| b.probability_micro)
}

/// Whether `m` is the model of `profile`.
pub open spec fn models_profile(m: StatisticalGameTrafficModel, profile: GamingProfile) -> bool {
    &&& m.name@ == profile.name@
    &&& m.direction_ratio_micro == profile.client_server_size_ratio_micro
    &&& m.client_server_size_ratio_micro == profile.client_server_size_ratio_micro
    &&& m.entropy_profile == match profile.entropy_profile {
        Some(e) => EntropyProfile {
            mean_entropy_micro: e.mean_entropy_micro,
            entropy_std_micro: e.entropy_std_micro,
        },
        None => EntropyProfile { mean_entropy_micro: 7_000_000, entropy_std_micro: 500_000 },
    }
    &&& m.target_entropy_micro == m.entropy_profile.mean_entropy_micro
    &&& m.flow_duration_mean_s == 300
    &&& m.packets_per_second == profile.frequency_hz
    &&& m.periodicity_strength_micro == periodicity_of(profile.jitter_ms as int)
    &&& m.size_distribution@.len() == profile.size_distribution@.len()
    &&& forall|i: int|
        0 <= i < m.size_distribution@.len() ==> #[trigger] m.size_distribution@[i]
            == GaussianComponent::made(
            profile.size_distribution@[i].mean_micro,
            profile.size_distribution@[i].std_dev_micro,
            profile.size_distribution@[i].weight_micro,
        )
    &&& is_cdf(m.size_weights_cdf@, size_weights(profile.size_distribution@))
    &&& m.timing_distribution@.len() == profile.timing_distribution@.len()
    &&& forall|i: int|
        0 <= i < m.timing_distribution@.len() ==> #[trigger] m.timing_distribution@[i] == (
            profile.timing_distribution@[i].time_us,
            profile.timing_distribution@[i].probability_micro,
        )
    &&& is_cdf(m.timing_cdf@, timing_weights(profile.timing_distribution@))
    &&& m.burst_patterns@.len() == profile.burst_patterns@.len()
    &&& forall|i: int|
        0 <= i < m.burst_patterns@.len() ==> pattern_from(
            #[trigger] m.burst_patterns@[i],
            profile.burst_patterns@[i],
        )
}

/// The size that a draw stands for, in whole bytes.
pub open spec fn size_of_draw(raw_micro: int) -> int {
    if raw_micro < 40_000_000 {
        40
    } else if raw_micro > 1_500_000_000 {
        1500
    } else {
        (raw_micro + 500_000) / 1_000_000
    }
}

/// The gap that a roll selects, moved by two milliseconds less than `shift` microseconds, but
/// no shorter than one millisecond.
pub open spec fn gap_for_rolls(
    bins: Seq<(u64, u64)>,
    cdf: Seq<u64>,
    roll: int,
    shift: int,
) -> int {
    let moved = bins[cdf_index(cdf, roll, 0)].0 + shift - 2000;
    if moved < 1000 {
        1000
    } else if moved > u64::MAX {
        u64::MAX as int
    } else {
        moved
    }
}

impl StatisticalGameTrafficModel {
    /// The model of a profile. A profile without size components is refused.
    pub fn from_profile(profile: &GamingProfile) -> (r: PhantomResult<Self>)
        requires
            mass(
                size_weights(profile.size_distribution@),
                profile.size_distribution@.len() as int,
            ) <= u64::MAX,
            mass(
                timing_weights(profile.timing_distribution@),
                profile.timing_distribution@.len() as int,
            ) <= u64::MAX,
        ensures
            match r {
                Ok(m) => profile.size_distribution@.len() > 0 && models_profile(m, *profile),
                Err(e) => profile.size_distribution@.len() == 0 && e.is_config(
                    "Profile '"@ + profile.name@ + "' has no size distribution components"@,
                ),
            },
    {
        let size_distribution = Self::build_size_distribution(profile)?;
        let mut weights: Vec<u64> = Vec::new();
        let mut i: usize = 0;
        while i < profile.size_distribution.len()
            invariant
                i <= profile.size_distribution@.len(),
                weights@ == size_weights(profile.size_distribution@).subrange(0, i as int),
            decreases profile.size_distribution@.len() - i,
        {
            weights.push(profile.size_distribution[i].weight_micro);
            i = i + 1;
            assert(weights@ =~= size_weights(profile.size_distribution@).subrange(0, i as int));
        }
        assert(weights@ =~= size_weights(profile.size_distribution@));
        let size_weights_cdf = compute_cdf(weights.as_slice());
        let mut timing_distribution: Vec<(u64, u64)> = Vec::new();
        let mut chances: Vec<u64> = Vec::new();
        i = 0;
        while i < profile.timing_distribution.len()
            invariant
                i <= profile.timing_distribution@.len(),
                chances@ == timing_weights(profile.timing_distribution@).subrange(0, i as int),
                timing_distribution@.len() == i,
                forall|k: int|
                    0 <= k < i ==> #[trigger] timing_distribution@[k] == (
                        profile.timing_distribution@[k].time_us,
                        profile.timing_distribution@[k].probability_micro,
                    ),
            decreases profile.timing_distribution@.len() - i,
        {
            let bin = profile.timing_distribution[i];
            timing_distribution.push((bin.time_us, bin.probability_micro));
            chances.push(bin.probability_micro);
            i = i + 1;
            assert(chances@ =~= timing_weights(profile.timing_distribution@).subrange(0, i as int));
        }
        assert(chances@ =~= timing_weights(profile.timing_distribution@));
        let timing_cdf = compute_cdf(chances.as_slice());
        let mut burst_patterns: Vec<BurstPattern> = Vec::new();
        i = 0;
        while i < profile.burst_patterns.len()
            invariant
                i <= profile.burst_patterns@.len(),
                burst_patterns@.len() == i,
                forall|k: int|
                    0 <= k < i ==> pattern_from(
                        #[trigger] burst_patterns@[k],
                        profile.burst_patterns@[k],
                    ),
            decreases profile.burst_patterns@.len() - i,
        {
            let def = &profile.burst_patterns[i];
            burst_patterns.push(
                BurstPattern {
                    name: def.name.clone(),
                    packet_count_range: def.packet_count_range,
                    inter_packet_time_range_us: def.inter_packet_time_range_us,
                    size_range: def.size_range,
                    probability_micro: def.probability_micro,
                },
            );
            i = i + 1;
        }
        let entropy_profile = match &profile.entropy_profile {
            Some(e) => EntropyProfile {
                mean_entropy_micro: e.mean_entropy_micro,
                entropy_std_micro: e.entropy_std_micro,
            },
            None => EntropyProfile { mean_entropy_micro: 7_000_000, entropy_std_micro: 500_000 },
        };
        let periodicity_strength_micro: u64 = 150_000 + if profile.jitter_ms < 60 {
            5_000 * profile.jitter_ms
        } else {
            300_000
        };
        Ok(
            StatisticalGameTrafficModel {
                name: profile.name.clone(),
                direction_ratio_micro: profile.client_server_size_ratio_micro,
                target_entropy_micro: entropy_profile.mean_entropy_micro,
                flow_duration_mean_s: 300,
                packets_per_second: profile.frequency_hz,
                periodicity_strength_micro,
                size_distribution,
                size_weights_cdf,
                timing_distribution,
                timing_cdf,
                burst_patterns,
                client_server_size_ratio_micro: profile.client_server_size_ratio_micro,
                entropy_profile,
            },
        )
    }

    /// The size components of a profile, each at least one byte wide.
    pub fn build_size_distribution(profile: &GamingProfile) -> (r: PhantomResult<
        Vec<GaussianComponent>,
    >)
        ensures
            match r {
                Ok(v) => profile.size_distribution@.len() > 0 && v@.len()
                    == profile.size_distribution@.len() && forall|i: int|
                    0 <= i < v@.len() ==> #[trigger] v@[i] == GaussianComponent::made(
                        profile.size_distribution@[i].mean_micro,
                        profile.size_distribution@[i].std_dev_micro,
                        profile.size_distribution@[i].weight_micro,
                    ),
                Err(e) => profile.size_distribution@.len() == 0 && e.is_config(
                    "Profile '"@ + profile.name@ + "' has no size distribution components"@,
                ),
            },
    {
        if profile.size_distribution.len() == 0 {
            let head = join("Profile '", profile.name.as_str());
            return Err(
                PhantomError::ConfigError(
                    join(head.as_str(), "' has no size distribution components"),
                ),
            );
        }
        let mut v: Vec<GaussianComponent> = Vec::new();
        let mut i: usize = 0;
        while i < profile.size_distribution.len()
            invariant
                i <= profile.size_distribution@.len(),
                v@.len() == i,
                forall|k: int|
                    0 <= k < i ==> #[trigger] v@[k] == GaussianComponent::made(
                        profile.size_distribution@[k].mean_micro,
                        profile.size_distribution@[k].std_dev_micro,
                        profile.size_distribution@[k].weight_micro,
                    ),
            decreases profile.size_distribution@.len() - i,
        {
            let def = profile.size_distribution[i];
            v.push(GaussianComponent::new(def.mean_micro, def.std_dev_micro, def.weight_micro));
            i = i + 1;
        }
        Ok(v)
    }

    /// Draws the size component that the next packet size is sampled from.
    pub fn draw_size_component(&self) -> (index: usize)
        requires
            self.size_weights_cdf@.len() > 0,
        ensures
            index < self.size_weights_cdf@.len(),
            exists|roll: int|
                0 <= roll < ROLL_RANGE && index == #[trigger] cdf_index(
                    self.size_weights_cdf@,
                    roll,
                    0,
                ),
    {
        let roll: u64 = random_between(0, ROLL_RANGE - 1);
        sample_from_cdf(self.size_weights_cdf.as_slice(), roll)
    }

    /// The size of a packet for a draw from its component's bell curve, in millionths: the
    /// nearest whole size, and between 40 and 1500 bytes.
    pub fn sample_packet_size(raw_micro: i64) -> (size: usize)
        ensures
            size == size_of_draw(raw_micro as int),
    {
        if raw_micro < 40_000_000 {
            40
        } else if raw_micro > 1_500_000_000 {
            1500
        } else {
            ((raw_micro + 500_000) / 1_000_000) as usize
        }
    }

    /// The entropy for a draw from the bell curve, in millionths of a bit per byte: between
    /// 0 and 8.
    pub fn sample_entropy(raw_micro: i64) -> (entropy: u64)
        ensures
            entropy == if raw_micro < 0 {
                0
            } else if raw_micro > 8_000_000 {
                8_000_000
            } else {
                raw_micro as int
            },
    {
        if raw_micro < 0 {
            0
        } else if raw_micro > 8_000_000 {
            8_000_000
        } else {
            raw_micro as u64
        }
    }

    /// Whether this gap between packets can be drawn.
    pub open spec fn draws_gap(&self, us: u64) -> bool {
        if self.timing_distribution@.len() == 0 {
            us == 50_000
        } else {
            exists|roll: int, shift: int|
                0 <= roll < ROLL_RANGE && 0 <= shift <= 4000 && us == #[trigger] gap_for_rolls(
                    self.timing_distribution@,
                    self.timing_cdf@,
                    roll,
                    shift,
                )
        }
    }

    /// Draws a gap between packets, in microseconds: one of the model's, up to two
    /// milliseconds longer or shorter, but no shorter than one; 50 ms where the model holds
    /// none.
    pub fn sample_inter_packet_time(&self) -> (us: u64)
        requires
            self.timing_cdf@.len() == self.timing_distribution@.len(),
        ensures
            self.draws_gap(us),
    {
        if self.timing_distribution.len() == 0 {
            return 50_000;
        }
        let roll: u64 = random_between(0, ROLL_RANGE - 1);
        let shift: u64 = random_between(0, 4000);
        let index: usize = sample_from_cdf(self.timing_cdf.as_slice(), roll);
        let base: u64 = self.timing_distribution[index].0;
        let moved: i128 = base as i128 + shift as i128 - 2000;
        let us: u64 = if moved < 1000 {
            1000
        } else if moved > 0xFFFF_FFFF_FFFF_FFFF {
            0xFFFF_FFFF_FFFF_FFFF
        } else {
            moved as u64
        };
        assert(us == gap_for_rolls(
            self.timing_distribution@,
            self.timing_cdf@,
            roll as int,
            shift as int,
        ));
        us
    }

    /// The pattern that a roll starts, if any.
    pub fn burst_for_roll(&self, roll: u64) -> (index: Option<usize>)
        requires
            roll < ROLL_RANGE,
            mass(probabilities(self.burst_patterns@), self.burst_patterns@.len() as int)
                <= u64::MAX,
        ensures
            match burst_index(self.burst_patterns@, roll as int, 0) {
                None => index is None,
                Some(i) => index == Some(i as usize) && 0 <= i < self.burst_patterns@.len(),
            },
    {
        let ghost weights = probabilities(self.burst_patterns@);
        let n: usize = self.burst_patterns.len();
        let mut cumulative: u64 = 0;
        let mut i: usize = 0;
        while i < n
            invariant
                i <= n,
                n == self.burst_patterns@.len(),
                weights == probabilities(self.burst_patterns@),
                mass(weights, n as int) <= u64::MAX,
                cumulative == mass(weights, i as int),
                roll < ROLL_RANGE,
                burst_index(self.burst_patterns@, roll as int, 0) == burst_index(
                    self.burst_patterns@,
                    roll as int,
                    i as int,
                ),
            decreases n - i,
        {
            proof {
                lemma_mass_grows(weights, i + 1, n as int);
                assert(weights[i as int] == self.burst_patterns@[i as int].probability_micro);
            }
            cumulative = cumulative + self.burst_patterns[i].probability_micro;
            if (roll as u128) * 1_000_000u128 < (cumulative as u128) * (ROLL_RANGE as u128) {
                return Some(i);
            }
            i = i + 1;
        }
        None
    }

    /// Draws whether a burst starts, and which.
    pub fn should_burst(&self) -> (index: Option<usize>)
        requires
            mass(probabilities(self.burst_patterns@), self.burst_patterns@.len() as int)
                <= u64::MAX,
        ensures
            exists|roll: int|
                0 <= roll < ROLL_RANGE && match #[trigger] burst_index(
                    self.burst_patterns@,
                    roll,
                    0,
                ) {
                    None => index is None,
                    Some(i) => index == Some(i as usize) && 0 <= i < self.burst_patterns@.len(),
                },
    {
        let roll: u64 = random_between(0, ROLL_RANGE - 1);
        let index = self.burst_for_roll(roll);
        assert(0 <= (roll as int) < ROLL_RANGE);
        index
    }

    /// Draws the packet sizes of a burst.
    pub fn generate_burst(&self, pattern: &BurstPattern) -> (packets: Vec<usize>)
        requires
            pattern.packet_count_range.0 <= pattern.packet_count_range.1,
            pattern.size_range.0 <= pattern.size_range.1,
        ensures
            pattern.packet_count_range.0 <= packets@.len() <= pattern.packet_count_range.1,
            forall|i: int|
                0 <= i < packets@.len() ==> pattern.size_range.0 <= #[trigger] packets@[i]
                    <= pattern.size_range.1,
    {
        let count: usize = pattern.packet_count();
        let mut packets: Vec<usize> = Vec::new();
        while packets.len() < count
            invariant
                packets@.len() <= count,
                pattern.size_range.0 <= pattern.size_range.1,
                forall|i: int|
                    0 <= i < packets@.len() ==> pattern.size_range.0 <= #[trigger] packets@[i]
                        <= pattern.size_range.1,
            decreases count - packets@.len(),
        {
            packets.push(
                random_between(pattern.size_range.0 as u64, pattern.size_range.1 as u64) as usize,
            );
        }
        packets
    }

    pub fn game_name(&self) -> (name: &str)
        ensures
            name@ == self.name@,
    {
        self.name.as_str()
    }

    pub fn client_server_ratio(&self) -> (r: (u64, u64))
        ensures
            r == self.client_server_size_ratio_micro,
    {
        self.client_server_size_ratio_micro
    }
}

/// The bin of a sample: a tenth of the range each, or one byte where the range is
/// shorter than ten.
pub open spec fn bin_of(sample: int, min: int, max: int) -> int {
    let raw = if max - min >= CHI_BINS {
        (sample - min) * CHI_BINS / (max - min)
    } else {
        sample - min
    };
    if raw < CHI_BINS - 1 {
        raw
    } else {
        CHI_BINS - 1
    }
}

/// How many of the first `n` samples fall into bin `b`.
pub open spec fn in_bin(samples: Seq<u64>, min: int, max: int, b: int, n: int) -> int
    decreases n,
{
    if n <= 0 {
        0
    } else {
        in_bin(samples, min, max, b, n - 1) + if bin_of(samples[n - 1] as int, min, max) == b {
            1int
        } else {
            0
        }
    }
}

/// Whether `m` is the least of the samples and `x` the greatest.
pub open spec fn spans(samples: Seq<u64>, m: u64, x: u64) -> bool {
    &&& samples.contains(m)
    &&& samples.contains(x)
    &&& forall|i: int| 0 <= i < samples.len() ==> m <= #[trigger] samples[i] <= x
}

/// A histogram over the range of the samples.
pub struct Histogram {
    pub min: u64,
    pub max: u64,
    pub counts: Vec<u64>,
}

/// Counts the samples by bins for the goodness-of-fit test; too few samples give none.
pub fn histogram(samples: &[u64]) -> (h: Option<Histogram>)
    ensures
        match h {
            None => samples@.len() < CHI_MIN_SAMPLES,
            Some(h) => {
                &&& samples@.len() >= CHI_MIN_SAMPLES
                &&& spans(samples@, h.min, h.max)
                &&& h.counts@.len() == CHI_BINS
                &&& forall|b: int|
                    0 <= b < CHI_BINS ==> #[trigger] h.counts@[b] == in_bin(
                        samples@,
                        h.min as int,
                        h.max as int,
                        b,
                        samples@.len() as int,
                    )
            },
        },
{
    if samples.len() < CHI_MIN_SAMPLES {
        return None;
    }
    let mut min: u64 = samples[0];
    let mut max: u64 = samples[0];
    let mut i: usize = 1;
    assert(samples@[0] == min);
    while i < samples.len()
        invariant
            1 <= i <= samples@.len(),
            samples@.contains(min),
            samples@.contains(max),
            forall|k: int| 0 <= k < i ==> min <= #[trigger] samples@[k] <= max,
        decreases samples@.len() - i,
    {
        let x: u64 = samples[i];
        assert(samples@.contains(x));
        if x < min {
            min = x;
        }
        if x > max {
            max = x;
        }
        i = i + 1;
    }
    let mut counts: Vec<u64> = vec![0u64; CHI_BINS];
    i = 0;
    while i < samples.len()
        invariant
            i <= samples@.len(),
            samples.len() == samples@.len(),
            forall|k: int| 0 <= k < samples@.len() ==> min <= #[trigger] samples@[k] <= max,
            counts@.len() == CHI_BINS,
            forall|b: int|
                0 <= b < CHI_BINS ==> 0 <= #[trigger] counts@[b] <= i && counts@[b] == in_bin(
                    samples@,
                    min as int,
                    max as int,
                    b,
                    i as int,
                ),
        decreases samples@.len() - i,
    {
        let x: u64 = samples[i];
        let span: u64 = max - min;
        let raw: u128 = if span >= 10 {
            ((x - min) as u128) * 10 / (span as u128)
        } else {
            (x - min) as u128
        };
        let bin: usize = if raw < 9 { raw as usize } else { 9 };
        assert(bin == bin_of(x as int, min as int, max as int));
        counts[bin] = counts[bin] + 1;
        i = i + 1;
    }
    Some(Histogram { min, max, counts })
}

/// How far sizes are from what the bins of their histogram are expected to hold, in
/// millionths. Too few samples give no answer, and sizes that are all the same fit.
pub fn chi_squared_test(samples: &[u64], expected: &[u64]) -> (c: Option<u128>)
    requires
        samples@.len() <= u32::MAX,
        expected@.len() == CHI_BINS,
        forall|b: int| 0 <= b < CHI_BINS ==> #[trigger] expected@[b] <= goodness::MOST_EXPECTED,
    ensures
        samples@.len() < CHI_MIN_SAMPLES ==> c is None,
        samples@.len() >= CHI_MIN_SAMPLES ==> exists|low: u64, high: u64, counts: Seq<u64>|
            #[trigger] is_histogram(samples@, low, high, counts) && c == Some(
                if low == high {
                    0u128
                } else {
                    goodness::chi_total(counts, expected@, CHI_BINS as int) as u128
                },
            ),
{
    match histogram(samples) {
        None => None,
        Some(h) => {
            proof {
                assert forall|b: int| 0 <= b < CHI_BINS implies #[trigger] h.counts@[b] <= u32::MAX
                    by {
                    lemma_bin_fits(
                        samples@,
                        h.min as int,
                        h.max as int,
                        b,
                        samples@.len() as int,
                    );
                }
                goodness::lemma_small_counts(h.counts@, expected@, CHI_BINS as int);
                assert(is_histogram(samples@, h.min, h.max, h.counts@));
            }
            if h.min == h.max {
                Some(0)
            } else {
                Some(chi_squared(h.counts.as_slice(), expected, CHI_BINS))
            }
        },
    }
}

/// Whether `counts` are the samples by bins between the least, `low`, and the greatest,
/// `high`.
pub open spec fn is_histogram(samples: Seq<u64>, low: u64, high: u64, counts: Seq<u64>) -> bool {
    &&& spans(samples, low, high)
    &&& counts.len() == CHI_BINS
    &&& forall|b: int|
        0 <= b < CHI_BINS ==> #[trigger] counts[b] == in_bin(
            samples,
            low as int,
            high as int,
            b,
            samples.len() as int,
        )
}

proof fn lemma_bin_fits(samples: Seq<u64>, min: int, max: int, b: int, n: int)
    ensures
        n >= 0 ==> 0 <= in_bin(samples, min, max, b, n) <= n,
    decreases n,
{
    if n > 0 {
        lemma_bin_fits(samples, min, max, b, n - 1);
    }
}

/// The critical value for up to fifteen degrees of freedom, in thousandths.
pub fn chi_squared_critical_value(dof: usize) -> (v: Option<u32>)
    ensures
        v == if 1 <= dof <= 15 {
            Some(CHI_CRITICAL@[dof - 1])
        } else {
            None
        },
{
    if dof < 1 || dof > 15 {
        return None;
    }
    Some(CHI_CRITICAL[dof - 1])
}

/// Larger rolls select later entries: selection follows the cumulative weights.
pub proof fn law_rolls_select_in_order(cdf: Seq<u64>, a: int, b: int, i: int)
    requires
        0 <= a <= b < ROLL_RANGE,
        0 <= i,
        cdf.len() > 0,
    ensures
        cdf_index(cdf, a, i) <= cdf_index(cdf, b, i),
    decreases cdf.len() - i,
{
    if i < cdf.len() - 1 {
        law_rolls_select_in_order(cdf, a, b, i + 1);
        lemma_index_from(cdf, a, i + 1);
        lemma_index_from(cdf, b, i + 1);
        let n = cdf.len() as int;
        let t = cdf.last() as int;
        assert(a * n <= b * n) by (nonlinear_arith)
            requires
                a <= b,
                0 <= n,
        ;
        assert(a * t <= b * t) by (nonlinear_arith)
            requires
                a <= b,
                0 <= t,
        ;
    }
}

proof fn lemma_index_from(cdf: Seq<u64>, roll: int, i: int)
    requires
        0 <= i < cdf.len(),
    ensures
        i <= cdf_index(cdf, roll, i) < cdf.len(),
    decreases cdf.len() - i,
{
    if i < cdf.len() - 1 {
        lemma_index_from(cdf, roll, i + 1);
    }
}

/// A roll selects the entry whose share of the weights, one share after the other, it falls into:
/// what lies before the entry is less than the roll's part of all weights, and with the entry it
/// is no less. An entry without weight is never selected but for the first, by the lowest roll.
pub proof fn law_rolls_select_by_weight(weights: Seq<u64>, cdf: Seq<u64>, roll: int)
    requires
        is_cdf(cdf, weights),
        weights.len() > 0,
        mass(weights, weights.len() as int) > 0,
        0 <= roll < 0x20_0000_0000_0000,
    ensures
        0 <= cdf_index(cdf, roll, 0) < weights.len(),
        roll * mass(weights, weights.len() as int) <= mass(weights, cdf_index(cdf, roll, 0) + 1)
            * 0x20_0000_0000_0000,
        cdf_index(cdf, roll, 0) > 0 ==> roll * mass(weights, weights.len() as int) > mass(
            weights,
            cdf_index(cdf, roll, 0),
        ) * 0x20_0000_0000_0000,
        roll > 0 ==> weights[cdf_index(cdf, roll, 0)] > 0,
{
    let total = mass(weights, weights.len() as int);
    assert(cdf.last() == total);
    lemma_selected(cdf, roll, 0);
    let k = cdf_index(cdf, roll, 0);
    assert(roll * total <= total * 0x20_0000_0000_0000) by (nonlinear_arith)
        requires
            0 <= roll <= 0x20_0000_0000_0000,
            0 <= total,
    ;
    assert(cdf[k] == mass(weights, k + 1));
    if k > 0 {
        assert(cdf[k - 1] == mass(weights, k));
    } else {
        assert(mass(weights, 0) == 0);
        if roll > 0 {
            assert(roll * total > 0) by (nonlinear_arith)
                requires
                    roll > 0,
                    total > 0,
            ;
        }
    }
}

proof fn lemma_selected(cdf: Seq<u64>, roll: int, i: int)
    requires
        0 <= i < cdf.len(),
        cdf.last() > 0,
    ensures
        i <= cdf_index(cdf, roll, i) < cdf.len(),
        cdf_index(cdf, roll, i) < cdf.len() - 1 ==> roll * cdf.last() <= cdf[cdf_index(
            cdf,
            roll,
            i,
        )] * ROLL_RANGE,
        cdf_index(cdf, roll, i) > i ==> roll * cdf.last() > cdf[cdf_index(cdf, roll, i) - 1]
            * ROLL_RANGE,
    decreases cdf.len() - i,
{
    if i < cdf.len() - 1 {
        lemma_selected(cdf, roll, i + 1);
    }
}

/// Where no entry has weight, a roll selects each of `n` entries for an equal part of the range.
pub proof fn law_rolls_select_equals_alike(cdf: Seq<u64>, roll: int)
    requires
        cdf.len() > 0,
        cdf.last() == 0,
        0 <= roll < 0x20_0000_0000_0000,
    ensures
        0 <= cdf_index(cdf, roll, 0) < cdf.len(),
        roll * cdf.len() <= (cdf_index(cdf, roll, 0) + 1) * 0x20_0000_0000_0000,
        cdf_index(cdf, roll, 0) > 0 ==> roll * cdf.len() > cdf_index(cdf, roll, 0)
            * 0x20_0000_0000_0000,
{
    lemma_equals_selected(cdf, roll, 0);
    let n = cdf.len() as int;
    assert(roll * n <= n * 0x20_0000_0000_0000) by (nonlinear_arith)
        requires
            0 <= roll <= 0x20_0000_0000_0000,
            0 <= n,
    ;
}

proof fn lemma_equals_selected(cdf: Seq<u64>, roll: int, i: int)
    requires
        0 <= i < cdf.len(),
        cdf.last() == 0,
    ensures
        i <= cdf_index(cdf, roll, i) < cdf.len(),
        cdf_index(cdf, roll, i) < cdf.len() - 1 ==> roll * cdf.len() <= (cdf_index(cdf, roll, i)
            + 1) * ROLL_RANGE,
        cdf_index(cdf, roll, i) > i ==> roll * cdf.len() > cdf_index(cdf, roll, i) * ROLL_RANGE,
    decreases cdf.len() - i,
{
    if i < cdf.len() - 1 {
        lemma_equals_selected(cdf, roll, i + 1);
    }
}

/// A burst comes up with its probability: the roll, in parts of its range, lies between the
/// probabilities of the patterns before and those with the pattern. No burst comes up where the
/// roll lies beyond all of them.
pub proof fn law_rolls_select_bursts_by_probability(patterns: Seq<BurstPattern>, roll: int)
    requires
        0 <= roll,
    ensures
        burst_index(patterns, roll, 0) is None <==> roll * 1_000_000 >= mass(
            probabilities(patterns),
            patterns.len() as int,
        ) * 0x20_0000_0000_0000,
        burst_index(patterns, roll, 0) matches Some(i) ==> 0 <= i < patterns.len() && mass(
            probabilities(patterns),
            i,
        ) * 0x20_0000_0000_0000 <= roll * 1_000_000 < mass(probabilities(patterns), i + 1)
            * 0x20_0000_0000_0000 && patterns[i].probability_micro > 0,
{
    assert(mass(probabilities(patterns), 0) == 0);
    lemma_burst_selected(patterns, roll, 0);
    if let Some(i) = burst_index(patterns, roll, 0) {
        lemma_mass_grows(probabilities(patterns), i + 1, patterns.len() as int);
        assert(probabilities(patterns)[i] == patterns[i].probability_micro);
    }
}

proof fn lemma_burst_selected(patterns: Seq<BurstPattern>, roll: int, i: int)
    requires
        0 <= i <= patterns.len(),
        mass(probabilities(patterns), i) * ROLL_RANGE <= roll * 1_000_000,
    ensures
        burst_index(patterns, roll, i) is None ==> roll * 1_000_000 >= mass(
            probabilities(patterns),
            patterns.len() as int,
        ) * ROLL_RANGE,
        burst_index(patterns, roll, i) matches Some(k) ==> i <= k < patterns.len() && mass(
            probabilities(patterns),
            k,
        ) * ROLL_RANGE <= roll * 1_000_000 < mass(probabilities(patterns), k + 1) * ROLL_RANGE,
    decreases patterns.len() - i,
{
    if i < patterns.len() && !(roll * 1_000_000 < mass(probabilities(patterns), i + 1)
        * ROLL_RANGE) {
        lemma_burst_selected(patterns, roll, i + 1);
    }
}

/// A drawn size is the nearest whole size to its draw, and between 40 and 1500 bytes.
pub proof fn law_sizes_are_near_their_draws(raw: int, more: int)
    requires
        raw <= more,
    ensures
        40 <= size_of_draw(raw) <= size_of_draw(more) <= 1500,
        40_000_000 <= raw <= 1_500_000_000 ==> -500_000 <= 1_000_000 * size_of_draw(raw) - raw
            <= 500_000,
        raw <= 40_000_000 ==> size_of_draw(raw) == 40,
        raw >= 1_500_000_000 ==> size_of_draw(raw) == 1500,
{
}

/// A drawn gap is a gap of the model moved by at most two milliseconds, but no shorter than one
/// millisecond; in the middle of the shifts it is the gap of the model itself.
pub proof fn law_gaps_are_near_those_of_the_model(
    bins: Seq<(u64, u64)>,
    cdf: Seq<u64>,
    roll: int,
    shift: int,
    more: int,
)
    requires
        0 <= shift <= more <= 4000,
        bins[cdf_index(cdf, roll, 0)].0 <= u64::MAX - 2000,
    ensures
        1000 <= gap_for_rolls(bins, cdf, roll, shift) <= gap_for_rolls(bins, cdf, roll, more),
        bins[cdf_index(cdf, roll, 0)].0 >= 3000 ==> {
            &&& gap_for_rolls(bins, cdf, roll, 2000) == bins[cdf_index(cdf, roll, 0)].0
            &&& gap_for_rolls(bins, cdf, roll, more) - gap_for_rolls(bins, cdf, roll, shift) == more
                - shift
        },
        bins[cdf_index(cdf, roll, 0)].0 < 3000 ==> gap_for_rolls(bins, cdf, roll, 0) == 1000,
{
}

/// The strength of the periodicity grows with the jitter, by five thousandths for each millisecond
/// up to sixty, and lies between 15 and 45 hundredths.
pub proof fn law_jitter_strengthens_periodicity(jitter: int)
    requires
        0 <= jitter,
    ensures
        150_000 <= periodicity_of(jitter) <= periodicity_of(jitter + 1) <= 450_000,
        periodicity_of(jitter + 1) == periodicity_of(jitter) <==> jitter >= 60,
        jitter < 60 ==> periodicity_of(jitter + 1) - periodicity_of(jitter) == 5_000,
        periodicity_of(0) == 150_000,
{
}

/// A component spreads by at least one byte, and is otherwise as it was given.
pub proof fn law_components_spread(mean: i64, std: i64, weight: u64)
    ensures
        GaussianComponent::made(mean, std, weight).mean_micro == mean,
        GaussianComponent::made(mean, std, weight).weight_micro == weight,
        GaussianComponent::made(mean, std, weight).std_dev_micro >= 1_000_000,
        std >= 1_000_000 ==> GaussianComponent::made(mean, std, weight).std_dev_micro == std,
        std <= 1_000_000 ==> GaussianComponent::made(mean, std, weight).std_dev_micro == 1_000_000,
{
}

/// Bins cut the range of the samples into ten equal parts, the least sample in the first and the
/// greatest in the last.
pub proof fn law_bins_are_equal_parts(sample: int, min: int, max: int)
    requires
        min <= sample <= max,
        max - min >= 10,
    ensures
        0 <= bin_of(sample, min, max) <= 9,
        bin_of(sample, min, max) * (max - min) <= 10 * (sample - min),
        bin_of(sample, min, max) < 9 ==> 10 * (sample - min) < (bin_of(sample, min, max) + 1) * (max
            - min),
        bin_of(min, min, max) == 0,
        bin_of(max, min, max) == 9,
{
    let range = max - min;
    let x = (sample - min) * 10;
    let q = x / range;
    assert(q * range <= x < (q + 1) * range && q >= 0) by (nonlinear_arith)
        requires
            range > 0,
            x >= 0,
            q == x / range,
    ;
    assert(q >= 9 ==> 9 * range <= q * range) by (nonlinear_arith)
        requires
            range > 0,
    ;
    assert(0int / range == 0) by (nonlinear_arith)
        requires
            range > 0,
    ;
    assert((range * 10) / range == 10) by (nonlinear_arith)
        requires
            range > 0,
    ;
}

/// Every sample falls into exactly one of the ten bins.
pub proof fn law_every_sample_is_counted(samples: Seq<u64>, min: int, max: int, n: int)
    requires
        0 <= n <= samples.len(),
        forall|i: int| 0 <= i < samples.len() ==> min <= #[trigger] samples[i] <= max,
    ensures
        in_bin(samples, min, max, 0, n) + in_bin(samples, min, max, 1, n) + in_bin(
            samples,
            min,
            max,
            2,
            n,
        ) + in_bin(samples, min, max, 3, n) + in_bin(samples, min, max, 4, n) + in_bin(
            samples,
            min,
            max,
            5,
            n,
        ) + in_bin(samples, min, max, 6, n) + in_bin(samples, min, max, 7, n) + in_bin(
            samples,
            min,
            max,
            8,
            n,
        ) + in_bin(samples, min, max, 9, n) == n,
    decreases n,
{
    if n > 0 {
        law_every_sample_is_counted(samples, min, max, n - 1);
        let s = samples[n - 1] as int;
        if max - min >= 10 {
            law_bins_are_equal_parts(s, min, max);
        }
        assert(0 <= bin_of(s, min, max) <= 9);
    }
}

} // verus!
