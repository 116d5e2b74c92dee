//! Bursts of packets, as games send them: idle, burst, cooldown.
//!
//! Sampled quantities come in as arguments, already cut down to whole units. Times are
//! in microseconds unless a name says otherwise.

use std::collections::VecDeque;

use crate::masking::packet::write_segment;
#[allow(unused_imports)]
use crate::masking::packet;
use crate::masking::profiles::{BurstPatternDef, GamingProfile, GaussianComponentDef};
#[allow(unused_imports)]
use crate::utils::bytes;
use crate::utils::bytes::{copy_range, split_chunks, truncate_u32};
use crate::utils::random::{random_between, random_bytes};
#[allow(unused_imports)]
use crate::utils::text;
use crate::utils::text::{contains, to_lower};
use crate::utils::{PhantomError, PhantomResult};
use vstd::prelude::*;

verus! {

// ---- Model ----

#[derive(Debug, Clone, Copy, PartialEq, Eq, Structural)]
pub enum BurstType {
    Shooting,
    Movement,
    MapLoad,
    VoiceChat,
    Inventory,
}

impl BurstType {
    pub open spec fn label(self) -> Seq<char> {
        match self {
            BurstType::Shooting => "shooting"@,
            BurstType::Movement => "movement"@,
            BurstType::MapLoad => "map_load"@,
            BurstType::VoiceChat => "voice_chat"@,
            BurstType::Inventory => "inventory"@,
        }
    }

    pub fn to_text(&self) -> (s: String)
        ensures
            s@ == self.label(),
    {
        match self {
            BurstType::Shooting => "shooting".to_string(),
            BurstType::Movement => "movement".to_string(),
            BurstType::MapLoad => "map_load".to_string(),
            BurstType::VoiceChat => "voice_chat".to_string(),
            BurstType::Inventory => "inventory".to_string(),
        }
    }

    /// Fewest and most packets that one tick of such a burst sends.
    pub open spec fn tick_range(self) -> (int, int) {
        match self {
            BurstType::Shooting => (1, 3),
            BurstType::Movement => (1, 2),
            BurstType::MapLoad => (2, 5),
            BurstType::VoiceChat => (1, 1),
            BurstType::Inventory => (1, 2),
        }
    }

    /// A drawn number of packets for one tick.
    fn draw_tick(self) -> (n: usize)
        ensures
            self.tick_range().0 <= n <= self.tick_range().1,
    {
        match self {
            BurstType::Shooting => random_between(1, 3) as usize,
            BurstType::Movement => random_between(1, 2) as usize,
            BurstType::MapLoad => random_between(2, 5) as usize,
            BurstType::VoiceChat => 1,
            BurstType::Inventory => random_between(1, 2) as usize,
        }
    }

    /// Mean and deviation, in milliseconds, of the cooldown after such a burst.
    pub open spec fn cooldown_law_ms(self) -> (u64, u64) {
        match self {
            BurstType::Shooting => (3000, 800),
            BurstType::Movement => (1500, 640),
            BurstType::MapLoad => (3750, 960),
            BurstType::VoiceChat => (1000, 400),
            BurstType::Inventory => (2000, 480),
        }
    }

    /// Mean and deviation, in milliseconds, of the cooldown after such a burst.
    pub fn cooldown_ms(self) -> (r: (u64, u64))
        ensures
            r == self.cooldown_law_ms(),
    {
        match self {
            BurstType::Shooting => (3000, 800),
            BurstType::Movement => (1500, 640),
            BurstType::MapLoad => (3750, 960),
            BurstType::VoiceChat => (1000, 400),
            BurstType::Inventory => (2000, 480),
        }
    }

    /// Tenths to which packets shrink in the cooldown after such a burst.
    pub open spec fn shrinks_to(self) -> int {
        match self {
            BurstType::Shooting => 7,
            BurstType::Movement => 8,
            BurstType::MapLoad => 5,
            BurstType::VoiceChat => 9,
            BurstType::Inventory => 6,
        }
    }

    /// Tenths to which packets shrink in the cooldown after such a burst.
    fn cooldown_size_tenths(self) -> (t: u64)
        ensures
            t == self.shrinks_to(),
    {
        match self {
            BurstType::Shooting => 7,
            BurstType::Movement => 8,
            BurstType::MapLoad => 5,
            BurstType::VoiceChat => 9,
            BurstType::Inventory => 6,
        }
    }
}

/// Whether any of three words stands in the text.
pub open spec fn has_any(s: Seq<char>, a: Seq<char>, b: Seq<char>, c: Seq<char>) -> bool {
    text::has_text(s, a) || text::has_text(s, b) || text::has_text(s, c)
}

/// The kind of burst that a name in small letters stands for.
pub open spec fn burst_type_of(lower: Seq<char>) -> BurstType {
    if has_any(lower, "shoot"@, "fire"@, "attack"@) {
        BurstType::Shooting
    } else if has_any(lower, "move"@, "position"@, "position"@) {
        BurstType::Movement
    } else if has_any(lower, "map"@, "load"@, "chunk"@) {
        BurstType::MapLoad
    } else if has_any(lower, "voice"@, "chat"@, "audio"@) {
        BurstType::VoiceChat
    } else if has_any(lower, "inventory"@, "menu"@, "item"@) {
        BurstType::Inventory
    } else {
        BurstType::Movement
    }
}

/// The kind of burst that a name in small letters stands for.
pub fn classify_lowercase(n: &str) -> (t: BurstType)
    ensures
        t == burst_type_of(n@),
{
    if contains(n, "shoot") || contains(n, "fire") || contains(n, "attack") {
        BurstType::Shooting
    } else if contains(n, "move") || contains(n, "position") {
        BurstType::Movement
    } else if contains(n, "map") || contains(n, "load") || contains(n, "chunk") {
        BurstType::MapLoad
    } else if contains(n, "voice") || contains(n, "chat") || contains(n, "audio") {
        BurstType::VoiceChat
    } else if contains(n, "inventory") || contains(n, "menu") || contains(n, "item") {
        BurstType::Inventory
    } else {
        BurstType::Movement
    }
}

#[derive(Debug, Clone, Copy, PartialEq, Eq)]
pub struct TimingBin {
    pub time_us: u64,
    pub probability_micro: u64,
    pub cumulative_micro: u64,
}

#[derive(Debug)]
pub struct BurstPatternModel {
    pub name: String,
    pub burst_type: BurstType,
    pub packet_count_min: usize,
    pub packet_count_max: usize,
    pub inter_packet_delay_min_us: u64,
    pub inter_packet_delay_max_us: u64,
    pub size_min: usize,
    pub size_max: usize,
    pub probability_micro: u64,
    pub cumulative_micro: u64,
}

#[derive(Debug)]
pub struct StatisticalGameTrafficModel {
    pub game_name: String,
    pub size_components: Vec<GaussianComponentDef>,
    pub timing_bins: Vec<TimingBin>,
    pub burst_patterns: Vec<BurstPatternModel>,
    /// What the cumulative probabilities of the patterns are fractions of.
    pub probability_scale_micro: u64,
    pub client_ratio_micro: u64,
    pub server_ratio_micro: u64,
    pub mean_entropy_micro: u64,
    pub entropy_std_micro: u64,
    pub cooldown_duration_mean_ms: u64,
    pub cooldown_duration_std_ms: u64,
    pub inter_burst_interval_mean_s: u64,
    pub inter_burst_interval_std_s: u64,
}

/// The first `n` probabilities of the patterns, added up.
pub open spec fn pattern_mass(patterns: Seq<BurstPatternDef>, n: int) -> int
    decreases n,
{
    if n <= 0 {
        0
    } else {
        pattern_mass(patterns, n - 1) + patterns[n - 1].probability_micro
    }
}

/// The first `n` probabilities of the timing bins, added up.
pub open spec fn timing_mass(
    bins: Seq<crate::masking::profiles::TimingBinDef>,
    n: int,
) -> int
    decreases n,
{
    if n <= 0 {
        0
    } else {
        timing_mass(bins, n - 1) + bins[n - 1].probability_micro
    }
}

/// What cumulative probabilities are fractions of: one, unless the probabilities add
/// up to something more than a hundredth away from one.
pub open spec fn scale_of(total: int) -> int {
    if total > 0 && (total < 990_000 || total > 1_010_000) {
        total
    } else {
        1_000_000
    }
}

/// Whether the ranges of a pattern run upwards and their ends can be added.
pub open spec fn ranges_ordered(d: BurstPatternDef) -> bool {
    &&& d.packet_count_range.0 <= d.packet_count_range.1
    &&& d.packet_count_range.0 + d.packet_count_range.1 <= usize::MAX
    &&& d.inter_packet_time_range_us.0 <= d.inter_packet_time_range_us.1
    &&& d.inter_packet_time_range_us.0 + d.inter_packet_time_range_us.1 <= u64::MAX
    &&& d.size_range.0 <= d.size_range.1
    &&& d.size_range.0 + d.size_range.1 <= usize::MAX
}

/// Whether no distribution can be fitted to the packet counts or gaps of a pattern:
/// they are all zero.
pub open spec fn pattern_is_flat(d: BurstPatternDef) -> bool {
    d.packet_count_range.1 == 0 || d.inter_packet_time_range_us.1 == 0
}

/// Whether `m` is the model of pattern `i`.
pub open spec fn pattern_models(
    m: BurstPatternModel,
    patterns: Seq<BurstPatternDef>,
    i: int,
) -> bool {
    let d = patterns[i];
    &&& m.name@ == d.name@
    &&& m.burst_type == burst_type_of(text::lowercase(d.name@))
    &&& m.packet_count_min == d.packet_count_range.0
    &&& m.packet_count_max == d.packet_count_range.1
    &&& m.inter_packet_delay_min_us == d.inter_packet_time_range_us.0
    &&& m.inter_packet_delay_max_us == d.inter_packet_time_range_us.1
    &&& m.size_min == d.size_range.0
    &&& m.size_max == d.size_range.1
    &&& m.probability_micro == d.probability_micro
    &&& m.cumulative_micro == pattern_mass(patterns, i + 1)
}

/// The text of the error for the first flat pattern.
pub open spec fn flat_pattern_error(d: BurstPatternDef) -> Seq<char> {
    if d.packet_count_range.1 == 0 {
        "Invalid gamma distribution for packet count: shape is not positive in gamma distribution"@
    } else {
        "Invalid gamma distribution for inter-packet delay: shape is not positive in gamma distribution"@
    }
}

/// Index of the first flat pattern, or the number of patterns.
pub open spec fn first_flat(patterns: Seq<BurstPatternDef>, from: int) -> int
    decreases patterns.len() - from,
{
    if from >= patterns.len() || pattern_is_flat(patterns[from]) {
        from
    } else {
        first_flat(patterns, from + 1)
    }
}

/// Probability masses only grow.
proof fn lemma_mass_grows(patterns: Seq<BurstPatternDef>, i: int, j: int)
    requires
        0 <= i <= j <= patterns.len(),
    ensures
        0 <= pattern_mass(patterns, i) <= pattern_mass(patterns, j),
    decreases j,
{
    if i < j {
        lemma_mass_grows(patterns, i, j - 1);
    } else if i > 0 {
        lemma_mass_grows(patterns, i - 1, i - 1);
    }
}

proof fn lemma_timing_mass_grows(
    bins: Seq<crate::masking::profiles::TimingBinDef>,
    i: int,
    j: int,
)
    requires
        0 <= i <= j <= bins.len(),
    ensures
        0 <= timing_mass(bins, i) <= timing_mass(bins, j),
    decreases j,
{
    if i < j {
        lemma_timing_mass_grows(bins, i, j - 1);
    } else if i > 0 {
        lemma_timing_mass_grows(bins, i - 1, i - 1);
    }
}

/// The least of the first `n` components' means less three deviations, in millionths.
pub open spec fn lowest(c: Seq<GaussianComponentDef>, n: int) -> int
    decreases n,
{
    let here = c[n - 1].mean_micro - 3 * c[n - 1].std_dev_micro;
    if n <= 1 || here < lowest(c, n - 1) {
        here
    } else {
        lowest(c, n - 1)
    }
}

/// The greatest of the first `n` components' means and three deviations, in millionths.
pub open spec fn highest(c: Seq<GaussianComponentDef>, n: int) -> int
    decreases n,
{
    let here = c[n - 1].mean_micro + 3 * c[n - 1].std_dev_micro;
    if n <= 1 || here > highest(c, n - 1) {
        here
    } else {
        highest(c, n - 1)
    }
}

/// The least size of a packet outside of bursts, in millionths: no less than 32 bytes.
pub open spec fn idle_low(c: Seq<GaussianComponentDef>) -> int {
    if lowest(c, c.len() as int) < 32_000_000 {
        32_000_000
    } else {
        lowest(c, c.len() as int)
    }
}

/// The greatest size of a packet outside of bursts, in millionths: no more than 1500 bytes.
pub open spec fn idle_high(c: Seq<GaussianComponentDef>) -> int {
    if highest(c, c.len() as int) > 1_500_000_000 {
        1_500_000_000
    } else {
        highest(c, c.len() as int)
    }
}

/// Whether there are sizes for packets outside of bursts.
pub open spec fn has_idle_sizes(c: Seq<GaussianComponentDef>) -> bool {
    c.len() > 0 && idle_low(c) <= idle_high(c)
}

/// A drawn size, moved to where sizes outside of bursts are.
pub open spec fn idle_size(c: Seq<GaussianComponentDef>, drawn: int) -> int {
    clamp(drawn, idle_low(c) / 1_000_000, idle_high(c) / 1_000_000)
}

/// The first `n` weights, added up.
pub open spec fn weight_mass(c: Seq<GaussianComponentDef>, n: int) -> int
    decreases n,
{
    if n <= 0 {
        0
    } else {
        weight_mass(c, n - 1) + c[n - 1].weight_micro
    }
}

/// The component that a roll out of 2^52 selects, from index `i` on: the first up to which
/// the weights are no less a part of all than the roll.
pub open spec fn component_index(c: Seq<GaussianComponentDef>, roll: int, i: int) -> int
    decreases c.len() - i,
{
    if i >= c.len() - 1 {
        c.len() - 1
    } else if roll * weight_mass(c, c.len() as int) <= weight_mass(c, i + 1) * 0x10_0000_0000_0000 {
        i
    } else {
        component_index(c, roll, i + 1)
    }
}

proof fn lemma_weight_grows(c: Seq<GaussianComponentDef>, i: int, j: int)
    requires
        0 <= i <= j <= c.len(),
    ensures
        0 <= weight_mass(c, i) <= weight_mass(c, j),
    decreases j,
{
    if i < j {
        lemma_weight_grows(c, i, j - 1);
    } else if i > 0 {
        lemma_weight_grows(c, i - 1, i - 1);
    }
}

impl StatisticalGameTrafficModel {
    /// What the engine relies on: ranges run upwards, and a cooldown has a usual length.
    pub open spec fn wf(&self) -> bool {
        &&& 0 < self.cooldown_duration_mean_ms <= u32::MAX
        &&& forall|i: int|
            0 <= i < self.burst_patterns@.len() ==> {
                &&& (#[trigger] self.burst_patterns@[i]).packet_count_min
                    <= self.burst_patterns@[i].packet_count_max
                &&& self.burst_patterns@[i].inter_packet_delay_min_us
                    <= self.burst_patterns@[i].inter_packet_delay_max_us
                &&& self.burst_patterns@[i].size_min <= self.burst_patterns@[i].size_max
            }
    }

    /// How far sizes outside of bursts reach, before they are moved into their limits.
    fn idle_reach(&self) -> (r: (i128, i128))
        requires
            self.size_components@.len() > 0,
        ensures
            r.0 == lowest(self.size_components@, self.size_components@.len() as int),
            r.1 == highest(self.size_components@, self.size_components@.len() as int),
    {
        let first = self.size_components[0];
        let mut low: i128 = first.mean_micro as i128 - 3 * (first.std_dev_micro as i128);
        let mut high: i128 = first.mean_micro as i128 + 3 * (first.std_dev_micro as i128);
        let mut i: usize = 1;
        while i < self.size_components.len()
            invariant
                1 <= i <= self.size_components@.len(),
                low == lowest(self.size_components@, i as int),
                high == highest(self.size_components@, i as int),
            decreases self.size_components@.len() - i,
        {
            let c = self.size_components[i];
            let here_low: i128 = c.mean_micro as i128 - 3 * (c.std_dev_micro as i128);
            let here_high: i128 = c.mean_micro as i128 + 3 * (c.std_dev_micro as i128);
            if here_low < low {
                low = here_low;
            }
            if here_high > high {
                high = here_high;
            }
            i = i + 1;
        }
        (low, high)
    }

    /// Whether there are sizes for packets outside of bursts.
    pub fn idles(&self) -> (b: bool)
        ensures
            b == has_idle_sizes(self.size_components@),
    {
        if self.size_components.len() == 0 {
            return false;
        }
        let (low, high): (i128, i128) = self.idle_reach();
        let least: i128 = if low < 32_000_000 {
            32_000_000
        } else {
            low
        };
        let most: i128 = if high > 1_500_000_000 {
            1_500_000_000
        } else {
            high
        };
        least <= most
    }

    /// A size drawn for a packet outside of bursts, moved to where such sizes are: within
    /// three deviations of some component's mean, and within 32 to 1500 bytes.
    pub fn idle_packet_size(&self, drawn: usize) -> (size: usize)
        requires
            has_idle_sizes(self.size_components@),
        ensures
            size == idle_size(self.size_components@, drawn as int),
            32 <= size <= 1500,
    {
        let (low, high): (i128, i128) = self.idle_reach();
        let low_size: i128 = if low < 32_000_000 {
            32
        } else {
            low / 1_000_000
        };
        let high_size: i128 = if high > 1_500_000_000 {
            1500
        } else {
            high / 1_000_000
        };
        clamp_usize(drawn, low_size as usize, high_size as usize)
    }

    /// The component that a size outside of bursts is drawn from, for a roll out of 2^52.
    pub fn idle_component(&self, roll: u64) -> (index: usize)
        requires
            self.size_components@.len() > 0,
            weight_mass(self.size_components@, self.size_components@.len() as int) <= u64::MAX,
            roll < 0x10_0000_0000_0000,
        ensures
            index == component_index(self.size_components@, roll as int, 0),
            index < self.size_components@.len(),
    {
        let ghost c = self.size_components@;
        let n: usize = self.size_components.len();
        let mut total: u64 = 0;
        let mut i: usize = 0;
        while i < n
            invariant
                i <= n,
                n == c.len(),
                c == self.size_components@,
                weight_mass(c, n as int) <= u64::MAX,
                total == weight_mass(c, i as int),
            decreases n - i,
        {
            proof {
                lemma_weight_grows(c, i + 1, n as int);
            }
            total = total + self.size_components[i].weight_micro;
            i = i + 1;
        }
        assert(0 <= roll * total <= 0x10_0000_0000_0000 * 0x1_0000_0000_0000_0000)
            by (nonlinear_arith)
            requires
                0 <= roll <= 0x10_0000_0000_0000,
                0 <= total <= 0x1_0000_0000_0000_0000,
        ;
        let part: u128 = (roll as u128) * (total as u128);
        let mut cumulative: u64 = 0;
        let mut k: usize = 0;
        while k < n - 1
            invariant
                k < n,
                n == c.len(),
                c == self.size_components@,
                weight_mass(c, n as int) == total,
                part == roll * total,
                cumulative == weight_mass(c, k as int),
                component_index(c, roll as int, 0) == component_index(c, roll as int, k as int),
            decreases n - k,
        {
            proof {
                lemma_weight_grows(c, k + 1, n as int);
            }
            cumulative = cumulative + self.size_components[k].weight_micro;
            if part <= (cumulative as u128) * 0x10_0000_0000_0000u128 {
                return k;
            }
            k = k + 1;
        }
        k
    }

    /// The model of a profile.
    pub fn from_profile(profile: &GamingProfile) -> (r: PhantomResult<Self>)
        requires
            forall|i: int|
                0 <= i < profile.burst_patterns@.len() ==> ranges_ordered(
                    #[trigger] profile.burst_patterns@[i],
                ),
            pattern_mass(profile.burst_patterns@, profile.burst_patterns@.len() as int)
                <= u64::MAX,
            timing_mass(profile.timing_distribution@, profile.timing_distribution@.len() as int)
                <= u64::MAX,
        ensures
            r is Ok <==> first_flat(profile.burst_patterns@, 0) == profile.burst_patterns@.len(),
            r matches Err(e) ==> e.is_config(
                flat_pattern_error(
                    profile.burst_patterns@[first_flat(profile.burst_patterns@, 0)],
                ),
            ),
            r matches Ok(m) ==> {
                &&& m.wf()
                &&& m.game_name@ == profile.name@
                &&& m.size_components@ == profile.size_distribution@
                &&& m.timing_bins@.len() == profile.timing_distribution@.len()
                &&& forall|i: int|
                    0 <= i < m.timing_bins@.len() ==> #[trigger] m.timing_bins@[i] == (TimingBin {
                        time_us: profile.timing_distribution@[i].time_us,
                        probability_micro: profile.timing_distribution@[i].probability_micro,
                        cumulative_micro: timing_mass(profile.timing_distribution@, i + 1) as u64,
                    })
                &&& m.burst_patterns@.len() == profile.burst_patterns@.len()
                &&& forall|i: int|
                    0 <= i < m.burst_patterns@.len() ==> pattern_models(
                        #[trigger] m.burst_patterns@[i],
                        profile.burst_patterns@,
                        i,
                    )
                &&& m.probability_scale_micro == scale_of(
                    pattern_mass(profile.burst_patterns@, profile.burst_patterns@.len() as int),
                )
                &&& m.client_ratio_micro == profile.client_server_size_ratio_micro.0
                &&& m.server_ratio_micro == profile.client_server_size_ratio_micro.1
                &&& match profile.entropy_profile {
                    Some(e) => m.mean_entropy_micro == e.mean_entropy_micro && m.entropy_std_micro
                        == e.entropy_std_micro,
                    None => m.mean_entropy_micro == 7_000_000 && m.entropy_std_micro == 300_000,
                }
                &&& m.cooldown_duration_mean_ms == 2500
                &&& m.cooldown_duration_std_ms == 800
                &&& m.inter_burst_interval_mean_s == 8
                &&& m.inter_burst_interval_std_s == 4
            },
    {
        let mut timing_bins: Vec<TimingBin> = Vec::new();
        let mut cumulative: u64 = 0;
        let mut i: usize = 0;
        while i < profile.timing_distribution.len()
            invariant
                i <= profile.timing_distribution@.len(),
                timing_mass(
                    profile.timing_distribution@,
                    profile.timing_distribution@.len() as int,
                ) <= u64::MAX,
                cumulative == timing_mass(profile.timing_distribution@, i as int),
                timing_bins@.len() == i,
                forall|k: int|
                    0 <= k < i ==> #[trigger] timing_bins@[k] == (TimingBin {
                        time_us: profile.timing_distribution@[k].time_us,
                        probability_micro: profile.timing_distribution@[k].probability_micro,
                        cumulative_micro: timing_mass(profile.timing_distribution@, k + 1) as u64,
                    }),
            decreases profile.timing_distribution@.len() - i,
        {
            let bin = profile.timing_distribution[i];
            proof {
                lemma_timing_mass_grows(
                    profile.timing_distribution@,
                    i + 1,
                    profile.timing_distribution@.len() as int,
                );
            }
            cumulative = cumulative + bin.probability_micro;
            timing_bins.push(
                TimingBin {
                    time_us: bin.time_us,
                    probability_micro: bin.probability_micro,
                    cumulative_micro: cumulative,
                },
            );
            i = i + 1;
        }
        let (burst_patterns, probability_scale_micro) = Self::build_burst_pattern_models(
            &profile.burst_patterns,
        )?;
        let (mean_entropy_micro, entropy_std_micro) = match &profile.entropy_profile {
            Some(e) => (e.mean_entropy_micro, e.entropy_std_micro),
            None => (7_000_000u64, 300_000u64),
        };
        let size_components = vstd::slice::slice_to_vec(profile.size_distribution.as_slice());
        Ok(
            StatisticalGameTrafficModel {
                game_name: profile.name.clone(),
                size_components,
                timing_bins,
                burst_patterns,
                probability_scale_micro,
                client_ratio_micro: profile.client_server_size_ratio_micro.0,
                server_ratio_micro: profile.client_server_size_ratio_micro.1,
                mean_entropy_micro,
                entropy_std_micro,
                cooldown_duration_mean_ms: 2500,
                cooldown_duration_std_ms: 800,
                inter_burst_interval_mean_s: 8,
                inter_burst_interval_std_s: 4,
            },
        )
    }

    /// The models of the patterns, and what their cumulative probabilities are
    /// fractions of. Fails on the first pattern that no distribution fits.
    pub fn build_burst_pattern_models(patterns: &Vec<BurstPatternDef>) -> (r: PhantomResult<
        (Vec<BurstPatternModel>, u64),
    >)
        requires
            forall|i: int|
                0 <= i < patterns@.len() ==> ranges_ordered(#[trigger] patterns@[i]),
            pattern_mass(patterns@, patterns@.len() as int) <= u64::MAX,
        ensures
            r is Ok <==> first_flat(patterns@, 0) == patterns@.len(),
            r matches Err(e) ==> e.is_config(
                flat_pattern_error(patterns@[first_flat(patterns@, 0)]),
            ),
            r matches Ok((models, scale)) ==> {
                &&& models@.len() == patterns@.len()
                &&& forall|i: int|
                    0 <= i < models@.len() ==> pattern_models(#[trigger] models@[i], patterns@, i)
                &&& scale == scale_of(pattern_mass(patterns@, patterns@.len() as int))
            },
    {
        let mut models: Vec<BurstPatternModel> = Vec::new();
        let mut cumulative: u64 = 0;
        let mut i: usize = 0;
        while i < patterns.len()
            invariant
                i <= patterns@.len(),
                pattern_mass(patterns@, patterns@.len() as int) <= u64::MAX,
                cumulative == pattern_mass(patterns@, i as int),
                first_flat(patterns@, 0) == first_flat(patterns@, i as int),
                models@.len() == i,
                forall|k: int|
                    0 <= k < i ==> pattern_models(#[trigger] models@[k], patterns@, k),
            decreases patterns@.len() - i,
        {
            let def = &patterns[i];
            let burst_type = Self::classify_burst_type(def.name.as_str());
            if def.packet_count_range.1 == 0 {
                return Err(
                    PhantomError::ConfigError(
                        "Invalid gamma distribution for packet count: shape is not positive in gamma distribution".to_string(),
                    ),
                );
            }
            if def.inter_packet_time_range_us.1 == 0 {
                return Err(
                    PhantomError::ConfigError(
                        "Invalid gamma distribution for inter-packet delay: shape is not positive in gamma distribution".to_string(),
                    ),
                );
            }
            proof {
                lemma_mass_grows(patterns@, i + 1, patterns@.len() as int);
            }
            cumulative = cumulative + def.probability_micro;
            models.push(
                BurstPatternModel {
                    name: def.name.clone(),
                    burst_type,
                    packet_count_min: def.packet_count_range.0,
                    packet_count_max: def.packet_count_range.1,
                    inter_packet_delay_min_us: def.inter_packet_time_range_us.0,
                    inter_packet_delay_max_us: def.inter_packet_time_range_us.1,
                    size_min: def.size_range.0,
                    size_max: def.size_range.1,
                    probability_micro: def.probability_micro,
                    cumulative_micro: cumulative,
                },
            );
            i = i + 1;
        }
        let scale: u64 = if cumulative > 0 && (cumulative < 990_000 || cumulative > 1_010_000) {
            cumulative
        } else {
            1_000_000
        };
        Ok((models, scale))
    }

    /// The kind of burst that a pattern's name stands for.
    pub fn classify_burst_type(name: &str) -> (t: BurstType)
        ensures
            t == burst_type_of(text::lowercase(name@)),
            name.is_ascii() ==> t == burst_type_of(
                name@.map_values(|c: char| text::ascii_lower(c)),
            ),
    {
        let lower = to_lower(name);
        classify_lowercase(lower.as_str())
    }
}

// ---- State ----

#[derive(Debug, Clone, Copy, PartialEq, Eq, Structural)]
pub enum BurstState {
    Idle { last_activity_us: u64, time_since_last_burst_us: u64 },
    BurstActive {
        packets_remaining: usize,
        inter_packet_delay_us: u64,
        burst_type: BurstType,
        current_packet_index: usize,
        total_packets: usize,
    },
    PostBurstCooldown { cooldown_remaining_us: u64, burst_type_just_finished: BurstType },
}

#[allow(inconsistent_fields)]
#[derive(Debug)]
pub enum PacketAction {
    Send { data: Vec<u8>, delay_us: u64 },
    Pad { size: usize, delay_us: u64 },
    Split { data: Vec<Vec<u8>>, delay_us: u64 },
    Keepalive { delay_us: u64 },
}

/// What was sampled for one round of the engine.
#[derive(Debug, Clone, Copy)]
pub struct BurstSamples {
    /// The monotonic clock.
    pub now_us: u64,
    /// The wall clock, for packet headers.
    pub clock_ms: u32,
    /// Time between bursts.
    pub inter_burst_ms: u64,
    /// Packets in a new burst.
    pub packet_count: usize,
    /// Gap between packets of a new burst.
    pub inter_packet_delay_ms: u64,
    /// Packet sizes in a burst.
    pub burst_sizes: [usize; 5],
    /// Packet sizes while idle, as they were drawn.
    pub idle_sizes: [usize; 2],
    /// Delays while idle.
    pub idle_delays_ms: [u64; 2],
    /// Length of a new cooldown.
    pub cooldown_ms: u64,
    /// Packet size in a cooldown, drawn as one while idle is.
    pub cooldown_size: usize,
    /// Delay in a cooldown.
    pub cooldown_delay_ms: u64,
}

/// `x` moved into `low..=high`.
pub open spec fn clamp(x: int, low: int, high: int) -> int {
    if x < low {
        low
    } else if x > high {
        high
    } else {
        x
    }
}

fn clamp_u64(x: u64, low: u64, high: u64) -> (r: u64)
    ensures
        r == clamp(x as int, low as int, high as int),
{
    if x < low {
        low
    } else if x > high {
        high
    } else {
        x
    }
}

fn clamp_usize(x: usize, low: usize, high: usize) -> (r: usize)
    ensures
        r == clamp(x as int, low as int, high as int),
{
    if x < low {
        low
    } else if x > high {
        high
    } else {
        x
    }
}

/// Time since an earlier reading of the clock.
pub open spec fn since(now_us: u64, then_us: u64) -> int {
    if now_us >= then_us {
        now_us - then_us
    } else {
        0
    }
}

// ---- What each round does ----

/// An action as planned: a filler packet's bytes are left open.
pub enum Planned {
    Send { data: Seq<u8>, delay_us: int },
    Filler { size: int, delay_us: int, sn: u32 },
    Pad { size: int, delay_us: int },
    Split { pieces: Seq<Seq<u8>>, delay_us: int },
    Keepalive { delay_us: int },
}

/// A filler long enough for a header is a segment that acknowledges what came before
/// it; a shorter one is only as long as planned.
pub open spec fn is_filler(data: Seq<u8>, size: int, clock_ms: u32, sn: u32) -> bool {
    if size >= 24 {
        exists|conv: u32, noise: Seq<u8>|
            conv >= 1 && noise.len() == size - 24 && data == #[trigger] filler_segment(
                conv,
                clock_ms,
                sn,
                noise,
            )
    } else {
        data.len() == size
    }
}

pub open spec fn filler_segment(conv: u32, clock_ms: u32, sn: u32, noise: Seq<u8>) -> Seq<u8> {
    let una = if sn == 0 {
        0
    } else {
        (sn - 1) as u32
    };
    packet::segment(conv, 0, clock_ms, sn, una, bytes::low_u32(24 + noise.len() as int), noise)
}

/// Whether an action is what was planned.
pub open spec fn performs(a: PacketAction, p: Planned, clock_ms: u32) -> bool {
    match p {
        Planned::Send { data, delay_us } => a matches PacketAction::Send {
            data: d,
            delay_us: t,
        } && d@ == data && t == delay_us,
        Planned::Filler { size, delay_us, sn } => a matches PacketAction::Send {
            data: d,
            delay_us: t,
        } && is_filler(d@, size, clock_ms, sn) && t == delay_us,
        Planned::Pad { size, delay_us } => a matches PacketAction::Pad { size: n, delay_us: t } && n
            == size && t == delay_us,
        Planned::Split { pieces, delay_us } => a matches PacketAction::Split {
            data: d,
            delay_us: t,
        } && bytes::views(d@) == pieces && t == delay_us,
        Planned::Keepalive { delay_us } => a matches PacketAction::Keepalive { delay_us: t } && t
            == delay_us,
    }
}

/// Whether the actions are those planned, one for one.
pub open spec fn performs_all(
    actions: Seq<PacketAction>,
    planned: Seq<Planned>,
    clock_ms: u32,
) -> bool {
    actions.len() == planned.len() && forall|i: int|
        0 <= i < actions.len() ==> performs(#[trigger] actions[i], planned[i], clock_ms)
}

/// The queued data that planned actions carry, in order.
pub open spec fn carried(planned: Seq<Planned>) -> Seq<u8>
    decreases planned.len(),
{
    if planned.len() == 0 {
        Seq::empty()
    } else {
        carried(planned.drop_last()) + match planned.last() {
            Planned::Send { data, .. } => data,
            Planned::Split { pieces, .. } => bytes::concat(pieces),
            _ => Seq::empty(),
        }
    }
}

/// The part of the engine that a round changes.
pub struct Round {
    pub state: BurstState,
    pub pending: Seq<Seq<u8>>,
    pub sn: u32,
    pub bursts: u64,
    pub last_check_us: u64,
}

/// The queue after taking in a message.
pub open spec fn enqueued(pending: Seq<Seq<u8>>, data: Seq<u8>) -> Seq<Seq<u8>> {
    if data.len() == 0 {
        pending
    } else {
        pending.push(data)
    }
}

/// The pattern that a roll of `roll` out of 2^52 selects, from index `i` on: the first
/// whose cumulative probability the roll does not exceed, else the last.
pub open spec fn pattern_index(
    patterns: Seq<BurstPatternModel>,
    scale: int,
    roll: int,
    i: int,
) -> int
    decreases patterns.len() - i,
{
    if i >= patterns.len() - 1 {
        patterns.len() - 1
    } else if roll * scale <= patterns[i].cumulative_micro * 0x10_0000_0000_0000 {
        i
    } else {
        pattern_index(patterns, scale, roll, i + 1)
    }
}

/// The first pattern of a type, or the first pattern of all.
pub open spec fn pattern_of_type(
    patterns: Seq<BurstPatternModel>,
    burst_type: BurstType,
    i: int,
) -> int
    decreases patterns.len() - i,
{
    if i >= patterns.len() {
        0
    } else if patterns[i].burst_type == burst_type {
        i
    } else {
        pattern_of_type(patterns, burst_type, i + 1)
    }
}

/// The round after the state had its chance to change: an idle engine starts a burst
/// when data waits or the time between bursts is over, a finished burst cools down, a
/// finished cooldown goes idle.
pub open spec fn transitioned(
    r: Round,
    model: StatisticalGameTrafficModel,
    samples: BurstSamples,
    roll: int,
) -> Round {
    let patterns = model.burst_patterns@;
    match r.state {
        BurstState::Idle { .. } => {
            let due = since(samples.now_us, r.last_check_us) >= 1000 * clamp(
                samples.inter_burst_ms as int,
                1000,
                30000,
            );
            if patterns.len() > 0 && (due || r.pending.len() > 0) {
                let p = patterns[pattern_index(
                    patterns,
                    model.probability_scale_micro as int,
                    roll,
                    0,
                )];
                let count = clamp(
                    samples.packet_count as int,
                    p.packet_count_min as int,
                    p.packet_count_max as int,
                ) as usize;
                Round {
                    state: BurstState::BurstActive {
                        packets_remaining: count,
                        inter_packet_delay_us: (1000 * clamp(
                            samples.inter_packet_delay_ms as int,
                            p.inter_packet_delay_min_us as int / 1000,
                            p.inter_packet_delay_max_us as int / 1000,
                        )) as u64,
                        burst_type: p.burst_type,
                        current_packet_index: 0,
                        total_packets: count,
                    },
                    bursts: ((r.bursts + 1) % 0x1_0000_0000_0000_0000) as u64,
                    last_check_us: samples.now_us,
                    ..r
                }
            } else {
                r
            }
        },
        BurstState::BurstActive { packets_remaining, burst_type, .. } => {
            if packets_remaining == 0 {
                Round {
                    state: BurstState::PostBurstCooldown {
                        cooldown_remaining_us: (1000 * clamp(
                            samples.cooldown_ms as int,
                            500,
                            8000,
                        )) as u64,
                        burst_type_just_finished: burst_type,
                    },
                    ..r
                }
            } else {
                r
            }
        },
        BurstState::PostBurstCooldown { cooldown_remaining_us, .. } => {
            if cooldown_remaining_us == 0 {
                Round {
                    state: BurstState::Idle {
                        last_activity_us: samples.now_us,
                        time_since_last_burst_us: 0,
                    },
                    ..r
                }
            } else {
                r
            }
        },
    }
}

/// The next sequence number after a filler of this size: only a filler with a header
/// uses one up.
pub open spec fn sn_after(sn: u32, size: int) -> u32 {
    if size >= 24 {
        bytes::low_u32(sn + 1)
    } else {
        sn
    }
}

/// A queue, the next sequence number, and what has been planned so far.
pub struct Progress {
    pub pending: Seq<Seq<u8>>,
    pub sn: u32,
    pub actions: Seq<Planned>,
}

/// The first `n` packets of a tick of a burst. Queued data goes first: in pieces where
/// it is longer than its packet, with padding behind it where it is shorter. Without
/// data a filler goes.
pub open spec fn burst_sent(
    start: Progress,
    pattern: BurstPatternModel,
    samples: BurstSamples,
    delay_us: int,
    n: int,
) -> Progress
    decreases n,
{
    if n <= 0 {
        start
    } else {
        let p = burst_sent(start, pattern, samples, delay_us, n - 1);
        let size = clamp(
            samples.burst_sizes@[n - 1] as int,
            pattern.size_min as int,
            pattern.size_max as int,
        );
        let delay = if n == 1 {
            delay_us
        } else {
            delay_us * 3 / 5
        };
        if p.pending.len() == 0 {
            Progress {
                pending: p.pending,
                sn: sn_after(p.sn, size),
                actions: p.actions.push(Planned::Filler { size, delay_us: delay, sn: p.sn }),
            }
        } else {
            let data = p.pending[0];
            let rest = p.pending.subrange(1, p.pending.len() as int);
            if data.len() > size {
                Progress {
                    pending: rest,
                    sn: p.sn,
                    actions: p.actions.push(
                        Planned::Split {
                            pieces: bytes::split_at_size(data, size),
                            delay_us: delay,
                        },
                    ),
                }
            } else {
                let sent = p.actions.push(Planned::Send { data, delay_us: delay });
                Progress {
                    pending: rest,
                    sn: p.sn,
                    actions: if data.len() < size {
                        sent.push(Planned::Pad { size: size - data.len(), delay_us: 100 })
                    } else {
                        sent
                    },
                }
            }
        }
    }
}

/// The first `n` messages released while idle: each cut off at its packet's size, with
/// the rest put back in front, or padded behind.
pub open spec fn idle_sent(
    start: Progress,
    model: StatisticalGameTrafficModel,
    samples: BurstSamples,
    n: int,
) -> Progress
    decreases n,
{
    if n <= 0 {
        start
    } else {
        let p = idle_sent(start, model, samples, n - 1);
        let size = idle_size(model.size_components@, samples.idle_sizes@[n - 1] as int);
        let delay = 1000 * clamp(samples.idle_delays_ms@[n - 1] as int, 50, 5000);
        if p.pending.len() == 0 {
            p
        } else {
            let data = p.pending[0];
            let rest = p.pending.subrange(1, p.pending.len() as int);
            if data.len() > size {
                Progress {
                    pending: seq![data.subrange(size, data.len() as int)] + rest,
                    sn: p.sn,
                    actions: p.actions.push(
                        Planned::Send { data: data.subrange(0, size), delay_us: delay },
                    ),
                }
            } else {
                let sent = p.actions.push(Planned::Send { data, delay_us: delay });
                Progress {
                    pending: rest,
                    sn: p.sn,
                    actions: if data.len() < size {
                        sent.push(Planned::Pad { size: size - data.len(), delay_us: 50 })
                    } else {
                        sent
                    },
                }
            }
        }
    }
}

/// Whether a round of a cooldown sends, for a roll out of 2^52: as likely as the square of
/// the part of a cooldown's usual length that is over, but in no more than four of five
/// rounds.
pub open spec fn cooldown_sends(remaining_us: int, mean_ms: int, roll: int) -> bool {
    let over = mean_ms - remaining_us / 1000;
    5 * roll < 4 * 0x10_0000_0000_0000 && roll * (mean_ms * mean_ms) < (over * over)
        * 0x10_0000_0000_0000
}

/// The size of a packet in the cooldown after a burst: part of one while idle, and between
/// 32 and 500 bytes.
pub open spec fn cooldown_packet_size(
    model: StatisticalGameTrafficModel,
    drawn: int,
    burst_type: BurstType,
) -> int {
    clamp(idle_size(model.size_components@, drawn) * burst_type.shrinks_to() / 10, 32, 500)
}

/// One round of a cooldown: at most one packet.
pub open spec fn cooldown_sent(
    start: Progress,
    samples: BurstSamples,
    size: int,
    sends: bool,
) -> Progress {
    let delay = 1000 * clamp(samples.cooldown_delay_ms as int, 200, 3000);
    if !sends {
        start
    } else if start.pending.len() == 0 {
        Progress {
            pending: start.pending,
            sn: sn_after(start.sn, size),
            actions: start.actions.push(Planned::Filler { size, delay_us: delay, sn: start.sn }),
        }
    } else {
        let data = start.pending[0];
        let rest = start.pending.subrange(1, start.pending.len() as int);
        if data.len() > size {
            Progress {
                pending: seq![data.subrange(size, data.len() as int)] + rest,
                sn: start.sn,
                actions: start.actions.push(
                    Planned::Send { data: data.subrange(0, size), delay_us: delay },
                ),
            }
        } else {
            Progress {
                pending: rest,
                sn: start.sn,
                actions: start.actions.push(Planned::Send { data, delay_us: delay }),
            }
        }
    }
}

/// What a round does in the state it is in, where `n` packets were drawn for it and `roll`,
/// out of 2^52, says whether a cooldown sends.
pub open spec fn acted(
    r: Round,
    model: StatisticalGameTrafficModel,
    samples: BurstSamples,
    roll: int,
    n: int,
) -> (Round, Seq<Planned>) {
    let start = Progress { pending: r.pending, sn: r.sn, actions: Seq::empty() };
    match r.state {
        BurstState::Idle { .. } => {
            if r.pending.len() == 0 {
                (
                    r,
                    seq![
                        Planned::Keepalive {
                            delay_us: 1000 * clamp(samples.idle_delays_ms@[0] as int, 50, 5000),
                        },
                    ],
                )
            } else {
                let m = if n < r.pending.len() {
                    n
                } else {
                    r.pending.len() as int
                };
                let p = idle_sent(start, model, samples, m);
                (Round { pending: p.pending, ..r }, p.actions)
            }
        },
        BurstState::BurstActive {
            packets_remaining,
            inter_packet_delay_us,
            burst_type,
            current_packet_index,
            total_packets,
        } => {
            let m = if n < packets_remaining {
                n
            } else {
                packets_remaining as int
            };
            let patterns = model.burst_patterns@;
            let p = burst_sent(
                start,
                patterns[pattern_of_type(patterns, burst_type, 0)],
                samples,
                inter_packet_delay_us as int,
                m,
            );
            (
                Round {
                    state: BurstState::BurstActive {
                        packets_remaining: (packets_remaining - m) as usize,
                        inter_packet_delay_us,
                        burst_type,
                        current_packet_index: (current_packet_index + m) as usize,
                        total_packets,
                    },
                    pending: p.pending,
                    sn: p.sn,
                    ..r
                },
                p.actions,
            )
        },
        BurstState::PostBurstCooldown { cooldown_remaining_us, burst_type_just_finished } => {
            let p = cooldown_sent(
                start,
                samples,
                cooldown_packet_size(
                    model,
                    samples.cooldown_size as int,
                    burst_type_just_finished,
                ),
                cooldown_sends(
                    cooldown_remaining_us as int,
                    model.cooldown_duration_mean_ms as int,
                    roll,
                ),
            );
            let passed = since(samples.now_us, r.last_check_us);
            (
                Round {
                    state: BurstState::PostBurstCooldown {
                        cooldown_remaining_us: if passed >= cooldown_remaining_us {
                            0
                        } else {
                            (cooldown_remaining_us - passed) as u64
                        },
                        burst_type_just_finished,
                    },
                    pending: p.pending,
                    sn: p.sn,
                    ..r
                },
                p.actions,
            )
        },
    }
}

/// The number of packets that can be drawn for a round in this state.
pub open spec fn draw_range(state: BurstState) -> (int, int) {
    match state {
        BurstState::Idle { .. } => (1, 2),
        BurstState::BurstActive { burst_type, .. } => burst_type.tick_range(),
        BurstState::PostBurstCooldown { .. } => (1, 1),
    }
}

// ---- Engine ----

pub struct BurstEngine {
    pub game_model: StatisticalGameTrafficModel,
    pub state: BurstState,
    pub pending_data: VecDeque<Vec<u8>>,
    pub sequence_counter: u32,
    pub total_bursts_generated: u64,
    pub total_packets_sent: u64,
    pub last_inter_burst_check_us: u64,
}

/// Whether there are sizes for packets outside of bursts, and every size that can come up
/// in a burst leaves room for data and can be allocated.
pub open spec fn sizes_usable(model: StatisticalGameTrafficModel, samples: BurstSamples) -> bool {
    let patterns = model.burst_patterns@;
    &&& has_idle_sizes(model.size_components@)
    &&& forall|i: int, k: int|
        0 <= i < patterns.len() && 0 <= k < 5 ==> 1 <= clamp(
            #[trigger] samples.burst_sizes@[k] as int,
            (#[trigger] patterns[i]).size_min as int,
            patterns[i].size_max as int,
        ) <= isize::MAX
}

/// The first message of a queue goes; what is left is the rest of it.
proof fn lemma_pop(q: Seq<Vec<u8>>)
    requires
        q.len() > 0,
    ensures
        bytes::views(q)[0] == q[0]@,
        bytes::views(q.subrange(1, q.len() as int)) == bytes::views(q).subrange(
            1,
            q.len() as int,
        ),
{
    assert(bytes::views(q.subrange(1, q.len() as int)) =~= bytes::views(q).subrange(
        1,
        q.len() as int,
    ));
}

impl BurstEngine {
    /// Packets of a burst are counted down as they are counted up, a burst has a pattern to
    /// draw from, and a cooldown is no longer than eight seconds.
    pub open spec fn wf(&self) -> bool {
        &&& self.game_model.wf()
        &&& self.state matches BurstState::BurstActive {
            packets_remaining,
            current_packet_index,
            total_packets,
            ..
        } ==> current_packet_index + packets_remaining == total_packets
            && self.game_model.burst_patterns@.len() > 0
        &&& self.state matches BurstState::PostBurstCooldown { cooldown_remaining_us, .. }
            ==> cooldown_remaining_us <= 8_000_000
    }

    pub open spec fn round(&self) -> Round {
        Round {
            state: self.state,
            pending: bytes::views(self.pending_data@),
            sn: self.sequence_counter,
            bursts: self.total_bursts_generated,
            last_check_us: self.last_inter_burst_check_us,
        }
    }

    pub fn new(game_model: StatisticalGameTrafficModel, now_us: u64) -> (e: Self)
        requires
            game_model.wf(),
        ensures
            e.wf(),
            e.game_model == game_model,
            e.round() == (Round {
                state: BurstState::Idle { last_activity_us: now_us, time_since_last_burst_us: 0 },
                pending: Seq::empty(),
                sn: 0,
                bursts: 0,
                last_check_us: now_us,
            }),
            e.total_packets_sent == 0,
    {
        let e = BurstEngine {
            state: BurstState::Idle { last_activity_us: now_us, time_since_last_burst_us: 0 },
            game_model,
            pending_data: VecDeque::new(),
            sequence_counter: 0,
            total_bursts_generated: 0,
            total_packets_sent: 0,
            last_inter_burst_check_us: now_us,
        };
        assert(bytes::views(e.pending_data@) =~= Seq::empty());
        e
    }

    /// One round: takes `data` in, lets the state change, and sends what the state
    /// calls for. Which pattern starts, and how many packets go, is drawn.
    pub fn process(&mut self, data: Vec<u8>, samples: &BurstSamples) -> (actions: Vec<PacketAction>)
        requires
            old(self).wf(),
            sizes_usable(old(self).game_model, *samples),
        ensures
            final(self).wf(),
            final(self).game_model == old(self).game_model,
            exists|roll: int, n: int|
                0 <= roll < 0x10_0000_0000_0000 && #[trigger] old(self).did(
                    data@,
                    *samples,
                    roll,
                    n,
                    *final(self),
                    actions@,
                ),
    {
        let roll: u64 = random_between(0, 0xF_FFFF_FFFF_FFFF);
        let ghost before = *self;
        self.enqueue(data);
        self.check_burst_transition(samples, roll);
        let n: usize = match self.state {
            BurstState::Idle { .. } => random_between(1, 2) as usize,
            BurstState::BurstActive { burst_type, .. } => burst_type.draw_tick(),
            BurstState::PostBurstCooldown { .. } => 1,
        };
        let actions = self.act(samples, roll, n);
        assert(before.did(data@, *samples, roll as int, n as int, *self, actions@));
        actions
    }

    /// Whether this engine, given `data`, ends up as `after` with `actions`, for a drawn
    /// number of packets and a roll that picks the pattern of a new burst, or says whether
    /// a cooldown sends.
    pub open spec fn did(
        &self,
        data: Seq<u8>,
        samples: BurstSamples,
        roll: int,
        n: int,
        after: BurstEngine,
        actions: Seq<PacketAction>,
    ) -> bool {
        let queued = Round { pending: enqueued(self.round().pending, data), ..self.round() };
        let ready = transitioned(queued, self.game_model, samples, roll);
        let done = acted(ready, self.game_model, samples, roll, n);
        &&& draw_range(ready.state).0 <= n <= draw_range(ready.state).1
        &&& after.round() == done.0
        &&& performs_all(actions, done.1, samples.clock_ms)
        &&& after.total_packets_sent == (self.total_packets_sent + done.1.len())
            % 0x1_0000_0000_0000_0000
    }

    /// Puts a message at the end of the queue.
    pub fn enqueue(&mut self, data: Vec<u8>)
        requires
            old(self).wf(),
        ensures
            final(self).wf(),
            final(self).game_model == old(self).game_model,
            final(self).total_packets_sent == old(self).total_packets_sent,
            final(self).round() == (Round {
                pending: enqueued(old(self).round().pending, data@),
                ..old(self).round()
            }),
    {
        if !data.is_empty() {
            let ghost d = data@;
            self.pending_data.push_back(data);
            assert(bytes::views(self.pending_data@) =~= bytes::views(old(self).pending_data@).push(
                d,
            ));
        }
    }

    /// Lets the state change. `roll`, out of 2^52, picks the pattern of a new burst.
    pub fn check_burst_transition(&mut self, samples: &BurstSamples, roll: u64)
        requires
            old(self).wf(),
            roll < 0x10_0000_0000_0000,
        ensures
            final(self).wf(),
            final(self).game_model == old(self).game_model,
            final(self).total_packets_sent == old(self).total_packets_sent,
            final(self).round() == transitioned(
                old(self).round(),
                old(self).game_model,
                *samples,
                roll as int,
            ),
    {
        match self.state {
            BurstState::Idle { .. } => {
                let elapsed: u64 = Self::elapsed(samples.now_us, self.last_inter_burst_check_us);
                let target: u64 = 1000 * clamp_u64(samples.inter_burst_ms, 1000, 30000);
                if self.game_model.burst_patterns.len() > 0 && (elapsed >= target
                    || self.pending_data.len() > 0) {
                    let index: usize = self.select_burst_pattern(roll);
                    let pattern = &self.game_model.burst_patterns[index];
                    let count: usize = clamp_usize(
                        samples.packet_count,
                        pattern.packet_count_min,
                        pattern.packet_count_max,
                    );
                    let delay_ms: u64 = clamp_u64(
                        samples.inter_packet_delay_ms,
                        pattern.inter_packet_delay_min_us / 1000,
                        pattern.inter_packet_delay_max_us / 1000,
                    );
                    let burst_type = pattern.burst_type;
                    self.state = BurstState::BurstActive {
                        packets_remaining: count,
                        inter_packet_delay_us: 1000 * delay_ms,
                        burst_type,
                        current_packet_index: 0,
                        total_packets: count,
                    };
                    self.total_bursts_generated = self.total_bursts_generated.wrapping_add(1);
                    self.last_inter_burst_check_us = samples.now_us;
                }
            },
            BurstState::BurstActive { packets_remaining, burst_type, .. } => {
                if packets_remaining == 0 {
                    self.state = BurstState::PostBurstCooldown {
                        cooldown_remaining_us: 1000 * clamp_u64(samples.cooldown_ms, 500, 8000),
                        burst_type_just_finished: burst_type,
                    };
                }
            },
            BurstState::PostBurstCooldown { cooldown_remaining_us, .. } => {
                if cooldown_remaining_us == 0 {
                    self.state = BurstState::Idle {
                        last_activity_us: samples.now_us,
                        time_since_last_burst_us: 0,
                    };
                }
            },
        }
    }

    fn elapsed(now_us: u64, then_us: u64) -> (e: u64)
        ensures
            e == since(now_us, then_us),
    {
        if now_us >= then_us {
            now_us - then_us
        } else {
            0
        }
    }

    /// Sends what the state calls for, with `n` packets at most. `roll`, out of 2^52, says
    /// whether a cooldown sends.
    pub fn act(&mut self, samples: &BurstSamples, roll: u64, n: usize) -> (actions: Vec<
        PacketAction,
    >)
        requires
            old(self).wf(),
            roll < 0x10_0000_0000_0000,
            n <= draw_range(old(self).state).1,
            sizes_usable(old(self).game_model, *samples),
        ensures
            final(self).wf(),
            final(self).game_model == old(self).game_model,
            final(self).round() == acted(
                old(self).round(),
                old(self).game_model,
                *samples,
                roll as int,
                n as int,
            ).0,
            performs_all(
                actions@,
                acted(
                    old(self).round(),
                    old(self).game_model,
                    *samples,
                    roll as int,
                    n as int,
                ).1,
                samples.clock_ms,
            ),
            final(self).total_packets_sent == (old(self).total_packets_sent + actions@.len())
                % 0x1_0000_0000_0000_0000,
    {
        let actions = match self.state {
            BurstState::Idle { .. } => self.handle_idle(samples, n),
            BurstState::BurstActive { .. } => self.generate_burst_packets(samples, n),
            BurstState::PostBurstCooldown { .. } => self.handle_cooldown(samples, roll),
        };
        self.total_packets_sent = self.total_packets_sent.wrapping_add(actions.len() as u64);
        actions
    }

    /// One tick of a burst.
    pub fn generate_burst_packets(&mut self, samples: &BurstSamples, n: usize) -> (actions: Vec<
        PacketAction,
    >)
        requires
            old(self).wf(),
            old(self).state is BurstActive,
            n <= 5,
            sizes_usable(old(self).game_model, *samples),
        ensures
            final(self).wf(),
            final(self).game_model == old(self).game_model,
            final(self).total_packets_sent == old(self).total_packets_sent,
            forall|roll: int|
                final(self).round() == (#[trigger] acted(
                    old(self).round(),
                    old(self).game_model,
                    *samples,
                    roll,
                    n as int,
                )).0 && performs_all(
                    actions@,
                    acted(old(self).round(), old(self).game_model, *samples, roll, n as int).1,
                    samples.clock_ms,
                ),
    {
        let mut actions: Vec<PacketAction> = Vec::new();
        let (remaining, delay_us, burst_type, current, total) = match self.state {
            BurstState::BurstActive {
                packets_remaining,
                inter_packet_delay_us,
                burst_type,
                current_packet_index,
                total_packets,
            } => (
                packets_remaining,
                inter_packet_delay_us,
                burst_type,
                current_packet_index,
                total_packets,
            ),
            _ => {
                return actions;
            },
        };
        let to_send: usize = if n < remaining { n } else { remaining };
        let index: usize = self.find_pattern_for_type(burst_type);
        let size_min: usize = self.game_model.burst_patterns[index].size_min;
        let size_max: usize = self.game_model.burst_patterns[index].size_max;
        let ghost pattern = self.game_model.burst_patterns@[index as int];
        let ghost start = Progress {
            pending: self.round().pending,
            sn: self.sequence_counter,
            actions: Seq::empty(),
        };
        let mut i: usize = 0;
        while i < to_send
            invariant
                i <= to_send <= 5,
                self.game_model == old(self).game_model,
                self.state == old(self).state,
                self.total_bursts_generated == old(self).total_bursts_generated,
                self.total_packets_sent == old(self).total_packets_sent,
                self.last_inter_burst_check_us == old(self).last_inter_burst_check_us,
                pattern == self.game_model.burst_patterns@[index as int],
                index < self.game_model.burst_patterns@.len(),
                size_min == pattern.size_min,
                size_max == pattern.size_max,
                sizes_usable(self.game_model, *samples),
                ({
                    let p = burst_sent(start, pattern, *samples, delay_us as int, i as int);
                    &&& bytes::views(self.pending_data@) == p.pending
                    &&& self.sequence_counter == p.sn
                    &&& performs_all(actions@, p.actions, samples.clock_ms)
                }),
            decreases to_send - i,
        {
            let size: usize = clamp_usize(samples.burst_sizes[i], size_min, size_max);
            let delay: u64 = if i == 0 {
                delay_us
            } else {
                delay_us / 5 * 3 + delay_us % 5 * 3 / 5
            };
            let ghost queue = self.pending_data@;
            match self.pending_data.pop_front() {
                Some(data) => {
                    proof {
                        lemma_pop(queue);
                    }
                    let len: usize = data.len();
                    if len > size {
                        let pieces = split_chunks(data.as_slice(), size);
                        actions.push(PacketAction::Split { data: pieces, delay_us: delay });
                    } else {
                        actions.push(PacketAction::Send { data, delay_us: delay });
                        if len < size {
                            actions.push(PacketAction::Pad { size: size - len, delay_us: 100 });
                        }
                    }
                },
                None => {
                    let filler = self.generate_filler_packet(size, delay, samples.clock_ms);
                    actions.push(filler);
                },
            }
            i = i + 1;
        }
        self.state = BurstState::BurstActive {
            packets_remaining: remaining - to_send,
            inter_packet_delay_us: delay_us,
            burst_type,
            current_packet_index: current + to_send,
            total_packets: total,
        };
        actions
    }

    /// Releases up to `n` messages, or sends a keepalive where none waits.
    pub fn handle_idle(&mut self, samples: &BurstSamples, n: usize) -> (actions: Vec<PacketAction>)
        requires
            old(self).wf(),
            old(self).state is Idle,
            n <= 2,
            has_idle_sizes(old(self).game_model.size_components@),
        ensures
            final(self).wf(),
            final(self).game_model == old(self).game_model,
            final(self).total_packets_sent == old(self).total_packets_sent,
            forall|roll: int|
                final(self).round() == (#[trigger] acted(
                    old(self).round(),
                    old(self).game_model,
                    *samples,
                    roll,
                    n as int,
                )).0 && performs_all(
                    actions@,
                    acted(old(self).round(), old(self).game_model, *samples, roll, n as int).1,
                    samples.clock_ms,
                ),
    {
        let mut actions: Vec<PacketAction> = Vec::new();
        let waiting: usize = self.pending_data.len();
        if waiting == 0 {
            let delay: u64 = 1000 * clamp_u64(samples.idle_delays_ms[0], 50, 5000);
            actions.push(PacketAction::Keepalive { delay_us: delay });
            return actions;
        }
        let to_release: usize = if n < waiting { n } else { waiting };
        let ghost start = Progress {
            pending: self.round().pending,
            sn: self.sequence_counter,
            actions: Seq::empty(),
        };
        let mut i: usize = 0;
        while i < to_release
            invariant
                i <= to_release <= 2,
                has_idle_sizes(self.game_model.size_components@),
                self.game_model == old(self).game_model,
                self.state == old(self).state,
                self.sequence_counter == old(self).sequence_counter,
                self.total_bursts_generated == old(self).total_bursts_generated,
                self.total_packets_sent == old(self).total_packets_sent,
                self.last_inter_burst_check_us == old(self).last_inter_burst_check_us,
                start.sn == self.sequence_counter,
                ({
                    let p = idle_sent(start, self.game_model, *samples, i as int);
                    &&& bytes::views(self.pending_data@) == p.pending
                    &&& p.sn == start.sn
                    &&& performs_all(actions@, p.actions, samples.clock_ms)
                }),
            decreases to_release - i,
        {
            let size: usize = self.game_model.idle_packet_size(samples.idle_sizes[i]);
            let delay: u64 = 1000 * clamp_u64(samples.idle_delays_ms[i], 50, 5000);
            let ghost queue = self.pending_data@;
            match self.pending_data.pop_front() {
                Some(data) => {
                    proof {
                        lemma_pop(queue);
                    }
                    let len: usize = data.len();
                    if len > size {
                        let chunk = self.put_back_after(data, size);
                        actions.push(PacketAction::Send { data: chunk, delay_us: delay });
                    } else {
                        actions.push(PacketAction::Send { data, delay_us: delay });
                        if len < size {
                            actions.push(PacketAction::Pad { size: size - len, delay_us: 50 });
                        }
                    }
                },
                None => {},
            }
            i = i + 1;
        }
        actions
    }

    /// Puts all but the first `size` bytes back at the front of the queue.
    fn put_back_after(&mut self, data: Vec<u8>, size: usize) -> (chunk: Vec<u8>)
        requires
            size < data@.len(),
        ensures
            chunk@ == data@.subrange(0, size as int),
            bytes::views(final(self).pending_data@) == seq![
                data@.subrange(size as int, data@.len() as int),
            ] + bytes::views(old(self).pending_data@),
            final(self).game_model == old(self).game_model,
            final(self).state == old(self).state,
            final(self).sequence_counter == old(self).sequence_counter,
            final(self).total_bursts_generated == old(self).total_bursts_generated,
            final(self).total_packets_sent == old(self).total_packets_sent,
            final(self).last_inter_burst_check_us == old(self).last_inter_burst_check_us,
    {
        let chunk = copy_range(data.as_slice(), 0, size);
        let remainder = copy_range(data.as_slice(), size, data.len());
        let ghost rest = remainder@;
        self.pending_data.push_front(remainder);
        assert(bytes::views(self.pending_data@) =~= seq![rest] + bytes::views(
            old(self).pending_data@,
        ));
        chunk
    }

    /// One round of a cooldown. `roll`, out of 2^52, says whether it sends.
    pub fn handle_cooldown(&mut self, samples: &BurstSamples, roll: u64) -> (actions: Vec<
        PacketAction,
    >)
        requires
            old(self).wf(),
            old(self).state is PostBurstCooldown,
            roll < 0x10_0000_0000_0000,
            has_idle_sizes(old(self).game_model.size_components@),
        ensures
            final(self).wf(),
            final(self).game_model == old(self).game_model,
            final(self).total_packets_sent == old(self).total_packets_sent,
            forall|n: int|
                final(self).round() == (#[trigger] acted(
                    old(self).round(),
                    old(self).game_model,
                    *samples,
                    roll as int,
                    n,
                )).0 && performs_all(
                    actions@,
                    acted(old(self).round(), old(self).game_model, *samples, roll as int, n).1,
                    samples.clock_ms,
                ),
    {
        let mut actions: Vec<PacketAction> = Vec::new();
        let (cooldown_remaining, burst_type) = match self.state {
            BurstState::PostBurstCooldown { cooldown_remaining_us, burst_type_just_finished } => (
                cooldown_remaining_us,
                burst_type_just_finished,
            ),
            _ => {
                return actions;
            },
        };
        if self.sends_in_cooldown(cooldown_remaining, roll) {
            let base: u64 = self.game_model.idle_packet_size(samples.cooldown_size) as u64;
            let tenths: u64 = burst_type.cooldown_size_tenths();
            assert(0 <= base * tenths <= 1500 * 10) by (nonlinear_arith)
                requires
                    0 <= base <= 1500,
                    0 <= tenths <= 10,
            ;
            let size: usize = clamp_u64(base * tenths / 10, 32, 500) as usize;
            let delay: u64 = 1000 * clamp_u64(samples.cooldown_delay_ms, 200, 3000);
            let ghost queue = self.pending_data@;
            match self.pending_data.pop_front() {
                Some(data) => {
                    proof {
                        lemma_pop(queue);
                    }
                    if data.len() > size {
                        let chunk = self.put_back_after(data, size);
                        actions.push(PacketAction::Send { data: chunk, delay_us: delay });
                    } else {
                        actions.push(PacketAction::Send { data, delay_us: delay });
                    }
                },
                None => {
                    let filler = self.generate_filler_packet(size, delay, samples.clock_ms);
                    actions.push(filler);
                },
            }
        }
        let passed: u64 = Self::elapsed(samples.now_us, self.last_inter_burst_check_us);
        self.state = BurstState::PostBurstCooldown {
            cooldown_remaining_us: if passed >= cooldown_remaining {
                0
            } else {
                cooldown_remaining - passed
            },
            burst_type_just_finished: burst_type,
        };
        actions
    }

    /// Whether a round of a cooldown sends.
    fn sends_in_cooldown(&self, remaining_us: u64, roll: u64) -> (sends: bool)
        requires
            0 < self.game_model.cooldown_duration_mean_ms <= u32::MAX,
            remaining_us <= 8_000_000,
            roll < 0x10_0000_0000_0000,
        ensures
            sends == cooldown_sends(
                remaining_us as int,
                self.game_model.cooldown_duration_mean_ms as int,
                roll as int,
            ),
    {
        let mean: i128 = self.game_model.cooldown_duration_mean_ms as i128;
        let over: i128 = mean - (remaining_us / 1000) as i128;
        let whole: i128 = 0x10_0000_0000_0000;
        assert(0 <= mean * mean <= 0x1_0000_0000_0000_0000) by (nonlinear_arith)
            requires
                0 <= mean <= 0x1_0000_0000,
        ;
        assert(0 <= over * over <= 0x1_0000_0000_0000_0000) by (nonlinear_arith)
            requires
                -0x1_0000_0000 <= over <= 0x1_0000_0000,
        ;
        let usual: i128 = mean * mean;
        let part: i128 = over * over;
        assert(0 <= roll * usual <= 0x10_0000_0000_0000 * 0x1_0000_0000_0000_0000)
            by (nonlinear_arith)
            requires
                0 <= roll <= 0x10_0000_0000_0000,
                0 <= usual <= 0x1_0000_0000_0000_0000,
        ;
        5 * (roll as i128) < 4 * whole && (roll as i128) * usual < part * whole
    }

    /// Random bytes in place of data, behind a header where there is room for one.
    pub fn generate_filler_packet(&mut self, size: usize, delay_us: u64, clock_ms: u32) -> (action:
        PacketAction)
        requires
            size <= isize::MAX,
        ensures
            performs(
                action,
                Planned::Filler {
                    size: size as int,
                    delay_us: delay_us as int,
                    sn: old(self).sequence_counter,
                },
                clock_ms,
            ),
            final(self).sequence_counter == sn_after(old(self).sequence_counter, size as int),
            final(self).game_model == old(self).game_model,
            final(self).state == old(self).state,
            final(self).pending_data == old(self).pending_data,
            final(self).total_bursts_generated == old(self).total_bursts_generated,
            final(self).total_packets_sent == old(self).total_packets_sent,
            final(self).last_inter_burst_check_us == old(self).last_inter_burst_check_us,
    {
        if size < 24 {
            let data = random_bytes(size);
            return PacketAction::Send { data, delay_us };
        }
        let noise = random_bytes(size - 24);
        let conv: u32 = random_between(1, 0xFFFF_FFFF) as u32;
        let sn: u32 = self.sequence_counter;
        let una: u32 = if sn == 0 { 0 } else { sn - 1 };
        let data = write_segment(conv, 0, clock_ms, sn, una, truncate_u32(size), noise.as_slice());
        assert(data@ == filler_segment(conv, clock_ms, sn, noise@));
        self.sequence_counter = self.sequence_counter.wrapping_add(1);
        PacketAction::Send { data, delay_us }
    }

    /// The pattern that a roll out of 2^52 selects.
    pub fn select_burst_pattern(&self, roll: u64) -> (index: usize)
        requires
            self.game_model.burst_patterns@.len() > 0,
            roll < 0x10_0000_0000_0000,
        ensures
            index == pattern_index(
                self.game_model.burst_patterns@,
                self.game_model.probability_scale_micro as int,
                roll as int,
                0,
            ),
            index < self.game_model.burst_patterns@.len(),
    {
        let scale: u64 = self.game_model.probability_scale_micro;
        let last: usize = self.game_model.burst_patterns.len() - 1;
        let mut i: usize = 0;
        while i < last
            invariant
                i <= last,
                last == self.game_model.burst_patterns@.len() - 1,
                scale == self.game_model.probability_scale_micro,
                roll < 0x10_0000_0000_0000,
                pattern_index(
                    self.game_model.burst_patterns@,
                    scale as int,
                    roll as int,
                    0,
                ) == pattern_index(
                    self.game_model.burst_patterns@,
                    scale as int,
                    roll as int,
                    i as int,
                ),
            decreases last - i,
        {
            assert(0 <= roll * scale < 0x10_0000_0000_0000 * 0x1_0000_0000_0000_0000)
                by (nonlinear_arith)
                requires
                    0 <= roll < 0x10_0000_0000_0000,
                    0 <= scale < 0x1_0000_0000_0000_0000,
            ;
            let rolled: u128 = (roll as u128) * (scale as u128);
            let reach: u128 = (self.game_model.burst_patterns[i].cumulative_micro as u128)
                * 0x10_0000_0000_0000u128;
            if rolled <= reach {
                return i;
            }
            i = i + 1;
        }
        last
    }

    /// The first pattern of a type, or the first pattern of all.
    pub fn find_pattern_for_type(&self, burst_type: BurstType) -> (index: usize)
        requires
            self.game_model.burst_patterns@.len() > 0,
        ensures
            index == pattern_of_type(self.game_model.burst_patterns@, burst_type, 0),
            index < self.game_model.burst_patterns@.len(),
    {
        let mut i: usize = 0;
        while i < self.game_model.burst_patterns.len()
            invariant
                i <= self.game_model.burst_patterns@.len(),
                self.game_model.burst_patterns@.len() > 0,
                pattern_of_type(self.game_model.burst_patterns@, burst_type, 0)
                    == pattern_of_type(self.game_model.burst_patterns@, burst_type, i as int),
            decreases self.game_model.burst_patterns@.len() - i,
        {
            if self.game_model.burst_patterns[i].burst_type == burst_type {
                return i;
            }
            i = i + 1;
        }
        0
    }

    /// How long to wait for the next round, where `idle_delay_ms` was sampled for an
    /// idle engine.
    pub fn next_action_delay(&self, idle_delay_ms: u64) -> (delay_us: u64)
        ensures
            delay_us == match self.state {
                BurstState::Idle { .. } => 1000 * clamp(idle_delay_ms as int, 50, 5000),
                BurstState::BurstActive { inter_packet_delay_us, .. } => inter_packet_delay_us
                    as int,
                BurstState::PostBurstCooldown { cooldown_remaining_us, .. } => if 200_000
                    < cooldown_remaining_us {
                    200_000
                } else {
                    cooldown_remaining_us as int
                },
            },
    {
        match self.state {
            BurstState::Idle { .. } => 1000 * clamp_u64(idle_delay_ms, 50, 5000),
            BurstState::BurstActive { inter_packet_delay_us, .. } => inter_packet_delay_us,
            BurstState::PostBurstCooldown { cooldown_remaining_us, .. } => if 200_000
                < cooldown_remaining_us {
                200_000
            } else {
                cooldown_remaining_us
            },
        }
    }
}

// ---- Laws ----

/// One more action carries what it holds.
proof fn lemma_carried_push(planned: Seq<Planned>, p: Planned)
    ensures
        carried(planned.push(p)) == carried(planned) + match p {
            Planned::Send { data, .. } => data,
            Planned::Split { pieces, .. } => bytes::concat(pieces),
            _ => Seq::empty(),
        },
{
    assert(planned.push(p).drop_last() =~= planned);
}

/// The first message of a queue stands first in what the queue spells.
proof fn lemma_concat_first(q: Seq<Seq<u8>>)
    requires
        q.len() > 0,
    ensures
        bytes::concat(q) == q[0] + bytes::concat(q.subrange(1, q.len() as int)),
{
    let rest = q.subrange(1, q.len() as int);
    bytes::lemma_concat_adds(seq![q[0]], rest);
    bytes::lemma_concat_one(q[0]);
    assert(seq![q[0]] + rest =~= q);
}

proof fn lemma_burst_keeps_data(
    start: Progress,
    pattern: BurstPatternModel,
    samples: BurstSamples,
    delay_us: int,
    n: int,
)
    requires
        0 <= n <= 5,
        forall|k: int|
            0 <= k < 5 ==> clamp(
                #[trigger] samples.burst_sizes@[k] as int,
                pattern.size_min as int,
                pattern.size_max as int,
            ) >= 1,
    ensures
        ({
            let p = burst_sent(start, pattern, samples, delay_us, n);
            carried(p.actions) + bytes::concat(p.pending) == carried(start.actions)
                + bytes::concat(start.pending)
        }),
    decreases n,
{
    if n > 0 {
        lemma_burst_keeps_data(start, pattern, samples, delay_us, n - 1);
        let p = burst_sent(start, pattern, samples, delay_us, n - 1);
        let q = burst_sent(start, pattern, samples, delay_us, n);
        let size = clamp(
            samples.burst_sizes@[n - 1] as int,
            pattern.size_min as int,
            pattern.size_max as int,
        );
        let delay = if n == 1 {
            delay_us
        } else {
            delay_us * 3 / 5
        };
        if p.pending.len() == 0 {
            lemma_carried_push(p.actions, Planned::Filler { size, delay_us: delay, sn: p.sn });
            assert(carried(q.actions) =~= carried(p.actions));
        } else {
            let data = p.pending[0];
            lemma_concat_first(p.pending);
            if data.len() > size {
                bytes::law_split_spells_data(data, size);
                lemma_carried_push(
                    p.actions,
                    Planned::Split { pieces: bytes::split_at_size(data, size), delay_us: delay },
                );
            } else {
                let sent = p.actions.push(Planned::Send { data, delay_us: delay });
                lemma_carried_push(p.actions, Planned::Send { data, delay_us: delay });
                lemma_carried_push(sent, Planned::Pad { size: size - data.len(), delay_us: 100 });
                assert(carried(q.actions) =~= carried(p.actions) + data);
            }
            assert(carried(p.actions) + data + bytes::concat(q.pending) =~= carried(p.actions) + (
            data + bytes::concat(q.pending)));
        }
    }
}

proof fn lemma_idle_keeps_data(
    start: Progress,
    model: StatisticalGameTrafficModel,
    samples: BurstSamples,
    n: int,
)
    requires
        0 <= n <= 2,
        has_idle_sizes(model.size_components@),
    ensures
        ({
            let p = idle_sent(start, model, samples, n);
            carried(p.actions) + bytes::concat(p.pending) == carried(start.actions)
                + bytes::concat(start.pending)
        }),
    decreases n,
{
    if n > 0 {
        lemma_idle_keeps_data(start, model, samples, n - 1);
        let p = idle_sent(start, model, samples, n - 1);
        let q = idle_sent(start, model, samples, n);
        let size = idle_size(model.size_components@, samples.idle_sizes@[n - 1] as int);
        let delay = 1000 * clamp(samples.idle_delays_ms@[n - 1] as int, 50, 5000);
        if p.pending.len() > 0 {
            let data = p.pending[0];
            let rest = p.pending.subrange(1, p.pending.len() as int);
            lemma_concat_first(p.pending);
            if data.len() > size {
                let head = data.subrange(0, size);
                let tail = data.subrange(size, data.len() as int);
                lemma_carried_push(p.actions, Planned::Send { data: head, delay_us: delay });
                lemma_concat_first(q.pending);
                assert(q.pending.subrange(1, q.pending.len() as int) =~= rest);
                assert(head + tail =~= data);
                assert(carried(p.actions) + head + (tail + bytes::concat(rest)) =~= carried(
                    p.actions,
                ) + ((head + tail) + bytes::concat(rest)));
            } else {
                let sent = p.actions.push(Planned::Send { data, delay_us: delay });
                lemma_carried_push(p.actions, Planned::Send { data, delay_us: delay });
                lemma_carried_push(sent, Planned::Pad { size: size - data.len(), delay_us: 50 });
                assert(carried(q.actions) =~= carried(p.actions) + data);
                assert(carried(p.actions) + data + bytes::concat(rest) =~= carried(p.actions) + (
                data + bytes::concat(rest)));
            }
        }
    }
}

proof fn lemma_cooldown_keeps_data(
    start: Progress,
    samples: BurstSamples,
    size: int,
    sends: bool,
)
    requires
        size >= 0,
    ensures
        ({
            let p = cooldown_sent(start, samples, size, sends);
            carried(p.actions) + bytes::concat(p.pending) == carried(start.actions)
                + bytes::concat(start.pending)
        }),
{
    let p = start;
    let q = cooldown_sent(start, samples, size, sends);
    let delay = 1000 * clamp(samples.cooldown_delay_ms as int, 200, 3000);
    if sends {
        if p.pending.len() == 0 {
            lemma_carried_push(p.actions, Planned::Filler { size, delay_us: delay, sn: p.sn });
            assert(carried(q.actions) =~= carried(p.actions));
        } else {
            let data = p.pending[0];
            let rest = p.pending.subrange(1, p.pending.len() as int);
            lemma_concat_first(p.pending);
            if data.len() > size {
                let head = data.subrange(0, size);
                let tail = data.subrange(size, data.len() as int);
                lemma_carried_push(p.actions, Planned::Send { data: head, delay_us: delay });
                lemma_concat_first(q.pending);
                assert(q.pending.subrange(1, q.pending.len() as int) =~= rest);
                assert(head + tail =~= data);
                assert(carried(p.actions) + head + (tail + bytes::concat(rest)) =~= carried(
                    p.actions,
                ) + ((head + tail) + bytes::concat(rest)));
            } else {
                lemma_carried_push(p.actions, Planned::Send { data, delay_us: delay });
                assert(carried(p.actions) + data + bytes::concat(rest) =~= carried(p.actions) + (
                data + bytes::concat(rest)));
            }
        }
    }
}

/// No round loses, repeats or reorders queued data: what its actions carry, followed by
/// what still waits, is what waited before, followed by what came in.
pub proof fn law_rounds_keep_data(
    engine: BurstEngine,
    data: Seq<u8>,
    samples: BurstSamples,
    roll: int,
    n: int,
)
    requires
        engine.wf(),
        sizes_usable(engine.game_model, samples),
        0 <= roll < 0x10_0000_0000_0000,
    ensures
        ({
            let queued = Round {
                pending: enqueued(engine.round().pending, data),
                ..engine.round()
            };
            let ready = transitioned(queued, engine.game_model, samples, roll);
            let done = acted(ready, engine.game_model, samples, roll, n);
            draw_range(ready.state).0 <= n <= draw_range(ready.state).1 ==> carried(done.1)
                + bytes::concat(done.0.pending) == bytes::concat(engine.round().pending) + data
        }),
{
    let queued = Round { pending: enqueued(engine.round().pending, data), ..engine.round() };
    let ready = transitioned(queued, engine.game_model, samples, roll);
    let before = engine.round().pending;
    let start = Progress { pending: ready.pending, sn: ready.sn, actions: Seq::empty() };
    assert(bytes::concat(ready.pending) == bytes::concat(before) + data) by {
        if data.len() == 0 {
            assert(bytes::concat(before) + data =~= bytes::concat(before));
        } else {
            bytes::lemma_concat_push(before, data);
        }
    }
    assert(carried(start.actions) =~= Seq::empty());
    assert(carried(start.actions) + bytes::concat(start.pending) =~= bytes::concat(ready.pending));
    if draw_range(ready.state).0 <= n <= draw_range(ready.state).1 {
        match ready.state {
            BurstState::Idle { .. } => {
                let m = if n < ready.pending.len() {
                    n
                } else {
                    ready.pending.len() as int
                };
                if ready.pending.len() == 0 {
                    let delay_us = 1000 * clamp(samples.idle_delays_ms@[0] as int, 50, 5000);
                    let quiet = Planned::Keepalive { delay_us };
                    lemma_carried_push(Seq::empty(), quiet);
                    assert(Seq::<Planned>::empty().push(quiet) =~= seq![quiet]);
                    assert(carried(Seq::<Planned>::empty()) =~= Seq::<u8>::empty());
                    assert(carried(seq![quiet]) =~= Seq::<u8>::empty());
                    assert(Seq::<u8>::empty() + bytes::concat(ready.pending) =~= bytes::concat(
                        ready.pending,
                    ));
                } else {
                    lemma_idle_keeps_data(start, engine.game_model, samples, m);
                }
            },
            BurstState::BurstActive {
                packets_remaining,
                inter_packet_delay_us,
                burst_type,
                ..
            } => {
                let patterns = engine.game_model.burst_patterns@;
                let m = if n < packets_remaining {
                    n
                } else {
                    packets_remaining as int
                };
                let index = pattern_of_type(patterns, burst_type, 0);
                lemma_pattern_in_range(patterns, burst_type, 0);
                let pattern = patterns[index];
                assert forall|k: int| 0 <= k < 5 implies clamp(
                    #[trigger] samples.burst_sizes@[k] as int,
                    pattern.size_min as int,
                    pattern.size_max as int,
                ) >= 1 by {
                    assert(patterns[index] == pattern);
                }
                lemma_burst_keeps_data(
                    start,
                    pattern,
                    samples,
                    inter_packet_delay_us as int,
                    m,
                );
            },
            BurstState::PostBurstCooldown { cooldown_remaining_us, burst_type_just_finished } => {
                lemma_cooldown_keeps_data(
                    start,
                    samples,
                    cooldown_packet_size(
                        engine.game_model,
                        samples.cooldown_size as int,
                        burst_type_just_finished,
                    ),
                    cooldown_sends(
                        cooldown_remaining_us as int,
                        engine.game_model.cooldown_duration_mean_ms as int,
                        roll,
                    ),
                );
            },
        }
    }
}

proof fn lemma_pattern_in_range(
    patterns: Seq<BurstPatternModel>,
    burst_type: BurstType,
    i: int,
)
    requires
        patterns.len() > 0,
        0 <= i,
    ensures
        0 <= pattern_of_type(patterns, burst_type, i) < patterns.len(),
    decreases patterns.len() - i,
{
    if i < patterns.len() && patterns[i].burst_type != burst_type {
        lemma_pattern_in_range(patterns, burst_type, i + 1);
    }
}

/// States follow one another in one order only: idle, burst, cooldown, idle.
pub proof fn law_state_order(
    r: Round,
    model: StatisticalGameTrafficModel,
    samples: BurstSamples,
    roll: int,
)
    ensures
        ({
            let after = transitioned(r, model, samples, roll).state;
            &&& r.state is Idle ==> after is Idle || after is BurstActive
            &&& r.state is BurstActive ==> after is BurstActive || after is PostBurstCooldown
            &&& r.state is PostBurstCooldown ==> after is PostBurstCooldown || after is Idle
        }),
{
}

/// Waiting data starts a burst in an idle engine that knows any pattern.
pub proof fn law_data_starts_burst(
    r: Round,
    model: StatisticalGameTrafficModel,
    samples: BurstSamples,
    roll: int,
)
    requires
        r.state is Idle,
        r.pending.len() > 0,
        model.burst_patterns@.len() > 0,
    ensures
        transitioned(r, model, samples, roll).state is BurstActive,
{
}

/// Whether a planned padding can be allocated.
pub open spec fn pad_bounded(p: Planned) -> bool {
    p matches Planned::Pad { size, .. } ==> 0 <= size <= isize::MAX
}

proof fn lemma_burst_pads(
    start: Progress,
    pattern: BurstPatternModel,
    samples: BurstSamples,
    delay_us: int,
    n: int,
)
    requires
        0 <= n <= 5,
        start.actions.len() == 0,
        forall|k: int|
            0 <= k < 5 ==> clamp(
                #[trigger] samples.burst_sizes@[k] as int,
                pattern.size_min as int,
                pattern.size_max as int,
            ) <= isize::MAX,
    ensures
        forall|i: int|
            0 <= i < burst_sent(start, pattern, samples, delay_us, n).actions.len() ==> pad_bounded(
                #[trigger] burst_sent(start, pattern, samples, delay_us, n).actions[i],
            ),
    decreases n,
{
    if n > 0 {
        lemma_burst_pads(start, pattern, samples, delay_us, n - 1);
        assert(samples.burst_sizes@[n - 1] >= 0);
        let p = burst_sent(start, pattern, samples, delay_us, n - 1);
        let q = burst_sent(start, pattern, samples, delay_us, n);
        assert forall|i: int| 0 <= i < q.actions.len() implies pad_bounded(
            #[trigger] q.actions[i],
        ) by {
            if i < p.actions.len() {
                assert(q.actions[i] == p.actions[i]);
            }
        }
    }
}

proof fn lemma_idle_pads(
    start: Progress,
    model: StatisticalGameTrafficModel,
    samples: BurstSamples,
    n: int,
)
    requires
        0 <= n <= 2,
        start.actions.len() == 0,
        has_idle_sizes(model.size_components@),
    ensures
        forall|i: int|
            0 <= i < idle_sent(start, model, samples, n).actions.len() ==> pad_bounded(
                #[trigger] idle_sent(start, model, samples, n).actions[i],
            ),
    decreases n,
{
    if n > 0 {
        lemma_idle_pads(start, model, samples, n - 1);
        let p = idle_sent(start, model, samples, n - 1);
        let q = idle_sent(start, model, samples, n);
        assert forall|i: int| 0 <= i < q.actions.len() implies pad_bounded(
            #[trigger] q.actions[i],
        ) by {
            if i < p.actions.len() {
                assert(q.actions[i] == p.actions[i]);
            }
        }
    }
}

/// No round plans more padding than can be allocated.
pub proof fn lemma_planned_pads(
    engine: BurstEngine,
    data: Seq<u8>,
    samples: BurstSamples,
    roll: int,
    n: int,
)
    requires
        engine.wf(),
        sizes_usable(engine.game_model, samples),
        ({
            let queued = Round {
                pending: enqueued(engine.round().pending, data),
                ..engine.round()
            };
            let ready = transitioned(queued, engine.game_model, samples, roll);
            draw_range(ready.state).0 <= n <= draw_range(ready.state).1
        }),
    ensures
        ({
            let queued = Round {
                pending: enqueued(engine.round().pending, data),
                ..engine.round()
            };
            let ready = transitioned(queued, engine.game_model, samples, roll);
            let planned = acted(ready, engine.game_model, samples, roll, n).1;
            forall|i: int| 0 <= i < planned.len() ==> pad_bounded(#[trigger] planned[i])
        }),
{
    let queued = Round { pending: enqueued(engine.round().pending, data), ..engine.round() };
    let ready = transitioned(queued, engine.game_model, samples, roll);
    let start = Progress { pending: ready.pending, sn: ready.sn, actions: Seq::empty() };
    match ready.state {
        BurstState::Idle { .. } => {
            let m = if n < ready.pending.len() {
                n
            } else {
                ready.pending.len() as int
            };
            lemma_idle_pads(start, engine.game_model, samples, m);
        },
        BurstState::BurstActive { packets_remaining, inter_packet_delay_us, burst_type, .. } => {
            let patterns = engine.game_model.burst_patterns@;
            let m = if n < packets_remaining {
                n
            } else {
                packets_remaining as int
            };
            let index = pattern_of_type(patterns, burst_type, 0);
            lemma_pattern_in_range(patterns, burst_type, 0);
            let pattern = patterns[index];
            assert forall|k: int| 0 <= k < 5 implies clamp(
                #[trigger] samples.burst_sizes@[k] as int,
                pattern.size_min as int,
                pattern.size_max as int,
            ) <= isize::MAX by {
                assert(patterns[index] == pattern);
            }
            lemma_burst_pads(start, pattern, samples, inter_packet_delay_us as int, m);
        },
        BurstState::PostBurstCooldown { .. } => {},
    }
}

// ---- What rounds keep to ----

/// A burst that starts keeps to the ranges of a pattern: it has as many packets as were drawn, and
/// as many milliseconds between them, where the pattern allows that, and the nearest number that it
/// allows else.
pub proof fn law_bursts_keep_to_a_pattern(
    r: Round,
    model: StatisticalGameTrafficModel,
    samples: BurstSamples,
    roll: int,
)
    requires
        model.wf(),
        r.state is Idle,
        r.bursts < u64::MAX,
        transitioned(r, model, samples, roll).state is BurstActive,
    ensures
        ({
            let after = transitioned(r, model, samples, roll);
            &&& after.pending == r.pending
            &&& after.bursts == r.bursts + 1
            &&& after.last_check_us == samples.now_us
            &&& after.state matches BurstState::BurstActive {
                packets_remaining,
                inter_packet_delay_us,
                burst_type,
                current_packet_index,
                total_packets,
            } && {
                &&& current_packet_index == 0
                &&& packets_remaining == total_packets
                &&& exists|i: int|
                    0 <= i < model.burst_patterns@.len() && {
                        let p = #[trigger] model.burst_patterns@[i];
                        &&& p.burst_type == burst_type
                        &&& p.packet_count_min <= total_packets <= p.packet_count_max
                        &&& p.packet_count_min <= samples.packet_count <= p.packet_count_max
                            ==> total_packets == samples.packet_count
                        &&& inter_packet_delay_us <= p.inter_packet_delay_max_us
                        &&& inter_packet_delay_us + 1000 > p.inter_packet_delay_min_us
                        &&& p.inter_packet_delay_min_us <= 1000 * samples.inter_packet_delay_ms
                            <= p.inter_packet_delay_max_us ==> inter_packet_delay_us == 1000
                            * samples.inter_packet_delay_ms
                    }
            }
        }),
{
    let patterns = model.burst_patterns@;
    let i = pattern_index(patterns, model.probability_scale_micro as int, roll, 0);
    lemma_pattern_index_fits(patterns, model.probability_scale_micro as int, roll, 0);
    let p = patterns[i];
    assert(model.burst_patterns@[i] == p);
}

proof fn lemma_pattern_index_fits(
    patterns: Seq<BurstPatternModel>,
    scale: int,
    roll: int,
    i: int,
)
    requires
        0 <= i < patterns.len(),
    ensures
        i <= pattern_index(patterns, scale, roll, i) < patterns.len(),
    decreases patterns.len() - i,
{
    if i < patterns.len() - 1 {
        lemma_pattern_index_fits(patterns, scale, roll, i + 1);
    }
}

/// A roll selects the pattern whose part of the probabilities it falls into.
pub proof fn law_rolls_select_patterns(
    patterns: Seq<BurstPatternModel>,
    scale: int,
    roll: int,
    i: int,
)
    requires
        0 <= i < patterns.len(),
    ensures
        ({
            let k = pattern_index(patterns, scale, roll, i);
            &&& i <= k < patterns.len()
            &&& k < patterns.len() - 1 ==> roll * scale <= patterns[k].cumulative_micro
                * 0x10_0000_0000_0000
            &&& forall|j: int|
                i <= j < k ==> roll * scale > (#[trigger] patterns[j]).cumulative_micro
                    * 0x10_0000_0000_0000
        }),
    decreases patterns.len() - i,
{
    if i < patterns.len() - 1 && roll * scale > patterns[i].cumulative_micro * 0x10_0000_0000_0000 {
        law_rolls_select_patterns(patterns, scale, roll, i + 1);
    }
}

/// Without data a burst starts when the drawn time between bursts is over, which is never less than
/// one second or more than thirty.
pub proof fn law_bursts_come_in_time(
    r: Round,
    model: StatisticalGameTrafficModel,
    samples: BurstSamples,
    roll: int,
)
    requires
        r.state is Idle,
        r.pending.len() == 0,
        model.burst_patterns@.len() > 0,
        r.last_check_us <= samples.now_us,
    ensures
        ({
            let starts = transitioned(r, model, samples, roll).state is BurstActive;
            let passed = samples.now_us - r.last_check_us;
            &&& passed >= 30_000_000 ==> starts
            &&& passed < 1_000_000 ==> !starts
            &&& 1000 <= samples.inter_burst_ms <= 30_000 ==> (starts <==> passed >= 1000
                * samples.inter_burst_ms)
            &&& !starts ==> transitioned(r, model, samples, roll) == r
        }),
{
}

/// A burst without packets left cools down for the drawn time, between half a second and eight, and
/// one with packets left goes on.
pub proof fn law_finished_bursts_cool_down(
    r: Round,
    model: StatisticalGameTrafficModel,
    samples: BurstSamples,
    roll: int,
)
    requires
        r.state is BurstActive,
    ensures
        r.state->packets_remaining > 0 ==> transitioned(r, model, samples, roll) == r,
        r.state->packets_remaining == 0 ==> (transitioned(r, model, samples, roll).state matches
            BurstState::PostBurstCooldown { cooldown_remaining_us, burst_type_just_finished } && {
            &&& burst_type_just_finished == r.state->BurstActive_burst_type
            &&& 500_000 <= cooldown_remaining_us <= 8_000_000
            &&& 500 <= samples.cooldown_ms <= 8000 ==> cooldown_remaining_us == 1000
                * samples.cooldown_ms
        }),
{
}

/// A cooldown that is over goes idle, and one that is not goes on.
pub proof fn law_finished_cooldowns_go_idle(
    r: Round,
    model: StatisticalGameTrafficModel,
    samples: BurstSamples,
    roll: int,
)
    requires
        r.state is PostBurstCooldown,
    ensures
        transitioned(r, model, samples, roll).state is Idle <==> r.state->cooldown_remaining_us == 0,
        r.state->cooldown_remaining_us > 0 ==> transitioned(r, model, samples, roll) == r,
{
}

/// A round of a burst sends as many packets as were drawn, or all that are left: each is counted once,
/// and the burst ends when all are sent.
pub proof fn law_bursts_count_their_packets(
    r: Round,
    model: StatisticalGameTrafficModel,
    samples: BurstSamples,
    roll: int,
    n: int,
)
    requires
        r.state is BurstActive,
        0 <= n,
        r.state->current_packet_index + r.state->packets_remaining <= usize::MAX,
    ensures
        ({
            let (before, after) = (r.state, acted(r, model, samples, roll, n).0.state);
            let sent = after->current_packet_index - before->current_packet_index;
            &&& after is BurstActive
            &&& sent == if n < before->packets_remaining {
                n
            } else {
                before->packets_remaining as int
            }
            &&& after->packets_remaining + sent == before->packets_remaining
            &&& after->total_packets == before->total_packets
            &&& after->inter_packet_delay_us == before->inter_packet_delay_us
            &&& n >= before->packets_remaining ==> after->packets_remaining == 0
        }),
{
}

/// Whether what a burst plans fits its pattern and its pace: nothing is larger than the pattern's
/// packets, a filler is as large as they are, and what does not wait for the pace of the burst waits
/// for three fifths of it. Padding follows at once.
pub open spec fn fits_burst(p: Planned, low: int, high: int, delay_us: int) -> bool {
    match p {
        Planned::Send { data, delay_us: t } => data.len() <= high && (t == delay_us || (5 * t <= 3
            * delay_us && 3 * delay_us < 5 * t + 5)),
        Planned::Filler { size, delay_us: t, .. } => low <= size <= high && (t == delay_us || (5 * t
            <= 3 * delay_us && 3 * delay_us < 5 * t + 5)),
        Planned::Pad { size, delay_us: t } => 0 < size <= high && t == 100,
        Planned::Split { pieces, delay_us: t } => (forall|k: int|
            0 <= k < pieces.len() ==> 0 < (#[trigger] pieces[k]).len() <= high) && (t == delay_us || (5
            * t <= 3 * delay_us && 3 * delay_us < 5 * t + 5)),
        Planned::Keepalive { .. } => false,
    }
}

/// The packets of a burst fit its pattern and its pace.
pub proof fn law_burst_packets_fit_the_pattern(
    start: Progress,
    pattern: BurstPatternModel,
    samples: BurstSamples,
    delay_us: int,
    n: int,
)
    requires
        0 <= n <= 5,
        start.actions.len() == 0,
        pattern.size_min <= pattern.size_max,
        pattern.size_max >= 1,
        forall|k: int|
            0 <= k < 5 ==> clamp(
                #[trigger] samples.burst_sizes@[k] as int,
                pattern.size_min as int,
                pattern.size_max as int,
            ) >= 1,
    ensures
        forall|i: int|
            0 <= i < burst_sent(start, pattern, samples, delay_us, n).actions.len() ==> fits_burst(
                #[trigger] burst_sent(start, pattern, samples, delay_us, n).actions[i],
                pattern.size_min as int,
                pattern.size_max as int,
                delay_us,
            ),
        n >= 1 ==> burst_sent(start, pattern, samples, delay_us, n).actions.len() >= 1,
        n >= 1 ==> match burst_sent(start, pattern, samples, delay_us, n).actions[0] {
            Planned::Send { delay_us: t, .. } => t == delay_us,
            Planned::Filler { delay_us: t, .. } => t == delay_us,
            Planned::Split { delay_us: t, .. } => t == delay_us,
            _ => false,
        },
    decreases n,
{
    if n > 0 {
        law_burst_packets_fit_the_pattern(start, pattern, samples, delay_us, n - 1);
        let p = burst_sent(start, pattern, samples, delay_us, n - 1);
        let q = burst_sent(start, pattern, samples, delay_us, n);
        let size = clamp(
            samples.burst_sizes@[n - 1] as int,
            pattern.size_min as int,
            pattern.size_max as int,
        );
        assert(size >= 1);
        if p.pending.len() > 0 && p.pending[0].len() > size {
            lemma_split_sizes(p.pending[0], size);
        }
        assert forall|i: int| 0 <= i < q.actions.len() implies fits_burst(
            #[trigger] q.actions[i],
            pattern.size_min as int,
            pattern.size_max as int,
            delay_us,
        ) by {
            if i < p.actions.len() {
                assert(q.actions[i] == p.actions[i]);
            }
        }
        if n > 1 {
            assert(q.actions[0] == p.actions[0]);
        }
    }
}

proof fn lemma_split_sizes(data: Seq<u8>, size: int)
    requires
        size >= 1,
    ensures
        forall|k: int|
            0 <= k < bytes::split_at_size(data, size).len() ==> 0 < (#[trigger] bytes::split_at_size(
                data,
                size,
            )[k]).len() <= size,
    decreases data.len(),
{
    if data.len() > size {
        let rest = data.subrange(size, data.len() as int);
        lemma_split_sizes(rest, size);
        let all = bytes::split_at_size(data, size);
        let later = bytes::split_at_size(rest, size);
        assert forall|k: int| 0 <= k < all.len() implies 0 < (#[trigger] all[k]).len() <= size by {
            if k > 0 {
                assert(all[k] == later[k - 1]);
            }
        }
    }
}

/// An idle engine without data keeps the connection alive, after between 50 milliseconds and five
/// seconds; as long as was drawn, where that lies in between.
pub proof fn law_idle_engines_keep_alive(
    r: Round,
    model: StatisticalGameTrafficModel,
    samples: BurstSamples,
    roll: int,
    n: int,
)
    requires
        r.state is Idle,
        r.pending.len() == 0,
    ensures
        acted(r, model, samples, roll, n).0 == r,
        acted(r, model, samples, roll, n).1.len() == 1,
        acted(r, model, samples, roll, n).1[0] matches Planned::Keepalive { delay_us } && 50_000
            <= delay_us <= 5_000_000 && (50 <= samples.idle_delays_ms@[0] <= 5000 ==> delay_us
            == 1000 * samples.idle_delays_ms@[0]),
{
}

/// The size of a packet outside of bursts lies within 32 to 1500 bytes and is the drawn one where that
/// is allowed.
pub proof fn law_idle_sizes_are_the_drawn_ones(c: Seq<GaussianComponentDef>, drawn: int)
    requires
        has_idle_sizes(c),
    ensures
        32 <= idle_size(c, drawn) <= 1500,
        idle_low(c) <= 1_000_000 * drawn <= idle_high(c) ==> idle_size(c, drawn) == drawn,
        idle_low(c) < 1_000_000 * (idle_size(c, drawn) + 1),
        1_000_000 * idle_size(c, drawn) <= idle_high(c),
{
}

/// Sizes outside of bursts reach three deviations to both sides of every component, as far as packets
/// go.
pub proof fn law_idle_sizes_reach_all_components(c: Seq<GaussianComponentDef>, n: int, i: int)
    requires
        0 <= i < n <= c.len(),
    ensures
        lowest(c, n) <= c[i].mean_micro - 3 * c[i].std_dev_micro,
        highest(c, n) >= c[i].mean_micro + 3 * c[i].std_dev_micro,
    decreases n,
{
    if i < n - 1 {
        law_idle_sizes_reach_all_components(c, n - 1, i);
    }
}

/// A roll selects the component whose part of the weights it falls into.
pub proof fn law_rolls_select_components(c: Seq<GaussianComponentDef>, roll: int, i: int)
    requires
        0 <= i < c.len(),
    ensures
        ({
            let k = component_index(c, roll, i);
            let all = weight_mass(c, c.len() as int);
            &&& i <= k < c.len()
            &&& k > i ==> roll * all > weight_mass(c, k) * 0x10_0000_0000_0000
            &&& k < c.len() - 1 ==> roll * all <= weight_mass(c, k + 1) * 0x10_0000_0000_0000
        }),
    decreases c.len() - i,
{
    if i < c.len() - 1 && roll * weight_mass(c, c.len() as int) > weight_mass(c, i + 1)
        * 0x10_0000_0000_0000 {
        law_rolls_select_components(c, roll, i + 1);
    }
}

/// A cooldown runs down by the time that has passed since the engine last looked, and not below
/// nothing.
pub proof fn law_cooldowns_run_down(
    r: Round,
    model: StatisticalGameTrafficModel,
    samples: BurstSamples,
    roll: int,
    n: int,
)
    requires
        r.state is PostBurstCooldown,
        r.last_check_us <= samples.now_us,
    ensures
        ({
            let after = acted(r, model, samples, roll, n);
            let passed = samples.now_us - r.last_check_us;
            &&& after.0.state is PostBurstCooldown
            &&& passed >= r.state->cooldown_remaining_us
                ==> after.0.state->cooldown_remaining_us == 0
            &&& passed < r.state->cooldown_remaining_us ==> after.0.state->cooldown_remaining_us
                == r.state->cooldown_remaining_us - passed
            &&& after.1.len() <= 1
            &&& after.0.state->burst_type_just_finished == r.state->burst_type_just_finished
        }),
{
}

/// A cooldown sends the more the more of it is over: never when it begins, and in no more than four of
/// five rounds; a round that sends would also send later in the cooldown, and with a lower roll.
pub proof fn law_cooldowns_send_more_and_more(
    remaining_us: int,
    later_us: int,
    mean_ms: int,
    roll: int,
    lower: int,
)
    requires
        0 < mean_ms,
        0 <= later_us <= remaining_us <= 1000 * mean_ms,
        0 <= lower <= roll < 0x10_0000_0000_0000,
    ensures
        !cooldown_sends(1000 * mean_ms, mean_ms, roll),
        5 * roll >= 4 * 0x10_0000_0000_0000 ==> !cooldown_sends(remaining_us, mean_ms, roll),
        cooldown_sends(remaining_us, mean_ms, roll) ==> cooldown_sends(later_us, mean_ms, lower),
        5 * roll < 4 * 0x10_0000_0000_0000 ==> cooldown_sends(0, mean_ms, roll),
{
    let (a, b) = (mean_ms - remaining_us / 1000, mean_ms - later_us / 1000);
    let m = mean_ms * mean_ms;
    assert(a * a <= b * b) by (nonlinear_arith)
        requires
            0 <= a <= b,
    ;
    assert(m > 0 && lower * m <= roll * m) by (nonlinear_arith)
        requires
            m == mean_ms * mean_ms,
            mean_ms > 0,
            lower <= roll,
    ;
    assert(0int * 0int == 0 && roll * m >= 0) by (nonlinear_arith)
        requires
            roll >= 0,
            m > 0,
    ;
    assert(roll * m < m * 0x10_0000_0000_0000) by (nonlinear_arith)
        requires
            0 <= roll < 0x10_0000_0000_0000,
            m > 0,
    ;
    assert((1000 * mean_ms) / 1000 == mean_ms);
}

/// What a cooldown sends is at most 500 bytes long, smaller than a packet while idle unless that is
/// below 32 bytes, and waits between 200 milliseconds and three seconds.
pub proof fn law_cooldown_packets_are_small(
    start: Progress,
    model: StatisticalGameTrafficModel,
    samples: BurstSamples,
    kind: BurstType,
    drawn: int,
)
    requires
        has_idle_sizes(model.size_components@),
        start.actions.len() == 0,
    ensures
        ({
            let size = cooldown_packet_size(model, drawn, kind);
            let p = cooldown_sent(start, samples, size, true);
            &&& 32 <= size <= 500
            &&& size > 32 ==> 10 * size <= 9 * idle_size(model.size_components@, drawn)
            &&& cooldown_sent(start, samples, size, false) == start
            &&& p.actions.len() == 1
            &&& match p.actions[0] {
                Planned::Send { data, delay_us } => data.len() <= size && 200_000 <= delay_us
                    <= 3_000_000 && (200 <= samples.cooldown_delay_ms <= 3000 ==> delay_us == 1000
                    * samples.cooldown_delay_ms),
                Planned::Filler { size: s, delay_us, .. } => s == size && 200_000 <= delay_us
                    <= 3_000_000 && (200 <= samples.cooldown_delay_ms <= 3000 ==> delay_us == 1000
                    * samples.cooldown_delay_ms),
                _ => false,
            }
        }),
{
    law_idle_sizes_are_the_drawn_ones(model.size_components@, drawn);
}

/// Bursts differ by what they stand for. Loading a map sends the most packets at once, shrinks them
/// the most and cools down the longest; voice sends one at a time, shrinks them the least and cools
/// down the shortest.
pub proof fn law_kinds_of_bursts(kind: BurstType)
    ensures
        1 <= kind.tick_range().0 <= kind.tick_range().1 <= 5,
        5 <= kind.shrinks_to() <= 9,
        kind != BurstType::MapLoad ==> kind.tick_range().1 < BurstType::MapLoad.tick_range().0 + 2,
        kind != BurstType::MapLoad ==> kind.tick_range().1 < BurstType::MapLoad.tick_range().1,
        kind != BurstType::MapLoad ==> kind.shrinks_to() > BurstType::MapLoad.shrinks_to(),
        kind != BurstType::MapLoad ==> kind.cooldown_law_ms().0 < BurstType::MapLoad.cooldown_law_ms().0,
        kind != BurstType::VoiceChat ==> kind.tick_range().1 > BurstType::VoiceChat.tick_range().1,
        kind != BurstType::VoiceChat ==> kind.shrinks_to() < BurstType::VoiceChat.shrinks_to(),
        kind != BurstType::VoiceChat ==> kind.cooldown_law_ms().0
            > BurstType::VoiceChat.cooldown_law_ms().0,
        kind.cooldown_law_ms().1 < kind.cooldown_law_ms().0,
        500 <= kind.cooldown_law_ms().0 <= 8000,
{
}

/// The word in a name tells the burst: shots before movement, movement before maps, maps before voice,
/// and voice before inventories; and a burst of a kind other than movement has a word of it in its
/// name.
pub proof fn law_words_tell_the_burst(s: Seq<char>)
    ensures
        text::has_text(s, "shoot"@) || text::has_text(s, "fire"@) || text::has_text(s, "attack"@)
            <==> burst_type_of(s) == BurstType::Shooting,
        burst_type_of(s) == BurstType::MapLoad ==> text::has_text(s, "map"@) || text::has_text(
            s,
            "load"@,
        ) || text::has_text(s, "chunk"@),
        burst_type_of(s) == BurstType::VoiceChat ==> text::has_text(s, "voice"@) || text::has_text(
            s,
            "chat"@,
        ) || text::has_text(s, "audio"@),
        burst_type_of(s) == BurstType::Inventory ==> text::has_text(s, "inventory"@)
            || text::has_text(s, "menu"@) || text::has_text(s, "item"@),
        (text::has_text(s, "move"@) || text::has_text(s, "position"@)) && !(text::has_text(s, "shoot"@)
            || text::has_text(s, "fire"@) || text::has_text(s, "attack"@)) ==> burst_type_of(s)
            == BurstType::Movement,
        text::has_text(s, "voice"@) ==> !(burst_type_of(s) == BurstType::Inventory),
        text::has_text(s, "map"@) ==> !(burst_type_of(s) == BurstType::VoiceChat) && !(burst_type_of(s)
            == BurstType::Inventory),
{
}

/// A filler is as long as was planned, and acknowledges what came before it.
pub proof fn law_fillers_have_their_size(data: Seq<u8>, size: int, clock_ms: u32, sn: u32)
    requires
        size >= 0,
        is_filler(data, size, clock_ms, sn),
    ensures
        data.len() == size,
        sn < u32::MAX ==> sn_after(sn, size) == if size >= 24 {
            sn + 1
        } else {
            sn as int
        },
{
    if size >= 24 {
        let (conv, noise) = choose|conv: u32, noise: Seq<u8>|
            conv >= 1 && noise.len() == size - 24 && data == #[trigger] filler_segment(
                conv,
                clock_ms,
                sn,
                noise,
            );
        packet::lemma_segment_fields(
            conv,
            0,
            clock_ms,
            sn,
            if sn == 0 {
                0
            } else {
                (sn - 1) as u32
            },
            bytes::low_u32(24 + noise.len() as int),
            noise,
        );
    }
}

/// Probabilities are parts of one, where they come near to that, and of their sum else.
pub proof fn law_probabilities_are_parts(total: int)
    requires
        total > 0,
    ensures
        scale_of(total) > 0,
        100 * total >= 101_000_000 || 100 * total <= 99_000_000 ==> scale_of(total) == total || total
            == 990_000 || total == 1_010_000,
        990_000 <= total <= 1_010_000 ==> scale_of(total) == 1_000_000,
{
}

/// The cooldown after a burst is the usual one of two and a half seconds, scaled by what the burst
/// stands for, and so is its deviation.
pub proof fn law_cooldowns_scale_the_usual_one(kind: BurstType)
    ensures
        10 * kind.cooldown_law_ms().0 == 2500 * (match kind {
            BurstType::Shooting => 12int,
            BurstType::Movement => 6,
            BurstType::MapLoad => 15,
            BurstType::VoiceChat => 4,
            BurstType::Inventory => 8,
        }),
        10 * kind.cooldown_law_ms().1 == 800 * (match kind {
            BurstType::Shooting => 10int,
            BurstType::Movement => 8,
            BurstType::MapLoad => 12,
            BurstType::VoiceChat => 5,
            BurstType::Inventory => 6,
        }),
{
}

/// The pattern at which a profile is refused has no packets or no gaps, and no pattern before it is
/// like that; where none is, none is refused.
pub proof fn law_first_flat_pattern_is_found(patterns: Seq<BurstPatternDef>, from: int)
    requires
        0 <= from <= patterns.len(),
    ensures
        from <= first_flat(patterns, from) <= patterns.len(),
        first_flat(patterns, from) < patterns.len() ==> patterns[first_flat(
            patterns,
            from,
        )].packet_count_range.1 == 0 || patterns[first_flat(
            patterns,
            from,
        )].inter_packet_time_range_us.1 == 0,
        forall|k: int|
            from <= k < first_flat(patterns, from) ==> (
            #[trigger] patterns[k]).packet_count_range.1 > 0
                && patterns[k].inter_packet_time_range_us.1 > 0,
    decreases patterns.len() - from,
{
    if from < patterns.len() && !pattern_is_flat(patterns[from]) {
        law_first_flat_pattern_is_found(patterns, from + 1);
    }
}

} // verus!
