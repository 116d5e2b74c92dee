//! Traffic profiles of games: sizes, timing and bursts of their packets.
//!
//! Fractions are held in millionths and times in microseconds.

use crate::utils::text::{join, same};
use crate::utils::PhantomError;
#[allow(unused_imports)]
use crate::masking::statistical_model;
use vstd::prelude::*;

verus! {

/// One bell curve of a mixture of packet sizes.
#[derive(Debug, Clone, Copy, PartialEq, Eq)]
pub struct GaussianComponentDef {
    pub mean_micro: i64,
    pub std_dev_micro: i64,
    pub weight_micro: u64,
}

/// One gap between packets and how likely it is.
#[derive(Debug, Clone, Copy, PartialEq, Eq)]
pub struct TimingBinDef {
    pub time_us: u64,
    pub probability_micro: u64,
}

/// A kind of burst.
#[derive(Debug)]
pub struct BurstPatternDef {
    pub name: String,
    pub packet_count_range: (usize, usize),
    pub inter_packet_time_range_us: (u64, u64),
    pub size_range: (usize, usize),
    pub probability_micro: u64,
}

#[derive(Debug, Clone, Copy, PartialEq, Eq)]
pub struct EntropyProfileDef {
    pub mean_entropy_micro: u64,
    pub entropy_std_micro: u64,
}

#[derive(Debug)]
pub struct GamingProfile {
    pub name: String,
    pub packet_size_min: u16,
    pub packet_size_max: u16,
    pub heartbeat_interval_ms: u64,
    pub jitter_ms: u64,
    pub frequency_hz: u16,
    pub size_distribution: Vec<GaussianComponentDef>,
    pub timing_distribution: Vec<TimingBinDef>,
    pub burst_patterns: Vec<BurstPatternDef>,
    pub client_server_size_ratio_micro: (u64, u64),
    pub entropy_profile: Option<EntropyProfileDef>,
}

/// Whether two kinds of burst are the same, names read as text.
pub open spec fn same_burst(a: BurstPatternDef, b: BurstPatternDef) -> bool {
    &&& a.name@ == b.name@
    &&& a.packet_count_range == b.packet_count_range
    &&& a.inter_packet_time_range_us == b.inter_packet_time_range_us
    &&& a.size_range == b.size_range
    &&& a.probability_micro == b.probability_micro
}

/// Whether two profiles say the same.
pub open spec fn same_profile(a: GamingProfile, b: GamingProfile) -> bool {
    &&& a.name@ == b.name@
    &&& a.packet_size_min == b.packet_size_min
    &&& a.packet_size_max == b.packet_size_max
    &&& a.heartbeat_interval_ms == b.heartbeat_interval_ms
    &&& a.jitter_ms == b.jitter_ms
    &&& a.frequency_hz == b.frequency_hz
    &&& a.size_distribution@ == b.size_distribution@
    &&& a.timing_distribution@ == b.timing_distribution@
    &&& a.burst_patterns@.len() == b.burst_patterns@.len()
    &&& forall|i: int|
        0 <= i < a.burst_patterns@.len() ==> same_burst(
            #[trigger] a.burst_patterns@[i],
            b.burst_patterns@[i],
        )
    &&& a.client_server_size_ratio_micro == b.client_server_size_ratio_micro
    &&& a.entropy_profile == b.entropy_profile
}

impl Clone for BurstPatternDef {
    fn clone(&self) -> (c: Self)
        ensures
            same_burst(c, *self),
    {
        BurstPatternDef {
            name: self.name.clone(),
            packet_count_range: self.packet_count_range,
            inter_packet_time_range_us: self.inter_packet_time_range_us,
            size_range: self.size_range,
            probability_micro: self.probability_micro,
        }
    }
}

impl Clone for GamingProfile {
    fn clone(&self) -> (c: Self)
        ensures
            same_profile(c, *self),
    {
        let size_distribution = self.size_distribution.clone();
        assert(size_distribution@ =~= self.size_distribution@);
        let timing_distribution = self.timing_distribution.clone();
        assert(timing_distribution@ =~= self.timing_distribution@);
        let mut burst_patterns: Vec<BurstPatternDef> = Vec::new();
        let mut i: usize = 0;
        while i < self.burst_patterns.len()
            invariant
                i <= self.burst_patterns@.len(),
                burst_patterns@.len() == i,
                forall|k: int|
                    0 <= k < i ==> same_burst(
                        #[trigger] burst_patterns@[k],
                        self.burst_patterns@[k],
                    ),
            decreases self.burst_patterns@.len() - i,
        {
            burst_patterns.push(self.burst_patterns[i].clone());
            i += 1;
        }
        GamingProfile {
            name: self.name.clone(),
            packet_size_min: self.packet_size_min,
            packet_size_max: self.packet_size_max,
            heartbeat_interval_ms: self.heartbeat_interval_ms,
            jitter_ms: self.jitter_ms,
            frequency_hz: self.frequency_hz,
            size_distribution,
            timing_distribution,
            burst_patterns,
            client_server_size_ratio_micro: self.client_server_size_ratio_micro,
            entropy_profile: self.entropy_profile,
        }
    }
}

/// Smallest size, largest size, heartbeat in milliseconds, jitter in milliseconds,
/// packets per second.
pub const VALORANT_SHAPE: (u16, u16, u64, u64, u16) = (60, 300, 30000, 50, 60);

pub const CS2_SHAPE: (u16, u16, u64, u64, u16) = (80, 400, 25000, 40, 64);

pub const MINECRAFT_SHAPE: (u16, u16, u64, u64, u16) = (100, 1400, 20000, 100, 20);

/// Mean, standard deviation and weight of each size component.
pub const VALORANT_SIZES: [(i64, i64, u64); 3] = [
    (75_000_000, 12_000_000, 550_000),
    (180_000_000, 40_000_000, 300_000),
    (280_000_000, 20_000_000, 150_000),
];

pub const CS2_SIZES: [(i64, i64, u64); 4] = [
    (90_000_000, 15_000_000, 500_000),
    (200_000_000, 50_000_000, 300_000),
    (400_000_000, 80_000_000, 150_000),
    (1_000_000_000, 100_000_000, 50_000),
];

pub const MINECRAFT_SIZES: [(i64, i64, u64); 4] = [
    (150_000_000, 40_000_000, 400_000),
    (350_000_000, 80_000_000, 350_000),
    (700_000_000, 150_000_000, 200_000),
    (1_200_000_000, 100_000_000, 50_000),
];

/// Gap and probability of each timing bin.
pub const VALORANT_TIMES: [(u64, u64); 4] = [
    (16_670, 700_000),
    (33_330, 150_000),
    (50_000, 100_000),
    (100_000, 50_000),
];

pub const CS2_TIMES: [(u64, u64); 4] = [
    (15_630, 650_000),
    (31_250, 180_000),
    (46_880, 100_000),
    (100_000, 70_000),
];

pub const MINECRAFT_TIMES: [(u64, u64); 4] = [
    (50_000, 500_000),
    (100_000, 250_000),
    (200_000, 150_000),
    (500_000, 100_000),
];

/// Name, packet counts, gaps, sizes and probability of each burst pattern.
pub const VALORANT_BURSTS: [(
    &'static str,
    (usize, usize),
    (u64, u64),
    (usize, usize),
    u64,
); 2] = [
    ("shooting", (5, 10), (5_000, 15_000), (60, 150), 120_000),
    ("movement", (2, 4), (15_000, 20_000), (60, 100), 400_000),
];

pub const CS2_BURSTS: [(&'static str, (usize, usize), (u64, u64), (usize, usize), u64); 3] = [
    ("shooting", (5, 10), (5_000, 12_000), (80, 200), 150_000),
    ("movement", (2, 5), (14_000, 18_000), (80, 120), 450_000),
    ("map_load", (15, 30), (2_000, 8_000), (800, 1200), 20_000),
];

pub const MINECRAFT_BURSTS: [(
    &'static str,
    (usize, usize),
    (u64, u64),
    (usize, usize),
    u64,
); 2] = [
    ("chunk_load", (10, 25), (5_000, 20_000), (500, 1400), 50_000),
    ("entity_update", (3, 8), (40_000, 60_000), (100, 400), 250_000),
];

/// Client share, server share, mean entropy and its deviation.
pub const VALORANT_RATIO: (u64, u64, u64, u64) = (550_000, 1_000_000, 7_200_000, 300_000);

pub const CS2_RATIO: (u64, u64, u64, u64) = (500_000, 1_000_000, 7_400_000, 200_000);

pub const MINECRAFT_RATIO: (u64, u64, u64, u64) = (450_000, 1_000_000, 6_800_000, 400_000);

/// The share of client to server packet sizes where a profile names none.
pub const DEFAULT_RATIO: (u64, u64) = (600_000, 1_000_000);

/// The profiles that exist without any file.
pub const PROFILE_NAMES: [&'static str; 3] = ["valorant", "cs2", "minecraft"];

/// Whether the components are those of the table.
pub open spec fn sizes_from(v: Seq<GaussianComponentDef>, rows: Seq<(i64, i64, u64)>) -> bool {
    v.len() == rows.len() && forall|i: int|
        0 <= i < v.len() ==> #[trigger] v[i] == (GaussianComponentDef {
            mean_micro: rows[i].0,
            std_dev_micro: rows[i].1,
            weight_micro: rows[i].2,
        })
}

/// Whether the bins are those of the table.
pub open spec fn times_from(v: Seq<TimingBinDef>, rows: Seq<(u64, u64)>) -> bool {
    v.len() == rows.len() && forall|i: int|
        0 <= i < v.len() ==> #[trigger] v[i] == (TimingBinDef {
            time_us: rows[i].0,
            probability_micro: rows[i].1,
        })
}

/// Whether the pattern is that of the row.
pub open spec fn burst_from(
    d: BurstPatternDef,
    row: (&'static str, (usize, usize), (u64, u64), (usize, usize), u64),
) -> bool {
    &&& d.name@ == row.0@
    &&& d.packet_count_range == row.1
    &&& d.inter_packet_time_range_us == row.2
    &&& d.size_range == row.3
    &&& d.probability_micro == row.4
}

/// Whether the patterns are those of the table.
pub open spec fn bursts_from(
    v: Seq<BurstPatternDef>,
    rows: Seq<(&'static str, (usize, usize), (u64, u64), (usize, usize), u64)>,
) -> bool {
    v.len() == rows.len() && forall|i: int|
        0 <= i < v.len() ==> burst_from(#[trigger] v[i], rows[i])
}

/// Whether `p` is the profile that the tables describe.
pub open spec fn profile_from(
    p: GamingProfile,
    name: Seq<char>,
    shape: (u16, u16, u64, u64, u16),
    sizes: Seq<(i64, i64, u64)>,
    times: Seq<(u64, u64)>,
    bursts: Seq<(&'static str, (usize, usize), (u64, u64), (usize, usize), u64)>,
    ratio: (u64, u64),
    entropy: Option<EntropyProfileDef>,
) -> bool {
    &&& p.name@ == name
    &&& p.packet_size_min == shape.0
    &&& p.packet_size_max == shape.1
    &&& p.heartbeat_interval_ms == shape.2
    &&& p.jitter_ms == shape.3
    &&& p.frequency_hz == shape.4
    &&& sizes_from(p.size_distribution@, sizes)
    &&& times_from(p.timing_distribution@, times)
    &&& bursts_from(p.burst_patterns@, bursts)
    &&& p.client_server_size_ratio_micro == ratio
    &&& p.entropy_profile == entropy
}

pub open spec fn entropy_of(row: (u64, u64, u64, u64)) -> Option<EntropyProfileDef> {
    Some(EntropyProfileDef { mean_entropy_micro: row.2, entropy_std_micro: row.3 })
}

/// The profile used where nothing more is known: the general shape of the first one,
/// without distributions.
pub open spec fn is_default(p: GamingProfile) -> bool {
    profile_from(
        p,
        "valorant"@,
        VALORANT_SHAPE,
        Seq::empty(),
        Seq::empty(),
        Seq::empty(),
        DEFAULT_RATIO,
        None,
    )
}

/// Whether `p` is the built-in profile of this name.
pub open spec fn is_fallback(p: GamingProfile, name: Seq<char>) -> bool {
    if name == "valorant"@ {
        profile_from(
            p,
            name,
            VALORANT_SHAPE,
            VALORANT_SIZES@,
            VALORANT_TIMES@,
            VALORANT_BURSTS@,
            (VALORANT_RATIO.0, VALORANT_RATIO.1),
            entropy_of(VALORANT_RATIO),
        )
    } else if name == "cs2"@ {
        profile_from(
            p,
            name,
            CS2_SHAPE,
            CS2_SIZES@,
            CS2_TIMES@,
            CS2_BURSTS@,
            (CS2_RATIO.0, CS2_RATIO.1),
            entropy_of(CS2_RATIO),
        )
    } else if name == "minecraft"@ {
        profile_from(
            p,
            name,
            MINECRAFT_SHAPE,
            MINECRAFT_SIZES@,
            MINECRAFT_TIMES@,
            MINECRAFT_BURSTS@,
            (MINECRAFT_RATIO.0, MINECRAFT_RATIO.1),
            entropy_of(MINECRAFT_RATIO),
        )
    } else {
        is_default(p)
    }
}

fn size_components(rows: &[(i64, i64, u64)]) -> (v: Vec<GaussianComponentDef>)
    ensures
        sizes_from(v@, rows@),
{
    let mut v: Vec<GaussianComponentDef> = Vec::new();
    let mut i: usize = 0;
    while i < rows.len()
        invariant
            i <= rows@.len(),
            sizes_from(v@, rows@.subrange(0, i as int)),
        decreases rows@.len() - i,
    {
        v.push(
            GaussianComponentDef {
                mean_micro: rows[i].0,
                std_dev_micro: rows[i].1,
                weight_micro: rows[i].2,
            },
        );
        i = i + 1;
    }
    assert(rows@.subrange(0, i as int) =~= rows@);
    v
}

fn timing_bins(rows: &[(u64, u64)]) -> (v: Vec<TimingBinDef>)
    ensures
        times_from(v@, rows@),
{
    let mut v: Vec<TimingBinDef> = Vec::new();
    let mut i: usize = 0;
    while i < rows.len()
        invariant
            i <= rows@.len(),
            times_from(v@, rows@.subrange(0, i as int)),
        decreases rows@.len() - i,
    {
        v.push(TimingBinDef { time_us: rows[i].0, probability_micro: rows[i].1 });
        i = i + 1;
    }
    assert(rows@.subrange(0, i as int) =~= rows@);
    v
}

fn burst_defs(
    rows: &[(&'static str, (usize, usize), (u64, u64), (usize, usize), u64)],
) -> (v: Vec<BurstPatternDef>)
    ensures
        bursts_from(v@, rows@),
{
    let mut v: Vec<BurstPatternDef> = Vec::new();
    let mut i: usize = 0;
    while i < rows.len()
        invariant
            i <= rows@.len(),
            v@.len() == i,
            forall|k: int| 0 <= k < i ==> burst_from(#[trigger] v@[k], rows@[k]),
        decreases rows@.len() - i,
    {
        v.push(
            BurstPatternDef {
                name: rows[i].0.to_string(),
                packet_count_range: rows[i].1,
                inter_packet_time_range_us: rows[i].2,
                size_range: rows[i].3,
                probability_micro: rows[i].4,
            },
        );
        i = i + 1;
    }
    v
}

fn table_profile(
    name: &str,
    shape: (u16, u16, u64, u64, u16),
    sizes: &[(i64, i64, u64)],
    times: &[(u64, u64)],
    bursts: &[(&'static str, (usize, usize), (u64, u64), (usize, usize), u64)],
    ratio: (u64, u64),
    entropy: Option<EntropyProfileDef>,
) -> (p: GamingProfile)
    ensures
        profile_from(p, name@, shape, sizes@, times@, bursts@, ratio, entropy),
{
    GamingProfile {
        name: name.to_string(),
        packet_size_min: shape.0,
        packet_size_max: shape.1,
        heartbeat_interval_ms: shape.2,
        jitter_ms: shape.3,
        frequency_hz: shape.4,
        size_distribution: size_components(sizes),
        timing_distribution: timing_bins(times),
        burst_patterns: burst_defs(bursts),
        client_server_size_ratio_micro: ratio,
        entropy_profile: entropy,
    }
}

/// The entropy half of a ratio row.
fn entropy_row(row: (u64, u64, u64, u64)) -> (e: Option<EntropyProfileDef>)
    ensures
        e == entropy_of(row),
{
    Some(EntropyProfileDef { mean_entropy_micro: row.2, entropy_std_micro: row.3 })
}

/// The built-in profile of this name, or the default one.
pub fn fallback_profile(name: &str) -> (p: GamingProfile)
    ensures
        is_fallback(p, name@),
{
    if same(name, "valorant") {
        table_profile(
            name,
            VALORANT_SHAPE,
            &VALORANT_SIZES,
            &VALORANT_TIMES,
            &VALORANT_BURSTS,
            (VALORANT_RATIO.0, VALORANT_RATIO.1),
            entropy_row(VALORANT_RATIO),
        )
    } else if same(name, "cs2") {
        table_profile(
            name,
            CS2_SHAPE,
            &CS2_SIZES,
            &CS2_TIMES,
            &CS2_BURSTS,
            (CS2_RATIO.0, CS2_RATIO.1),
            entropy_row(CS2_RATIO),
        )
    } else if same(name, "minecraft") {
        table_profile(
            name,
            MINECRAFT_SHAPE,
            &MINECRAFT_SIZES,
            &MINECRAFT_TIMES,
            &MINECRAFT_BURSTS,
            (MINECRAFT_RATIO.0, MINECRAFT_RATIO.1),
            entropy_row(MINECRAFT_RATIO),
        )
    } else {
        GamingProfile::default()
    }
}

impl Default for GamingProfile {
    fn default() -> (p: Self)
        ensures
            is_default(p),
    {
        GamingProfile {
            name: "valorant".to_string(),
            packet_size_min: VALORANT_SHAPE.0,
            packet_size_max: VALORANT_SHAPE.1,
            heartbeat_interval_ms: VALORANT_SHAPE.2,
            jitter_ms: VALORANT_SHAPE.3,
            frequency_hz: VALORANT_SHAPE.4,
            size_distribution: Vec::new(),
            timing_distribution: Vec::new(),
            burst_patterns: Vec::new(),
            client_server_size_ratio_micro: DEFAULT_RATIO,
            entropy_profile: None,
        }
    }
}

/// The share of client to server packet sizes where a profile names none.
pub fn default_direction_ratio() -> (r: (u64, u64))
    ensures
        r == DEFAULT_RATIO,
{
    DEFAULT_RATIO
}

impl GamingProfile {
    /// Where the profile of this name is kept.
    pub fn file_path(name: &str) -> (path: String)
        ensures
            path@ == "config/gaming-profiles/"@ + name@ + ".json"@,
    {
        join(join("config/gaming-profiles/", name).as_str(), ".json")
    }

    /// The error for a profile file that could not be read.
    pub fn read_failure(path: &str, cause: &str) -> (e: PhantomError)
        ensures
            e.is_config("Failed to read profile file "@ + path@ + ": "@ + cause@),
    {
        let head = join(join("Failed to read profile file ", path).as_str(), ": ");
        PhantomError::ConfigError(join(head.as_str(), cause))
    }

    /// The error for a profile file that could not be understood.
    pub fn parse_failure(path: &str, cause: &str) -> (e: PhantomError)
        ensures
            e.is_config("Failed to parse profile "@ + path@ + ": "@ + cause@),
    {
        let head = join(join("Failed to parse profile ", path).as_str(), ": ");
        PhantomError::ConfigError(join(head.as_str(), cause))
    }

    /// The three named profiles: what was loaded for each, or its built-in profile.
    pub fn default_profiles(loaded: Vec<Option<GamingProfile>>) -> (profiles: Vec<
        (String, GamingProfile),
    >)
        requires
            loaded@.len() == PROFILE_NAMES@.len(),
        ensures
            profiles@.len() == PROFILE_NAMES@.len(),
            forall|i: int|
                0 <= i < profiles@.len() ==> {
                    &&& (#[trigger] profiles@[i]).0@ == PROFILE_NAMES@[i]@
                    &&& match loaded@[i] {
                        Some(p) => profiles@[i].1 == p,
                        None => is_fallback(profiles@[i].1, PROFILE_NAMES@[i]@),
                    }
                },
    {
        let mut profiles: Vec<(String, GamingProfile)> = Vec::new();
        let mut rest: Vec<Option<GamingProfile>> = loaded;
        let mut i: usize = 0;
        while i < 3
            invariant
                i <= 3,
                loaded@.len() == 3,
                rest@ == loaded@.subrange(i as int, 3),
                profiles@.len() == i,
                forall|k: int|
                    0 <= k < i ==> {
                        &&& (#[trigger] profiles@[k]).0@ == PROFILE_NAMES@[k]@
                        &&& match loaded@[k] {
                            Some(p) => profiles@[k].1 == p,
                            None => is_fallback(profiles@[k].1, PROFILE_NAMES@[k]@),
                        }
                    },
            decreases 3 - i,
        {
            let profile = match rest.remove(0) {
                Some(p) => p,
                None => fallback_profile(PROFILE_NAMES[i]),
            };
            profiles.push((PROFILE_NAMES[i].to_string(), profile));
            i = i + 1;
            assert(rest@ =~= loaded@.subrange(i as int, 3));
        }
        profiles
    }
}

/// In every built-in profile the weights of the sizes and the probabilities of the gaps make up the
/// whole, sizes have room, and the most likely gap is one tick of the game.
pub proof fn law_builtin_profiles_are_whole(p: GamingProfile, name: Seq<char>)
    requires
        is_fallback(p, name),
        name == "valorant"@ || name == "cs2"@ || name == "minecraft"@,
    ensures
        p.name@ == name,
        p.packet_size_min < p.packet_size_max,
        statistical_model::mass(
            statistical_model::size_weights(p.size_distribution@),
            p.size_distribution@.len() as int,
        ) == 1_000_000,
        statistical_model::mass(
            statistical_model::timing_weights(p.timing_distribution@),
            p.timing_distribution@.len() as int,
        ) == 1_000_000,
        p.timing_distribution@.len() > 0,
        -400 <= p.timing_distribution@[0].time_us * p.frequency_hz - 1_000_000 <= 400,
        p.timing_distribution@[0].probability_micro >= 500_000,
        p.entropy_profile is Some,
        p.entropy_profile->Some_0.mean_entropy_micro <= 8_000_000,
{
    reveal_strlit("valorant");
    reveal_strlit("cs2");
    reveal_strlit("minecraft");
    assert("valorant"@.len() == 8 && "cs2"@.len() == 3 && "minecraft"@.len() == 9);
    let sizes = statistical_model::size_weights(p.size_distribution@);
    let times = statistical_model::timing_weights(p.timing_distribution@);
    reveal_with_fuel(statistical_model::mass, 5);
    assert(p.size_distribution@.len() == 3 || p.size_distribution@.len() == 4);
    assert(p.timing_distribution@.len() == 4);
    let d = p.size_distribution@;
    let t = p.timing_distribution@;
    assert(sizes[0] == d[0].weight_micro && sizes[1] == d[1].weight_micro && sizes[2]
        == d[2].weight_micro);
    if d.len() == 4 {
        assert(sizes[3] == d[3].weight_micro);
    }
    assert(times[0] == t[0].probability_micro && times[1] == t[1].probability_micro && times[2]
        == t[2].probability_micro && times[3] == t[3].probability_micro);
    let (gap, hz) = (t[0].time_us, p.frequency_hz);
    assert((gap == 16_670 && hz == 60) || (gap == 15_630 && hz == 64) || (gap == 50_000 && hz
        == 20));
}

} // verus!
