//! How a middlebox would judge a flow.
//!
//! Measured features and scores are in millionths: bytes, milliseconds and bits of
//! entropy alike.

use crate::masking::adversarial::PacketRecord;
use crate::masking::dpi_features::{
    DirectionFeatureExtractor, EntropyFeatureExtractor, PeriodicityExtractor, SizeFeatureExtractor,
    TimingFeatureExtractor,
};
pub use crate::masking::dpi_signatures::{
    DpiRegion, DpiSignature, DpiWeights, TimingPattern, TlsFingerprint,
};
use crate::masking::dpi_analysis::{
    analyze_flow, plain_target, DpiAnalysis, FeatureVector, FlowFacts, TargetStats,
};
use crate::masking::dpi_signatures::build_signature_database;
#[allow(unused_imports)]
use crate::masking::{dpi_analysis, dpi_features, dpi_signatures, periodicity};
use crate::utils::text::same;
use crate::utils::wide::Wide;
#[allow(unused_imports)]
use crate::utils::{spread, wide, window};
use vstd::prelude::*;

verus! {

/// One in the unit of features and scores.
pub const ONE: u64 = 1_000_000;

/// Features stay at or below this, which is more than a million times any number of 64 bits.
pub const FEATURE_LIMIT: u128 = 0x10_0000_0000_0000_0000_0000;

/// How many packets must have been seen before signatures are matched.
pub const SIGNATURE_WARMUP: u64 = 16;

/// How many packets each feature is measured over.
pub const FEATURE_WINDOW: usize = 256;

// ---- Verdicts ----

#[derive(Debug, Clone, Copy, PartialEq, Eq, Structural)]
pub enum TrafficType {
    Vpn,
    Tor,
    Proxy,
    Gaming,
    VoiceChat,
    Streaming,
    WebBrowsing,
    Unknown,
}

impl TrafficType {
    pub open spec fn label(self) -> Seq<char> {
        match self {
            TrafficType::Vpn => "VPN"@,
            TrafficType::Tor => "Tor"@,
            TrafficType::Proxy => "Proxy"@,
            TrafficType::Gaming => "Gaming"@,
            TrafficType::VoiceChat => "VoiceChat"@,
            TrafficType::Streaming => "Streaming"@,
            TrafficType::WebBrowsing => "WebBrowsing"@,
            TrafficType::Unknown => "Unknown"@,
        }
    }

    pub fn to_text(&self) -> (s: String)
        ensures
            s@ == self.label(),
    {
        match self {
            TrafficType::Vpn => "VPN".to_string(),
            TrafficType::Tor => "Tor".to_string(),
            TrafficType::Proxy => "Proxy".to_string(),
            TrafficType::Gaming => "Gaming".to_string(),
            TrafficType::VoiceChat => "VoiceChat".to_string(),
            TrafficType::Streaming => "Streaming".to_string(),
            TrafficType::WebBrowsing => "WebBrowsing".to_string(),
            TrafficType::Unknown => "Unknown".to_string(),
        }
    }

    /// Whether traffic of this type is blocked where it is recognised.
    pub open spec fn is_blocked(self) -> bool {
        self is Vpn || self is Tor || self is Proxy
    }
}

#[derive(Debug, Clone, Copy, PartialEq, Eq, PartialOrd, Ord, Structural)]
pub enum RiskLevel {
    Safe,
    LowRisk,
    MediumRisk,
    HighRisk,
    Critical,
}

impl RiskLevel {
    pub open spec fn label(self) -> Seq<char> {
        match self {
            RiskLevel::Safe => "Safe"@,
            RiskLevel::LowRisk => "LowRisk"@,
            RiskLevel::MediumRisk => "MediumRisk"@,
            RiskLevel::HighRisk => "HighRisk"@,
            RiskLevel::Critical => "Critical"@,
        }
    }

    pub open spec fn rank(self) -> int {
        match self {
            RiskLevel::Safe => 0,
            RiskLevel::LowRisk => 1,
            RiskLevel::MediumRisk => 2,
            RiskLevel::HighRisk => 3,
            RiskLevel::Critical => 4,
        }
    }

    pub fn to_text(&self) -> (s: String)
        ensures
            s@ == self.label(),
    {
        match self {
            RiskLevel::Safe => "Safe".to_string(),
            RiskLevel::LowRisk => "LowRisk".to_string(),
            RiskLevel::MediumRisk => "MediumRisk".to_string(),
            RiskLevel::HighRisk => "HighRisk".to_string(),
            RiskLevel::Critical => "Critical".to_string(),
        }
    }
}

/// The type of traffic that a profile's name stands for.
pub open spec fn traffic_type_of(name: Seq<char>) -> TrafficType {
    if name == "openvpn"@ || name == "wireguard"@ {
        TrafficType::Vpn
    } else if name == "tor"@ {
        TrafficType::Tor
    } else if name == "shadowsocks"@ || name == "trojan"@ || name == "v2ray"@ {
        TrafficType::Proxy
    } else if name == "cs2"@ || name == "valorant"@ || name == "minecraft"@ || name == "fortnite"@
        || name == "dota2"@ {
        TrafficType::Gaming
    } else if name == "discord"@ || name == "zoom"@ || name == "teams"@ || name == "skype"@ {
        TrafficType::VoiceChat
    } else if name == "youtube"@ || name == "netflix"@ || name == "twitch"@ {
        TrafficType::Streaming
    } else if name == "https"@ || name == "http"@ {
        TrafficType::WebBrowsing
    } else {
        TrafficType::Unknown
    }
}

/// The risk of a flow recognised with this confidence under this blocking threshold.
pub open spec fn risk_of(confidence: int, threshold: int, kind: TrafficType) -> RiskLevel {
    if confidence > threshold + 200_000 && kind.is_blocked() {
        RiskLevel::Critical
    } else if confidence > threshold + 100_000 && kind.is_blocked() {
        RiskLevel::HighRisk
    } else if confidence > threshold {
        RiskLevel::MediumRisk
    } else if confidence > threshold - 150_000 {
        RiskLevel::LowRisk
    } else {
        RiskLevel::Safe
    }
}

/// The risk of an overall detectability, by fifths.
pub open spec fn risk_of_score(score: int) -> RiskLevel {
    if score > 800_000 {
        RiskLevel::Critical
    } else if score > 600_000 {
        RiskLevel::HighRisk
    } else if score > 400_000 {
        RiskLevel::MediumRisk
    } else if score > 200_000 {
        RiskLevel::LowRisk
    } else {
        RiskLevel::Safe
    }
}

/// More confidence never means less risk.
pub proof fn law_risk_grows_with_confidence(a: int, b: int, threshold: int, kind: TrafficType)
    requires
        a <= b,
    ensures
        risk_of(a, threshold, kind).rank() <= risk_of(b, threshold, kind).rank(),
        risk_of_score(a).rank() <= risk_of_score(b).rank(),
{
}

/// Traffic of a kind that is not blocked is never more than a medium risk.
pub proof fn law_unblocked_traffic_is_at_most_medium(
    confidence: int,
    threshold: int,
    kind: TrafficType,
)
    requires
        !kind.is_blocked(),
    ensures
        risk_of(confidence, threshold, kind).rank() <= RiskLevel::MediumRisk.rank(),
{
}

// ---- Classifier ----

#[derive(Debug)]
pub struct TrafficProfile {
    pub name: String,
    pub size_mean: u128,
    pub size_std: u128,
    pub timing_mean: u128,
    pub timing_std: u128,
    pub entropy_mean: u128,
    pub direction_ratio: u128,
    pub periodicity_score: u128,
}

/// Name; size mean and deviation; gap mean and deviation; entropy; direction ratio;
/// periodicity.
pub const KNOWN_TRAFFIC: [(&'static str, u128, u128, u128, u128, u128, u128, u128); 12] = [
    ("openvpn", 800_000_000, 400_000_000, 50_000_000, 30_000_000, 7_800_000, 480_000, 100_000),
    ("wireguard", 600_000_000, 350_000_000, 20_000_000, 15_000_000, 7_900_000, 500_000, 50_000),
    ("shadowsocks", 500_000_000, 300_000_000, 40_000_000, 25_000_000, 7_900_000, 450_000, 80_000),
    ("trojan", 700_000_000, 380_000_000, 60_000_000, 40_000_000, 7_600_000, 420_000, 120_000),
    ("tor", 400_000_000, 250_000_000, 80_000_000, 60_000_000, 7_800_000, 500_000, 50_000),
    ("cs2", 180_000_000, 120_000_000, 16_000_000, 10_000_000, 7_400_000, 330_000, 200_000),
    ("valorant", 140_000_000, 90_000_000, 17_000_000, 12_000_000, 7_200_000, 350_000, 180_000),
    ("minecraft", 400_000_000, 300_000_000, 50_000_000, 40_000_000, 6_800_000, 310_000, 150_000),
    ("discord", 300_000_000, 200_000_000, 25_000_000, 20_000_000, 7_000_000, 400_000, 250_000),
    ("https", 600_000_000, 500_000_000, 100_000_000, 80_000_000, 7_200_000, 350_000, 100_000),
    ("youtube", 900_000_000, 600_000_000, 30_000_000, 20_000_000, 7_500_000, 150_000, 300_000),
    ("zoom", 350_000_000, 200_000_000, 20_000_000, 15_000_000, 7_600_000, 500_000, 350_000),
];

/// Whether `p` is the profile of a row.
pub open spec fn profile_from(
    p: TrafficProfile,
    row: (&'static str, u128, u128, u128, u128, u128, u128, u128),
) -> bool {
    &&& p.name@ == row.0@
    &&& p.size_mean == row.1
    &&& p.size_std == row.2
    &&& p.timing_mean == row.3
    &&& p.timing_std == row.4
    &&& p.entropy_mean == row.5
    &&& p.direction_ratio == row.6
    &&& p.periodicity_score == row.7
}

/// The features that traffic is told apart by.
#[derive(Debug, Clone, Copy)]
pub struct FlowPoint {
    pub size: u128,
    pub timing: u128,
    pub entropy: u128,
    pub direction: u128,
    pub periodicity: u128,
}

impl FlowPoint {
    pub open spec fn wf(self) -> bool {
        &&& self.size <= FEATURE_LIMIT
        &&& self.timing <= FEATURE_LIMIT
        &&& self.entropy <= FEATURE_LIMIT
        &&& self.direction <= FEATURE_LIMIT
        &&& self.periodicity <= FEATURE_LIMIT
    }
}

/// The square of a distance in units of `std`, in millionths.
pub open spec fn square_off(x: int, mean: int, std: int) -> int {
    let z = dpi_signatures::gap(x, mean) * 1_000_000 / std;
    z * z / 1_000_000
}

impl TrafficProfile {
    pub open spec fn wf(&self) -> bool {
        &&& 1 <= self.size_std
        &&& 1 <= self.timing_std
        &&& self.size_mean <= FEATURE_LIMIT
        &&& self.timing_mean <= FEATURE_LIMIT
        &&& self.entropy_mean <= FEATURE_LIMIT
        &&& self.direction_ratio <= FEATURE_LIMIT
        &&& self.periodicity_score <= FEATURE_LIMIT
    }

    /// The weighted square distance of a flow from the profile, in millionths.
    pub open spec fn distance(&self, f: FlowPoint) -> int {
        (30 * square_off(f.size as int, self.size_mean as int, self.size_std as int) + 25
            * square_off(f.timing as int, self.timing_mean as int, self.timing_std as int) + 15
            * square_off(f.entropy as int, self.entropy_mean as int, 1_000_000) + 15 * (4
            * square_off(f.direction as int, self.direction_ratio as int, 1_000_000)) + 15 * (4
            * square_off(f.periodicity as int, self.periodicity_score as int, 1_000_000))) / 100
    }

    /// A profile; deviations are at least a millionth.
    pub fn new(
        name: &str,
        size_mean: u128,
        size_std: u128,
        timing_mean: u128,
        timing_std: u128,
        entropy_mean: u128,
        direction_ratio: u128,
        periodicity_score: u128,
    ) -> (p: Self)
        ensures
            p.name@ == name@,
            p.size_mean == size_mean,
            p.size_std == if size_std < 1 {
                1
            } else {
                size_std
            },
            p.timing_mean == timing_mean,
            p.timing_std == if timing_std < 1 {
                1
            } else {
                timing_std
            },
            p.entropy_mean == entropy_mean,
            p.direction_ratio == direction_ratio,
            p.periodicity_score == periodicity_score,
    {
        TrafficProfile {
            name: name.to_string(),
            size_mean,
            size_std: if size_std < 1 { 1 } else { size_std },
            timing_mean,
            timing_std: if timing_std < 1 { 1 } else { timing_std },
            entropy_mean,
            direction_ratio,
            periodicity_score,
        }
    }

    pub fn mahalanobis_distance(&self, f: &FlowPoint) -> (d: Wide)
        requires
            self.wf(),
            f.wf(),
        ensures
            d@ == self.distance(*f),
    {
        let a: Wide = off_square(f.size, self.size_mean, self.size_std);
        let b: Wide = off_square(f.timing, self.timing_mean, self.timing_std);
        let c: Wide = off_square(f.entropy, self.entropy_mean, 1_000_000);
        let d: Wide = off_square(f.direction, self.direction_ratio, 1_000_000);
        let e: Wide = off_square(f.periodicity, self.periodicity_score, 1_000_000);
        let sum: Wide = a.times(30).plus(b.times(25)).plus(c.times(15)).plus(d.times(60)).plus(
            e.times(60),
        );
        sum.divide(Wide::of(100)).0
    }
}

/// The largest square distance that features within their limit can have.
pub open spec fn square_limit() -> int {
    0x1_0000_0000_0000_0000_0000_0000_0000_0000_0000_0000_0000_0000_0000int
}

fn off_square(x: u128, mean: u128, std: u128) -> (q: Wide)
    requires
        x <= FEATURE_LIMIT,
        mean <= FEATURE_LIMIT,
        std >= 1,
    ensures
        q@ == square_off(x as int, mean as int, std as int),
        0 <= q@ <= square_limit(),
{
    let d: u128 = if x >= mean {
        x - mean
    } else {
        mean - x
    };
    let scaled: u128 = d * 1_000_000;
    let z: u128 = scaled / std;
    proof {
        assert(z <= scaled) by (nonlinear_arith)
            requires
                z == scaled as int / std as int,
                std >= 1,
        ;
        assert(0 <= z * z <= square_limit()) by (nonlinear_arith)
            requires
                0 <= z <= 0x100_0000_0000_0000_0000_0000_0000,
        ;
    }
    Wide::product(z, z).divide(Wide::of(1_000_000)).0
}

/// The profile nearest to a flow, and how far it is.
#[derive(Debug)]
pub struct Nearest {
    pub name: String,
    pub distance: Option<Wide>,
}

/// Index of the first of the nearest profiles among the first `n`.
pub open spec fn nearest_index(profiles: Seq<TrafficProfile>, f: FlowPoint, n: int) -> int
    decreases n,
{
    if n <= 1 {
        0
    } else {
        let best = nearest_index(profiles, f, n - 1);
        if profiles[n - 1].distance(f) < profiles[best].distance(f) {
            n - 1
        } else {
            best
        }
    }
}

#[derive(Debug)]
pub struct TrafficClassifier {
    pub profiles: Vec<TrafficProfile>,
    pub threshold: u64,
}

impl TrafficClassifier {
    pub open spec fn wf(&self) -> bool {
        forall|i: int| 0 <= i < self.profiles@.len() ==> (#[trigger] self.profiles@[i]).wf()
    }

    pub fn new(threshold: u64) -> (c: Self)
        ensures
            c.wf(),
            c.threshold == threshold,
            c.profiles@.len() == KNOWN_TRAFFIC@.len(),
            forall|i: int|
                0 <= i < c.profiles@.len() ==> profile_from(
                    #[trigger] c.profiles@[i],
                    KNOWN_TRAFFIC@[i],
                ),
    {
        TrafficClassifier { profiles: Self::build_default_profiles(), threshold }
    }

    /// Profiles of well-known traffic.
    pub fn build_default_profiles() -> (v: Vec<TrafficProfile>)
        ensures
            v@.len() == KNOWN_TRAFFIC@.len(),
            forall|i: int|
                0 <= i < v@.len() ==> profile_from(#[trigger] v@[i], KNOWN_TRAFFIC@[i]) && v@[i].wf(),
    {
        let rows = KNOWN_TRAFFIC;
        let mut v: Vec<TrafficProfile> = Vec::new();
        let mut i: usize = 0;
        while i < 12
            invariant
                i <= 12,
                rows == KNOWN_TRAFFIC,
                v@.len() == i,
                forall|k: int|
                    0 <= k < i ==> profile_from(#[trigger] v@[k], KNOWN_TRAFFIC@[k]) && v@[k].wf(),
            decreases 12 - i,
        {
            let row = rows[i];
            v.push(TrafficProfile::new(row.0, row.1, row.2, row.3, row.4, row.5, row.6, row.7));
            i = i + 1;
        }
        v
    }

    /// The nearest profile; unknown for a flow without packets.
    pub fn classify(&self, f: &FlowPoint) -> (n: Nearest)
        requires
            self.wf(),
            f.wf(),
        ensures
            f.size == 0 || self.profiles@.len() == 0 ==> n.name@ == "unknown"@ && n.distance is None,
            f.size > 0 && self.profiles@.len() > 0 ==> {
                let best = self.profiles@[nearest_index(
                    self.profiles@,
                    *f,
                    self.profiles@.len() as int,
                )];
                n.name@ == best.name@ && (n.distance matches Some(d) && d@ == best.distance(*f))
            },
    {
        if f.size == 0 || self.profiles.len() == 0 {
            return Nearest { name: "unknown".to_string(), distance: None };
        }
        let mut best: usize = 0;
        let mut best_score: Wide = self.profiles[0].mahalanobis_distance(f);
        let mut i: usize = 1;
        while i < self.profiles.len()
            invariant
                1 <= i <= self.profiles@.len(),
                self.wf(),
                f.wf(),
                best < i,
                best == nearest_index(self.profiles@, *f, i as int),
                best_score@ == self.profiles@[best as int].distance(*f),
            decreases self.profiles@.len() - i,
        {
            let dist: Wide = self.profiles[i].mahalanobis_distance(f);
            if dist.less(best_score) {
                best_score = dist;
                best = i;
            }
            i = i + 1;
        }
        Nearest { name: self.profiles[best].name.clone(), distance: Some(best_score) }
    }

    pub fn add_profile(&mut self, profile: TrafficProfile)
        ensures
            final(self).profiles@ == old(self).profiles@.push(profile),
            final(self).threshold == old(self).threshold,
            old(self).wf() && profile.wf() ==> final(self).wf(),
    {
        self.profiles.push(profile);
    }
}

/// No profile is nearer than the one that is chosen, and none before it is as near.
pub proof fn law_nearest_is_nearest(profiles: Seq<TrafficProfile>, f: FlowPoint, n: int, i: int)
    requires
        1 <= n <= profiles.len(),
        0 <= i < n,
    ensures
        0 <= nearest_index(profiles, f, n) < n,
        profiles[nearest_index(profiles, f, n)].distance(f) <= profiles[i].distance(f),
        i < nearest_index(profiles, f, n) ==> profiles[nearest_index(profiles, f, n)].distance(f)
            < profiles[i].distance(f),
    decreases n,
{
    if n > 1 {
        if i < n - 1 {
            law_nearest_is_nearest(profiles, f, n - 1, i);
        } else {
            law_nearest_is_nearest(profiles, f, n - 1, 0);
        }
    }
}

// ---- Simulator ----

#[derive(Debug)]
pub struct ClassificationResult {
    pub classification: TrafficType,
    pub confidence: u64,
    pub feature_vector: FeatureVector,
    pub detected_as: String,
    pub risk_level: RiskLevel,
}

/// Two thirds or so of the classifier's confidence and one third of the signature score.
pub open spec fn combined(classifier: int, signature: int) -> int {
    dpi_signatures::least((65 * classifier + 35 * signature) / 100, 1_000_000)
}

/// The best signature score among the first `n`: fit times severity.
pub open spec fn best_signature(sigs: Seq<DpiSignature>, mean_ns: int, std_ns: int, n: int) -> int
    decreases n,
{
    if n <= 0 {
        0
    } else {
        let before = best_signature(sigs, mean_ns, std_ns, n - 1);
        let fit = match sigs[n - 1].timing_pattern {
            Some(p) => dpi_signatures::timing_match(p, mean_ns, std_ns),
            None => 0,
        };
        let score = fit * sigs[n - 1].severity / 100;
        if score > before {
            score
        } else {
            before
        }
    }
}

#[derive(Debug)]
pub struct DpiSimulator {
    pub size_extractor: SizeFeatureExtractor,
    pub timing_extractor: TimingFeatureExtractor,
    pub entropy_extractor: EntropyFeatureExtractor,
    pub direction_extractor: DirectionFeatureExtractor,
    pub periodicity_extractor: PeriodicityExtractor,
    pub classifier: TrafficClassifier,
    pub dpi_signatures: Vec<DpiSignature>,
    pub region: DpiRegion,
    pub target: Option<TargetStats>,
    pub packet_count: u64,
    pub last_timestamp_us: Option<u64>,
    pub flow_start_us: Option<u64>,
}

impl DpiSimulator {
    pub open spec fn wf(&self) -> bool {
        &&& self.size_extractor.wf()
        &&& self.timing_extractor.wf()
        &&& self.entropy_extractor.wf()
        &&& self.direction_extractor.wf()
        &&& self.periodicity_extractor.wf()
        &&& self.classifier.wf()
        &&& dpi_signatures::signatures_of(self.dpi_signatures@, self.region)
        &&& self.target matches Some(t) ==> t.wf()
        &&& self.last_timestamp_us matches Some(t) ==> t == 0
        &&& self.flow_start_us is None ==> self.last_timestamp_us is None
    }

    /// Whether nothing has been measured.
    pub open spec fn is_clear(&self) -> bool {
        &&& self.size_extractor.window@.len() == 0
        &&& self.timing_extractor.window@.len() == 0
        &&& self.entropy_extractor.window@.len() == 0
        &&& self.periodicity_extractor.timestamps@.len() == 0
        &&& self.direction_extractor.bytes_up == 0
        &&& self.direction_extractor.bytes_down == 0
        &&& self.direction_extractor.packet_count_up == 0
        &&& self.direction_extractor.packet_count_down == 0
        &&& self.direction_extractor.ema_ratio == dpi_features::WHOLE_SHARE / 2
        &&& self.packet_count == 0
        &&& self.last_timestamp_us is None
        &&& self.flow_start_us is None
    }

    /// Whether windows, threshold and known traffic are those that every simulator starts with.
    pub open spec fn is_stocked(&self) -> bool {
        &&& self.size_extractor.window.limit == FEATURE_WINDOW
        &&& self.timing_extractor.window.limit == FEATURE_WINDOW
        &&& self.entropy_extractor.window.limit == FEATURE_WINDOW
        &&& self.periodicity_extractor.timestamps.limit == FEATURE_WINDOW
        &&& self.classifier.threshold == 5_000_000
        &&& self.classifier.profiles@.len() == KNOWN_TRAFFIC@.len()
        &&& forall|i: int|
            0 <= i < self.classifier.profiles@.len() ==> profile_from(
                #[trigger] self.classifier.profiles@[i],
                KNOWN_TRAFFIC@[i],
            )
    }

    /// Whether two simulators have windows of the same sizes.
    pub open spec fn same_limits(&self, other: &DpiSimulator) -> bool {
        &&& self.size_extractor.window.limit == other.size_extractor.window.limit
        &&& self.timing_extractor.window.limit == other.timing_extractor.window.limit
        &&& self.entropy_extractor.window.limit == other.entropy_extractor.window.limit
        &&& self.periodicity_extractor.timestamps.limit
            == other.periodicity_extractor.timestamps.limit
    }

    pub fn new() -> (s: Self)
        ensures
            s.wf(),
            s.is_clear(),
            s.is_stocked(),
            s.region == DpiRegion::Generic,
            s.target is None,
    {
        Self::with_region(DpiRegion::Generic)
    }

    pub fn with_region(region: DpiRegion) -> (s: Self)
        ensures
            s.wf(),
            s.is_clear(),
            s.region == region,
            s.target is None,
            s.is_stocked(),
    {
        DpiSimulator {
            size_extractor: SizeFeatureExtractor::new(FEATURE_WINDOW),
            timing_extractor: TimingFeatureExtractor::new(FEATURE_WINDOW),
            entropy_extractor: EntropyFeatureExtractor::new(FEATURE_WINDOW),
            direction_extractor: DirectionFeatureExtractor::new(),
            periodicity_extractor: PeriodicityExtractor::new(FEATURE_WINDOW),
            classifier: TrafficClassifier::new(5_000_000),
            dpi_signatures: build_signature_database(region),
            region,
            target: None,
            packet_count: 0,
            last_timestamp_us: None,
            flow_start_us: None,
        }
    }

    /// The simulator with a target to measure against.
    pub fn with_target_model(self, target: TargetStats) -> (s: Self)
        requires
            self.wf(),
            target.wf(),
        ensures
            s.wf(),
            s == (DpiSimulator { target: Some(target), ..self }),
    {
        let mut s = self;
        s.target = Some(target);
        s
    }

    /// Switches to the signatures of another region.
    pub fn set_region(&mut self, region: DpiRegion)
        requires
            old(self).wf(),
        ensures
            final(self).wf(),
            final(self).region == region,
            *final(self) == (DpiSimulator {
                region,
                dpi_signatures: final(self).dpi_signatures,
                ..*old(self)
            }),
    {
        self.region = region;
        self.dpi_signatures = build_signature_database(region);
    }

    /// Takes a packet in. Its time counts from itself, so the gaps between packets are
    /// those that the timing extractor is given directly.
    pub fn process_packet(&mut self, packet: &PacketRecord, now_us: u64)
        requires
            old(self).wf(),
        ensures
            final(self).wf(),
            final(self).size_extractor.window@ == window::slid(
                old(self).size_extractor.window@,
                packet.size as u64,
                old(self).size_extractor.window.limit as int,
            ),
            final(self).entropy_extractor.window@ == window::slid(
                old(self).entropy_extractor.window@,
                dpi_features::entropy_clamped(packet.payload_entropy_micro),
                old(self).entropy_extractor.window.limit as int,
            ),
            final(self).periodicity_extractor.timestamps@ == window::slid(
                old(self).periodicity_extractor.timestamps@,
                0u64,
                old(self).periodicity_extractor.timestamps.limit as int,
            ),
            final(self).timing_extractor == old(self).timing_extractor,
            final(self).direction_extractor == old(self).direction_extractor.after(
                packet.size as int,
                packet.direction,
            ),
            final(self).packet_count == dpi_features::sum64(old(self).packet_count as int, 1),
            final(self).last_timestamp_us == Some(0u64),
            final(self).flow_start_us == match old(self).flow_start_us {
                Some(t) => Some(t),
                None => Some(now_us),
            },
            final(self).region == old(self).region,
            final(self).target == old(self).target,
            final(self).classifier == old(self).classifier,
            final(self).dpi_signatures == old(self).dpi_signatures,
            final(self).same_limits(old(self)),
    {
        let at_us: u64 = 0;
        if self.flow_start_us.is_none() {
            self.flow_start_us = Some(now_us);
            self.last_timestamp_us = Some(at_us);
        }
        self.size_extractor.observe(packet.size);
        self.entropy_extractor.observe(packet.payload_entropy_micro);
        self.direction_extractor.observe(packet.size, packet.direction);
        self.periodicity_extractor.observe(at_us);
        match self.last_timestamp_us {
            Some(last) => {
                let iat: u64 = if at_us >= last { at_us - last } else { last - at_us };
                if iat > 0 {
                    self.timing_extractor.observe(iat);
                }
            },
            None => {},
        }
        self.last_timestamp_us = Some(at_us);
        self.packet_count = self.packet_count.wrapping_add(1);
    }

    /// What is measured of the flow so far.
    pub open spec fn features(&self) -> FeatureVector {
        let sizes = self.size_extractor.window@;
        let gaps = self.timing_extractor.window@;
        let entropies = self.entropy_extractor.window@;
        let direction = dpi_features::share_micro(
            self.direction_extractor.bytes_up as int,
            self.direction_extractor.bytes_down as int,
        );
        FeatureVector {
            size_mean: window::mean_micro_of(sizes) as u128,
            size_std: spread::std_micro_of(sizes) as u128,
            timing_mean: (window::mean_micro_of(gaps) / 1000) as u128,
            timing_std: (spread::std_micro_of(gaps) / 1000) as u128,
            entropy_mean: (window::mean_micro_of(entropies) / 1_000_000) as u128,
            direction_ratio: direction as u128,
            periodicity: dpi_features::periodicity_micro(
                self.periodicity_extractor.timestamps@,
            ) as u128,
            size_skewness: spread::skewness_micro_of(sizes) as i128,
            size_kurtosis: spread::kurtosis_micro_of(sizes) as i128,
            burstiness: dpi_features::burst_micro(gaps) as u128,
            autocorrelation: dpi_features::lag_clamped(gaps) as i128,
            entropy_stability: dpi_features::stability_micro(entropies) as u128,
            asymmetry: (2 * periodicity::magnitude(direction - 500_000)) as u128,
        }
    }

    /// What is measured of the flow so far.
    pub fn get_feature_vector(&self) -> (f: FeatureVector)
        requires
            self.wf(),
        ensures
            f == self.features(),
            f.wf(),
    {
        proof {
            spread::law_measures_stay_within(self.size_extractor.window@, u64::MAX as int);
            spread::law_measures_stay_within(self.timing_extractor.window@, u64::MAX as int);
            spread::law_measures_stay_within(self.entropy_extractor.window@, u64::MAX as int);
        }
        FeatureVector {
            size_mean: self.size_extractor.mean(),
            size_std: self.size_extractor.std_dev(),
            timing_mean: self.timing_extractor.mean() / 1000,
            timing_std: self.timing_extractor.std_dev() / 1000,
            entropy_mean: self.entropy_extractor.mean() / 1_000_000,
            direction_ratio: self.direction_extractor.byte_ratio() as u128,
            periodicity: self.periodicity_extractor.periodicity_score() as u128,
            size_skewness: self.size_extractor.skewness(),
            size_kurtosis: self.size_extractor.kurtosis() as i128,
            burstiness: self.timing_extractor.burstiness_index() as u128,
            autocorrelation: self.timing_extractor.autocorrelation_lag1() as i128,
            entropy_stability: self.entropy_extractor.entropy_stability() as u128,
            asymmetry: self.direction_extractor.asymmetry_score() as u128,
        }
    }

    /// Where the flow lies among known traffic.
    pub open spec fn point(&self) -> FlowPoint {
        let f = self.features();
        FlowPoint {
            size: f.size_mean,
            timing: f.timing_mean,
            entropy: f.entropy_mean,
            direction: f.direction_ratio,
            periodicity: f.periodicity,
        }
    }

    /// The kind of known traffic that the flow is nearest to; unknown before any packet.
    pub fn nearest(&self) -> (n: Nearest)
        requires
            self.wf(),
        ensures
            ({
                let profiles = self.classifier.profiles@;
                let best = profiles[nearest_index(profiles, self.point(), profiles.len() as int)];
                if self.point().size == 0 || profiles.len() == 0 {
                    n.name@ == "unknown"@ && n.distance is None
                } else {
                    n.name@ == best.name@ && (n.distance matches Some(d) && d@ == best.distance(
                        self.point(),
                    ))
                }
            }),
    {
        let f = self.get_feature_vector();
        let point = FlowPoint {
            size: f.size_mean,
            timing: f.timing_mean,
            entropy: f.entropy_mean,
            direction: f.direction_ratio,
            periodicity: f.periodicity,
        };
        self.classifier.classify(&point)
    }

    /// What the flow is taken for: the nearest kind of known traffic, and unknown before any
    /// packet.
    pub open spec fn taken_for(&self) -> Seq<char> {
        let profiles = self.classifier.profiles@;
        if self.point().size == 0 || profiles.len() == 0 {
            "unknown"@
        } else {
            profiles[nearest_index(profiles, self.point(), profiles.len() as int)].name@
        }
    }

    /// Whether `r` is the verdict on the flow, taken for `name` with this confidence.
    pub open spec fn is_verdict(
        &self,
        r: ClassificationResult,
        name: Seq<char>,
        confidence: int,
    ) -> bool {
        let c = combined(confidence, self.signature_score());
        let kind = traffic_type_of(name);
        &&& r.detected_as@ == name
        &&& r.feature_vector == self.features()
        &&& r.confidence == c
        &&& r.classification == kind
        &&& r.risk_level == risk_of(c, 10_000 * self.region.row().6, kind)
    }

    /// The confidence that counts: none in an unknown flow.
    pub open spec fn counted(&self, confidence: int) -> int {
        if self.point().size == 0 || self.classifier.profiles@.len() == 0 {
            0
        } else {
            confidence
        }
    }

    /// The verdict on a flow that is taken for `nearest`, with the confidence in that.
    pub fn verdict(&self, nearest: Nearest, confidence: u64) -> (r: ClassificationResult)
        requires
            self.wf(),
            confidence <= ONE,
        ensures
            self.is_verdict(r, nearest.name@, confidence as int),
    {
        let feature_vector = self.get_feature_vector();
        let signature: u64 = self.compute_signature_match();
        let c: u64 = combine_confidence(confidence, signature);
        let kind = Self::map_to_traffic_type(nearest.name.as_str());
        let risk_level = self.compute_risk_level(c, kind);
        ClassificationResult {
            classification: kind,
            confidence: c,
            feature_vector,
            detected_as: nearest.name,
            risk_level,
        }
    }

    /// The verdict on the flow: taken for the nearest kind of known traffic, with the confidence
    /// that its distance gives.
    pub fn classify(&self, confidence: u64) -> (r: ClassificationResult)
        requires
            self.wf(),
            confidence <= ONE,
        ensures
            self.is_verdict(r, self.taken_for(), self.counted(confidence as int)),
    {
        let nearest = self.nearest();
        let confidence: u64 = if nearest.distance.is_some() {
            confidence
        } else {
            0
        };
        self.verdict(nearest, confidence)
    }

    /// Whether the region acts on a verdict of this confidence and risk.
    pub open spec fn acts_on(&self, confidence: int, risk: RiskLevel) -> bool {
        confidence > 10_000 * self.region.row().6 || risk.rank() >= RiskLevel::HighRisk.rank()
    }

    /// Whether the region would act on a verdict.
    pub fn is_flagged(&self, result: &ClassificationResult) -> (b: bool)
        ensures
            b == self.acts_on(result.confidence as int, result.risk_level),
    {
        let threshold: u64 = 10_000 * self.region.blocking_threshold();
        let high: bool = match result.risk_level {
            RiskLevel::HighRisk => true,
            RiskLevel::Critical => true,
            _ => false,
        };
        result.confidence > threshold || high
    }

    /// Whether the region would act on the flow, with the confidence that the distance to the
    /// nearest kind of known traffic gives.
    pub fn would_be_flagged(&self, confidence: u64) -> (b: bool)
        requires
            self.wf(),
            confidence <= ONE,
        ensures
            ({
                let c = combined(self.counted(confidence as int), self.signature_score());
                let kind = traffic_type_of(self.taken_for());
                b == self.acts_on(c, risk_of(c, 10_000 * self.region.row().6, kind))
            }),
    {
        let result = self.classify(confidence);
        self.is_flagged(&result)
    }

    /// The best signature score of the flow's gaps; none before enough packets have been
    /// seen.
    pub open spec fn signature_score(&self) -> int {
        let gaps = self.timing_extractor.window@;
        if self.packet_count < SIGNATURE_WARMUP {
            0
        } else {
            dpi_signatures::least(
                best_signature(
                    self.dpi_signatures@,
                    window::mean_micro_of(gaps) / 1000,
                    spread::std_micro_of(gaps) / 1000,
                    self.dpi_signatures@.len() as int,
                ),
                1_000_000,
            )
        }
    }

    pub fn compute_signature_match(&self) -> (s: u64)
        requires
            self.wf(),
        ensures
            s == self.signature_score(),
            s <= ONE,
    {
        if self.packet_count < SIGNATURE_WARMUP {
            return 0;
        }
        proof {
            spread::law_measures_stay_within(self.timing_extractor.window@, u64::MAX as int);
        }
        let timing_mean_ns: u128 = self.timing_extractor.mean() / 1000;
        let timing_std_ns: u128 = self.timing_extractor.std_dev() / 1000;
        let mut max_score: u64 = 0;
        let mut i: usize = 0;
        while i < self.dpi_signatures.len()
            invariant
                i <= self.dpi_signatures@.len(),
                self.wf(),
                timing_mean_ns <= FEATURE_LIMIT,
                timing_std_ns <= FEATURE_LIMIT,
                max_score == best_signature(
                    self.dpi_signatures@,
                    timing_mean_ns as int,
                    timing_std_ns as int,
                    i as int,
                ),
            decreases self.dpi_signatures@.len() - i,
        {
            let sig = &self.dpi_signatures[i];
            proof {
                lemma_severity(self.dpi_signatures@, self.region, i as int);
            }
            let fit: u64 = sig.matches_timing(timing_mean_ns, timing_std_ns);
            assert(fit * sig.severity <= 1_000_000 * 100) by (nonlinear_arith)
                requires
                    fit <= 1_000_000,
                    sig.severity <= 100,
            ;
            let score: u64 = fit * sig.severity / 100;
            if score > max_score {
                max_score = score;
            }
            i = i + 1;
        }
        if max_score <= ONE {
            max_score
        } else {
            ONE
        }
    }

    pub fn compute_risk_level(&self, confidence: u64, kind: TrafficType) -> (r: RiskLevel)
        requires
            confidence <= ONE,
        ensures
            r == risk_of(confidence as int, 10_000 * self.region.row().6, kind),
    {
        let threshold: u64 = 10_000 * self.region.blocking_threshold();
        let blocked: bool = match kind {
            TrafficType::Vpn => true,
            TrafficType::Tor => true,
            TrafficType::Proxy => true,
            _ => false,
        };
        if confidence > threshold + 200_000 && blocked {
            RiskLevel::Critical
        } else if confidence > threshold + 100_000 && blocked {
            RiskLevel::HighRisk
        } else if confidence > threshold {
            RiskLevel::MediumRisk
        } else if confidence + 150_000 > threshold {
            RiskLevel::LowRisk
        } else {
            RiskLevel::Safe
        }
    }

    /// The risk of an overall detectability.
    pub fn detectability_to_risk(score: u128) -> (r: RiskLevel)
        ensures
            r == risk_of_score(score as int),
    {
        if score > 800_000 {
            RiskLevel::Critical
        } else if score > 600_000 {
            RiskLevel::HighRisk
        } else if score > 400_000 {
            RiskLevel::MediumRisk
        } else if score > 200_000 {
            RiskLevel::LowRisk
        } else {
            RiskLevel::Safe
        }
    }

    /// The type of traffic that a profile's name stands for.
    pub fn map_to_traffic_type(name: &str) -> (t: TrafficType)
        ensures
            t == traffic_type_of(name@),
    {
        if same(name, "openvpn") || same(name, "wireguard") {
            TrafficType::Vpn
        } else if same(name, "tor") {
            TrafficType::Tor
        } else if same(name, "shadowsocks") || same(name, "trojan") || same(name, "v2ray") {
            TrafficType::Proxy
        } else if same(name, "cs2") || same(name, "valorant") || same(name, "minecraft") || same(
            name,
            "fortnite",
        ) || same(name, "dota2") {
            TrafficType::Gaming
        } else if same(name, "discord") || same(name, "zoom") || same(name, "teams") || same(
            name,
            "skype",
        ) {
            TrafficType::VoiceChat
        } else if same(name, "youtube") || same(name, "netflix") || same(name, "twitch") {
            TrafficType::Streaming
        } else if same(name, "https") || same(name, "http") {
            TrafficType::WebBrowsing
        } else {
            TrafficType::Unknown
        }
    }

    /// The target to measure against.
    pub open spec fn goal(&self) -> TargetStats {
        match self.target {
            Some(t) => t,
            None => dpi_analysis::default_target(),
        }
    }

    pub fn target_stats(&self) -> (t: TargetStats)
        requires
            self.wf(),
        ensures
            t == self.goal(),
            t.wf(),
    {
        match self.target {
            Some(t) => t,
            None => plain_target(),
        }
    }

    /// The analysis of the flow so far.
    pub fn analyze(&self) -> (a: DpiAnalysis)
        requires
            self.wf(),
        ensures
            dpi_analysis::is_analysis(
                a,
                self.features(),
                self.facts(),
                self.goal(),
                self.region,
            ),
    {
        let f = self.get_feature_vector();
        let t = self.target_stats();
        let signature: u64 = self.compute_signature_match();
        let dominant_period: Option<u128> = match self.periodicity_extractor.dominant_period() {
            None => None,
            Some(p) => Some(p / 1000),
        };
        let facts = FlowFacts {
            entropy_std: self.entropy_extractor.std_dev() as u128,
            is_high_entropy: self.entropy_extractor.is_high_entropy(),
            packet_ratio: self.direction_extractor.packet_ratio() as u128,
            dominant_period,
            signature: signature as u128,
        };
        analyze_flow(&f, &facts, &t, self.region)
    }

    /// What is known of the flow besides its features.
    pub open spec fn facts(&self) -> FlowFacts {
        let entropies = self.entropy_extractor.window@;
        FlowFacts {
            entropy_std: (spread::std_micro_of(entropies) / 1_000_000) as u128,
            is_high_entropy: window::total(entropies) > dpi_features::HIGH_ENTROPY_MICRO
                * entropies.len(),
            packet_ratio: dpi_features::share_micro(
                self.direction_extractor.packet_count_up as int,
                self.direction_extractor.packet_count_down as int,
            ) as u128,
            dominant_period: self.period_ms(),
            signature: self.signature_score() as u128,
        }
    }

    /// The mean gap between packets in millionths of a millisecond, where there is one.
    pub open spec fn period_ms(&self) -> Option<u128> {
        match dpi_features::period_of(self.periodicity_extractor.timestamps@) {
            Some(p) => Some((p / 1000) as u128),
            None => None,
        }
    }

    /// Forgets everything measured.
    pub fn reset(&mut self)
        requires
            old(self).wf(),
        ensures
            final(self).wf(),
            final(self).is_clear(),
            final(self).region == old(self).region,
            final(self).target == old(self).target,
            final(self).classifier == old(self).classifier,
            final(self).dpi_signatures == old(self).dpi_signatures,
            final(self).same_limits(old(self)),
    {
        self.size_extractor.reset();
        self.timing_extractor.reset();
        self.entropy_extractor.reset();
        self.direction_extractor.reset();
        self.periodicity_extractor.reset();
        self.packet_count = 0;
        self.last_timestamp_us = None;
        self.flow_start_us = None;
    }

    pub fn packet_count(&self) -> (n: u64)
        ensures
            n == self.packet_count,
    {
        self.packet_count
    }

    pub fn region(&self) -> (r: DpiRegion)
        ensures
            r == self.region,
    {
        self.region
    }
}

impl Default for DpiSimulator {
    fn default() -> (s: Self)
        ensures
            s.wf(),
            s.is_clear(),
            s.is_stocked(),
            s.region == DpiRegion::Generic,
            s.target is None,
    {
        Self::new()
    }
}

/// Two thirds or so of the classifier's confidence and one third of the signature score.
pub fn combine_confidence(classifier: u64, signature: u64) -> (c: u64)
    requires
        classifier <= ONE,
        signature <= ONE,
    ensures
        c == combined(classifier as int, signature as int),
        c <= ONE,
{
    (65 * classifier + 35 * signature) / 100
}

/// Severities are fractions of one.
proof fn lemma_severity(sigs: Seq<DpiSignature>, region: DpiRegion, i: int)
    requires
        dpi_signatures::signatures_of(sigs, region),
        0 <= i < sigs.len(),
    ensures
        sigs[i].severity <= 100,
{
    match region {
        DpiRegion::Russia => {
            assert(dpi_signatures::signature_from(sigs[i], dpi_signatures::RUSSIA_SIGNATURES@[i]));
        },
        DpiRegion::China => {
            assert(dpi_signatures::signature_from(sigs[i], dpi_signatures::CHINA_SIGNATURES@[i]));
        },
        DpiRegion::Iran => {
            assert(dpi_signatures::signature_from(sigs[i], dpi_signatures::IRAN_SIGNATURES@[i]));
        },
        DpiRegion::Generic => {
            assert(dpi_signatures::signature_from(sigs[i], dpi_signatures::GENERIC_SIGNATURES@[i]));
        },
    }
}

// ---- What verdicts keep to ----

/// Tunnels are told from other traffic by their names: those of virtual private networks, of Tor and
/// of proxies are blocked, and those of games, calls, streams and the web are not.
pub proof fn law_names_tell_the_traffic(name: Seq<char>)
    ensures
        name == "openvpn"@ || name == "wireguard"@ ==> traffic_type_of(name) == TrafficType::Vpn,
        name == "tor"@ ==> traffic_type_of(name) == TrafficType::Tor,
        name == "shadowsocks"@ || name == "trojan"@ || name == "v2ray"@ ==> traffic_type_of(name)
            == TrafficType::Proxy,
        name == "cs2"@ || name == "valorant"@ || name == "minecraft"@ || name == "fortnite"@ || name
            == "dota2"@ ==> traffic_type_of(name) == TrafficType::Gaming,
        name == "discord"@ || name == "zoom"@ || name == "teams"@ || name == "skype"@
            ==> traffic_type_of(name) == TrafficType::VoiceChat,
        name == "youtube"@ || name == "netflix"@ || name == "twitch"@ ==> traffic_type_of(name)
            == TrafficType::Streaming,
        name == "https"@ || name == "http"@ ==> traffic_type_of(name) == TrafficType::WebBrowsing,
        name == "unknown"@ ==> traffic_type_of(name) == TrafficType::Unknown,
        traffic_type_of(name).is_blocked() <==> name == "openvpn"@ || name == "wireguard"@ || name
            == "tor"@ || name == "shadowsocks"@ || name == "trojan"@ || name == "v2ray"@,
        traffic_type_of(name) is Gaming ==> name == "cs2"@ || name == "valorant"@ || name
            == "minecraft"@ || name == "fortnite"@ || name == "dota2"@,
{
    reveal_strlit("openvpn");
    reveal_strlit("wireguard");
    reveal_strlit("tor");
    reveal_strlit("shadowsocks");
    reveal_strlit("trojan");
    reveal_strlit("v2ray");
    reveal_strlit("cs2");
    reveal_strlit("valorant");
    reveal_strlit("minecraft");
    reveal_strlit("fortnite");
    reveal_strlit("dota2");
    reveal_strlit("discord");
    reveal_strlit("zoom");
    reveal_strlit("teams");
    reveal_strlit("skype");
    reveal_strlit("youtube");
    reveal_strlit("netflix");
    reveal_strlit("twitch");
    reveal_strlit("https");
    reveal_strlit("http");
    reveal_strlit("unknown");
    assert("openvpn"@.len() == 7);
    assert("wireguard"@.len() == 9);
    assert("tor"@.len() == 3);
    assert("shadowsocks"@.len() == 11);
    assert("trojan"@.len() == 6);
    assert("v2ray"@.len() == 5);
    assert("cs2"@.len() == 3);
    assert("valorant"@.len() == 8);
    assert("minecraft"@.len() == 9);
    assert("fortnite"@.len() == 8);
    assert("dota2"@.len() == 5);
    assert("discord"@.len() == 7);
    assert("zoom"@.len() == 4);
    assert("teams"@.len() == 5);
    assert("skype"@.len() == 5);
    assert("youtube"@.len() == 7);
    assert("netflix"@.len() == 7);
    assert("twitch"@.len() == 6);
    assert("https"@.len() == 5);
    assert("http"@.len() == 4);
    assert("unknown"@.len() == 7);
    assert("openvpn"@[0] != "discord"@[0]);
    assert("openvpn"@[0] != "youtube"@[0]);
    assert("openvpn"@[0] != "netflix"@[0]);
    assert("openvpn"@[0] != "unknown"@[0]);
    assert("wireguard"@[0] != "minecraft"@[0]);
    assert("tor"@[0] != "cs2"@[0]);
    assert("trojan"@[1] != "twitch"@[1]);
    assert("v2ray"@[0] != "dota2"@[0]);
    assert("v2ray"@[0] != "teams"@[0]);
    assert("v2ray"@[0] != "skype"@[0]);
    assert("v2ray"@[0] != "https"@[0]);
    assert("valorant"@[0] != "fortnite"@[0]);
    assert("dota2"@[0] != "teams"@[0]);
    assert("dota2"@[0] != "skype"@[0]);
    assert("dota2"@[0] != "https"@[0]);
    assert("discord"@[0] != "youtube"@[0]);
    assert("discord"@[0] != "netflix"@[0]);
    assert("discord"@[0] != "unknown"@[0]);
    assert("zoom"@[0] != "http"@[0]);
    assert("teams"@[0] != "skype"@[0]);
    assert("teams"@[0] != "https"@[0]);
    assert("skype"@[0] != "https"@[0]);
    assert("youtube"@[0] != "netflix"@[0]);
    assert("youtube"@[0] != "unknown"@[0]);
    assert("netflix"@[0] != "unknown"@[0]);
}

/// The known tunnels come first among the known traffic, and are blocked; what comes behind them is
/// not.
pub proof fn law_known_tunnels_are_blocked(i: int)
    requires
        0 <= i < KNOWN_TRAFFIC@.len(),
    ensures
        KNOWN_TRAFFIC@.len() == 12,
        traffic_type_of(KNOWN_TRAFFIC@[i].0@).is_blocked() <==> i < 5,
        !(traffic_type_of(KNOWN_TRAFFIC@[i].0@) is Unknown),
{
    law_names_tell_the_traffic(KNOWN_TRAFFIC@[i].0@);
    law_names_tell_the_traffic("cs2"@);
    law_names_tell_the_traffic("valorant"@);
    law_names_tell_the_traffic("minecraft"@);
    law_names_tell_the_traffic("discord"@);
    law_names_tell_the_traffic("https"@);
    law_names_tell_the_traffic("youtube"@);
    law_names_tell_the_traffic("zoom"@);
}

/// The steps of risk: a tunnel recognised a fifth above the threshold is critical, and one a tenth
/// above it a high risk; anything above it is at least a medium one; and nothing is safe but what
/// stays three twentieths below it.
pub proof fn law_risk_steps(confidence: int, threshold: int, kind: TrafficType)
    ensures
        kind is Vpn || kind is Tor || kind is Proxy ==> {
            &&& confidence > threshold + 200_000 <==> risk_of(confidence, threshold, kind)
                == RiskLevel::Critical
            &&& confidence > threshold + 100_000 <==> risk_of(confidence, threshold, kind).rank()
                >= RiskLevel::HighRisk.rank()
        },
        confidence > threshold <==> risk_of(confidence, threshold, kind).rank()
            >= RiskLevel::MediumRisk.rank(),
        confidence <= threshold - 150_000 <==> risk_of(confidence, threshold, kind)
            == RiskLevel::Safe,
{
}

/// The fifths of an overall detectability stand for the risks.
pub proof fn law_risk_of_fifths(score: int)
    requires
        0 <= score <= 1_000_000,
    ensures
        200_000 * risk_of_score(score).rank() <= score <= 200_000 * (risk_of_score(score).rank()
            + 1),
        score > 200_000 ==> risk_of_score(score).rank() >= 1,
        risk_of_score(score).rank() > 0 ==> score > 200_000 * risk_of_score(score).rank(),
{
}

/// A verdict says what the flow is taken for, and a tunnel that is recognised well enough is acted
/// on.
pub proof fn law_recognised_tunnels_are_acted_on(
    s: DpiSimulator,
    r: ClassificationResult,
    name: Seq<char>,
    confidence: int,
)
    requires
        s.is_verdict(r, name, confidence),
    ensures
        r.detected_as@ == name,
        name == "openvpn"@ || name == "wireguard"@ || name == "tor"@ || name == "shadowsocks"@
            || name == "trojan"@ || name == "v2ray"@ ==> r.classification.is_blocked() && (
        r.confidence > 10_000 * s.region.row().6 + 100_000 ==> r.risk_level.rank()
            >= RiskLevel::HighRisk.rank() && s.acts_on(r.confidence as int, r.risk_level)),
        s.acts_on(r.confidence as int, r.risk_level) <==> r.confidence > 10_000
            * s.region.row().6,
{
    law_names_tell_the_traffic(name);
}

/// Confidence in a verdict grows with that of the classifier and with the signature score, by
/// thirteen and by seven parts in twenty; where both agree it is theirs.
pub proof fn law_confidence_is_shared(classifier: int, signature: int)
    requires
        0 <= classifier <= 1_000_000,
        0 <= signature <= 1_000_000,
    ensures
        combined(classifier, classifier) == classifier,
        classifier + 20 <= 1_000_000 ==> combined(classifier + 20, signature) == combined(
            classifier,
            signature,
        ) + 13,
        signature + 20 <= 1_000_000 ==> combined(classifier, signature + 20) == combined(
            classifier,
            signature,
        ) + 7,
        combined(classifier, signature) <= 1_000_000,
{
}

/// A flow is at no distance from a profile whose means it has; and where it is off by `k` deviations
/// in one feature only, the distance is the square of that with the feature's weight: three tenths
/// for sizes, a quarter for gaps, three twentieths for entropy in bits, and three fifths for shares
/// of bytes that go up and for a beat.
pub proof fn law_distance_to_profiles(p: TrafficProfile, f: FlowPoint, k: int)
    requires
        p.wf(),
        k >= 0,
        f.size == p.size_mean,
        f.timing == p.timing_mean,
        f.entropy == p.entropy_mean,
        f.direction == p.direction_ratio,
        f.periodicity == p.periodicity_score,
    ensures
        p.distance(f) == 0,
        forall|g: FlowPoint|
            g == (FlowPoint { size: g.size, ..f }) && (#[trigger] g.size) == p.size_mean + k
                * p.size_std ==> p.distance(g) == 300_000 * (k * k),
        forall|g: FlowPoint|
            g == (FlowPoint { timing: g.timing, ..f }) && (#[trigger] g.timing) == p.timing_mean + k
                * p.timing_std ==> p.distance(g) == 250_000 * (k * k),
        forall|g: FlowPoint|
            g == (FlowPoint { entropy: g.entropy, ..f }) && (#[trigger] g.entropy) == p.entropy_mean
                + k * 1_000_000 ==> p.distance(g) == 150_000 * (k * k),
        forall|g: FlowPoint|
            g == (FlowPoint { direction: g.direction, ..f }) && (#[trigger] g.direction)
                == p.direction_ratio + k * 1_000_000 ==> p.distance(g) == 600_000 * (k * k),
        forall|g: FlowPoint|
            g == (FlowPoint { periodicity: g.periodicity, ..f }) && (#[trigger] g.periodicity)
                == p.periodicity_score + k * 1_000_000 ==> p.distance(g) == 600_000 * (k * k),
{
    assert forall|x: int, std: int| std >= 1 implies #[trigger] square_off(x, x, std) == 0 by {
        assert(0int / std == 0) by (nonlinear_arith)
            requires
                std >= 1,
        ;
        assert(0int * 0int == 0) by (nonlinear_arith);
    }
    assert forall|x: int, mean: int, std: int| std >= 1 && x == mean + k * std implies
        #[trigger] square_off(x, mean, std) == 1_000_000 * (k * k) by {
        let d = k * std;
        assert(d >= 0 && d * 1_000_000 / std == 1_000_000 * k) by (nonlinear_arith)
            requires
                d == k * std,
                std >= 1,
                k >= 0,
        ;
        let z = 1_000_000 * k;
        assert(z * z == 1_000_000 * (1_000_000 * (k * k))) by (nonlinear_arith)
            requires
                z == 1_000_000 * k,
        ;
    }
}

/// The profile whose means a flow has is the one that the flow is taken for, unless one before it
/// has no distance either.
pub proof fn law_exact_flows_are_recognised(profiles: Seq<TrafficProfile>, f: FlowPoint, i: int)
    requires
        0 <= i < profiles.len(),
        profiles[i].distance(f) == 0,
        forall|j: int| 0 <= j < profiles.len() ==> (#[trigger] profiles[j]).distance(f) >= 0,
        forall|j: int| 0 <= j < i ==> (#[trigger] profiles[j]).distance(f) > 0,
    ensures
        nearest_index(profiles, f, profiles.len() as int) == i,
{
    let n = profiles.len() as int;
    let best = nearest_index(profiles, f, n);
    law_nearest_is_nearest(profiles, f, n, i);
}

/// The signature score is that of the signature that fits best: as high as that of any, and that of
/// one of them.
pub proof fn law_best_signature_is_best(
    sigs: Seq<DpiSignature>,
    mean_ns: int,
    std_ns: int,
    n: int,
    i: int,
)
    requires
        0 <= i < n <= sigs.len(),
    ensures
        sigs[i].timing_pattern matches Some(p) ==> 100 * best_signature(sigs, mean_ns, std_ns, n)
            + 99 >= dpi_signatures::timing_match(p, mean_ns, std_ns) * sigs[i].severity,
        best_signature(sigs, mean_ns, std_ns, n) > 0 ==> exists|k: int|
            0 <= k < n && ((#[trigger] sigs[k]).timing_pattern matches Some(p) && 100
                * best_signature(sigs, mean_ns, std_ns, n) <= dpi_signatures::timing_match(
                p,
                mean_ns,
                std_ns,
            ) * sigs[k].severity),
        best_signature(sigs, mean_ns, std_ns, n) >= 0,
    decreases n,
{
    let fit = match sigs[n - 1].timing_pattern {
        Some(p) => dpi_signatures::timing_match(p, mean_ns, std_ns),
        None => 0,
    };
    let raw = fit * sigs[n - 1].severity;
    if sigs[n - 1].timing_pattern is None {
        assert(raw == 0) by (nonlinear_arith)
            requires
                raw == fit * sigs[n - 1].severity,
                fit == 0,
        ;
    }
    assert(raw / 100 * 100 <= raw < raw / 100 * 100 + 100);
    if n > 1 {
        if i < n - 1 {
            law_best_signature_is_best(sigs, mean_ns, std_ns, n - 1, i);
        } else {
            law_best_signature_is_best(sigs, mean_ns, std_ns, n - 1, 0);
        }
    }
    let before = best_signature(sigs, mean_ns, std_ns, n - 1);
    if raw / 100 > before {
        assert(sigs[n - 1].timing_pattern is Some);
    } else if before > 0 {
        let k = choose|k: int|
            0 <= k < n - 1 && ((#[trigger] sigs[k]).timing_pattern matches Some(p) && 100 * before
                <= dpi_signatures::timing_match(p, mean_ns, std_ns) * sigs[k].severity);
        assert(0 <= k < n);
    }
}

/// Signatures are not matched before sixteen packets have been seen.
pub proof fn law_signatures_need_packets(s: DpiSimulator)
    requires
        s.packet_count < 16,
    ensures
        s.signature_score() == 0,
{
}

/// A flow of packets like one another has their features: sizes in bytes, gaps in milliseconds and
/// entropies in bits, each in millionths, and none of them spreads.
pub proof fn law_features_of_equal_packets(s: DpiSimulator, size: u64, gap_us: u64, entropy: u64)
    requires
        s.size_extractor.window@.len() > 0,
        s.timing_extractor.window@.len() > 0,
        s.entropy_extractor.window@.len() > 0,
        forall|i: int|
            0 <= i < s.size_extractor.window@.len() ==> #[trigger] s.size_extractor.window@[i] == size,
        forall|i: int|
            0 <= i < s.timing_extractor.window@.len() ==> #[trigger] s.timing_extractor.window@[i]
                == gap_us,
        forall|i: int|
            0 <= i < s.entropy_extractor.window@.len() ==> #[trigger] s.entropy_extractor.window@[i]
                == entropy,
    ensures
        s.features().size_mean == 1_000_000 * size,
        s.features().size_std == 0,
        s.features().timing_mean == 1000 * gap_us,
        s.features().timing_std == 0,
        s.features().entropy_mean == entropy,
        s.features().burstiness == 0,
        s.features().autocorrelation == 0,
        s.features().size_skewness == 0,
{
    spread::law_equal_numbers_do_not_spread(s.size_extractor.window@, size);
    spread::law_equal_numbers_do_not_spread(s.timing_extractor.window@, gap_us);
    spread::law_equal_numbers_do_not_spread(s.entropy_extractor.window@, entropy);
    spread::law_equal_numbers_are_their_mean(s.size_extractor.window@, size);
    spread::law_equal_numbers_are_their_mean(s.timing_extractor.window@, gap_us);
    spread::law_equal_numbers_are_their_mean(s.entropy_extractor.window@, entropy);
}

/// The direction is the part of bytes that go up, and the asymmetry twice how far that is from a
/// half.
pub proof fn law_direction_is_the_part_that_goes_up(s: DpiSimulator)
    ensures
        ({
            let (up, down) = (
                s.direction_extractor.bytes_up as int,
                s.direction_extractor.bytes_down as int,
            );
            let share = s.features().direction_ratio as int;
            &&& up == down ==> share == 500_000 && s.features().asymmetry == 0
            &&& up > 0 && down == 0 ==> share == 1_000_000 && s.features().asymmetry == 1_000_000
            &&& up == 0 && down > 0 ==> share == 0 && s.features().asymmetry == 1_000_000
            &&& up + down > 0 ==> share * (up + down) <= 1_000_000 * up < (share + 1) * (up + down)
        }),
{
    let (up, down) = (
        s.direction_extractor.bytes_up as int,
        s.direction_extractor.bytes_down as int,
    );
    if up + down > 0 {
        let (q, n) = (1_000_000 * up / (up + down), up + down);
        assert(0 <= q && q * n <= 1_000_000 * up < (q + 1) * n) by (nonlinear_arith)
            requires
                q == 1_000_000 * up / n,
                n > 0,
                up >= 0,
        ;
        assert(q <= 1_000_000) by (nonlinear_arith)
            requires
                q * n <= 1_000_000 * up,
                up <= n,
                n > 0,
        ;
        if up == down {
            assert(q == 500_000) by (nonlinear_arith)
                requires
                    q * n <= 1_000_000 * up < (q + 1) * n,
                    n == 2 * up,
                    n > 0,
            ;
        }
        if down == 0 {
            assert(q == 1_000_000) by (nonlinear_arith)
                requires
                    q * n <= 1_000_000 * up < (q + 1) * n,
                    n == up,
                    n > 0,
            ;
        }
    }
}

/// Packets that come in equal steps have that step for a period, in millionths of a millisecond, of
/// which one has 65536 units of time.
pub proof fn law_period_is_the_step(s: DpiSimulator, step: u64)
    requires
        s.periodicity_extractor.timestamps@.len() >= 16,
        step > 0,
        forall|i: int|
            0 <= i < s.periodicity_extractor.timestamps@.len()
                ==> #[trigger] s.periodicity_extractor.timestamps@[i]
                == s.periodicity_extractor.timestamps@[0] + i * step,
    ensures
        s.period_ms() is Some,
        65_536 * s.period_ms()->Some_0 <= 1_000_000 * step < 65_536 * (s.period_ms()->Some_0 + 1),
        s.facts().dominant_period == s.period_ms(),
{
    dpi_features::law_steps_are_the_period(s.periodicity_extractor.timestamps@, step);
    let p = dpi_features::period_of(s.periodicity_extractor.timestamps@)->Some_0;
    assert(0 <= p / 1000 <= 1_000_000 * step);
    assert(1_000_000 * step <= u128::MAX);
}

/// A flow of equal entropies looks encrypted just where they are above seven and a half bits, and
/// its packets count by the part that goes up.
pub proof fn law_encryption_shows_in_the_entropy(s: DpiSimulator, x: u64)
    requires
        s.entropy_extractor.window@.len() > 0,
        forall|i: int|
            0 <= i < s.entropy_extractor.window@.len()
                ==> #[trigger] s.entropy_extractor.window@[i] == x,
    ensures
        s.facts().is_high_entropy <==> x > 7_500_000,
        s.facts().entropy_std == 0,
        s.direction_extractor.packet_count_up == s.direction_extractor.packet_count_down
            ==> s.facts().packet_ratio == 500_000,
{
    let e = s.entropy_extractor.window@;
    window::lemma_total_between(e, x as int, x as int);
    let n = e.len() as int;
    assert(n * x > 7_500_000 * n <==> x > 7_500_000) by (nonlinear_arith)
        requires
            n > 0,
    ;
    spread::law_equal_numbers_do_not_spread(e, x);
    let (up, down) = (
        s.direction_extractor.packet_count_up as int,
        s.direction_extractor.packet_count_down as int,
    );
    if up == down && up > 0 {
        dpi_features::law_shares_make_up_the_whole(up, down);
    }
}

/// A flow is taken for a kind of known traffic to which none is nearer, and for none before any
/// packet.
pub proof fn law_flows_are_taken_for_the_nearest(s: DpiSimulator, i: int)
    requires
        0 <= i < s.classifier.profiles@.len(),
    ensures
        s.point().size == 0 ==> s.taken_for() == "unknown"@,
        s.point().size > 0 ==> exists|k: int|
            0 <= k < s.classifier.profiles@.len() && s.taken_for() == (
            #[trigger] s.classifier.profiles@[k]).name@ && s.classifier.profiles@[k].distance(
                s.point(),
            ) <= s.classifier.profiles@[i].distance(s.point()),
{
    let profiles = s.classifier.profiles@;
    law_nearest_is_nearest(profiles, s.point(), profiles.len() as int, i);
    let k = nearest_index(profiles, s.point(), profiles.len() as int);
    assert(profiles[k] == s.classifier.profiles@[k]);
}

/// A set target is the one to measure against.
pub proof fn law_set_targets_are_measured_against(s: DpiSimulator)
    ensures
        s.target matches Some(t) ==> s.goal() == t,
        s.target is None ==> s.goal().size_mean == 200_000_000 && s.goal().timing_mean == 30_000_000
            && s.goal().entropy == 7_000_000 && s.goal().direction == 400_000,
{
}

/// A simulator that has measured nothing takes a flow for unknown, with as much up as down, and has
/// room for 256 packets.
pub proof fn law_simulators_start_clear(s: DpiSimulator)
    requires
        s.is_clear(),
        s.is_stocked(),
    ensures
        s.point().size == 0,
        s.taken_for() == "unknown"@,
        s.facts().dominant_period is None,
        s.facts().packet_ratio == 500_000,
        s.size_extractor.window.limit == 256,
        s.timing_extractor.window.limit == 256,
        s.entropy_extractor.window.limit == 256,
        s.periodicity_extractor.timestamps.limit == 256,
        s.classifier.threshold == 5_000_000,
{
    assert(s.size_extractor.window@ =~= Seq::<u64>::empty());
    assert(s.periodicity_extractor.timestamps@.len() == 0);
}

} // verus!
