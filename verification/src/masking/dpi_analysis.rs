//! How detectable a flow is, feature by feature, and what would help.
//!
//! Features and scores are in millionths: bytes, milliseconds and bits of entropy alike.

use crate::masking::dpi_signatures::DpiRegion;
#[allow(unused_imports)]
use crate::masking::dpi_signatures;
use crate::masking::dpi_simulator::{DpiSimulator, RiskLevel, FEATURE_LIMIT};
#[allow(unused_imports)]
use crate::masking::dpi_simulator;
use crate::utils::text::fixed;
#[allow(unused_imports)]
use crate::utils::text;
use vstd::prelude::*;
use vstd::string::StringExecFns;

verus! {

/// What was measured of a flow.
#[derive(Debug, Clone, Copy)]
pub struct FeatureVector {
    pub size_mean: u128,
    pub size_std: u128,
    pub timing_mean: u128,
    pub timing_std: u128,
    pub entropy_mean: u128,
    pub direction_ratio: u128,
    pub periodicity: u128,
    pub size_skewness: i128,
    pub size_kurtosis: i128,
    pub burstiness: u128,
    pub autocorrelation: i128,
    pub entropy_stability: u128,
    pub asymmetry: u128,
}

impl FeatureVector {
    pub open spec fn wf(self) -> bool {
        &&& self.size_mean <= FEATURE_LIMIT
        &&& self.timing_mean <= FEATURE_LIMIT
        &&& self.timing_std <= FEATURE_LIMIT
        &&& self.entropy_mean <= FEATURE_LIMIT
        &&& self.direction_ratio <= FEATURE_LIMIT
        &&& self.periodicity <= FEATURE_LIMIT
        &&& self.burstiness <= FEATURE_LIMIT
    }
}

/// What the flow should look like.
#[derive(Debug, Clone, Copy)]
pub struct TargetStats {
    pub size_mean: u128,
    pub size_std: u128,
    pub timing_mean: u128,
    pub timing_std: u128,
    pub entropy: u128,
    pub direction: u128,
    pub periodicity: u128,
}

impl TargetStats {
    pub open spec fn wf(self) -> bool {
        &&& self.size_mean <= FEATURE_LIMIT
        &&& self.size_std <= FEATURE_LIMIT
        &&& self.timing_mean <= FEATURE_LIMIT
        &&& self.timing_std <= FEATURE_LIMIT
        &&& self.entropy <= FEATURE_LIMIT
        &&& self.direction <= FEATURE_LIMIT
        &&& self.periodicity <= FEATURE_LIMIT
    }
}

/// The target where no model is set.
pub open spec fn default_target() -> TargetStats {
    TargetStats {
        size_mean: 200_000_000,
        size_std: 150_000_000,
        timing_mean: 30_000_000,
        timing_std: 20_000_000,
        entropy: 7_000_000,
        direction: 400_000,
        periodicity: 150_000,
    }
}

/// The target where no model is set.
pub fn plain_target() -> (t: TargetStats)
    ensures
        t == default_target(),
        t.wf(),
{
    TargetStats {
        size_mean: 200_000_000,
        size_std: 150_000_000,
        timing_mean: 30_000_000,
        timing_std: 20_000_000,
        entropy: 7_000_000,
        direction: 400_000,
        periodicity: 150_000,
    }
}

/// How detectable each feature is.
#[derive(Debug, Clone, Copy, PartialEq, Eq, Structural)]
pub struct Detectability {
    pub size: u128,
    pub timing: u128,
    pub entropy: u128,
    pub direction: u128,
    pub periodicity: u128,
}

/// A third of the distance in deviations, at most one; nothing without a deviation.
pub open spec fn spread_score(x: int, target: int, std: int) -> int {
    if std > 0 {
        dpi_signatures::least(dpi_signatures::gap(x, target) * 1_000_000 / (3 * std), 1_000_000)
    } else {
        0
    }
}

/// The distance in parts of the target, at most one; nothing without a target.
pub open spec fn relative_score(x: int, target: int) -> int {
    if target > 0 {
        dpi_signatures::least(dpi_signatures::gap(x, target) * 1_000_000 / target, 1_000_000)
    } else {
        0
    }
}

pub open spec fn detectability_of(f: FeatureVector, t: TargetStats) -> Detectability {
    Detectability {
        size: spread_score(f.size_mean as int, t.size_mean as int, t.size_std as int) as u128,
        timing: spread_score(
            f.timing_mean as int,
            t.timing_mean as int,
            t.timing_std as int,
        ) as u128,
        entropy: relative_score(f.entropy_mean as int, t.entropy as int) as u128,
        direction: (2 * dpi_signatures::gap(f.direction_ratio as int, t.direction as int)) as u128,
        periodicity: dpi_signatures::least(
            dpi_signatures::gap(f.periodicity as int, t.periodicity as int),
            1_000_000,
        ) as u128,
    }
}

/// All features and the signature score, weighted by region.
pub open spec fn overall_of(d: Detectability, region: DpiRegion, signature: int) -> int {
    let w = region.weights();
    (w.size_weight * d.size + w.timing_weight * d.timing + w.entropy_weight * d.entropy
        + w.direction_weight * d.direction + w.periodicity_weight * d.periodicity
        + w.signature_weight * signature) / 100
}

fn distance(a: u128, b: u128) -> (d: u128)
    ensures
        d == dpi_signatures::gap(a as int, b as int),
{
    if a >= b {
        a - b
    } else {
        b - a
    }
}

fn scaled_score(d: u128, over: u128) -> (s: u128)
    requires
        d <= FEATURE_LIMIT,
        over > 0,
    ensures
        s == dpi_signatures::least(d * 1_000_000 / over as int, 1_000_000),
{
    assert(d * 1_000_000 / over as int <= d * 1_000_000) by (nonlinear_arith)
        requires
            d >= 0,
            over > 0,
    ;
    let s: u128 = d * 1_000_000 / over;
    if s <= 1_000_000 {
        s
    } else {
        1_000_000
    }
}

/// How detectable each feature is.
pub fn detectability(f: &FeatureVector, t: &TargetStats) -> (d: Detectability)
    requires
        f.wf(),
        t.wf(),
    ensures
        d == detectability_of(*f, *t),
        d.size <= 1_000_000,
        d.timing <= 1_000_000,
        d.entropy <= 1_000_000,
        d.direction <= 2 * FEATURE_LIMIT,
        d.periodicity <= 1_000_000,
{
    let size: u128 = if t.size_std > 0 {
        scaled_score(distance(f.size_mean, t.size_mean), 3 * t.size_std)
    } else {
        0
    };
    let timing: u128 = if t.timing_std > 0 {
        scaled_score(distance(f.timing_mean, t.timing_mean), 3 * t.timing_std)
    } else {
        0
    };
    let entropy: u128 = if t.entropy > 0 {
        scaled_score(distance(f.entropy_mean, t.entropy), t.entropy)
    } else {
        0
    };
    let direction: u128 = 2 * distance(f.direction_ratio, t.direction);
    let off: u128 = distance(f.periodicity, t.periodicity);
    let periodicity: u128 = if off <= 1_000_000 { off } else { 1_000_000 };
    Detectability { size, timing, entropy, direction, periodicity }
}

/// All features and the signature score, weighted by region.
pub fn overall_detectability(d: &Detectability, region: DpiRegion, signature: u128) -> (s: u128)
    requires
        d.size <= 1_000_000,
        d.timing <= 1_000_000,
        d.entropy <= 1_000_000,
        d.direction <= 2 * FEATURE_LIMIT,
        d.periodicity <= 1_000_000,
        signature <= 1_000_000,
    ensures
        s == overall_of(*d, region, signature as int),
{
    let w = region.detection_weights();
    proof {
        assert(w.size_weight <= 30 && w.timing_weight <= 25 && w.entropy_weight <= 20
            && w.direction_weight <= 15 && w.periodicity_weight <= 15 && w.signature_weight <= 25);
        assert(w.size_weight * d.size <= 30 * 1_000_000) by (nonlinear_arith)
            requires
                w.size_weight <= 30,
                d.size <= 1_000_000,
        ;
        assert(w.timing_weight * d.timing <= 25 * 1_000_000) by (nonlinear_arith)
            requires
                w.timing_weight <= 25,
                d.timing <= 1_000_000,
        ;
        assert(w.entropy_weight * d.entropy <= 20 * 1_000_000) by (nonlinear_arith)
            requires
                w.entropy_weight <= 20,
                d.entropy <= 1_000_000,
        ;
        assert(w.direction_weight * d.direction <= 15 * (2 * FEATURE_LIMIT)) by (nonlinear_arith)
            requires
                w.direction_weight <= 15,
                d.direction <= 2 * FEATURE_LIMIT,
        ;
        assert(w.periodicity_weight * d.periodicity <= 15 * 1_000_000) by (nonlinear_arith)
            requires
                w.periodicity_weight <= 15,
                d.periodicity <= 1_000_000,
        ;
        assert(w.signature_weight * signature <= 25 * 1_000_000) by (nonlinear_arith)
            requires
                w.signature_weight <= 25,
                signature <= 1_000_000,
        ;
    }
    ((w.size_weight as u128) * d.size + (w.timing_weight as u128) * d.timing + (
    w.entropy_weight as u128) * d.entropy + (w.direction_weight as u128) * d.direction + (
    w.periodicity_weight as u128) * d.periodicity + (w.signature_weight as u128) * signature) / 100
}

/// A flow exactly on target is not detectable but by signature.
pub proof fn law_on_target_is_undetectable(f: FeatureVector, t: TargetStats, region: DpiRegion)
    requires
        f.size_mean == t.size_mean,
        f.timing_mean == t.timing_mean,
        f.entropy_mean == t.entropy,
        f.direction_ratio == t.direction,
        f.periodicity == t.periodicity,
    ensures
        detectability_of(f, t) == (Detectability {
            size: 0,
            timing: 0,
            entropy: 0,
            direction: 0,
            periodicity: 0,
        }),
        overall_of(detectability_of(f, t), region, 0) == 0,
        dpi_simulator::risk_of_score(overall_of(detectability_of(f, t), region, 0))
            == RiskLevel::Safe,
{
    let a = 3 * t.size_std;
    let b = 3 * t.timing_std;
    let c = t.entropy as int;
    assert(a > 0 ==> 0int / a == 0) by (nonlinear_arith);
    assert(b > 0 ==> 0int / b == 0) by (nonlinear_arith);
    assert(c > 0 ==> 0int / c == 0) by (nonlinear_arith);
}

/// What else the recommendations name.
#[derive(Debug, Clone, Copy)]
pub struct Observations {
    pub burstiness: u128,
    pub entropy: u128,
    pub direction: u128,
    pub period: Option<u128>,
    pub signature: u128,
}

impl Observations {
    pub open spec fn wf(self) -> bool {
        &&& self.burstiness <= i128::MAX
        &&& self.entropy <= FEATURE_LIMIT
        &&& self.direction <= FEATURE_LIMIT
        &&& self.period matches Some(p) ==> p <= i128::MAX
        &&& self.signature <= 1_000_000
    }
}

pub open spec fn size_advice(t: TargetStats) -> Seq<char> {
    let std = if t.size_std < 1 {
        1
    } else {
        t.size_std as int
    };
    "Packet size distribution diverges significantly (z="@ + text::fixed_of(
        -(t.size_mean * 1_000_000 / std),
        2,
    ) + "). Adjust padding to match target mean "@ + text::fixed_of(t.size_mean as int, 0) + "±"@
        + text::fixed_of(t.size_std as int, 0) + " bytes"@
}

pub open spec fn timing_advice(t: TargetStats, o: Observations) -> Seq<char> {
    "Timing pattern anomalous. Target IAT: "@ + text::fixed_of(t.timing_mean as int, 1) + "±"@
        + text::fixed_of(t.timing_std as int, 1) + "ms. Burstiness index: "@ + text::fixed_of(
        o.burstiness as int,
        2,
    ) + ". Apply gamma-distributed jitter"@
}

pub open spec fn high_entropy_advice(t: TargetStats, o: Observations) -> Seq<char> {
    "Entropy too high ("@ + text::fixed_of(o.entropy as int, 2) + " vs target "@ + text::fixed_of(
        t.entropy as int,
        2,
    ) + "). Payload appears encrypted/random. Introduce structured padding"@
}

pub open spec fn low_entropy_advice(t: TargetStats, o: Observations) -> Seq<char> {
    "Entropy too low ("@ + text::fixed_of(o.entropy as int, 2) + " vs target "@ + text::fixed_of(
        t.entropy as int,
        2,
    ) + "). Payload may contain recognizable patterns"@
}

pub open spec fn direction_advice(t: TargetStats, o: Observations) -> Seq<char> {
    "Direction asymmetry detected (ratio "@ + text::fixed_of(o.direction as int, 2)
        + " vs target "@ + text::fixed_of(t.direction as int, 2)
        + "). Add dummy traffic in underrepresented direction"@
}

pub open spec fn period_advice(o: Observations) -> Seq<char> {
    match o.period {
        Some(p) => "Strong periodicity detected (period "@ + text::fixed_of(p as int, 1)
            + "ms). DPI systems flag regular intervals. Apply phase-randomized jitter"@,
        None =>
            "Periodicity score elevated. Introduce non-deterministic inter-packet delays using exponential distribution"@,
    }
}

pub open spec fn signature_advice(o: Observations) -> Seq<char> {
    "Traffic matches known DPI signature (score "@ + text::fixed_of(o.signature as int, 2)
        + "). Consider port randomization or TLS fingerprint obfuscation"@
}

/// `s` with `x` behind it, where `when` holds.
pub open spec fn push_if(s: Seq<Seq<char>>, when: bool, x: Seq<char>) -> Seq<Seq<char>> {
    if when {
        s.push(x)
    } else {
        s
    }
}

/// The recommendations: one for each feature that stands out, or that none does.
pub open spec fn advice_of(d: Detectability, t: TargetStats, o: Observations) -> Seq<Seq<char>> {
    let a = push_if(Seq::empty(), d.size > 500_000, size_advice(t));
    let b = push_if(a, d.timing > 500_000, timing_advice(t, o));
    let c = push_if(
        b,
        d.entropy > 400_000 && o.entropy > t.entropy + 300_000,
        high_entropy_advice(t, o),
    );
    let e = push_if(
        c,
        d.entropy > 400_000 && o.entropy < t.entropy - 300_000,
        low_entropy_advice(t, o),
    );
    let f = push_if(e, d.direction > 400_000, direction_advice(t, o));
    let g = push_if(f, d.periodicity > 500_000, period_advice(o));
    let h = push_if(g, o.signature > 300_000, signature_advice(o));
    push_if(h, h.len() == 0, "Traffic profile within acceptable bounds for target model"@)
}

/// There is always something to say.
pub proof fn law_advice_is_never_empty(d: Detectability, t: TargetStats, o: Observations)
    ensures
        advice_of(d, t, o).len() > 0,
{
}

fn say_size(t: &TargetStats) -> (s: String)
    requires
        t.wf(),
    ensures
        s@ == size_advice(*t),
{
    let std: u128 = if t.size_std < 1 { 1 } else { t.size_std };
    assert(0 <= t.size_mean * 1_000_000 / std as int <= t.size_mean * 1_000_000)
        by (nonlinear_arith)
        requires
            t.size_mean >= 0,
            std >= 1,
    ;
    let z: i128 = -((t.size_mean * 1_000_000 / std) as i128);
    let mut s = String::from_str("Packet size distribution diverges significantly (z=");
    s.append(fixed(z, 2).as_str());
    s.append("). Adjust padding to match target mean ");
    s.append(fixed(t.size_mean as i128, 0).as_str());
    s.append("±");
    s.append(fixed(t.size_std as i128, 0).as_str());
    s.append(" bytes");
    s
}

fn say_timing(t: &TargetStats, o: &Observations) -> (s: String)
    requires
        t.wf(),
        o.wf(),
    ensures
        s@ == timing_advice(*t, *o),
{
    let mut s = String::from_str("Timing pattern anomalous. Target IAT: ");
    s.append(fixed(t.timing_mean as i128, 1).as_str());
    s.append("±");
    s.append(fixed(t.timing_std as i128, 1).as_str());
    s.append("ms. Burstiness index: ");
    s.append(fixed(o.burstiness as i128, 2).as_str());
    s.append(". Apply gamma-distributed jitter");
    s
}

fn say_high_entropy(t: &TargetStats, o: &Observations) -> (s: String)
    requires
        t.wf(),
        o.wf(),
    ensures
        s@ == high_entropy_advice(*t, *o),
{
    let mut s = String::from_str("Entropy too high (");
    s.append(fixed(o.entropy as i128, 2).as_str());
    s.append(" vs target ");
    s.append(fixed(t.entropy as i128, 2).as_str());
    s.append("). Payload appears encrypted/random. Introduce structured padding");
    s
}

fn say_low_entropy(t: &TargetStats, o: &Observations) -> (s: String)
    requires
        t.wf(),
        o.wf(),
    ensures
        s@ == low_entropy_advice(*t, *o),
{
    let mut s = String::from_str("Entropy too low (");
    s.append(fixed(o.entropy as i128, 2).as_str());
    s.append(" vs target ");
    s.append(fixed(t.entropy as i128, 2).as_str());
    s.append("). Payload may contain recognizable patterns");
    s
}

fn say_direction(t: &TargetStats, o: &Observations) -> (s: String)
    requires
        t.wf(),
        o.wf(),
    ensures
        s@ == direction_advice(*t, *o),
{
    let mut s = String::from_str("Direction asymmetry detected (ratio ");
    s.append(fixed(o.direction as i128, 2).as_str());
    s.append(" vs target ");
    s.append(fixed(t.direction as i128, 2).as_str());
    s.append("). Add dummy traffic in underrepresented direction");
    s
}

fn say_period(o: &Observations) -> (s: String)
    requires
        o.wf(),
    ensures
        s@ == period_advice(*o),
{
    match o.period {
        Some(p) => {
            let mut s = String::from_str("Strong periodicity detected (period ");
            s.append(fixed(p as i128, 1).as_str());
            s.append("ms). DPI systems flag regular intervals. Apply phase-randomized jitter");
            s
        },
        None => String::from_str(
            "Periodicity score elevated. Introduce non-deterministic inter-packet delays using exponential distribution",
        ),
    }
}

fn say_signature(o: &Observations) -> (s: String)
    requires
        o.wf(),
    ensures
        s@ == signature_advice(*o),
{
    let mut s = String::from_str("Traffic matches known DPI signature (score ");
    s.append(fixed(o.signature as i128, 2).as_str());
    s.append("). Consider port randomization or TLS fingerprint obfuscation");
    s
}

/// Puts `x` behind `v`.
fn add(v: &mut Vec<String>, x: String)
    ensures
        dpi_signatures::texts(final(v)@) == dpi_signatures::texts(old(v)@).push(x@),
{
    let ghost t = x@;
    v.push(x);
    assert(dpi_signatures::texts(v@) =~= dpi_signatures::texts(old(v)@).push(t));
}

/// The recommendations for a flow.
pub fn generate_recommendations(d: &Detectability, t: &TargetStats, o: &Observations) -> (recs: Vec<
    String,
>)
    requires
        t.wf(),
        o.wf(),
    ensures
        dpi_signatures::texts(recs@) == advice_of(*d, *t, *o),
{
    let mut recs: Vec<String> = Vec::new();
    assert(dpi_signatures::texts(recs@) =~= Seq::empty());
    if d.size > 500_000 {
        self::add(&mut recs, say_size(t));
    }
    if d.timing > 500_000 {
        self::add(&mut recs, say_timing(t, o));
    }
    if d.entropy > 400_000 {
        if o.entropy > t.entropy + 300_000 {
            self::add(&mut recs, say_high_entropy(t, o));
        } else if o.entropy + 300_000 < t.entropy {
            self::add(&mut recs, say_low_entropy(t, o));
        }
    }
    if d.direction > 400_000 {
        self::add(&mut recs, say_direction(t, o));
    }
    if d.periodicity > 500_000 {
        self::add(&mut recs, say_period(o));
    }
    if o.signature > 300_000 {
        self::add(&mut recs, say_signature(o));
    }
    if recs.len() == 0 {
        self::add(
            &mut recs,
            String::from_str("Traffic profile within acceptable bounds for target model"),
        );
    }
    recs
}

#[derive(Debug, Clone, Copy, PartialEq, Eq, Structural)]
pub struct SizeAnalysis {
    pub observed_mean: u128,
    pub observed_std: u128,
    pub target_mean: u128,
    pub target_std: u128,
    pub z_score: i128,
    pub skewness: i128,
    pub kurtosis: i128,
    pub detectability: u128,
}

#[derive(Debug, Clone, Copy, PartialEq, Eq, Structural)]
pub struct TimingAnalysis {
    pub observed_mean: u128,
    pub observed_std: u128,
    pub target_mean: u128,
    pub target_std: u128,
    pub burstiness: u128,
    pub autocorrelation: i128,
    pub detectability: u128,
}

#[derive(Debug, Clone, Copy, PartialEq, Eq, Structural)]
pub struct EntropyAnalysis {
    pub observed_mean: u128,
    pub observed_std: u128,
    pub target_mean: u128,
    pub stability: u128,
    pub is_suspicious: bool,
    pub detectability: u128,
}

#[derive(Debug, Clone, Copy, PartialEq, Eq, Structural)]
pub struct DirectionAnalysis {
    pub byte_ratio: u128,
    pub packet_ratio: u128,
    pub asymmetry: u128,
    pub target_ratio: u128,
    pub detectability: u128,
}

#[derive(Debug, Clone, Copy, PartialEq, Eq, Structural)]
pub struct PeriodicityAnalysis {
    pub score: u128,
    pub dominant_period: Option<u128>,
    pub target_periodicity: u128,
    pub detectability: u128,
}

#[derive(Debug)]
pub struct DpiAnalysis {
    pub size_analysis: SizeAnalysis,
    pub timing_analysis: TimingAnalysis,
    pub entropy_analysis: EntropyAnalysis,
    pub direction_analysis: DirectionAnalysis,
    pub periodicity_analysis: PeriodicityAnalysis,
    pub overall_risk: RiskLevel,
    pub recommendations: Vec<String>,
}

/// The distance in deviations, with its sign; nothing without a deviation.
pub open spec fn z_score_of(x: int, target: int, std: int) -> int {
    if std <= 0 {
        0
    } else if x >= target {
        (x - target) * 1_000_000 / std
    } else {
        -((target - x) * 1_000_000 / std)
    }
}

/// The distance in deviations, with its sign.
pub fn z_score(x: u128, target: u128, std: u128) -> (z: i128)
    requires
        x <= FEATURE_LIMIT,
        target <= FEATURE_LIMIT,
    ensures
        z == z_score_of(x as int, target as int, std as int),
{
    if std == 0 {
        return 0;
    }
    let d: u128 = distance(x, target);
    assert(0 <= d * 1_000_000 / std as int <= d * 1_000_000) by (nonlinear_arith)
        requires
            d >= 0,
            std >= 1,
    ;
    let size: i128 = (d * 1_000_000 / std) as i128;
    if x >= target {
        size
    } else {
        -size
    }
}

/// What is known of a flow besides its features.
#[derive(Debug, Clone, Copy)]
pub struct FlowFacts {
    pub entropy_std: u128,
    pub is_high_entropy: bool,
    pub packet_ratio: u128,
    pub dominant_period: Option<u128>,
    pub signature: u128,
}

/// Whether `a` is the analysis of a flow in a region, against a target.
pub open spec fn is_analysis(
    a: DpiAnalysis,
    f: FeatureVector,
    facts: FlowFacts,
    t: TargetStats,
    region: DpiRegion,
) -> bool {
    let d = detectability_of(f, t);
    &&& a.size_analysis == (SizeAnalysis {
        observed_mean: f.size_mean,
        observed_std: f.size_std,
        target_mean: t.size_mean,
        target_std: t.size_std,
        z_score: z_score_of(
            f.size_mean as int,
            t.size_mean as int,
            t.size_std as int,
        ) as i128,
        skewness: f.size_skewness,
        kurtosis: f.size_kurtosis,
        detectability: d.size,
    })
    &&& a.timing_analysis == (TimingAnalysis {
        observed_mean: f.timing_mean,
        observed_std: f.timing_std,
        target_mean: t.timing_mean,
        target_std: t.timing_std,
        burstiness: f.burstiness,
        autocorrelation: f.autocorrelation,
        detectability: d.timing,
    })
    &&& a.entropy_analysis == (EntropyAnalysis {
        observed_mean: f.entropy_mean,
        observed_std: facts.entropy_std,
        target_mean: t.entropy,
        stability: f.entropy_stability,
        is_suspicious: facts.is_high_entropy,
        detectability: d.entropy,
    })
    &&& a.direction_analysis == (DirectionAnalysis {
        byte_ratio: f.direction_ratio,
        packet_ratio: facts.packet_ratio,
        asymmetry: f.asymmetry,
        target_ratio: t.direction,
        detectability: d.direction,
    })
    &&& a.periodicity_analysis == (PeriodicityAnalysis {
        score: f.periodicity,
        dominant_period: facts.dominant_period,
        target_periodicity: t.periodicity,
        detectability: d.periodicity,
    })
    &&& a.overall_risk == dpi_simulator::risk_of_score(
        overall_of(d, region, facts.signature as int),
    )
    &&& dpi_signatures::texts(a.recommendations@) == advice_of(
        d,
        t,
        Observations {
            burstiness: f.burstiness,
            entropy: f.entropy_mean,
            direction: f.direction_ratio,
            period: facts.dominant_period,
            signature: facts.signature,
        },
    )
}

/// The analysis of a flow in a region, against a target.
pub fn analyze_flow(f: &FeatureVector, facts: &FlowFacts, t: &TargetStats, region: DpiRegion) -> (a:
    DpiAnalysis)
    requires
        f.wf(),
        t.wf(),
        facts.signature <= 1_000_000,
        facts.dominant_period matches Some(p) ==> p <= i128::MAX,
    ensures
        is_analysis(a, *f, *facts, *t, region),
{
    let d = detectability(f, t);
    let overall: u128 = overall_detectability(&d, region, facts.signature);
    let o = Observations {
        burstiness: f.burstiness,
        entropy: f.entropy_mean,
        direction: f.direction_ratio,
        period: facts.dominant_period,
        signature: facts.signature,
    };
    let recommendations = generate_recommendations(&d, t, &o);
    DpiAnalysis {
        size_analysis: SizeAnalysis {
            observed_mean: f.size_mean,
            observed_std: f.size_std,
            target_mean: t.size_mean,
            target_std: t.size_std,
            z_score: z_score(f.size_mean, t.size_mean, t.size_std),
            skewness: f.size_skewness,
            kurtosis: f.size_kurtosis,
            detectability: d.size,
        },
        timing_analysis: TimingAnalysis {
            observed_mean: f.timing_mean,
            observed_std: f.timing_std,
            target_mean: t.timing_mean,
            target_std: t.timing_std,
            burstiness: f.burstiness,
            autocorrelation: f.autocorrelation,
            detectability: d.timing,
        },
        entropy_analysis: EntropyAnalysis {
            observed_mean: f.entropy_mean,
            observed_std: facts.entropy_std,
            target_mean: t.entropy,
            stability: f.entropy_stability,
            is_suspicious: facts.is_high_entropy,
            detectability: d.entropy,
        },
        direction_analysis: DirectionAnalysis {
            byte_ratio: f.direction_ratio,
            packet_ratio: facts.packet_ratio,
            asymmetry: f.asymmetry,
            target_ratio: t.direction,
            detectability: d.direction,
        },
        periodicity_analysis: PeriodicityAnalysis {
            score: f.periodicity,
            dominant_period: facts.dominant_period,
            target_periodicity: t.periodicity,
            detectability: d.periodicity,
        },
        overall_risk: DpiSimulator::detectability_to_risk(overall),
        recommendations,
    }
}

// ---- What scores keep to ----

/// How detectable a size or gap is grows with its distance from the target: a distance of three
/// deviations or more is fully detectable, and a shorter one in proportion.
pub proof fn law_three_deviations_are_detectable(x: int, target: int, std: int)
    requires
        std > 0,
    ensures
        ({
            let s = spread_score(x, target, std);
            let d = dpi_signatures::gap(x, target);
            &&& 0 <= s <= 1_000_000
            &&& d >= 3 * std ==> s == 1_000_000
            &&& d < 3 * std ==> s * (3 * std) <= 1_000_000 * d < (s + 1) * (3 * std)
            &&& d == 0 ==> s == 0
        }),
{
    let (d, m) = (dpi_signatures::gap(x, target), 3 * std);
    let q = d * 1_000_000 / m;
    assert(q >= 0 && q * m <= d * 1_000_000 < (q + 1) * m) by (nonlinear_arith)
        requires
            q == d * 1_000_000 / m,
            m > 0,
            d >= 0,
    ;
    assert(d >= m ==> q >= 1_000_000) by (nonlinear_arith)
        requires
            d * 1_000_000 < (q + 1) * m,
            m > 0,
    ;
    assert(d < m ==> q < 1_000_000) by (nonlinear_arith)
        requires
            q * m <= d * 1_000_000,
            m > 0,
            d >= 0,
    ;
    assert(d == 0 ==> q == 0) by (nonlinear_arith)
        requires
            q * m <= d * 1_000_000,
            q >= 0,
            m > 0,
    ;
}

/// An entropy is as detectable as the part of the target that it is off by, and fully where it is off
/// by all of it.
pub proof fn law_entropy_is_measured_by_the_target(x: int, target: int)
    requires
        target > 0,
    ensures
        ({
            let s = relative_score(x, target);
            let d = dpi_signatures::gap(x, target);
            &&& 0 <= s <= 1_000_000
            &&& d >= target ==> s == 1_000_000
            &&& d < target ==> s * target <= 1_000_000 * d < (s + 1) * target
        }),
{
    let (d, m) = (dpi_signatures::gap(x, target), target);
    let q = d * 1_000_000 / m;
    assert(q >= 0 && q * m <= d * 1_000_000 < (q + 1) * m) by (nonlinear_arith)
        requires
            q == d * 1_000_000 / m,
            m > 0,
            d >= 0,
    ;
    assert(d >= m ==> q >= 1_000_000) by (nonlinear_arith)
        requires
            d * 1_000_000 < (q + 1) * m,
            m > 0,
    ;
    assert(d < m ==> q < 1_000_000) by (nonlinear_arith)
        requires
            q * m <= d * 1_000_000,
            m > 0,
            d >= 0,
    ;
}

/// Each feature is held against its own target, and a direction counts twice.
pub proof fn law_features_are_held_against_their_targets(f: FeatureVector, t: TargetStats)
    requires
        f.wf(),
        t.wf(),
    ensures
        ({
            let d = detectability_of(f, t);
            &&& f.size_mean == t.size_mean ==> d.size == 0
            &&& f.timing_mean == t.timing_mean ==> d.timing == 0
            &&& f.entropy_mean == t.entropy ==> d.entropy == 0
            &&& f.periodicity == t.periodicity <==> d.periodicity == 0
            &&& t.size_std > 0 && f.size_mean >= t.size_mean + 3 * t.size_std ==> d.size == 1_000_000
            &&& t.timing_std > 0 && f.timing_mean >= t.timing_mean + 3 * t.timing_std ==> d.timing
                == 1_000_000
            &&& t.entropy > 0 && f.entropy_mean >= 2 * t.entropy ==> d.entropy == 1_000_000
            &&& f.direction_ratio >= t.direction ==> d.direction == 2 * (f.direction_ratio
                - t.direction)
            &&& f.direction_ratio <= t.direction ==> d.direction == 2 * (t.direction
                - f.direction_ratio)
            &&& f.periodicity >= t.periodicity && f.periodicity - t.periodicity <= 1_000_000
                ==> d.periodicity == f.periodicity - t.periodicity
        }),
{
    if t.size_std > 0 {
        law_three_deviations_are_detectable(
            f.size_mean as int,
            t.size_mean as int,
            t.size_std as int,
        );
    }
    if t.timing_std > 0 {
        law_three_deviations_are_detectable(
            f.timing_mean as int,
            t.timing_mean as int,
            t.timing_std as int,
        );
    }
    if t.entropy > 0 {
        law_entropy_is_measured_by_the_target(f.entropy_mean as int, t.entropy as int);
        assert(0int * 1_000_000 / (t.entropy as int) == 0) by (nonlinear_arith)
            requires
                t.entropy > 0,
        ;
    }
}

/// A flow that is as detectable in each feature and in its signature is as detectable as a whole in
/// every region; and more of one never makes the whole less detectable.
pub proof fn law_overall_is_a_mean(d: Detectability, e: Detectability, x: u128, region: DpiRegion, s: int, r: int)
    requires
        0 <= s <= r,
        d.size <= e.size,
        d.timing <= e.timing,
        d.entropy <= e.entropy,
        d.direction <= e.direction,
        d.periodicity <= e.periodicity,
    ensures
        overall_of(
            Detectability { size: x, timing: x, entropy: x, direction: x, periodicity: x },
            region,
            x as int,
        ) == x,
        overall_of(d, region, s) <= overall_of(e, region, r),
{
    let w = region.weights();
    dpi_signatures::law_weights_sum_to_one(region);
    let y = x as int;
    assert(w.size_weight * y + w.timing_weight * y + w.entropy_weight * y + w.direction_weight * y
        + w.periodicity_weight * y + w.signature_weight * y == 100 * y) by (nonlinear_arith)
        requires
            w.size_weight + w.timing_weight + w.entropy_weight + w.direction_weight
                + w.periodicity_weight + w.signature_weight == 100,
    ;
    assert(w.size_weight * d.size <= w.size_weight * e.size) by (nonlinear_arith)
        requires
            d.size <= e.size,
    ;
    assert(w.timing_weight * d.timing <= w.timing_weight * e.timing) by (nonlinear_arith)
        requires
            d.timing <= e.timing,
    ;
    assert(w.entropy_weight * d.entropy <= w.entropy_weight * e.entropy) by (nonlinear_arith)
        requires
            d.entropy <= e.entropy,
    ;
    assert(w.direction_weight * d.direction <= w.direction_weight * e.direction)
        by (nonlinear_arith)
        requires
            d.direction <= e.direction,
    ;
    assert(w.periodicity_weight * d.periodicity <= w.periodicity_weight * e.periodicity)
        by (nonlinear_arith)
        requires
            d.periodicity <= e.periodicity,
    ;
    assert(w.signature_weight * s <= w.signature_weight * r) by (nonlinear_arith)
        requires
            s <= r,
            w.signature_weight >= 0,
    ;
}

/// A flow in which nothing stands out is told so and nothing else; and each feature that stands out
/// is named: sizes, gaps and a beat above a half, entropy and direction above two fifths, and a
/// signature above three tenths.
pub proof fn law_advice_names_what_stands_out(d: Detectability, t: TargetStats, o: Observations)
    ensures
        d.size <= 500_000 && d.timing <= 500_000 && d.entropy <= 400_000 && d.direction <= 400_000
            && d.periodicity <= 500_000 && o.signature <= 300_000 ==> advice_of(d, t, o)
            == seq!["Traffic profile within acceptable bounds for target model"@],
        d.size > 500_000 ==> advice_of(d, t, o)[0] == size_advice(t),
        d.size > 500_000 ==> advice_of(d, t, o).contains(size_advice(t)),
        d.timing > 500_000 ==> advice_of(d, t, o).contains(timing_advice(t, o)),
        d.entropy > 400_000 && o.entropy > t.entropy + 300_000 ==> advice_of(d, t, o).contains(
            high_entropy_advice(t, o),
        ),
        d.entropy > 400_000 && o.entropy < t.entropy - 300_000 ==> advice_of(d, t, o).contains(
            low_entropy_advice(t, o),
        ),
        d.direction > 400_000 ==> advice_of(d, t, o).contains(direction_advice(t, o)),
        d.periodicity > 500_000 ==> advice_of(d, t, o).contains(period_advice(o)),
        o.signature > 300_000 ==> advice_of(d, t, o).contains(signature_advice(o)),
{
    let a = push_if(Seq::empty(), d.size > 500_000, size_advice(t));
    let b = push_if(a, d.timing > 500_000, timing_advice(t, o));
    let c = push_if(
        b,
        d.entropy > 400_000 && o.entropy > t.entropy + 300_000,
        high_entropy_advice(t, o),
    );
    let e = push_if(
        c,
        d.entropy > 400_000 && o.entropy < t.entropy - 300_000,
        low_entropy_advice(t, o),
    );
    let f = push_if(e, d.direction > 400_000, direction_advice(t, o));
    let g = push_if(f, d.periodicity > 500_000, period_advice(o));
    let h = push_if(g, o.signature > 300_000, signature_advice(o));
    let all = advice_of(d, t, o);
    lemma_pushed(a, d.timing > 500_000, timing_advice(t, o));
    lemma_pushed(
        b,
        d.entropy > 400_000 && o.entropy > t.entropy + 300_000,
        high_entropy_advice(t, o),
    );
    lemma_pushed(
        c,
        d.entropy > 400_000 && o.entropy < t.entropy - 300_000,
        low_entropy_advice(t, o),
    );
    lemma_pushed(e, d.direction > 400_000, direction_advice(t, o));
    lemma_pushed(f, d.periodicity > 500_000, period_advice(o));
    lemma_pushed(g, o.signature > 300_000, signature_advice(o));
    lemma_pushed(
        h,
        h.len() == 0,
        "Traffic profile within acceptable bounds for target model"@,
    );
    if d.size > 500_000 {
        assert(a[0] == size_advice(t));
        assert(a.contains(size_advice(t)));
    }
}

/// What is pushed is there, and what was there stays in its place.
proof fn lemma_pushed(s: Seq<Seq<char>>, holds: bool, x: Seq<char>)
    ensures
        holds ==> push_if(s, holds, x).contains(x),
        forall|y: Seq<char>| s.contains(y) ==> #[trigger] push_if(s, holds, x).contains(y),
        s.len() > 0 ==> push_if(s, holds, x)[0] == s[0],
        push_if(s, holds, x).len() >= s.len(),
{
    let p = push_if(s, holds, x);
    if holds {
        assert(p[s.len() as int] == x);
    }
    assert forall|y: Seq<char>| s.contains(y) implies #[trigger] p.contains(y) by {
        let i = choose|i: int| 0 <= i < s.len() && s[i] == y;
        assert(p[i] == y);
    }
}

/// A flow that is so many deviations from its target scores as many, with the sign of the side on
/// which it lies, and nothing where it meets the target.
pub proof fn law_scores_count_deviations(target: int, std: int, k: int)
    requires
        std > 0,
        k >= 0,
    ensures
        z_score_of(target + k * std, target, std) == 1_000_000 * k,
        z_score_of(target - k * std, target, std) == -(1_000_000 * k),
        z_score_of(target, target, std) == 0,
        z_score_of(target + k, target, 0) == 0,
{
    let x = k * std;
    assert(x >= 0) by (nonlinear_arith)
        requires
            x == k * std,
            k >= 0,
            std > 0,
    ;
    assert((x * 1_000_000) / std == 1_000_000 * k) by (nonlinear_arith)
        requires
            x == k * std,
            std > 0,
    ;
    assert((0int * 1_000_000) / std == 0) by (nonlinear_arith)
        requires
            std > 0,
    ;
}

/// The advice on sizes tells how many deviations the target's mean is, below nothing, with two
/// decimals, and the target in whole bytes.
pub proof fn law_size_advice_counts_deviations(t: TargetStats, k: nat)
    requires
        t.size_std >= 1,
        t.size_mean == k * t.size_std,
    ensures
        size_advice(t) == "Packet size distribution diverges significantly (z="@ + text::fixed_of(
            -(1_000_000 * k),
            2,
        ) + "). Adjust padding to match target mean "@ + text::fixed_of(t.size_mean as int, 0)
            + "±"@ + text::fixed_of(t.size_std as int, 0) + " bytes"@,
{
    let s = t.size_std as int;
    assert(((k * s) * 1_000_000) / s == 1_000_000 * k) by (nonlinear_arith)
        requires
            s >= 1,
    ;
}

} // verus!
