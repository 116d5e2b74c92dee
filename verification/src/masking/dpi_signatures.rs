//! What the middleboxes of a region look for.
//!
//! Weights, thresholds and severities are in hundredths, times in microseconds.

use vstd::prelude::*;

verus! {

#[derive(Debug, Clone, Copy, PartialEq, Eq, Structural)]
pub enum DpiRegion {
    Russia,
    China,
    Iran,
    Generic,
}

/// How much each feature counts, in hundredths.
#[derive(Debug, Clone, Copy, PartialEq, Eq, Structural)]
pub struct DpiWeights {
    pub size_weight: u64,
    pub timing_weight: u64,
    pub entropy_weight: u64,
    pub direction_weight: u64,
    pub periodicity_weight: u64,
    pub signature_weight: u64,
}

/// Size, timing, entropy, direction, periodicity and signature weights, and the
/// blocking threshold.
pub const RUSSIA_WEIGHTS: (u64, u64, u64, u64, u64, u64, u64) = (25, 20, 15, 10, 10, 20, 55);

pub const CHINA_WEIGHTS: (u64, u64, u64, u64, u64, u64, u64) = (20, 25, 20, 10, 15, 10, 45);

pub const IRAN_WEIGHTS: (u64, u64, u64, u64, u64, u64, u64) = (30, 15, 10, 15, 5, 25, 50);

pub const GENERIC_WEIGHTS: (u64, u64, u64, u64, u64, u64, u64) = (25, 20, 15, 10, 10, 20, 60);

impl DpiRegion {
    pub open spec fn row(self) -> (u64, u64, u64, u64, u64, u64, u64) {
        match self {
            DpiRegion::Russia => RUSSIA_WEIGHTS,
            DpiRegion::China => CHINA_WEIGHTS,
            DpiRegion::Iran => IRAN_WEIGHTS,
            DpiRegion::Generic => GENERIC_WEIGHTS,
        }
    }

    pub open spec fn weights(self) -> DpiWeights {
        DpiWeights {
            size_weight: self.row().0,
            timing_weight: self.row().1,
            entropy_weight: self.row().2,
            direction_weight: self.row().3,
            periodicity_weight: self.row().4,
            signature_weight: self.row().5,
        }
    }

    pub fn detection_weights(&self) -> (w: DpiWeights)
        ensures
            w == self.weights(),
    {
        let row = match self {
            DpiRegion::Russia => RUSSIA_WEIGHTS,
            DpiRegion::China => CHINA_WEIGHTS,
            DpiRegion::Iran => IRAN_WEIGHTS,
            DpiRegion::Generic => GENERIC_WEIGHTS,
        };
        DpiWeights {
            size_weight: row.0,
            timing_weight: row.1,
            entropy_weight: row.2,
            direction_weight: row.3,
            periodicity_weight: row.4,
            signature_weight: row.5,
        }
    }

    /// The confidence above which a flow is blocked, in hundredths.
    pub fn blocking_threshold(&self) -> (t: u64)
        ensures
            t == self.row().6,
    {
        match self {
            DpiRegion::Russia => RUSSIA_WEIGHTS.6,
            DpiRegion::China => CHINA_WEIGHTS.6,
            DpiRegion::Iran => IRAN_WEIGHTS.6,
            DpiRegion::Generic => GENERIC_WEIGHTS.6,
        }
    }
}

/// The weights of every region add up to one.
pub proof fn law_weights_sum_to_one(region: DpiRegion)
    ensures
        ({
            let w = region.weights();
            w.size_weight + w.timing_weight + w.entropy_weight + w.direction_weight
                + w.periodicity_weight + w.signature_weight == 100
        }),
{
}

/// China blocks soonest, then Iran, then Russia; elsewhere blocking comes last.
pub proof fn law_threshold_order()
    ensures
        DpiRegion::China.row().6 < DpiRegion::Iran.row().6,
        DpiRegion::Iran.row().6 < DpiRegion::Russia.row().6,
        DpiRegion::Russia.row().6 < DpiRegion::Generic.row().6,
{
}

#[derive(Debug)]
pub struct TlsFingerprint {
    pub ja3_hash_prefix: Option<u32>,
    pub sni_patterns: Vec<String>,
    pub alpn_protocols: Vec<String>,
    pub cipher_suites: Vec<u16>,
}

#[derive(Debug, Clone, Copy, PartialEq, Eq)]
pub struct TimingPattern {
    pub mean_iat_us: u64,
    pub std_iat_us: u64,
    pub burst_interval_us: Option<u64>,
}

#[derive(Debug)]
pub struct DpiSignature {
    pub name: String,
    pub port_pattern: Option<Vec<u16>>,
    pub tls_pattern: Option<TlsFingerprint>,
    pub timing_pattern: Option<TimingPattern>,
    /// In hundredths.
    pub severity: u64,
}

/// Name; ports; whether there is a TLS pattern, its JA3 prefix, server names, protocols
/// and cipher suites; mean gap, deviation and burst interval; severity. Lists end at the
/// first zero or empty text, and a zero in place of a number means there is none.
pub const RUSSIA_SIGNATURES: [(
    &'static str,
    [u16; 4],
    (bool, u32, [&'static str; 2], [&'static str; 2], [u16; 3]),
    (u64, u64, u64),
    u64,
); 5] = [
    (
        "openvpn_russia",
        [1194, 443, 8080, 8443],
        (true, 0x1234, ["", ""], ["openvpn", ""], [0x1301, 0x1302, 0]),
        (50_000, 30_000, 1_000_000),
        90,
    ),
    (
        "wireguard_russia",
        [51820, 51821, 443, 0],
        (false, 0, ["", ""], ["", ""], [0, 0, 0]),
        (20_000, 15_000, 0),
        95,
    ),
    (
        "shadowsocks_russia",
        [8388, 8389, 443, 8443],
        (false, 0, ["", ""], ["", ""], [0, 0, 0]),
        (40_000, 25_000, 500_000),
        85,
    ),
    (
        "tor_russia",
        [9001, 9030, 443, 0],
        (true, 0x5678, ["", ""], ["", ""], [0x1301, 0x1302, 0x1303]),
        (80_000, 60_000, 2_000_000),
        95,
    ),
    (
        "trojan_russia",
        [443, 8443, 0, 0],
        (
            true,
            0,
            ["www.google.com", "cdn.cloudflare.com"],
            ["h2", "http/1.1"],
            [0x1301, 0x1302, 0],
        ),
        (60_000, 40_000, 800_000),
        80,
    ),
];

pub const CHINA_SIGNATURES: [(
    &'static str,
    [u16; 4],
    (bool, u32, [&'static str; 2], [&'static str; 2], [u16; 3]),
    (u64, u64, u64),
    u64,
); 6] = [
    (
        "openvpn_gfw",
        [1194, 443, 80, 0],
        (true, 0x1234, ["", ""], ["openvpn", ""], [0x1301, 0, 0]),
        (50_000, 30_000, 1_000_000),
        95,
    ),
    (
        "wireguard_gfw",
        [51820, 443, 0, 0],
        (false, 0, ["", ""], ["", ""], [0, 0, 0]),
        (20_000, 15_000, 0),
        95,
    ),
    (
        "shadowsocks_gfw",
        [8388, 8389, 443, 0],
        (false, 0, ["", ""], ["", ""], [0, 0, 0]),
        (40_000, 25_000, 500_000),
        90,
    ),
    (
        "v2ray_gfw",
        [443, 8443, 8080, 0],
        (true, 0, ["", ""], ["h2", ""], [0x1301, 0x1302, 0]),
        (35_000, 20_000, 600_000),
        90,
    ),
    (
        "trojan_gfw",
        [443, 0, 0, 0],
        (
            true,
            0,
            ["www.microsoft.com", "update.googleapis.com"],
            ["h2", "http/1.1"],
            [0x1301, 0x1302, 0],
        ),
        (60_000, 40_000, 800_000),
        85,
    ),
    (
        "tor_gfw",
        [9001, 9030, 443, 0],
        (true, 0x5678, ["", ""], ["", ""], [0x1301, 0x1302, 0x1303]),
        (80_000, 60_000, 2_000_000),
        95,
    ),
];

pub const IRAN_SIGNATURES: [(
    &'static str,
    [u16; 4],
    (bool, u32, [&'static str; 2], [&'static str; 2], [u16; 3]),
    (u64, u64, u64),
    u64,
); 3] = [
    (
        "openvpn_iran",
        [1194, 443, 8080, 0],
        (true, 0x1234, ["", ""], ["openvpn", ""], [0x1301, 0, 0]),
        (50_000, 30_000, 1_000_000),
        90,
    ),
    (
        "shadowsocks_iran",
        [8388, 443, 0, 0],
        (false, 0, ["", ""], ["", ""], [0, 0, 0]),
        (40_000, 25_000, 500_000),
        85,
    ),
    (
        "tor_iran",
        [9001, 443, 0, 0],
        (true, 0x5678, ["", ""], ["", ""], [0x1301, 0x1302, 0]),
        (80_000, 60_000, 2_000_000),
        95,
    ),
];

pub const GENERIC_SIGNATURES: [(
    &'static str,
    [u16; 4],
    (bool, u32, [&'static str; 2], [&'static str; 2], [u16; 3]),
    (u64, u64, u64),
    u64,
); 3] = [
    (
        "openvpn_generic",
        [1194, 443, 0, 0],
        (true, 0x1234, ["", ""], ["openvpn", ""], [0x1301, 0, 0]),
        (50_000, 30_000, 1_000_000),
        80,
    ),
    (
        "wireguard_generic",
        [51820, 443, 0, 0],
        (false, 0, ["", ""], ["", ""], [0, 0, 0]),
        (20_000, 15_000, 0),
        80,
    ),
    (
        "shadowsocks_generic",
        [8388, 443, 0, 0],
        (false, 0, ["", ""], ["", ""], [0, 0, 0]),
        (40_000, 25_000, 500_000),
        70,
    ),
];

/// `s` up to its first zero.
pub open spec fn leading(s: Seq<u16>) -> Seq<u16>
    decreases s.len(),
{
    if s.len() == 0 || s[0] == 0 {
        Seq::empty()
    } else {
        seq![s[0]] + leading(s.subrange(1, s.len() as int))
    }
}

/// The texts of `s` up to its first empty one.
pub open spec fn leading_texts(s: Seq<&'static str>) -> Seq<Seq<char>>
    decreases s.len(),
{
    if s.len() == 0 || s[0]@.len() == 0 {
        Seq::empty()
    } else {
        seq![s[0]@] + leading_texts(s.subrange(1, s.len() as int))
    }
}

/// The contents of each string.
pub open spec fn texts(s: Seq<String>) -> Seq<Seq<char>> {
    s.map_values(|t: String| t@)
}

/// Whether `t` is the TLS pattern of a row.
pub open spec fn tls_from(
    t: Option<TlsFingerprint>,
    row: (bool, u32, [&'static str; 2], [&'static str; 2], [u16; 3]),
) -> bool {
    match t {
        None => !row.0,
        Some(f) => {
            &&& row.0
            &&& f.ja3_hash_prefix == if row.1 == 0 {
                None
            } else {
                Some(row.1)
            }
            &&& texts(f.sni_patterns@) == leading_texts(row.2@)
            &&& texts(f.alpn_protocols@) == leading_texts(row.3@)
            &&& f.cipher_suites@ == leading(row.4@)
        },
    }
}

/// Whether `s` is the signature of a row.
pub open spec fn signature_from(
    s: DpiSignature,
    row: (
        &'static str,
        [u16; 4],
        (bool, u32, [&'static str; 2], [&'static str; 2], [u16; 3]),
        (u64, u64, u64),
        u64,
    ),
) -> bool {
    &&& s.name@ == row.0@
    &&& s.port_pattern matches Some(ports) && ports@ == leading(row.1@)
    &&& tls_from(s.tls_pattern, row.2)
    &&& s.timing_pattern == Some(
        TimingPattern {
            mean_iat_us: (row.3).0,
            std_iat_us: (row.3).1,
            burst_interval_us: if (row.3).2 == 0 {
                None
            } else {
                Some((row.3).2)
            },
        },
    )
    &&& s.severity == row.4
}

/// Whether the signatures are those of the rows, one for one.
pub open spec fn signatures_from(
    sigs: Seq<DpiSignature>,
    rows: Seq<
        (
            &'static str,
            [u16; 4],
            (bool, u32, [&'static str; 2], [&'static str; 2], [u16; 3]),
            (u64, u64, u64),
            u64,
        ),
    >,
) -> bool {
    sigs.len() == rows.len() && forall|i: int|
        0 <= i < sigs.len() ==> signature_from(#[trigger] sigs[i], rows[i])
}

/// Whether the signatures are those of a region.
pub open spec fn signatures_of(sigs: Seq<DpiSignature>, region: DpiRegion) -> bool {
    match region {
        DpiRegion::Russia => signatures_from(sigs, RUSSIA_SIGNATURES@),
        DpiRegion::China => signatures_from(sigs, CHINA_SIGNATURES@),
        DpiRegion::Iran => signatures_from(sigs, IRAN_SIGNATURES@),
        DpiRegion::Generic => signatures_from(sigs, GENERIC_SIGNATURES@),
    }
}

/// `s` up to its first zero.
fn take_leading(s: &[u16]) -> (v: Vec<u16>)
    ensures
        v@ == leading(s@),
{
    let mut v: Vec<u16> = Vec::new();
    let mut i: usize = 0;
    assert(s@.subrange(0, s@.len() as int) =~= s@);
    assert(v@ + leading(s@) =~= leading(s@));
    while i < s.len() && s[i] != 0
        invariant
            i <= s@.len(),
            v@ + leading(s@.subrange(i as int, s@.len() as int)) == leading(s@),
        decreases s@.len() - i,
    {
        let ghost before = v@;
        let ghost rest = s@.subrange(i as int, s@.len() as int);
        v.push(s[i]);
        i = i + 1;
        proof {
            let next = s@.subrange(i as int, s@.len() as int);
            assert(next =~= rest.subrange(1, rest.len() as int));
            assert(v@ + leading(next) =~= before + (seq![rest[0]] + leading(next)));
        }
    }
    assert(leading(s@.subrange(i as int, s@.len() as int)) =~= Seq::empty());
    assert(v@ + Seq::empty() =~= v@);
    v
}

/// The texts of `s` up to its first empty one.
fn take_leading_texts(s: &[&'static str]) -> (v: Vec<String>)
    ensures
        texts(v@) == leading_texts(s@),
{
    let mut v: Vec<String> = Vec::new();
    let mut i: usize = 0;
    assert(s@.subrange(0, s@.len() as int) =~= s@);
    assert(texts(v@) + leading_texts(s@) =~= leading_texts(s@));
    while i < s.len() && !s[i].is_empty()
        invariant
            i <= s@.len(),
            texts(v@) + leading_texts(s@.subrange(i as int, s@.len() as int)) == leading_texts(s@),
        decreases s@.len() - i,
    {
        let ghost before = texts(v@);
        let ghost rest = s@.subrange(i as int, s@.len() as int);
        v.push(s[i].to_string());
        i = i + 1;
        proof {
            let next = s@.subrange(i as int, s@.len() as int);
            assert(next =~= rest.subrange(1, rest.len() as int));
            assert(texts(v@) =~= before.push(rest[0]@));
            assert(texts(v@) + leading_texts(next) =~= before + (seq![rest[0]@] + leading_texts(
                next,
            )));
        }
    }
    assert(leading_texts(s@.subrange(i as int, s@.len() as int)) =~= Seq::empty());
    assert(texts(v@) + Seq::empty() =~= texts(v@));
    v
}

fn tls_pattern(
    row: (bool, u32, [&'static str; 2], [&'static str; 2], [u16; 3]),
) -> (t: Option<TlsFingerprint>)
    ensures
        tls_from(t, row),
{
    if !row.0 {
        return None;
    }
    Some(
        TlsFingerprint {
            ja3_hash_prefix: if row.1 == 0 { None } else { Some(row.1) },
            sni_patterns: take_leading_texts(&row.2),
            alpn_protocols: take_leading_texts(&row.3),
            cipher_suites: take_leading(&row.4),
        },
    )
}

fn signatures(
    rows: &[(
        &'static str,
        [u16; 4],
        (bool, u32, [&'static str; 2], [&'static str; 2], [u16; 3]),
        (u64, u64, u64),
        u64,
    )],
) -> (sigs: Vec<DpiSignature>)
    ensures
        signatures_from(sigs@, rows@),
{
    let mut sigs: Vec<DpiSignature> = Vec::new();
    let mut i: usize = 0;
    while i < rows.len()
        invariant
            i <= rows@.len(),
            sigs@.len() == i,
            forall|k: int| 0 <= k < i ==> signature_from(#[trigger] sigs@[k], rows@[k]),
        decreases rows@.len() - i,
    {
        let row = rows[i];
        let timing = row.3;
        sigs.push(
            DpiSignature {
                name: row.0.to_string(),
                port_pattern: Some(take_leading(&row.1)),
                tls_pattern: tls_pattern(row.2),
                timing_pattern: Some(
                    TimingPattern {
                        mean_iat_us: timing.0,
                        std_iat_us: timing.1,
                        burst_interval_us: if timing.2 == 0 { None } else { Some(timing.2) },
                    },
                ),
                severity: row.4,
            },
        );
        i = i + 1;
    }
    sigs
}

/// The signatures that a region looks for.
pub fn build_signature_database(region: DpiRegion) -> (sigs: Vec<DpiSignature>)
    ensures
        signatures_of(sigs@, region),
{
    match region {
        DpiRegion::Russia => signatures(&RUSSIA_SIGNATURES),
        DpiRegion::China => signatures(&CHINA_SIGNATURES),
        DpiRegion::Iran => signatures(&IRAN_SIGNATURES),
        DpiRegion::Generic => signatures(&GENERIC_SIGNATURES),
    }
}

/// How far apart two numbers are.
pub open spec fn gap(a: int, b: int) -> int {
    if a >= b {
        a - b
    } else {
        b - a
    }
}

/// The smaller of two numbers.
pub open spec fn least(a: int, b: int) -> int {
    if a <= b {
        a
    } else {
        b
    }
}

/// The mean gap of a pattern that others are measured by, in nanoseconds: at least one.
pub open spec fn mean_ns(p: TimingPattern) -> int {
    if p.mean_iat_us < 1 {
        1
    } else {
        1000 * p.mean_iat_us
    }
}

/// How well a mean and a deviation observed in nanoseconds fit a pattern, in millionths: six
/// parts of ten for the mean, four for the deviation.
pub open spec fn timing_match(p: TimingPattern, iat_ns: int, std_ns: int) -> int {
    let iat_off = gap(iat_ns, 1000 * p.mean_iat_us) * 1_000_000 / mean_ns(p);
    let std_off = if p.std_iat_us > 0 {
        gap(std_ns, 1000 * p.std_iat_us) * 1_000_000 / (1000 * p.std_iat_us)
    } else {
        0
    };
    1_000_000 - least((6 * iat_off + 4 * std_off) / 10, 1_000_000)
}

impl DpiSignature {
    pub fn matches_port(&self, port: u16) -> (b: bool)
        ensures
            b <==> (self.port_pattern matches Some(ports) && ports@.contains(port)),
    {
        match &self.port_pattern {
            None => false,
            Some(ports) => {
                let mut i: usize = 0;
                while i < ports.len()
                    invariant
                        i <= ports@.len(),
                        self.port_pattern == Some(*ports),
                        forall|k: int| 0 <= k < i ==> #[trigger] ports@[k] != port,
                    decreases ports@.len() - i,
                {
                    if ports[i] == port {
                        assert(ports@[i as int] == port);
                        return true;
                    }
                    i = i + 1;
                }
                false
            },
        }
    }

    /// How well gaps observed in nanoseconds fit, in millionths; not at all without a pattern.
    pub fn matches_timing(&self, observed_iat_ns: u128, observed_std_ns: u128) -> (score: u64)
        requires
            observed_iat_ns <= LONGEST_NS,
            observed_std_ns <= LONGEST_NS,
        ensures
            score == match self.timing_pattern {
                Some(p) => timing_match(p, observed_iat_ns as int, observed_std_ns as int),
                None => 0,
            },
            score <= 1_000_000,
    {
        match &self.timing_pattern {
            None => 0,
            Some(p) => {
                let iat: u128 = 1000 * (p.mean_iat_us as u128);
                let mean: u128 = if p.mean_iat_us < 1 {
                    1
                } else {
                    iat
                };
                let iat_off: u128 = scaled_ratio(apart(observed_iat_ns, iat), mean);
                let std: u128 = 1000 * (p.std_iat_us as u128);
                let std_off: u128 = if p.std_iat_us > 0 {
                    scaled_ratio(apart(observed_std_ns, std), std)
                } else {
                    0
                };
                let off: u128 = (6 * iat_off + 4 * std_off) / 10;
                if off >= 1_000_000 {
                    0
                } else {
                    (1_000_000 - off) as u64
                }
            },
        }
    }
}

/// The longest gap or deviation that is matched, in nanoseconds: longer than any that 64 bits hold
/// in microseconds.
pub const LONGEST_NS: u128 = 0x10_0000_0000_0000_0000_0000;

/// How far two numbers are apart.
fn apart(a: u128, b: u128) -> (d: u128)
    ensures
        d == gap(a as int, b as int),
{
    if a >= b {
        a - b
    } else {
        b - a
    }
}

/// `a / b` in millionths, rounded down.
fn scaled_ratio(a: u128, b: u128) -> (r: u128)
    requires
        a <= LONGEST_NS,
        b > 0,
    ensures
        r == a * 1_000_000 / b as int,
        r <= LONGEST_NS * 1_000_000,
{
    assert(a * 1_000_000 / b as int <= a * 1_000_000) by (nonlinear_arith)
        requires
            a >= 0,
            b > 0,
    ;
    a * 1_000_000 / b
}

/// A perfect fit scores one.
pub proof fn law_exact_timing_matches_fully(p: TimingPattern)
    ensures
        timing_match(p, 1000 * p.mean_iat_us, 1000 * p.std_iat_us) == 1_000_000,
{
    let mean = mean_ns(p);
    assert(0int / mean == 0) by (nonlinear_arith)
        requires
            mean > 0,
    ;
    if p.std_iat_us > 0 {
        let d = 1000 * p.std_iat_us;
        assert(0int / d == 0) by (nonlinear_arith)
            requires
                d > 0,
        ;
    }
}

/// A fit that is nearer in both mean and deviation never scores less.
pub proof fn law_nearer_timing_scores_no_less(p: TimingPattern, a: int, s: int, b: int, t: int)
    requires
        gap(a, 1000 * p.mean_iat_us) <= gap(b, 1000 * p.mean_iat_us),
        gap(s, 1000 * p.std_iat_us) <= gap(t, 1000 * p.std_iat_us),
    ensures
        timing_match(p, a, s) >= timing_match(p, b, t),
{
    vstd::arithmetic::div_mod::lemma_div_is_ordered(
        gap(a, 1000 * p.mean_iat_us) * 1_000_000,
        gap(b, 1000 * p.mean_iat_us) * 1_000_000,
        mean_ns(p),
    );
    if p.std_iat_us > 0 {
        vstd::arithmetic::div_mod::lemma_div_is_ordered(
            gap(s, 1000 * p.std_iat_us) * 1_000_000,
            gap(t, 1000 * p.std_iat_us) * 1_000_000,
            1000 * p.std_iat_us,
        );
    }
}

/// A mean gap that is off by so many tenths of a pattern's costs six hundredths for each, and a
/// deviation off by so many tenths four hundredths for each, until nothing is left.
pub proof fn law_fit_falls_with_distance(p: TimingPattern, iat_ns: int, std_ns: int, j: int, k: int)
    requires
        p.mean_iat_us > 0,
        p.std_iat_us > 0,
        j >= 0,
        k >= 0,
        gap(iat_ns, 1000 * p.mean_iat_us) == j * (100 * p.mean_iat_us),
        gap(std_ns, 1000 * p.std_iat_us) == k * (100 * p.std_iat_us),
    ensures
        timing_match(p, iat_ns, std_ns) == if 60_000 * j + 40_000 * k > 1_000_000 {
            0
        } else {
            1_000_000 - 60_000 * j - 40_000 * k
        },
{
    let (m, d) = (1000 * p.mean_iat_us, 1000 * p.std_iat_us);
    let (x, y) = (j * (100 * p.mean_iat_us), k * (100 * p.std_iat_us));
    assert(10 * x == j * m && 10 * y == k * d) by (nonlinear_arith)
        requires
            x == j * (100 * p.mean_iat_us),
            y == k * (100 * p.std_iat_us),
            m == 1000 * p.mean_iat_us,
            d == 1000 * p.std_iat_us,
    ;
    assert(x * 1_000_000 / m == 100_000 * j) by (nonlinear_arith)
        requires
            10 * x == j * m,
            m > 0,
    ;
    assert(y * 1_000_000 / d == 100_000 * k) by (nonlinear_arith)
        requires
            10 * y == k * d,
            d > 0,
    ;
}

} // verus!
