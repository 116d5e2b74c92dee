//! Traffic that looks like a blend of several protocols.
//!
//! Weights of the blend are held in septillionths, other fractions in millionths, sizes
//! drawn from bell curves in millionths of a byte and times in microseconds. Bell
//! curves, logarithms and sines are the caller's.

use crate::masking::blend_weights::adapt;
#[allow(unused_imports)]
use crate::masking::blend_weights;
#[allow(unused_imports)]
use crate::masking::statistical_model;
pub use crate::masking::blend_weights::{ONE, WHOLE};
pub use crate::masking::protocol_stats::ProtocolStatistics;
use crate::masking::statistical_model::{GaussianComponent, ROLL_RANGE};
use crate::utils::goodness::chi_squared;
#[allow(unused_imports)]
use crate::utils::goodness;
use crate::utils::random::random_between;
use crate::utils::text::{join, same};
use crate::utils::wide::Wide;
use crate::utils::window::sum_of;
#[allow(unused_imports)]
use crate::utils::window;
use crate::utils::{PhantomError, PhantomResult};
use vstd::prelude::*;
use vstd::slice::slice_to_vec;
use vstd::string::StringExecFns;

verus! {

#[derive(Debug, Clone, Copy, PartialEq, Eq, Structural)]
pub enum EncryptionType {
    Plain,
    Tls,
    Dtls,
    Custom,
    Unknown,
}

impl EncryptionType {
    pub open spec fn label(self) -> Seq<char> {
        match self {
            EncryptionType::Plain => "none"@,
            EncryptionType::Tls => "tls"@,
            EncryptionType::Dtls => "dtls"@,
            EncryptionType::Custom => "custom"@,
            EncryptionType::Unknown => "unknown"@,
        }
    }

    pub fn to_text(&self) -> (s: String)
        ensures
            s@ == self.label(),
    {
        match self {
            EncryptionType::Plain => String::from_str("none"),
            EncryptionType::Tls => String::from_str("tls"),
            EncryptionType::Dtls => String::from_str("dtls"),
            EncryptionType::Custom => String::from_str("custom"),
            EncryptionType::Unknown => String::from_str("unknown"),
        }
    }
}

#[derive(Debug, Clone, Copy, PartialEq, Eq, Structural)]
pub enum DirectionPattern {
    Symmetric,
    ClientHeavy,
    ServerHeavy,
    Bursty,
}

impl DirectionPattern {
    pub open spec fn label(self) -> Seq<char> {
        match self {
            DirectionPattern::Symmetric => "symmetric"@,
            DirectionPattern::ClientHeavy => "client_heavy"@,
            DirectionPattern::ServerHeavy => "server_heavy"@,
            DirectionPattern::Bursty => "bursty"@,
        }
    }

    pub fn to_text(&self) -> (s: String)
        ensures
            s@ == self.label(),
    {
        match self {
            DirectionPattern::Symmetric => String::from_str("symmetric"),
            DirectionPattern::ClientHeavy => String::from_str("client_heavy"),
            DirectionPattern::ServerHeavy => String::from_str("server_heavy"),
            DirectionPattern::Bursty => String::from_str("bursty"),
        }
    }

    /// How likely a packet goes up, in millionths. A bursty pattern moves with its
    /// phase, itself in millionths.
    pub open spec fn upload_law(self, phase: int) -> int {
        match self {
            DirectionPattern::Symmetric => 500_000,
            DirectionPattern::ClientHeavy => 650_000,
            DirectionPattern::ServerHeavy => 350_000,
            DirectionPattern::Bursty => 300_000 + phase * 2 / 5,
        }
    }

    pub fn upload_probability(self, phase_micro: u64) -> (p: u64)
        requires
            phase_micro <= ONE,
        ensures
            p == self.upload_law(phase_micro as int),
            300_000 <= p <= 700_000,
    {
        match self {
            DirectionPattern::Symmetric => 500_000,
            DirectionPattern::ClientHeavy => 650_000,
            DirectionPattern::ServerHeavy => 350_000,
            DirectionPattern::Bursty => 300_000 + phase_micro * 2 / 5,
        }
    }
}

#[derive(Debug)]
pub struct ProtocolSignature {
    pub header_pattern: Vec<u8>,
    pub typical_ports: Vec<u16>,
    pub encryption_type: EncryptionType,
    pub direction_pattern: DirectionPattern,
}

#[derive(Debug)]
pub struct ProtocolProfile {
    pub name: String,
    pub packet_size_dist: Vec<GaussianComponent>,
    /// Gaps in microseconds, each with its probability in millionths.
    pub timing_dist: Vec<(u64, u64)>,
    pub port_range: (u16, u16),
    pub protocol_signature: ProtocolSignature,
}

pub const CS2_SIZES: [(i64, i64, u64); 4] = [
    (90_000_000, 15_000_000, 500_000),
    (200_000_000, 50_000_000, 300_000),
    (400_000_000, 80_000_000, 150_000),
    (1_000_000_000, 100_000_000, 50_000),
];

pub const CS2_TIMES: [(u64, u64); 4] = [
    (15_630, 650_000),
    (31_250, 180_000),
    (46_880, 100_000),
    (100_000, 70_000),
];

pub const CS2_HEADER: [u8; 4] = [0xFF, 0xFF, 0xFF, 0xFF];

pub const CS2_PORTS: [u16; 3] = [27015, 27016, 27017];

pub const DISCORD_SIZES: [(i64, i64, u64); 4] = [
    (160_000_000, 30_000_000, 600_000),
    (320_000_000, 60_000_000, 250_000),
    (640_000_000, 100_000_000, 100_000),
    (1_200_000_000, 150_000_000, 50_000),
];

pub const DISCORD_TIMES: [(u64, u64); 4] = [
    (20_000, 700_000),
    (40_000, 150_000),
    (60_000, 100_000),
    (100_000, 50_000),
];

pub const DISCORD_HEADER: [u8; 2] = [0x80, 0x78];

pub const DISCORD_PORTS: [u16; 3] = [50000, 50001, 50002];

pub const SPOTIFY_SIZES: [(i64, i64, u64); 4] = [
    (512_000_000, 128_000_000, 450_000),
    (1_024_000_000, 256_000_000, 300_000),
    (1_400_000_000, 100_000_000, 200_000),
    (200_000_000, 50_000_000, 50_000),
];

pub const SPOTIFY_TIMES: [(u64, u64); 5] = [
    (10_000, 400_000),
    (25_000, 250_000),
    (50_000, 200_000),
    (100_000, 100_000),
    (200_000, 50_000),
];

pub const SPOTIFY_HEADER: [u8; 2] = [0x00, 0x00];

pub const SPOTIFY_PORTS: [u16; 3] = [4070, 4370, 4380];

pub const HTTPS_SIZES: [(i64, i64, u64); 4] = [
    (256_000_000, 80_000_000, 300_000),
    (768_000_000, 200_000_000, 350_000),
    (1_200_000_000, 200_000_000, 250_000),
    (1_460_000_000, 40_000_000, 100_000),
];

pub const HTTPS_TIMES: [(u64, u64); 6] = [
    (5_000, 200_000),
    (15_000, 250_000),
    (30_000, 200_000),
    (75_000, 150_000),
    (150_000, 100_000),
    (300_000, 100_000),
];

pub const HTTPS_HEADER: [u8; 3] = [0x16, 0x03, 0x03];

pub const HTTPS_PORTS: [u16; 2] = [443, 8443];

/// The component of a table row: mean, deviation and weight.
pub open spec fn component_of(row: (i64, i64, u64)) -> GaussianComponent {
    GaussianComponent { mean_micro: row.0, std_dev_micro: row.1, weight_micro: row.2 }
}

/// Whether a profile holds what the tables say.
pub open spec fn profile_from(
    p: ProtocolProfile,
    name: Seq<char>,
    sizes: Seq<(i64, i64, u64)>,
    times: Seq<(u64, u64)>,
    port_range: (u16, u16),
    header: Seq<u8>,
    ports: Seq<u16>,
    encryption: EncryptionType,
    direction: DirectionPattern,
) -> bool {
    &&& p.name@ == name
    &&& p.packet_size_dist@ == sizes.map_values(|r: (i64, i64, u64)| component_of(r))
    &&& p.timing_dist@ == times
    &&& p.port_range == port_range
    &&& p.protocol_signature.header_pattern@ == header
    &&& p.protocol_signature.typical_ports@ == ports
    &&& p.protocol_signature.encryption_type == encryption
    &&& p.protocol_signature.direction_pattern == direction
}

fn build_profile(
    name: &str,
    sizes: &[(i64, i64, u64)],
    times: &[(u64, u64)],
    port_range: (u16, u16),
    header: &[u8],
    ports: &[u16],
    encryption_type: EncryptionType,
    direction_pattern: DirectionPattern,
) -> (p: ProtocolProfile)
    ensures
        profile_from(
            p,
            name@,
            sizes@,
            times@,
            port_range,
            header@,
            ports@,
            encryption_type,
            direction_pattern,
        ),
{
    let ghost want = sizes@.map_values(|r: (i64, i64, u64)| component_of(r));
    let mut packet_size_dist: Vec<GaussianComponent> = Vec::new();
    let mut i: usize = 0;
    while i < sizes.len()
        invariant
            i <= sizes@.len(),
            want == sizes@.map_values(|r: (i64, i64, u64)| component_of(r)),
            packet_size_dist@ == want.subrange(0, i as int),
        decreases sizes@.len() - i,
    {
        let row: (i64, i64, u64) = sizes[i];
        packet_size_dist.push(
            GaussianComponent { mean_micro: row.0, std_dev_micro: row.1, weight_micro: row.2 },
        );
        i = i + 1;
        assert(packet_size_dist@ =~= want.subrange(0, i as int));
    }
    assert(packet_size_dist@ =~= want);
    let mut timing_dist: Vec<(u64, u64)> = Vec::new();
    i = 0;
    while i < times.len()
        invariant
            i <= times@.len(),
            timing_dist@ == times@.subrange(0, i as int),
        decreases times@.len() - i,
    {
        timing_dist.push(times[i]);
        i = i + 1;
        assert(timing_dist@ =~= times@.subrange(0, i as int));
    }
    assert(timing_dist@ =~= times@);
    ProtocolProfile {
        name: name.to_string(),
        packet_size_dist,
        timing_dist,
        port_range,
        protocol_signature: ProtocolSignature {
            header_pattern: slice_to_vec(header),
            typical_ports: slice_to_vec(ports),
            encryption_type,
            direction_pattern,
        },
    }
}

/// Whether `v` are the four default profiles, in order.
pub open spec fn is_default_set(v: Seq<ProtocolProfile>) -> bool {
    &&& v.len() == 4
    &&& profile_from(
        v[0],
        "cs2"@,
        CS2_SIZES@,
        CS2_TIMES@,
        (27000, 27100),
        CS2_HEADER@,
        CS2_PORTS@,
        EncryptionType::Dtls,
        DirectionPattern::ClientHeavy,
    )
    &&& profile_from(
        v[1],
        "discord_voice"@,
        DISCORD_SIZES@,
        DISCORD_TIMES@,
        (50000, 50100),
        DISCORD_HEADER@,
        DISCORD_PORTS@,
        EncryptionType::Dtls,
        DirectionPattern::Symmetric,
    )
    &&& profile_from(
        v[2],
        "spotify"@,
        SPOTIFY_SIZES@,
        SPOTIFY_TIMES@,
        (4070, 4080),
        SPOTIFY_HEADER@,
        SPOTIFY_PORTS@,
        EncryptionType::Tls,
        DirectionPattern::ServerHeavy,
    )
    &&& profile_from(
        v[3],
        "generic_https"@,
        HTTPS_SIZES@,
        HTTPS_TIMES@,
        (443, 443),
        HTTPS_HEADER@,
        HTTPS_PORTS@,
        EncryptionType::Tls,
        DirectionPattern::Bursty,
    )
}

/// The profiles that a blend has by default.
pub fn create_default_profiles() -> (r: PhantomResult<Vec<ProtocolProfile>>)
    ensures
        r matches Ok(v) && is_default_set(v@),
{
    let mut profiles: Vec<ProtocolProfile> = Vec::new();
    profiles.push(
        build_profile(
            "cs2",
            &CS2_SIZES,
            &CS2_TIMES,
            (27000, 27100),
            &CS2_HEADER,
            &CS2_PORTS,
            EncryptionType::Dtls,
            DirectionPattern::ClientHeavy,
        ),
    );
    profiles.push(
        build_profile(
            "discord_voice",
            &DISCORD_SIZES,
            &DISCORD_TIMES,
            (50000, 50100),
            &DISCORD_HEADER,
            &DISCORD_PORTS,
            EncryptionType::Dtls,
            DirectionPattern::Symmetric,
        ),
    );
    profiles.push(
        build_profile(
            "spotify",
            &SPOTIFY_SIZES,
            &SPOTIFY_TIMES,
            (4070, 4080),
            &SPOTIFY_HEADER,
            &SPOTIFY_PORTS,
            EncryptionType::Tls,
            DirectionPattern::ServerHeavy,
        ),
    );
    profiles.push(
        build_profile(
            "generic_https",
            &HTTPS_SIZES,
            &HTTPS_TIMES,
            (443, 443),
            &HTTPS_HEADER,
            &HTTPS_PORTS,
            EncryptionType::Tls,
            DirectionPattern::Bursty,
        ),
    );
    Ok(profiles)
}

#[derive(Debug)]
pub struct BlendedPacket {
    pub data: Vec<u8>,
    pub protocol_hint: String,
    pub delay_us: u64,
    pub size_adjustment: usize,
}

/// What the caller draws for one packet.
#[derive(Debug, Clone, Copy)]
pub struct BlendSample {
    /// The size drawn from the selected component, in millionths of a byte.
    pub size_micro: i64,
    /// The selected gap.
    pub gap_us: u64,
    /// What is added to the gap.
    pub jitter_us: i64,
    /// The entropy that padding aims for, in millionths of a bit.
    pub entropy_micro: u64,
    /// The phase of a bursty direction, in millionths.
    pub phase_micro: u64,
}

/// The size to send: between 40 and 1500 bytes, and at least the lower port number or
/// 1500, whichever is less; rounded to the nearest byte.
pub open spec fn packet_size(raw_micro: int, port_min: int) -> int {
    let clamped = if raw_micro < 40_000_000 {
        40_000_000
    } else if raw_micro > 1_500_000_000 {
        1_500_000_000
    } else {
        raw_micro
    };
    let floor = if port_min < 1500 {
        port_min * 1_000_000
    } else {
        1_500_000_000
    };
    ((if clamped > floor {
        clamped
    } else {
        floor
    }) + 500_000) / 1_000_000
}

/// The gap with its jitter, at least one millisecond.
pub open spec fn jittered(gap_us: int, jitter_us: int) -> int {
    if gap_us + jitter_us < 1000 {
        1000
    } else {
        gap_us + jitter_us
    }
}

/// The bytes that padding is drawn from, by entropy.
pub open spec fn byte_range(entropy_micro: int) -> (u8, u8) {
    let spread = if entropy_micro > 8_000_000 {
        255
    } else {
        entropy_micro * 255 / 8_000_000
    };
    if spread < 64 {
        (96, (96 + spread) as u8)
    } else if spread < 128 {
        (64, (64 + spread) as u8)
    } else if spread < 192 {
        (32, (32 + spread) as u8)
    } else {
        (0, 255)
    }
}

/// Padding: noise, with the header over its start where it is stamped.
pub open spec fn padding_of(noise: Seq<u8>, header: Seq<u8>, stamped: bool) -> Seq<u8> {
    Seq::new(
        noise.len(),
        |i: int|
            if stamped && i < header.len() {
                header[i]
            } else {
                noise[i]
            },
    )
}

/// How many bytes of data go behind a header.
pub open spec fn payload_len(target: int, header_len: int, data_len: int) -> int {
    let chunk = if target < 1 {
        1
    } else {
        target
    };
    let room = if chunk - header_len < 1 {
        1
    } else {
        chunk - header_len
    };
    if room < data_len {
        room
    } else {
        data_len
    }
}

/// Data brought to a size: padded where it is too short, cut behind a header where it is
/// too long.
pub open spec fn shaped(
    data: Seq<u8>,
    target: int,
    header: Seq<u8>,
    noise: Seq<u8>,
    stamped: bool,
) -> Seq<u8> {
    if target > data.len() {
        data + padding_of(noise, header, stamped)
    } else if target < data.len() {
        header + data.subrange(0, payload_len(target, header.len() as int, data.len() as int))
    } else {
        data
    }
}

/// How many bytes of padding data needs.
pub open spec fn missing(target: int, data_len: int) -> int {
    if target > data_len {
        target - data_len
    } else {
        0
    }
}

/// From index `i` on, the first protocol up to which the weights lie above the roll; else
/// the last.
pub open spec fn blend_index(weights: Seq<u128>, roll: int, i: int) -> int
    decreases weights.len() - i,
{
    if i >= weights.len() - 1 {
        weights.len() - 1
    } else if roll * WHOLE < blend_weights::part(weights, i + 1) * ROLL_RANGE {
        i
    } else {
        blend_index(weights, roll, i + 1)
    }
}

/// From index `i` on, the first entry up to which the weights, in millionths, reach the
/// roll; else the last.
pub open spec fn part_index(weights: Seq<u64>, roll: int, i: int) -> int
    decreases weights.len() - i,
{
    if i >= weights.len() - 1 {
        weights.len() - 1
    } else if roll * ONE <= statistical_model::mass(weights, i + 1) * ROLL_RANGE {
        i
    } else {
        part_index(weights, roll, i + 1)
    }
}

/// The weights of a profile's components.
pub open spec fn size_weights(p: ProtocolProfile) -> Seq<u64> {
    p.packet_size_dist@.map_values(|c: GaussianComponent| c.weight_micro)
}

/// The probabilities of a profile's gaps.
pub open spec fn gap_weights(p: ProtocolProfile) -> Seq<u64> {
    p.timing_dist@.map_values(|t: (u64, u64)| t.1)
}

/// Whether all weights of a profile are zero.
pub open spec fn is_weightless(p: ProtocolProfile) -> bool {
    forall|i: int| 0 <= i < p.packet_size_dist@.len() ==> (#[trigger] p.packet_size_dist@[i]).weight_micro == 0
}

/// What is wrong with a profile, if anything: no sizes, no gaps, or no weight.
pub open spec fn fault(p: ProtocolProfile) -> Option<Seq<char>> {
    if p.packet_size_dist@.len() == 0 {
        Some("Profile '"@ + p.name@ + "' has empty packet size distribution"@)
    } else if p.timing_dist@.len() == 0 {
        Some("Profile '"@ + p.name@ + "' has empty timing distribution"@)
    } else if is_weightless(p) {
        Some("Profile '"@ + p.name@ + "' has zero total weight in size distribution"@)
    } else {
        None
    }
}

/// From index `i` on, what is wrong with the first faulty profile.
pub open spec fn first_fault(profiles: Seq<ProtocolProfile>, i: int) -> Option<Seq<char>>
    decreases profiles.len() - i,
{
    if i >= profiles.len() {
        None
    } else if fault(profiles[i]) is Some {
        fault(profiles[i])
    } else {
        first_fault(profiles, i + 1)
    }
}

/// From index `i` on, the first profile with the name.
pub open spec fn named(profiles: Seq<ProtocolProfile>, name: Seq<char>, i: int) -> Option<int>
    decreases profiles.len() - i,
{
    if i >= profiles.len() {
        None
    } else if profiles[i].name@ == name {
        Some(i)
    } else {
        named(profiles, name, i + 1)
    }
}

fn quoted(name: &str, rest: &str) -> (s: String)
    ensures
        s@ == "Profile '"@ + name@ + rest@,
{
    let head = join("Profile '", name);
    join(head.as_str(), rest)
}

fn find_fault(p: &ProtocolProfile) -> (f: Option<String>)
    ensures
        match f {
            Some(t) => fault(*p) == Some(t@),
            None => fault(*p) is None,
        },
{
    if p.packet_size_dist.len() == 0 {
        return Some(quoted(p.name.as_str(), "' has empty packet size distribution"));
    }
    if p.timing_dist.len() == 0 {
        return Some(quoted(p.name.as_str(), "' has empty timing distribution"));
    }
    let mut i: usize = 0;
    while i < p.packet_size_dist.len()
        invariant
            i <= p.packet_size_dist@.len(),
            p.packet_size_dist@.len() > 0,
            p.timing_dist@.len() > 0,
            forall|k: int| 0 <= k < i ==> (#[trigger] p.packet_size_dist@[k]).weight_micro == 0,
        decreases p.packet_size_dist@.len() - i,
    {
        if p.packet_size_dist[i].weight_micro != 0 {
            assert(!is_weightless(*p));
            return None;
        }
        i = i + 1;
    }
    Some(quoted(p.name.as_str(), "' has zero total weight in size distribution"))
}

fn shape(data: Vec<u8>, target: usize, header: &Vec<u8>, noise: Vec<u8>, stamped: bool) -> (out: Vec<
    u8,
>)
    requires
        noise@.len() == missing(target as int, data@.len() as int),
    ensures
        out@ == shaped(data@, target as int, header@, noise@, stamped),
{
    if target > data.len() {
        let mut out: Vec<u8> = data;
        let mut i: usize = 0;
        let ghost pad = padding_of(noise@, header@, stamped);
        assert(out@ =~= data@ + pad.subrange(0, 0));
        while i < noise.len()
            invariant
                i <= noise@.len(),
                pad == padding_of(noise@, header@, stamped),
                out@ == data@ + pad.subrange(0, i as int),
            decreases noise@.len() - i,
        {
            if stamped && i < header.len() {
                out.push(header[i]);
            } else {
                out.push(noise[i]);
            }
            i = i + 1;
            assert(out@ =~= data@ + pad.subrange(0, i as int));
        }
        assert(pad.subrange(0, i as int) =~= pad);
        out
    } else if target < data.len() {
        let chunk: usize = if target < 1 { 1 } else { target };
        let room: usize = if chunk <= header.len() { 1 } else { chunk - header.len() };
        let end: usize = if room < data.len() { room } else { data.len() };
        let mut out: Vec<u8> = slice_to_vec(header.as_slice());
        crate::utils::bytes::put_all(
            &mut out,
            vstd::slice::slice_subrange(data.as_slice(), 0, end),
        );
        out
    } else {
        data
    }
}

/// The bytes that padding is drawn from.
pub fn entropy_to_byte_range(entropy_micro: u64) -> (r: (u8, u8))
    ensures
        r == byte_range(entropy_micro as int),
        r.0 <= r.1,
{
    let spread: u64 = if entropy_micro > 8_000_000 { 255 } else { entropy_micro * 255 / 8_000_000 };
    if spread < 64 {
        (96, (96 + spread) as u8)
    } else if spread < 128 {
        (64, (64 + spread) as u8)
    } else if spread < 192 {
        (32, (32 + spread) as u8)
    } else {
        (0, 255)
    }
}

/// The size to send for a drawn one.
pub fn size_to_send(raw_micro: i64, port_min: u16) -> (size: usize)
    ensures
        size == packet_size(raw_micro as int, port_min as int),
        40 <= size <= 1500,
{
    let clamped: u64 = if raw_micro < 40_000_000 {
        40_000_000
    } else if raw_micro > 1_500_000_000 {
        1_500_000_000
    } else {
        raw_micro as u64
    };
    let floor: u64 = if port_min < 1500 { port_min as u64 * 1_000_000 } else { 1_500_000_000 };
    let size: u64 = if clamped > floor { clamped } else { floor };
    ((size + 500_000) / 1_000_000) as usize
}

/// The gap to wait for a drawn one.
pub fn gap_to_wait(gap_us: u64, jitter_us: i64) -> (us: u64)
    requires
        gap_us + jitter_us <= u64::MAX,
    ensures
        us == jittered(gap_us as int, jitter_us as int),
        us >= 1000,
{
    let sum: i128 = gap_us as i128 + jitter_us as i128;
    if sum < 1000 {
        1000
    } else {
        sum as u64
    }
}

/// How settled each protocol is.
pub open spec fn inertias(stats: Seq<ProtocolStatistics>, logs: Seq<u64>) -> Seq<u64> {
    Seq::new(stats.len(), |i: int| stats[i].inertia(logs[i] as int) as u64)
}

/// The first `n` numbers, each times its weight, added up.
pub open spec fn weighed(weights: Seq<u64>, x: Seq<i64>, n: int) -> int
    decreases n,
{
    if n <= 0 {
        0
    } else {
        weighed(weights, x, n - 1) + weights[n - 1] * x[n - 1]
    }
}

/// The mean of numbers by weight, between 0 and 8 in millionths.
pub open spec fn entropy_target(weights: Seq<u64>, x: Seq<i64>) -> int {
    let n = weights.len() as int;
    let total = statistical_model::mass(weights, n);
    let sum = weighed(weights, x, n);
    if total == 0 || sum <= 0 {
        0
    } else if sum / total > 8_000_000 {
        8_000_000
    } else {
        sum / total
    }
}

proof fn lemma_mass_to(weights: Seq<u64>, i: int, j: int)
    requires
        0 <= i <= j <= weights.len(),
    ensures
        0 <= statistical_model::mass(weights, i) <= statistical_model::mass(weights, j),
    decreases j,
{
    if i < j {
        lemma_mass_to(weights, i, j - 1);
    } else if i > 0 {
        lemma_mass_to(weights, i - 1, i - 1);
    }
}

/// How often each protocol is expected among `total` packets, in millionths.
pub open spec fn expected_counts(weights: Seq<u128>, total: int) -> Seq<u64> {
    weights.map_values(|w: u128| (w * total / 1_000_000_000_000_000_000) as u64)
}

/// Whether `n` squares of up to `total` counts, in millionths, can be added up.
pub open spec fn adds_up(n: int, total: int) -> bool {
    n * ((1_000_000 * total) * (1_000_000 * total)) <= u128::MAX
}

/// Counts of at least two protocols whose squares can be added up fit 44 bits.
proof fn lemma_adds_up(n: int, total: int)
    requires
        n >= 2,
        total >= 0,
        adds_up(n, total),
    ensures
        1_000_000 * total <= u64::MAX,
{
    let top = 1_000_000 * total;
    assert(top <= u64::MAX) by (nonlinear_arith)
        requires
            n >= 2,
            top >= 0,
            n * (top * top) <= u128::MAX,
    ;
}

/// No number is more than all together.
proof fn lemma_part_of_sum(s: Seq<u64>, i: int)
    requires
        0 <= i < s.len(),
    ensures
        s[i] <= window::total(s),
    decreases s.len(),
{
    window::lemma_total_bounds(s.drop_last());
    if i < s.len() - 1 {
        lemma_part_of_sum(s.drop_last(), i);
    }
}

/// Blends traffic of several protocols.
#[derive(Debug)]
pub struct ProtocolBlender {
    profiles: Vec<ProtocolProfile>,
    blend_weights: Vec<u128>,
    current_protocol: usize,
    switch_counter: usize,
    protocol_stats: Vec<ProtocolStatistics>,
    last_switch_weight: u128,
    consecutive_same_protocol: usize,
}

/// A blender as plain data.
pub struct BlenderView {
    pub profiles: Seq<ProtocolProfile>,
    pub weights: Seq<u128>,
    pub current: int,
    pub switches: usize,
    pub stats: Seq<ProtocolStatistics>,
    pub switch_weight: u128,
    pub stayed: usize,
}

impl View for ProtocolBlender {
    type V = BlenderView;

    closed spec fn view(&self) -> BlenderView {
        BlenderView {
            profiles: self.profiles@,
            weights: self.blend_weights@,
            current: self.current_protocol as int,
            switches: self.switch_counter,
            stats: self.protocol_stats@,
            switch_weight: self.last_switch_weight,
            stayed: self.consecutive_same_protocol,
        }
    }
}

impl BlenderView {
    /// At least two sound profiles, each with its weight and its statistics, and one of
    /// them in use.
    pub open spec fn wf(self) -> bool {
        &&& self.profiles.len() >= 2
        &&& first_fault(self.profiles, 0) is None
        &&& blend_weights::is_blend(self.weights)
        &&& self.weights.len() == self.profiles.len()
        &&& self.stats.len() == self.profiles.len()
        &&& 0 <= self.current < self.profiles.len()
    }

    /// A blender that has just been made.
    pub open spec fn made(profiles: Seq<ProtocolProfile>) -> BlenderView {
        let n = profiles.len();
        let share = blend_weights::share(n as int) as u128;
        BlenderView {
            profiles,
            weights: Seq::new(n, |i: int| share),
            current: 0,
            switches: 0,
            stats: Seq::new(n, |i: int| ProtocolStatistics::zero()),
            switch_weight: share,
            stayed: 0,
        }
    }

    /// After the protocol `i` has been selected. Counters wrap.
    pub open spec fn selected(self, i: int) -> BlenderView {
        if i != self.current {
            BlenderView {
                current: i,
                switches: self.switches.wrapping_add(1),
                switch_weight: self.weights[i],
                stayed: 0,
                ..self
            }
        } else {
            BlenderView { stayed: self.stayed.wrapping_add(1), ..self }
        }
    }

    /// After a packet has been sent as the protocol in use.
    pub open spec fn sent(self, size: usize, gap_us: u64, up: bool) -> BlenderView {
        BlenderView {
            stats: self.stats.update(
                self.current,
                self.stats[self.current].updated(size, gap_us, up),
            ),
            ..self
        }
    }

    /// The header of the protocol in use.
    pub open spec fn header(self) -> Seq<u8> {
        self.profiles[self.current].protocol_signature.header_pattern@
    }
}

/// Whether `p` carries `data` as the protocol in use of `b`.
pub open spec fn carries(
    p: BlendedPacket,
    b: BlenderView,
    data: Seq<u8>,
    target: int,
    gap_us: u64,
    noise: Seq<u8>,
    stamped: bool,
) -> bool {
    &&& p.data@ == shaped(data, target, b.header(), noise, stamped)
    &&& p.protocol_hint@ == b.profiles[b.current].name@
    &&& p.delay_us == gap_us
    &&& p.size_adjustment == missing(target, data.len() as int)
}

/// Whether padding begins with the header: three times in ten.
pub open spec fn is_stamped(roll: int) -> bool {
    10 * roll < 3 * ROLL_RANGE
}

/// Whether a packet counts as one that goes up, at a chance in millionths.
pub open spec fn goes_up(chance: int, roll: int) -> bool {
    roll * ONE < chance * ROLL_RANGE
}

/// Whether sending `data` with the given draws makes `p` and takes the blender from
/// `before` to `after`.
pub open spec fn blended_as(
    p: BlendedPacket,
    before: BlenderView,
    after: BlenderView,
    data: Seq<u8>,
    sample: BlendSample,
    noise: Seq<u8>,
    stamp_roll: u64,
    up_roll: u64,
) -> bool {
    let profile = before.profiles[before.current];
    let target = packet_size(sample.size_micro as int, profile.port_range.0 as int);
    let gap = jittered(sample.gap_us as int, sample.jitter_us as int) as u64;
    let chance = profile.protocol_signature.direction_pattern.upload_law(
        sample.phase_micro as int,
    );
    let up = goes_up(chance, up_roll as int);
    &&& stamp_roll < ROLL_RANGE
    &&& up_roll < ROLL_RANGE
    &&& carries(p, before, data, target, gap, noise, is_stamped(stamp_roll as int))
    &&& noise.len() == missing(target, data.len() as int)
    &&& drawn_from(noise, byte_range(sample.entropy_micro as int))
    &&& after == before.sent(p.data@.len() as usize, gap, up)
}

impl ProtocolBlender {
    /// A blender in which all profiles have the same weight.
    pub fn new(profiles: Vec<ProtocolProfile>) -> (r: PhantomResult<Self>)
        ensures
            match r {
                Ok(b) => {
                    &&& profiles@.len() >= 2
                    &&& first_fault(profiles@, 0) is None
                    &&& b@ == BlenderView::made(profiles@)
                    &&& b@.wf()
                },
                Err(e) => if profiles@.len() < 2 {
                    e.is_config("ProtocolBlender requires at least 2 profiles"@)
                } else {
                    first_fault(profiles@, 0) matches Some(t) && e.is_config(t)
                },
            },
    {
        if profiles.len() < 2 {
            return Err(
                PhantomError::ConfigError(
                    "ProtocolBlender requires at least 2 profiles".to_string(),
                ),
            );
        }
        let n: usize = profiles.len();
        let mut i: usize = 0;
        while i < n
            invariant
                i <= n,
                n == profiles@.len(),
                n >= 2,
                first_fault(profiles@, 0) == first_fault(profiles@, i as int),
            decreases n - i,
        {
            match find_fault(&profiles[i]) {
                Some(t) => {
                    return Err(PhantomError::ConfigError(t));
                },
                None => {},
            }
            i = i + 1;
        }
        let share: u128 = WHOLE / (n as u128);
        let mut blend_weights: Vec<u128> = Vec::new();
        let mut protocol_stats: Vec<ProtocolStatistics> = Vec::new();
        i = 0;
        while i < n
            invariant
                i <= n,
                n == profiles@.len(),
                blend_weights@ == Seq::new(i as nat, |k: int| share),
                protocol_stats@ == Seq::new(i as nat, |k: int| ProtocolStatistics::zero()),
            decreases n - i,
        {
            blend_weights.push(share);
            protocol_stats.push(ProtocolStatistics::new());
            i = i + 1;
            assert(blend_weights@ =~= Seq::new(i as nat, |k: int| share));
            assert(protocol_stats@ =~= Seq::new(i as nat, |k: int| ProtocolStatistics::zero()));
        }
        proof {
            blend_weights::law_equal_weights_are_a_blend(blend_weights@);
        }
        let b = ProtocolBlender {
            profiles,
            blend_weights,
            current_protocol: 0,
            switch_counter: 0,
            protocol_stats,
            last_switch_weight: share,
            consecutive_same_protocol: 0,
        };
        assert(b@.weights =~= BlenderView::made(profiles@).weights);
        assert(b@.stats =~= BlenderView::made(profiles@).stats);
        Ok(b)
    }

    /// The protocol that a roll selects.
    fn weighted_index(&self, roll: u64) -> (index: usize)
        requires
            self@.wf(),
            roll < ROLL_RANGE,
        ensures
            index == blend_index(self@.weights, roll as int, 0),
            index < self@.weights.len(),
    {
        let n: usize = self.blend_weights.len();
        let mut sum: u128 = 0;
        let mut i: usize = 0;
        while i + 1 < n
            invariant
                i < n,
                n == self.blend_weights@.len(),
                self@.wf(),
                roll < ROLL_RANGE,
                sum == blend_weights::part(self.blend_weights@, i as int),
                sum <= 2 * WHOLE,
                i > 0 ==> sum * ROLL_RANGE <= roll * WHOLE,
                blend_index(self.blend_weights@, roll as int, 0) == blend_index(
                    self.blend_weights@,
                    roll as int,
                    i as int,
                ),
            decreases n - i,
        {
            proof {
                blend_weights::lemma_weight_of_blend(self.blend_weights@, i as int);
                assert(0 <= roll * WHOLE <= ROLL_RANGE * WHOLE) by (nonlinear_arith)
                    requires
                        0 <= roll < ROLL_RANGE,
                ;
                assert(i > 0 ==> sum <= WHOLE) by (nonlinear_arith)
                    requires
                        i > 0 ==> sum * ROLL_RANGE <= roll * WHOLE,
                        roll < ROLL_RANGE,
                ;
            }
            sum = sum + self.blend_weights[i];
            if Wide::product(roll as u128, WHOLE).less(
                Wide::product(sum, 0x20_0000_0000_0000),
            ) {
                return i;
            }
            i = i + 1;
        }
        i
    }

    /// Uses the protocol that a roll selects.
    pub fn select_for_roll(&mut self, roll: u64) -> (index: usize)
        requires
            old(self)@.wf(),
            roll < ROLL_RANGE,
        ensures
            index == blend_index(old(self)@.weights, roll as int, 0),
            index < old(self)@.profiles.len(),
            final(self)@ == old(self)@.selected(index as int),
            final(self)@.wf(),
    {
        let selected: usize = self.weighted_index(roll);
        if selected != self.current_protocol {
            self.current_protocol = selected;
            self.switch_counter = self.switch_counter.wrapping_add(1);
            self.consecutive_same_protocol = 0;
            self.last_switch_weight = self.blend_weights[selected];
        } else {
            self.consecutive_same_protocol = self.consecutive_same_protocol.wrapping_add(1);
        }
        selected
    }

    /// Uses a protocol drawn by weight.
    pub fn select_protocol(&mut self) -> (index: usize)
        requires
            old(self)@.wf(),
        ensures
            exists|roll: int|
                0 <= roll < ROLL_RANGE && index == #[trigger] blend_index(
                    old(self)@.weights,
                    roll,
                    0,
                ),
            index < old(self)@.profiles.len(),
            final(self)@ == old(self)@.selected(index as int),
            final(self)@.wf(),
    {
        let roll: u64 = random_between(0, ROLL_RANGE - 1);
        let index: usize = self.select_for_roll(roll);
        assert(0 <= (roll as int) < ROLL_RANGE);
        index
    }

    /// Uses the given protocol.
    pub fn use_protocol(&mut self, index: usize)
        requires
            old(self)@.wf(),
            index < old(self)@.profiles.len(),
        ensures
            final(self)@ == (BlenderView { current: index as int, ..old(self)@ }),
            final(self)@.wf(),
    {
        self.current_protocol = index;
    }

    /// Moves weight away from the protocol in use, the more the higher the risk that it is
    /// detected, and the less the more settled a protocol is. A risk outside of nothing to
    /// one counts as the nearer of the two. `variety_micro` is the entropy of the weights in
    /// parts of the greatest there is, and `logs_micro` holds for each protocol the logarithm
    /// of the number of its packets.
    pub fn adapt_weights(
        &mut self,
        detection_risk_micro: i64,
        variety_micro: u64,
        logs_micro: &[u64],
    )
        requires
            old(self)@.wf(),
            variety_micro <= ONE,
            logs_micro@.len() == old(self)@.profiles.len(),
        ensures
            final(self)@ == (BlenderView {
                weights: blend_weights::adapted(
                    old(self)@.weights,
                    old(self)@.current,
                    clamped_risk(detection_risk_micro as int),
                    variety_micro as int,
                    inertias(old(self)@.stats, logs_micro@),
                ),
                ..old(self)@
            }),
            final(self)@.wf(),
            final(self)@.weights.len() == final(self)@.profiles.len(),
            forall|i: int|
                0 <= i < final(self)@.weights.len() ==> #[trigger] final(self)@.weights[i] > 0,
            1000 * (WHOLE - blend_weights::total(final(self)@.weights)) < WHOLE,
            blend_weights::total(final(self)@.weights) <= WHOLE,
    {
        let risk: u64 = if detection_risk_micro < 0 {
            0
        } else if detection_risk_micro > 1_000_000 {
            1_000_000
        } else {
            detection_risk_micro as u64
        };
        let n: usize = self.protocol_stats.len();
        let mut inertia: Vec<u64> = Vec::new();
        let mut i: usize = 0;
        while i < n
            invariant
                i <= n,
                n == self.protocol_stats@.len(),
                logs_micro@.len() == n,
                inertia@.len() == i,
                forall|k: int|
                    0 <= k < i ==> #[trigger] inertia@[k] == inertias(
                        self.protocol_stats@,
                        logs_micro@,
                    )[k] && inertia@[k] <= ONE,
            decreases n - i,
        {
            inertia.push(self.protocol_stats[i].compute_profile_inertia(logs_micro[i]));
            i = i + 1;
        }
        assert(inertia@ =~= inertias(self.protocol_stats@, logs_micro@));
        proof {
            blend_weights::law_adapted_weights_stay_a_blend(
                self.blend_weights@,
                self.current_protocol as int,
                risk as int,
                variety_micro as int,
                inertia@,
            );
        }
        let weights = adapt(
            &self.blend_weights,
            self.current_protocol,
            risk,
            variety_micro,
            &inertia,
        );
        self.blend_weights = weights;
    }

    /// The entropy that padding of a profile aims for, in millionths: that of each component
    /// of its sizes, by weight, between 0 and 8; nothing where no component has weight.
    pub fn compute_profile_entropy_target(&self, index: usize, entropies_micro: &[i64]) -> (e: u64)
        requires
            self@.wf(),
            index < self@.profiles.len(),
            entropies_micro@.len() == self@.profiles[index as int].packet_size_dist@.len(),
            statistical_model::mass(
                size_weights(self@.profiles[index as int]),
                self@.profiles[index as int].packet_size_dist@.len() as int,
            ) <= u64::MAX,
        ensures
            e == entropy_target(
                size_weights(self@.profiles[index as int]),
                entropies_micro@,
            ),
    {
        let p = &self.profiles[index];
        let n: usize = p.packet_size_dist.len();
        let ghost weights = size_weights(*p);
        let mut total: i128 = 0;
        let mut sum: i128 = 0;
        let mut i: usize = 0;
        while i < n
            invariant
                i <= n,
                n == p.packet_size_dist@.len(),
                n == entropies_micro@.len(),
                weights == size_weights(*p),
                statistical_model::mass(weights, n as int) <= u64::MAX,
                total == statistical_model::mass(weights, i as int),
                sum == weighed(weights, entropies_micro@, i as int),
                -(total * 0x8000_0000_0000_0000) <= sum <= total * 0x8000_0000_0000_0000,
            decreases n - i,
        {
            let w: i128 = p.packet_size_dist[i].weight_micro as i128;
            let x: i128 = entropies_micro[i] as i128;
            proof {
                assert(weights[i as int] == w);
                lemma_mass_to(weights, i + 1, n as int);
                lemma_mass_to(weights, i as int, n as int);
                assert(-(w * 0x8000_0000_0000_0000) <= w * x <= w * 0x8000_0000_0000_0000)
                    by (nonlinear_arith)
                    requires
                        0 <= w,
                        -0x8000_0000_0000_0000 <= x <= 0x8000_0000_0000_0000,
                ;
                assert(w * 0x8000_0000_0000_0000 <= 0x1_0000_0000_0000_0000
                    * 0x8000_0000_0000_0000);
                assert((total + w) * 0x8000_0000_0000_0000 == total * 0x8000_0000_0000_0000 + w
                    * 0x8000_0000_0000_0000) by (nonlinear_arith);
            }
            sum = sum + w * x;
            total = total + w;
            i = i + 1;
        }
        if total == 0 || sum <= 0 {
            return 0;
        }
        let mean: i128 = sum / total;
        if mean > 8_000_000 {
            8_000_000
        } else {
            mean as u64
        }
    }

    /// The component of a profile's sizes that a roll selects.
    pub fn size_component(&self, index: usize, roll: u64) -> (c: usize)
        requires
            self@.wf(),
            index < self@.profiles.len(),
            roll < ROLL_RANGE,
        ensures
            c == part_index(size_weights(self@.profiles[index as int]), roll as int, 0),
            c < self@.profiles[index as int].packet_size_dist@.len(),
    {
        let p = &self.profiles[index];
        proof {
            lemma_sound(self.profiles@, 0, index as int);
        }
        let mut weights: Vec<u64> = Vec::new();
        let mut i: usize = 0;
        while i < p.packet_size_dist.len()
            invariant
                i <= p.packet_size_dist@.len(),
                weights@ == size_weights(*p).subrange(0, i as int),
            decreases p.packet_size_dist@.len() - i,
        {
            weights.push(p.packet_size_dist[i].weight_micro);
            i = i + 1;
            assert(weights@ =~= size_weights(*p).subrange(0, i as int));
        }
        assert(weights@ =~= size_weights(*p));
        index_of_part(&weights, roll)
    }

    /// The gap of a profile that a roll selects.
    pub fn gap_index(&self, index: usize, roll: u64) -> (g: usize)
        requires
            self@.wf(),
            index < self@.profiles.len(),
            roll < ROLL_RANGE,
        ensures
            g == part_index(gap_weights(self@.profiles[index as int]), roll as int, 0),
            g < self@.profiles[index as int].timing_dist@.len(),
    {
        let p = &self.profiles[index];
        proof {
            lemma_sound(self.profiles@, 0, index as int);
        }
        let mut weights: Vec<u64> = Vec::new();
        let mut i: usize = 0;
        while i < p.timing_dist.len()
            invariant
                i <= p.timing_dist@.len(),
                weights@ == gap_weights(*p).subrange(0, i as int),
            decreases p.timing_dist@.len() - i,
        {
            weights.push(p.timing_dist[i].1);
            i = i + 1;
            assert(weights@ =~= gap_weights(*p).subrange(0, i as int));
        }
        assert(weights@ =~= gap_weights(*p));
        index_of_part(&weights, roll)
    }

    /// A component of the sizes of the profile in use, drawn by weight.
    pub fn draw_size_component(&self) -> (c: GaussianComponent)
        requires
            self@.wf(),
        ensures
            exists|roll: int|
                0 <= roll < ROLL_RANGE && c
                    == self@.profiles[self@.current].packet_size_dist@[#[trigger] part_index(
                    size_weights(self@.profiles[self@.current]),
                    roll,
                    0,
                )],
    {
        let roll: u64 = random_between(0, ROLL_RANGE - 1);
        let i: usize = self.size_component(self.current_protocol, roll);
        assert(i == part_index(
            size_weights(self@.profiles[self@.current]),
            roll as int,
            0,
        ));
        self.profiles[self.current_protocol].packet_size_dist[i]
    }

    /// A gap of the profile in use, drawn by its probability.
    pub fn draw_gap(&self) -> (us: u64)
        requires
            self@.wf(),
        ensures
            exists|roll: int|
                0 <= roll < ROLL_RANGE && us
                    == self@.profiles[self@.current].timing_dist@[#[trigger] part_index(
                    gap_weights(self@.profiles[self@.current]),
                    roll,
                    0,
                )].0,
    {
        let roll: u64 = random_between(0, ROLL_RANGE - 1);
        let i: usize = self.gap_index(self.current_protocol, roll);
        let t: (u64, u64) = self.profiles[self.current_protocol].timing_dist[i];
        assert(i == part_index(gap_weights(self@.profiles[self@.current]), roll as int, 0));
        t.0
    }

    /// Sends data as the protocol in use: brought to the target size with the given noise.
    pub fn blend_with(
        &mut self,
        data: Vec<u8>,
        target_size: usize,
        gap_us: u64,
        noise: Vec<u8>,
        stamped: bool,
        is_upload: bool,
    ) -> (r: PhantomResult<BlendedPacket>)
        requires
            old(self)@.wf(),
            noise@.len() == missing(target_size as int, data@.len() as int),
        ensures
            r matches Ok(p) && {
                &&& carries(
                    p,
                    old(self)@,
                    data@,
                    target_size as int,
                    gap_us,
                    noise@,
                    stamped,
                )
                &&& final(self)@ == old(self)@.sent(p.data@.len() as usize, gap_us, is_upload)
            },
            final(self)@.wf(),
    {
        let index: usize = self.current_protocol;
        let size_adjustment: usize = noise.len();
        let data = shape(
            data,
            target_size,
            &self.profiles[index].protocol_signature.header_pattern,
            noise,
            stamped,
        );
        let mut stats: ProtocolStatistics = self.protocol_stats[index];
        stats.update(data.len(), gap_us, is_upload);
        self.protocol_stats.set(index, stats);
        let protocol_hint = self.profiles[index].name.clone();
        Ok(BlendedPacket { data, protocol_hint, delay_us: gap_us, size_adjustment })
    }

    /// How many bytes of padding data needs as the protocol in use.
    pub fn padding_needed(&self, data: &Vec<u8>, sample: &BlendSample) -> (n: usize)
        requires
            self@.wf(),
        ensures
            n == missing(
                packet_size(
                    sample.size_micro as int,
                    self@.profiles[self@.current].port_range.0 as int,
                ),
                data@.len() as int,
            ),
    {
        let port: u16 = self.profiles[self.current_protocol].port_range.0;
        let target: usize = size_to_send(sample.size_micro, port);
        if target > data.len() {
            target - data.len()
        } else {
            0
        }
    }

    /// Sends data as the protocol in use, padded with `noise`. The rolls decide whether padding
    /// begins with the protocol's header, and the direction that is counted.
    pub fn blend_for_rolls(
        &mut self,
        data: Vec<u8>,
        sample: &BlendSample,
        noise: Vec<u8>,
        stamp_roll: u64,
        up_roll: u64,
    ) -> (r: PhantomResult<BlendedPacket>)
        requires
            old(self)@.wf(),
            sample.gap_us + sample.jitter_us <= u64::MAX,
            sample.phase_micro <= ONE,
            noise@.len() == missing(
                packet_size(
                    sample.size_micro as int,
                    old(self)@.profiles[old(self)@.current].port_range.0 as int,
                ),
                data@.len() as int,
            ),
            drawn_from(noise@, byte_range(sample.entropy_micro as int)),
            stamp_roll < ROLL_RANGE,
            up_roll < ROLL_RANGE,
        ensures
            r matches Ok(p) && blended_as(
                p,
                old(self)@,
                final(self)@,
                data@,
                *sample,
                noise@,
                stamp_roll,
                up_roll,
            ),
            final(self)@.wf(),
    {
        let index: usize = self.current_protocol;
        let target: usize = size_to_send(sample.size_micro, self.profiles[index].port_range.0);
        let gap: u64 = gap_to_wait(sample.gap_us, sample.jitter_us);
        let stamped = 10 * stamp_roll < 3 * 0x20_0000_0000_0000;
        let chance: u64 = self.profiles[index].protocol_signature.direction_pattern.upload_probability(
            sample.phase_micro,
        );
        let up = (up_roll as u128) * 1_000_000 < (chance as u128) * 0x20_0000_0000_0000;
        self.blend_with(data, target, gap, noise, stamped, up)
    }

    /// Sends data as the protocol in use. Padding, and whether it begins with the
    /// protocol's header, is drawn; so is the direction that is counted.
    pub fn blend_packet(&mut self, data: Vec<u8>, sample: &BlendSample) -> (r: PhantomResult<
        BlendedPacket,
    >)
        requires
            old(self)@.wf(),
            sample.gap_us + sample.jitter_us <= u64::MAX,
            sample.phase_micro <= ONE,
        ensures
            r matches Ok(p) && exists|noise: Seq<u8>, stamp_roll: u64, up_roll: u64|
                #[trigger] blended_as(
                    p,
                    old(self)@,
                    final(self)@,
                    data@,
                    *sample,
                    noise,
                    stamp_roll,
                    up_roll,
                ),
            final(self)@.wf(),
    {
        let short: usize = self.padding_needed(&data, sample);
        let noise = draw_noise(short, entropy_to_byte_range(sample.entropy_micro));
        let stamp_roll: u64 = random_between(0, ROLL_RANGE - 1);
        let up_roll: u64 = random_between(0, ROLL_RANGE - 1);
        let ghost before = self@;
        let ghost n = noise@;
        let r = self.blend_for_rolls(data, sample, noise, stamp_roll, up_roll);
        assert(blended_as(r->Ok_0, before, self@, data@, *sample, n, stamp_roll, up_roll));
        r
    }

    /// The profile in use.
    pub fn current_profile(&self) -> (p: &ProtocolProfile)
        requires
            self@.wf(),
        ensures
            *p == self@.profiles[self@.current],
    {
        &self.profiles[self.current_protocol]
    }

    pub fn profiles(&self) -> (p: &Vec<ProtocolProfile>)
        ensures
            p@ == self@.profiles,
    {
        &self.profiles
    }

    /// The weights, in septillionths.
    pub fn blend_weights(&self) -> (w: &Vec<u128>)
        ensures
            w@ == self@.weights,
    {
        &self.blend_weights
    }

    pub fn switch_counter(&self) -> (n: usize)
        ensures
            n == self@.switches,
    {
        self.switch_counter
    }

    pub fn protocol_stats(&self) -> (s: &Vec<ProtocolStatistics>)
        ensures
            s@ == self@.stats,
    {
        &self.protocol_stats
    }

    /// How far counts of what was sent as each protocol are from what the weights let expect,
    /// in millionths. Fewer than two counts give no answer, and where nothing was sent
    /// everything fits.
    pub fn compute_blend_chi_squared(&self, observed: &[u64]) -> (c: Option<u128>)
        requires
            self@.wf(),
            observed@.len() < 2 || self@.profiles.len() <= observed@.len() && adds_up(
                self@.profiles.len() as int,
                window::total(observed@),
            ),
        ensures
            c == if observed@.len() < 2 {
                None
            } else if window::total(observed@) == 0 {
                Some(0u128)
            } else {
                Some(
                    goodness::chi_total(
                        observed@,
                        expected_counts(self@.weights, window::total(observed@)),
                        self@.weights.len() as int,
                    ) as u128,
                )
            },
    {
        if observed.len() < 2 {
            return None;
        }
        let total: u128 = sum_of(observed);
        if total == 0 {
            return Some(0);
        }
        let n: usize = self.blend_weights.len();
        let ghost top = 1_000_000 * total;
        proof {
            lemma_adds_up(n as int, total as int);
        }
        let mut expected: Vec<u64> = Vec::new();
        let mut i: usize = 0;
        while i < n
            invariant
                i <= n,
                n == self.blend_weights@.len(),
                blend_weights::is_blend(self.blend_weights@),
                total == window::total(observed@),
                top == 1_000_000 * total,
                top <= u64::MAX,
                expected@.len() == i,
                forall|k: int|
                    0 <= k < i ==> #[trigger] expected@[k] == expected_counts(
                        self.blend_weights@,
                        total as int,
                    )[k] && expected@[k] <= top,
            decreases n - i,
        {
            proof {
                blend_weights::lemma_weight_of_blend(self.blend_weights@, i as int);
            }
            let w: u128 = self.blend_weights[i];
            assert(0 <= w * total <= 1_000_000_000_000_000_000_000_000 * total) by (nonlinear_arith)
                requires
                    0 <= w <= 1_000_000_000_000_000_000_000_000,
                    0 <= total,
            ;
            expected.push((w * total / 1_000_000_000_000_000_000) as u64);
            i = i + 1;
        }
        proof {
            assert(expected@ =~= expected_counts(self.blend_weights@, total as int));
            assert forall|k: int| 0 <= k < n implies 1_000_000 * #[trigger] observed@[k] <= top
                && expected@[k] <= top by {
                lemma_part_of_sum(observed@, k);
            }
            assert(goodness::are_within(observed@, expected@, n as int, top));
        }
        Some(chi_squared(observed, expected.as_slice(), n))
    }

    /// The first profile with the name.
    pub fn profile_by_name(&self, name: &str) -> (index: Option<usize>)
        ensures
            match index {
                Some(i) => named(self@.profiles, name@, 0) == Some(i as int),
                None => named(self@.profiles, name@, 0) is None,
            },
    {
        let mut i: usize = 0;
        while i < self.profiles.len()
            invariant
                i <= self.profiles@.len(),
                named(self.profiles@, name@, 0) == named(self.profiles@, name@, i as int),
            decreases self.profiles@.len() - i,
        {
            if same(self.profiles[i].name.as_str(), name) {
                return Some(i);
            }
            i = i + 1;
        }
        None
    }

    /// How likely a packet of the profile goes up, in millionths.
    pub fn direction_upload_probability(&self, index: usize, phase_micro: u64) -> (p: u64)
        requires
            index < self@.profiles.len(),
            phase_micro <= ONE,
        ensures
            p == self@.profiles[index as int].protocol_signature.direction_pattern.upload_law(
                phase_micro as int,
            ),
    {
        self.profiles[index].protocol_signature.direction_pattern.upload_probability(phase_micro)
    }

    /// Forgets what has been sent and how often protocols were switched.
    pub fn reset_statistics(&mut self)
        ensures
            final(self)@ == (BlenderView {
                stats: Seq::new(old(self)@.stats.len(), |i: int| ProtocolStatistics::zero()),
                switches: 0,
                stayed: 0,
                ..old(self)@
            }),
            old(self)@.wf() ==> final(self)@.wf(),
    {
        let n: usize = self.protocol_stats.len();
        let mut stats: Vec<ProtocolStatistics> = Vec::new();
        let mut i: usize = 0;
        while i < n
            invariant
                i <= n,
                stats@ == Seq::new(i as nat, |k: int| ProtocolStatistics::zero()),
            decreases n - i,
        {
            stats.push(ProtocolStatistics::new());
            i = i + 1;
            assert(stats@ =~= Seq::new(i as nat, |k: int| ProtocolStatistics::zero()));
        }
        self.protocol_stats = stats;
        self.switch_counter = 0;
        self.consecutive_same_protocol = 0;
        assert(self@.stats =~= Seq::new(
            old(self)@.stats.len(),
            |i: int| ProtocolStatistics::zero(),
        ));
    }
}

/// A risk between nothing and one.
pub open spec fn clamped_risk(risk: int) -> int {
    if risk < 0 {
        0
    } else if risk > 1_000_000 {
        1_000_000
    } else {
        risk
    }
}

/// Whether all bytes lie in the range.
pub open spec fn drawn_from(noise: Seq<u8>, range: (u8, u8)) -> bool {
    forall|i: int| 0 <= i < noise.len() ==> range.0 <= #[trigger] noise[i] <= range.1
}

fn draw_noise(size: usize, range: (u8, u8)) -> (noise: Vec<u8>)
    requires
        range.0 <= range.1,
    ensures
        noise@.len() == size,
        drawn_from(noise@, range),
{
    let mut noise: Vec<u8> = Vec::new();
    while noise.len() < size
        invariant
            range.0 <= range.1,
            noise@.len() <= size,
            drawn_from(noise@, range),
        decreases size - noise@.len(),
    {
        noise.push(random_between(range.0 as u64, range.1 as u64) as u8);
    }
    noise
}

fn index_of_part(weights: &Vec<u64>, roll: u64) -> (index: usize)
    requires
        weights@.len() > 0,
        roll < ROLL_RANGE,
    ensures
        index == part_index(weights@, roll as int, 0),
        index < weights@.len(),
{
    let n: usize = weights.len();
    let mut sum: u128 = 0;
    let mut i: usize = 0;
    while i + 1 < n
        invariant
            i < n,
            n == weights@.len(),
            roll < ROLL_RANGE,
            sum == statistical_model::mass(weights@, i as int),
            sum < ONE,
            part_index(weights@, roll as int, 0) == part_index(weights@, roll as int, i as int),
        decreases n - i,
    {
        let next: u128 = sum + weights[i] as u128;
        if next >= 1_000_000 {
            assert(roll * ONE <= next * ROLL_RANGE) by (nonlinear_arith)
                requires
                    0 <= roll < ROLL_RANGE,
                    next >= ONE,
            ;
            return i;
        }
        if (roll as u128) * 1_000_000 <= next * 0x20_0000_0000_0000 {
            return i;
        }
        sum = next;
        i = i + 1;
    }
    i
}

proof fn lemma_sound(profiles: Seq<ProtocolProfile>, from: int, i: int)
    requires
        0 <= from <= i < profiles.len(),
        first_fault(profiles, from) is None,
    ensures
        fault(profiles[i]) is None,
    decreases i - from,
{
    if from < i {
        lemma_sound(profiles, from + 1, i);
    }
}

/// Data that is no longer than its target starts the packet, which has the target size;
/// data that is longer is cut to fill the target behind the header, if the header leaves
/// room.
pub proof fn law_blended_size(
    data: Seq<u8>,
    target: int,
    header: Seq<u8>,
    noise: Seq<u8>,
    stamped: bool,
)
    requires
        target >= 1,
        noise.len() == missing(target, data.len() as int),
    ensures
        ({
            let out = shaped(data, target, header, noise, stamped);
            &&& target >= data.len() ==> out.len() == target && data.is_prefix_of(out)
            &&& target < data.len() && header.len() < target ==> out.len() == target
                && header.is_prefix_of(out) && out.subrange(header.len() as int, target)
                == data.subrange(0, target - header.len())
        }),
{
    let out = shaped(data, target, header, noise, stamped);
    if target >= data.len() {
        assert(data =~= out.subrange(0, data.len() as int));
    } else if header.len() < target {
        assert(header =~= out.subrange(0, header.len() as int));
        assert(out.subrange(header.len() as int, target) =~= data.subrange(
            0,
            target - header.len(),
        ));
    }
}

/// The default profiles make a blend.
pub proof fn law_default_profiles_blend(profiles: Seq<ProtocolProfile>)
    requires
        is_default_set(profiles),
    ensures
        profiles.len() >= 2,
        first_fault(profiles, 0) is None,
{
    assert forall|k: int| 0 <= k < 4 implies fault(#[trigger] profiles[k]) is None by {
        assert(profiles[k].packet_size_dist@[0].weight_micro > 0);
    }
    assert(first_fault(profiles, 4) is None);
    assert(first_fault(profiles, 3) is None);
    assert(first_fault(profiles, 2) is None);
    assert(first_fault(profiles, 1) is None);
}

// ---- What blending keeps to ----

/// A drawn size is sent to the nearest byte, between 40 and 1500 bytes and not below the lower port
/// number; a larger draw is never a smaller packet.
pub proof fn law_drawn_sizes_are_sent(raw_micro: int, larger: int, port_min: int)
    requires
        0 <= port_min,
        raw_micro <= larger,
    ensures
        40 <= packet_size(raw_micro, port_min) <= 1500,
        40_000_000 <= raw_micro <= 1_500_000_000 && 1_000_000 * port_min <= raw_micro
            ==> raw_micro - 500_000 < 1_000_000 * packet_size(raw_micro, port_min) <= raw_micro
            + 500_000,
        raw_micro > 1_500_000_000 ==> packet_size(raw_micro, port_min) == 1500,
        raw_micro < 40_000_000 && port_min <= 40 ==> packet_size(raw_micro, port_min) == 40,
        port_min <= 1500 ==> packet_size(raw_micro, port_min) >= port_min,
        port_min >= 1500 ==> packet_size(raw_micro, port_min) == 1500,
        packet_size(raw_micro, port_min) <= packet_size(larger, port_min),
{
}

/// A drawn gap is waited for with its jitter, and a millisecond at least.
pub proof fn law_drawn_gaps_are_waited_for(gap_us: int, jitter_us: int)
    ensures
        jittered(gap_us, jitter_us) >= 1000,
        gap_us + jitter_us >= 1000 ==> jittered(gap_us, jitter_us) == gap_us + jitter_us,
        gap_us >= 1000 ==> jittered(gap_us, 0) == gap_us,
{
}

/// A blended packet has the drawn size and gap, the name of the protocol in use, and its data at its
/// start where it fits; and it is counted under that protocol and no other.
pub proof fn law_blended_packets_keep_to_their_draws(
    p: BlendedPacket,
    before: BlenderView,
    after: BlenderView,
    data: Seq<u8>,
    sample: BlendSample,
    noise: Seq<u8>,
    stamp_roll: u64,
    up_roll: u64,
    i: int,
)
    requires
        before.wf(),
        blended_as(p, before, after, data, sample, noise, stamp_roll, up_roll),
        0 <= i < before.stats.len(),
    ensures
        p.protocol_hint@ == before.profiles[before.current].name@,
        1000 <= sample.gap_us + sample.jitter_us <= u64::MAX ==> p.delay_us == sample.gap_us
            + sample.jitter_us,
        sample.gap_us + sample.jitter_us < 1000 ==> p.delay_us == 1000,
        data.len() <= 40 ==> 40 <= p.data@.len() <= 1500 && data.is_prefix_of(p.data@)
            && p.size_adjustment == p.data@.len() - data.len(),
        data.len() >= 1500 && before.header().len() < 40 ==> 40 <= p.data@.len() <= 1500
            && p.size_adjustment == 0,
        before.stats[before.current].packet_count < u64::MAX
            ==> after.stats[before.current].packet_count
            == before.stats[before.current].packet_count + 1,
        i != before.current ==> after.stats[i] == before.stats[i],
        after.current == before.current,
        after.weights == before.weights,
{
    let profile = before.profiles[before.current];
    let port = profile.port_range.0 as int;
    let target = packet_size(sample.size_micro as int, port);
    law_drawn_sizes_are_sent(sample.size_micro as int, sample.size_micro as int, port);
    law_blended_size(data, target, before.header(), noise, is_stamped(stamp_roll as int));
}

/// Padding of full entropy is drawn from all bytes, and padding of less from as many in proportion.
pub proof fn law_padding_has_its_entropy(entropy_micro: int, more: int)
    requires
        0 <= entropy_micro <= more <= 8_000_000,
    ensures
        ({
            let (r, s) = (byte_range(entropy_micro), byte_range(more));
            &&& r.0 <= r.1
            &&& r.1 - r.0 <= s.1 - s.0
            &&& s.1 - s.0 < 192 ==> 8_000_000 * (s.1 - s.0) <= 255 * more < 8_000_000 * (s.1 - s.0
                + 1)
            &&& 255 * more >= 192 * 8_000_000 ==> s == (0u8, 255u8)
            &&& r.0 <= 96
        }),
        byte_range(8_000_000) == (0u8, 255u8),
        byte_range(0) == (96u8, 96u8),
{
}

/// A roll selects the protocol whose part of the weights it falls into.
pub proof fn law_rolls_select_by_weight(weights: Seq<u128>, roll: int, i: int)
    requires
        0 <= i < weights.len(),
        0 <= roll,
        blend_weights::part(weights, i) * ROLL_RANGE <= roll * WHOLE,
    ensures
        ({
            let k = blend_index(weights, roll, i);
            &&& i <= k < weights.len()
            &&& blend_weights::part(weights, k) * ROLL_RANGE <= roll * WHOLE
            &&& k < weights.len() - 1 ==> roll * WHOLE < blend_weights::part(weights, k + 1)
                * ROLL_RANGE
        }),
    decreases weights.len() - i,
{
    if i < weights.len() - 1 && roll * WHOLE >= blend_weights::part(weights, i + 1) * ROLL_RANGE {
        law_rolls_select_by_weight(weights, roll, i + 1);
    }
}

/// A roll selects the component or gap whose part of the weights, in millionths, it falls into.
pub proof fn law_rolls_select_by_part(weights: Seq<u64>, roll: int, i: int)
    requires
        0 <= i < weights.len(),
        0 <= roll,
    ensures
        ({
            let k = part_index(weights, roll, i);
            &&& i <= k < weights.len()
            &&& k > i ==> statistical_model::mass(weights, k) * ROLL_RANGE < roll * ONE
            &&& k < weights.len() - 1 ==> roll * ONE <= statistical_model::mass(weights, k + 1)
                * ROLL_RANGE
        }),
    decreases weights.len() - i,
{
    if i < weights.len() - 1 && roll * ONE > statistical_model::mass(weights, i + 1) * ROLL_RANGE {
        law_rolls_select_by_part(weights, roll, i + 1);
    }
}

/// Selecting another protocol counts as a switch, and selecting the same one as staying.
pub proof fn law_switches_are_counted(b: BlenderView, i: int)
    requires
        b.switches < usize::MAX,
        b.stayed < usize::MAX,
    ensures
        b.selected(i).current == i,
        i != b.current ==> b.selected(i).switches == b.switches + 1 && b.selected(i).stayed == 0
            && b.selected(i).switch_weight == b.weights[i],
        i == b.current ==> b.selected(i).switches == b.switches && b.selected(i).stayed == b.stayed
            + 1,
        b.selected(i).weights == b.weights,
        b.selected(i).stats == b.stats,
{
}

/// Packets go up as often as down where traffic is symmetric, more often where the client is heavy and
/// as much less where the server is; a bursty flow moves evenly between the two with its phase.
pub proof fn law_directions_are_balanced(phase: int)
    requires
        0 <= phase <= 1_000_000,
    ensures
        DirectionPattern::Symmetric.upload_law(phase) == 500_000,
        DirectionPattern::ClientHeavy.upload_law(phase) > 600_000,
        DirectionPattern::ClientHeavy.upload_law(phase) + DirectionPattern::ServerHeavy.upload_law(
            phase,
        ) == 1_000_000,
        300_000 <= DirectionPattern::Bursty.upload_law(phase) <= 700_000,
        DirectionPattern::Bursty.upload_law(500_000) == 500_000,
        phase + 5 <= 1_000_000 ==> DirectionPattern::Bursty.upload_law(phase + 5)
            == DirectionPattern::Bursty.upload_law(phase) + 2,
{
}

/// A packet goes up for the part of all rolls that its chance is.
pub proof fn law_chances_are_parts_of_rolls(chance: int, roll: int)
    requires
        0 <= chance <= 1_000_000,
        0 <= roll < ROLL_RANGE,
    ensures
        !goes_up(0, roll),
        goes_up(1_000_000, roll),
        goes_up(500_000, roll) <==> 2 * roll < ROLL_RANGE,
        roll > 0 && goes_up(chance, roll) ==> goes_up(chance, roll - 1),
        is_stamped(roll) <==> goes_up(300_000, roll),
{
}

/// A protocol is expected as often as its part of the whole: always where it has the whole, and half
/// the time where it has half.
pub proof fn law_expected_counts_follow_weights(weights: Seq<u128>, total: int, i: int)
    requires
        0 <= i < weights.len(),
        0 <= total <= 0xFFFF_FFFF,
    ensures
        weights[i] == WHOLE ==> expected_counts(weights, total)[i] == 1_000_000 * total,
        2 * weights[i] == WHOLE ==> expected_counts(weights, total)[i] == 500_000 * total,
        weights[i] == 0 ==> expected_counts(weights, total)[i] == 0,
{
    let w = weights[i] as int;
    assert(w == 1_000_000_000_000_000_000_000_000 ==> w * total == 1_000_000_000_000_000_000 * (
    1_000_000 * total)) by (nonlinear_arith);
    assert(w == 500_000_000_000_000_000_000_000 ==> w * total == 1_000_000_000_000_000_000 * (
    500_000 * total)) by (nonlinear_arith);
    assert(w == 0 ==> w * total == 0) by (nonlinear_arith);
}

/// The entropy to aim for is the mean by weight: where all components have the same, it is that.
pub proof fn law_entropy_target_of_equals(weights: Seq<u64>, x: Seq<i64>, e: int)
    requires
        x.len() == weights.len(),
        0 <= e <= 8_000_000,
        statistical_model::mass(weights, weights.len() as int) > 0,
        forall|i: int| 0 <= i < x.len() ==> #[trigger] x[i] == e,
    ensures
        entropy_target(weights, x) == e,
{
    let n = weights.len() as int;
    lemma_weighed_equals(weights, x, e, n);
    let m = statistical_model::mass(weights, n);
    assert((m * e) / m == e && m * e >= 0) by (nonlinear_arith)
        requires
            m > 0,
            e >= 0,
    ;
    assert(m * e == 0 ==> e == 0) by (nonlinear_arith)
        requires
            m > 0,
    ;
}

proof fn lemma_weighed_equals(weights: Seq<u64>, x: Seq<i64>, e: int, n: int)
    requires
        x.len() == weights.len(),
        0 <= n <= weights.len(),
        forall|i: int| 0 <= i < x.len() ==> #[trigger] x[i] == e,
    ensures
        weighed(weights, x, n) == statistical_model::mass(weights, n) * e,
    decreases n,
{
    if n > 0 {
        lemma_weighed_equals(weights, x, e, n - 1);
        let (m, w) = (statistical_model::mass(weights, n - 1), weights[n - 1] as int);
        assert(x[n - 1] == e);
        assert((m + w) * e == m * e + w * e) by (nonlinear_arith);
    } else {
        assert(0int * e == 0) by (nonlinear_arith);
    }
}

/// A profile is at fault exactly where it has no sizes, no gaps or no weight, and the first one at
/// fault is told.
pub proof fn law_first_fault_is_told(profiles: Seq<ProtocolProfile>, i: int)
    requires
        0 <= i <= profiles.len(),
    ensures
        first_fault(profiles, i) is None <==> forall|k: int|
            i <= k < profiles.len() ==> (#[trigger] profiles[k]).packet_size_dist@.len() > 0
                && profiles[k].timing_dist@.len() > 0 && !is_weightless(profiles[k]),
        first_fault(profiles, i) is Some ==> exists|k: int|
            i <= k < profiles.len() && #[trigger] fault(profiles[k]) == first_fault(profiles, i)
                && forall|j: int| i <= j < k ==> fault(#[trigger] profiles[j]) is None,
    decreases profiles.len() - i,
{
    if i < profiles.len() {
        if fault(profiles[i]) is Some {
            assert(fault(profiles[i]) == first_fault(profiles, i));
            assert(!(profiles[i].packet_size_dist@.len() > 0 && profiles[i].timing_dist@.len() > 0
                && !is_weightless(profiles[i])));
        } else {
            law_first_fault_is_told(profiles, i + 1);
            if first_fault(profiles, i + 1) is Some {
                let k = choose|k: int|
                    i + 1 <= k < profiles.len() && #[trigger] fault(profiles[k]) == first_fault(
                        profiles,
                        i + 1,
                    ) && forall|j: int|
                        i + 1 <= j < k ==> fault(#[trigger] profiles[j]) is None;
                assert(fault(profiles[k]) == first_fault(profiles, i));
                let bad = choose|b: int|
                    i + 1 <= b < profiles.len() && !((#[trigger] profiles[b]).packet_size_dist@.len()
                        > 0 && profiles[b].timing_dist@.len() > 0 && !is_weightless(profiles[b]));
                assert(i <= bad < profiles.len());
            }
        }
    }
}

/// A risk is kept between nothing and one.
pub proof fn law_risks_are_kept_in_bounds(a: int, b: int)
    requires
        a <= b,
    ensures
        0 <= clamped_risk(a) <= clamped_risk(b) <= 1_000_000,
        0 <= a <= 1_000_000 ==> clamped_risk(a) == a,
{
}

/// Header and data together fill the drawn size, or hold all of the data; at least one byte of the
/// data goes along.
pub proof fn law_data_fills_what_the_header_leaves(target: int, header_len: int, data_len: int)
    requires
        header_len >= 0,
        data_len > 0,
    ensures
        1 <= payload_len(target, header_len, data_len) <= data_len,
        target > header_len ==> header_len + payload_len(target, header_len, data_len) <= target,
        payload_len(target, header_len, data_len) < data_len && target > header_len ==> header_len
            + payload_len(target, header_len, data_len) == target,
{
}

/// Padding is noise behind a header, where it is stamped, and as long as the noise.
pub proof fn law_padding_keeps_the_header(noise: Seq<u8>, header: Seq<u8>, i: int)
    requires
        0 <= i < noise.len(),
    ensures
        padding_of(noise, header, true).len() == noise.len(),
        padding_of(noise, header, false) == noise,
        i < header.len() ==> padding_of(noise, header, true)[i] == header[i],
        i >= header.len() ==> padding_of(noise, header, true)[i] == noise[i],
{
    assert(padding_of(noise, header, false) =~= noise);
}

/// A name finds the first profile that has it, and none where no profile does.
pub proof fn law_names_find_their_profile(profiles: Seq<ProtocolProfile>, name: Seq<char>, i: int)
    requires
        0 <= i <= profiles.len(),
    ensures
        named(profiles, name, i) matches Some(k) ==> i <= k < profiles.len() && profiles[k].name@
            == name && forall|j: int| i <= j < k ==> (#[trigger] profiles[j]).name@ != name,
        named(profiles, name, i) is None ==> forall|j: int|
            i <= j < profiles.len() ==> (#[trigger] profiles[j]).name@ != name,
    decreases profiles.len() - i,
{
    if i < profiles.len() && profiles[i].name@ != name {
        law_names_find_their_profile(profiles, name, i + 1);
    }
}

} // verus!
