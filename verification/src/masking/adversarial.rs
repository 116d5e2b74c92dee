//! Decisions that keep a flow's features near those of a game.
//!
//! Sizes are in millionths of a byte, gaps in nanoseconds, and fractions in millionths,
//! unless a name says otherwise.

use std::collections::VecDeque;

use crate::masking::averages::{compute_distance, Averages, Factors, Sighting};
use crate::masking::dpi_simulator::FEATURE_LIMIT;
use crate::masking::periodicity::masker_periodicity;
use crate::masking::statistical_model::ROLL_RANGE;
use crate::masking::traffic_target::TrafficTarget;
#[allow(unused_imports)]
use crate::masking::{averages, periodicity, traffic_target};
use crate::utils::random::random_between;
use crate::utils::spread::{cv_micro, divided, std_micro};
use crate::utils::wide::Wide;
#[allow(unused_imports)]
use crate::utils::wide;
use crate::utils::stats::{percentile, sorted};
#[allow(unused_imports)]
use crate::utils::{spread, stats};
use crate::utils::text::{decimal, join, push_char};
use crate::utils::window::{mean_of, sum_of};
#[allow(unused_imports)]
use crate::utils::{text, window};
use crate::utils::PhantomResult;
use vstd::prelude::*;
use vstd::string::StringExecFns;

verus! {

pub const DEFAULT_WINDOW_SIZE: usize = 256;

pub const DEFAULT_OPTIMIZE_INTERVAL: usize = 32;

pub const MIN_PACKET_SIZE: usize = 40;

pub const MAX_PACKET_SIZE: usize = 1500;

/// How many decisions are remembered.
pub const DECISION_MEMORY: usize = 128;

/// How many packets must have been seen before features are poisoned.
pub const POISONING_WARMUP: usize = 16;

/// How far back packets count as one burst, in milliseconds.
pub const BURST_WINDOW_MS: u64 = 100;

#[derive(Debug, Clone, Copy, PartialEq, Eq, Structural)]
pub enum PacketDirection {
    Up,
    Down,
}

#[derive(Debug, Clone, Copy, PartialEq, Eq, Structural)]
pub struct PacketRecord {
    pub size: usize,
    pub direction: PacketDirection,
    pub timestamp_us: u64,
    pub payload_entropy_micro: u64,
}

/// What to do with a packet. Delays are in milliseconds.
#[derive(Debug, Clone, Copy, PartialEq, Eq, Structural)]
pub enum MaskingDecision {
    SendNow,
    Delay(u64),
    Pad(usize),
    Split(usize),
    Merge,
    Drop,
}

/// Three digits of a fraction without the zeros at its end, and a point before it.
pub open spec fn fraction_text(ms: int) -> Seq<char> {
    if ms % 1000 == 0 {
        Seq::empty()
    } else if ms % 100 == 0 {
        seq!['.', text::digit_char(ms / 100 % 10)]
    } else if ms % 10 == 0 {
        seq!['.', text::digit_char(ms / 100 % 10), text::digit_char(ms / 10 % 10)]
    } else {
        seq![
            '.',
            text::digit_char(ms / 100 % 10),
            text::digit_char(ms / 10 % 10),
            text::digit_char(ms % 10),
        ]
    }
}

/// A whole number of milliseconds, in the largest unit of which there is one.
pub open spec fn duration_text(ms: nat) -> Seq<char> {
    if ms == 0 {
        "0ns"@
    } else if ms < 1000 {
        text::decimal_of(ms) + "ms"@
    } else {
        text::decimal_of(ms / 1000) + fraction_text(ms as int) + "s"@
    }
}

/// A whole number of milliseconds as text.
pub fn show_duration(ms: u64) -> (s: String)
    ensures
        s@ == duration_text(ms as nat),
{
    if ms == 0 {
        return "0ns".to_string();
    }
    if ms < 1000 {
        return join(decimal(ms as u128).as_str(), "ms");
    }
    let mut s = decimal((ms / 1000) as u128);
    let ghost whole = s@;
    if ms % 1000 != 0 {
        push_char(&mut s, '.');
        push_char(&mut s, text::digit((ms / 100 % 10) as u8));
        if ms % 100 != 0 {
            push_char(&mut s, text::digit((ms / 10 % 10) as u8));
            if ms % 10 != 0 {
                push_char(&mut s, text::digit((ms % 10) as u8));
            }
        }
    }
    assert(s@ =~= whole + fraction_text(ms as int));
    s.append("s");
    s
}

impl MaskingDecision {
    pub open spec fn label(self) -> Seq<char> {
        match self {
            MaskingDecision::SendNow => "SendNow"@,
            MaskingDecision::Delay(ms) => "Delay("@ + duration_text(ms as nat) + ")"@,
            MaskingDecision::Pad(n) => "Pad("@ + text::decimal_of(n as nat) + ")"@,
            MaskingDecision::Split(n) => "Split("@ + text::decimal_of(n as nat) + ")"@,
            MaskingDecision::Merge => "Merge"@,
            MaskingDecision::Drop => "Drop"@,
        }
    }

    pub fn to_text(&self) -> (s: String)
        ensures
            s@ == self.label(),
    {
        match *self {
            MaskingDecision::SendNow => "SendNow".to_string(),
            MaskingDecision::Delay(ms) => join(
                join("Delay(", show_duration(ms).as_str()).as_str(),
                ")",
            ),
            MaskingDecision::Pad(n) => join(join("Pad(", decimal(n as u128).as_str()).as_str(), ")"),
            MaskingDecision::Split(n) => join(
                join("Split(", decimal(n as u128).as_str()).as_str(),
                ")",
            ),
            MaskingDecision::Merge => "Merge".to_string(),
            MaskingDecision::Drop => "Drop".to_string(),
        }
    }

    /// The size on the wire of a packet of `original` bytes after the decision.
    pub open spec fn effective(self, original: int) -> int {
        match self {
            MaskingDecision::SendNow => original,
            MaskingDecision::Delay(_) => original,
            MaskingDecision::Pad(n) => original + n,
            MaskingDecision::Split(n) => original / if n < 1 {
                1
            } else {
                n as int
            },
            MaskingDecision::Merge => 2 * original,
            MaskingDecision::Drop => 0,
        }
    }
}

#[derive(Debug, Clone, Copy, PartialEq, Eq, Structural)]
pub struct DecisionRecord {
    pub decision: MaskingDecision,
    pub original_size: usize,
    pub effective_size: usize,
    pub timestamp_us: u64,
}

/// What is drawn for one decision. Rolls are below [`ROLL_RANGE`] and stand for parts of it.
#[derive(Debug, Clone, Copy, PartialEq, Eq, Structural)]
pub struct MaskingDraws {
    pub poison_roll: u64,
    /// Size and gap of a poisoned packet.
    pub poison_size_roll: u64,
    pub poison_gap_roll: u64,
    /// Size and gap to aim for.
    pub size_roll: u64,
    pub gap_roll: u64,
    /// How far the gap is moved against periodicity, in nanoseconds.
    pub jitter_ns: i64,
    /// How much longer an early packet, and one of a burst, waits.
    pub delay_roll: u64,
    pub burst_roll: u64,
}

impl MaskingDraws {
    pub open spec fn wf(self) -> bool {
        &&& self.poison_roll < ROLL_RANGE
        &&& self.poison_size_roll < ROLL_RANGE
        &&& self.poison_gap_roll < ROLL_RANGE
        &&& self.size_roll < ROLL_RANGE
        &&& self.gap_roll < ROLL_RANGE
        &&& self.delay_roll < ROLL_RANGE
        &&& self.burst_roll < ROLL_RANGE
    }
}

/// The part of `span` that a roll stands for.
pub open spec fn rolled(span: int, roll: int) -> int {
    span * roll / ROLL_RANGE as int
}

fn roll_part(span: u128, roll: u64) -> (x: u128)
    requires
        roll < ROLL_RANGE,
    ensures
        x == rolled(span as int, roll as int),
        x <= span,
{
    assert(0 <= span * roll / 0x20_0000_0000_0000 <= span) by (nonlinear_arith)
        requires
            0 <= roll < 0x20_0000_0000_0000,
            span >= 0,
    ;
    Wide::product(span, roll as u128).over(Wide::of(ROLL_RANGE as u128))
}

/// `x` moved into `low..=high`.
pub open spec fn within(x: int, low: int, high: int) -> int {
    averages::within(x, low, high)
}

/// `x` bytes moved into `low..=high`.
fn size_within(x: u128, low: usize, high: usize) -> (r: usize)
    requires
        low <= high,
    ensures
        r == within(x as int, low as int, high as int),
        low <= r <= high,
{
    if x < low as u128 {
        low
    } else if x > high as u128 {
        high
    } else {
        x as usize
    }
}

/// The decision for a poisoned packet: a size and a gap anywhere within one deviation of the
/// target's means, the gap at least a millisecond.
pub open spec fn poisoned(t: TrafficTarget, d: MaskingDraws) -> MaskingDecision {
    let bytes = (t.size_dist.mean - t.size_dist.std + rolled(
        2 * t.size_dist.std,
        d.poison_size_roll as int,
    )) / 1_000_000;
    let gap = t.timing_dist.mean_iat - t.timing_dist.std_iat + rolled(
        2 * t.timing_dist.std_iat,
        d.poison_gap_roll as int,
    );
    let size = within(bytes, MIN_PACKET_SIZE as int, MAX_PACKET_SIZE as int);
    if size > 64 {
        MaskingDecision::Pad((size / 4) as usize)
    } else {
        MaskingDecision::Delay(
            if gap < 1_000_000 {
                1
            } else {
                (gap / 1_000_000) as u64
            },
        )
    }
}

/// The decision for a poisoned packet.
pub fn generate_poisoning_decision(t: &TrafficTarget, d: &MaskingDraws) -> (r: MaskingDecision)
    requires
        t.wf(),
        d.wf(),
    ensures
        r == poisoned(*t, *d),
{
    let (mean, std) = (t.size_dist.mean as i128, t.size_dist.std as u128);
    let micro: i128 = mean - std as i128 + roll_part(2 * std, d.poison_size_roll) as i128;
    let size: usize = if micro < 0 {
        MIN_PACKET_SIZE
    } else {
        size_within((micro / 1_000_000) as u128, MIN_PACKET_SIZE, MAX_PACKET_SIZE)
    };
    if size > 64 {
        return MaskingDecision::Pad(size / 4);
    }
    let (mean, std) = (t.timing_dist.mean_iat as i128, t.timing_dist.std_iat);
    let gap: i128 = mean - std as i128 + roll_part(2 * std, d.poison_gap_roll) as i128;
    MaskingDecision::Delay(if gap < 1_000_000 { 1 } else { (gap / 1_000_000) as u64 })
}

/// What a decision on a packet is made from.
#[derive(Debug, Clone, Copy, PartialEq, Eq, Structural)]
pub struct Standing {
    /// Time since the packet before.
    pub gap_ns: u128,
    /// How bursty the flow is right now.
    pub burstiness: u64,
    /// How far the flow is from its target.
    pub distance: u128,
    /// How sizes are scaled for the tail of their distribution, in hundredths.
    pub tail_x100: u64,
}

impl Standing {
    pub open spec fn wf(self) -> bool {
        &&& self.gap_ns <= FEATURE_LIMIT
        &&& self.tail_x100 <= 200
    }
}

/// How many deviations a packet's size is from the average.
pub open spec fn size_deviation(size: int, average: int, std: int) -> int {
    if average == 0 {
        0
    } else {
        spread::quotient(
            1_000_000 * (1_000_000 * size - average),
            if std < 1 {
                1
            } else {
                std
            },
        )
    }
}

/// The size to aim for.
pub open spec fn target_size(t: TrafficTarget, f: Factors, tail_x100: int, roll: int) -> int {
    traffic_target::quantile_at(t.size_cdf@, roll) * f.padding / 1_000_000 * tail_x100 / 100
}

/// The gap to aim for: at least a millisecond.
pub open spec fn target_gap(t: TrafficTarget, f: Factors, roll: int, jitter_ns: int) -> int {
    let gap = traffic_target::quantile_at(t.iat_cdf@, roll) * f.delay / 1_000_000 + jitter_ns;
    if gap < 1_000_000 {
        1_000_000
    } else {
        gap
    }
}

/// The decision for an ordinary packet: the first reason that applies. A packet below the
/// smallest size is padded; one that is too large is split; one that is too small, in a flow
/// that is off its target, is merged; one that is early waits; one that is smaller than its
/// target is padded, if there is room for four bytes more; and one of a burst waits.
pub open spec fn decided(
    size: int,
    s: Standing,
    average: int,
    t: TrafficTarget,
    f: Factors,
    d: MaskingDraws,
) -> MaskingDecision {
    let aim = target_size(t, f, s.tail_x100 as int, d.size_roll as int);
    let gap = target_gap(t, f, d.gap_roll as int, d.jitter_ns as int);
    let off = size_deviation(size, average, t.size_dist.std as int);
    let room = MAX_PACKET_SIZE - size;
    let missing = if aim / 1_000_000 > size {
        aim / 1_000_000 - size
    } else {
        0
    };
    let early = gap - s.gap_ns;
    let wait = if early < 1_000_000 {
        1_000_000
    } else {
        early
    };
    let lack = aim - 1_000_000 * size;
    let padding = lack * f.padding / 1_000_000 / 2 / 1_000_000;
    let pause = 3 * t.timing_dist.mean_iat / 10 / 1_000_000;
    if size < MIN_PACKET_SIZE {
        MaskingDecision::Pad(within(missing * f.padding / 1_000_000, 4, room) as usize)
    } else if off > f.split {
        MaskingDecision::Split(
            (if aim == 0 {
                8
            } else {
                within(1_000_000 * size / aim, 2, 8)
            }) as usize,
        )
    } else if off < -f.merge && s.distance > 500_000 {
        MaskingDecision::Merge
    } else if 10 * s.gap_ns < 6 * gap {
        MaskingDecision::Delay(
            ((wait + rolled(3 * wait / 10, d.delay_roll as int)) / 1_000_000) as u64,
        )
    } else if lack > 0 && 2 * lack > t.size_dist.std && padding > 4 && room >= 4 {
        MaskingDecision::Pad(within(padding, 4, room) as usize)
    } else if 2 * s.burstiness > 3 * t.timing_dist.burstiness {
        MaskingDecision::Delay((pause + rolled(pause / 2 + 1, d.burst_roll as int)) as u64)
    } else {
        MaskingDecision::SendNow
    }
}

/// No decision makes a packet larger than the largest size, splits it into fewer than two or
/// more than eight parts, or drops it; and what waits because it is early waits at least a
/// millisecond.
pub proof fn law_decisions_keep_to_limits(
    size: int,
    s: Standing,
    average: int,
    t: TrafficTarget,
    f: Factors,
    d: MaskingDraws,
)
    requires
        0 <= size,
    ensures
        decided(size, s, average, t, f, d) matches MaskingDecision::Pad(n) ==> 4 <= n && size + n
            <= MAX_PACKET_SIZE,
        decided(size, s, average, t, f, d) matches MaskingDecision::Split(n) ==> 2 <= n <= 8,
        !(decided(size, s, average, t, f, d) is Drop),
        poisoned(t, d) matches MaskingDecision::Pad(n) ==> 16 <= n && 4 * n <= MAX_PACKET_SIZE,
{
}

/// The decision for an ordinary packet of `data_size` bytes.
#[verifier::rlimit(40)]
pub fn compute_decision(
    data_size: usize,
    s: &Standing,
    average: u128,
    t: &TrafficTarget,
    f: &Factors,
    d: &MaskingDraws,
) -> (r: MaskingDecision)
    requires
        s.wf(),
        average <= FEATURE_LIMIT,
        t.wf(),
        f.wf(),
        d.wf(),
        data_size <= isize::MAX,
    ensures
        r == decided(data_size as int, *s, average as int, *t, *f, *d),
{
    let size: i128 = data_size as i128;
    let (pad, stretch) = (f.padding as u128, f.delay as u128);
    let drawn_size: u128 = t.sample_target_size(d.size_roll) as u128;
    let drawn_gap: u128 = t.sample_target_iat(d.gap_roll) as u128;
    proof {
        assert(0 <= drawn_size * pad <= 3_000_000 * 0x1_0000_0000_0000_0000) by (nonlinear_arith)
            requires
                0 <= drawn_size <= 0x1_0000_0000_0000_0000,
                0 <= pad <= 3_000_000,
        ;
        assert(0 <= drawn_gap * stretch <= 3_000_000 * 0x1_0000_0000_0000_0000) by (nonlinear_arith)
            requires
                0 <= drawn_gap <= 0x1_0000_0000_0000_0000,
                0 <= stretch <= 3_000_000,
        ;
    }
    let padded: u128 = drawn_size * pad / 1_000_000;
    let tail: u128 = s.tail_x100 as u128;
    assert(0 <= padded * tail <= 600 * 0x1_0000_0000_0000_0000) by (nonlinear_arith)
        requires
            0 <= padded <= 3 * 0x1_0000_0000_0000_0000,
            0 <= tail <= 200,
    ;
    let aim: u128 = padded * tail / 100;
    assert(aim == target_size(*t, *f, s.tail_x100 as int, d.size_roll as int));
    let moved: i128 = (drawn_gap * stretch / 1_000_000) as i128 + d.jitter_ns as i128;
    let gap: i128 = if moved < 1_000_000 {
        1_000_000
    } else {
        moved
    };
    assert(gap == target_gap(*t, *f, d.gap_roll as int, d.jitter_ns as int));
    if data_size < MIN_PACKET_SIZE {
        let whole: u128 = aim / 1_000_000;
        let missing: u128 = if whole > data_size as u128 {
            whole - data_size as u128
        } else {
            0
        };
        assert(0 <= missing * pad <= 0x1_0000_0000_0000_0000 * 3_000_000) by (nonlinear_arith)
            requires
                0 <= missing <= 0x1_0000_0000_0000_0000,
                0 <= pad <= 3_000_000,
        ;
        return MaskingDecision::Pad(
            size_within(missing * pad / 1_000_000, 4, MAX_PACKET_SIZE - data_size),
        );
    }
    let off: i128 = if average == 0 {
        0
    } else {
        let unit: i128 = if t.size_dist.std < 1 {
            1
        } else {
            t.size_dist.std as i128
        };
        divided(1_000_000 * (1_000_000 * size - average as i128), unit)
    };
    assert(off == size_deviation(size as int, average as int, t.size_dist.std as int));
    if off > f.split as i128 {
        if aim == 0 {
            return MaskingDecision::Split(8);
        }
        return MaskingDecision::Split(size_within(1_000_000 * (data_size as u128) / aim, 2, 8));
    }
    if off < -(f.merge as i128) && s.distance > 500_000 {
        return MaskingDecision::Merge;
    }
    let since: i128 = s.gap_ns as i128;
    if 10 * since < 6 * gap {
        let early: i128 = gap - since;
        let wait: u128 = if early < 1_000_000 {
            1_000_000
        } else {
            early as u128
        };
        let more: u128 = roll_part(3 * wait / 10, d.delay_roll);
        return MaskingDecision::Delay(((wait + more) / 1_000_000) as u64);
    }
    let lack: i128 = aim as i128 - 1_000_000 * size;
    if lack > 0 && 2 * lack > t.size_dist.std as i128 {
        let short: u128 = lack as u128;
        assert(0 <= short * pad <= 6 * 0x1_0000_0000_0000_0000 * 3_000_000) by (nonlinear_arith)
            requires
                0 <= short <= 6 * 0x1_0000_0000_0000_0000,
                0 <= pad <= 3_000_000,
        ;
        let padding: u128 = short * pad / 1_000_000 / 2 / 1_000_000;
        if padding > 4 && data_size <= MAX_PACKET_SIZE - 4 {
            return MaskingDecision::Pad(size_within(padding, 4, MAX_PACKET_SIZE - data_size));
        }
    }
    if 2 * (s.burstiness as u128) > 3 * (t.timing_dist.burstiness as u128) {
        let pause: u128 = 3 * t.timing_dist.mean_iat / 10 / 1_000_000;
        let more: u128 = roll_part(pause / 2 + 1, d.burst_roll);
        return MaskingDecision::Delay((pause + more) as u64);
    }
    MaskingDecision::SendNow
}

/// How likely features are poisoned: eight hundredths, and more the farther a flow is from its
/// target, but at most a quarter.
pub open spec fn poisoning_rate(distance: int) -> int {
    periodicity::capped(80_000 + 4 * distance / 100, 250_000)
}

/// Statistics of the window; the percentiles are in hundredths of a byte.
#[derive(Debug, Clone, Copy, PartialEq, Eq, Structural)]
pub struct WindowStats {
    pub packet_count: usize,
    pub mean_size: u128,
    pub std_size: u128,
    pub min_size: u64,
    pub max_size: u64,
    pub p25_size_x100: u128,
    pub p50_size_x100: u128,
    pub p75_size_x100: u128,
    pub p95_size_x100: u128,
    pub averages: Averages,
    pub periodicity: u64,
}

#[derive(Debug)]
pub struct AdversarialMasker {
    pub target: TrafficTarget,
    pub averages: Averages,
    pub factors: Factors,
    pub recent_decisions: VecDeque<DecisionRecord>,
    pub dpi_window: Vec<PacketRecord>,
    pub window_size: usize,
    pub last_packet_time_us: Option<u64>,
    pub optimize_counter: usize,
    pub optimize_interval: usize,
    pub poisoning_counter: usize,
    pub bytes_up: u64,
    pub bytes_down: u64,
    pub total_packets: usize,
    pub burst_window: VecDeque<u64>,
    pub burst_window_ms: u64,
}

/// A counter after one more, which starts over after the largest number.
pub open spec fn bumped(n: usize) -> usize {
    if n == usize::MAX {
        0
    } else {
        (n + 1) as usize
    }
}

fn bump(n: usize) -> (r: usize)
    ensures
        r == bumped(n),
{
    if n == usize::MAX {
        0
    } else {
        n + 1
    }
}

/// `s` from its first element that is not before `cutoff` on.
pub open spec fn from_cutoff(s: Seq<u64>, cutoff: int) -> Seq<u64>
    decreases s.len(),
{
    if s.len() == 0 || s[0] >= cutoff {
        s
    } else {
        from_cutoff(s.subrange(1, s.len() as int), cutoff)
    }
}

/// The start of the burst window.
pub open spec fn cutoff_of(now_us: int, window_ms: int) -> int {
    if now_us >= 1000 * window_ms {
        now_us - 1000 * window_ms
    } else {
        0
    }
}

/// Gaps between packets that follow one another at different times.
pub open spec fn positive_gaps(w: Seq<PacketRecord>, n: int) -> Seq<u64>
    decreases n,
{
    if n <= 1 {
        Seq::empty()
    } else if w[n - 1].timestamp_us > w[n - 2].timestamp_us {
        positive_gaps(w, n - 1).push(
            (w[n - 1].timestamp_us - w[n - 2].timestamp_us) as u64,
        )
    } else {
        positive_gaps(w, n - 1)
    }
}

/// How regular the packets in a window come: nothing for fewer than 32 packets or 16 gaps.
pub open spec fn regularity_of(w: Seq<PacketRecord>) -> int {
    let gaps = positive_gaps(w, w.len() as int);
    if w.len() < 32 || gaps.len() < 16 {
        0
    } else {
        periodicity::masker_periodicity_of(gaps)
    }
}

/// The sizes in a window.
pub open spec fn sizes_of(w: Seq<PacketRecord>) -> Seq<u64> {
    w.map_values(|p: PacketRecord| p.size as u64)
}

/// How sizes are scaled for the tail of their distribution: down where the largest twentieth
/// begins a fifth too high, up where it begins a fifth too low.
pub open spec fn tail_of(w: Seq<PacketRecord>, target_p95: int) -> int {
    let p95 = 10_000 * stats::percentile_of(stats::in_order(sizes_of(w)), 95);
    if w.len() < 16 {
        100
    } else if 10 * p95 > 12 * target_p95 {
        85
    } else if 10 * p95 < 8 * target_p95 {
        115
    } else {
        100
    }
}

/// Gaps between neighbours; none where the later one reads earlier.
pub open spec fn gaps_of(t: Seq<u64>) -> Seq<u64>
    decreases t.len(),
{
    if t.len() <= 1 {
        Seq::empty()
    } else {
        let (a, b) = (t[t.len() - 2], t[t.len() - 1]);
        gaps_of(t.drop_last()).push(
            (if b >= a {
                b - a
            } else {
                0
            }) as u64,
        )
    }
}

/// The times that are not before `cutoff`.
pub open spec fn recent_times(times: Seq<u64>, cutoff: int) -> Seq<u64> {
    times.filter(|t: u64| t >= cutoff)
}

/// How bursty the packets since `cutoff` come: how much their gaps vary, at most five times
/// their mean.
pub open spec fn burst_now(times: Seq<u64>, cutoff: int) -> int {
    let recent = recent_times(times, cutoff);
    if recent.len() < 2 {
        0
    } else {
        periodicity::capped(spread::cv_micro_of(gaps_of(recent)), 5_000_000)
    }
}

/// The statistics of the sizes in a window, in ascending order.
pub open spec fn stats_of(
    sizes: Seq<u64>,
    t: Seq<u64>,
    averages: Averages,
    regularity: int,
) -> WindowStats {
    WindowStats {
        packet_count: t.len() as usize,
        mean_size: window::mean_micro_of(sizes) as u128,
        std_size: spread::std_micro_of(sizes) as u128,
        min_size: t[0],
        max_size: t.last(),
        p25_size_x100: stats::percentile_of(t, 25) as u128,
        p50_size_x100: stats::percentile_of(t, 50) as u128,
        p75_size_x100: stats::percentile_of(t, 75) as u128,
        p95_size_x100: stats::percentile_of(t, 95) as u128,
        averages,
        periodicity: regularity as u64,
    }
}

/// The statistics of an empty window.
pub open spec fn no_stats() -> WindowStats {
    WindowStats {
        packet_count: 0,
        mean_size: 0,
        std_size: 0,
        min_size: 0,
        max_size: 0,
        p25_size_x100: 0,
        p50_size_x100: 0,
        p75_size_x100: 0,
        p95_size_x100: 0,
        averages: Averages {
            packet_size: 0,
            inter_packet_time: 0,
            burstiness: 0,
            entropy: 0,
            direction_ratio: 0,
        },
        periodicity: 0,
    }
}

/// The time since a packet, in microseconds; none where it reads later than now.
pub open spec fn since(last: Option<u64>, now_us: u64) -> Option<u64> {
    match last {
        Some(t) => Some(
            (if now_us >= t {
                now_us - t
            } else {
                0
            }) as u64,
        ),
        None => None,
    }
}

fn time_since(last: Option<u64>, now_us: u64) -> (r: Option<u64>)
    ensures
        r == since(last, now_us),
{
    match last {
        Some(t) => Some(if now_us >= t { now_us - t } else { 0 }),
        None => None,
    }
}

impl AdversarialMasker {
    /// Neither memory outgrows its limit, and averages and factors stay in their ranges.
    pub open spec fn wf(&self) -> bool {
        &&& self.target.wf()
        &&& self.averages.wf()
        &&& self.factors.wf()
        &&& self.recent_decisions@.len() <= DECISION_MEMORY
        &&& self.dpi_window@.len() <= self.window_size
        &&& self.window_size == DEFAULT_WINDOW_SIZE
        &&& self.optimize_counter < self.optimize_interval
        &&& 0 < self.burst_window_ms <= 1_000_000
        &&& self.burst_window@.len() <= spread::MOST
    }

    /// Whether nothing has been seen or decided yet.
    pub open spec fn is_fresh(&self) -> bool {
        &&& self.wf()
        &&& self.averages == Averages::none()
        &&& self.factors == (Factors {
            padding: 1_000_000,
            delay: 1_000_000,
            split: 2_000_000,
            merge: 500_000,
            phase_x100: 0,
        })
        &&& self.recent_decisions@.len() == 0
        &&& self.dpi_window@.len() == 0
        &&& self.last_packet_time_us is None
        &&& self.optimize_counter == 0
        &&& self.optimize_interval == DEFAULT_OPTIMIZE_INTERVAL
        &&& self.poisoning_counter == 0
        &&& self.bytes_up == 0
        &&& self.bytes_down == 0
        &&& self.total_packets == 0
        &&& self.burst_window@.len() == 0
        &&& self.burst_window_ms == BURST_WINDOW_MS
    }

    /// Whether two maskers agree in what they have seen of the flow and in their limits.
    pub open spec fn same_flow(&self, other: &AdversarialMasker) -> bool {
        &&& self.target == other.target
        &&& self.averages == other.averages
        &&& self.dpi_window == other.dpi_window
        &&& self.window_size == other.window_size
        &&& self.optimize_interval == other.optimize_interval
        &&& self.bytes_up == other.bytes_up
        &&& self.bytes_down == other.bytes_down
        &&& self.total_packets == other.total_packets
        &&& self.burst_window == other.burst_window
        &&& self.burst_window_ms == other.burst_window_ms
    }

    pub fn new(target: TrafficTarget) -> (r: PhantomResult<Self>)
        requires
            target.wf(),
        ensures
            r matches Ok(m) && m.is_fresh() && m.target == target,
    {
        Ok(
            AdversarialMasker {
                target,
                averages: Averages::new(),
                factors: Factors::new(),
                recent_decisions: VecDeque::new(),
                dpi_window: Vec::new(),
                window_size: DEFAULT_WINDOW_SIZE,
                last_packet_time_us: None,
                optimize_counter: 0,
                optimize_interval: DEFAULT_OPTIMIZE_INTERVAL,
                poisoning_counter: 0,
                bytes_up: 0,
                bytes_down: 0,
                total_packets: 0,
                burst_window: VecDeque::new(),
                burst_window_ms: BURST_WINDOW_MS,
            },
        )
    }

    /// How far the flow is from its target.
    pub open spec fn distance(&self) -> int {
        averages::distance_of(self.averages, self.target, regularity_of(self.dpi_window@))
    }

    /// What a decision at `now_us` is made from.
    pub open spec fn standing(&self, now_us: u64) -> Standing {
        Standing {
            gap_ns: match since(self.last_packet_time_us, now_us) {
                Some(us) => (1000 * us) as u128,
                None => 0,
            },
            burstiness: burst_now(
                self.burst_window@,
                cutoff_of(now_us as int, self.burst_window_ms as int),
            ) as u64,
            distance: self.distance() as u128,
            tail_x100: tail_of(self.dpi_window@, self.target.size_dist.p95 as int) as u64,
        }
    }

    /// Whether a roll poisons the features of a packet: not before enough packets have been
    /// seen.
    pub open spec fn poisons(&self, roll: int) -> bool {
        self.total_packets >= POISONING_WARMUP && 1_000_000 * roll < poisoning_rate(
            self.distance(),
        ) * ROLL_RANGE
    }

    /// Whether a roll poisons the features of a packet.
    pub fn should_poison(&self, roll: u64) -> (b: bool)
        requires
            self.wf(),
            roll < ROLL_RANGE,
        ensures
            b == self.poisons(roll as int),
    {
        if self.total_packets < POISONING_WARMUP {
            return false;
        }
        let distance: u128 = self.compute_feature_distance();
        let rate: u128 = 80_000 + 4 * distance / 100;
        let capped: u128 = if rate > 250_000 {
            250_000
        } else {
            rate
        };
        1_000_000 * (roll as u128) < capped * (ROLL_RANGE as u128)
    }

    /// How far the flow is from its target.
    pub fn compute_feature_distance(&self) -> (d: u128)
        requires
            self.wf(),
        ensures
            d == self.distance(),
            d <= 1_000_000 * FEATURE_LIMIT,
    {
        let regularity: u64 = self.detect_periodicity();
        compute_distance(&self.averages, &self.target, regularity)
    }

    /// How far the flow is from its target.
    pub fn feature_distance(&self) -> (d: u128)
        requires
            self.wf(),
        ensures
            d == self.distance(),
    {
        self.compute_feature_distance()
    }

    /// Whether this masker, deciding `d` on a packet of `size` bytes with given draws, ends up
    /// as `after`. A poisoned packet leaves no trace but in the counter of packets decided
    /// on; any other is remembered, and every so often the factors are adapted after one.
    pub open spec fn decides(
        &self,
        size: int,
        draws: MaskingDraws,
        now_us: u64,
        after: AdversarialMasker,
        d: MaskingDecision,
    ) -> bool {
        &&& d == self.decision_for(size, draws, now_us)
        &&& after.same_flow(self)
        &&& after.poisoning_counter == bumped(self.poisoning_counter)
        &&& if self.poisons(draws.poison_roll as int) {
            &&& after.recent_decisions == self.recent_decisions
            &&& after.last_packet_time_us == self.last_packet_time_us
            &&& after.optimize_counter == self.optimize_counter
            &&& after.factors == self.factors
        } else {
            let due = self.optimize_counter + 1 >= self.optimize_interval;
            &&& after.optimize_counter == if due {
                0
            } else {
                self.optimize_counter + 1
            }
            &&& after.factors == if due {
                self.factors.adapted(
                    self.averages,
                    self.target,
                    regularity_of(self.dpi_window@),
                )
            } else {
                self.factors
            }
            &&& after.last_packet_time_us == Some(now_us)
            &&& after.recent_decisions@ == window::slid(
                self.recent_decisions@,
                DecisionRecord {
                    decision: d,
                    original_size: size as usize,
                    effective_size: d.effective(size) as usize,
                    timestamp_us: now_us,
                },
                DECISION_MEMORY as int,
            )
        }
    }

    /// Decides on a packet with given draws. A poisoned packet leaves no trace but in the
    /// counter of packets decided on; any other is remembered, and every so often the factors
    /// are adapted after one.
    pub fn decide_with(&mut self, incoming_data: &[u8], draws: &MaskingDraws, now_us: u64) -> (d:
        MaskingDecision)
        requires
            old(self).wf(),
            draws.wf(),
            incoming_data@.len() <= isize::MAX,
        ensures
            final(self).wf(),
            old(self).decides(
                incoming_data@.len() as int,
                *draws,
                now_us,
                *final(self),
                d,
            ),
    {
        let data_size: usize = incoming_data.len();
        self.poisoning_counter = bump(self.poisoning_counter);
        if self.should_poison(draws.poison_roll) {
            return generate_poisoning_decision(&self.target, draws);
        }
        let gap_ns: u128 = match time_since(self.last_packet_time_us, now_us) {
            Some(us) => 1000 * (us as u128),
            None => 0,
        };
        let standing = Standing {
            gap_ns,
            burstiness: self.compute_current_burstiness(now_us),
            distance: self.compute_feature_distance(),
            tail_x100: self.compute_tail_adjustment(),
        };
        assert(standing == self.standing(now_us));
        let decision = compute_decision(
            data_size,
            &standing,
            self.averages.packet_size,
            &self.target,
            &self.factors,
            draws,
        );
        proof {
            law_decisions_keep_to_limits(
                data_size as int,
                standing,
                self.averages.packet_size as int,
                self.target,
                self.factors,
                *draws,
            );
        }
        self.record_decision(decision, data_size, now_us);
        self.last_packet_time_us = Some(now_us);
        if self.optimize_counter + 1 >= self.optimize_interval {
            self.optimize_counter = 0;
            self.optimize();
        } else {
            self.optimize_counter = self.optimize_counter + 1;
        }
        decision
    }

    /// Decides on a packet. `jitter_ns` is how far its gap is moved against periodicity.
    pub fn decide(&mut self, incoming_data: &[u8], jitter_ns: i64, now_us: u64) -> (d:
        MaskingDecision)
        requires
            old(self).wf(),
            incoming_data@.len() <= isize::MAX,
        ensures
            final(self).wf(),
            exists|draws: MaskingDraws|
                draws.wf() && draws.jitter_ns == jitter_ns && #[trigger] old(self).decides(
                    incoming_data@.len() as int,
                    draws,
                    now_us,
                    *final(self),
                    d,
                ),
    {
        let draws = MaskingDraws {
            poison_roll: random_between(0, ROLL_RANGE - 1),
            poison_size_roll: random_between(0, ROLL_RANGE - 1),
            poison_gap_roll: random_between(0, ROLL_RANGE - 1),
            size_roll: random_between(0, ROLL_RANGE - 1),
            gap_roll: random_between(0, ROLL_RANGE - 1),
            jitter_ns,
            delay_roll: random_between(0, ROLL_RANGE - 1),
            burst_roll: random_between(0, ROLL_RANGE - 1),
        };
        let d = self.decide_with(incoming_data, &draws, now_us);
        assert(old(self).decides(incoming_data@.len() as int, draws, now_us, *self, d));
        d
    }

    /// What is decided on a packet with given draws.
    pub open spec fn decision_for(&self, size: int, draws: MaskingDraws, now_us: u64) -> MaskingDecision {
        if self.poisons(draws.poison_roll as int) {
            poisoned(self.target, draws)
        } else {
            decided(
                size,
                self.standing(now_us),
                self.averages.packet_size as int,
                self.target,
                self.factors,
                draws,
            )
        }
    }

    /// Adapts the factors to how far the averages are from the target.
    pub fn optimize(&mut self)
        requires
            old(self).wf(),
        ensures
            final(self).wf(),
            final(self).same_flow(old(self)),
            final(self).factors == old(self).factors.adapted(
                old(self).averages,
                old(self).target,
                regularity_of(old(self).dpi_window@),
            ),
            final(self).recent_decisions == old(self).recent_decisions,
            final(self).last_packet_time_us == old(self).last_packet_time_us,
            final(self).optimize_counter == old(self).optimize_counter,
            final(self).poisoning_counter == old(self).poisoning_counter,
    {
        let regularity: u64 = self.detect_periodicity();
        let mut factors = self.factors;
        factors.adapt(&self.averages, &self.target, regularity);
        self.factors = factors;
    }

    /// Remembers a decision.
    pub fn record_decision(&mut self, decision: MaskingDecision, original_size: usize, now_us: u64)
        requires
            old(self).wf(),
            decision.effective(original_size as int) <= usize::MAX,
        ensures
            final(self).wf(),
            final(self).same_flow(old(self)),
            final(self).recent_decisions@ == window::slid(
                old(self).recent_decisions@,
                DecisionRecord {
                    decision,
                    original_size,
                    effective_size: decision.effective(original_size as int) as usize,
                    timestamp_us: now_us,
                },
                DECISION_MEMORY as int,
            ),
            final(self).factors == old(self).factors,
            final(self).last_packet_time_us == old(self).last_packet_time_us,
            final(self).optimize_counter == old(self).optimize_counter,
            final(self).poisoning_counter == old(self).poisoning_counter,
    {
        let effective_size: usize = match decision {
            MaskingDecision::SendNow => original_size,
            MaskingDecision::Delay(_) => original_size,
            MaskingDecision::Pad(n) => original_size + n,
            MaskingDecision::Split(n) => original_size / (if n < 1 { 1 } else { n }),
            MaskingDecision::Merge => 2 * original_size,
            MaskingDecision::Drop => 0,
        };
        if self.recent_decisions.len() >= DECISION_MEMORY {
            self.recent_decisions.pop_front();
        }
        self.recent_decisions.push_back(
            DecisionRecord { decision, original_size, effective_size, timestamp_us: now_us },
        );
    }

    /// What a packet brings to the averages, once the windows and counters hold it.
    pub open spec fn sighting(&self, packet: PacketRecord, gap_us: Option<u64>) -> Sighting {
        Sighting {
            size: packet.size,
            entropy_micro: packet.payload_entropy_micro,
            gap_us,
            bytes_up: self.bytes_up,
            bytes_down: self.bytes_down,
            burst_count: self.burst_window@.len() as usize,
            burst_window_ms: self.burst_window_ms,
        }
    }

    /// Takes a packet into the windows, counters and averages. There is room for it in the burst
    /// window.
    pub fn update_statistics(&mut self, packet: &PacketRecord, now_us: u64)
        requires
            old(self).wf(),
            old(self).burst_window@.len() < spread::MOST,
        ensures
            final(self).wf(),
            final(self).dpi_window@ == window::slid(
                old(self).dpi_window@,
                *packet,
                old(self).window_size as int,
            ),
            final(self).bytes_up == (old(self).bytes_up + if packet.direction
                == PacketDirection::Up {
                packet.size as int
            } else {
                0
            }) % 0x1_0000_0000_0000_0000,
            final(self).bytes_down == (old(self).bytes_down + if packet.direction
                == PacketDirection::Down {
                packet.size as int
            } else {
                0
            }) % 0x1_0000_0000_0000_0000,
            final(self).total_packets == bumped(old(self).total_packets),
            final(self).burst_window@ == from_cutoff(
                old(self).burst_window@.push(packet.timestamp_us),
                cutoff_of(now_us as int, old(self).burst_window_ms as int),
            ),
            final(self).averages == old(self).averages.after(
                final(self).sighting(*packet, since(old(self).last_packet_time_us, now_us)),
                old(self).target.packets_per_second as int,
            ),
            final(self).last_packet_time_us == Some(now_us),
            final(self).target == old(self).target,
            final(self).factors == old(self).factors,
            final(self).recent_decisions == old(self).recent_decisions,
            final(self).window_size == old(self).window_size,
            final(self).optimize_counter == old(self).optimize_counter,
            final(self).optimize_interval == old(self).optimize_interval,
            final(self).poisoning_counter == old(self).poisoning_counter,
            final(self).burst_window_ms == old(self).burst_window_ms,
    {
        if self.dpi_window.len() >= self.window_size {
            let _ = self.dpi_window.remove(0);
        }
        self.dpi_window.push(*packet);
        assert(self.dpi_window@ =~= window::slid(
            old(self).dpi_window@,
            *packet,
            old(self).window_size as int,
        ));
        match packet.direction {
            PacketDirection::Up => {
                self.bytes_up = self.bytes_up.wrapping_add(packet.size as u64);
            },
            PacketDirection::Down => {
                self.bytes_down = self.bytes_down.wrapping_add(packet.size as u64);
            },
        }
        self.total_packets = bump(self.total_packets);
        let gap_us: Option<u64> = time_since(self.last_packet_time_us, now_us);
        self.slide_burst_window(packet.timestamp_us, now_us);
        let s = Sighting {
            size: packet.size,
            entropy_micro: packet.payload_entropy_micro,
            gap_us,
            bytes_up: self.bytes_up,
            bytes_down: self.bytes_down,
            burst_count: self.burst_window.len(),
            burst_window_ms: self.burst_window_ms,
        };
        let mut averages = self.averages;
        averages.update(&s, self.target.packets_per_second);
        self.averages = averages;
        self.last_packet_time_us = Some(now_us);
    }

    /// Puts a time into the burst window and takes out what has become too old at its front.
    fn slide_burst_window(&mut self, time_us: u64, now_us: u64)
        requires
            old(self).burst_window_ms <= 1_000_000,
        ensures
            final(self).burst_window@ == from_cutoff(
                old(self).burst_window@.push(time_us),
                cutoff_of(now_us as int, old(self).burst_window_ms as int),
            ),
            *final(self) == (AdversarialMasker {
                burst_window: final(self).burst_window,
                ..*old(self)
            }),
            final(self).burst_window@.len() <= old(self).burst_window@.len() + 1,
    {
        let span: u64 = 1000 * self.burst_window_ms;
        let cutoff: u64 = if now_us >= span { now_us - span } else { 0 };
        self.burst_window.push_back(time_us);
        let ghost all = self.burst_window@;
        while self.burst_window.len() > 0 && self.burst_window[0] < cutoff
            invariant
                from_cutoff(self.burst_window@, cutoff as int) == from_cutoff(all, cutoff as int),
                *self == (AdversarialMasker { burst_window: self.burst_window, ..*old(self) }),
                self.burst_window@.len() <= old(self).burst_window@.len() + 1,
            decreases self.burst_window@.len(),
        {
            self.burst_window.pop_front();
        }
    }

    /// How regular the packets in the window come.
    pub fn detect_periodicity(&self) -> (p: u64)
        requires
            self.wf(),
        ensures
            p == regularity_of(self.dpi_window@),
            p <= 1_000_000,
    {
        let n: usize = self.dpi_window.len();
        if n < 32 {
            return 0;
        }
        let mut gaps: Vec<u64> = Vec::new();
        let mut i: usize = 1;
        while i < n
            invariant
                1 <= i <= n,
                n == self.dpi_window@.len(),
                gaps@ == positive_gaps(self.dpi_window@, i as int),
                gaps@.len() < i,
            decreases n - i,
        {
            let before: u64 = self.dpi_window[i - 1].timestamp_us;
            let after: u64 = self.dpi_window[i].timestamp_us;
            if after > before {
                gaps.push(after - before);
            }
            i = i + 1;
        }
        if gaps.len() < 16 {
            return 0;
        }
        masker_periodicity(gaps.as_slice())
    }

    /// The sizes in the window, oldest first.
    fn window_sizes(&self) -> (sizes: Vec<u64>)
        ensures
            sizes@ == sizes_of(self.dpi_window@),
    {
        let mut sizes: Vec<u64> = Vec::new();
        let mut i: usize = 0;
        while i < self.dpi_window.len()
            invariant
                i <= self.dpi_window@.len(),
                sizes@ == sizes_of(self.dpi_window@).take(i as int),
            decreases self.dpi_window@.len() - i,
        {
            sizes.push(self.dpi_window[i].size as u64);
            i = i + 1;
            assert(sizes@ =~= sizes_of(self.dpi_window@).take(i as int));
        }
        assert(sizes_of(self.dpi_window@).take(i as int) =~= sizes_of(self.dpi_window@));
        sizes
    }

    /// How sizes are scaled for the tail of their distribution, in hundredths.
    pub fn compute_tail_adjustment(&self) -> (x100: u64)
        ensures
            x100 == tail_of(self.dpi_window@, self.target.size_dist.p95 as int),
            x100 <= 200,
    {
        if self.dpi_window.len() < 16 {
            return 100;
        }
        let sizes = self.window_sizes();
        let t = sorted(sizes.as_slice());
        proof {
            stats::lemma_in_order(t@, sizes@);
            stats::lemma_sorts_len(t@, sizes@);
            stats::lemma_percentile_bounds(t@, 95);
        }
        let p95: u128 = 10_000 * percentile(t.as_slice(), 95);
        let target: u128 = self.target.size_dist.p95 as u128;
        if 10 * p95 > 12 * target {
            85
        } else if 10 * p95 < 8 * target {
            115
        } else {
            100
        }
    }

    /// How bursty the flow is right now, in millionths.
    pub fn compute_current_burstiness(&self, now_us: u64) -> (b: u64)
        requires
            self.wf(),
        ensures
            b == burst_now(
                self.burst_window@,
                cutoff_of(now_us as int, self.burst_window_ms as int),
            ),
            b <= 5_000_000,
    {
        let span: u64 = 1000 * self.burst_window_ms;
        let cutoff: u64 = if now_us >= span { now_us - span } else { 0 };
        let recent = self.times_since(cutoff);
        if recent.len() < 2 {
            return 0;
        }
        let gaps = gaps_between(&recent);
        let cv: u64 = cv_micro(gaps.as_slice());
        if cv > 5_000_000 {
            5_000_000
        } else {
            cv
        }
    }

    /// The times in the burst window that are not before `cutoff`.
    fn times_since(&self, cutoff: u64) -> (kept: Vec<u64>)
        ensures
            kept@ == recent_times(self.burst_window@, cutoff as int),
            kept@.len() <= self.burst_window@.len(),
    {
        let ghost keep = |t: u64| t >= cutoff as int;
        let mut kept: Vec<u64> = Vec::new();
        let mut i: usize = 0;
        proof {
            reveal(Seq::filter);
            assert(self.burst_window@.subrange(0, 0).filter(keep) =~= Seq::empty());
        }
        while i < self.burst_window.len()
            invariant
                i <= self.burst_window@.len(),
                keep == (|t: u64| t >= cutoff as int),
                kept@ == self.burst_window@.subrange(0, i as int).filter(keep),
                kept@.len() <= i,
            decreases self.burst_window@.len() - i,
        {
            let t: u64 = self.burst_window[i];
            proof {
                reveal(Seq::filter);
                let upto = self.burst_window@.subrange(0, i + 1);
                assert(upto.drop_last() =~= self.burst_window@.subrange(0, i as int));
                assert(upto.last() == t);
            }
            if t >= cutoff {
                kept.push(t);
            }
            i = i + 1;
        }
        assert(self.burst_window@.subrange(0, i as int) =~= self.burst_window@);
        kept
    }

    /// Statistics of the window, all zero for an empty one.
    pub fn window_stats(&self) -> (w: WindowStats)
        requires
            self.wf(),
        ensures
            w == (if self.dpi_window@.len() == 0 {
                no_stats()
            } else {
                stats_of(
                    sizes_of(self.dpi_window@),
                    stats::in_order(sizes_of(self.dpi_window@)),
                    self.averages,
                    regularity_of(self.dpi_window@),
                )
            }),
    {
        let sizes = self.window_sizes();
        let t = sorted(sizes.as_slice());
        proof {
            stats::lemma_in_order(t@, sizes@);
            stats::lemma_sorts_len(t@, sizes@);
            window::lemma_total_bounds(sizes@);
        }
        let n: usize = t.len();
        if n == 0 {
            return WindowStats {
                packet_count: 0,
                mean_size: 0,
                std_size: 0,
                min_size: 0,
                max_size: 0,
                p25_size_x100: 0,
                p50_size_x100: 0,
                p75_size_x100: 0,
                p95_size_x100: 0,
                averages: Averages {
                    packet_size: 0,
                    inter_packet_time: 0,
                    burstiness: 0,
                    entropy: 0,
                    direction_ratio: 0,
                },
                periodicity: 0,
            };
        }
        let sum: u128 = sum_of(sizes.as_slice());
        WindowStats {
            packet_count: n,
            mean_size: mean_of(sum, n),
            std_size: std_micro(sizes.as_slice()),
            min_size: t[0],
            max_size: t[n - 1],
            p25_size_x100: percentile(t.as_slice(), 25),
            p50_size_x100: percentile(t.as_slice(), 50),
            p75_size_x100: percentile(t.as_slice(), 75),
            p95_size_x100: percentile(t.as_slice(), 95),
            averages: self.averages,
            periodicity: self.detect_periodicity(),
        }
    }

    /// The last decision.
    pub open spec fn last_decision(&self) -> Option<MaskingDecision> {
        if self.recent_decisions@.len() == 0 {
            None
        } else {
            Some(self.recent_decisions@.last().decision)
        }
    }

    fn last(&self) -> (d: Option<MaskingDecision>)
        ensures
            d == self.last_decision(),
    {
        let n: usize = self.recent_decisions.len();
        if n == 0 {
            None
        } else {
            Some(self.recent_decisions[n - 1].decision)
        }
    }

    /// The delay, in milliseconds, that was decided on last.
    pub fn get_pending_delay(&self) -> (d: Option<u64>)
        ensures
            d == match self.last_decision() {
                Some(MaskingDecision::Delay(ms)) => Some(ms),
                _ => None,
            },
    {
        match self.last() {
            Some(MaskingDecision::Delay(ms)) => Some(ms),
            _ => None,
        }
    }

    pub fn get_pending_padding(&self) -> (d: Option<usize>)
        ensures
            d == match self.last_decision() {
                Some(MaskingDecision::Pad(n)) => Some(n),
                _ => None,
            },
    {
        match self.last() {
            Some(MaskingDecision::Pad(n)) => Some(n),
            _ => None,
        }
    }

    pub fn get_pending_split(&self) -> (d: Option<usize>)
        ensures
            d == match self.last_decision() {
                Some(MaskingDecision::Split(n)) => Some(n),
                _ => None,
            },
    {
        match self.last() {
            Some(MaskingDecision::Split(n)) => Some(n),
            _ => None,
        }
    }

    pub fn should_merge(&self) -> (b: bool)
        ensures
            b == (self.last_decision() == Some(MaskingDecision::Merge)),
    {
        match self.last() {
            Some(MaskingDecision::Merge) => true,
            _ => false,
        }
    }

    pub fn should_drop(&self) -> (b: bool)
        ensures
            b == (self.last_decision() == Some(MaskingDecision::Drop)),
    {
        match self.last() {
            Some(MaskingDecision::Drop) => true,
            _ => false,
        }
    }
}

/// Gaps between neighbours.
fn gaps_between(t: &Vec<u64>) -> (gaps: Vec<u64>)
    requires
        0 < t@.len(),
    ensures
        gaps@ == gaps_of(t@),
        gaps@.len() < t@.len(),
{
    let mut gaps: Vec<u64> = Vec::new();
    let mut k: usize = 1;
    while k < t.len()
        invariant
            1 <= k <= t@.len(),
            gaps@ == gaps_of(t@.subrange(0, k as int)),
            gaps@.len() < k,
        decreases t@.len() - k,
    {
        let (before, after): (u64, u64) = (t[k - 1], t[k]);
        proof {
            let upto = t@.subrange(0, k + 1);
            assert(upto.drop_last() =~= t@.subrange(0, k as int));
        }
        gaps.push(
            if after >= before {
                after - before
            } else {
                0
            },
        );
        k = k + 1;
    }
    assert(t@.subrange(0, t@.len() as int) =~= t@);
    gaps
}

/// The quartiles of a window come in order.
pub proof fn law_window_quartiles_ascend(w: Seq<PacketRecord>)
    ensures
        ({
            let t = stats::in_order(sizes_of(w));
            stats::percentile_of(t, 25) <= stats::percentile_of(t, 50)
                && stats::percentile_of(t, 50) <= stats::percentile_of(t, 75)
                && stats::percentile_of(t, 75) <= stats::percentile_of(t, 95)
        }),
{
    let t = stats::in_order(sizes_of(w));
    stats::lemma_order_exists(sizes_of(w));
    stats::law_percentiles_ascend(t, 25, 50);
    stats::law_percentiles_ascend(t, 50, 75);
    stats::law_percentiles_ascend(t, 75, 95);
}

// ---- What decisions keep to ----

/// The unit in which sizes are apart from their average: the target's deviation.
pub open spec fn size_unit(t: TrafficTarget) -> int {
    if t.size_dist.std < 1 {
        1
    } else {
        t.size_dist.std as int
    }
}

/// A size that is `k` deviations above its average, or below for a negative `k`, is counted as `k`
/// deviations.
pub proof fn law_deviations_are_counted(size: int, average: int, std: int, k: int)
    requires
        average > 0,
        std >= 1,
        1_000_000 * size - average == k * std,
    ensures
        size_deviation(size, average, std) == 1_000_000 * k,
{
    let a = 1_000_000 * (k * std);
    if k >= 0 {
        assert(a >= 0 && a / std == 1_000_000 * k) by (nonlinear_arith)
            requires
                a == 1_000_000 * (k * std),
                std >= 1,
                k >= 0,
        ;
    } else {
        assert(a < 0 && (-a) / std == -1_000_000 * k) by (nonlinear_arith)
            requires
                a == 1_000_000 * (k * std),
                std >= 1,
                k < 0,
        ;
    }
}

/// A deviation beyond or within a bound, without the division.
proof fn lemma_deviation(size: int, average: int, t: TrafficTarget, bound: int)
    requires
        average > 0,
        bound >= 0,
    ensures
        ({
            let off = size_deviation(size, average, t.size_dist.std as int);
            let x = 1_000_000 * (1_000_000 * size - average);
            &&& x >= (bound + 1) * size_unit(t) ==> off > bound
            &&& x <= bound * size_unit(t) ==> off <= bound
            &&& x <= -(bound + 1) * size_unit(t) ==> off < -bound
            &&& x >= -bound * size_unit(t) ==> off >= -bound
        }),
{
    let u = size_unit(t);
    let x = 1_000_000 * (1_000_000 * size - average);
    let off = size_deviation(size, average, t.size_dist.std as int);
    assert(off == spread::quotient(x, u));
    if x >= 0 {
        let q = x / u;
        assert(q >= 0 && (x >= (bound + 1) * u ==> q > bound) && (x <= bound * u ==> q <= bound))
            by (nonlinear_arith)
            requires
                q == x / u,
                u >= 1,
                x >= 0,
                bound >= 0,
        ;
        assert(-(bound + 1) * u < 0) by (nonlinear_arith)
            requires
                u >= 1,
                bound >= 0,
        ;
    } else {
        let (y, q) = (-x, (-x) / u);
        assert(q >= 0 && (y >= (bound + 1) * u ==> q > bound) && (y <= bound * u ==> q <= bound))
            by (nonlinear_arith)
            requires
                q == y / u,
                u >= 1,
                y >= 0,
                bound >= 0,
        ;
        assert(-(bound + 1) * u == -((bound + 1) * u) && -bound * u == -(bound * u) && (bound + 1)
            * u > 0) by (nonlinear_arith)
            requires
                u >= 1,
                bound >= 0,
        ;
    }
}

/// A packet that is too large by more deviations than packets are split at is split: into as many
/// parts as its size is times the size to aim for, but into two at least and eight at most.
pub proof fn law_too_large_packets_are_split(
    size: int,
    s: Standing,
    average: int,
    t: TrafficTarget,
    f: Factors,
    d: MaskingDraws,
)
    requires
        size >= 40,
        average > 0,
        1_000_000 * (1_000_000 * size - average) >= (f.split + 1) * size_unit(t),
        target_size(t, f, s.tail_x100 as int, d.size_roll as int) >= 0,
    ensures
        decided(size, s, average, t, f, d) matches MaskingDecision::Split(n) && {
            let aim = target_size(t, f, s.tail_x100 as int, d.size_roll as int);
            &&& 2 <= n <= 8
            &&& n > 2 ==> n * aim <= 1_000_000 * size
            &&& n < 8 ==> (n + 1) * aim > 1_000_000 * size
        },
{
    lemma_deviation(size, average, t, f.split as int);
    let aim = target_size(t, f, s.tail_x100 as int, d.size_roll as int);
    if aim > 0 {
        let (x, q) = (1_000_000 * size, 1_000_000 * size / aim);
        assert(q * aim <= x < (q + 1) * aim) by (nonlinear_arith)
            requires
                q == x / aim,
                aim > 0,
        ;
        let n = within(q, 2, 8);
        if n > 2 {
            assert(n * aim <= q * aim) by (nonlinear_arith)
                requires
                    n <= q,
                    aim > 0,
            ;
        }
        if n < 8 {
            assert((q + 1) * aim <= (n + 1) * aim) by (nonlinear_arith)
                requires
                    q <= n,
                    aim > 0,
            ;
        }
    } else {
        assert(8 * aim <= 0) by (nonlinear_arith)
            requires
                aim == 0,
        ;
    }
}

/// A packet that is not too large is not split.
pub proof fn law_other_packets_stay_whole(
    size: int,
    s: Standing,
    average: int,
    t: TrafficTarget,
    f: Factors,
    d: MaskingDraws,
)
    requires
        average > 0,
        1_000_000 * (1_000_000 * size - average) <= f.split * size_unit(t),
    ensures
        !(decided(size, s, average, t, f, d) is Split),
{
    lemma_deviation(size, average, t, f.split as int);
}

/// A packet that is too small by more deviations than packets are merged at waits for others where
/// the flow is more than half off its target, and only there.
pub proof fn law_too_small_packets_are_merged(
    size: int,
    s: Standing,
    average: int,
    t: TrafficTarget,
    f: Factors,
    d: MaskingDraws,
)
    requires
        size >= 40,
        average > 0,
    ensures
        1_000_000 * (average - 1_000_000 * size) >= (f.merge + 1) * size_unit(t) && s.distance
            > 500_000 ==> decided(size, s, average, t, f, d) is Merge,
        1_000_000 * (average - 1_000_000 * size) <= f.merge * size_unit(t) || s.distance <= 500_000
            ==> !(decided(size, s, average, t, f, d) is Merge),
{
    lemma_deviation(size, average, t, f.merge as int);
    let u = size_unit(t);
    let (m, b) = ((f.merge + 1) * u, f.merge * u);
    assert(-(f.merge + 1) * u == -m && -f.merge * u == -b && m > 0) by (nonlinear_arith)
        requires
            m == (f.merge + 1) * u,
            b == f.merge * u,
            u >= 1,
    ;
    lemma_deviation(size, average, t, f.split as int);
    assert(0 <= f.split * u) by (nonlinear_arith)
        requires
            u >= 1,
    ;
}

/// A packet below 40 bytes is padded by four bytes at least. Where nothing is scaled, it is padded
/// to the size to aim for, as far as packets go.
pub proof fn law_tiny_packets_are_padded(
    size: int,
    s: Standing,
    average: int,
    t: TrafficTarget,
    f: Factors,
    d: MaskingDraws,
)
    requires
        0 <= size < 40,
    ensures
        decided(size, s, average, t, f, d) matches MaskingDecision::Pad(n) && {
            let aim = target_size(t, f, s.tail_x100 as int, d.size_roll as int);
            &&& 4 <= n <= 1500 - size
            &&& f.padding == 1_000_000 && 1_000_000 * (size + 4) <= aim < 1_501_000_000
                ==> 1_000_000 * (size + n) <= aim < 1_000_000 * (size + n + 1)
            &&& f.padding == 1_000_000 && aim >= 1_500_000_000 ==> size + n == 1500
        },
{
    let aim = target_size(t, f, s.tail_x100 as int, d.size_roll as int);
    let missing = if aim / 1_000_000 > size {
        aim / 1_000_000 - size
    } else {
        0
    };
    if f.padding == 1_000_000 {
        assert(missing * f.padding / 1_000_000 == missing) by (nonlinear_arith)
            requires
                f.padding == 1_000_000,
        ;
    }
}

/// A packet of a fitting size that comes before six tenths of the gap to aim for have passed waits
/// for the rest of the gap, for a millisecond at least, and for no more than three tenths longer.
pub proof fn law_early_packets_wait_for_the_gap(
    size: int,
    s: Standing,
    average: int,
    t: TrafficTarget,
    f: Factors,
    d: MaskingDraws,
)
    requires
        size >= 40,
        average > 0,
        d.wf(),
        1_000_000 * (1_000_000 * size - average) <= f.split * size_unit(t),
        s.distance <= 500_000,
        10 * s.gap_ns < 6 * target_gap(t, f, d.gap_roll as int, d.jitter_ns as int),
        target_gap(t, f, d.gap_roll as int, d.jitter_ns as int) <= 4 * u64::MAX,
    ensures
        decided(size, s, average, t, f, d) matches MaskingDecision::Delay(ms) && {
            let rest = target_gap(t, f, d.gap_roll as int, d.jitter_ns as int) - s.gap_ns;
            let least = if rest < 1_000_000 {
                1_000_000
            } else {
                rest
            };
            &&& ms >= 1
            &&& 1_000_000 * ms + 1_000_000 > least
            &&& 10_000_000 * ms <= 13 * least
        },
{
    lemma_deviation(size, average, t, f.split as int);
    let rest = target_gap(t, f, d.gap_roll as int, d.jitter_ns as int) - s.gap_ns;
    let least = if rest < 1_000_000 {
        1_000_000
    } else {
        rest
    };
    lemma_rolled(3 * least / 10, d.delay_roll as int);
    let ms = (least + rolled(3 * least / 10, d.delay_roll as int)) / 1_000_000;
    assert(1 <= ms <= u64::MAX);
}

/// A roll stands for a part of what it is rolled for.
proof fn lemma_rolled(span: int, roll: int)
    requires
        span >= 0,
        0 <= roll < ROLL_RANGE,
    ensures
        0 <= rolled(span, roll) <= span,
        span > 0 ==> rolled(span, roll) < span,
        rolled(span, 0) == 0,
{
    assert(0 <= span * roll / 0x20_0000_0000_0000 <= span) by (nonlinear_arith)
        requires
            0 <= roll < 0x20_0000_0000_0000,
            span >= 0,
    ;
    if span > 0 {
        assert(span * roll / 0x20_0000_0000_0000 < span) by (nonlinear_arith)
            requires
                0 <= roll < 0x20_0000_0000_0000,
                span > 0,
        ;
    }
}

/// A packet of a fitting size that is not early but shorter than the size to aim for, by more than
/// half a deviation, is padded by half of what it lacks, scaled, where that is more than four
/// bytes and there is room.
pub proof fn law_short_packets_are_padded_half_way(
    size: int,
    s: Standing,
    average: int,
    t: TrafficTarget,
    f: Factors,
    d: MaskingDraws,
)
    requires
        40 <= size <= 1496,
        average > 0,
        1_000_000 * (1_000_000 * size - average) <= f.split * size_unit(t),
        s.distance <= 500_000,
        10 * s.gap_ns >= 6 * target_gap(t, f, d.gap_roll as int, d.jitter_ns as int),
        2 * (target_size(t, f, s.tail_x100 as int, d.size_roll as int) - 1_000_000 * size)
            > t.size_dist.std,
    ensures
        ({
            let lack = (target_size(t, f, s.tail_x100 as int, d.size_roll as int) - 1_000_000
                * size) * f.padding;
            lack >= 10_000_000_000_000 ==> (decided(size, s, average, t, f, d) matches MaskingDecision::Pad(
                n,
            ) && {
                &&& 4 < n || size + n == 1500
                &&& size + n <= 1500
                &&& 2_000_000_000_000 * n <= lack
                &&& size + n < 1500 ==> lack < 2_000_000_000_000 * (n + 1)
            })
        }),
{
    lemma_deviation(size, average, t, f.split as int);
    let lack = (target_size(t, f, s.tail_x100 as int, d.size_roll as int) - 1_000_000 * size)
        * f.padding;
    let padding = lack / 1_000_000 / 2 / 1_000_000;
    assert(padding == lack / 2_000_000_000_000) by {
        assert(lack / 1_000_000 / 2 / 1_000_000 == lack / 2_000_000_000_000);
    }
}

/// What goes out at once is neither tiny nor too large, nor early, nor part of a burst that is half
/// as strong again as the target's.
pub proof fn law_packets_are_sent_only_when_they_fit(
    size: int,
    s: Standing,
    average: int,
    t: TrafficTarget,
    f: Factors,
    d: MaskingDraws,
)
    requires
        average > 0,
        decided(size, s, average, t, f, d) is SendNow,
    ensures
        size >= 40,
        1_000_000 * (1_000_000 * size - average) < (f.split + 1) * size_unit(t),
        10 * s.gap_ns >= 6 * target_gap(t, f, d.gap_roll as int, d.jitter_ns as int),
        2 * s.burstiness <= 3 * t.timing_dist.burstiness,
        1_000_000 * (average - 1_000_000 * size) < (f.merge + 1) * size_unit(t) || s.distance
            <= 500_000,
{
    lemma_deviation(size, average, t, f.split as int);
    lemma_deviation(size, average, t, f.merge as int);
    let u = size_unit(t);
    let m = (f.merge + 1) * u;
    assert(-(f.merge + 1) * u == -m) by (nonlinear_arith)
        requires
            m == (f.merge + 1) * u,
    ;
}

/// A packet of a burst that is half as strong again as the target's, and fits otherwise, waits for
/// three tenths of the target's mean gap, and for no more than half as long again.
pub proof fn law_bursts_are_slowed_down(
    size: int,
    s: Standing,
    average: int,
    t: TrafficTarget,
    f: Factors,
    d: MaskingDraws,
)
    requires
        size >= 40,
        average > 0,
        d.wf(),
        t.wf(),
        1_000_000 * (1_000_000 * size - average) <= f.split * size_unit(t),
        s.distance <= 500_000,
        10 * s.gap_ns >= 6 * target_gap(t, f, d.gap_roll as int, d.jitter_ns as int),
        target_size(t, f, s.tail_x100 as int, d.size_roll as int) <= 1_000_000 * size,
        2 * s.burstiness > 3 * t.timing_dist.burstiness,
    ensures
        decided(size, s, average, t, f, d) matches MaskingDecision::Delay(ms) && (
        t.timing_dist.mean_iat <= u64::MAX ==> {
            &&& 10_000_000 * (ms + 1) > 3 * t.timing_dist.mean_iat
            &&& 20_000_000 * ms <= 9 * t.timing_dist.mean_iat + 20_000_000
        }),
{
    lemma_deviation(size, average, t, f.split as int);
    let pause = 3 * t.timing_dist.mean_iat as int / 10 / 1_000_000;
    lemma_rolled(pause / 2 + 1, d.burst_roll as int);
}

/// The size to aim for is the drawn one, scaled by the factor for padding and the one for the tail.
pub proof fn law_aim_is_the_drawn_size_scaled(t: TrafficTarget, f: Factors, tail_x100: int, roll: int)
    requires
        tail_x100 >= 0,
        traffic_target::quantile_at(t.size_cdf@, roll) >= 0,
    ensures
        ({
            let drawn = traffic_target::quantile_at(t.size_cdf@, roll);
            let aim = target_size(t, f, tail_x100, roll);
            &&& f.padding == 1_000_000 && tail_x100 == 100 ==> aim == drawn
            &&& 100_000_000 * aim <= drawn * f.padding * tail_x100
            &&& 100_000_000 * (aim + 1) + 1_000_000 * tail_x100 > drawn * f.padding * tail_x100
        }),
{
    let drawn = traffic_target::quantile_at(t.size_cdf@, roll);
    let (p, x) = (f.padding as int, tail_x100);
    let a = drawn * p / 1_000_000;
    let b = a * x / 100;
    assert(1_000_000 * a <= drawn * p < 1_000_000 * a + 1_000_000);
    assert(100 * b <= a * x < 100 * b + 100);
    assert(drawn * p * x >= 1_000_000 * (a * x) && drawn * p * x <= 1_000_000 * (a * x) + 1_000_000
        * x) by (nonlinear_arith)
        requires
            1_000_000 * a <= drawn * p < 1_000_000 * a + 1_000_000,
            x >= 0,
    ;
    if p == 1_000_000 {
        assert(drawn * p == 1_000_000 * drawn) by (nonlinear_arith)
            requires
                p == 1_000_000,
        ;
    }
    if x == 100 {
        assert(a * x == 100 * a) by (nonlinear_arith)
            requires
                x == 100,
        ;
    }
}

/// The gap to aim for is the drawn one, scaled and moved, and a millisecond at least.
pub proof fn law_aimed_gap_is_the_drawn_gap_scaled(
    t: TrafficTarget,
    f: Factors,
    roll: int,
    jitter_ns: int,
)
    ensures
        ({
            let drawn = traffic_target::quantile_at(t.iat_cdf@, roll);
            let gap = target_gap(t, f, roll, jitter_ns);
            &&& gap >= 1_000_000
            &&& f.delay == 1_000_000 && drawn + jitter_ns >= 1_000_000 ==> gap == drawn + jitter_ns
            &&& gap > 1_000_000 ==> 1_000_000 * (gap - jitter_ns) <= drawn * f.delay < 1_000_000 * (
            gap - jitter_ns + 1)
        }),
{
    let drawn = traffic_target::quantile_at(t.iat_cdf@, roll);
    let p = f.delay as int;
    if p == 1_000_000 {
        assert(drawn * p == 1_000_000 * drawn) by (nonlinear_arith)
            requires
                p == 1_000_000,
        ;
    }
}

/// A poisoned packet is padded by a quarter of a size within one deviation of the target's mean, or
/// waits for a gap within one deviation of the target's mean, in milliseconds.
pub proof fn law_poison_looks_like_the_target(t: TrafficTarget, d: MaskingDraws)
    requires
        t.wf(),
        d.wf(),
        t.timing_dist.mean_iat + t.timing_dist.std_iat <= u64::MAX,
    ensures
        poisoned(t, d) is Pad || poisoned(t, d) is Delay,
        poisoned(t, d) matches MaskingDecision::Pad(n) ==> {
            &&& 4_000_000 * n <= t.size_dist.mean + t.size_dist.std
            &&& 4 * n <= 1500
            &&& 4 * (n + 1) < 1500 ==> 4_000_000 * (n + 1) >= t.size_dist.mean - t.size_dist.std
                - 1_000_000
        },
        poisoned(t, d) matches MaskingDecision::Delay(ms) ==> {
            &&& ms >= 1
            &&& 1_000_000 * (ms + 1) > t.timing_dist.mean_iat - t.timing_dist.std_iat
            &&& ms > 1 ==> 1_000_000 * ms <= t.timing_dist.mean_iat + t.timing_dist.std_iat
        },
        t.size_dist.mean - t.size_dist.std >= 65_000_000 ==> poisoned(t, d) is Pad,
        t.size_dist.mean + t.size_dist.std < 65_000_000 ==> poisoned(t, d) is Delay,
{
    lemma_rolled(2 * t.size_dist.std as int, d.poison_size_roll as int);
    lemma_rolled(2 * t.timing_dist.std_iat as int, d.poison_gap_roll as int);
}

/// Packets are poisoned more often the farther a flow is from its target: at least eight in a
/// hundred, and at most one in four.
pub proof fn law_poisoning_grows_with_distance(near: int, far: int)
    requires
        0 <= near <= far,
    ensures
        poisoning_rate(near) <= poisoning_rate(far),
        80_000 <= poisoning_rate(near) <= 250_000,
        poisoning_rate(0) == 80_000,
        100 * (poisoning_rate(near) - 80_000) <= 4 * near,
        far >= 4_250_000 ==> poisoning_rate(far) == 250_000,
        far < 4_250_000 ==> 100 * (poisoning_rate(far) - 79_999) > 4 * far,
{
}

/// Nothing is poisoned before sixteen packets have been seen; from then on the lowest rolls poison
/// always and the highest three quarters never.
pub proof fn law_poisoning_starts_late(m: AdversarialMasker, roll: int)
    requires
        m.wf(),
        0 <= roll < ROLL_RANGE,
        m.distance() >= 0,
    ensures
        m.total_packets < 16 ==> !m.poisons(roll),
        m.total_packets >= 16 && 100 * roll < 8 * ROLL_RANGE ==> m.poisons(roll),
        4 * roll >= ROLL_RANGE ==> !m.poisons(roll),
{
    law_poisoning_grows_with_distance(m.distance(), m.distance());
    let rate = poisoning_rate(m.distance());
    assert(80_000 * 0x20_0000_0000_0000 <= rate * 0x20_0000_0000_0000 <= 250_000
        * 0x20_0000_0000_0000) by (nonlinear_arith)
        requires
            80_000 <= rate <= 250_000,
    ;
}

/// Sizes are scaled down where the largest packets of a full window are too large, and up where they
/// are too small.
pub proof fn law_tail_is_pulled_to_the_target(w: Seq<PacketRecord>, target_p95: int)
    requires
        target_p95 > 0,
    ensures
        ({
            let p95 = 10_000 * stats::percentile_of(stats::in_order(sizes_of(w)), 95);
            &&& tail_of(w, target_p95) < 100 <==> w.len() >= 16 && 10 * p95 > 12 * target_p95
            &&& tail_of(w, target_p95) > 100 <==> w.len() >= 16 && 10 * p95 < 8 * target_p95
            &&& 85 <= tail_of(w, target_p95) <= 115
        }),
{
}

/// The burst window keeps what is not older than itself: what is left in it starts with such a
/// time, and is the end of what was in it.
pub proof fn law_burst_window_drops_the_old(s: Seq<u64>, cutoff: int)
    ensures
        from_cutoff(s, cutoff).len() <= s.len(),
        from_cutoff(s, cutoff) == s.skip(s.len() - from_cutoff(s, cutoff).len()),
        from_cutoff(s, cutoff).len() > 0 ==> from_cutoff(s, cutoff)[0] >= cutoff,
        forall|i: int|
            0 <= i < s.len() - from_cutoff(s, cutoff).len() ==> #[trigger] s[i] < cutoff,
    decreases s.len(),
{
    if s.len() == 0 || s[0] >= cutoff {
        assert(s.skip(0) =~= s);
    } else {
        let rest = s.subrange(1, s.len() as int);
        law_burst_window_drops_the_old(rest, cutoff);
        let kept = from_cutoff(rest, cutoff);
        assert(rest.skip(rest.len() - kept.len()) =~= s.skip(s.len() - kept.len()));
        assert forall|i: int| 0 <= i < s.len() - kept.len() implies #[trigger] s[i] < cutoff by {
            if i > 0 {
                assert(rest[i - 1] == s[i]);
            }
        }
    }
}

/// The window reaches back as many milliseconds as it is long.
pub proof fn law_burst_window_reaches_back(now_us: int, window_ms: int)
    requires
        0 <= now_us,
        0 <= window_ms,
    ensures
        0 <= cutoff_of(now_us, window_ms) <= now_us,
        now_us >= 1000 * window_ms ==> now_us - cutoff_of(now_us, window_ms) == 1000 * window_ms,
        now_us < 1000 * window_ms ==> cutoff_of(now_us, window_ms) == 0,
{
}

/// A decision never makes data out of nothing: what is split goes out in parts that together are no
/// longer than the packet, what is padded grows by the padding, what is delayed stays as it is, and
/// what is merged doubles.
pub proof fn law_effective_sizes(size: int, n: usize, ms: u64)
    requires
        size >= 0,
    ensures
        MaskingDecision::SendNow.effective(size) == size,
        MaskingDecision::Delay(ms).effective(size) == size,
        MaskingDecision::Pad(n).effective(size) - size == n,
        n >= 1 ==> MaskingDecision::Split(n).effective(size) * n <= size < (
        MaskingDecision::Split(n).effective(size) + 1) * n,
        MaskingDecision::Merge.effective(size) - size == size,
        MaskingDecision::Drop.effective(size) == 0,
{
    if n >= 1 {
        let q = size / n as int;
        assert(q * n <= size < (q + 1) * n) by (nonlinear_arith)
            requires
                q == size / n as int,
                n >= 1,
        ;
    }
}

/// A decision is remembered, but for a poisoned packet's, which leaves everything as it was: else
/// the last decision is the one just made, at its time, and the factors are adapted once every
/// `optimize_interval` decisions and not in between.
pub proof fn law_decisions_are_remembered(
    m: AdversarialMasker,
    size: int,
    draws: MaskingDraws,
    now_us: u64,
    after: AdversarialMasker,
    d: MaskingDecision,
)
    requires
        m.decides(size, draws, now_us, after, d),
    ensures
        m.poisons(draws.poison_roll as int) ==> after.last_decision() == m.last_decision()
            && after.factors == m.factors && after.last_packet_time_us == m.last_packet_time_us
            && after.optimize_counter == m.optimize_counter,
        !m.poisons(draws.poison_roll as int) ==> {
            &&& after.last_decision() == Some(d)
            &&& after.last_packet_time_us == Some(now_us)
            &&& after.recent_decisions@.last().original_size == size as usize
            &&& after.recent_decisions@.last().timestamp_us == now_us
            &&& m.optimize_counter + 1 < m.optimize_interval ==> after.factors == m.factors
                && after.optimize_counter == m.optimize_counter + 1
            &&& m.optimize_counter + 1 >= m.optimize_interval ==> after.optimize_counter == 0
        },
        m.poisoning_counter < usize::MAX ==> after.poisoning_counter == m.poisoning_counter + 1,
{
}

/// The gap that a decision goes by is the time since the last packet, in nanoseconds; there is none
/// before any packet, nor where the clock ran back.
pub proof fn law_gaps_are_counted_from_the_last_packet(m: AdversarialMasker, now_us: u64)
    ensures
        m.last_packet_time_us is None ==> m.standing(now_us).gap_ns == 0,
        m.last_packet_time_us matches Some(t) ==> {
            &&& now_us >= t ==> m.standing(now_us).gap_ns == 1000 * (now_us - t)
            &&& now_us <= t ==> m.standing(now_us).gap_ns == 0
        },
{
}

/// A further time adds its gap from the one before it.
pub proof fn law_times_add_their_gaps(t: Seq<u64>, x: u64)
    requires
        t.len() > 0,
    ensures
        gaps_of(t.push(x)).len() == gaps_of(t).len() + 1,
        x >= t.last() ==> gaps_of(t.push(x)) == gaps_of(t).push((x - t.last()) as u64),
        x < t.last() ==> gaps_of(t.push(x)) == gaps_of(t).push(0),
        gaps_of(seq![x]).len() == 0,
{
    assert(t.push(x).drop_last() =~= t);
    assert(t.push(x)[t.len() - 1] == t.last());
}

/// Packets that come in equal steps are not bursty, nor is a lone packet, and none are more so than
/// five times their mean gap.
pub proof fn law_even_packets_are_not_bursty(times: Seq<u64>, cutoff: int, step: u64)
    requires
        forall|i: int|
            0 <= i < recent_times(times, cutoff).len() ==> #[trigger] recent_times(times, cutoff)[i]
                == recent_times(times, cutoff)[0] + i * step,
    ensures
        burst_now(times, cutoff) == 0,
{
    let recent = recent_times(times, cutoff);
    if recent.len() >= 2 {
        lemma_even_gaps(recent, step);
        spread::law_equal_numbers_do_not_spread(gaps_of(recent), step);
    }
}

proof fn lemma_even_gaps(t: Seq<u64>, step: u64)
    requires
        t.len() >= 1,
        forall|i: int| 0 <= i < t.len() ==> #[trigger] t[i] == t[0] + i * step,
    ensures
        gaps_of(t).len() == t.len() - 1,
        forall|i: int| 0 <= i < t.len() - 1 ==> #[trigger] gaps_of(t)[i] == step,
    decreases t.len(),
{
    let n = t.len() as int;
    if n > 1 {
        let s = t.drop_last();
        assert forall|i: int| 0 <= i < s.len() implies #[trigger] s[i] == s[0] + i * step by {
            assert(s[i] == t[i]);
        }
        lemma_even_gaps(s, step);
        assert((n - 1) * step == (n - 2) * step + step) by (nonlinear_arith);
        assert(t[n - 1] - t[n - 2] == step);
    }
}

/// Times are written in milliseconds below a second, and from there on in seconds, with the
/// fraction but for its closing zeros.
pub proof fn law_times_are_written_in_their_unit(n: nat)
    requires
        n > 0,
    ensures
        n < 1000 ==> duration_text(n) == text::decimal_of(n) + "ms"@,
        duration_text(1000 * n) == text::decimal_of(n) + "s"@,
        duration_text(1000 * n + 500) == text::decimal_of(n) + seq!['.', '5'] + "s"@,
        duration_text(1000 * n + 250) == text::decimal_of(n) + seq!['.', '2', '5'] + "s"@,
        duration_text(1000 * n + 125) == text::decimal_of(n) + seq!['.', '1', '2', '5'] + "s"@,
{
    assert(fraction_text((1000 * n) as int) =~= Seq::empty());
    assert(duration_text(1000 * n) =~= text::decimal_of(n) + "s"@);
    assert(fraction_text((1000 * n + 500) as int) =~= seq!['.', '5']);
    assert(fraction_text((1000 * n + 250) as int) =~= seq!['.', '2', '5']);
    assert(fraction_text((1000 * n + 125) as int) =~= seq!['.', '1', '2', '5']);
}

/// Few packets tell nothing of how regularly they come.
pub proof fn law_few_packets_are_not_regular(w: Seq<PacketRecord>)
    requires
        w.len() < 32,
    ensures
        regularity_of(w) == 0,
{
}

/// The measures of a window are those of its sizes: how many, the least and the greatest, and where
/// they stand in order.
pub proof fn law_window_is_measured_by_its_sizes(
    sizes: Seq<u64>,
    t: Seq<u64>,
    averages: Averages,
    regularity: u64,
)
    requires
        0 < t.len() <= usize::MAX,
    ensures
        ({
            let w = stats_of(sizes, t, averages, regularity as int);
            &&& w.packet_count == t.len()
            &&& w.min_size == t[0]
            &&& w.max_size == t[t.len() - 1]
            &&& w.averages == averages
            &&& w.periodicity == regularity
            &&& t.len() == 1 ==> w.p25_size_x100 == 100 * t[0] && w.p50_size_x100 == 100 * t[0]
                && w.p75_size_x100 == 100 * t[0] && w.p95_size_x100 == 100 * t[0]
            &&& t.len() == 2 && t[0] <= t[1] ==> w.p25_size_x100 == 75 * t[0] + 25 * t[1]
                && w.p50_size_x100 == 50 * t[0] + 50 * t[1] && w.p75_size_x100 == 25 * t[0] + 75
                * t[1] && w.p95_size_x100 == 5 * t[0] + 95 * t[1]
        }),
{
    stats::law_percentiles_reach_the_ends(t, 25);
    stats::law_percentiles_reach_the_ends(t, 50);
    stats::law_percentiles_reach_the_ends(t, 75);
    stats::law_percentiles_reach_the_ends(t, 95);
}

} // verus!
