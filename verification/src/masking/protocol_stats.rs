//! What has been sent as one protocol, and how settled that is.
//!
//! Sizes and fractions are in millionths, times in microseconds.

#[allow(unused_imports)]
use crate::masking::periodicity;
#[allow(unused_imports)]
use crate::utils::roots;
use crate::utils::wide::Wide;
#[allow(unused_imports)]
use crate::utils::wide;
use vstd::prelude::*;

verus! {

/// The most that a spread is held at, which sizes of 64 bits do not come to while a counter of 64
/// bits counts them.
pub open spec fn spread_limit() -> int {
    0x100_0000_0000_0000_0000_0000_0000_0000_0000_0000_0000_0000_0000_0000int
}

/// Fewest packets from which a protocol counts as settled.
pub const SETTLED: u64 = 10;

/// What has been sent as one protocol.
#[derive(Debug, Clone, Copy, PartialEq, Eq, Structural)]
pub struct ProtocolStatistics {
    /// All sizes together.
    pub size_total: u128,
    /// Squares of how far each size was from the mean before it, each divided by its place,
    /// in millionths.
    pub size_spread: Wide,
    /// All gaps together, in microseconds.
    pub gap_total_us: u128,
    pub bytes_up: u64,
    pub bytes_down: u64,
    pub packet_count: u64,
}

/// The mean of `n` sizes, which is none larger than a size can be.
pub open spec fn mean_of(total: int, n: int) -> int {
    periodicity::capped(1_000_000 * total / n, 1_000_000 * u64::MAX)
}

/// What one more size adds to the spread of `n` that add up to `total`.
pub open spec fn spread_term(total: int, n: int, size: int) -> int {
    let off = 1_000_000 * size - mean_of(total, n);
    (off * off) / (1_000_000 * (n + 1))
}

fn mean(total: u128, n: u64) -> (m: u128)
    requires
        n > 0,
    ensures
        m == mean_of(total as int, n as int),
        m <= 1_000_000 * u64::MAX,
{
    let most: u128 = 1_000_000 * (u64::MAX as u128);
    assert(1_000_000 * (total as int) / (n as int) >= 0) by (nonlinear_arith)
        requires
            total >= 0,
            n > 0,
    ;
    let m: Wide = Wide::product(total, 1_000_000).divide(Wide::of(n as u128)).0;
    if Wide::of(most).less(m) {
        most
    } else {
        m.low
    }
}

impl ProtocolStatistics {
    /// Nothing sent.
    pub open spec fn zero() -> ProtocolStatistics {
        ProtocolStatistics {
            size_total: 0,
            size_spread: Wide { high: 0, low: 0 },
            gap_total_us: 0,
            bytes_up: 0,
            bytes_down: 0,
            packet_count: 0,
        }
    }

    /// One more packet sent. Counters wrap.
    pub open spec fn updated(self, size: usize, gap_us: u64, up: bool) -> ProtocolStatistics {
        ProtocolStatistics {
            size_total: self.size_total.wrapping_add(size as u128),
            size_spread: if self.packet_count == 0 {
                self.size_spread
            } else {
                wide::wide_of(
                    periodicity::capped(
                        self.size_spread@ + spread_term(
                            self.size_total as int,
                            self.packet_count as int,
                            size as int,
                        ),
                        spread_limit(),
                    ),
                )
            },
            gap_total_us: self.gap_total_us.wrapping_add(gap_us as u128),
            bytes_up: if up {
                self.bytes_up.wrapping_add(size as u64)
            } else {
                self.bytes_up
            },
            bytes_down: if up {
                self.bytes_down
            } else {
                self.bytes_down.wrapping_add(size as u64)
            },
            packet_count: self.packet_count.wrapping_add(1),
        }
    }

    pub fn new() -> (s: Self)
        ensures
            s == Self::zero(),
    {
        ProtocolStatistics {
            size_total: 0,
            size_spread: Wide { high: 0, low: 0 },
            gap_total_us: 0,
            bytes_up: 0,
            bytes_down: 0,
            packet_count: 0,
        }
    }

    pub fn update(&mut self, packet_size: usize, gap_us: u64, is_upload: bool)
        ensures
            *final(self) == old(self).updated(packet_size, gap_us, is_upload),
    {
        if self.packet_count > 0 {
            let size: u128 = 1_000_000 * (packet_size as u128);
            let before: u128 = mean(self.size_total, self.packet_count);
            let off: u128 = if size >= before {
                size - before
            } else {
                before - size
            };
            let n: u128 = 1_000_000 * (self.packet_count as u128 + 1);
            proof {
                let exact = size - before;
                assert(off * off == exact * exact) by (nonlinear_arith)
                    requires
                        off == exact || off == -exact,
                ;
                assert(0 <= off * off <= spread_limit()) by (nonlinear_arith)
                    requires
                        0 <= off <= 0x10_0000_0000_0000_0000_0000,
                ;
                assert(0 <= (off * off) / (n as int) <= off * off) by (nonlinear_arith)
                    requires
                        off * off >= 0,
                        n >= 1,
                ;
            }
            let term: Wide = Wide::product(off, off).divide(Wide::of(n)).0;
            let limit = Wide { high: 0x100_0000_0000_0000_0000_0000, low: 0 };
            self.size_spread =
            if limit.less(self.size_spread) || limit.less(self.size_spread.plus(term)) {
                limit
            } else {
                self.size_spread.plus(term)
            };
            proof {
                wide::lemma_wide_of(self.size_spread);
            }
        }
        self.packet_count = self.packet_count.wrapping_add(1);
        self.size_total = self.size_total.wrapping_add(packet_size as u128);
        self.gap_total_us = self.gap_total_us.wrapping_add(gap_us as u128);
        if is_upload {
            self.bytes_up = self.bytes_up.wrapping_add(packet_size as u64);
        } else {
            self.bytes_down = self.bytes_down.wrapping_add(packet_size as u64);
        }
    }

    /// The mean size; nothing before any packet.
    pub open spec fn mean_size(self) -> int {
        if self.packet_count == 0 {
            0
        } else {
            mean_of(self.size_total as int, self.packet_count as int)
        }
    }

    /// The deviation of the sizes.
    pub open spec fn size_deviation(self) -> int {
        roots::root(1_000_000 * periodicity::capped(self.size_spread@, spread_limit()))
    }

    /// The mean size, in millionths of a byte.
    pub fn mean_packet_size(&self) -> (m: u128)
        ensures
            m == self.mean_size(),
            m <= 1_000_000 * u64::MAX,
    {
        if self.packet_count == 0 {
            0
        } else {
            mean(self.size_total, self.packet_count)
        }
    }

    /// The deviation of the sizes, in millionths of a byte.
    pub fn std_packet_size(&self) -> (d: u128)
        ensures
            d == self.size_deviation(),
    {
        let limit = Wide { high: 0x100_0000_0000_0000_0000_0000, low: 0 };
        let spread: Wide = if limit.less(self.size_spread) {
            limit
        } else {
            self.size_spread
        };
        spread.times(1_000_000).root()
    }

    /// The mean gap, in whole microseconds; nothing before any packet.
    pub fn mean_inter_packet_time(&self) -> (us: u128)
        ensures
            us == if self.packet_count == 0 {
                0
            } else {
                self.gap_total_us as int / (self.packet_count as int)
            },
    {
        if self.packet_count == 0 {
            0
        } else {
            self.gap_total_us / (self.packet_count as u128)
        }
    }

    /// How settled a protocol is, given the logarithm of its packets: six tenths by how
    /// little its sizes vary, four tenths by a tenth of the logarithm, each at most whole;
    /// not at all from fewer than ten packets.
    pub open spec fn inertia(self, log_micro: int) -> int {
        let cv = if self.mean_size() == 0 {
            0
        } else {
            periodicity::capped(
                1_000_000 * self.size_deviation() / self.mean_size(),
                1_000_000,
            )
        };
        if self.packet_count < SETTLED {
            0
        } else {
            (6 * (1_000_000 - cv) + 4 * periodicity::capped(log_micro / 10, 1_000_000)) / 10
        }
    }

    /// How settled the protocol is, in millionths. `log_micro` is the logarithm of the
    /// number of its packets.
    pub fn compute_profile_inertia(&self, log_micro: u64) -> (i: u64)
        ensures
            i == self.inertia(log_micro as int),
            i <= 1_000_000,
    {
        if self.packet_count < SETTLED {
            return 0;
        }
        let mean: u128 = self.mean_packet_size();
        let deviation: u128 = self.std_packet_size();
        let cv: u64 = if mean == 0 {
            0
        } else if deviation >= mean {
            assert(1_000_000 * (deviation as int) / (mean as int) >= 1_000_000) by (nonlinear_arith)
                requires
                    deviation >= mean,
                    mean > 0,
            ;
            1_000_000
        } else {
            assert(0 <= 1_000_000 * (deviation as int) / (mean as int) <= 1_000_000)
                by (nonlinear_arith)
                requires
                    0 <= deviation < mean,
                    mean > 0,
            ;
            (1_000_000 * deviation / mean) as u64
        };
        let volume: u64 = if log_micro / 10 > 1_000_000 { 1_000_000 } else { log_micro / 10 };
        (6 * (1_000_000 - cv) + 4 * volume) / 10
    }
}

/// Packets of one size that come in any number do not spread.
pub proof fn law_one_size_does_not_spread(n: int, size: int)
    requires
        n > 0,
        0 <= size <= u64::MAX,
    ensures
        spread_term(n * size, n, size) == 0,
{
    assert(1_000_000 * (n * size) / n == 1_000_000 * size) by (nonlinear_arith)
        requires
            n > 0,
    ;
    assert(mean_of(n * size, n) == 1_000_000 * size);
    assert(0int * 0int == 0) by (nonlinear_arith);
    assert(0int / (1_000_000 * (n + 1)) == 0) by (nonlinear_arith)
        requires
            n > 0,
    ;
}

/// A packet is counted once, with its bytes in its direction and its gap.
pub proof fn law_packets_are_counted(s: ProtocolStatistics, size: usize, gap_us: u64, up: bool)
    requires
        s.packet_count < u64::MAX,
        s.size_total + size <= u128::MAX,
        s.gap_total_us + gap_us <= u128::MAX,
        s.bytes_up + size <= u64::MAX,
        s.bytes_down + size <= u64::MAX,
    ensures
        s.updated(size, gap_us, up).packet_count == s.packet_count + 1,
        s.updated(size, gap_us, up).size_total == s.size_total + size,
        s.updated(size, gap_us, up).gap_total_us == s.gap_total_us + gap_us,
        s.updated(size, gap_us, true).bytes_up == s.bytes_up + size,
        s.updated(size, gap_us, true).bytes_down == s.bytes_down,
        s.updated(size, gap_us, false).bytes_down == s.bytes_down + size,
        s.updated(size, gap_us, false).bytes_up == s.bytes_up,
{
}

/// The mean of packets that are all of one size is that size.
pub proof fn law_mean_of_one_size(s: ProtocolStatistics, size: int)
    requires
        s.packet_count > 0,
        0 <= size <= u64::MAX,
        s.size_total == s.packet_count * size,
    ensures
        s.mean_size() == 1_000_000 * size,
{
    let n = s.packet_count as int;
    assert(1_000_000 * (n * size) / n == 1_000_000 * size) by (nonlinear_arith)
        requires
            n > 0,
    ;
}

/// A protocol is not settled before ten packets; from then on three fifths come from sizes that do not
/// vary, and two fifths from the logarithm of the packets, in full from ten on.
pub proof fn law_protocols_settle(s: ProtocolStatistics, log_micro: int)
    requires
        log_micro >= 0,
    ensures
        s.packet_count < 10 ==> s.inertia(log_micro) == 0,
        s.packet_count >= 10 && s.size_deviation() == 0 && log_micro >= 10_000_000 ==> s.inertia(
            log_micro,
        ) == 1_000_000,
        s.packet_count >= 10 && s.size_deviation() == 0 && s.mean_size() >= 0 ==> s.inertia(0)
            == 600_000,
        s.packet_count >= 10 && s.mean_size() > 0 && s.size_deviation() >= s.mean_size()
            ==> s.inertia(0) == 0 && s.inertia(10_000_000) == 400_000,
{
    let (m, d) = (s.mean_size(), s.size_deviation());
    if m > 0 {
        assert(d >= m ==> 1_000_000 * d / m >= 1_000_000) by (nonlinear_arith)
            requires
                m > 0,
        ;
        assert(0int / m == 0) by (nonlinear_arith)
            requires
                m > 0,
        ;
    }
    if s.packet_count > 0 {
        let (t, n) = (s.size_total as int, s.packet_count as int);
        assert(1_000_000 * t / n >= 0) by (nonlinear_arith)
            requires
                t >= 0,
                n > 0,
        ;
    }
}

/// A packet that is as large as all before it leaves the spread of the sizes as it is, and one that
/// is off adds the square of that, shared among all packets.
pub proof fn law_sizes_spread_by_their_distance(
    s: ProtocolStatistics,
    size: usize,
    usual: int,
    gap_us: u64,
    up: bool,
)
    requires
        s.packet_count > 0,
        0 <= usual <= u64::MAX,
        s.size_total == s.packet_count * usual,
        s.size_spread@ + 1_000_000 * ((size - usual) * (size - usual)) <= spread_limit(),
    ensures
        size == usual ==> s.updated(size, gap_us, up).size_spread@ == s.size_spread@,
        ({
            let more = s.updated(size, gap_us, up).size_spread@ - s.size_spread@;
            let n = s.packet_count + 1;
            more * n <= 1_000_000 * ((size - usual) * (size - usual)) < (more + 1) * n
        }),
{
    let n = s.packet_count as int;
    law_mean_of_one_size(s, usual);
    assert(mean_of(s.size_total as int, n) == 1_000_000 * usual) by {
        assert(1_000_000 * (n * usual) / n == 1_000_000 * usual) by (nonlinear_arith)
            requires
                n > 0,
        ;
    }
    let d = size - usual;
    let off = 1_000_000 * size - 1_000_000 * usual;
    let sq = d * d;
    assert(off * off == 1_000_000_000_000 * sq) by (nonlinear_arith)
        requires
            off == 1_000_000 * d,
            sq == d * d,
    ;
    assert(sq >= 0) by (nonlinear_arith)
        requires
            sq == d * d,
    ;
    let more = (off * off) / (1_000_000 * (n + 1));
    let x = 1_000_000 * sq;
    assert(more == x / (n + 1)) by (nonlinear_arith)
        requires
            x == 1_000_000 * sq,
            sq >= 0,
            n > 0,
            more == (1_000_000_000_000 * sq) / (1_000_000 * (n + 1)),
    ;
    assert(more * (n + 1) <= x < (more + 1) * (n + 1) && 0 <= more <= x) by (nonlinear_arith)
        requires
            n > 0,
            x >= 0,
            more == x / (n + 1),
    ;
    wide::lemma_wide_exists(s.size_spread@ + more);
    if size == usual {
        assert(sq == 0) by (nonlinear_arith)
            requires
                sq == d * d,
                d == 0,
        ;
    }
}

} // verus!
