//! When to send: heartbeats and the gaps between packets.

use crate::masking::packet::write_segment;
#[allow(unused_imports)]
use crate::masking::packet;
use crate::masking::profiles::GamingProfile;
#[allow(unused_imports)]
use crate::utils::bytes;
use crate::utils::random::{random_between, random_bytes};
use vstd::prelude::*;

verus! {

#[derive(Debug)]
pub struct TrafficShaper {
    pub profile: GamingProfile,
    pub last_heartbeat_us: u64,
}

/// Whether a heartbeat is due: at least the interval has passed since the last one. A
/// clock that reads earlier than the last heartbeat counts as no time passed.
pub open spec fn heartbeat_due(last_us: int, interval_ms: int, now_us: int) -> bool {
    let elapsed_us = if now_us >= last_us {
        now_us - last_us
    } else {
        0
    };
    elapsed_us >= 1000 * interval_ms
}

/// The delay in a drawn jitter: none where the draw is negative.
pub open spec fn jitter_delay(drawn_ms: int) -> int {
    if drawn_ms < 0 {
        0
    } else {
        drawn_ms
    }
}

/// A lone segment that acknowledges nothing.
pub open spec fn heartbeat_segment(conv: u32, ts: u32, sn: u32, payload: Seq<u8>) -> Seq<u8> {
    packet::segment(conv, 0, ts, sn, 0, (24 + payload.len()) as u32, payload)
}

/// Whether `p` is a heartbeat that carries 8 to 32 bytes.
pub open spec fn is_heartbeat(p: Seq<u8>) -> bool {
    exists|conv: u32, ts: u32, sn: u32, payload: Seq<u8>|
        conv >= 1 && 8 <= payload.len() <= 32 && p == #[trigger] heartbeat_segment(
            conv,
            ts,
            sn,
            payload,
        )
}

/// A heartbeat is one segment that is as long as it says.
pub proof fn law_heartbeat_is_self_sized(p: Seq<u8>)
    requires
        is_heartbeat(p),
    ensures
        packet::self_sized(p),
        packet::segments_in(p) == seq![p],
{
    let (conv, ts, sn, payload) = choose|conv: u32, ts: u32, sn: u32, payload: Seq<u8>|
        conv >= 1 && 8 <= payload.len() <= 32 && p == #[trigger] heartbeat_segment(
            conv,
            ts,
            sn,
            payload,
        );
    packet::lemma_segment_fields(conv, 0, ts, sn, 0, (24 + payload.len()) as u32, payload);
    bytes::lemma_concat_one(p);
    packet::law_segments_of_concat(seq![p]);
}

impl TrafficShaper {
    pub fn new(profile: GamingProfile, now_us: u64) -> (s: Self)
        ensures
            s.profile == profile,
            s.last_heartbeat_us == now_us,
    {
        TrafficShaper { profile, last_heartbeat_us: now_us }
    }

    /// Whether the profile's heartbeat interval has passed since the last heartbeat.
    pub fn should_send_heartbeat(&self, now_us: u64) -> (b: bool)
        ensures
            b == heartbeat_due(
                self.last_heartbeat_us as int,
                self.profile.heartbeat_interval_ms as int,
                now_us as int,
            ),
    {
        if now_us < self.last_heartbeat_us {
            return self.profile.heartbeat_interval_ms == 0;
        }
        (now_us - self.last_heartbeat_us) / 1000 >= self.profile.heartbeat_interval_ms
    }

    /// Whether a jitter lies between minus and plus the profile's.
    pub open spec fn draws(&self, drawn_ms: int) -> bool {
        -self.profile.jitter_ms <= drawn_ms <= self.profile.jitter_ms
    }

    /// A jitter between minus and plus the profile's.
    fn draw_jitter(&self) -> (drawn_ms: i128)
        ensures
            self.draws(drawn_ms as int),
    {
        let size: i128 = random_between(0, self.profile.jitter_ms) as i128;
        if random_between(0, 1) == 0 {
            -size
        } else {
            size
        }
    }

    /// The delay that a jitter between minus and plus the profile's gives.
    pub fn delay_for_jitter(&self, drawn_ms: i128) -> (ms: u64)
        requires
            self.draws(drawn_ms as int),
        ensures
            ms == jitter_delay(drawn_ms as int),
            ms <= self.profile.jitter_ms,
    {
        if drawn_ms < 0 {
            0
        } else {
            drawn_ms as u64
        }
    }

    /// A drawn delay.
    pub fn get_jittered_delay(&self) -> (ms: u64)
        ensures
            exists|drawn_ms: int| self.draws(drawn_ms) && ms == #[trigger] jitter_delay(drawn_ms),
            ms <= self.profile.jitter_ms,
    {
        let drawn_ms: i128 = self.draw_jitter();
        assert(self.draws(drawn_ms as int));
        self.delay_for_jitter(drawn_ms)
    }

    /// The gap before the next packet for a jitter: the profile's period and the delay.
    pub open spec fn interval(&self, drawn_ms: int) -> int {
        let ms = 1000int / self.profile.frequency_hz as int + jitter_delay(drawn_ms);
        if ms > u64::MAX {
            u64::MAX as int
        } else {
            ms
        }
    }

    /// The gap before the next packet for a jitter.
    pub fn interval_for_jitter(&self, drawn_ms: i128) -> (ms: u64)
        requires
            self.profile.frequency_hz != 0,
            self.draws(drawn_ms as int),
        ensures
            ms == self.interval(drawn_ms as int),
    {
        let base_interval_ms: u64 = 1000 / (self.profile.frequency_hz as u64);
        let jitter: u64 = self.delay_for_jitter(drawn_ms);
        base_interval_ms.saturating_add(jitter)
    }

    /// The gap before the next packet, with a drawn jitter.
    pub fn get_send_interval(&self) -> (ms: u64)
        requires
            self.profile.frequency_hz != 0,
        ensures
            exists|drawn_ms: int| self.draws(drawn_ms) && ms == #[trigger] self.interval(drawn_ms),
    {
        let drawn_ms: i128 = self.draw_jitter();
        self.interval_for_jitter(drawn_ms)
    }

    /// A heartbeat with random contents.
    pub fn heartbeat_packet(&self) -> (p: Vec<u8>)
        ensures
            is_heartbeat(p@),
    {
        let conv: u32 = random_between(1, 0xFFFF_FFFF) as u32;
        let ts: u32 = random_between(0, 0xFFFF_FFFF) as u32;
        let sn: u32 = random_between(0, 0xFFFF_FFFF) as u32;
        let size: usize = random_between(8, 32) as usize;
        let payload = random_bytes(size);
        let p = write_segment(conv, 0, ts, sn, 0, (24 + size) as u32, payload.as_slice());
        assert(p@ == heartbeat_segment(conv, ts, sn, payload@));
        p
    }

    pub fn mark_heartbeat_sent(&mut self, now_us: u64)
        ensures
            final(self).last_heartbeat_us == now_us,
            final(self).profile == old(self).profile,
    {
        self.last_heartbeat_us = now_us;
    }

    pub fn profile(&self) -> (p: &GamingProfile)
        ensures
            *p == self.profile,
    {
        &self.profile
    }
}

/// From the moment a heartbeat is marked, the next one is due exactly when the interval
/// has passed.
pub proof fn law_heartbeat_due_after_interval(sent_us: u64, interval_ms: u64, now_us: u64)
    requires
        now_us >= sent_us,
    ensures
        heartbeat_due(sent_us as int, interval_ms as int, now_us as int) <==> now_us >= sent_us
            + 1000 * interval_ms,
{
}

/// Packets go out as often as the profile says: without jitter the gap is its period in whole
/// milliseconds, and a jitter only makes it longer, by no more than the profile's.
pub proof fn law_intervals_keep_the_frequency(s: TrafficShaper, drawn_ms: int)
    requires
        s.profile.frequency_hz > 0,
        s.draws(drawn_ms),
    ensures
        s.interval(0) * s.profile.frequency_hz <= 1000,
        1000 < (s.interval(0) + 1) * s.profile.frequency_hz,
        s.interval(0) <= s.interval(drawn_ms) <= s.interval(0) + s.profile.jitter_ms,
        drawn_ms <= 0 ==> s.interval(drawn_ms) == s.interval(0),
        drawn_ms >= 0 && s.interval(drawn_ms) < u64::MAX ==> s.interval(drawn_ms) == s.interval(0)
            + drawn_ms,
{
    let f = s.profile.frequency_hz as int;
    let q = 1000int / f;
    assert(q * f <= 1000 < (q + 1) * f && 0 <= q <= 1000) by (nonlinear_arith)
        requires
            q == 1000int / f,
            f > 0,
    ;
}

/// A heartbeat has between 32 and 56 bytes, says how long it is, and acknowledges nothing.
pub proof fn law_heartbeats_are_short(p: Seq<u8>)
    requires
        is_heartbeat(p),
    ensures
        32 <= p.len() <= 56,
        bytes::le_u32_at(p, 20) == p.len(),
        bytes::le_u32_at(p, 16) == 0,
        bytes::le_u32_at(p, 0) >= 1,
        p[5] == 0,
{
    let (conv, ts, sn, payload) = choose|conv: u32, ts: u32, sn: u32, payload: Seq<u8>|
        conv >= 1 && 8 <= payload.len() <= 32 && p == #[trigger] heartbeat_segment(
            conv,
            ts,
            sn,
            payload,
        );
    packet::law_segment_layout(conv, 0, ts, sn, 0, (24 + payload.len()) as u32, payload);
}

} // verus!
