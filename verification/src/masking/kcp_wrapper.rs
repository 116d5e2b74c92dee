//! A KCP session: an engine, how its raw output is framed, and what its replies amount to.

use crate::masking::kcp_engine::{
    check_packet, engine_flush, engine_input, engine_is_dead_link, engine_new, engine_peeksize,
    engine_recv, engine_send, engine_set_mtu, engine_set_nodelay, engine_set_wndsize,
    engine_update, engine_wait_snd, engine_waiting_conv, KcpPipe, LATEST_MS, MOST_PIECES,
    TOO_MANY_PIECES,
};
#[allow(unused_imports)]
use crate::masking::kcp_engine;
use crate::masking::packet::PacketBuilder;
#[allow(unused_imports)]
use crate::masking::packet;
use crate::masking::profiles::GamingProfile;
#[allow(unused_imports)]
use crate::masking::profiles;
use crate::masking::timing::TrafficShaper;
#[allow(unused_imports)]
use crate::masking::timing;
#[allow(unused_imports)]
use crate::utils::bytes;
use crate::utils::bytes::put_all;
use crate::utils::random::random_between;
use crate::utils::text::join;
use crate::utils::{PhantomError, PhantomResult};
use vstd::prelude::*;
use vstd::string::StringExecFns;

verus! {

/// The shortest packet that a session reads: a bare header.
pub const KCP_MIN_PACKET: usize = 24;

/// The most packets that a session reads, as its engine counts in 32 bits how many of them skip a
/// piece.
pub const MOST_PACKETS: u32 = 0xFFFF_FFFE;

/// What a session's engine has written and nobody has taken yet.
#[derive(Debug)]
pub struct KcpOutput {
    pub buffer: Vec<u8>,
}

impl View for KcpOutput {
    type V = Seq<u8>;

    open spec fn view(&self) -> Seq<u8> {
        self.buffer@
    }
}

impl Default for KcpOutput {
    fn default() -> (o: Self)
        ensures
            o@ == Seq::<u8>::empty(),
    {
        KcpOutput { buffer: Vec::new() }
    }
}

impl KcpOutput {
    /// Takes everything out.
    pub fn take(&mut self) -> (all: Vec<u8>)
        ensures
            all@ == old(self)@,
            final(self)@ == Seq::<u8>::empty(),
    {
        let mut all: Vec<u8> = Vec::new();
        std::mem::swap(&mut all, &mut self.buffer);
        all
    }

    /// Puts `data` behind what is there and says how much was written: all of it.
    pub fn write(&mut self, data: &[u8]) -> (written: usize)
        ensures
            final(self)@ == old(self)@ + data@,
            written == data@.len(),
    {
        put_all(&mut self.buffer, data);
        data.len()
    }
}

/// A step of a session's engine that failed, with the engine's words.
#[derive(Debug)]
pub enum KcpFault {
    Mtu(String),
    Send(String),
    Flush(String),
    Input(String),
    Peek(String),
    Recv(String),
}

impl KcpFault {
    /// The text of the error that a fault becomes.
    pub open spec fn message(&self) -> Seq<char> {
        match self {
            KcpFault::Mtu(e) => "Failed to set MTU: "@ + e@,
            KcpFault::Send(e) => "KCP send error: "@ + e@,
            KcpFault::Flush(e) => "KCP flush error: "@ + e@,
            KcpFault::Input(e) => "KCP input error: "@ + e@,
            KcpFault::Peek(e) => "KCP peeksize error: "@ + e@,
            KcpFault::Recv(e) => "KCP recv error: "@ + e@,
        }
    }

    pub fn into_error(self) -> (e: PhantomError)
        ensures
            e.is_kcp(self.message()),
    {
        let text = match &self {
            KcpFault::Mtu(e) => join("Failed to set MTU: ", e.as_str()),
            KcpFault::Send(e) => join("KCP send error: ", e.as_str()),
            KcpFault::Flush(e) => join("KCP flush error: ", e.as_str()),
            KcpFault::Input(e) => join("KCP input error: ", e.as_str()),
            KcpFault::Peek(e) => join("KCP peeksize error: ", e.as_str()),
            KcpFault::Recv(e) => join("KCP recv error: ", e.as_str()),
        };
        PhantomError::KcpError(text)
    }
}

/// Whether `sent` is `segment`, as it is or with noise behind it up to a size that the
/// profile draws.
pub open spec fn is_framed(segment: Seq<u8>, sent: Seq<u8>, profile: GamingProfile) -> bool {
    ||| sent == segment && segment.len() >= profile.packet_size_min
    ||| exists|noise: Seq<u8>|
        sent == #[trigger] packet::padded_segment(segment, noise) && noise.len() > 0
            && profile.packet_size_min <= segment.len() + noise.len() <= profile.packet_size_max
}

/// Whether `sent` frames, one for one, the segments that `raw` holds.
pub open spec fn frames_all(
    raw: Seq<u8>,
    sent: Seq<Seq<u8>>,
    profile: GamingProfile,
) -> bool {
    &&& sent.len() == packet::segments_in(raw).len()
    &&& forall|i: int|
        0 <= i < sent.len() ==> is_framed(
            #[trigger] packet::segments_in(raw)[i],
            sent[i],
            profile,
        )
}

/// Every segment that is read out of a run of segments is as long as it says.
pub proof fn law_segments_are_self_sized(data: Seq<u8>)
    ensures
        forall|i: int|
            0 <= i < packet::segments_in(data).len() ==> packet::self_sized(
                #[trigger] packet::segments_in(data)[i],
            ),
    decreases data.len(),
{
    let len = bytes::le_u32_at(data, packet::KCP_HEADER_LEN_OFFSET as int);
    if data.len() < packet::KCP_HEADER_SIZE || len < packet::KCP_HEADER_SIZE || len > data.len() {
    } else {
        let head = data.subrange(0, len);
        let rest = data.subrange(len, data.len() as int);
        law_segments_are_self_sized(rest);
        assert(bytes::le_u32_at(head, 20) == bytes::le_u32_at(data, 20));
        assert forall|i: int| 0 <= i < packet::segments_in(data).len() implies packet::self_sized(
            #[trigger] packet::segments_in(data)[i],
        ) by {
            if i > 0 {
                assert(packet::segments_in(data)[i] == packet::segments_in(rest)[i - 1]);
            }
        }
    }
}

/// A framed segment goes out as one segment that is as long as it says and carries the
/// segment's payload behind the segment's header up to the length field.
pub proof fn law_framed_segment_carries_its_payload(
    segment: Seq<u8>,
    sent: Seq<u8>,
    profile: GamingProfile,
)
    requires
        packet::self_sized(segment),
        is_framed(segment, sent, profile),
    ensures
        packet::self_sized(sent),
        packet::segments_in(sent) == seq![sent],
        sent.len() >= profile.packet_size_min,
        sent.take(packet::KCP_HEADER_LEN_OFFSET as int) == segment.take(
            packet::KCP_HEADER_LEN_OFFSET as int,
        ),
        sent.subrange(packet::KCP_HEADER_SIZE as int, segment.len() as int) == segment.subrange(
            packet::KCP_HEADER_SIZE as int,
            segment.len() as int,
        ),
{
    if sent == segment && segment.len() >= profile.packet_size_min {
        bytes::lemma_concat_one(sent);
        packet::law_segments_of_concat(seq![sent]);
    } else {
        let noise = choose|noise: Seq<u8>|
            sent == #[trigger] packet::padded_segment(segment, noise) && noise.len() > 0
                && profile.packet_size_min <= segment.len() + noise.len()
                <= profile.packet_size_max;
        packet::law_padded_is_self_sized(segment, noise);
        assert(sent.take(20) =~= segment.take(20));
        assert(sent.subrange(24, segment.len() as int) =~= segment.subrange(
            24,
            segment.len() as int,
        ));
    }
}

/// Whether `sent` frames `raw`, with a heartbeat behind it just where one is due, and the
/// last heartbeat was sent at `last_us`.
pub open spec fn is_batch(
    raw: Seq<u8>,
    shaper: TrafficShaper,
    profile: GamingProfile,
    now_us: u64,
    sent: Seq<Seq<u8>>,
    last_us: u64,
) -> bool {
    if timing::heartbeat_due(
        shaper.last_heartbeat_us as int,
        profile.heartbeat_interval_ms as int,
        now_us as int,
    ) {
        &&& last_us == now_us
        &&& sent.len() > 0
        &&& timing::is_heartbeat(sent.last())
        &&& frames_all(raw, sent.drop_last(), profile)
    } else {
        &&& last_us == shaper.last_heartbeat_us
        &&& frames_all(raw, sent, profile)
    }
}

/// Bytes of a piece.
pub const PIECE: usize = 1376;

/// How many pieces data comes to.
pub open spec fn pieces_of(data: Seq<u8>) -> int {
    bytes::split_at_size(data, PIECE as int).len() as int
}

/// Whether data comes to too many pieces to be queued.
pub open spec fn too_long(data: Seq<u8>) -> bool {
    pieces_of(data) >= TOO_MANY_PIECES
}

/// Whether a session gives the message that is ready, or says why none is.
pub open spec fn gives(
    ready: Result<Seq<u8>, Seq<char>>,
    r: PhantomResult<Vec<u8>>,
) -> bool {
    match ready {
        Ok(message) => r matches Ok(data) && data@ == message,
        Err(why) => r matches Err(e) && e.is_kcp("KCP peeksize error: "@ + why),
    }
}

/// A session: its engine, what that has written, how it frames, when it beats, and how many
/// pieces and packets it has handed to its engine.
#[derive(Debug)]
pub struct KcpWrapper {
    pub engine: kcp::Kcp<KcpPipe>,
    pub pipe: KcpPipe,
    pub output: KcpOutput,
    pub packet_builder: PacketBuilder,
    pub traffic_shaper: TrafficShaper,
    pub conv: u32,
    pub pieces: u32,
    pub packets: u32,
}

/// What a session becomes by a send, and what comes back: nothing for no data, the engine's
/// fault where it has one, and else the framed output with a heartbeat where one is due. An
/// engine that has not been told the time queues the data and fails.
pub open spec fn sends(
    before: KcpWrapper,
    data: Seq<u8>,
    now_us: u64,
    after: KcpWrapper,
    r: PhantomResult<Vec<Vec<u8>>>,
) -> bool {
    let queued = kcp_engine::queued(before.engine, data);
    &&& after.wf()
    &&& after.pipe == before.pipe
    &&& after.conv == before.conv
    &&& after.packets == before.packets
    &&& after.packet_builder == before.packet_builder
    &&& if data.len() == 0 {
        after == before && (r matches Ok(sent) && sent@.len() == 0)
    } else if too_long(data) {
        after == before && (r matches Err(e) && e.is_kcp(
            "KCP send error: "@ + "user's send buffer is too big"@,
        ))
    } else {
        &&& kcp_engine::queues(before.engine, data, queued)
        &&& after.pieces == before.pieces + pieces_of(data)
        &&& if !kcp_engine::knows_time(before.engine) {
            &&& r matches Err(e) && e.is_kcp(
                "KCP flush error: "@ + "need to call update() once"@,
            )
            &&& after.engine == queued
            &&& after.traffic_shaper == before.traffic_shaper
            &&& after.output == before.output
        } else {
            &&& after.engine == kcp_engine::flushed(queued)
            &&& kcp_engine::writes_out(queued, after.engine)
            &&& after.output@.len() == 0
            &&& r matches Ok(sent) && is_batch(
                before.output@ + kcp_engine::flush_writes(queued),
                before.traffic_shaper,
                before.packet_builder.profile,
                now_us,
                bytes::views(sent@),
                after.traffic_shaper.last_heartbeat_us,
            )
        }
    }
}

/// What a session becomes by a packet, and what comes back: the message that is ready once
/// the engine has read it, or why there is none.
pub open spec fn receives(
    before: KcpWrapper,
    packet: Seq<u8>,
    after: KcpWrapper,
    r: PhantomResult<Vec<u8>>,
) -> bool {
    let fed = kcp_engine::fed(before.engine, packet);
    &&& after.wf()
    &&& after.same_frame(&before)
    &&& after.output == before.output
    &&& after.pieces == before.pieces
    &&& if packet.len() < KCP_MIN_PACKET {
        after == before && (r matches Err(e) && e.is_kcp(
            "Received packet too small to be a valid KCP packet"@,
        ))
    } else {
        &&& after.packets == before.packets + 1
        &&& kcp_engine::takes_in(before.engine, fed)
        &&& match kcp_engine::input_fault(before.engine, packet) {
            Some(why) => after.engine == fed && (r matches Err(e) && e.is_kcp(
                "KCP input error: "@ + why,
            )),
            None => {
                &&& gives(kcp_engine::ready(fed), r)
                &&& after.engine == if r matches Ok(data) && data@.len() > 0 {
                    kcp_engine::drained(fed)
                } else {
                    fed
                }
                &&& kcp_engine::same_sending(fed, after.engine)
            },
        }
    }
}

/// Whether a session is new: nothing was sent or received, and the time is not known.
pub open spec fn is_new(w: KcpWrapper, conv: u32, profile: GamingProfile, now_us: u64) -> bool {
    &&& w.wf()
    &&& w.conv == conv
    &&& w.pieces == 0
    &&& w.packets == 0
    &&& w.packet_builder.profile == profile
    &&& w.traffic_shaper.last_heartbeat_us == now_us
    &&& w.output@.len() == 0
    &&& kcp_engine::unacknowledged(w.engine).len() == 0
    &&& kcp_engine::clock(w.engine) == 0
    &&& !kcp_engine::knows_time(w.engine)
    &&& !kcp_engine::is_dead(w.engine)
    &&& kcp_engine::ready(w.engine) is Err
    &&& kcp_engine::ready(w.engine)->Err_0 == "recv queue is empty"@
}

impl KcpWrapper {
    /// The engine is of this conversation, writes where its output is drained, and has its
    /// numbers far from their limits; the other parts frame by one profile whose size range is
    /// not empty.
    pub open spec fn wf(&self) -> bool {
        &&& kcp_engine::writes_to(self.engine, self.pipe)
        &&& kcp_engine::conversation(self.engine) == self.conv
        &&& !kcp_engine::awaits_conv(self.engine)
        &&& self.is_set_up()
        &&& kcp_engine::counts(self.engine)
        &&& kcp_engine::pieces_queued(self.engine) == self.pieces
        &&& kcp_engine::most_skips(self.engine) <= self.packets
        &&& profiles::same_profile(self.traffic_shaper.profile, self.packet_builder.profile)
        &&& self.packet_builder.profile.packet_size_min
            <= self.packet_builder.profile.packet_size_max
    }

    /// The engine sends 32 pieces of 1376 bytes at a time and receives 128, resends early and
    /// at once after two skips, flushes every 20 ms, and has no congestion window.
    pub open spec fn is_set_up(&self) -> bool {
        &&& kcp_engine::piece_room(self.engine) == PIECE
        &&& kcp_engine::send_window(self.engine) == 32
        &&& kcp_engine::receive_window(self.engine) == 128
        &&& kcp_engine::has_no_delay(self.engine)
        &&& kcp_engine::flush_interval(self.engine) == 20
        &&& kcp_engine::skips_to_resend(self.engine) == 2
        &&& kcp_engine::has_no_congestion_window(self.engine)
    }

    /// Whether all but the engine, its output and the counts is as it was.
    pub open spec fn same_frame(&self, before: &Self) -> bool {
        &&& self.pipe == before.pipe
        &&& self.packet_builder == before.packet_builder
        &&& self.traffic_shaper == before.traffic_shaper
        &&& self.conv == before.conv
    }

    /// A session with the conversation number `conv`: windows of 32 segments, no delay, an
    /// update every 20 ms, a resend after two skips, no congestion window, and packets of at
    /// most 1400 bytes.
    pub fn with_conv(conv: u32, profile: GamingProfile, now_us: u64) -> (r: PhantomResult<Self>)
        requires
            profile.packet_size_min <= profile.packet_size_max,
        ensures
            r matches Ok(w) && is_new(w, conv, profile, now_us),
    {
        let (mut engine, pipe): (kcp::Kcp<KcpPipe>, KcpPipe) = engine_new(conv);
        engine_set_wndsize(&mut engine, 32, 32);
        engine_set_nodelay(&mut engine, true, 20, 2, true);
        if let Err(why) = engine_set_mtu(&mut engine, 1400) {
            return Err(KcpFault::Mtu(why).into_error());
        }
        Ok(
            KcpWrapper {
                engine,
                pipe,
                output: KcpOutput::default(),
                traffic_shaper: TrafficShaper::new(profile.clone(), now_us),
                packet_builder: PacketBuilder::new(profile),
                conv,
                pieces: 0,
                packets: 0,
            },
        )
    }

    /// A session with a drawn conversation number, which is never 0.
    pub fn new(profile: GamingProfile, now_us: u64) -> (r: PhantomResult<Self>)
        requires
            profile.packet_size_min <= profile.packet_size_max,
        ensures
            r matches Ok(w) && w.conv >= 1 && is_new(w, w.conv, profile, now_us),
    {
        let conv: u32 = random_between(1, u32::MAX as u64) as u32;
        KcpWrapper::with_conv(conv, profile, now_us)
    }

    /// Takes the engine's raw output apart and pads each segment.
    pub fn frame(&self, raw: &[u8]) -> (sent: Vec<Vec<u8>>)
        requires
            self.wf(),
        ensures
            frames_all(raw@, bytes::views(sent@), self.packet_builder.profile),
    {
        let mut segments = PacketBuilder::parse_kcp_packets(raw);
        let ghost all = packet::segments_in(raw@);
        proof {
            law_segments_are_self_sized(raw@);
        }
        let mut sent: Vec<Vec<u8>> = Vec::new();
        let mut i: usize = 0;
        let n: usize = segments.len();
        assert(bytes::views(segments@) == all);
        while i < n
            invariant
                self.wf(),
                i <= n,
                n == segments@.len(),
                n == all.len(),
                sent@.len() == i,
                forall|k: int| i <= k < n ==> (#[trigger] segments@[k])@ == all[k],
                forall|k: int| 0 <= k < n ==> packet::self_sized(#[trigger] all[k]),
                forall|k: int|
                    0 <= k < i ==> is_framed(
                        #[trigger] all[k],
                        sent@[k]@,
                        self.packet_builder.profile,
                    ),
            decreases n - i,
        {
            let mut one: Vec<u8> = Vec::new();
            std::mem::swap(&mut one, &mut segments[i]);
            assert(one@ == all[i as int]);
            self.packet_builder.pad_packet(&mut one);
            assert(is_framed(all[i as int], one@, self.packet_builder.profile));
            sent.push(one);
            i += 1;
        }
        sent
    }

    /// What a flushed send comes to: the framed output, with a heartbeat behind it where one
    /// is due.
    pub fn after_send(&mut self, raw: &[u8], now_us: u64) -> (sent: Vec<Vec<u8>>)
        requires
            old(self).wf(),
        ensures
            final(self).wf(),
            final(self).engine == old(self).engine,
            final(self).pipe == old(self).pipe,
            final(self).output == old(self).output,
            final(self).packet_builder == old(self).packet_builder,
            final(self).conv == old(self).conv,
            final(self).pieces == old(self).pieces,
            final(self).packets == old(self).packets,
            is_batch(
                raw@,
                old(self).traffic_shaper,
                old(self).packet_builder.profile,
                now_us,
                bytes::views(sent@),
                final(self).traffic_shaper.last_heartbeat_us,
            ),
    {
        let mut sent = self.frame(raw);
        if self.traffic_shaper.should_send_heartbeat(now_us) {
            let ghost framed = bytes::views(sent@);
            let beat = self.traffic_shaper.heartbeat_packet();
            sent.push(beat);
            self.traffic_shaper.mark_heartbeat_sent(now_us);
            assert(bytes::views(sent@) =~= framed.push(beat@));
            assert(bytes::views(sent@).drop_last() =~= framed);
        }
        sent
    }

    /// Whether the engine can number the pieces of one more message, whatever its length.
    pub open spec fn has_room(&self) -> bool {
        self.pieces + TOO_MANY_PIECES <= MOST_PIECES
    }

    /// Whether the engine can compare the numbers of a packet with its own, and count the packet.
    pub open spec fn can_read(&self, packet: Seq<u8>) -> bool {
        packet.len() >= KCP_MIN_PACKET ==> self.packets < MOST_PACKETS && kcp_engine::packet_fits(
            self.conv,
            packet,
        )
    }

    /// Whether the engine can number the pieces of one more message.
    pub fn room(&self) -> (b: bool)
        requires
            self.wf(),
        ensures
            b == self.has_room(),
    {
        MOST_PIECES - self.pieces >= TOO_MANY_PIECES as u32
    }

    /// Whether the engine can compare the numbers of a packet with its own, and count the packet.
    pub fn reads(&self, packet: &[u8]) -> (b: bool)
        ensures
            b == self.can_read(packet@),
    {
        packet.len() < KCP_MIN_PACKET || self.packets < MOST_PACKETS && check_packet(
            self.conv,
            packet,
        )
    }

    /// Queues data and gives what is to be sent for it.
    pub fn send(&mut self, data: &[u8], now_us: u64) -> (r: PhantomResult<Vec<Vec<u8>>>)
        requires
            old(self).wf(),
            old(self).has_room(),
        ensures
            sends(*old(self), data@, now_us, *final(self), r),
    {
        if data.len() == 0 {
            return Ok(Vec::new());
        }
        proof {
            bytes::lemma_split_count(data@, PIECE as int);
        }
        let count: usize = (data.len() - 1) / PIECE + 1;
        if let Err(why) = engine_send(&mut self.engine, data) {
            return Err(KcpFault::Send(why).into_error());
        }
        self.pieces = self.pieces + count as u32;
        let (flushed, written): (Result<(), String>, Vec<u8>) = engine_flush(
            &mut self.engine,
            &self.pipe,
        );
        if let Err(why) = flushed {
            return Err(KcpFault::Flush(why).into_error());
        }
        self.output.write(written.as_slice());
        let raw = self.output.take();
        Ok(self.after_send(raw.as_slice(), now_us))
    }

    /// Gives what is to be sent now: the framed output, or nothing where the engine fails.
    pub fn flush(&mut self) -> (sent: Vec<Vec<u8>>)
        requires
            old(self).wf(),
        ensures
            final(self).wf(),
            final(self).same_frame(old(self)),
            final(self).pieces == old(self).pieces,
            final(self).packets == old(self).packets,
            final(self).engine == kcp_engine::flushed(old(self).engine),
            !kcp_engine::knows_time(old(self).engine) ==> sent@.len() == 0 && *final(self)
                == *old(self),
            kcp_engine::knows_time(old(self).engine) ==> {
                &&& frames_all(
                    old(self).output@ + kcp_engine::flush_writes(old(self).engine),
                    bytes::views(sent@),
                    old(self).packet_builder.profile,
                )
                &&& final(self).output@.len() == 0
                &&& kcp_engine::writes_out(old(self).engine, final(self).engine)
            },
    {
        let (flushed, written): (Result<(), String>, Vec<u8>) = engine_flush(
            &mut self.engine,
            &self.pipe,
        );
        if flushed.is_err() {
            return Vec::new();
        }
        self.output.write(written.as_slice());
        let raw = self.output.take();
        self.frame(raw.as_slice())
    }

    /// Tells the engine the time, which it can still count on from. What it writes is kept for
    /// the next send or flush.
    pub fn update(&mut self, current_ms: u32)
        requires
            old(self).wf(),
            current_ms <= LATEST_MS,
        ensures
            final(self).wf(),
            final(self).same_frame(old(self)),
            final(self).pieces == old(self).pieces,
            final(self).packets == old(self).packets,
            final(self).engine == kcp_engine::told(old(self).engine, current_ms),
            kcp_engine::writes_out(old(self).engine, final(self).engine),
            kcp_engine::clock(final(self).engine) == current_ms,
            final(self).output@ == old(self).output@ + kcp_engine::update_writes(
                old(self).engine,
                current_ms,
            ),
    {
        let (_, written): (Result<(), String>, Vec<u8>) = engine_update(
            &mut self.engine,
            &self.pipe,
            current_ms,
        );
        self.output.write(written.as_slice());
    }

    /// Whether a packet is handed to the engine at all.
    pub fn admits(packet: &[u8]) -> (b: bool)
        ensures
            b == (packet@.len() >= KCP_MIN_PACKET),
    {
        packet.len() >= KCP_MIN_PACKET
    }

    /// Hands a packet to the engine and gives the message that is ready then, if any.
    pub fn recv(&mut self, packet: &[u8]) -> (r: PhantomResult<Vec<u8>>)
        requires
            old(self).wf(),
            old(self).can_read(packet@),
        ensures
            receives(*old(self), packet@, *final(self), r),
    {
        if !KcpWrapper::admits(packet) {
            return Err(
                PhantomError::KcpError(
                    String::from_str("Received packet too small to be a valid KCP packet"),
                ),
            );
        }
        self.packets = self.packets + 1;
        if let Err(why) = engine_input(&mut self.engine, packet) {
            return Err(KcpFault::Input(why).into_error());
        }
        let ghost read = self.engine;
        let size: usize = match engine_peeksize(&self.engine) {
            Err(why) => {
                return Err(KcpFault::Peek(why).into_error());
            },
            Ok(size) => size,
        };
        if size == 0 {
            let none: Vec<u8> = Vec::new();
            assert(none@ =~= kcp_engine::ready(read)->Ok_0);
            return Ok(none);
        }
        let mut buffer: Vec<u8> = vec![0u8; size];
        match engine_recv(&mut self.engine, &mut buffer) {
            Err(why) => Err(KcpFault::Recv(why).into_error()),
            Ok(count) => {
                buffer.truncate(count);
                assert(buffer@ =~= kcp_engine::ready(read)->Ok_0);
                Ok(buffer)
            },
        }
    }

    pub fn conv(&self) -> (c: u32)
        ensures
            c == self.conv,
    {
        self.conv
    }

    /// Whether the engine takes over the next packet's conversation number, which a session
    /// never has it do.
    pub fn waiting_conv(&self) -> (b: bool)
        requires
            self.wf(),
        ensures
            !b,
    {
        engine_waiting_conv(&self.engine)
    }

    /// Whether a piece was sent too often without an answer.
    pub fn is_dead_link(&self) -> (b: bool)
        ensures
            b == kcp_engine::is_dead(self.engine),
    {
        engine_is_dead_link(&self.engine)
    }

    /// How many pieces wait to be sent or acknowledged.
    pub fn wait_snd(&self) -> (n: usize)
        ensures
            n == kcp_engine::unacknowledged(self.engine).len(),
    {
        engine_wait_snd(&self.engine)
    }
}

/// A piece has 1376 bytes, and data of up to 127 pieces can be queued at once.
pub proof fn law_pieces_have_their_size(data: Seq<u8>)
    ensures
        data.len() > 0 ==> 1376 * (pieces_of(data) - 1) < data.len() <= 1376 * pieces_of(data),
        data.len() == 0 ==> pieces_of(data) == 0,
        too_long(data) <==> data.len() > 127 * 1376,
{
    bytes::law_split_keeps_to_the_size(data, PIECE as int);
}

/// What goes out is never longer than the profile's largest packet, unless the segment itself is.
pub proof fn law_framed_segments_keep_to_the_size(segment: Seq<u8>, sent: Seq<u8>, profile: GamingProfile)
    requires
        packet::self_sized(segment),
        is_framed(segment, sent, profile),
    ensures
        profile.packet_size_min <= sent.len(),
        sent.len() <= profile.packet_size_max || sent == segment,
        sent.len() >= segment.len(),
{
    if !(sent == segment && segment.len() >= profile.packet_size_min) {
        let noise = choose|noise: Seq<u8>|
            sent == #[trigger] packet::padded_segment(segment, noise) && noise.len() > 0
                && profile.packet_size_min <= segment.len() + noise.len()
                <= profile.packet_size_max;
        packet::law_padded_is_self_sized(segment, noise);
    }
}

/// One packet goes out for each segment that the engine wrote, and one heartbeat more just where the
/// profile's interval has passed since the last; the time of that is remembered.
pub proof fn law_batches_beat_in_time(
    raw: Seq<u8>,
    shaper: TrafficShaper,
    profile: GamingProfile,
    now_us: u64,
    sent: Seq<Seq<u8>>,
    last_us: u64,
)
    requires
        is_batch(raw, shaper, profile, now_us, sent, last_us),
        shaper.last_heartbeat_us <= now_us,
    ensures
        now_us - shaper.last_heartbeat_us >= 1000 * profile.heartbeat_interval_ms ==> sent.len()
            == packet::segments_in(raw).len() + 1 && last_us == now_us && timing::is_heartbeat(
            sent.last(),
        ),
        now_us - shaper.last_heartbeat_us < 1000 * profile.heartbeat_interval_ms ==> sent.len()
            == packet::segments_in(raw).len() && last_us == shaper.last_heartbeat_us,
{
}

/// Data that is sent is queued in its pieces, and a message that is received is the one that the
/// engine has ready; no data asks for nothing, and too short a packet is refused.
pub proof fn law_sessions_hand_on(
    before: KcpWrapper,
    data: Seq<u8>,
    now_us: u64,
    after: KcpWrapper,
    sent: PhantomResult<Vec<Vec<u8>>>,
    got: PhantomResult<Vec<u8>>,
)
    ensures
        sends(before, data, now_us, after, sent) && 0 < data.len() <= 127 * 1376 ==> after.pieces
            - before.pieces == pieces_of(data) && (sent is Ok <==> kcp_engine::knows_time(
            before.engine,
        )),
        sends(before, data, now_us, after, sent) && data.len() > 127 * 1376 ==> sent is Err && after
            == before,
        sends(before, data, now_us, after, sent) && data.len() == 0 ==> sent is Ok && after == before,
        receives(before, data, after, got) && data.len() < 24 ==> got is Err && after == before,
        receives(before, data, after, got) && data.len() >= 24 ==> after.packets == before.packets + 1
            && (got is Ok <==> kcp_engine::input_fault(before.engine, data) is None
            && kcp_engine::ready(kcp_engine::fed(before.engine, data)) is Ok),
        receives(before, data, after, got) && got is Ok ==> kcp_engine::ready(
            kcp_engine::fed(before.engine, data),
        ) == Ok::<Seq<u8>, Seq<char>>(got->Ok_0@),
{
    law_pieces_have_their_size(data);
}

/// A session sends 32 pieces at a time and receives four times as many, flushes fifty times a
/// second, and resends after two skips without waiting.
pub proof fn law_sessions_are_paced(w: KcpWrapper)
    requires
        w.is_set_up(),
    ensures
        kcp_engine::send_window(w.engine) == 32,
        kcp_engine::receive_window(w.engine) == 4 * kcp_engine::send_window(w.engine),
        50 * kcp_engine::flush_interval(w.engine) == 1000,
        kcp_engine::skips_to_resend(w.engine) == 2,
        kcp_engine::has_no_delay(w.engine),
        kcp_engine::has_no_congestion_window(w.engine),
        kcp_engine::piece_room(w.engine) + 24 == 1400,
{
}

} // verus!
