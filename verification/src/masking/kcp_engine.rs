//! The session engine of the `kcp` crate, and what the library relies on of it. The engine
//! counts pieces and milliseconds in 32 bits and takes differences of them in 31, so its times,
//! its pieces and the numbers that it is sent are kept far below those limits.

#[allow(unused_imports)]
use crate::utils::bytes;
use crate::utils::bytes::get_u32_le;
#[allow(unused_imports)]
use crate::utils::text;
use std::sync::{Arc, Mutex};
use vstd::prelude::*;

verus! {

/// Pieces of one message that an engine refuses to queue at once, and more.
pub const TOO_MANY_PIECES: usize = 128;

/// The latest time that an engine is told, in milliseconds: six days. Eight times a round trip
/// of that length, and the three times that long wait of a piece resent that late, can still be
/// counted.
pub const LATEST_MS: u32 = 0x1FFF_FFFF;

/// The most pieces that an engine queues in all. A piece is resent at most 50 times within
/// `LATEST_MS`, as it waits half as long again each time, so all resends can be counted.
pub const MOST_PIECES: u32 = 0x400_0000;

/// The largest number of a segment, and the latest time, that an engine takes from its peer.
pub const FARTHEST: u32 = 0x3FFF_FFFF;

/// Bytes of a segment's header.
pub const HEADER: usize = 24;

/// Kinds of segments: data, and an acknowledgement.
pub const PUSH: u8 = 81;

pub const ACK: u8 = 82;

/// The last kind of segments; the first is `PUSH`.
pub const LAST_KIND: u8 = 84;

/// Whether the numbers of the segment at the start of `s` can be compared with an engine's own:
/// what has been received, for data also its place and how many pieces follow, and for an
/// acknowledgement its place and its time.
pub open spec fn segment_fits(s: Seq<u8>) -> bool {
    &&& bytes::le_u32_at(s, 16) <= FARTHEST
    &&& s[4] == PUSH || s[4] == ACK ==> bytes::le_u32_at(s, 12) <= FARTHEST
    &&& s[4] == ACK ==> bytes::le_u32_at(s, 8) <= FARTHEST
    &&& s[4] == PUSH ==> s[5] < 255
}

/// Whether an engine of this conversation refuses the packet `s` at its first segment.
pub open spec fn stops_at(conv: u32, s: Seq<u8>) -> bool {
    ||| bytes::le_u32_at(s, 0) != conv
    ||| bytes::le_u32_at(s, 20) > s.len() - HEADER
    ||| !(PUSH <= s[4] <= LAST_KIND)
}

/// Whether the numbers of all segments fit that an engine of this conversation reads of a
/// packet.
pub open spec fn packet_fits(conv: u32, s: Seq<u8>) -> bool
    decreases s.len(),
{
    if s.len() < HEADER || stops_at(conv, s) {
        true
    } else {
        &&& segment_fits(s)
        &&& packet_fits(conv, s.skip(HEADER + bytes::le_u32_at(s, 20)))
    }
}

/// Whether the numbers of all segments fit that an engine of this conversation reads of a
/// packet.
pub fn check_packet(conv: u32, packet: &[u8]) -> (fits: bool)
    ensures
        fits == packet_fits(conv, packet@),
{
    let mut at: usize = 0;
    assert(packet@.skip(0) =~= packet@);
    while packet.len() - at >= HEADER
        invariant
            at <= packet@.len(),
            packet_fits(conv, packet@) == packet_fits(conv, packet@.skip(at as int)),
        decreases packet@.len() - at,
    {
        let ghost rest = packet@.skip(at as int);
        let kind: u8 = packet[at + 4];
        let len: u32 = get_u32_le(packet, at + 20);
        assert(kind == rest[4]);
        assert(len == bytes::le_u32_at(rest, 20));
        if get_u32_le(packet, at) != conv || len as usize > packet.len() - at - HEADER || kind
            < PUSH || kind > LAST_KIND {
            return true;
        }
        let numbered: bool = kind == PUSH || kind == ACK;
        if get_u32_le(packet, at + 16) > FARTHEST || numbered && get_u32_le(packet, at + 12)
            > FARTHEST || kind == ACK && get_u32_le(packet, at + 8) > FARTHEST || kind == PUSH
            && packet[at + 5] == 255 {
            assert(!segment_fits(rest));
            return false;
        }
        assert(segment_fits(rest));
        assert(rest.skip(HEADER + len) =~= packet@.skip(at + HEADER + len));
        at = at + HEADER + len as usize;
    }
    true
}

/// `kcp::Kcp`, the engine.
#[verifier::external_type_specification]
#[verifier::external_body]
#[verifier::reject_recursive_types(Output)]
pub struct ExKcp<Output>(kcp::Kcp<Output>);

/// `std::sync::Mutex`, which guards what an engine has written.
#[verifier::external_type_specification]
#[verifier::external_body]
#[verifier::reject_recursive_types(T)]
pub struct ExMutex<T: ?Sized>(std::sync::Mutex<T>);

/// `std::io::Error`, which a writer may report and `KcpPipe` never does.
#[verifier::external_type_specification]
#[verifier::external_body]
pub struct ExIoError(std::io::Error);

/// Where an engine writes: a buffer that is shared with whoever drains it.
#[derive(Debug)]
pub struct KcpPipe {
    cell: Arc<Mutex<Vec<u8>>>,
}

/// `std::sync::Mutex::lock`, to put `data` behind what the buffer holds. The buffer is
/// shared, so nothing is claimed of it.
#[verifier::external_body]
fn push(cell: &Arc<Mutex<Vec<u8>>>, data: &[u8]) {
    cell.lock().unwrap_or_else(|e| e.into_inner()).extend_from_slice(data)
}

impl std::io::Write for KcpPipe {
    fn write(&mut self, data: &[u8]) -> std::io::Result<usize> {
        push(&self.cell, data);
        Ok(data.len())
    }

    fn flush(&mut self) -> std::io::Result<()> {
        Ok(())
    }
}

/// Whether the engine writes to this pipe.
pub uninterp spec fn writes_to(engine: kcp::Kcp<KcpPipe>, pipe: KcpPipe) -> bool;

/// The pieces that wait to be sent or acknowledged, in the order they were queued.
pub uninterp spec fn unacknowledged(engine: kcp::Kcp<KcpPipe>) -> Seq<Seq<u8>>;

/// How long a piece may be.
pub uninterp spec fn piece_room(engine: kcp::Kcp<KcpPipe>) -> int;

/// Whether the engine has been told the time.
pub uninterp spec fn knows_time(engine: kcp::Kcp<KcpPipe>) -> bool;

/// Whether the engine takes over the conversation number of the next packet.
pub uninterp spec fn awaits_conv(engine: kcp::Kcp<KcpPipe>) -> bool;

/// Whether a piece was sent too often without an answer.
pub uninterp spec fn is_dead(engine: kcp::Kcp<KcpPipe>) -> bool;

/// The conversation number.
pub uninterp spec fn conversation(engine: kcp::Kcp<KcpPipe>) -> u32;

/// How many pieces may be on their way.
pub uninterp spec fn send_window(engine: kcp::Kcp<KcpPipe>) -> int;

/// How many pieces may wait to be received.
pub uninterp spec fn receive_window(engine: kcp::Kcp<KcpPipe>) -> int;

/// Whether the engine resends early.
pub uninterp spec fn has_no_delay(engine: kcp::Kcp<KcpPipe>) -> bool;

/// How many milliseconds pass between two flushes.
pub uninterp spec fn flush_interval(engine: kcp::Kcp<KcpPipe>) -> int;

/// How often a piece is skipped before it is resent at once; never for 0.
pub uninterp spec fn skips_to_resend(engine: kcp::Kcp<KcpPipe>) -> int;

/// Whether the engine sends without a congestion window.
pub uninterp spec fn has_no_congestion_window(engine: kcp::Kcp<KcpPipe>) -> bool;

/// The time that the engine was told last.
pub uninterp spec fn clock(engine: kcp::Kcp<KcpPipe>) -> int;

/// How many pieces the engine has queued since it was made.
pub uninterp spec fn pieces_queued(engine: kcp::Kcp<KcpPipe>) -> int;

/// How often a piece that waits to be acknowledged has been skipped, at most.
pub uninterp spec fn most_skips(engine: kcp::Kcp<KcpPipe>) -> int;

/// What `kcp::Kcp::flush` writes.
pub uninterp spec fn flush_writes(engine: kcp::Kcp<KcpPipe>) -> Seq<u8>;

/// What `kcp::Kcp::update` writes when it is told the time.
pub uninterp spec fn update_writes(engine: kcp::Kcp<KcpPipe>, current_ms: u32) -> Seq<u8>;

/// Why `kcp::Kcp::input` refuses a packet, where it does.
pub uninterp spec fn input_fault(engine: kcp::Kcp<KcpPipe>, packet: Seq<u8>) -> Option<Seq<char>>;

/// The message that is ready to be received, or why none is.
pub uninterp spec fn ready(engine: kcp::Kcp<KcpPipe>) -> Result<Seq<u8>, Seq<char>>;

/// The engine that `kcp::Kcp::send` leaves.
pub uninterp spec fn queued(engine: kcp::Kcp<KcpPipe>, data: Seq<u8>) -> kcp::Kcp<KcpPipe>;

/// The engine that `kcp::Kcp::flush` leaves.
pub uninterp spec fn flushed(engine: kcp::Kcp<KcpPipe>) -> kcp::Kcp<KcpPipe>;

/// The engine that `kcp::Kcp::update` leaves.
pub uninterp spec fn told(engine: kcp::Kcp<KcpPipe>, current_ms: u32) -> kcp::Kcp<KcpPipe>;

/// The engine that `kcp::Kcp::input` leaves.
pub uninterp spec fn fed(engine: kcp::Kcp<KcpPipe>, packet: Seq<u8>) -> kcp::Kcp<KcpPipe>;

/// The engine that `kcp::Kcp::recv` leaves.
pub uninterp spec fn drained(engine: kcp::Kcp<KcpPipe>) -> kcp::Kcp<KcpPipe>;

/// Whether an engine's own numbers are far from their limits.
pub open spec fn counts(engine: kcp::Kcp<KcpPipe>) -> bool {
    &&& 0 <= clock(engine) <= LATEST_MS
    &&& 0 <= pieces_queued(engine) <= MOST_PIECES
}

/// Whether two engines have the same windows.
pub open spec fn same_windows(a: kcp::Kcp<KcpPipe>, b: kcp::Kcp<KcpPipe>) -> bool {
    &&& send_window(a) == send_window(b)
    &&& receive_window(a) == receive_window(b)
}

/// Whether two engines resend and flush alike.
pub open spec fn same_pace(a: kcp::Kcp<KcpPipe>, b: kcp::Kcp<KcpPipe>) -> bool {
    &&& has_no_delay(a) == has_no_delay(b)
    &&& flush_interval(a) == flush_interval(b)
    &&& skips_to_resend(a) == skips_to_resend(b)
    &&& has_no_congestion_window(a) == has_no_congestion_window(b)
}

/// Whether two engines are of the same conversation, write to the same pipe and hold the same.
pub open spec fn same_contents(a: kcp::Kcp<KcpPipe>, b: kcp::Kcp<KcpPipe>) -> bool {
    &&& forall|p: KcpPipe| #[trigger] writes_to(a, p) == writes_to(b, p)
    &&& conversation(a) == conversation(b)
    &&& knows_time(a) == knows_time(b)
    &&& awaits_conv(a) == awaits_conv(b)
    &&& is_dead(a) == is_dead(b)
    &&& clock(a) == clock(b)
    &&& pieces_queued(a) == pieces_queued(b)
    &&& most_skips(a) == most_skips(b)
    &&& unacknowledged(a) == unacknowledged(b)
    &&& ready(a) == ready(b)
}

/// Whether two engines are of the same conversation, write to the same pipe and are set up
/// alike.
pub open spec fn same_setup(a: kcp::Kcp<KcpPipe>, b: kcp::Kcp<KcpPipe>) -> bool {
    &&& piece_room(a) == piece_room(b)
    &&& conversation(a) == conversation(b)
    &&& same_windows(a, b)
    &&& same_pace(a, b)
    &&& forall|p: KcpPipe| #[trigger] writes_to(a, p) == writes_to(b, p)
}

/// Whether an engine has queued `data` and is else as it was.
pub open spec fn queues(
    before: kcp::Kcp<KcpPipe>,
    data: Seq<u8>,
    after: kcp::Kcp<KcpPipe>,
) -> bool {
    &&& same_setup(before, after)
    &&& knows_time(after) == knows_time(before)
    &&& awaits_conv(after) == awaits_conv(before)
    &&& is_dead(after) == is_dead(before)
    &&& ready(after) == ready(before)
    &&& clock(after) == clock(before)
    &&& most_skips(after) == most_skips(before)
    &&& pieces_queued(after) == pieces_queued(before) + bytes::split_at_size(
        data,
        piece_room(before),
    ).len()
    &&& unacknowledged(after) == unacknowledged(before) + bytes::split_at_size(
        data,
        piece_room(before),
    )
}

/// Whether an engine may be in the state `after` once it has read a packet: pieces may have
/// been acknowledged or skipped once more, but none has come up.
pub open spec fn takes_in(before: kcp::Kcp<KcpPipe>, after: kcp::Kcp<KcpPipe>) -> bool {
    &&& same_setup(before, after)
    &&& knows_time(after) == knows_time(before)
    &&& is_dead(after) == is_dead(before)
    &&& awaits_conv(after) == awaits_conv(before)
    &&& clock(after) == clock(before)
    &&& pieces_queued(after) == pieces_queued(before)
    &&& most_skips(after) <= most_skips(before) + 1
    &&& unacknowledged(after).to_multiset().subset_of(unacknowledged(before).to_multiset())
}

/// Whether an engine is as it was but for what it has received.
pub open spec fn same_sending(before: kcp::Kcp<KcpPipe>, after: kcp::Kcp<KcpPipe>) -> bool {
    &&& same_setup(before, after)
    &&& knows_time(after) == knows_time(before)
    &&& awaits_conv(after) == awaits_conv(before)
    &&& is_dead(after) == is_dead(before)
    &&& clock(after) == clock(before)
    &&& pieces_queued(after) == pieces_queued(before)
    &&& most_skips(after) == most_skips(before)
    &&& unacknowledged(after) == unacknowledged(before)
}

/// Whether an engine may be in the state `after` once it has written what is due: what it holds
/// stays, and no piece has been skipped more often.
pub open spec fn writes_out(before: kcp::Kcp<KcpPipe>, after: kcp::Kcp<KcpPipe>) -> bool {
    &&& same_setup(before, after)
    &&& knows_time(after)
    &&& awaits_conv(after) == awaits_conv(before)
    &&& pieces_queued(after) == pieces_queued(before)
    &&& most_skips(after) <= most_skips(before)
    &&& unacknowledged(after) == unacknowledged(before)
    &&& ready(after) == ready(before)
    &&& is_dead(before) ==> is_dead(after)
}

/// Whether an engine holds nothing, has pieces of 1376 bytes, has not been told the time, and
/// keeps its conversation number.
pub open spec fn is_fresh(engine: kcp::Kcp<KcpPipe>) -> bool {
    &&& unacknowledged(engine).len() == 0
    &&& piece_room(engine) == 1376
    &&& !knows_time(engine)
    &&& !awaits_conv(engine)
    &&& !is_dead(engine)
    &&& clock(engine) == 0
    &&& ready(engine) is Err
    &&& ready(engine)->Err_0 == "recv queue is empty"@
}

/// Whether windows were set: 0 keeps a window, and the receiving one has room for 128 pieces or
/// more.
pub open spec fn sets_windows(
    before: kcp::Kcp<KcpPipe>,
    send: u16,
    recv: u16,
    after: kcp::Kcp<KcpPipe>,
) -> bool {
    &&& send_window(after) == if send > 0 {
        send as int
    } else {
        send_window(before)
    }
    &&& receive_window(after) == if recv == 0 {
        receive_window(before)
    } else if recv > 128 {
        recv as int
    } else {
        128
    }
}

/// Whether the pace was set: the interval lies between 10 and 5000 ms, and a negative number of
/// skips keeps what was set before.
pub open spec fn sets_pace(
    before: kcp::Kcp<KcpPipe>,
    nodelay: bool,
    interval_ms: i32,
    resend: i32,
    no_congestion_control: bool,
    after: kcp::Kcp<KcpPipe>,
) -> bool {
    &&& has_no_delay(after) == nodelay
    &&& flush_interval(after) == if interval_ms < 10 {
        10
    } else if interval_ms > 5000 {
        5000
    } else {
        interval_ms as int
    }
    &&& skips_to_resend(after) == if resend >= 0 {
        resend as int
    } else {
        skips_to_resend(before)
    }
    &&& has_no_congestion_window(after) == no_congestion_control
}

/// `kcp::Kcp::new`, with a new pipe. Claimed: the engine is of this conversation, writes to the
/// pipe, holds nothing, and has the crate's own windows and pace.
#[verifier::external_body]
pub(crate) fn engine_new(conv: u32) -> (r: (kcp::Kcp<KcpPipe>, KcpPipe))
    ensures
        writes_to(r.0, r.1),
        conversation(r.0) == conv,
        send_window(r.0) == 32,
        receive_window(r.0) == 128,
        !has_no_delay(r.0),
        flush_interval(r.0) == 100,
        skips_to_resend(r.0) == 0,
        !has_no_congestion_window(r.0),
        pieces_queued(r.0) == 0,
        most_skips(r.0) == 0,
        is_fresh(r.0),
{
    let cell = Arc::new(Mutex::new(Vec::new()));
    let pipe = KcpPipe { cell: cell.clone() };
    (kcp::Kcp::new(conv, pipe), KcpPipe { cell })
}

/// `kcp::Kcp::set_wndsize`. Claimed: the windows are set, where 0 keeps one and the receiving
/// one is at least 128; nothing else that is named changes but what is written.
#[verifier::external_body]
pub(crate) fn engine_set_wndsize(engine: &mut kcp::Kcp<KcpPipe>, send: u16, recv: u16)
    ensures
        sets_windows(*old(engine), send, recv, *final(engine)),
        same_contents(*old(engine), *final(engine)),
        same_pace(*old(engine), *final(engine)),
        piece_room(*final(engine)) == piece_room(*old(engine)),
{
    engine.set_wndsize(send, recv)
}

/// `kcp::Kcp::set_nodelay`. Claimed: the pace is set, with the interval kept between 10 and 5000
/// ms; nothing else that is named changes but what is written. The engine adds the skips to half
/// a window in 16 bits, so larger numbers are left out.
#[verifier::external_body]
pub(crate) fn engine_set_nodelay(
    engine: &mut kcp::Kcp<KcpPipe>,
    nodelay: bool,
    interval_ms: i32,
    resend: i32,
    no_congestion_control: bool,
)
    requires
        resend <= 0x7FFF,
    ensures
        sets_pace(
            *old(engine),
            nodelay,
            interval_ms,
            resend,
            no_congestion_control,
            *final(engine),
        ),
        same_contents(*old(engine), *final(engine)),
        same_windows(*old(engine), *final(engine)),
        piece_room(*final(engine)) == piece_room(*old(engine)),
{
    engine.set_nodelay(nodelay, interval_ms, resend, no_congestion_control)
}

/// `kcp::Kcp::set_mtu`. Claimed: packets of under 50 bytes are refused and change nothing;
/// else a piece has room for all of a packet but its header of 24 bytes, and nothing else that is
/// named changes but what is written. The engine reserves room for three packets, so sizes that
/// no packet can have are left out.
#[verifier::external_body]
pub(crate) fn engine_set_mtu(engine: &mut kcp::Kcp<KcpPipe>, mtu: usize) -> (r: Result<(), String>)
    requires
        mtu <= 0xFFFF,
    ensures
        r is Ok == (mtu >= 50),
        r matches Err(e) ==> e@ == "invalid mtu "@ + text::decimal_of(mtu as nat),
        r is Err ==> *final(engine) == *old(engine),
        r is Ok ==> piece_room(*final(engine)) == mtu - 24,
        same_contents(*old(engine), *final(engine)),
        same_windows(*old(engine), *final(engine)),
        same_pace(*old(engine), *final(engine)),
{
    engine.set_mtu(mtu).map_err(|e| e.to_string())
}

/// `kcp::Kcp::send`, for an engine that keeps messages apart. The engine that it leaves is named.
/// Claimed besides: data that comes to 128 pieces or more is refused and changes nothing; else it
/// is queued in pieces, and all of it is counted. No data would be queued as an empty piece, and
/// is left out.
#[verifier::external_body]
pub(crate) fn engine_send(engine: &mut kcp::Kcp<KcpPipe>, data: &[u8]) -> (r: Result<usize, String>)
    requires
        data@.len() > 0,
        piece_room(*old(engine)) > 0,
    ensures
        *final(engine) == queued(*old(engine), data@),
        bytes::split_at_size(data@, piece_room(*old(engine))).len() >= TOO_MANY_PIECES
            ==> *final(engine) == *old(engine) && (r matches Err(e) && e@
            == "user's send buffer is too big"@),
        bytes::split_at_size(data@, piece_room(*old(engine))).len() < TOO_MANY_PIECES ==> queues(
            *old(engine),
            data@,
            *final(engine),
        ) && (r matches Ok(n) && n == data@.len()),
{
    engine.send(data).map_err(|e| e.to_string())
}

/// `kcp::Kcp::flush`, with what it wrote. What is written and the engine that is left are named.
/// Claimed besides: an engine that has not been told the time refuses, writes nothing and stays as
/// it is; any other flushes and keeps what waits to be acknowledged. The engine adds to its clock
/// and to its pieces without regard to their limits, so engines near those are left out.
#[verifier::external_body]
pub(crate) fn engine_flush(engine: &mut kcp::Kcp<KcpPipe>, pipe: &KcpPipe) -> (r: (
    Result<(), String>,
    Vec<u8>,
))
    requires
        writes_to(*old(engine), *pipe),
        counts(*old(engine)),
    ensures
        *final(engine) == flushed(*old(engine)),
        !knows_time(*old(engine)) ==> *final(engine) == *old(engine) && r.1@.len() == 0 && (
        r.0 matches Err(e) && e@ == "need to call update() once"@),
        knows_time(*old(engine)) ==> {
            &&& r.0 is Ok
            &&& r.1@ == flush_writes(*old(engine))
            &&& writes_out(*old(engine), *final(engine))
            &&& clock(*final(engine)) == clock(*old(engine))
        },
{
    pipe.cell.lock().unwrap_or_else(|e| e.into_inner()).clear();
    let r = engine.flush().map_err(|e| e.to_string());
    let raw = std::mem::take(&mut *pipe.cell.lock().unwrap_or_else(|e| e.into_inner()));
    (r, raw)
}

/// `kcp::Kcp::update`, with what it wrote. What is written and the engine that is left are named.
/// Claimed besides: it succeeds, as the pipe takes all that is written; the engine has been told
/// the time and keeps what waits to be acknowledged. The engine adds to its clock and to its
/// pieces without regard to their limits, so times and engines near those are left out.
#[verifier::external_body]
pub(crate) fn engine_update(
    engine: &mut kcp::Kcp<KcpPipe>,
    pipe: &KcpPipe,
    current_ms: u32,
) -> (r: (Result<(), String>, Vec<u8>))
    requires
        writes_to(*old(engine), *pipe),
        counts(*old(engine)),
        current_ms <= LATEST_MS,
    ensures
        r.0 is Ok,
        r.1@ == update_writes(*old(engine), current_ms),
        *final(engine) == told(*old(engine), current_ms),
        writes_out(*old(engine), *final(engine)),
        clock(*final(engine)) == current_ms,
{
    pipe.cell.lock().unwrap_or_else(|e| e.into_inner()).clear();
    let r = engine.update(current_ms).map_err(|e| e.to_string());
    let raw = std::mem::take(&mut *pipe.cell.lock().unwrap_or_else(|e| e.into_inner()));
    (r, raw)
}

/// `kcp::Kcp::input`, for an engine that keeps its conversation number. Why it refuses a packet and
/// the engine that is left are named. Claimed besides: a packet without a whole header is refused;
/// the setup stays, and nothing new waits to be acknowledged. The engine takes differences of the
/// numbers that it reads and adds one to the pieces that follow, without regard to their limits,
/// so packets with numbers that do not fit are left out.
#[verifier::external_body]
pub(crate) fn engine_input(engine: &mut kcp::Kcp<KcpPipe>, packet: &[u8]) -> (r: Result<
    usize,
    String,
>)
    requires
        !awaits_conv(*old(engine)),
        counts(*old(engine)),
        most_skips(*old(engine)) + 1 < u32::MAX,
        packet_fits(conversation(*old(engine)), packet@),
    ensures
        r is Ok == input_fault(*old(engine), packet@) is None,
        r matches Err(e) ==> input_fault(*old(engine), packet@) == Some(e@),
        packet@.len() < 24 ==> r is Err,
        *final(engine) == fed(*old(engine), packet@),
        takes_in(*old(engine), *final(engine)),
{
    engine.input(packet).map_err(|e| e.to_string())
}

/// `kcp::Kcp::peeksize`. Claimed: it is the length of the message that is ready, or why none
/// is. It adds one to the pieces that follow, which `engine_input` keeps below 255.
#[verifier::external_body]
pub(crate) fn engine_peeksize(engine: &kcp::Kcp<KcpPipe>) -> (r: Result<usize, String>)
    ensures
        match ready(*engine) {
            Ok(message) => r matches Ok(n) && n == message.len(),
            Err(why) => r matches Err(e) && e@ == why,
        },
{
    engine.peeksize().map_err(|e| e.to_string())
}

/// `kcp::Kcp::recv`. The engine that is left is named. Claimed besides: the message that is ready
/// is put at the front of a buffer that has room for it and counted; else the engine and the
/// buffer stay as they are.
#[verifier::external_body]
pub(crate) fn engine_recv(engine: &mut kcp::Kcp<KcpPipe>, buffer: &mut Vec<u8>) -> (r: Result<
    usize,
    String,
>)
    ensures
        final(buffer)@.len() == old(buffer)@.len(),
        match ready(*old(engine)) {
            Ok(message) => if message.len() <= old(buffer)@.len() {
                &&& r matches Ok(n) && n == message.len()
                &&& final(buffer)@ == message + old(buffer)@.skip(message.len() as int)
                &&& *final(engine) == drained(*old(engine))
                &&& same_sending(*old(engine), *final(engine))
            } else {
                &&& r matches Err(e) && e@ == "user's recv buffer is too small"@
                &&& *final(engine) == *old(engine)
                &&& *final(buffer) == *old(buffer)
            },
            Err(why) => {
                &&& r matches Err(e) && e@ == why
                &&& *final(engine) == *old(engine)
                &&& *final(buffer) == *old(buffer)
            },
        },
{
    engine.recv(buffer.as_mut_slice()).map_err(|e| e.to_string())
}

/// `kcp::Kcp::waiting_conv`. Claimed: it tells what is named.
#[verifier::external_body]
pub(crate) fn engine_waiting_conv(engine: &kcp::Kcp<KcpPipe>) -> (b: bool)
    ensures
        b == awaits_conv(*engine),
{
    engine.waiting_conv()
}

/// `kcp::Kcp::is_dead_link`. Claimed: it tells what is named.
#[verifier::external_body]
pub(crate) fn engine_is_dead_link(engine: &kcp::Kcp<KcpPipe>) -> (b: bool)
    ensures
        b == is_dead(*engine),
{
    engine.is_dead_link()
}

/// `kcp::Kcp::wait_snd`. Claimed: it counts what waits to be sent or acknowledged.
#[verifier::external_body]
pub(crate) fn engine_wait_snd(engine: &kcp::Kcp<KcpPipe>) -> (n: usize)
    ensures
        n == unacknowledged(*engine).len(),
{
    engine.wait_snd()
}

/// Windows that are asked for are given, none smaller for receiving than 128 pieces; nothing asked
/// for keeps what was set.
pub proof fn law_windows_are_given_as_asked(
    before: kcp::Kcp<KcpPipe>,
    send: u16,
    recv: u16,
    after: kcp::Kcp<KcpPipe>,
)
    requires
        sets_windows(before, send, recv, after),
    ensures
        send > 0 ==> send_window(after) == send,
        send == 0 ==> send_window(after) == send_window(before),
        recv == 0 ==> receive_window(after) == receive_window(before),
        recv > 0 ==> receive_window(after) >= 128 && receive_window(after) >= recv,
        recv >= 128 ==> receive_window(after) == recv,
{
}

/// The interval that is asked for is given within ten milliseconds and five seconds.
pub proof fn law_pace_is_given_as_asked(
    before: kcp::Kcp<KcpPipe>,
    nodelay: bool,
    interval_ms: i32,
    resend: i32,
    no_congestion_control: bool,
    after: kcp::Kcp<KcpPipe>,
)
    requires
        sets_pace(before, nodelay, interval_ms, resend, no_congestion_control, after),
    ensures
        10 <= flush_interval(after) <= 5000,
        10 <= interval_ms <= 5000 ==> flush_interval(after) == interval_ms,
        has_no_delay(after) == nodelay,
        has_no_congestion_window(after) == no_congestion_control,
        resend >= 0 ==> skips_to_resend(after) == resend,
        resend < 0 ==> skips_to_resend(after) == skips_to_resend(before),
{
}

} // verus!
