//! Game packets on the wire: a 24-byte header, the data, and padding.

#[allow(unused_imports)]
use crate::utils::bytes;
use crate::utils::bytes::{copy_range, get_u32_le, put_all, put_u16_le, put_u32_le, truncate_u32};
use crate::utils::random::random_between;
use vstd::prelude::*;

verus! {

pub const HEADER_SIZE: usize = 24;

pub const MIN_PAYLOAD_SIZE: usize = 16;

pub const MAGIC_BYTE: u8 = 0xA7;

/// The largest number of fragments that one group can hold.
pub const MAX_GROUP: usize = 15;

#[derive(Debug, Clone, Copy, PartialEq, Eq, Structural)]
pub enum GamePacketType {
    Movement,
    Action,
    State,
    Keepalive,
    Voice,
}

impl GamePacketType {
    pub open spec fn byte(self) -> u8 {
        match self {
            GamePacketType::Movement => 0x01,
            GamePacketType::Action => 0x02,
            GamePacketType::State => 0x03,
            GamePacketType::Keepalive => 0x04,
            GamePacketType::Voice => 0x05,
        }
    }

    /// How many draws tell the types of a packet of this size apart.
    pub open spec fn draws(size: int) -> int {
        if size < 80 {
            4
        } else if size < 600 {
            3
        } else {
            1
        }
    }

    /// The type that the draw `r` gives a packet of this size.
    pub open spec fn of_draw(size: int, r: int) -> GamePacketType {
        if size < 80 {
            if r == 1 {
                GamePacketType::Keepalive
            } else if r == 2 {
                GamePacketType::State
            } else {
                GamePacketType::Movement
            }
        } else if size < 300 {
            if r == 0 {
                GamePacketType::Action
            } else if r == 1 {
                GamePacketType::State
            } else {
                GamePacketType::Movement
            }
        } else if size < 600 {
            if r == 0 {
                GamePacketType::Voice
            } else if r == 1 {
                GamePacketType::Action
            } else {
                GamePacketType::State
            }
        } else {
            GamePacketType::Action
        }
    }

    /// Whether some draw gives this type to a packet of this size.
    pub open spec fn fits_size(self, size: int) -> bool {
        exists|r: int| 0 <= r < Self::draws(size) && self == #[trigger] Self::of_draw(size, r)
    }

    pub fn to_byte(self) -> (b: u8)
        ensures
            b == self.byte(),
    {
        match self {
            GamePacketType::Movement => 0x01,
            GamePacketType::Action => 0x02,
            GamePacketType::State => 0x03,
            GamePacketType::Keepalive => 0x04,
            GamePacketType::Voice => 0x05,
        }
    }

    pub fn from_byte(b: u8) -> (t: Option<Self>)
        ensures
            t matches Some(k) ==> k.byte() == b,
            t is None <==> !(1 <= b <= 5),
    {
        match b {
            0x01 => Some(GamePacketType::Movement),
            0x02 => Some(GamePacketType::Action),
            0x03 => Some(GamePacketType::State),
            0x04 => Some(GamePacketType::Keepalive),
            0x05 => Some(GamePacketType::Voice),
            _ => None,
        }
    }

    /// The type that the draw `r` gives a packet of `size` bytes.
    pub fn select_by_draw(size: usize, r: u8) -> (t: Self)
        ensures
            t == Self::of_draw(size as int, r as int),
    {
        if size < 80 {
            match r {
                0 => GamePacketType::Movement,
                1 => GamePacketType::Keepalive,
                2 => GamePacketType::State,
                _ => GamePacketType::Movement,
            }
        } else if size < 300 {
            match r {
                0 => GamePacketType::Action,
                1 => GamePacketType::State,
                _ => GamePacketType::Movement,
            }
        } else if size < 600 {
            match r {
                0 => GamePacketType::Voice,
                1 => GamePacketType::Action,
                _ => GamePacketType::State,
            }
        } else {
            GamePacketType::Action
        }
    }

    /// Draws one of the types that suit a packet of `size` bytes.
    pub fn select_by_size(size: usize) -> (t: Self)
        ensures
            t.fits_size(size as int),
    {
        let high: u64 = if size < 80 {
            3
        } else if size < 600 {
            2
        } else {
            0
        };
        let r: u64 = random_between(0, high);
        let t = Self::select_by_draw(size, r as u8);
        assert(t == Self::of_draw(size as int, r as int));
        t
    }
}

/// A type's byte reads back as the type.
pub proof fn law_packet_type_bytes_differ(a: GamePacketType, b: GamePacketType)
    ensures
        a.byte() == b.byte() ==> a == b,
        1 <= a.byte() <= 5,
{
}

/// Position of a fragment in its group.
#[derive(Debug, Clone, Copy, Default)]
pub struct FragmentState {
    pub current_fragment: usize,
    pub total_fragments: usize,
    pub fragment_size: usize,
}

/// The low byte of `n`, cut off at fifteen.
pub open spec fn nibble(n: int) -> int {
    if n % 256 < 15 {
        n % 256
    } else {
        15
    }
}

impl FragmentState {
    pub open spec fn encoded(current: int, total: int) -> u8 {
        (16 * nibble(current) + nibble(total)) as u8
    }

    pub fn new(current: usize, total: usize, frag_size: usize) -> (s: Self)
        ensures
            s == (FragmentState {
                current_fragment: current,
                total_fragments: total,
                fragment_size: frag_size,
            }),
    {
        FragmentState {
            current_fragment: current,
            total_fragments: total,
            fragment_size: frag_size,
        }
    }

    /// Both counters in one byte: the current fragment in the high half, the total in
    /// the low half.
    pub fn encode(&self) -> (b: u8)
        ensures
            b == Self::encoded(self.current_fragment as int, self.total_fragments as int),
    {
        let total: u8 = (self.total_fragments % 256) as u8;
        let current: u8 = (self.current_fragment % 256) as u8;
        let total_clamped: u8 = if total < 0x0F { total } else { 0x0F };
        let current_clamped: u8 = if current < 0x0F { current } else { 0x0F };
        16 * current_clamped + total_clamped
    }

    pub fn decode(byte: u8) -> (s: Self)
        ensures
            s == (FragmentState {
                current_fragment: (byte / 16) as usize,
                total_fragments: (byte % 16) as usize,
                fragment_size: 0,
            }),
    {
        FragmentState {
            current_fragment: (byte / 16) as usize,
            total_fragments: (byte % 16) as usize,
            fragment_size: 0,
        }
    }
}

/// Counters below sixteen survive the trip through the header byte.
pub proof fn law_fragment_state_round_trip(current: int, total: int)
    requires
        0 <= current <= 15,
        0 <= total <= 15,
    ensures
        FragmentState::encoded(current, total) / 16 == current,
        FragmentState::encoded(current, total) % 16 == total,
{
}

// ---- Framing ----

/// The packet that carries `body`, whose first `data_len` bytes are data.
#[verifier::opaque]
pub open spec fn framed(
    conversation_id: u32,
    kind: GamePacketType,
    fragment: u8,
    now_ms: u32,
    seq: u64,
    original_len: int,
    data_len: int,
    body: Seq<u8>,
) -> Seq<u8> {
    seq![MAGIC_BYTE] + bytes::u32_le(conversation_id).subrange(0, 3) + seq![kind.byte(), fragment]
        + bytes::u16_le(32) + bytes::u32_le(now_ms) + bytes::u32_le(bytes::low_u32(seq as int)) + bytes::u32_le(bytes::low_u32(original_len))
        + bytes::u32_le(bytes::low_u32(data_len)) + body
}

/// What a packet says about the fragment in it.
pub struct Frame {
    pub payload: Seq<u8>,
    pub seq: u32,
    pub current: usize,
    pub total: usize,
    pub original_len: nat,
}

/// The fragment in a packet, where the packet is long enough, starts with the magic
/// byte, and holds as many data bytes as it says.
pub open spec fn parsed(packet: Seq<u8>) -> Option<Frame> {
    if packet.len() < HEADER_SIZE || packet[0] != MAGIC_BYTE || packet.len() < HEADER_SIZE
        + bytes::le_u32_at(packet, 20) {
        None
    } else {
        Some(
            Frame {
                payload: packet.subrange(
                    HEADER_SIZE as int,
                    HEADER_SIZE + bytes::le_u32_at(packet, 20),
                ),
                seq: bytes::le_u32_at(packet, 12) as u32,
                current: (packet[5] / 16) as usize,
                total: (packet[5] % 16) as usize,
                original_len: bytes::le_u32_at(packet, 16) as nat,
            },
        )
    }
}

/// A framed fragment parses to the fields it was framed with; the padding behind the
/// data is ignored.
pub proof fn law_framed_parses(
    conversation_id: u32,
    kind: GamePacketType,
    current: int,
    total: int,
    now_ms: u32,
    seq: u64,
    original_len: int,
    data_len: int,
    body: Seq<u8>,
)
    requires
        0 <= current <= 15,
        0 <= total <= 15,
        0 <= data_len <= body.len(),
    ensures
        parsed(
            framed(
                conversation_id,
                kind,
                FragmentState::encoded(current, total),
                now_ms,
                seq,
                original_len,
                data_len,
                body,
            ),
        ) == Some(
            Frame {
                payload: body.subrange(0, bytes::low_u32(data_len) as int),
                seq: bytes::low_u32(seq as int),
                current: current as usize,
                total: total as usize,
                original_len: bytes::low_u32(original_len) as nat,
            },
        ),
{
    reveal(framed);
    let fragment = FragmentState::encoded(current, total);
    let p = framed(
        conversation_id,
        kind,
        fragment,
        now_ms,
        seq,
        original_len,
        data_len,
        body,
    );
    assert(p.len() == HEADER_SIZE + body.len());
    assert(p[0] == MAGIC_BYTE);
    assert(p[5] == fragment);
    assert(p.subrange(12, 16) =~= bytes::u32_le(bytes::low_u32(seq as int)));
    assert(p.subrange(16, 20) =~= bytes::u32_le(bytes::low_u32(original_len)));
    assert(p.subrange(20, 24) =~= bytes::u32_le(bytes::low_u32(data_len)));
    bytes::law_u32_le_reads_back(p, 12, bytes::low_u32(seq as int));
    bytes::law_u32_le_reads_back(p, 16, bytes::low_u32(original_len));
    bytes::law_u32_le_reads_back(p, 20, bytes::low_u32(data_len));
    law_fragment_state_round_trip(current, total);
    assert(bytes::low_u32(data_len) <= data_len);
    assert(p.subrange(HEADER_SIZE as int, HEADER_SIZE + bytes::low_u32(data_len)) =~= body.subrange(
        0,
        bytes::low_u32(data_len) as int,
    ));
}

/// Puts a header in front of `body`, whose first `data_len` bytes are data.
pub fn frame_packet(
    conversation_id: u32,
    kind: GamePacketType,
    state: &FragmentState,
    now_ms: u32,
    seq: u64,
    original_len: usize,
    data_len: usize,
    body: &[u8],
) -> (packet: Vec<u8>)
    ensures
        packet@ == framed(
            conversation_id,
            kind,
            FragmentState::encoded(state.current_fragment as int, state.total_fragments as int),
            now_ms,
            seq,
            original_len as int,
            data_len as int,
            body@,
        ),
{
    let mut packet: Vec<u8> = Vec::new();
    packet.push(MAGIC_BYTE);
    packet.push((conversation_id % 256) as u8);
    packet.push((conversation_id / 256 % 256) as u8);
    packet.push((conversation_id / 65536 % 256) as u8);
    packet.push(kind.to_byte());
    packet.push(state.encode());
    assert(packet@ =~= seq![MAGIC_BYTE] + bytes::u32_le(conversation_id).subrange(0, 3) + seq![
        kind.byte(),
        FragmentState::encoded(state.current_fragment as int, state.total_fragments as int),
    ]);
    put_u16_le(&mut packet, 32);
    put_u32_le(&mut packet, now_ms);
    put_u32_le(&mut packet, (seq % 0x1_0000_0000) as u32);
    put_u32_le(&mut packet, truncate_u32(original_len));
    put_u32_le(&mut packet, truncate_u32(data_len));
    put_all(&mut packet, body);
    proof {
        reveal(framed);
    }
    packet
}

/// A parsed packet: the fragment's data and where it belongs.
pub struct GameFrame {
    pub payload: Vec<u8>,
    pub seq: u32,
    pub state: FragmentState,
    pub original_len: usize,
}

impl View for GameFrame {
    type V = Frame;

    open spec fn view(&self) -> Frame {
        Frame {
            payload: self.payload@,
            seq: self.seq,
            current: self.state.current_fragment,
            total: self.state.total_fragments,
            original_len: self.original_len as nat,
        }
    }
}

/// Takes a packet apart.
pub fn parse_packet(packet: &[u8]) -> (frame: Option<GameFrame>)
    ensures
        frame is Some <==> parsed(packet@) is Some,
        frame matches Some(f) ==> f@ == parsed(packet@)->0,
{
    if packet.len() < HEADER_SIZE {
        return None;
    }
    if packet[0] != MAGIC_BYTE {
        return None;
    }
    let payload_len: u32 = get_u32_le(packet, 20);
    let original_len: u32 = get_u32_le(packet, 16);
    let seq: u32 = get_u32_le(packet, 12);
    if packet.len() - HEADER_SIZE < payload_len as usize {
        return None;
    }
    let payload = copy_range(packet, HEADER_SIZE, HEADER_SIZE + payload_len as usize);
    let state = FragmentState::decode(packet[5]);
    Some(GameFrame { payload, seq, state, original_len: original_len as usize })
}

proof fn lemma_low_three_bytes(x: u32)
    ensures
        ({
            let c = bytes::u32_le(x);
            c[0] + 256 * c[1] + 65536 * c[2] == x % 0x100_0000
        }),
{
}

/// Where everything stands in a game packet: the magic byte 0xA7, three bytes of the conversation, the
/// type, the fragment counters, a window of 32, the time, the sequence number, the length of all data
/// and that of the data in this packet, each with its lowest byte first, and the body behind 24 bytes.
#[verifier::rlimit(60)]
#[verifier::spinoff_prover]
pub proof fn law_frame_layout(
    conversation_id: u32,
    kind: GamePacketType,
    fragment: u8,
    now_ms: u32,
    seq: u64,
    original_len: int,
    data_len: int,
    body: Seq<u8>,
)
    ensures
        ({
            let p = framed(
                conversation_id,
                kind,
                fragment,
                now_ms,
                seq,
                original_len,
                data_len,
                body,
            );
            &&& p.len() == 24 + body.len()
            &&& p[0] == 0xA7
            &&& p[1] + 256 * p[2] + 65536 * p[3] == conversation_id % 0x100_0000
            &&& p[4] == kind.byte()
            &&& p[5] == fragment
            &&& p[6] + 256 * p[7] == 32
            &&& bytes::le_u32_at(p, 8) == now_ms
            &&& bytes::le_u32_at(p, 12) == seq % 0x1_0000_0000
            &&& bytes::le_u32_at(p, 16) == original_len % 0x1_0000_0000
            &&& bytes::le_u32_at(p, 20) == data_len % 0x1_0000_0000
            &&& p.skip(24) == body
        }),
{
    reveal(framed);
    let p = framed(
        conversation_id,
        kind,
        fragment,
        now_ms,
        seq,
        original_len,
        data_len,
        body,
    );
    let c = bytes::u32_le(conversation_id);
    let head = seq![MAGIC_BYTE] + c.subrange(0, 3) + seq![kind.byte(), fragment] + bytes::u16_le(32);
    assert(head.len() == 8);
    assert(p.subrange(0, 8) =~= head);
    assert(p[0] == p.subrange(0, 8)[0] && p[1] == p.subrange(0, 8)[1] && p[2] == p.subrange(0, 8)[2]
        && p[3] == p.subrange(0, 8)[3] && p[4] == p.subrange(0, 8)[4] && p[5] == p.subrange(0, 8)[5]
        && p[6] == p.subrange(0, 8)[6] && p[7] == p.subrange(0, 8)[7]);
    lemma_low_three_bytes(conversation_id);
    assert(p.subrange(8, 12) =~= bytes::u32_le(now_ms));
    assert(p.subrange(12, 16) =~= bytes::u32_le(bytes::low_u32(seq as int)));
    assert(p.subrange(16, 20) =~= bytes::u32_le(bytes::low_u32(original_len)));
    assert(p.subrange(20, 24) =~= bytes::u32_le(bytes::low_u32(data_len)));
    bytes::law_u32_le_reads_back(p, 8, now_ms);
    bytes::law_u32_le_reads_back(p, 12, bytes::low_u32(seq as int));
    bytes::law_u32_le_reads_back(p, 16, bytes::low_u32(original_len));
    bytes::law_u32_le_reads_back(p, 20, bytes::low_u32(data_len));
    assert(p.skip(24) =~= body);
}

/// A packet's type suits its size: small ones move, say how things stand or keep alive, middling ones
/// act as well, voice comes between 300 and 600 bytes, and what is larger acts.
pub proof fn law_types_suit_sizes(kind: GamePacketType, size: int)
    requires
        kind.fits_size(size),
    ensures
        size >= 600 ==> kind == GamePacketType::Action,
        size < 80 ==> kind == GamePacketType::Movement || kind == GamePacketType::Keepalive || kind
            == GamePacketType::State,
        80 <= size < 300 ==> kind == GamePacketType::Action || kind == GamePacketType::State || kind
            == GamePacketType::Movement,
        300 <= size < 600 ==> kind == GamePacketType::Voice || kind == GamePacketType::Action || kind
            == GamePacketType::State,
{
}

/// Each type that suits a size can be drawn for it.
pub proof fn law_suitable_types_can_be_drawn(size: int)
    ensures
        size < 80 ==> GamePacketType::Movement.fits_size(size) && GamePacketType::Keepalive.fits_size(
            size,
        ) && GamePacketType::State.fits_size(size),
        80 <= size < 300 ==> GamePacketType::Action.fits_size(size)
            && GamePacketType::State.fits_size(size) && GamePacketType::Movement.fits_size(size),
        300 <= size < 600 ==> GamePacketType::Voice.fits_size(size)
            && GamePacketType::Action.fits_size(size) && GamePacketType::State.fits_size(size),
        size >= 600 ==> GamePacketType::Action.fits_size(size),
{
    let a = GamePacketType::of_draw(size, 0);
    let b = GamePacketType::of_draw(size, 1);
    let c = GamePacketType::of_draw(size, 2);
    assert(a == GamePacketType::of_draw(size, 0));
    if size < 600 {
        assert(b == GamePacketType::of_draw(size, 1));
        assert(c == GamePacketType::of_draw(size, 2));
    }
}

/// What does not start with the magic byte, is shorter than a header, or holds less data than it says
/// is not a game packet.
pub proof fn law_other_bytes_are_not_game_packets(packet: Seq<u8>)
    ensures
        packet.len() < 24 ==> parsed(packet) is None,
        packet.len() >= 24 && packet[0] != 0xA7 ==> parsed(packet) is None,
        packet.len() >= 24 && packet.len() < 24 + bytes::le_u32_at(packet, 20) ==> parsed(
            packet,
        ) is None,
        parsed(packet) matches Some(f) ==> f.payload.len() == bytes::le_u32_at(packet, 20)
            && f.payload == packet.subrange(24, 24 + bytes::le_u32_at(packet, 20)),
{
}

/// The place of a fragment stands in the upper half of its byte and the number of fragments in the
/// lower, each up to fifteen.
pub proof fn law_fragment_byte_holds_place_and_number(current: int, total: int)
    requires
        0 <= current < 256,
        0 <= total < 256,
    ensures
        FragmentState::encoded(current, total) / 16 == if current < 15 {
            current
        } else {
            15
        },
        FragmentState::encoded(current, total) % 16 == if total < 15 {
            total
        } else {
            15
        },
        FragmentState::encoded(current + 256, total + 256) == FragmentState::encoded(
            current,
            total,
        ),
{
}

} // verus!
