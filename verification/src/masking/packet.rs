//! Data in packets the size of a game's, each behind a 24-byte segment header.

use crate::masking::profiles::GamingProfile;
#[allow(unused_imports)]
use crate::utils::bytes;
use crate::utils::bytes::{
    copy_range, get_u32_le, put_all, put_u16_le, put_u32_le, split_chunks, truncate_u32,
};
use crate::utils::random::{random_between, random_bytes};
use vstd::prelude::*;

verus! {

pub const KCP_HEADER_SIZE: usize = 24;

pub const KCP_HEADER_LEN_OFFSET: usize = 20;

/// The command byte of every segment.
pub const KCP_CMD: u8 = 0x81;

/// The window that every segment announces.
pub const KCP_WND: u16 = 32;

/// A segment: conversation, command, fragment, window, timestamp, sequence number,
/// acknowledged number and length, then the payload.
#[verifier::opaque]
pub open spec fn segment(
    conv: u32,
    frg: u8,
    ts: u32,
    sn: u32,
    una: u32,
    len: u32,
    payload: Seq<u8>,
) -> Seq<u8> {
    bytes::u32_le(conv) + seq![KCP_CMD, frg] + bytes::u16_le(KCP_WND) + bytes::u32_le(ts)
        + bytes::u32_le(sn) + bytes::u32_le(una) + bytes::u32_le(len) + payload
}

/// Where the fields of a segment stand.
pub proof fn lemma_segment_fields(
    conv: u32,
    frg: u8,
    ts: u32,
    sn: u32,
    una: u32,
    len: u32,
    payload: Seq<u8>,
)
    ensures
        ({
            let p = segment(conv, frg, ts, sn, una, len, payload);
            &&& p.len() == KCP_HEADER_SIZE + payload.len()
            &&& bytes::le_u32_at(p, KCP_HEADER_LEN_OFFSET as int) == len
            &&& p.subrange(KCP_HEADER_SIZE as int, p.len() as int) == payload
        }),
{
    reveal(segment);
    let p = segment(conv, frg, ts, sn, una, len, payload);
    assert(p.subrange(20, 24) =~= bytes::u32_le(len));
    bytes::law_u32_le_reads_back(p, 20, len);
    assert(p.subrange(24, p.len() as int) =~= payload);
}

/// Writes a segment out.
pub fn write_segment(
    conv: u32,
    frg: u8,
    ts: u32,
    sn: u32,
    una: u32,
    len: u32,
    payload: &[u8],
) -> (packet: Vec<u8>)
    ensures
        packet@ == segment(conv, frg, ts, sn, una, len, payload@),
{
    let mut packet: Vec<u8> = Vec::new();
    put_u32_le(&mut packet, conv);
    packet.push(KCP_CMD);
    packet.push(frg);
    put_u16_le(&mut packet, KCP_WND);
    put_u32_le(&mut packet, ts);
    put_u32_le(&mut packet, sn);
    put_u32_le(&mut packet, una);
    put_u32_le(&mut packet, len);
    put_all(&mut packet, payload);
    proof {
        reveal(segment);
        assert(packet@ =~= segment(conv, frg, ts, sn, una, len, payload@));
    }
    packet
}

/// The fragment number of piece `index`: nothing for the last piece, else the index
/// counted down from zero in eight bits.
pub open spec fn fragment_number(index: int, is_last: bool) -> u8 {
    if is_last {
        0
    } else {
        ((256 - index % 256) % 256) as u8
    }
}

/// How much of a message one packet carries under a largest packet size.
pub open spec fn payload_room(packet_size_max: int) -> int {
    if packet_size_max > KCP_HEADER_SIZE {
        packet_size_max - KCP_HEADER_SIZE
    } else {
        64
    }
}

/// The segment of piece `index` of a message, sent from sequence number `first`.
pub open spec fn piece_segment(
    conv: u32,
    ts: u32,
    piece: Seq<u8>,
    first: u32,
    index: int,
    is_last: bool,
) -> Seq<u8> {
    segment(
        conv,
        fragment_number(index, is_last),
        ts,
        bytes::low_u32(first + index),
        first,
        (KCP_HEADER_SIZE + piece.len()) as u32,
        piece,
    )
}

/// Whether `packet` is the segment of a piece, for some conversation and timestamp.
pub open spec fn is_piece_segment(
    packet: Seq<u8>,
    piece: Seq<u8>,
    first: u32,
    index: int,
    is_last: bool,
) -> bool {
    exists|conv: u32, ts: u32|
        conv >= 1 && packet == #[trigger] piece_segment(conv, ts, piece, first, index, is_last)
}

/// Whether `packet` carries piece `index` of `pieces`, sent from sequence number `first`.
pub open spec fn carries_piece(
    packet: Seq<u8>,
    pieces: Seq<Seq<u8>>,
    first: u32,
    index: int,
) -> bool {
    is_piece_segment(packet, pieces[index], first, index, index == pieces.len() - 1)
}

/// The segments that stand one after the other at the start of `data`, each as long as
/// it says.
pub open spec fn segments_in(data: Seq<u8>) -> Seq<Seq<u8>>
    decreases data.len(),
{
    let len = bytes::le_u32_at(data, KCP_HEADER_LEN_OFFSET as int);
    if data.len() < KCP_HEADER_SIZE || len < KCP_HEADER_SIZE || len > data.len() {
        Seq::empty()
    } else {
        seq![data.subrange(0, len)] + segments_in(data.subrange(len, data.len() as int))
    }
}

/// Whether a packet's length field tells its length.
pub open spec fn self_sized(packet: Seq<u8>) -> bool {
    packet.len() >= KCP_HEADER_SIZE && bytes::le_u32_at(packet, KCP_HEADER_LEN_OFFSET as int)
        == packet.len()
}

/// Packets whose length fields are right come apart again as they were put together.
pub proof fn law_segments_of_concat(packets: Seq<Seq<u8>>)
    requires
        forall|i: int| 0 <= i < packets.len() ==> self_sized(#[trigger] packets[i]),
    ensures
        segments_in(bytes::concat(packets)) == packets,
    decreases packets.len(),
{
    if packets.len() > 0 {
        let head = packets[0];
        let tail = packets.subrange(1, packets.len() as int);
        assert forall|i: int| 0 <= i < tail.len() implies self_sized(#[trigger] tail[i]) by {
            assert(tail[i] == packets[i + 1]);
        }
        law_segments_of_concat(tail);
        bytes::lemma_concat_adds(seq![head], tail);
        bytes::lemma_concat_one(head);
        assert(seq![head] + tail =~= packets);
        let all = bytes::concat(packets);
        assert(all == head + bytes::concat(tail));
        assert(self_sized(head));
        assert(bytes::le_u32_at(all, 20) == bytes::le_u32_at(head, 20));
        assert(all.subrange(0, head.len() as int) =~= head);
        assert(all.subrange(head.len() as int, all.len() as int) =~= bytes::concat(tail));
    }
}

/// What a message is built into gives back the message: the packets are told apart by
/// their length fields, and their payloads spell the message.
pub proof fn law_built_packets_come_apart(
    packets: Seq<Seq<u8>>,
    data: Seq<u8>,
    first: u32,
    room: int,
)
    requires
        0 < room <= 0xFFFF,
        packets.len() == bytes::split_at_size(data, room).len(),
        forall|i: int|
            0 <= i < packets.len() ==> carries_piece(
                #[trigger] packets[i],
                bytes::split_at_size(data, room),
                first,
                i,
            ),
    ensures
        segments_in(bytes::concat(packets)) == packets,
        bytes::concat(
            packets.map_values(|p: Seq<u8>| p.subrange(KCP_HEADER_SIZE as int, p.len() as int)),
        ) == data,
{
    let pieces = bytes::split_at_size(data, room);
    let payload = |p: Seq<u8>| p.subrange(KCP_HEADER_SIZE as int, p.len() as int);
    bytes::law_split_spells_data(data, room);
    assert forall|i: int| 0 <= i < packets.len() implies self_sized(#[trigger] packets[i])
        && payload(packets[i]) == pieces[i] by {
        assert(carries_piece(packets[i], pieces, first, i));
        let last = i == pieces.len() - 1;
        let (conv, ts) = choose|conv: u32, ts: u32|
            conv >= 1 && packets[i] == #[trigger] piece_segment(
                conv,
                ts,
                pieces[i],
                first,
                i,
                last,
            );
        assert(pieces[i].len() <= room);
        lemma_segment_fields(
            conv,
            fragment_number(i, last),
            ts,
            bytes::low_u32(first + i),
            first,
            (KCP_HEADER_SIZE + pieces[i].len()) as u32,
            pieces[i],
        );
    }
    law_segments_of_concat(packets);
    assert(packets.map_values(payload) =~= pieces);
}

/// A packet with `noise` behind it and its new length in the header.
pub open spec fn padded_segment(packet: Seq<u8>, noise: Seq<u8>) -> Seq<u8> {
    let all = packet + noise;
    all.subrange(0, KCP_HEADER_LEN_OFFSET as int) + bytes::u32_le(
        bytes::low_u32(all.len() as int),
    ) + all.subrange(KCP_HEADER_SIZE as int, all.len() as int)
}

/// A padded packet is one segment as long as it says.
pub proof fn law_padded_is_self_sized(packet: Seq<u8>, noise: Seq<u8>)
    requires
        KCP_HEADER_SIZE <= packet.len() + noise.len() <= u32::MAX,
    ensures
        self_sized(padded_segment(packet, noise)),
        padded_segment(packet, noise).len() == packet.len() + noise.len(),
        segments_in(padded_segment(packet, noise)) == seq![padded_segment(packet, noise)],
{
    let p = padded_segment(packet, noise);
    assert(p.subrange(20, 24) =~= bytes::u32_le(bytes::low_u32(p.len() as int)));
    bytes::law_u32_le_reads_back(p, 20, bytes::low_u32(p.len() as int));
    bytes::lemma_concat_one(p);
    law_segments_of_concat(seq![p]);
}

/// Puts `noise` behind `packet` and writes the new length into the header.
pub fn pad_packet_with(packet: &mut Vec<u8>, noise: &[u8])
    requires
        old(packet)@.len() + noise@.len() >= KCP_HEADER_SIZE,
    ensures
        final(packet)@ == padded_segment(old(packet)@, noise@),
{
    put_all(packet, noise);
    let ghost all = packet@;
    let total: u32 = truncate_u32(packet.len());
    packet[20] = (total % 256) as u8;
    packet[21] = (total / 256 % 256) as u8;
    packet[22] = (total / 65536 % 256) as u8;
    packet[23] = (total / 16777216) as u8;
    assert(packet@ =~= padded_segment(old(packet)@, noise@));
}

#[derive(Debug)]
pub struct PacketBuilder {
    pub profile: GamingProfile,
    pub sequence: u32,
}

impl PacketBuilder {
    pub fn new(profile: GamingProfile) -> (b: Self)
        ensures
            b.profile == profile,
            b.sequence == 0,
    {
        PacketBuilder { profile, sequence: 0 }
    }

    /// Cuts `data` into packets of at most the profile's largest size.
    pub fn build(&mut self, data: &[u8]) -> (packets: Vec<Vec<u8>>)
        ensures
            ({
                let pieces = bytes::split_at_size(
                    data@,
                    payload_room(old(self).profile.packet_size_max as int),
                );
                &&& packets@.len() == pieces.len()
                &&& forall|i: int|
                    0 <= i < packets@.len() ==> carries_piece(
                        (#[trigger] packets@[i])@,
                        pieces,
                        old(self).sequence,
                        i,
                    )
                &&& final(self).sequence == bytes::low_u32(old(self).sequence + pieces.len())
            }),
            final(self).profile == old(self).profile,
    {
        let pieces = split_chunks(data, self.max_payload_size());
        let ghost all = bytes::views(pieces@);
        let count: usize = pieces.len();
        let mut packets: Vec<Vec<u8>> = Vec::new();
        let mut i: usize = 0;
        proof {
            bytes::law_split_spells_data(data@, payload_room(self.profile.packet_size_max as int));
        }
        while i < count
            invariant
                i <= count,
                count == pieces@.len(),
                all == bytes::views(pieces@),
                all == bytes::split_at_size(
                    data@,
                    payload_room(self.profile.packet_size_max as int),
                ),
                forall|k: int|
                    0 <= k < all.len() ==> (#[trigger] all[k]).len() <= payload_room(
                        self.profile.packet_size_max as int,
                    ),
                self.profile == old(self).profile,
                self.sequence == old(self).sequence,
                packets@.len() == i,
                forall|k: int|
                    0 <= k < i ==> carries_piece(
                        (#[trigger] packets@[k])@,
                        all,
                        old(self).sequence,
                        k,
                    ),
            decreases count - i,
        {
            assert(all[i as int] == pieces@[i as int]@);
            let packet = self.build_kcp_packet(pieces[i].as_slice(), i, i == count - 1);
            packets.push(packet);
            i = i + 1;
        }
        self.sequence = self.sequence.wrapping_add(truncate_u32(count));
        packets
    }

    /// One packet around `payload`, with a drawn conversation and timestamp.
    pub fn build_kcp_packet(&self, payload: &[u8], fragment_index: usize, is_last: bool) -> (packet:
        Vec<u8>)
        requires
            payload@.len() <= 0xFFFF,
        ensures
            is_piece_segment(
                packet@,
                payload@,
                self.sequence,
                fragment_index as int,
                is_last,
            ),
    {
        let conv: u32 = random_between(1, 0xFFFF_FFFF) as u32;
        let ts: u32 = random_between(0, 0xFFFF_FFFF) as u32;
        let frg: u8 = if is_last {
            0
        } else {
            ((256 - fragment_index % 256) % 256) as u8
        };
        let sn: u32 = self.sequence.wrapping_add(truncate_u32(fragment_index));
        let len: u32 = (KCP_HEADER_SIZE + payload.len()) as u32;
        let packet = write_segment(conv, frg, ts, sn, self.sequence, len, payload);
        assert(packet@ == piece_segment(
            conv,
            ts,
            payload@,
            self.sequence,
            fragment_index as int,
            is_last,
        ));
        packet
    }

    fn max_payload_size(&self) -> (room: usize)
        ensures
            room == payload_room(self.profile.packet_size_max as int),
    {
        let max_packet: usize = self.profile.packet_size_max as usize;
        if max_packet > KCP_HEADER_SIZE {
            max_packet - KCP_HEADER_SIZE
        } else {
            64
        }
    }

    /// A drawn size within the profile's range.
    fn random_packet_size(&self) -> (size: usize)
        requires
            self.profile.packet_size_min <= self.profile.packet_size_max,
        ensures
            self.profile.packet_size_min <= size <= self.profile.packet_size_max,
    {
        random_between(
            self.profile.packet_size_min as u64,
            self.profile.packet_size_max as u64,
        ) as usize
    }

    /// Pads `packet` with random bytes up to a drawn size, unless it is that long already.
    pub fn pad_packet(&self, packet: &mut Vec<u8>)
        requires
            self.profile.packet_size_min <= self.profile.packet_size_max,
            old(packet)@.len() + 1 >= KCP_HEADER_SIZE || self.profile.packet_size_min
                >= KCP_HEADER_SIZE || self.profile.packet_size_max <= old(packet)@.len(),
        ensures
            *final(packet) == *old(packet) && old(packet)@.len() >= self.profile.packet_size_min
                || exists|noise: Seq<u8>|
                final(packet)@ == #[trigger] padded_segment(old(packet)@, noise) && noise.len() > 0
                    && self.profile.packet_size_min <= old(packet)@.len() + noise.len()
                    <= self.profile.packet_size_max,
    {
        let target_size: usize = self.random_packet_size();
        let current_len: usize = packet.len();
        if current_len >= target_size {
            return;
        }
        let noise = random_bytes(target_size - current_len);
        pad_packet_with(packet, noise.as_slice());
    }

    pub fn profile(&self) -> (p: &GamingProfile)
        ensures
            *p == self.profile,
    {
        &self.profile
    }

    /// Takes apart segments that stand one after the other; stops at the first that is
    /// not whole.
    pub fn parse_kcp_packets(data: &[u8]) -> (packets: Vec<Vec<u8>>)
        ensures
            bytes::views(packets@) == segments_in(data@),
    {
        let mut packets: Vec<Vec<u8>> = Vec::new();
        let mut offset: usize = 0;
        assert(data@.subrange(0, data@.len() as int) =~= data@);
        assert(bytes::views(packets@) + segments_in(data@) =~= segments_in(data@));
        while offset <= data.len() && data.len() - offset >= KCP_HEADER_SIZE
            invariant
                offset <= data@.len(),
                bytes::views(packets@) + segments_in(
                    data@.subrange(offset as int, data@.len() as int),
                ) == segments_in(data@),
            ensures
                bytes::views(packets@) == segments_in(data@),
            decreases data@.len() - offset,
        {
            let ghost rest = data@.subrange(offset as int, data@.len() as int);
            let packet_len: usize = get_u32_le(data, offset + KCP_HEADER_LEN_OFFSET) as usize;
            assert(packet_len == bytes::le_u32_at(rest, KCP_HEADER_LEN_OFFSET as int));
            if packet_len < KCP_HEADER_SIZE || packet_len > data.len() - offset {
                assert(segments_in(rest) =~= Seq::empty());
                assert(bytes::views(packets@) + Seq::empty() =~= bytes::views(packets@));
                break;
            }
            let packet = copy_range(data, offset, offset + packet_len);
            let ghost before = bytes::views(packets@);
            let ghost next = data@.subrange(offset + packet_len, data@.len() as int);
            packets.push(packet);
            proof {
                assert(bytes::views(packets@) =~= before.push(packet@));
                assert(packet@ =~= rest.subrange(0, packet_len as int));
                assert(next =~= rest.subrange(packet_len as int, rest.len() as int));
                assert(before.push(packet@) + segments_in(next) =~= before + (seq![packet@]
                    + segments_in(next)));
            }
            offset = offset + packet_len;
            if data.len() - offset < KCP_HEADER_SIZE {
                assert(segments_in(next) =~= Seq::empty());
                assert(bytes::views(packets@) + Seq::empty() =~= bytes::views(packets@));
            }
        }
        packets
    }
}

/// Where everything stands in a segment: the conversation first, the command 0x81 and the fragment
/// number behind it, a window of 32, the time, the sequence number, the acknowledged number and the
/// length, each with its lowest byte first, and the payload behind 24 bytes.
pub proof fn law_segment_layout(
    conv: u32,
    frg: u8,
    ts: u32,
    sn: u32,
    una: u32,
    len: u32,
    payload: Seq<u8>,
)
    ensures
        ({
            let p = segment(conv, frg, ts, sn, una, len, payload);
            &&& p.len() == 24 + payload.len()
            &&& bytes::le_u32_at(p, 0) == conv
            &&& p[4] == 0x81
            &&& p[5] == frg
            &&& p[6] + 256 * p[7] == 32
            &&& bytes::le_u32_at(p, 8) == ts
            &&& bytes::le_u32_at(p, 12) == sn
            &&& bytes::le_u32_at(p, 16) == una
            &&& bytes::le_u32_at(p, 20) == len
            &&& p.skip(24) == payload
        }),
{
    reveal(segment);
    let p = segment(conv, frg, ts, sn, una, len, payload);
    assert(p.subrange(0, 4) =~= bytes::u32_le(conv));
    assert(p.subrange(8, 12) =~= bytes::u32_le(ts));
    assert(p.subrange(12, 16) =~= bytes::u32_le(sn));
    assert(p.subrange(16, 20) =~= bytes::u32_le(una));
    assert(p.subrange(20, 24) =~= bytes::u32_le(len));
    bytes::law_u32_le_reads_back(p, 0, conv);
    bytes::law_u32_le_reads_back(p, 8, ts);
    bytes::law_u32_le_reads_back(p, 12, sn);
    bytes::law_u32_le_reads_back(p, 16, una);
    bytes::law_u32_le_reads_back(p, 20, len);
    assert(p.skip(24) =~= payload);
}

/// The packets that data is built into: none is longer than the profile's largest size, each is
/// numbered one higher than the one before and says how long it is, each acknowledges what came
/// before the data, and only the last ends the message.
pub proof fn law_built_packets_keep_to_the_size(
    p: Seq<u8>,
    data: Seq<u8>,
    packet_size_max: int,
    first: u32,
    i: int,
)
    requires
        24 < packet_size_max <= u16::MAX,
        0 <= i < bytes::split_at_size(data, payload_room(packet_size_max)).len(),
        carries_piece(p, bytes::split_at_size(data, payload_room(packet_size_max)), first, i),
    ensures
        24 < p.len() <= packet_size_max,
        bytes::le_u32_at(p, 20) == p.len(),
        bytes::le_u32_at(p, 12) == (first + i) % 0x1_0000_0000,
        bytes::le_u32_at(p, 16) == first,
        bytes::le_u32_at(p, 0) >= 1,
        i == bytes::split_at_size(data, payload_room(packet_size_max)).len() - 1 ==> p[5] == 0,
        0 < i < 256 && i < bytes::split_at_size(data, payload_room(packet_size_max)).len() - 1
            ==> p[5] == 256 - i,
        p.skip(24) == bytes::split_at_size(data, payload_room(packet_size_max))[i],
{
    let pieces = bytes::split_at_size(data, payload_room(packet_size_max));
    let piece = pieces[i];
    let is_last = i == pieces.len() - 1;
    bytes::law_split_keeps_to_the_size(data, payload_room(packet_size_max));
    let (conv, ts) = choose|conv: u32, ts: u32|
        conv >= 1 && p == #[trigger] piece_segment(conv, ts, piece, first, i, is_last);
    law_segment_layout(
        conv,
        fragment_number(i, is_last),
        ts,
        bytes::low_u32(first + i),
        first,
        (KCP_HEADER_SIZE + piece.len()) as u32,
        piece,
    );
}

} // verus!
