//! Data turned into game packets, and game packets turned back into data.
//!
//! A message is cut into chunks whose sizes follow sampled packet sizes. Every chunk
//! becomes one packet: a header, the chunk, and random padding up to the sampled size.
//! Because a header counts fragments in half a byte, a long message travels as several
//! groups of at most fifteen fragments each.

#[allow(unused_imports)]
use crate::masking::{game_packet, reassembly};
pub use crate::masking::game_packet::{
    FragmentState, GamePacketType, HEADER_SIZE, MAGIC_BYTE, MIN_PAYLOAD_SIZE,
};
use crate::masking::adversarial::{AdversarialMasker, MaskingDecision, MaskingDraws};
use crate::masking::traffic_target::TrafficTarget;
#[allow(unused_imports)]
use crate::masking::burst_engine;
use crate::masking::burst_engine::{BurstEngine, BurstSamples, BurstState, PacketAction};
use crate::masking::game_packet::{frame_packet, Frame, MAX_GROUP};
use crate::masking::reassembly::{PendingGroup, Reassembler};
use crate::masking::statistical_model::StatisticalGameTrafficModel;
#[allow(unused_imports)]
use crate::utils::bytes;
use crate::utils::bytes::{copy_range, put_all, put_u32_le, truncate_u32};
use crate::utils::random::{random_between, random_bytes};
use crate::utils::PhantomResult;
use vstd::prelude::*;

verus! {

// ---- Fragmenting ----

/// What was sampled for one packet: its size on the wire, its delay, and the clock
/// when it is framed.
#[derive(Debug, Clone, Copy)]
pub struct PacketSample {
    pub target_size: u16,
    pub delay_ms: u32,
    pub now_ms: u32,
}

/// How many data bytes a packet of this size carries.
pub open spec fn capacity(target_size: int) -> int {
    if target_size - HEADER_SIZE > MIN_PAYLOAD_SIZE {
        target_size - HEADER_SIZE
    } else {
        MIN_PAYLOAD_SIZE as int
    }
}

/// As many samples as a message of `len` bytes can use up.
pub open spec fn samples_needed(len: int) -> int {
    1 + (len + MIN_PAYLOAD_SIZE - 1) / MIN_PAYLOAD_SIZE as int
}

/// `data` cut by the capacities of successive samples.
pub open spec fn cut(data: Seq<u8>, samples: Seq<PacketSample>) -> Seq<Seq<u8>>
    decreases data.len(),
{
    if data.len() == 0 {
        Seq::empty()
    } else {
        let room = capacity(samples[0].target_size as int);
        let k = if data.len() <= room {
            data.len() as int
        } else {
            room
        };
        seq![data.subrange(0, k)] + cut(data.subrange(k, data.len() as int), samples.skip(1))
    }
}

/// The chunks of a message: the whole message where it fits the first sample, else
/// one chunk for each of the samples that follow.
pub open spec fn chunks_of(data: Seq<u8>, samples: Seq<PacketSample>) -> Seq<Seq<u8>> {
    if data.len() <= capacity(samples[0].target_size as int) {
        seq![data]
    } else {
        cut(data, samples.skip(1))
    }
}

/// The sampled size that the chunk at `i` is padded to.
pub open spec fn target_of(data: Seq<u8>, samples: Seq<PacketSample>, i: int) -> int {
    if data.len() <= capacity(samples[0].target_size as int) {
        samples[0].target_size as int
    } else {
        samples[i + 1].target_size as int
    }
}

/// The chunks spell the message, none is empty, and there are never more than the
/// samples allow.
proof fn lemma_cut(data: Seq<u8>, samples: Seq<PacketSample>)
    ensures
        bytes::concat(cut(data, samples)) == data,
        16 * cut(data, samples).len() <= data.len() + 15,
        data.len() > 0 ==> cut(data, samples).len() > 0,
        forall|i: int|
            0 <= i < cut(data, samples).len() ==> 0 < (#[trigger] cut(data, samples)[i]).len()
                <= u16::MAX,
    decreases data.len(),
{
    if data.len() > 0 {
        let room = capacity(samples[0].target_size as int);
        let k = if data.len() <= room {
            data.len() as int
        } else {
            room
        };
        let head = data.subrange(0, k);
        let rest = data.subrange(k, data.len() as int);
        lemma_cut(rest, samples.skip(1));
        bytes::lemma_concat_adds(seq![head], cut(rest, samples.skip(1)));
        bytes::lemma_concat_one(head);
        assert(head + rest =~= data);
    }
}

/// Cutting loses nothing: the chunks of a message, one after the other, are the message.
pub proof fn law_chunks_spell_data(data: Seq<u8>, samples: Seq<PacketSample>)
    ensures
        bytes::concat(chunks_of(data, samples)) == data,
        chunks_of(data, samples).len() >= 1,
        chunks_of(data, samples).len() < samples_needed(data.len() as int) || data.len() == 0,
{
    if data.len() <= capacity(samples[0].target_size as int) {
        bytes::lemma_concat_one(data);
    } else {
        lemma_cut(data, samples.skip(1));
    }
}

/// A chunk and the padding behind it.
#[derive(Debug)]
pub struct Fragment {
    pub body: Vec<u8>,
    pub data_len: usize,
}

/// How many padding bytes bring `len` data bytes to a packet of `target_size`.
pub open spec fn padding_len(len: int, target_size: int) -> int {
    if len < target_size - HEADER_SIZE {
        target_size - HEADER_SIZE - len
    } else {
        0
    }
}

/// Random padding with its own length written over its last four bytes, where it has
/// as many.
pub open spec fn marked(noise: Seq<u8>) -> Seq<u8> {
    if noise.len() >= 4 {
        noise.subrange(0, noise.len() - 4) + bytes::u32_le(bytes::low_u32(noise.len() as int))
    } else {
        noise
    }
}

/// Appends `noise` to `data` as padding.
pub fn pad_with(data: Vec<u8>, noise: Vec<u8>) -> (padded: Vec<u8>)
    ensures
        padded@ == data@ + marked(noise@),
{
    let n: usize = noise.len();
    let mut result: Vec<u8> = data;
    if n >= 4 {
        put_all(&mut result, vstd::slice::slice_subrange(noise.as_slice(), 0, n - 4));
        put_u32_le(&mut result, truncate_u32(n));
        assert(result@ =~= data@ + marked(noise@));
    } else {
        put_all(&mut result, noise.as_slice());
    }
    result
}

/// Whether `body` is `data` padded with some random bytes for a packet of `target_size`.
pub open spec fn is_padded(body: Seq<u8>, data: Seq<u8>, target_size: int) -> bool {
    exists|noise: Seq<u8>|
        noise.len() == padding_len(data.len() as int, target_size) && body == data
            + #[trigger] marked(noise)
}

/// Whether each fragment holds its chunk, padded to its sampled size.
pub open spec fn fragments_hold(
    fragments: Seq<Fragment>,
    data: Seq<u8>,
    samples: Seq<PacketSample>,
) -> bool {
    let chunks = chunks_of(data, samples);
    &&& fragments.len() == chunks.len()
    &&& forall|i: int|
        0 <= i < fragments.len() ==> {
            &&& (#[trigger] fragments[i]).data_len == chunks[i].len()
            &&& is_padded(fragments[i].body@, chunks[i], target_of(data, samples, i))
        }
}

// ---- Groups ----

/// Index of the first fragment of the group that fragment `i` belongs to.
pub open spec fn group_start(i: int) -> int {
    i - i % (MAX_GROUP as int)
}

/// Number of fragments in the group of fragment `i`, out of `n` in all.
pub open spec fn group_total(n: int, i: int) -> int {
    if n - group_start(i) < MAX_GROUP {
        n - group_start(i)
    } else {
        MAX_GROUP as int
    }
}

/// The data that the group of fragment `i` carries.
pub open spec fn group_data(chunks: Seq<Seq<u8>>, i: int) -> Seq<u8> {
    bytes::concat(
        chunks.subrange(group_start(i), group_start(i) + group_total(chunks.len() as int, i)),
    )
}

/// What the packet of fragment `i` says.
pub open spec fn frame_of(chunks: Seq<Seq<u8>>, first_seq: int, i: int) -> Frame {
    Frame {
        payload: chunks[i].subrange(0, bytes::low_u32(chunks[i].len() as int) as int),
        seq: bytes::low_u32(first_seq + i),
        current: (i % (MAX_GROUP as int)) as usize,
        total: group_total(chunks.len() as int, i) as usize,
        original_len: bytes::low_u32(group_data(chunks, i).len() as int) as nat,
    }
}

#[derive(Debug)]
pub struct MorphedPacket {
    pub data: Vec<u8>,
    pub delay_us: u64,
    pub packet_type: GamePacketType,
    pub sequence: u64,
}

/// The delay of a packet: what was sampled, and never less than a millisecond.
pub open spec fn delay_of(sample: PacketSample) -> int {
    if sample.delay_ms < 1 {
        1000
    } else {
        1000 * sample.delay_ms
    }
}

/// Whether `p` frames `body` (data of length `data_len`, then padding) at `seq` with a
/// type that suits the size.
pub open spec fn frames(
    p: Seq<u8>,
    conversation_id: u32,
    current: int,
    total: int,
    now_ms: u32,
    seq: u64,
    original_len: int,
    data_len: int,
    body: Seq<u8>,
) -> bool {
    exists|kind: GamePacketType|
        kind.fits_size(body.len() as int) && p == #[trigger] game_packet::framed(
            conversation_id,
            kind,
            FragmentState::encoded(current, total),
            now_ms,
            seq,
            original_len,
            data_len,
            body,
        )
}

/// The longer of two times.
pub open spec fn longer(a: int, b: int) -> int {
    if a < b {
        b
    } else {
        a
    }
}

/// Whether `p` is the packet of chunk `i` of `data`, sent at `first_seq + i` after at
/// least `wait_us`.
pub open spec fn morphs(
    p: MorphedPacket,
    data: Seq<u8>,
    samples: Seq<PacketSample>,
    conversation_id: u32,
    first_seq: int,
    wait_us: int,
    i: int,
) -> bool {
    let chunks = chunks_of(data, samples);
    &&& p.sequence == (first_seq + i) % 0x1_0000_0000_0000_0000
    &&& p.delay_us == longer(wait_us, delay_of(samples[i]))
    &&& p.packet_type.fits_size(p.data@.len() as int)
    &&& exists|body: Seq<u8>|
        #![trigger frames(p.data@, conversation_id, i % (MAX_GROUP as int), group_total(chunks.len() as int, i), samples[i].now_ms, p.sequence, group_data(chunks, i).len() as int, chunks[i].len() as int, body)]
        is_padded(body, chunks[i], target_of(data, samples, i)) && frames(
            p.data@,
            conversation_id,
            i % (MAX_GROUP as int),
            group_total(chunks.len() as int, i),
            samples[i].now_ms,
            p.sequence,
            group_data(chunks, i).len() as int,
            chunks[i].len() as int,
            body,
        )
    &&& game_packet::parsed(p.data@) == Some(frame_of(chunks, first_seq, i))
}

// ---- Receiving ----

/// The bytes of each packet.
pub open spec fn wire(packets: Seq<MorphedPacket>) -> Seq<Seq<u8>> {
    packets.map_values(|p: MorphedPacket| p.data@)
}

/// The pieces that make up a group, kept by index, join to the group's data.
proof fn lemma_joined(parts: Map<usize, Seq<u8>>, chunks: Seq<Seq<u8>>, start: int, m: nat)
    requires
        0 <= start,
        start + m <= chunks.len(),
        m <= MAX_GROUP,
        forall|i: usize|
            i < m ==> #[trigger] parts.contains_key(i) && parts[i] == chunks[start + i],
    ensures
        reassembly::joined(parts, m) == bytes::concat(chunks.subrange(start, start + m)),
    decreases m,
{
    let part = chunks.subrange(start, start + m);
    if m > 0 {
        lemma_joined(parts, chunks, start, (m - 1) as nat);
        assert(parts.contains_key((m - 1) as usize));
        assert(part.drop_last() =~= chunks.subrange(start, start + m - 1));
        assert(part.last() == parts[(m - 1) as usize]);
    }
}

/// A part of a list of pieces spells no more than the whole list.
proof fn lemma_part_len(chunks: Seq<Seq<u8>>, from: int, to: int)
    requires
        0 <= from <= to <= chunks.len(),
    ensures
        bytes::concat(chunks.subrange(0, from)) + bytes::concat(chunks.subrange(from, to))
            == bytes::concat(chunks.subrange(0, to)),
        bytes::concat(chunks.subrange(from, to)).len() <= bytes::concat(chunks).len(),
{
    bytes::lemma_concat_adds(chunks.subrange(0, from), chunks.subrange(from, to));
    assert(chunks.subrange(0, from) + chunks.subrange(from, to) =~= chunks.subrange(0, to));
    bytes::lemma_concat_adds(chunks.subrange(0, to), chunks.subrange(to, chunks.len() as int));
    assert(chunks.subrange(0, to) + chunks.subrange(to, chunks.len() as int) =~= chunks);
}

/// How many chunks the groups completed by the first `k` of `n` packets hold.
spec fn completed(k: int, n: int) -> int {
    if k == n {
        n
    } else {
        group_start(k)
    }
}

/// A group of `total` fragments from `start` on, of which those before `k` are there.
spec fn partial(chunks: Seq<Seq<u8>>, start: int, k: int, total: nat, len: nat) -> PendingGroup {
    PendingGroup {
        parts: Map::new(|i: usize| start + i < k, |i: usize| chunks[start + i]),
        total,
        original_length: len,
    }
}

/// What is pending after the first `k` packets.
spec fn pending_after(
    pending: Map<u64, PendingGroup>,
    chunks: Seq<Seq<u8>>,
    first_seq: int,
    k: int,
) -> Map<u64, PendingGroup> {
    let n = chunks.len() as int;
    let start = group_start(k);
    if k == n || k == start {
        pending
    } else {
        pending.insert(
            bytes::low_u32(first_seq + start) as u64,
            partial(
                chunks,
                start,
                k,
                group_total(n, start) as nat,
                group_data(chunks, start).len(),
            ),
        )
    }
}

proof fn lemma_group_arith(n: int, k: int)
    requires
        0 <= k < n,
    ensures
        0 <= group_start(k) <= k < group_start(k) + MAX_GROUP,
        k % (MAX_GROUP as int) == k - group_start(k),
        group_start(group_start(k)) == group_start(k),
        group_total(n, group_start(k)) == group_total(n, k),
        1 <= group_total(n, k) <= MAX_GROUP,
        group_start(k) + group_total(n, k) <= n,
        k < group_start(k) + group_total(n, k),
        k + 1 < n && k + 1 < group_start(k) + group_total(n, k) ==> group_start(k + 1)
            == group_start(k),
        k + 1 < n && k + 1 == group_start(k) + group_total(n, k) ==> group_start(k + 1) == k + 1,
        k + 1 == n ==> k + 1 == group_start(k) + group_total(n, k),
{
}

/// One more fragment of a group that is being collected in order.
proof fn lemma_group_step(
    pending: Map<u64, PendingGroup>,
    chunks: Seq<Seq<u8>>,
    start: int,
    k: int,
    key: u64,
    frame: Frame,
)
    requires
        0 <= start <= k < start + frame.total <= chunks.len(),
        1 < frame.total <= MAX_GROUP,
        frame.current == k - start,
        frame.payload == chunks[k],
        frame.original_len == bytes::concat(chunks.subrange(start, start + frame.total)).len(),
        reassembly::group_key(frame) == key,
        !pending.contains_key(key),
    ensures
        ({
            let total = frame.total as nat;
            let before = if k == start {
                pending
            } else {
                pending.insert(key, partial(chunks, start, k, total, frame.original_len))
            };
            let group = reassembly::joined_group(before, frame);
            &&& group == partial(chunks, start, k + 1, total, frame.original_len)
            &&& group.complete() <==> k + 1 == start + total
            &&& k + 1 == start + total ==> group.assembled() == bytes::concat(
                chunks.subrange(start, k + 1),
            )
            &&& before.remove(key) == pending
            &&& before.insert(key, group) == pending.insert(key, group)
        }),
{
    let total = frame.total as nat;
    let before = if k == start {
        pending
    } else {
        pending.insert(key, partial(chunks, start, k, total, frame.original_len))
    };
    let group = reassembly::joined_group(before, frame);
    let want = partial(chunks, start, k + 1, total, frame.original_len);
    assert(group.parts =~= want.parts);
    assert(before.remove(key) =~= pending);
    assert(before.insert(key, group) =~= pending.insert(key, group));
    if k + 1 == start + total {
        lemma_joined(group.parts, chunks, start, total);
        reassembly::lemma_joined_skips(group.parts, total, reassembly::all_parts());
    } else {
        assert(!group.parts.contains_key((k + 1 - start) as usize));
    }
}

/// Fragment `k`'s key is the sequence number of the first fragment of its group.
proof fn lemma_key(first_seq: int, k: int, start: int)
    requires
        0 <= first_seq,
        0 <= start <= k < start + MAX_GROUP,
    ensures
        (bytes::low_u32(first_seq + k) - (k - start)) % 0x1_0000_0000 == bytes::low_u32(
            first_seq + start,
        ),
{
    let a = first_seq + k;
    let m = 0x1_0000_0000int;
    assert(a % m - (k - start) == (first_seq + start) - m * (a / m)) by {
        vstd::arithmetic::div_mod::lemma_fundamental_div_mod(a, m);
    }
    vstd::arithmetic::div_mod::lemma_mod_multiples_vanish(-(a / m), first_seq + start, m);
}

/// Pieces of at most 65535 bytes spell at most that many each.
proof fn lemma_pieces_len(pieces: Seq<Seq<u8>>)
    requires
        forall|i: int| 0 <= i < pieces.len() ==> (#[trigger] pieces[i]).len() <= u16::MAX,
    ensures
        bytes::concat(pieces).len() <= pieces.len() * u16::MAX,
    decreases pieces.len(),
{
    if pieces.len() > 0 {
        lemma_pieces_len(pieces.drop_last());
        assert(pieces.len() * u16::MAX == pieces.drop_last().len() * u16::MAX + u16::MAX)
            by (nonlinear_arith)
            requires
                pieces.len() == pieces.drop_last().len() + 1,
        ;
    }
}

/// A packet carries at most 65535 bytes, so the data of every group of a message is short enough
/// for a 32-bit length.
proof fn lemma_groups_fit(data: Seq<u8>, samples: Seq<PacketSample>)
    ensures
        groups_fit(chunks_of(data, samples)),
{
    let chunks = chunks_of(data, samples);
    lemma_cut(data, samples.skip(1));
    assert forall|i: int| 0 <= i < chunks.len() implies (#[trigger] group_data(
        chunks,
        i,
    )).len() < 0x1_0000_0000 by {
        lemma_group_arith(chunks.len() as int, i);
        let start = group_start(i);
        let group = chunks.subrange(start, start + group_total(chunks.len() as int, i));
        assert forall|k: int| 0 <= k < group.len() implies (#[trigger] group[k]).len()
            <= u16::MAX by {
            assert(group[k] == chunks[start + k]);
        }
        lemma_pieces_len(group);
        assert(group.len() * u16::MAX <= MAX_GROUP * u16::MAX) by (nonlinear_arith)
            requires
                group.len() <= MAX_GROUP,
        ;
    }
}

/// Whether the data of every group is short enough for a 32-bit length.
pub open spec fn groups_fit(chunks: Seq<Seq<u8>>) -> bool {
    forall|i: int|
        0 <= i < chunks.len() ==> (#[trigger] group_data(chunks, i)).len() < 0x1_0000_0000
}

/// The fields of fragment `k`'s frame, for a group short enough for a 32-bit length.
proof fn lemma_frame_fields(chunks: Seq<Seq<u8>>, first_seq: int, k: int)
    requires
        0 <= k < chunks.len(),
        0 <= first_seq,
        groups_fit(chunks),
    ensures
        ({
            let frame = frame_of(chunks, first_seq, k);
            let start = group_start(k);
            let total = group_total(chunks.len() as int, k);
            &&& frame.payload == chunks[k]
            &&& frame.total == total
            &&& frame.current == k - start
            &&& frame.original_len == bytes::concat(chunks.subrange(start, start + total)).len()
            &&& reassembly::group_key(frame) == bytes::low_u32(first_seq + start)
        }),
{
    let n = chunks.len() as int;
    let start = group_start(k);
    let total = group_total(n, k);
    lemma_group_arith(n, k);
    let group = chunks.subrange(start, start + total);
    assert(group_data(chunks, k) == bytes::concat(group));
    lemma_part_len(group, k - start, k - start + 1);
    assert(group.subrange(k - start, k - start + 1) =~= seq![chunks[k]]);
    bytes::lemma_concat_one(chunks[k]);
    assert(frame_of(chunks, first_seq, k).payload =~= chunks[k]);
    lemma_key(first_seq, k, start);
}

/// One more packet of a message that arrives in order.
proof fn lemma_receive_step(
    pending: Map<u64, PendingGroup>,
    chunks: Seq<Seq<u8>>,
    first_seq: int,
    k: int,
    packet: Seq<u8>,
)
    requires
        0 <= k < chunks.len(),
        0 <= first_seq,
        groups_fit(chunks),
        game_packet::parsed(packet) == Some(frame_of(chunks, first_seq, k)),
        !pending.contains_key(bytes::low_u32(first_seq + group_start(k)) as u64),
    ensures
        ({
            let n = chunks.len() as int;
            let r = reassembly::received(pending_after(pending, chunks, first_seq, k), packet);
            &&& r.0 == pending_after(pending, chunks, first_seq, k + 1)
            &&& r.1 == if k + 1 == group_start(k) + group_total(n, k) {
                Some(
                    bytes::concat(
                        chunks.subrange(group_start(k), k + 1),
                    ),
                )
            } else {
                None
            }
        }),
{
    let n = chunks.len() as int;
    let start = group_start(k);
    let total = group_total(n, k);
    let frame = frame_of(chunks, first_seq, k);
    lemma_group_arith(n, k);
    lemma_frame_fields(chunks, first_seq, k);
    assert(group_data(chunks, start) == group_data(chunks, k));
    if total > 1 {
        lemma_group_step(pending, chunks, start, k, reassembly::group_key(frame), frame);
    } else {
        assert(chunks.subrange(k, k + 1) =~= seq![chunks[k]]);
        bytes::lemma_concat_one(chunks[k]);
    }
}

proof fn lemma_receive_prefix(
    pending: Map<u64, PendingGroup>,
    chunks: Seq<Seq<u8>>,
    first_seq: int,
    packets: Seq<Seq<u8>>,
    k: int,
)
    requires
        0 <= k <= chunks.len(),
        packets.len() == chunks.len(),
        0 <= first_seq,
        groups_fit(chunks),
        forall|i: int|
            0 <= i < packets.len() ==> game_packet::parsed(#[trigger] packets[i]) == Some(
                frame_of(chunks, first_seq, i),
            ),
        forall|i: int|
            0 <= i < packets.len() ==> !pending.contains_key(
                #[trigger] bytes::low_u32(first_seq + group_start(i)) as u64,
            ),
    ensures
        ({
            let r = reassembly::received_all(pending, packets.subrange(0, k));
            &&& r.0 == pending_after(pending, chunks, first_seq, k)
            &&& bytes::concat(r.1) == bytes::concat(
                chunks.subrange(0, completed(k, chunks.len() as int)),
            )
            &&& completed(k, chunks.len() as int) > 0 ==> r.1.len() > 0
        }),
    decreases k,
{
    let n = chunks.len() as int;
    if k == 0 {
        assert(packets.subrange(0, k) =~= Seq::empty());
        assert(chunks.subrange(0, 0) =~= Seq::empty());
    } else {
        let j = k - 1;
        lemma_receive_prefix(pending, chunks, first_seq, packets, j);
        assert(packets.subrange(0, k).drop_last() =~= packets.subrange(0, j));
        assert(packets.subrange(0, k).last() == packets[j]);
        assert(!pending.contains_key(bytes::low_u32(first_seq + group_start(j)) as u64));
        lemma_receive_step(pending, chunks, first_seq, j, packets[j]);
        lemma_group_arith(n, j);
        let before = reassembly::received_all(pending, packets.subrange(0, j));
        assert(completed(j, n) == group_start(j));
        if k == group_start(j) + group_total(n, j) {
            let piece = bytes::concat(chunks.subrange(group_start(j), k));
            bytes::lemma_concat_push(before.1, piece);
            lemma_part_len(chunks, group_start(j), k);
            assert(completed(k, n) == k);
        } else {
            assert(completed(k, n) == completed(j, n));
        }
    }
}

/// What was morphed demorphs to itself: packets that carry `data`, received in order
/// by a receiver that is not in the middle of a group with the same sequence numbers,
/// give back exactly `data`, and leave the receiver as it was.
pub proof fn law_demorph_inverts_morph(
    pending: Map<u64, PendingGroup>,
    data: Seq<u8>,
    samples: Seq<PacketSample>,
    conversation_id: u32,
    first_seq: u64,
    wait_us: int,
    packets: Seq<MorphedPacket>,
)
    requires
        data.len() > 0,
        morphed(packets, data, samples, conversation_id, first_seq, wait_us),
        forall|i: int|
            0 <= i < packets.len() ==> !pending.contains_key(
                #[trigger] bytes::low_u32(first_seq + group_start(i)) as u64,
            ),
    ensures
        reassembly::received_all(pending, wire(packets)).0 == pending,
        reassembly::received_all(pending, wire(packets)).1.len() > 0,
        bytes::concat(reassembly::received_all(pending, wire(packets)).1) == data,
{
    let chunks = chunks_of(data, samples);
    let n = chunks.len() as int;
    law_chunks_spell_data(data, samples);
    lemma_groups_fit(data, samples);
    assert forall|i: int| 0 <= i < wire(packets).len() implies game_packet::parsed(
        #[trigger] wire(packets)[i],
    ) == Some(frame_of(chunks, first_seq as int, i)) by {
        assert(wire(packets)[i] == packets[i].data@);
    }
    lemma_receive_prefix(pending, chunks, first_seq as int, wire(packets), n);
    assert(wire(packets).subrange(0, n) =~= wire(packets));
    assert(chunks.subrange(0, n) =~= chunks);
}

// ---- Morpher ----

pub struct TrafficMorpher {
    pub statistical_model: StatisticalGameTrafficModel,
    pub burst_engine: BurstEngine,
    pub adversarial_masker: AdversarialMasker,
    pub data_buffer: Vec<u8>,
    pub sequence: u64,
    pub fragment_state: FragmentState,
    pub reassembler: Reassembler,
    pub conversation_id: u32,
}

/// Whether `data` is a lone packet whose payload is `noise`.
pub open spec fn frames_noise(
    data: Seq<u8>,
    sample: PacketSample,
    conversation_id: u32,
    seq: u64,
    noise: Seq<u8>,
) -> bool {
    &&& noise.len() == capacity(sample.target_size as int)
    &&& frames(
        data,
        conversation_id,
        0,
        1,
        sample.now_ms,
        seq,
        noise.len() as int,
        noise.len() as int,
        noise,
    )
}

/// Whether `p` is a keepalive packet: random bytes up to the sampled size.
pub open spec fn is_keepalive(
    p: MorphedPacket,
    sample: PacketSample,
    conversation_id: u32,
    seq: u64,
    wait_us: int,
) -> bool {
    &&& p.packet_type == GamePacketType::Keepalive
    &&& p.sequence == seq
    &&& p.delay_us == longer(wait_us, delay_of(sample))
    &&& exists|noise: Seq<u8>|
        #[trigger] frames_noise(p.data@, sample, conversation_id, seq, noise)
}

/// Whether `packets` are what `data` becomes: one keepalive where there is no data,
/// else one packet per chunk.
pub open spec fn morphed(
    packets: Seq<MorphedPacket>,
    data: Seq<u8>,
    samples: Seq<PacketSample>,
    conversation_id: u32,
    first_seq: u64,
    wait_us: int,
) -> bool {
    if data.len() == 0 {
        packets.len() == 1 && is_keepalive(
            packets[0],
            samples[0],
            conversation_id,
            first_seq,
            wait_us,
        )
    } else {
        packets.len() == chunks_of(data, samples).len() && forall|i: int|
            0 <= i < packets.len() ==> morphs(
                #[trigger] packets[i],
                data,
                samples,
                conversation_id,
                first_seq as int,
                wait_us,
                i,
            )
    }
}

/// The fragment state after `data` was morphed: that of its last chunk, or of a keepalive.
pub open spec fn state_after(data: Seq<u8>, samples: Seq<PacketSample>) -> FragmentState {
    let chunks = chunks_of(data, samples);
    if data.len() == 0 {
        keepalive_state(samples[0])
    } else {
        chunk_state(chunks, chunks.len() - 1)
    }
}

/// The fragment state of a keepalive: one piece, as large as the sample allows.
pub open spec fn keepalive_state(sample: PacketSample) -> FragmentState {
    FragmentState {
        current_fragment: 0,
        total_fragments: 1,
        fragment_size: capacity(sample.target_size as int) as usize,
    }
}

/// The fragment state of chunk `i`: its place in its group, and its size.
pub open spec fn chunk_state(chunks: Seq<Seq<u8>>, i: int) -> FragmentState {
    FragmentState {
        current_fragment: (i % (MAX_GROUP as int)) as usize,
        total_fragments: group_total(chunks.len() as int, i) as usize,
        fragment_size: chunks[i].len() as usize,
    }
}

/// The fragment state after a burst was morphed: that of its last payload.
pub open spec fn state_after_burst(
    before: FragmentState,
    units: Seq<BurstUnit>,
    samples: Seq<PacketSample>,
    n: int,
) -> FragmentState {
    if n <= 0 {
        before
    } else {
        state_after(
            units[n - 1].payload@,
            samples.subrange(samples_before(units, n - 1), samples_before(units, n)),
        )
    }
}

/// The delay of a packet for a gap of the model: moved by three milliseconds less than
/// `shift` microseconds, and by an offset, but after neither shorter than one millisecond; in
/// whole milliseconds.
pub open spec fn delay_for(gap_us: int, shift: int, offset_us: int) -> int {
    let jittered = longer(gap_us + shift - 3000, 1000);
    let ms = longer(jittered + offset_us, 1000) / 1000;
    if ms > u32::MAX {
        u32::MAX as int
    } else {
        ms
    }
}

/// The delay that a drawn gap and shift give, in milliseconds.
pub fn delay_from(gap_us: u64, shift_us: u64, offset_us: i64) -> (ms: u32)
    requires
        shift_us <= 6000,
    ensures
        ms == delay_for(gap_us as int, shift_us as int, offset_us as int),
{
    let mut us: i128 = gap_us as i128 + shift_us as i128 - 3000;
    if us < 1000 {
        us = 1000;
    }
    us = us + offset_us as i128;
    if us < 1000 {
        us = 1000;
    }
    let whole: i128 = us / 1000;
    if whole > 0xFFFF_FFFF {
        0xFFFF_FFFF
    } else {
        whole as u32
    }
}

impl TrafficMorpher {
    /// The groups of which fragments are still missing.
    pub open spec fn pending(&self) -> Map<u64, PendingGroup> {
        self.reassembler@
    }

    /// The model and the engines.
    pub open spec fn engines(&self) -> (
        StatisticalGameTrafficModel,
        BurstEngine,
        AdversarialMasker,
    ) {
        (self.statistical_model, self.burst_engine, self.adversarial_masker)
    }

    /// Whether all but the sequence number and the fragment state agree.
    pub open spec fn same_but_sequence(&self, other: &TrafficMorpher) -> bool {
        &&& self.engines() == other.engines()
        &&& self.data_buffer@ == other.data_buffer@
        &&& self.reassembler == other.reassembler
        &&& self.conversation_id == other.conversation_id
    }

    /// A morpher for a game, with a drawn conversation number.
    pub fn new(
        game_model: StatisticalGameTrafficModel,
        burst_model: crate::masking::burst_engine::StatisticalGameTrafficModel,
        target: TrafficTarget,
        now_us: u64,
    ) -> (r: PhantomResult<Self>)
        requires
            burst_model.wf(),
            target.wf(),
        ensures
            r matches Ok(m) && m.statistical_model == game_model && m.burst_engine.wf()
                && m.burst_engine.game_model == burst_model && m.burst_engine.round() == (burst_engine::Round {
                state: BurstState::Idle { last_activity_us: now_us, time_since_last_burst_us: 0 },
                pending: Seq::empty(),
                sn: 0,
                bursts: 0,
                last_check_us: now_us,
            }) && m.burst_engine.total_packets_sent == 0
                && m.adversarial_masker.is_fresh() && m.adversarial_masker.target == target
                && m.data_buffer@.len() == 0 && m.sequence == 0
                && m.fragment_state == (FragmentState {
                current_fragment: 0,
                total_fragments: 0,
                fragment_size: 0,
            }) && m.pending() == Map::<u64, PendingGroup>::empty(),
    {
        let conversation_id: u32 = random_between(0, 0xFFFF_FFFF) as u32;
        let adversarial_masker = AdversarialMasker::new(target)?;
        Ok(
            TrafficMorpher {
                statistical_model: game_model,
                burst_engine: BurstEngine::new(burst_model, now_us),
                adversarial_masker,
                data_buffer: Vec::new(),
                sequence: 0,
                fragment_state: FragmentState::new(0, 0, 0),
                reassembler: Reassembler::new(),
                conversation_id,
            },
        )
    }

    /// Turns `data` into packets. Of `samples`, the first decides whether one packet is
    /// enough; where it is not, each further one sizes one packet. Without data, one
    /// keepalive packet is made.
    pub fn morph(&mut self, data: Vec<u8>, samples: &[PacketSample]) -> (packets: Vec<
        MorphedPacket,
    >)
        requires
            samples@.len() >= samples_needed(data@.len() as int),
        ensures
            morphed(
                packets@,
                data@,
                samples@,
                old(self).conversation_id,
                old(self).sequence,
                0,
            ),
            final(self).sequence == (old(self).sequence + packets@.len())
                % 0x1_0000_0000_0000_0000,
            final(self).same_but_sequence(old(self)),
            final(self).fragment_state == state_after(data@, samples@),
    {
        self.morph_after(data, samples, 0)
    }

    /// Turns `data` into packets, each of which waits at least `wait_us`.
    #[verifier::rlimit(100)]
    #[verifier::spinoff_prover]
    pub fn morph_after(&mut self, data: Vec<u8>, samples: &[PacketSample], wait_us: u64) -> (packets:
        Vec<MorphedPacket>)
        requires
            samples@.len() >= samples_needed(data@.len() as int),
        ensures
            morphed(
                packets@,
                data@,
                samples@,
                old(self).conversation_id,
                old(self).sequence,
                wait_us as int,
            ),
            final(self).sequence == (old(self).sequence + packets@.len())
                % 0x1_0000_0000_0000_0000,
            final(self).same_but_sequence(old(self)),
            final(self).fragment_state == state_after(data@, samples@),
    {
        if data.is_empty() {
            return self.generate_keepalive_packets(samples[0], wait_us);
        }
        let fragments = Self::fragment_data(data.as_slice(), samples);
        let n: usize = fragments.len();
        assert(data.len() == data@.len());
        let ghost chunks = chunks_of(data@, samples@);
        let ghost first_seq = self.sequence as int;
        let mut packets: Vec<MorphedPacket> = Vec::new();
        let mut i: usize = 0;
        proof {
            law_chunks_spell_data(data@, samples@);
        }
        while i < n
            invariant
                n == fragments@.len(),
                i <= n,
                data@.len() > 0,
                samples@.len() >= samples_needed(data@.len() as int),
                chunks == chunks_of(data@, samples@),
                n < samples_needed(data@.len() as int),
                bytes::concat(chunks) == data@,
                data.len() == data@.len(),
                fragments_hold(fragments@, data@, samples@),
                first_seq == old(self).sequence,
                self.sequence == (first_seq + i) % 0x1_0000_0000_0000_0000,
                self.same_but_sequence(old(self)),
                i > 0 ==> self.fragment_state == chunk_state(chunks, i - 1),
                packets@.len() == i,
                forall|j: int|
                    0 <= j < i ==> morphs(
                        #[trigger] packets@[j],
                        data@,
                        samples@,
                        old(self).conversation_id,
                        first_seq,
                        wait_us as int,
                        j,
                    ),
            decreases n - i,
        {
            let start: usize = i - i % MAX_GROUP;
            let total: usize = if n - start < MAX_GROUP { n - start } else { MAX_GROUP };
            proof {
                lemma_group_arith(n as int, i as int);
                lemma_part_len(chunks, start as int, start + total);
            }
            let original_len: usize = group_len(&fragments, start, total, Ghost(chunks));
            self.fragment_state = FragmentState::new(i - start, total, fragments[i].data_len);
            let packet_data = self.add_game_header(
                &fragments[i],
                self.sequence,
                original_len,
                samples[i].now_ms,
            );
            let packet_type = GamePacketType::select_by_size(packet_data.len());
            let packet = MorphedPacket {
                data: packet_data,
                delay_us: Self::packet_delay(samples[i], wait_us),
                packet_type,
                sequence: self.sequence,
            };
            proof {
                lemma_morphs(
                    packet,
                    data@,
                    samples@,
                    self.conversation_id,
                    first_seq,
                    wait_us as int,
                    i as int,
                    fragments@[i as int].body@,
                );
            }
            packets.push(packet);
            self.sequence = self.sequence.wrapping_add(1);
            i = i + 1;
        }
        packets
    }

    /// Draws the delay of a packet, in milliseconds: a gap of the model, up to three
    /// milliseconds longer or shorter, moved by `offset_us`.
    pub fn compute_inter_packet_delay(&self, offset_us: i64) -> (ms: u32)
        requires
            self.statistical_model.timing_cdf@.len()
                == self.statistical_model.timing_distribution@.len(),
        ensures
            exists|gap: u64, shift: int|
                self.statistical_model.draws_gap(gap) && 0 <= shift <= 6000 && ms
                    == #[trigger] delay_for(gap as int, shift, offset_us as int),
    {
        let gap: u64 = self.statistical_model.sample_inter_packet_time();
        let shift: u64 = random_between(0, 6000);
        delay_from(gap, shift, offset_us)
    }

    /// The delay before a packet.
    fn packet_delay(sample: PacketSample, wait_us: u64) -> (delay_us: u64)
        ensures
            delay_us == longer(wait_us as int, delay_of(sample)),
    {
        let own: u64 = if sample.delay_ms < 1 { 1000 } else { 1000 * (sample.delay_ms as u64) };
        if wait_us < own {
            own
        } else {
            wait_us
        }
    }

    /// One packet of random bytes.
    pub fn generate_keepalive_packets(&mut self, sample: PacketSample, wait_us: u64) -> (packets:
        Vec<MorphedPacket>)
        ensures
            packets@.len() == 1,
            is_keepalive(
                packets@[0],
                sample,
                old(self).conversation_id,
                old(self).sequence,
                wait_us as int,
            ),
            final(self).sequence == (old(self).sequence + 1) % 0x1_0000_0000_0000_0000,
            final(self).same_but_sequence(old(self)),
            final(self).fragment_state == keepalive_state(sample),
    {
        let payload_size: usize = Self::payload_capacity(sample.target_size as usize);
        let payload = random_bytes(payload_size);
        let ghost noise = payload@;
        let fragment = Fragment { body: payload, data_len: payload_size };
        self.fragment_state = FragmentState::new(0, 1, payload_size);
        let data = self.add_game_header(&fragment, self.sequence, payload_size, sample.now_ms);
        let packet = MorphedPacket {
            data,
            delay_us: Self::packet_delay(sample, wait_us),
            packet_type: GamePacketType::Keepalive,
            sequence: self.sequence,
        };
        assert(frames_noise(
            packet.data@,
            sample,
            old(self).conversation_id,
            old(self).sequence,
            noise,
        ));
        self.sequence = self.sequence.wrapping_add(1);
        let mut packets: Vec<MorphedPacket> = Vec::new();
        packets.push(packet);
        packets
    }

    /// How many data bytes a packet of `target_size` carries.
    pub fn payload_capacity(target_size: usize) -> (room: usize)
        ensures
            room == capacity(target_size as int),
    {
        if target_size > HEADER_SIZE + MIN_PAYLOAD_SIZE {
            target_size - HEADER_SIZE
        } else {
            MIN_PAYLOAD_SIZE
        }
    }

    /// Frames a fragment under the current fragment state, with a drawn packet type.
    pub fn add_game_header(
        &self,
        fragment: &Fragment,
        seq: u64,
        original_len: usize,
        now_ms: u32,
    ) -> (packet: Vec<u8>)
        ensures
            frames(
                packet@,
                self.conversation_id,
                self.fragment_state.current_fragment as int,
                self.fragment_state.total_fragments as int,
                now_ms,
                seq,
                original_len as int,
                fragment.data_len as int,
                fragment.body@,
            ),
    {
        let kind = GamePacketType::select_by_size(fragment.body.len());
        frame_packet(
            self.conversation_id,
            kind,
            &self.fragment_state,
            now_ms,
            seq,
            original_len,
            fragment.data_len,
            fragment.body.as_slice(),
        )
    }

    /// Pads `data` with random bytes for a packet of `target_size`.
    pub fn pad_to_target_size(data: Vec<u8>, target_size: usize) -> (padded: Vec<u8>)
        requires
            target_size <= isize::MAX,
        ensures
            is_padded(padded@, data@, target_size as int),
    {
        let current_total: usize = data.len();
        let payload_target: usize = if target_size > HEADER_SIZE {
            target_size - HEADER_SIZE
        } else {
            0
        };
        if current_total >= payload_target {
            proof {
                let none = Seq::<u8>::empty();
                assert(data@ =~= data@ + marked(none));
            }
            return data;
        }
        let noise = random_bytes(payload_target - current_total);
        let ghost drawn = noise@;
        let padded = pad_with(data, noise);
        assert(padded@ == data@ + marked(drawn));
        padded
    }

    /// Cuts `data` by sampled sizes and pads each piece.
    pub fn fragment_data(data: &[u8], samples: &[PacketSample]) -> (fragments: Vec<Fragment>)
        requires
            data@.len() > 0,
            samples@.len() >= samples_needed(data@.len() as int),
        ensures
            fragments_hold(fragments@, data@, samples@),
    {
        let first_target: usize = samples[0].target_size as usize;
        let mut fragments: Vec<Fragment> = Vec::new();
        if data.len() <= Self::payload_capacity(first_target) {
            let whole = copy_range(data, 0, data.len());
            assert(whole@ =~= data@);
            let body = Self::pad_to_target_size(whole, first_target);
            fragments.push(Fragment { body, data_len: data.len() });
            return fragments;
        }
        let ghost later = samples@.skip(1);
        let ghost all = cut(data@, later);
        let mut at: usize = 0;
        proof {
            lemma_cut(data@, later);
            assert(data@.subrange(0, data@.len() as int) =~= data@);
            assert(later.skip(0) =~= later);
            assert(all.subrange(0, all.len() as int) =~= all);
        }
        while at < data.len()
            invariant
                at <= data@.len(),
                data@.len() > capacity(samples@[0].target_size as int),
                samples@.len() >= samples_needed(data@.len() as int),
                later == samples@.skip(1),
                all == cut(data@, later),
                fragments@.len() <= all.len(),
                16 * all.len() <= data@.len() + 15,
                cut(data@.subrange(at as int, data@.len() as int), later.skip(
                    fragments@.len() as int,
                )) == all.subrange(fragments@.len() as int, all.len() as int),
                forall|i: int|
                    0 <= i < fragments@.len() ==> {
                        &&& (#[trigger] fragments@[i]).data_len == all[i].len()
                        &&& is_padded(
                            fragments@[i].body@,
                            all[i],
                            target_of(data@, samples@, i),
                        )
                    },
            decreases data@.len() - at,
        {
            let k: usize = fragments.len();
            let ghost rest = data@.subrange(at as int, data@.len() as int);
            let ghost tail = all.subrange(k as int, all.len() as int);
            proof {
                lemma_cut(rest, later.skip(k as int));
                assert(tail.len() > 0);
            }
            let target: usize = samples[k + 1].target_size as usize;
            assert(later.skip(k as int)[0] == samples@[k + 1]);
            let room: usize = Self::payload_capacity(target);
            let left: usize = data.len() - at;
            let take: usize = if left <= room { left } else { room };
            let chunk = copy_range(data, at, at + take);
            proof {
                assert(chunk@ =~= rest.subrange(0, take as int));
                assert(tail[0] == chunk@);
                assert(all[k as int] == tail[0]);
                assert(later.skip(k as int).skip(1) =~= later.skip(k + 1));
                assert(data@.subrange(at + take, data@.len() as int) =~= rest.subrange(
                    take as int,
                    rest.len() as int,
                ));
                assert(all.subrange(k + 1, all.len() as int) =~= tail.subrange(
                    1,
                    tail.len() as int,
                ));
                assert(tail.subrange(1, tail.len() as int) =~= cut(
                    rest.subrange(take as int, rest.len() as int),
                    later.skip(k as int).skip(1),
                ));
            }
            let body = Self::pad_to_target_size(chunk, target);
            fragments.push(Fragment { body, data_len: take });
            at = at + take;
        }
        proof {
            assert(data@.subrange(at as int, data@.len() as int) =~= Seq::empty());
            assert(all.subrange(fragments@.len() as int, all.len() as int).len() == 0);
        }
        fragments
    }

    /// Takes one packet in. A packet that stands alone gives its data at once; a
    /// fragment gives the data of its whole group once the group is complete.
    pub fn remove_game_header(&mut self, packet: &[u8]) -> (result: Option<(Vec<u8>, u64)>)
        ensures
            final(self).pending() == reassembly::received(old(self).pending(), packet@).0,
            match reassembly::received(old(self).pending(), packet@).1 {
                None => result is None,
                Some(piece) => result matches Some((data, seq)) && data@ == piece && seq
                    == bytes::le_u32_at(packet@, 12),
            },
            final(self).sequence == old(self).sequence,
            final(self).fragment_state == old(self).fragment_state,
            final(self).data_buffer == old(self).data_buffer,
            final(self).conversation_id == old(self).conversation_id,
            final(self).engines() == old(self).engines(),
    {
        self.reassembler.receive(packet)
    }

    /// Turns packets back into data: what they complete, in the order of completion, or
    /// nothing where they complete nothing.
    pub fn demorph(&mut self, packets: Vec<MorphedPacket>) -> (data: Option<Vec<u8>>)
        ensures
            final(self).pending() == reassembly::received_all(old(self).pending(), wire(packets@)).0,
            match data {
                None => reassembly::received_all(old(self).pending(), wire(packets@)).1.len() == 0,
                Some(d) => {
                    let pieces = reassembly::received_all(old(self).pending(), wire(packets@)).1;
                    pieces.len() > 0 && d@ == bytes::concat(pieces)
                },
            },
            final(self).sequence == old(self).sequence,
            final(self).fragment_state == old(self).fragment_state,
            final(self).data_buffer == old(self).data_buffer,
            final(self).conversation_id == old(self).conversation_id,
            final(self).engines() == old(self).engines(),
    {
        let mut combined: Vec<u8> = Vec::new();
        let mut any: bool = false;
        let mut i: usize = 0;
        let ghost all = wire(packets@);
        let ghost mut pieces = Seq::<Seq<u8>>::empty();
        assert(all.subrange(0, 0) =~= Seq::empty());
        while i < packets.len()
            invariant
                i <= packets@.len(),
                all == wire(packets@),
                (self.pending(), pieces) == reassembly::received_all(
                    old(self).pending(),
                    all.subrange(0, i as int),
                ),
                any == (pieces.len() > 0),
                combined@ == bytes::concat(pieces),
                self.sequence == old(self).sequence,
                self.fragment_state == old(self).fragment_state,
                self.data_buffer == old(self).data_buffer,
                self.conversation_id == old(self).conversation_id,
                self.engines() == old(self).engines(),
            decreases packets@.len() - i,
        {
            proof {
                assert(all.subrange(0, i + 1).drop_last() =~= all.subrange(0, i as int));
                assert(all.subrange(0, i + 1).last() == packets@[i as int].data@);
            }
            match self.remove_game_header(packets[i].data.as_slice()) {
                Some((payload, _)) => {
                    put_all(&mut combined, payload.as_slice());
                    any = true;
                    proof {
                        bytes::lemma_concat_push(pieces, payload@);
                        pieces = pieces.push(payload@);
                    }
                },
                None => {},
            }
            i = i + 1;
        }
        assert(all.subrange(0, i as int) =~= all);
        if any {
            Some(combined)
        } else {
            None
        }
    }

    /// Pieces of `data` that keep to `max_size`.
    pub fn split_oversized(data: Vec<u8>, max_size: usize) -> (pieces: Vec<Vec<u8>>)
        ensures
            data@.len() <= max_size ==> bytes::views(pieces@) == seq![data@],
            data@.len() > max_size ==> bytes::views(pieces@) == bytes::split_at_size(
                data@,
                capacity(max_size as int),
            ),
    {
        if data.len() <= max_size {
            let ghost whole = data@;
            let mut pieces: Vec<Vec<u8>> = Vec::new();
            pieces.push(data);
            assert(bytes::views(pieces@) =~= seq![whole]);
            return pieces;
        }
        bytes::split_chunks(data.as_slice(), Self::payload_capacity(max_size))
    }

    /// Takes full packets' worth of data out of the buffer, for packets of the sampled
    /// size. Nothing is taken while the buffer is less than half a packet.
    pub fn merge_small_packets(&mut self, target_size: usize) -> (merged: Vec<Vec<u8>>)
        ensures
            bytes::concat(bytes::views(merged@)) + final(self).data_buffer@ == old(
                self,
            ).data_buffer@,
            forall|i: int|
                0 <= i < merged@.len() ==> (#[trigger] merged@[i])@.len() == capacity(
                    target_size as int,
                ),
            final(self).data_buffer@.len() < capacity(target_size as int),
            final(self).sequence == old(self).sequence,
            final(self).fragment_state == old(self).fragment_state,
            final(self).reassembler == old(self).reassembler,
            final(self).conversation_id == old(self).conversation_id,
            final(self).engines() == old(self).engines(),
    {
        let mut merged: Vec<Vec<u8>> = Vec::new();
        let room: usize = Self::payload_capacity(target_size);
        assert(bytes::views(merged@) =~= Seq::empty());
        assert(bytes::concat(bytes::views(merged@)) + self.data_buffer@ =~= self.data_buffer@);
        if self.data_buffer.len() < room / 2 {
            return merged;
        }
        while self.data_buffer.len() >= room
            invariant
                room == capacity(target_size as int),
                bytes::concat(bytes::views(merged@)) + self.data_buffer@ == old(
                    self,
                ).data_buffer@,
                forall|i: int|
                    0 <= i < merged@.len() ==> (#[trigger] merged@[i])@.len() == capacity(
                        target_size as int,
                    ),
                self.sequence == old(self).sequence,
                self.fragment_state == old(self).fragment_state,
                self.reassembler == old(self).reassembler,
                self.conversation_id == old(self).conversation_id,
                self.engines() == old(self).engines(),
            decreases self.data_buffer@.len(),
        {
            let ghost before = bytes::views(merged@);
            let ghost buffer = self.data_buffer@;
            let rest = self.data_buffer.split_off(room);
            let mut chunk: Vec<u8> = rest;
            std::mem::swap(&mut chunk, &mut self.data_buffer);
            let ghost taken = chunk@;
            merged.push(chunk);
            proof {
                assert(bytes::views(merged@) =~= before.push(taken));
                bytes::lemma_concat_push(before, taken);
                assert(taken + self.data_buffer@ =~= buffer);
                assert(bytes::concat(before) + taken + self.data_buffer@ =~= bytes::concat(before)
                    + buffer);
            }
        }
        merged
    }

    /// Decides how a packet is masked. `jitter_ns` is how far its gap is moved against
    /// periodicity.
    pub fn apply_adversarial_decision(&mut self, data: &[u8], jitter_ns: i64, now_us: u64) -> (d:
        MaskingDecision)
        requires
            old(self).adversarial_masker.wf(),
            data@.len() <= isize::MAX,
        ensures
            final(self).adversarial_masker.wf(),
            exists|draws: MaskingDraws|
                draws.wf() && draws.jitter_ns == jitter_ns && #[trigger] old(
                    self,
                ).adversarial_masker.decides(
                    data@.len() as int,
                    draws,
                    now_us,
                    final(self).adversarial_masker,
                    d,
                ),
            final(self).statistical_model == old(self).statistical_model,
            final(self).burst_engine == old(self).burst_engine,
            final(self).data_buffer == old(self).data_buffer,
            final(self).sequence == old(self).sequence,
            final(self).fragment_state == old(self).fragment_state,
            final(self).reassembler == old(self).reassembler,
            final(self).conversation_id == old(self).conversation_id,
    {
        self.adversarial_masker.decide(data, jitter_ns, now_us)
    }

    /// How far the flow is from its target, in millionths.
    pub fn get_feature_distance(&self) -> (d: u128)
        requires
            self.adversarial_masker.wf(),
        ensures
            d == self.adversarial_masker.distance(),
    {
        self.adversarial_masker.feature_distance()
    }

    /// One round of the burst engine on `data`: the payloads that are to be morphed.
    pub fn begin_burst(&mut self, data: Vec<u8>, samples: &BurstSamples) -> (units: Vec<BurstUnit>)
        requires
            old(self).burst_engine.wf(),
            burst_engine::sizes_usable(old(self).burst_engine.game_model, *samples),
        ensures
            final(self).burst_engine.wf(),
            exists|roll: int, n: int, actions: Seq<PacketAction>|
                0 <= roll < 0x10_0000_0000_0000 && #[trigger] old(self).burst_engine.did(
                    data@,
                    *samples,
                    roll,
                    n,
                    final(self).burst_engine,
                    actions,
                ) && units_for(units@, payloads_of(actions)),
            final(self).statistical_model == old(self).statistical_model,
            final(self).adversarial_masker == old(self).adversarial_masker,
            final(self).data_buffer == old(self).data_buffer,
            final(self).sequence == old(self).sequence,
            final(self).fragment_state == old(self).fragment_state,
            final(self).reassembler == old(self).reassembler,
            final(self).conversation_id == old(self).conversation_id,
    {
        let ghost before = self.burst_engine;
        let actions = self.burst_engine.process(data, samples);
        proof {
            let (roll, n) = choose|roll: int, n: int|
                0 <= roll < 0x10_0000_0000_0000 && #[trigger] before.did(
                    data@,
                    *samples,
                    roll,
                    n,
                    self.burst_engine,
                    actions@,
                );
            lemma_pads_bounded(before, data@, *samples, roll, n, self.burst_engine, actions@);
        }
        burst_units(actions)
    }

    /// Morphs the payloads of a burst one after the other, each under its own samples
    /// and no sooner than its own delay.
    pub fn process_burst(&mut self, units: Vec<BurstUnit>, samples: &[PacketSample]) -> (packets: Vec<
        MorphedPacket,
    >)
        requires
            samples@.len() >= samples_before(units@, units@.len() as int),
        ensures
            exists|runs: Seq<Seq<MorphedPacket>>|
                #[trigger] burst_morphed(
                    runs,
                    units@,
                    samples@,
                    old(self).conversation_id,
                    old(self).sequence as int,
                ) && packets@ == runs.flatten() && final(self).sequence == (old(self).sequence
                    + packets@.len()) % 0x1_0000_0000_0000_0000,
            final(self).same_but_sequence(old(self)),
            final(self).fragment_state == state_after_burst(
                old(self).fragment_state,
                units@,
                samples@,
                units@.len() as int,
            ),
    {
        let n: usize = units.len();
        let ghost all = units@;
        let ghost mut runs = Seq::<Seq<MorphedPacket>>::empty();
        let mut packets: Vec<MorphedPacket> = Vec::new();
        let mut rest: Vec<BurstUnit> = units;
        let mut i: usize = 0;
        let mut at: usize = 0;
        assert(samples.len() == samples@.len());
        assert(runs.flatten() =~= Seq::empty());
        while i < n
            invariant
                i <= n,
                n == all.len(),
                rest@ == all.subrange(i as int, n as int),
                samples.len() == samples@.len(),
                samples@.len() >= samples_before(all, n as int),
                at == samples_before(all, i as int),
                at <= samples@.len(),
                runs.len() == i,
                packets@ == runs.flatten(),
                self.sequence == (old(self).sequence + packets@.len()) % 0x1_0000_0000_0000_0000,
                self.same_but_sequence(old(self)),
                self.fragment_state == state_after_burst(
                    old(self).fragment_state,
                    all,
                    samples@,
                    i as int,
                ),
                forall|k: int|
                    0 <= k < i ==> run_holds(
                        #[trigger] runs[k],
                        all,
                        samples@,
                        old(self).conversation_id,
                        old(self).sequence + runs.subrange(0, k).flatten().len(),
                        k,
                    ),
            decreases n - i,
        {
            let unit = rest.remove(0);
            let ghost payload = unit.payload@;
            let ghost wait = unit.wait_us as int;
            proof {
                assert(unit == all[i as int]);
                assert(rest@ =~= all.subrange(i + 1, n as int));
                lemma_samples_grow(all, i + 1, n as int);
            }
            let len: usize = unit.payload.len();
            let needed: usize = if len == 0 { 1 } else { 2 + (len - 1) / MIN_PAYLOAD_SIZE };
            let own = vstd::slice::slice_subrange(samples, at, at + needed);
            let mut run = self.morph_after(unit.payload, own, unit.wait_us);
            let ghost made = run@;
            let ghost first = (old(self).sequence + packets@.len()) % 0x1_0000_0000_0000_0000;
            packets.append(&mut run);
            proof {
                let longer_runs = runs.push(made);
                assert(longer_runs.subrange(0, i as int) =~= runs);
                assert(run_holds(
                    made,
                    all,
                    samples@,
                    old(self).conversation_id,
                    old(self).sequence + runs.flatten().len(),
                    i as int,
                ));
                lemma_flatten_push(runs, made);
                assert forall|k: int| 0 <= k < i + 1 implies run_holds(
                    #[trigger] longer_runs[k],
                    all,
                    samples@,
                    old(self).conversation_id,
                    old(self).sequence + longer_runs.subrange(0, k).flatten().len(),
                    k,
                ) by {
                    if k < i {
                        assert(longer_runs[k] == runs[k]);
                        assert(longer_runs.subrange(0, k) =~= runs.subrange(0, k));
                    }
                }
                runs = longer_runs;
            }
            at = at + needed;
            i = i + 1;
        }
        assert(burst_morphed(
            runs,
            all,
            samples@,
            old(self).conversation_id,
            old(self).sequence as int,
        ));
        packets
    }

    /// How long to wait for the next round of the burst engine.
    pub fn next_action_delay(&self, idle_delay_ms: u64) -> (delay_us: u64)
        ensures
            delay_us == match self.burst_engine.state {
                BurstState::Idle { .. } => 1000 * burst_engine::clamp(
                    idle_delay_ms as int,
                    50,
                    5000,
                ),
                BurstState::BurstActive { inter_packet_delay_us, .. } => inter_packet_delay_us
                    as int,
                BurstState::PostBurstCooldown { cooldown_remaining_us, .. } => if 200_000
                    < cooldown_remaining_us {
                    200_000
                } else {
                    cooldown_remaining_us as int
                },
            },
    {
        self.burst_engine.next_action_delay(idle_delay_ms)
    }

    pub fn game_name(&self) -> (name: &str)
        ensures
            name@ == self.statistical_model.name@,
    {
        self.statistical_model.game_name()
    }

    pub fn sequence(&self) -> (seq: u64)
        ensures
            seq == self.sequence,
    {
        self.sequence
    }

    pub fn conversation_id(&self) -> (id: u32)
        ensures
            id == self.conversation_id,
    {
        self.conversation_id
    }

    pub fn buffered_data_len(&self) -> (len: usize)
        ensures
            len == self.data_buffer@.len(),
    {
        self.data_buffer.len()
    }
}

/// How many data bytes the fragments `start..start + total` hold.
fn group_len(
    fragments: &Vec<Fragment>,
    start: usize,
    total: usize,
    Ghost(chunks): Ghost<Seq<Seq<u8>>>,
) -> (len: usize)
    requires
        start + total <= fragments.len(),
        chunks.len() == fragments@.len(),
        forall|i: int| 0 <= i < chunks.len() ==> (#[trigger] fragments@[i]).data_len == chunks[i].len(),
        bytes::concat(chunks).len() <= usize::MAX,
    ensures
        len == bytes::concat(chunks.subrange(start as int, start + total)).len(),
{
    let mut len: usize = 0;
    let mut j: usize = 0;
    assert(chunks.subrange(start as int, start as int) =~= Seq::empty());
    while j < total
        invariant
            j <= total,
            start + total <= fragments.len(),
            chunks.len() == fragments@.len(),
            forall|i: int|
                0 <= i < chunks.len() ==> (#[trigger] fragments@[i]).data_len == chunks[i].len(),
            bytes::concat(chunks).len() <= usize::MAX,
            len == bytes::concat(chunks.subrange(start as int, start + j)).len(),
        decreases total - j,
    {
        proof {
            let more = chunks.subrange(start as int, start + j + 1);
            assert(more.drop_last() =~= chunks.subrange(start as int, start + j));
            assert(more.last() == chunks[start + j]);
            lemma_part_len(chunks, start as int, start + j + 1);
        }
        len = len + fragments[start + j].data_len;
        j = j + 1;
    }
    len
}

/// A framed fragment is what its chunk's packet should be.
#[verifier::spinoff_prover]
proof fn lemma_morphs(
    packet: MorphedPacket,
    data: Seq<u8>,
    samples: Seq<PacketSample>,
    conversation_id: u32,
    first_seq: int,
    wait_us: int,
    i: int,
    body: Seq<u8>,
)
    requires
        0 <= i < chunks_of(data, samples).len(),
        0 <= first_seq,
        packet.sequence == (first_seq + i) % 0x1_0000_0000_0000_0000,
        packet.delay_us == longer(wait_us, delay_of(samples[i])),
        packet.packet_type.fits_size(packet.data@.len() as int),
        is_padded(body, chunks_of(data, samples)[i], target_of(data, samples, i)),
        frames(
            packet.data@,
            conversation_id,
            i % (MAX_GROUP as int),
            group_total(chunks_of(data, samples).len() as int, i),
            samples[i].now_ms,
            packet.sequence,
            group_data(chunks_of(data, samples), i).len() as int,
            chunks_of(data, samples)[i].len() as int,
            body,
        ),
    ensures
        morphs(packet, data, samples, conversation_id, first_seq, wait_us, i),
{
    let chunks = chunks_of(data, samples);
    let total = group_total(chunks.len() as int, i);
    let current = i % (MAX_GROUP as int);
    lemma_group_arith(chunks.len() as int, i);
    let kind = choose|kind: GamePacketType|
        kind.fits_size(body.len() as int) && packet.data@ == #[trigger] game_packet::framed(
            conversation_id,
            kind,
            FragmentState::encoded(current, total),
            samples[i].now_ms,
            packet.sequence,
            group_data(chunks, i).len() as int,
            chunks[i].len() as int,
            body,
        );
    game_packet::law_framed_parses(
        conversation_id,
        kind,
        current,
        total,
        samples[i].now_ms,
        packet.sequence,
        group_data(chunks, i).len() as int,
        chunks[i].len() as int,
        body,
    );
    let kept = bytes::low_u32(chunks[i].len() as int) as int;
    assert(body.subrange(0, kept) == chunks[i].subrange(0, kept)) by {
        let noise = choose|noise: Seq<u8>|
            noise.len() == padding_len(chunks[i].len() as int, target_of(data, samples, i))
                && body == chunks[i] + #[trigger] marked(noise);
        assert(body.subrange(0, kept) =~= chunks[i].subrange(0, kept));
    }
    assert(bytes::low_u32(packet.sequence as int) == bytes::low_u32(first_seq + i)) by {
        vstd::arithmetic::div_mod::lemma_mod_mod(first_seq + i, 0x1_0000_0000, 0x1_0000_0000);
    }
}

// ---- Bursts ----

/// A payload that a burst wants morphed, and how long it waits at least. Without bytes
/// it stands for a keepalive.
#[derive(Debug)]
pub struct BurstUnit {
    pub payload: Vec<u8>,
    pub wait_us: u64,
}

/// A payload as an action names it: known bytes, or so many random ones.
pub enum Payload {
    Known(Seq<u8>),
    Noise(int),
}

/// The payloads and waits of one action.
pub open spec fn payloads_in(action: PacketAction) -> Seq<(Payload, u64)> {
    match action {
        PacketAction::Send { data, delay_us } => seq![(Payload::Known(data@), delay_us)],
        PacketAction::Pad { size, delay_us } => seq![(Payload::Noise(size as int), delay_us)],
        PacketAction::Split { data, delay_us } => Seq::new(
            data@.len(),
            |i: int| (Payload::Known(data@[i]@), delay_us),
        ),
        PacketAction::Keepalive { delay_us } => seq![(Payload::Known(Seq::empty()), delay_us)],
    }
}

/// The payloads and waits of all actions, in order.
pub open spec fn payloads_of(actions: Seq<PacketAction>) -> Seq<(Payload, u64)>
    decreases actions.len(),
{
    if actions.len() == 0 {
        Seq::empty()
    } else {
        payloads_of(actions.drop_last()) + payloads_in(actions.last())
    }
}

/// Whether a unit is the payload that was named.
pub open spec fn unit_for(unit: BurstUnit, named: (Payload, u64)) -> bool {
    &&& unit.wait_us == named.1
    &&& match named.0 {
        Payload::Known(data) => unit.payload@ == data,
        Payload::Noise(size) => unit.payload@.len() == size,
    }
}

/// Whether the units are the payloads that were named, one for one.
pub open spec fn units_for(units: Seq<BurstUnit>, named: Seq<(Payload, u64)>) -> bool {
    units.len() == named.len() && forall|i: int|
        0 <= i < units.len() ==> unit_for(#[trigger] units[i], named[i])
}

/// Whether every padding that is asked for can be allocated.
pub open spec fn pads_bounded(actions: Seq<PacketAction>) -> bool {
    forall|i: int|
        0 <= i < actions.len() ==> ((#[trigger] actions[i]) matches PacketAction::Pad {
            size,
            ..
        } ==> size <= isize::MAX)
}

/// How many samples the first `n` units use up.
pub open spec fn samples_before(units: Seq<BurstUnit>, n: int) -> int
    decreases n,
{
    if n <= 0 {
        0
    } else {
        samples_before(units, n - 1) + samples_needed(units[n - 1].payload@.len() as int)
    }
}

proof fn lemma_samples_grow(units: Seq<BurstUnit>, i: int, j: int)
    requires
        0 <= i <= j <= units.len(),
    ensures
        0 <= samples_before(units, i) <= samples_before(units, j),
    decreases j,
{
    if i < j {
        lemma_samples_grow(units, i, j - 1);
    } else if i > 0 {
        lemma_samples_grow(units, i - 1, i - 1);
    }
}

/// Whether `run` is unit `k` morphed with the samples that are its own.
pub open spec fn run_holds(
    run: Seq<MorphedPacket>,
    units: Seq<BurstUnit>,
    samples: Seq<PacketSample>,
    conversation_id: u32,
    first_seq: int,
    k: int,
) -> bool {
    morphed(
        run,
        units[k].payload@,
        samples.subrange(samples_before(units, k), samples_before(units, k + 1)),
        conversation_id,
        (first_seq % 0x1_0000_0000_0000_0000) as u64,
        units[k].wait_us as int,
    )
}

/// Whether the runs are the units morphed one after the other.
pub open spec fn burst_morphed(
    runs: Seq<Seq<MorphedPacket>>,
    units: Seq<BurstUnit>,
    samples: Seq<PacketSample>,
    conversation_id: u32,
    first_seq: int,
) -> bool {
    runs.len() == units.len() && forall|k: int|
        0 <= k < runs.len() ==> run_holds(
            #[trigger] runs[k],
            units,
            samples,
            conversation_id,
            first_seq + runs.subrange(0, k).flatten().len(),
            k,
        )
}

proof fn lemma_flatten_push(runs: Seq<Seq<MorphedPacket>>, run: Seq<MorphedPacket>)
    ensures
        runs.push(run).flatten() == runs.flatten() + run,
{
    runs.push(run).lemma_flatten_and_flatten_alt_are_equivalent();
    runs.lemma_flatten_and_flatten_alt_are_equivalent();
    assert(runs.push(run).drop_last() =~= runs);
}

/// How many samples a burst uses up.
pub fn samples_for(units: &Vec<BurstUnit>) -> (n: u128)
    ensures
        n == samples_before(units@, units@.len() as int),
{
    let mut n: u128 = 0;
    let mut i: usize = 0;
    while i < units.len()
        invariant
            i <= units@.len(),
            n == samples_before(units@, i as int),
            n <= i * 0x1_0000_0000_0000_0000,
        decreases units@.len() - i,
    {
        let len: usize = units[i].payload.len();
        let needed: usize = if len == 0 { 1 } else { 2 + (len - 1) / MIN_PAYLOAD_SIZE };
        n = n + needed as u128;
        i = i + 1;
    }
    n
}

/// The payloads that a round of the engine wants morphed; padding becomes random bytes.
pub fn burst_units(actions: Vec<PacketAction>) -> (units: Vec<BurstUnit>)
    requires
        pads_bounded(actions@),
    ensures
        units_for(units@, payloads_of(actions@)),
{
    let mut units: Vec<BurstUnit> = Vec::new();
    let n: usize = actions.len();
    let ghost all = actions@;
    let mut rest: Vec<PacketAction> = actions;
    let mut i: usize = 0;
    assert(all.subrange(0, 0) =~= Seq::empty());
    while i < n
        invariant
            i <= n,
            n == all.len(),
            pads_bounded(all),
            rest@ == all.subrange(i as int, n as int),
            units_for(units@, payloads_of(all.subrange(0, i as int))),
        decreases n - i,
    {
        let action = rest.remove(0);
        let ghost before = units@;
        proof {
            assert(action == all[i as int]);
            assert(rest@ =~= all.subrange(i + 1, n as int));
            let upto = all.subrange(0, i + 1);
            assert(upto.drop_last() =~= all.subrange(0, i as int));
            assert(upto.last() == action);
        }
        match action {
            PacketAction::Send { data, delay_us } => {
                units.push(BurstUnit { payload: data, wait_us: delay_us });
            },
            PacketAction::Pad { size, delay_us } => {
                units.push(BurstUnit { payload: random_bytes(size), wait_us: delay_us });
            },
            PacketAction::Split { data, delay_us } => {
                let ghost pieces = data@;
                let mut chunks: Vec<Vec<u8>> = data;
                let m: usize = chunks.len();
                let mut k: usize = 0;
                while k < m
                    invariant
                        k <= m,
                        m == pieces.len(),
                        chunks@ == pieces.subrange(k as int, m as int),
                        units@.len() == before.len() + k,
                        forall|j: int| 0 <= j < before.len() ==> #[trigger] units@[j] == before[j],
                        forall|j: int|
                            before.len() <= j < units@.len() ==> unit_for(
                                #[trigger] units@[j],
                                (Payload::Known(pieces[j - before.len()]@), delay_us),
                            ),
                    decreases m - k,
                {
                    let chunk = chunks.remove(0);
                    assert(chunks@ =~= pieces.subrange(k + 1, m as int));
                    units.push(BurstUnit { payload: chunk, wait_us: delay_us });
                    k = k + 1;
                }
            },
            PacketAction::Keepalive { delay_us } => {
                let none: Vec<u8> = Vec::new();
                units.push(BurstUnit { payload: none, wait_us: delay_us });
            },
        }
        proof {
            let earlier = payloads_of(all.subrange(0, i as int));
            assert forall|j: int| 0 <= j < units@.len() implies unit_for(
                #[trigger] units@[j],
                (earlier + payloads_in(action))[j],
            ) by {
                if j < before.len() {
                    assert(units@[j] == before[j]);
                }
            }
        }
        i = i + 1;
    }
    assert(all.subrange(0, n as int) =~= all);
    units
}

/// The padding that a round asks for is never more than the size it pads to.
proof fn lemma_pads_bounded(
    engine: BurstEngine,
    data: Seq<u8>,
    samples: BurstSamples,
    roll: int,
    n: int,
    after: BurstEngine,
    actions: Seq<PacketAction>,
)
    requires
        engine.wf(),
        0 <= roll < 0x10_0000_0000_0000,
        burst_engine::sizes_usable(engine.game_model, samples),
        engine.did(data, samples, roll, n, after, actions),
    ensures
        pads_bounded(actions),
{
    burst_engine::lemma_planned_pads(engine, data, samples, roll, n);
    let queued = burst_engine::Round {
        pending: burst_engine::enqueued(engine.round().pending, data),
        ..engine.round()
    };
    let ready = burst_engine::transitioned(queued, engine.game_model, samples, roll);
    let planned = burst_engine::acted(ready, engine.game_model, samples, roll, n).1;
    assert forall|i: int| 0 <= i < actions.len() implies ((#[trigger] actions[i]) matches
        PacketAction::Pad { size, .. } ==> size <= isize::MAX) by {
        assert(burst_engine::performs(actions[i], planned[i], samples.clock_ms));
        assert(burst_engine::pad_bounded(planned[i]));
    }
}

// ---- What morphing keeps to ----

/// A packet waits for as many milliseconds as were sampled for it, for one at least, and never
/// for less than it was told to; and it waits for no other reason.
pub proof fn law_packets_wait_as_sampled(
    packets: Seq<MorphedPacket>,
    data: Seq<u8>,
    samples: Seq<PacketSample>,
    conversation_id: u32,
    first_seq: u64,
    wait_us: int,
    i: int,
)
    requires
        morphed(packets, data, samples, conversation_id, first_seq, wait_us),
        0 <= i < packets.len(),
    ensures
        packets[i].delay_us >= 1000 * samples[i].delay_ms,
        packets[i].delay_us >= 1000,
        packets[i].delay_us >= wait_us,
        wait_us <= 1000 && samples[i].delay_ms >= 1 ==> packets[i].delay_us == 1000
            * samples[i].delay_ms,
        packets[i].delay_us > wait_us && packets[i].delay_us > 1000 ==> packets[i].delay_us == 1000
            * samples[i].delay_ms,
{
    if data.len() > 0 {
        assert(morphs(
            packets[i],
            data,
            samples,
            conversation_id,
            first_seq as int,
            wait_us,
            i,
        ));
    }
}

/// A message that fits the first sampled size next to a header of 24 bytes goes out in one
/// packet of exactly that size.
pub proof fn law_small_messages_take_one_packet(
    packets: Seq<MorphedPacket>,
    data: Seq<u8>,
    samples: Seq<PacketSample>,
    conversation_id: u32,
    first_seq: u64,
    wait_us: int,
)
    requires
        morphed(packets, data, samples, conversation_id, first_seq, wait_us),
        0 < data.len(),
        data.len() + 24 <= samples[0].target_size,
    ensures
        packets.len() == 1,
        packets[0].data@.len() == samples[0].target_size,
        packets[0].sequence == first_seq,
{
    let chunks = chunks_of(data, samples);
    assert(morphs(packets[0], data, samples, conversation_id, first_seq as int, wait_us, 0));
    lemma_packet_len(packets[0], data, samples, conversation_id, first_seq as int, wait_us, 0);
}

/// Where one packet is not enough, each further sample sizes one packet: it has the sampled size,
/// or else a header of 24 bytes and at most 16 bytes of data.
pub proof fn law_packets_have_their_sampled_size(
    packets: Seq<MorphedPacket>,
    data: Seq<u8>,
    samples: Seq<PacketSample>,
    conversation_id: u32,
    first_seq: u64,
    wait_us: int,
    i: int,
)
    requires
        morphed(packets, data, samples, conversation_id, first_seq, wait_us),
        data.len() + 24 > samples[0].target_size,
        data.len() > 16,
        samples.len() >= samples_needed(data.len() as int),
        0 <= i < packets.len(),
    ensures
        packets[i].data@.len() >= samples[i + 1].target_size,
        samples[i + 1].target_size >= 40 ==> packets[i].data@.len() == samples[i + 1].target_size,
        samples[i + 1].target_size < 40 ==> 24 < packets[i].data@.len() <= 40,
        packets[i].sequence == (first_seq + i) % 0x1_0000_0000_0000_0000,
{
    assert(morphs(packets[i], data, samples, conversation_id, first_seq as int, wait_us, i));
    lemma_packet_len(packets[i], data, samples, conversation_id, first_seq as int, wait_us, i);
    lemma_cut(data, samples.skip(1));
    lemma_cut_sizes(data, samples.skip(1), i);
}

/// Without data one packet goes out: a header of 24 bytes, and random bytes up to the sampled
/// size, sixteen at least.
pub proof fn law_keepalives_have_the_sampled_size(
    packets: Seq<MorphedPacket>,
    samples: Seq<PacketSample>,
    conversation_id: u32,
    first_seq: u64,
    wait_us: int,
)
    requires
        morphed(packets, Seq::empty(), samples, conversation_id, first_seq, wait_us),
    ensures
        packets.len() == 1,
        packets[0].packet_type == GamePacketType::Keepalive,
        samples[0].target_size >= 40 ==> packets[0].data@.len() == samples[0].target_size,
        samples[0].target_size < 40 ==> packets[0].data@.len() == 40,
{
    let p = packets[0];
    let noise = choose|noise: Seq<u8>|
        #[trigger] frames_noise(p.data@, samples[0], conversation_id, first_seq, noise);
    let kind = choose|kind: GamePacketType|
        kind.fits_size(noise.len() as int) && p.data@ == #[trigger] game_packet::framed(
            conversation_id,
            kind,
            FragmentState::encoded(0, 1),
            samples[0].now_ms,
            first_seq,
            noise.len() as int,
            noise.len() as int,
            noise,
        );
    reveal(game_packet::framed);
}

/// The length of a packet: a header, its chunk, and padding up to the sampled size.
proof fn lemma_packet_len(
    p: MorphedPacket,
    data: Seq<u8>,
    samples: Seq<PacketSample>,
    conversation_id: u32,
    first_seq: int,
    wait_us: int,
    i: int,
)
    requires
        morphs(p, data, samples, conversation_id, first_seq, wait_us, i),
        0 <= i < chunks_of(data, samples).len(),
    ensures
        p.data@.len() == longer(
            target_of(data, samples, i),
            HEADER_SIZE + chunks_of(data, samples)[i].len(),
        ),
{
    let chunks = chunks_of(data, samples);
    let total = group_total(chunks.len() as int, i);
    let body = choose|body: Seq<u8>|
        #![trigger frames(p.data@, conversation_id, i % (MAX_GROUP as int), group_total(chunks.len() as int, i), samples[i].now_ms, p.sequence, group_data(chunks, i).len() as int, chunks[i].len() as int, body)]
        is_padded(body, chunks[i], target_of(data, samples, i)) && frames(
            p.data@,
            conversation_id,
            i % (MAX_GROUP as int),
            total,
            samples[i].now_ms,
            p.sequence,
            group_data(chunks, i).len() as int,
            chunks[i].len() as int,
            body,
        );
    let kind = choose|kind: GamePacketType|
        kind.fits_size(body.len() as int) && p.data@ == #[trigger] game_packet::framed(
            conversation_id,
            kind,
            FragmentState::encoded(i % (MAX_GROUP as int), total),
            samples[i].now_ms,
            p.sequence,
            group_data(chunks, i).len() as int,
            chunks[i].len() as int,
            body,
        );
    let noise = choose|noise: Seq<u8>|
        noise.len() == padding_len(chunks[i].len() as int, target_of(data, samples, i)) && body
            == chunks[i] + #[trigger] marked(noise);
    reveal(game_packet::framed);
    assert(marked(noise).len() == noise.len());
}

/// No chunk is longer than its sample allows.
proof fn lemma_cut_sizes(data: Seq<u8>, samples: Seq<PacketSample>, i: int)
    requires
        0 <= i < cut(data, samples).len(),
        i < samples.len(),
    ensures
        0 < cut(data, samples)[i].len() <= capacity(samples[i].target_size as int),
    decreases data.len(),
{
    let room = capacity(samples[0].target_size as int);
    let k = if data.len() <= room {
        data.len() as int
    } else {
        room
    };
    let rest = data.subrange(k, data.len() as int);
    if i > 0 {
        lemma_cut_sizes(rest, samples.skip(1), i - 1);
        assert(cut(data, samples)[i] == cut(rest, samples.skip(1))[i - 1]);
        assert(samples.skip(1)[i - 1] == samples[i]);
    }
}

/// A drawn delay is at least a millisecond, and never farther than four milliseconds from the gap
/// and the offset that it is drawn for.
pub proof fn law_delays_stay_near_the_gap(gap_us: int, shift: int, offset_us: int)
    requires
        0 <= gap_us,
        0 <= shift <= 6000,
    ensures
        delay_for(gap_us, shift, offset_us) >= 1,
        gap_us >= 4000 && gap_us + offset_us >= 4000 && delay_for(gap_us, shift, offset_us)
            < u32::MAX ==> gap_us + offset_us - 4000 < 1000 * delay_for(gap_us, shift, offset_us)
            <= gap_us + offset_us + 3000,
        gap_us >= 4000 && gap_us + offset_us >= 4000 ==> 1000 * delay_for(gap_us, 3000, offset_us)
            <= gap_us + offset_us,
        gap_us >= 4000 && offset_us >= 0 && delay_for(gap_us, shift, offset_us) < u32::MAX
            ==> delay_for(gap_us + 1000, shift, offset_us) == delay_for(gap_us, shift, offset_us)
            + 1 && delay_for(gap_us, shift, offset_us + 1000) == delay_for(
            gap_us,
            shift,
            offset_us,
        ) + 1,
{
}

/// Fragments are numbered within groups of fifteen: each has its place there, groups before the
/// last are full, and the last holds the rest.
pub proof fn law_fragments_are_numbered_in_groups(chunks: Seq<Seq<u8>>, i: int)
    requires
        0 <= i < chunks.len(),
        chunks[i].len() <= usize::MAX,
    ensures
        chunk_state(chunks, i).fragment_size == chunks[i].len(),
        chunk_state(chunks, i).current_fragment < chunk_state(chunks, i).total_fragments <= 15,
        i < 15 ==> chunk_state(chunks, i).current_fragment == i,
        chunks.len() <= 15 ==> chunk_state(chunks, i).total_fragments == chunks.len(),
        i + 15 < chunks.len() ==> chunk_state(chunks, i).total_fragments == 15,
        i >= 15 ==> chunk_state(chunks, i).current_fragment == chunk_state(
            chunks,
            i - 15,
        ).current_fragment,
{
}

/// Each action hands on its payloads with its wait: data as it is, padding as noise of its size, the
/// pieces of a split one by one, and nothing at all for a keepalive.
pub proof fn law_actions_hand_on_their_payloads(actions: Seq<PacketAction>, a: PacketAction)
    ensures
        payloads_of(actions.push(a)) == payloads_of(actions) + payloads_in(a),
        payloads_of(Seq::<PacketAction>::empty()).len() == 0,
        a matches PacketAction::Send { data, delay_us } ==> payloads_in(a) == seq![
            (Payload::Known(data@), delay_us),
        ],
        a matches PacketAction::Pad { size, delay_us } ==> payloads_in(a) == seq![
            (Payload::Noise(size as int), delay_us),
        ],
        a matches PacketAction::Split { data, delay_us } ==> payloads_in(a).len() == data@.len()
            && forall|i: int|
            0 <= i < data@.len() ==> #[trigger] payloads_in(a)[i] == (
                Payload::Known(data@[i]@),
                delay_us,
            ),
        a matches PacketAction::Keepalive { delay_us } ==> payloads_in(a) == seq![
            (Payload::Known(Seq::empty()), delay_us),
        ],
{
    assert(actions.push(a).drop_last() =~= actions);
    assert(actions.push(a).last() == a);
}

/// Packets are numbered one after the other from the first number on.
pub proof fn law_packets_are_numbered_in_order(
    packets: Seq<MorphedPacket>,
    data: Seq<u8>,
    samples: Seq<PacketSample>,
    conversation_id: u32,
    first_seq: u64,
    wait_us: int,
    i: int,
)
    requires
        morphed(packets, data, samples, conversation_id, first_seq, wait_us),
        0 <= i < packets.len(),
    ensures
        first_seq + i <= u64::MAX ==> packets[i].sequence == first_seq + i,
{
    if data.len() > 0 {
        assert(morphs(
            packets[i],
            data,
            samples,
            conversation_id,
            first_seq as int,
            wait_us,
            i,
        ));
    }
}

/// The packets of a burst go on in number from unit to unit, and each waits at least as long as its
/// unit was told to.
pub proof fn law_bursts_are_numbered_on(
    runs: Seq<Seq<MorphedPacket>>,
    units: Seq<BurstUnit>,
    samples: Seq<PacketSample>,
    conversation_id: u32,
    first_seq: u64,
    k: int,
    i: int,
)
    requires
        burst_morphed(runs, units, samples, conversation_id, first_seq as int),
        0 <= k < runs.len(),
        0 <= i < runs[k].len(),
        first_seq + runs.subrange(0, k).flatten().len() + i <= u64::MAX,
    ensures
        runs[k][i].sequence == first_seq + runs.subrange(0, k).flatten().len() + i,
        runs[k][i].sequence >= first_seq,
        runs[k][i].delay_us >= units[k].wait_us,
        runs[k][i].delay_us >= 1000,
{
    let before = runs.subrange(0, k).flatten().len() as int;
    let seq = first_seq + before;
    assert(run_holds(runs[k], units, samples, conversation_id, seq, k));
    assert(seq % 0x1_0000_0000_0000_0000 == seq);
    let own = samples.subrange(samples_before(units, k), samples_before(units, k + 1));
    law_packets_are_numbered_in_order(
        runs[k],
        units[k].payload@,
        own,
        conversation_id,
        seq as u64,
        units[k].wait_us as int,
        i,
    );
    law_packets_wait_as_sampled(
        runs[k],
        units[k].payload@,
        own,
        conversation_id,
        seq as u64,
        units[k].wait_us as int,
        i,
    );
}

} // verus!
