//! Fragments collected until their group is complete.

use std::collections::BTreeMap;

use crate::masking::game_packet::{parse_packet, Frame, GameFrame};
#[allow(unused_imports)]
use crate::masking::game_packet;
#[allow(unused_imports)]
use crate::utils::bytes;
use crate::utils::bytes::put_all;
use vstd::prelude::*;
#[allow(unused_imports)]
use vstd::std_specs::cmp::OrdSpec;
#[allow(unused_imports)]
use vstd::std_specs::iter::IteratorSpec;

verus! {

broadcast use {
    vstd::std_specs::btree::group_btree_axioms,
    vstd::laws_cmp::group_laws_cmp,
};

/// The fragments received so far of one group.
pub struct PendingGroup {
    pub parts: Map<usize, Seq<u8>>,
    pub total: nat,
    pub original_length: nat,
}

/// The parts below `n` that are there, one after the other.
pub open spec fn joined(parts: Map<usize, Seq<u8>>, n: nat) -> Seq<u8>
    decreases n,
{
    if n == 0 {
        Seq::empty()
    } else if parts.contains_key((n - 1) as usize) {
        joined(parts, (n - 1) as nat) + parts[(n - 1) as usize]
    } else {
        joined(parts, (n - 1) as nat)
    }
}

/// More than every index of a part.
pub open spec fn all_parts() -> nat {
    (usize::MAX + 1) as nat
}

/// Indices without a part do not matter.
pub proof fn lemma_joined_skips(parts: Map<usize, Seq<u8>>, from: nat, to: nat)
    requires
        from <= to <= all_parts(),
        forall|i: usize| from <= i < to ==> !parts.contains_key(i),
    ensures
        joined(parts, to) == joined(parts, from),
    decreases to,
{
    if from < to {
        assert(!parts.contains_key((to - 1) as usize));
        lemma_joined_skips(parts, from, (to - 1) as nat);
    }
}

/// The first `n` bytes of `s`, or all of `s` where it is shorter.
pub open spec fn prefix(s: Seq<u8>, n: nat) -> Seq<u8> {
    if n <= s.len() {
        s.subrange(0, n as int)
    } else {
        s
    }
}

impl PendingGroup {
    pub open spec fn complete(self) -> bool {
        forall|i: usize| #[trigger] self.parts.contains_key(i) <==> i < self.total
    }

    /// What is there, in the order of the indices, cut to the length of the data.
    pub open spec fn assembled(self) -> Seq<u8> {
        prefix(joined(self.parts, all_parts()), self.original_length)
    }

    pub open spec fn with(self, index: usize, data: Seq<u8>) -> PendingGroup {
        PendingGroup { parts: self.parts.insert(index, data), ..self }
    }
}

#[derive(Debug)]
pub struct ReassemblyBuffer {
    pub fragments: BTreeMap<usize, Vec<u8>>,
    pub total_fragments: usize,
    pub original_length: usize,
}

impl View for ReassemblyBuffer {
    type V = PendingGroup;

    open spec fn view(&self) -> PendingGroup {
        PendingGroup {
            parts: self.fragments@.map_values(|v: Vec<u8>| v@),
            total: self.total_fragments as nat,
            original_length: self.original_length as nat,
        }
    }
}

/// A set that holds every number below `n` has at least `n` members, and exactly `n`
/// where it holds nothing else.
proof fn lemma_initial_segment_len(s: Set<usize>, n: nat)
    requires
        s.finite(),
        n <= usize::MAX + 1,
        forall|i: usize| i < n ==> s.contains(i),
    ensures
        s.len() >= n,
        (forall|i: usize| s.contains(i) ==> i < n) <==> s.len() == n,
    decreases n,
{
    if n == 0 {
        if s.len() == 0 {
            assert(forall|i: usize| !s.contains(i));
        } else {
            let x = s.choose();
            assert(s.contains(x));
        }
        if forall|i: usize| s.contains(i) ==> i < n {
            assert(s =~= Set::empty());
        }
    } else {
        let top = (n - 1) as usize;
        let t = s.remove(top);
        lemma_initial_segment_len(t, (n - 1) as nat);
        if forall|i: usize| s.contains(i) ==> i < n {
            assert forall|i: usize| t.contains(i) implies i < n - 1 by {
                assert(s.contains(i));
            }
        }
        if s.len() == n {
            assert forall|i: usize| s.contains(i) implies i < n by {
                if i != top {
                    assert(t.contains(i));
                }
            }
        }
    }
}

/// The keys that a map is walked by grow.
proof fn lemma_keys_ascend(keys: Seq<usize>)
    requires
        vstd::std_specs::btree::increasing_seq(keys),
    ensures
        forall|i: int, j: int|
            0 <= i < j < keys.len() ==> #[trigger] keys[i] < #[trigger] keys[j],
{
    assert forall|i: int, j: int| 0 <= i < j < keys.len() implies #[trigger] keys[i]
        < #[trigger] keys[j] by {
        assert(keys[i].cmp_spec(&keys[j]) is Less);
    }
}

impl ReassemblyBuffer {
    pub fn new(total_fragments: usize, original_length: usize) -> (b: Self)
        ensures
            b@ == (PendingGroup {
                parts: Map::empty(),
                total: total_fragments as nat,
                original_length: original_length as nat,
            }),
    {
        let b = ReassemblyBuffer {
            fragments: BTreeMap::new(),
            total_fragments,
            original_length,
        };
        assert(b@.parts =~= Map::empty());
        b
    }

    pub fn insert(&mut self, index: usize, data: Vec<u8>)
        ensures
            final(self)@ == old(self)@.with(index, data@),
    {
        self.fragments.insert(index, data);
        assert(self@.parts =~= old(self)@.with(index, data@).parts);
    }

    pub fn is_complete(&self) -> (b: bool)
        ensures
            b == self@.complete(),
    {
        let ghost dom = self.fragments@.dom();
        assert(dom =~= self@.parts.dom());
        let mut i: usize = 0;
        while i < self.total_fragments
            invariant
                i <= self.total_fragments,
                dom == self.fragments@.dom(),
                dom == self@.parts.dom(),
                forall|k: usize| k < i ==> dom.contains(k),
            decreases self.total_fragments - i,
        {
            if !self.fragments.contains_key(&i) {
                assert(!self@.parts.contains_key(i));
                return false;
            }
            i = i + 1;
        }
        proof {
            lemma_initial_segment_len(dom, self.total_fragments as nat);
            assert(self@.complete() <==> (forall|k: usize|
                dom.contains(k) ==> k < self.total_fragments)) by {
                if self@.complete() {
                    assert forall|k: usize| dom.contains(k) implies k < self.total_fragments by {
                        assert(self@.parts.contains_key(k));
                    }
                }
            }
        }
        self.fragments.len() == self.total_fragments
    }

    /// Joins what is there.
    pub fn reassemble(self) -> (out: Vec<u8>)
        ensures
            out@ == self@.assembled(),
    {
        let mut output: Vec<u8> = Vec::new();
        let ghost parts = self@.parts;
        let ghost mut below: nat = 0;
        let held = self.fragments.iter();
        proof {
            let pairs = held.remaining();
            let keys = pairs.map_values(|kv: (&usize, &Vec<u8>)| *kv.0);
            lemma_keys_ascend(keys);
            assert forall|i: int, j: int| 0 <= i < j < pairs.len() implies *(
            #[trigger] pairs[i]).0 < *(#[trigger] pairs[j]).0 by {
                assert(keys[i] < keys[j]);
            }
        }
        for kv in it: held
            invariant
                parts == self@.parts,
                it.index() <= it.seq().len(),
                below == (if it.index() == 0 {
                    0
                } else {
                    (*it.seq()[it.index() - 1].0 + 1) as nat
                }),
                below <= all_parts(),
                output@ == joined(parts, below),
                forall|i: int, j: int|
                    0 <= i < j < it.seq().len() ==> *(#[trigger] it.seq()[i]).0 < *(
                    #[trigger] it.seq()[j]).0,
                forall|i: int|
                    0 <= i < it.seq().len() ==> parts.contains_key(*(#[trigger] it.seq()[i]).0)
                        && parts[*it.seq()[i].0] == it.seq()[i].1@,
                forall|k: usize| #[trigger]
                    parts.contains_key(k) ==> exists|i: int|
                        0 <= i < it.seq().len() && *(#[trigger] it.seq()[i]).0 == k,
        {
            let ghost index = *kv.0;
            proof {
                lemma_joined_skips(parts, below, index as nat);
                below = (index + 1) as nat;
            }
            put_all(&mut output, kv.1.as_slice());
        }
        proof {
            lemma_joined_skips(parts, below, all_parts());
        }
        output.truncate(self.original_length);
        output
    }
}

/// The key under which a fragment's group is collected: the sequence number of the
/// group's first fragment.
pub open spec fn group_key(frame: Frame) -> u64 {
    ((frame.seq - frame.current) % 0x1_0000_0000) as u64
}

/// The group that `frame` belongs to, with `frame` in it.
pub open spec fn joined_group(pending: Map<u64, PendingGroup>, frame: Frame) -> PendingGroup {
    let key = group_key(frame);
    let group = if pending.contains_key(key) {
        pending[key]
    } else {
        PendingGroup {
            parts: Map::empty(),
            total: frame.total as nat,
            original_length: frame.original_len,
        }
    };
    group.with(frame.current, frame.payload)
}

/// The groups still incomplete after `packet`, and the data that it completes.
pub open spec fn received(pending: Map<u64, PendingGroup>, packet: Seq<u8>) -> (
    Map<u64, PendingGroup>,
    Option<Seq<u8>>,
) {
    match game_packet::parsed(packet) {
        None => (pending, None),
        Some(frame) => if frame.total <= 1 {
            (pending, Some(frame.payload))
        } else {
            let group = joined_group(pending, frame);
            if group.complete() {
                (pending.remove(group_key(frame)), Some(group.assembled()))
            } else {
                (pending.insert(group_key(frame), group), None)
            }
        },
    }
}

/// The groups still incomplete after all of `packets`, and the pieces of data that they
/// complete, in order.
pub open spec fn received_all(pending: Map<u64, PendingGroup>, packets: Seq<Seq<u8>>) -> (
    Map<u64, PendingGroup>,
    Seq<Seq<u8>>,
)
    decreases packets.len(),
{
    if packets.len() == 0 {
        (pending, Seq::empty())
    } else {
        let before = received_all(pending, packets.drop_last());
        let step = received(before.0, packets.last());
        (
            step.0,
            match step.1 {
                Some(piece) => before.1.push(piece),
                None => before.1,
            },
        )
    }
}

/// The groups of which fragments are still missing, by group key.
#[derive(Debug)]
pub struct Reassembler {
    pub buffers: BTreeMap<u64, ReassemblyBuffer>,
}

impl View for Reassembler {
    type V = Map<u64, PendingGroup>;

    open spec fn view(&self) -> Map<u64, PendingGroup> {
        self.buffers@.map_values(|b: ReassemblyBuffer| b@)
    }
}

impl Reassembler {
    pub fn new() -> (r: Self)
        ensures
            r@ == Map::<u64, PendingGroup>::empty(),
    {
        let r = Reassembler { buffers: BTreeMap::new() };
        assert(r@ =~= Map::empty());
        r
    }

    /// Takes one packet in. A packet that stands alone gives its data at once; a
    /// fragment gives the data of its whole group once the group is complete.
    pub fn receive(&mut self, packet: &[u8]) -> (result: Option<(Vec<u8>, u64)>)
        ensures
            final(self)@ == received(old(self)@, packet@).0,
            match received(old(self)@, packet@).1 {
                None => result is None,
                Some(piece) => result matches Some((data, seq)) && data@ == piece && seq
                    == bytes::le_u32_at(packet@, 12),
            },
    {
        let frame = match parse_packet(packet) {
            Some(frame) => frame,
            None => {
                return None;
            },
        };
        if frame.state.total_fragments <= 1 {
            return Some((frame.payload, frame.seq as u64));
        }
        let key: u64 = key_of(&frame);
        let ghost view = frame@;
        let ghost before = self@;
        let mut entry = match self.buffers.remove(&key) {
            Some(buffer) => buffer,
            None => ReassemblyBuffer::new(frame.state.total_fragments, frame.original_len),
        };
        assert(self@ =~= before.remove(key));
        entry.insert(frame.state.current_fragment, frame.payload);
        assert(entry@ == joined_group(before, view));
        if entry.is_complete() {
            return Some((entry.reassemble(), frame.seq as u64));
        }
        let ghost group = entry@;
        self.buffers.insert(key, entry);
        assert(self@ =~= before.insert(key, group));
        None
    }
}

/// The key of a frame's group.
fn key_of(frame: &GameFrame) -> (key: u64)
    requires
        frame.state.current_fragment <= 15,
    ensures
        key == group_key(frame@),
{
    let current: u64 = frame.state.current_fragment as u64;
    (0x1_0000_0000 + frame.seq as u64 - current) % 0x1_0000_0000
}

/// Fragments of one group meet under one key, the sequence number of the first, and those of
/// groups that begin elsewhere do not.
pub proof fn law_fragments_of_a_group_meet(a: Frame, b: Frame)
    ensures
        a.current == 0 ==> group_key(a) == a.seq,
        a.seq - a.current == b.seq - b.current ==> group_key(a) == group_key(b),
        a.seq >= a.current && b.seq >= b.current && group_key(a) == group_key(b) ==> a.seq
            - a.current == b.seq - b.current,
{
}

/// Of two fragments it does not matter which comes first, and one that comes again changes
/// nothing.
pub proof fn law_order_of_arrival_does_not_matter(
    group: PendingGroup,
    i: usize,
    j: usize,
    a: Seq<u8>,
    b: Seq<u8>,
)
    requires
        i != j,
    ensures
        group.with(i, a).with(j, b) == group.with(j, b).with(i, a),
        group.with(i, a).with(i, a) == group.with(i, a),
        group.with(i, a).total == group.total,
        group.with(i, a).original_length == group.original_length,
{
    assert(group.parts.insert(i, a).insert(j, b) =~= group.parts.insert(j, b).insert(i, a));
    assert(group.parts.insert(i, a).insert(i, a) =~= group.parts.insert(i, a));
}

/// A group of two is complete with both of its fragments and not before, and is the second behind
/// the first, cut to the length of the data.
pub proof fn law_two_fragments_make_the_data(a: Seq<u8>, b: Seq<u8>, length: nat)
    requires
        length <= a.len() + b.len(),
    ensures
        ({
            let none = PendingGroup { parts: Map::empty(), total: 2, original_length: length };
            let both = none.with(1, b).with(0, a);
            &&& !none.complete()
            &&& !none.with(0, a).complete()
            &&& !none.with(1, b).complete()
            &&& both.complete()
            &&& both.assembled() == (a + b).subrange(0, length as int)
        }),
{
    let none = PendingGroup { parts: Map::empty(), total: 2, original_length: length };
    assert(!none.parts.contains_key(0));
    assert(!none.with(0, a).parts.contains_key(1));
    assert(!none.with(1, b).parts.contains_key(0));
    let both = none.with(1, b).with(0, a);
    lemma_joined_skips(both.parts, 2, all_parts());
    assert(joined(both.parts, 0) =~= Seq::empty());
    assert(joined(both.parts, 1) =~= a);
    assert(joined(both.parts, 2) =~= a + b);
}

} // verus!
