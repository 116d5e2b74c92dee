//! Contents of TLS extensions.

#[allow(unused_imports)]
use crate::utils::bytes;
use crate::utils::bytes::{put_all, put_u16_be};
use vstd::prelude::*;

verus! {

pub const X25519: u16 = 0x001d;

pub const SECP256R1: u16 = 0x0017;

pub const X25519_KEM: u16 = 0x6399;

pub const SECP384R1: u16 = 0x0018;

pub const SECP521R1: u16 = 0x0019;

pub const FFDHE2048: u16 = 0x0100;

pub const FFDHE3072: u16 = 0x0101;

/// The low 16 bits of a length.
pub open spec fn low_u16(n: int) -> u16 {
    (n % 65536) as u16
}

/// Numbers one after the other, two bytes each, most significant first.
pub open spec fn be_list(items: Seq<u16>) -> Seq<u8>
    decreases items.len(),
{
    if items.len() == 0 {
        Seq::empty()
    } else {
        be_list(items.drop_last()) + bytes::u16_be(items.last())
    }
}

/// A list of numbers behind its length in bytes.
pub open spec fn counted_list(items: Seq<u16>) -> Seq<u8> {
    bytes::u16_be(low_u16(2 * items.len() as int)) + be_list(items)
}

/// Names one after the other, each behind its length in one byte.
pub open spec fn name_list(names: Seq<Seq<u8>>) -> Seq<u8>
    decreases names.len(),
{
    if names.len() == 0 {
        Seq::empty()
    } else {
        name_list(names.drop_last()).push((names.last().len() % 256) as u8) + names.last()
    }
}

/// A list of names behind its length in bytes.
pub open spec fn counted_names(names: Seq<Seq<u8>>) -> Seq<u8> {
    bytes::u16_be(low_u16(name_list(names).len() as int)) + name_list(names)
}

/// How long a key for a group is.
pub open spec fn key_len(group: u16) -> int {
    if group == SECP256R1 {
        65
    } else if group == SECP384R1 {
        97
    } else if group == SECP521R1 {
        133
    } else {
        32
    }
}

/// `n` zeros.
pub open spec fn zeros(n: int) -> Seq<u8> {
    Seq::new(n as nat, |i: int| 0u8)
}

/// A key of zeros for each group, behind the group and the key's length.
pub open spec fn key_list(groups: Seq<u16>) -> Seq<u8>
    decreases groups.len(),
{
    if groups.len() == 0 {
        Seq::empty()
    } else {
        key_list(groups.drop_last()) + bytes::u16_be(groups.last()) + bytes::u16_be(
            key_len(groups.last()) as u16,
        ) + zeros(key_len(groups.last()))
    }
}

/// The keys behind their length in bytes.
pub open spec fn counted_keys(groups: Seq<u16>) -> Seq<u8> {
    bytes::u16_be(low_u16(key_list(groups).len() as int)) + key_list(groups)
}

/// How many versions there are, then the low byte of each.
pub open spec fn version_list(versions: Seq<u16>) -> Seq<u8> {
    seq![(versions.len() % 256) as u8] + Seq::new(
        versions.len(),
        |i: int| (versions[i] % 256) as u8,
    )
}

/// Lists of numbers are as long as they say, where the length fits its field.
pub proof fn law_counted_list_length(items: Seq<u16>)
    requires
        2 * items.len() < 65536,
    ensures
        counted_list(items).len() == 2 + bytes::be_u16_at(counted_list(items), 0),
{
    lemma_be_list_len(items);
}

/// Lists of names are as long as they say, where the length fits its field.
pub proof fn law_counted_names_length(names: Seq<Seq<u8>>)
    requires
        name_list(names).len() < 65536,
    ensures
        counted_names(names).len() == 2 + bytes::be_u16_at(counted_names(names), 0),
{
}

/// Lists of keys are as long as they say, where the length fits its field.
pub proof fn law_counted_keys_length(groups: Seq<u16>)
    requires
        key_list(groups).len() < 65536,
    ensures
        counted_keys(groups).len() == 2 + bytes::be_u16_at(counted_keys(groups), 0),
{
}

proof fn lemma_be_list_len(items: Seq<u16>)
    ensures
        be_list(items).len() == 2 * items.len(),
    decreases items.len(),
{
    if items.len() > 0 {
        lemma_be_list_len(items.drop_last());
    }
}

/// Twice a count, in 16 bits.
fn twice(n: usize) -> (r: u16)
    ensures
        r == low_u16(2 * n as int),
{
    proof {
        let q = n as int / 32768;
        let r = n as int % 32768;
        assert(2 * n as int == 65536 * q + 2 * r);
        assert((65536 * q + 2 * r) % 65536 == 2 * r);
    }
    (2 * (n % 32768)) as u16
}

/// Supported groups.
pub fn build_groups_data(groups: &[u16]) -> (data: Vec<u8>)
    ensures
        data@ == counted_list(groups@),
{
    let mut data: Vec<u8> = Vec::new();
    put_u16_be(&mut data, twice(groups.len()));
    put_numbers(&mut data, groups);
    assert(data@ =~= counted_list(groups@));
    data
}

/// Signature algorithms.
pub fn build_sig_algs_data(algs: &[u16]) -> (data: Vec<u8>)
    ensures
        data@ == counted_list(algs@),
{
    let mut data: Vec<u8> = Vec::new();
    put_u16_be(&mut data, twice(algs.len()));
    put_numbers(&mut data, algs);
    assert(data@ =~= counted_list(algs@));
    data
}

fn put_numbers(data: &mut Vec<u8>, items: &[u16])
    ensures
        final(data)@ == old(data)@ + be_list(items@),
{
    let mut i: usize = 0;
    let ghost head = data@;
    assert(items@.subrange(0, 0) =~= Seq::empty());
    assert(head + Seq::empty() =~= head);
    while i < items.len()
        invariant
            i <= items@.len(),
            head == old(data)@,
            data@ == head + be_list(items@.subrange(0, i as int)),
        decreases items@.len() - i,
    {
        proof {
            let upto = items@.subrange(0, i + 1);
            assert(upto.drop_last() =~= items@.subrange(0, i as int));
        }
        let ghost before = data@;
        put_u16_be(data, items[i]);
        i = i + 1;
        assert(data@ =~= head + be_list(items@.subrange(0, i as int)));
    }
    assert(items@.subrange(0, i as int) =~= items@);
}

/// Application protocols.
pub fn build_alpn_data(protocols: &Vec<Vec<u8>>) -> (data: Vec<u8>)
    ensures
        data@ == counted_names(bytes::views(protocols@)),
{
    let mut list: Vec<u8> = Vec::new();
    let ghost all = bytes::views(protocols@);
    let mut i: usize = 0;
    assert(all.subrange(0, 0) =~= Seq::empty());
    while i < protocols.len()
        invariant
            i <= protocols@.len(),
            all == bytes::views(protocols@),
            list@ == name_list(all.subrange(0, i as int)),
        decreases protocols@.len() - i,
    {
        proof {
            let upto = all.subrange(0, i + 1);
            assert(upto.drop_last() =~= all.subrange(0, i as int));
            assert(upto.last() == protocols@[i as int]@);
        }
        list.push((protocols[i].len() % 256) as u8);
        put_all(&mut list, protocols[i].as_slice());
        i = i + 1;
    }
    assert(all.subrange(0, i as int) =~= all);
    let mut data: Vec<u8> = Vec::new();
    put_u16_be(&mut data, (list.len() % 65536) as u16);
    put_all(&mut data, list.as_slice());
    assert(data@ =~= counted_names(all));
    data
}

/// Key shares, with zeros for keys.
pub fn build_key_share_placeholder(groups: &[u16]) -> (result: Vec<u8>)
    ensures
        result@ == counted_keys(groups@),
{
    let mut data: Vec<u8> = Vec::new();
    let mut i: usize = 0;
    assert(groups@.subrange(0, 0) =~= Seq::empty());
    while i < groups.len()
        invariant
            i <= groups@.len(),
            data@ == key_list(groups@.subrange(0, i as int)),
        decreases groups@.len() - i,
    {
        proof {
            let upto = groups@.subrange(0, i + 1);
            assert(upto.drop_last() =~= groups@.subrange(0, i as int));
        }
        let g: u16 = groups[i];
        let len: usize = if g == SECP256R1 {
            65
        } else if g == SECP384R1 {
            97
        } else if g == SECP521R1 {
            133
        } else {
            32
        };
        put_u16_be(&mut data, g);
        put_u16_be(&mut data, len as u16);
        put_zeros(&mut data, len);
        i = i + 1;
    }
    assert(groups@.subrange(0, i as int) =~= groups@);
    let mut result: Vec<u8> = Vec::new();
    put_u16_be(&mut result, (data.len() % 65536) as u16);
    put_all(&mut result, data.as_slice());
    assert(result@ =~= counted_keys(groups@));
    result
}

/// Appends `n` zeros.
pub fn put_zeros(data: &mut Vec<u8>, n: usize)
    ensures
        final(data)@ == old(data)@ + zeros(n as int),
{
    let mut k: usize = 0;
    let ghost head = data@;
    while k < n
        invariant
            k <= n,
            data@ == head + zeros(k as int),
        decreases n - k,
    {
        data.push(0);
        k = k + 1;
        assert(data@ =~= head + zeros(k as int));
    }
    assert(data@ =~= head + zeros(n as int));
}

/// Supported versions.
pub fn build_supported_versions_data(versions: &[u16]) -> (data: Vec<u8>)
    ensures
        data@ == version_list(versions@),
{
    let mut data: Vec<u8> = Vec::new();
    data.push((versions.len() % 256) as u8);
    let mut i: usize = 0;
    while i < versions.len()
        invariant
            i <= versions@.len(),
            data@.len() == i + 1,
            data@[0] == (versions@.len() % 256) as u8,
            forall|k: int| 0 <= k < i ==> #[trigger] data@[k + 1] == (versions@[k] % 256) as u8,
        decreases versions@.len() - i,
    {
        data.push((versions[i] % 256) as u8);
        i = i + 1;
    }
    assert forall|j: int| 0 <= j < data@.len() implies data@[j] == version_list(versions@)[j] by {
        if j > 0 {
            assert(data@[(j - 1) + 1] == (versions@[j - 1] % 256) as u8);
        }
    }
    assert(data@ =~= version_list(versions@));
    data
}

/// The lists of a hello hold their numbers two bytes each, most significant first, behind the
/// length in bytes.
pub proof fn law_lists_hold_their_numbers(items: Seq<u16>, i: int)
    requires
        0 <= i < items.len(),
        2 * items.len() < 65536,
    ensures
        counted_list(items).len() == 2 + 2 * items.len(),
        256 * counted_list(items)[0] + counted_list(items)[1] == 2 * items.len(),
        256 * counted_list(items)[2 + 2 * i] + counted_list(items)[3 + 2 * i] == items[i],
{
    lemma_be_list_holds(items, i);
    bytes::law_byte_orders(low_u16(2 * items.len() as int), 0);
}

proof fn lemma_be_list_holds(items: Seq<u16>, i: int)
    requires
        0 <= i < items.len(),
    ensures
        be_list(items).len() == 2 * items.len(),
        256 * be_list(items)[2 * i] + be_list(items)[2 * i + 1] == items[i],
    decreases items.len(),
{
    let before = items.drop_last();
    lemma_be_list_len(items);
    lemma_be_list_len(before);
    bytes::law_byte_orders(items.last(), 0);
    if i < items.len() - 1 {
        lemma_be_list_holds(before, i);
        assert(be_list(items)[2 * i] == be_list(before)[2 * i]);
        assert(be_list(items)[2 * i + 1] == be_list(before)[2 * i + 1]);
    } else {
        assert(be_list(items)[2 * i] == bytes::u16_be(items.last())[0]);
        assert(be_list(items)[2 * i + 1] == bytes::u16_be(items.last())[1]);
    }
}

/// A further name stands behind its length, after the names before it.
pub proof fn law_names_stand_behind_their_length(names: Seq<Seq<u8>>, name: Seq<u8>)
    requires
        name.len() < 256,
    ensures
        name_list(names.push(name)) == name_list(names) + seq![name.len() as u8] + name,
        name_list(Seq::<Seq<u8>>::empty()).len() == 0,
{
    assert(names.push(name).drop_last() =~= names);
    assert(names.push(name).last() == name);
    assert(name_list(names.push(name)) =~= name_list(names) + seq![name.len() as u8] + name);
}

/// A further key stands behind its group and its own length, after the keys before it, and is as
/// long as the points of its curve, or 32 bytes.
pub proof fn law_keys_stand_behind_their_group(groups: Seq<u16>, group: u16)
    ensures
        ({
            let before = key_list(groups).len() as int;
            let w = key_list(groups.push(group));
            let n = key_len(group);
            &&& w.len() == before + 4 + n
            &&& w.subrange(0, before) == key_list(groups)
            &&& 256 * w[before] + w[before + 1] == group
            &&& 256 * w[before + 2] + w[before + 3] == n
            &&& forall|i: int| before + 4 <= i < w.len() ==> #[trigger] w[i] == 0
        }),
        key_len(0x001D) == 32,
        key_len(0x0017) == 65,
        key_len(0x0018) == 97,
        key_len(0x0019) == 133,
{
    let w = key_list(groups.push(group));
    assert(groups.push(group).drop_last() =~= groups);
    assert(groups.push(group).last() == group);
    let b = key_list(groups);
    bytes::law_byte_orders(group, 0);
    bytes::law_byte_orders(key_len(group) as u16, 0);
    assert(w.subrange(0, b.len() as int) =~= b);
}

/// Versions stand behind how many there are, each as its low byte.
pub proof fn law_versions_stand_behind_their_number(versions: Seq<u16>, i: int)
    requires
        0 <= i < versions.len() < 256,
    ensures
        version_list(versions).len() == versions.len() + 1,
        version_list(versions)[0] == versions.len(),
        version_list(versions)[1 + i] == versions[i] % 256,
{
}

} // verus!
