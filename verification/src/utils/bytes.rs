//! Fixed-width integers as bytes, in both byte orders.

use vstd::prelude::*;

verus! {

/// The two bytes of `x`, least significant first.
pub open spec fn u16_le(x: u16) -> Seq<u8> {
    seq![(x % 256) as u8, (x / 256) as u8]
}

/// The two bytes of `x`, most significant first.
pub open spec fn u16_be(x: u16) -> Seq<u8> {
    seq![(x / 256) as u8, (x % 256) as u8]
}

/// The four bytes of `x`, least significant first.
pub open spec fn u32_le(x: u32) -> Seq<u8> {
    seq![
        (x % 256) as u8,
        (x / 256 % 256) as u8,
        (x / 65536 % 256) as u8,
        (x / 16777216) as u8,
    ]
}

/// The number whose little-endian bytes stand at `at..at + 4` of `s`.
pub open spec fn le_u32_at(s: Seq<u8>, at: int) -> int {
    s[at] + 256 * s[at + 1] + 65536 * s[at + 2] + 16777216 * s[at + 3]
}

/// The number whose big-endian bytes stand at `at..at + 2` of `s`.
pub open spec fn be_u16_at(s: Seq<u8>, at: int) -> int {
    256 * s[at] + s[at + 1]
}

/// The low 32 bits of a length.
pub open spec fn low_u32(n: int) -> u32 {
    (n % 0x1_0000_0000) as u32
}

/// Reading back four little-endian bytes gives the number they were made from.
pub proof fn law_u32_le_reads_back(s: Seq<u8>, at: int, x: u32)
    requires
        0 <= at,
        at + 4 <= s.len(),
        s.subrange(at, at + 4) == u32_le(x),
    ensures
        le_u32_at(s, at) == x,
{
    let b = s.subrange(at, at + 4);
    assert(b[0] == s[at] && b[1] == s[at + 1] && b[2] == s[at + 2] && b[3] == s[at + 3]);
}

/// The pieces of `parts`, one after the other.
pub open spec fn concat(parts: Seq<Seq<u8>>) -> Seq<u8>
    decreases parts.len(),
{
    if parts.len() == 0 {
        Seq::empty()
    } else {
        concat(parts.drop_last()) + parts.last()
    }
}

/// The contents of each vector.
pub open spec fn views(parts: Seq<Vec<u8>>) -> Seq<Seq<u8>> {
    parts.map_values(|v: Vec<u8>| v@)
}

/// Joining two lists of pieces joins what they spell.
pub proof fn lemma_concat_adds(a: Seq<Seq<u8>>, b: Seq<Seq<u8>>)
    ensures
        concat(a + b) == concat(a) + concat(b),
    decreases b.len(),
{
    if b.len() == 0 {
        assert(a + b =~= a);
        assert(concat(a) + concat(b) =~= concat(a));
    } else {
        assert((a + b).drop_last() =~= a + b.drop_last());
        assert((a + b).last() == b.last());
        lemma_concat_adds(a, b.drop_last());
        assert(concat(a) + (concat(b.drop_last()) + b.last()) =~= concat(a) + concat(
            b.drop_last(),
        ) + b.last());
    }
}

/// A single piece spells itself.
pub proof fn lemma_concat_one(x: Seq<u8>)
    ensures
        concat(seq![x]) == x,
{
    reveal_with_fuel(concat, 2);
    assert(seq![x].drop_last() =~= Seq::empty());
    assert(Seq::<u8>::empty() + x =~= x);
}

/// One more piece appends its bytes.
pub proof fn lemma_concat_push(a: Seq<Seq<u8>>, x: Seq<u8>)
    ensures
        concat(a.push(x)) == concat(a) + x,
{
    assert(a.push(x).drop_last() =~= a);
}

/// Appends `x` to `out` as two little-endian bytes.
pub fn put_u16_le(out: &mut Vec<u8>, x: u16)
    ensures
        final(out)@ == old(out)@ + u16_le(x),
{
    out.push((x % 256) as u8);
    out.push((x / 256) as u8);
}

/// Appends `x` to `out` as two big-endian bytes.
pub fn put_u16_be(out: &mut Vec<u8>, x: u16)
    ensures
        final(out)@ == old(out)@ + u16_be(x),
{
    out.push((x / 256) as u8);
    out.push((x % 256) as u8);
}

/// Appends `x` to `out` as four little-endian bytes.
pub fn put_u32_le(out: &mut Vec<u8>, x: u32)
    ensures
        final(out)@ == old(out)@ + u32_le(x),
{
    out.push((x % 256) as u8);
    out.push((x / 256 % 256) as u8);
    out.push((x / 65536 % 256) as u8);
    out.push((x / 16777216) as u8);
}

/// Reads the little-endian number at `at..at + 4`.
pub fn get_u32_le(s: &[u8], at: usize) -> (x: u32)
    requires
        at + 4 <= s@.len(),
    ensures
        x == le_u32_at(s@, at as int),
{
    s[at] as u32 + 256 * (s[at + 1] as u32) + 65536 * (s[at + 2] as u32) + 16777216 * (s[at
        + 3] as u32)
}

/// Reads the big-endian number at `at..at + 2`.
pub fn get_u16_be(s: &[u8], at: usize) -> (x: u16)
    requires
        at + 2 <= s@.len(),
    ensures
        x == be_u16_at(s@, at as int),
{
    256 * (s[at] as u16) + s[at + 1] as u16
}

/// The low 32 bits of `n`.
pub fn truncate_u32(n: usize) -> (x: u32)
    ensures
        x == low_u32(n as int),
{
    ((n as u64) % 0x1_0000_0000) as u32
}

/// Appends a copy of `extra` to `out`.
pub fn put_all(out: &mut Vec<u8>, extra: &[u8])
    ensures
        final(out)@ == old(out)@ + extra@,
{
    out.extend_from_slice(extra);
    assert(out@ =~= old(out)@ + extra@);
}

/// A copy of `s[from..to]`.
pub fn copy_range(s: &[u8], from: usize, to: usize) -> (part: Vec<u8>)
    requires
        from <= to <= s@.len(),
    ensures
        part@ == s@.subrange(from as int, to as int),
{
    let mut part: Vec<u8> = Vec::new();
    put_all(&mut part, vstd::slice::slice_subrange(s, from, to));
    part
}

/// `data` in pieces of `chunk` bytes, the last one perhaps shorter.
pub open spec fn split_at_size(data: Seq<u8>, chunk: int) -> Seq<Seq<u8>>
    decreases data.len(),
    when chunk > 0
{
    if data.len() == 0 {
        Seq::empty()
    } else if data.len() <= chunk {
        seq![data]
    } else {
        seq![data.subrange(0, chunk)] + split_at_size(
            data.subrange(chunk, data.len() as int),
            chunk,
        )
    }
}

/// Splitting loses nothing, and every piece keeps to the size.
pub proof fn law_split_spells_data(data: Seq<u8>, chunk: int)
    requires
        chunk > 0,
    ensures
        concat(split_at_size(data, chunk)) == data,
        forall|i: int|
            0 <= i < split_at_size(data, chunk).len() ==> 0 < (#[trigger] split_at_size(
                data,
                chunk,
            )[i]).len() <= chunk,
    decreases data.len(),
{
    if data.len() > chunk {
        let head = data.subrange(0, chunk);
        let rest = data.subrange(chunk, data.len() as int);
        law_split_spells_data(rest, chunk);
        lemma_concat_adds(seq![head], split_at_size(rest, chunk));
        lemma_concat_one(head);
        assert(head + rest =~= data);
    } else if data.len() > 0 {
        lemma_concat_one(data);
    }
}

/// The pieces of data that is not empty: as many as whole ones, and one more for a rest.
pub proof fn lemma_split_count(data: Seq<u8>, chunk: int)
    requires
        chunk > 0,
        data.len() > 0,
    ensures
        split_at_size(data, chunk).len() == (data.len() - 1) / chunk + 1,
    decreases data.len(),
{
    if data.len() > chunk {
        let rest = data.subrange(chunk, data.len() as int);
        lemma_split_count(rest, chunk);
        vstd::arithmetic::div_mod::lemma_div_plus_one(rest.len() - 1, chunk);
    } else {
        vstd::arithmetic::div_mod::lemma_basic_div(data.len() - 1, chunk);
    }
}

/// Cuts `data` into pieces of `chunk` bytes.
pub fn split_chunks(data: &[u8], chunk: usize) -> (pieces: Vec<Vec<u8>>)
    requires
        chunk > 0,
    ensures
        views(pieces@) == split_at_size(data@, chunk as int),
{
    let mut pieces: Vec<Vec<u8>> = Vec::new();
    let mut at: usize = 0;
    assert(data@.subrange(0, data@.len() as int) =~= data@);
    assert(views(pieces@) + split_at_size(data@, chunk as int) =~= split_at_size(
        data@,
        chunk as int,
    ));
    while at < data.len()
        invariant
            chunk > 0,
            at <= data@.len(),
            views(pieces@) + split_at_size(
                data@.subrange(at as int, data@.len() as int),
                chunk as int,
            ) == split_at_size(data@, chunk as int),
        decreases data@.len() - at,
    {
        let left: usize = data.len() - at;
        let take: usize = if left < chunk { left } else { chunk };
        let piece = copy_range(data, at, at + take);
        let ghost before = views(pieces@);
        let ghost rest = data@.subrange(at as int, data@.len() as int);
        let ghost next = data@.subrange(at + take, data@.len() as int);
        pieces.push(piece);
        proof {
            assert(views(pieces@) =~= before.push(piece@));
            assert(piece@ =~= rest.subrange(0, take as int));
            assert(next =~= rest.subrange(take as int, rest.len() as int));
            assert(split_at_size(rest, chunk as int) =~= seq![piece@] + split_at_size(
                next,
                chunk as int,
            ));
            assert(before.push(piece@) + split_at_size(next, chunk as int) =~= before + (seq![
                piece@,
            ] + split_at_size(next, chunk as int)));
        }
        at = at + take;
    }
    assert(data@.subrange(at as int, data@.len() as int) =~= Seq::empty());
    assert(views(pieces@) + Seq::empty() =~= views(pieces@));
    pieces
}

/// Data is split into pieces of the size, all of them full but the last, which is not empty.
pub proof fn law_split_keeps_to_the_size(data: Seq<u8>, size: int)
    requires
        size >= 1,
    ensures
        ({
            let all = split_at_size(data, size);
            &&& forall|k: int| 0 <= k < all.len() ==> 0 < (#[trigger] all[k]).len() <= size
            &&& forall|k: int| 0 <= k < all.len() - 1 ==> (#[trigger] all[k]).len() == size
            &&& data.len() == 0 <==> all.len() == 0
            &&& data.len() > 0 ==> (all.len() - 1) * size < data.len() <= all.len() * size
        }),
    decreases data.len(),
{
    let all = split_at_size(data, size);
    if data.len() > size {
        let rest = data.subrange(size, data.len() as int);
        law_split_keeps_to_the_size(rest, size);
        let later = split_at_size(rest, size);
        assert forall|k: int| 0 <= k < all.len() implies 0 < (#[trigger] all[k]).len() <= size by {
            if k > 0 {
                assert(all[k] == later[k - 1]);
            }
        }
        assert forall|k: int| 0 <= k < all.len() - 1 implies (#[trigger] all[k]).len() == size by {
            if k > 0 {
                assert(all[k] == later[k - 1]);
            }
        }
        let n = later.len() as int;
        assert((n + 1) * size == n * size + size && n * size == (n - 1) * size + size)
            by (nonlinear_arith);
    } else if data.len() > 0 {
        assert(0int * size == 0 && 1 * size == size) by (nonlinear_arith);
    }
}

/// The bytes of a number stand in the order that their names say: the lowest first, or the highest.
pub proof fn law_byte_orders(x: u16, y: u32)
    ensures
        u16_le(x)[0] + 256 * u16_le(x)[1] == x,
        u16_be(x)[1] + 256 * u16_be(x)[0] == x,
        u32_le(y)[0] + 256 * u32_le(y)[1] + 65536 * u32_le(y)[2] + 16777216 * u32_le(y)[3] == y,
{
}

} // verus!
