//! The MD5 message digest.

#[allow(unused_imports)]
use crate::utils::bytes;
use crate::utils::bytes::{get_u32_le, put_all, put_u32_le};
use vstd::prelude::*;

verus! {

/// How far each of the 64 steps rotates.
pub const SHIFTS: [u32; 64] = [
    7,
    12,
    17,
    22,
    7,
    12,
    17,
    22,
    7,
    12,
    17,
    22,
    7,
    12,
    17,
    22,
    5,
    9,
    14,
    20,
    5,
    9,
    14,
    20,
    5,
    9,
    14,
    20,
    5,
    9,
    14,
    20,
    4,
    11,
    16,
    23,
    4,
    11,
    16,
    23,
    4,
    11,
    16,
    23,
    4,
    11,
    16,
    23,
    6,
    10,
    15,
    21,
    6,
    10,
    15,
    21,
    6,
    10,
    15,
    21,
    6,
    10,
    15,
    21,
];

/// What each of the 64 steps adds: the whole part of 2^32 times the absolute sine of
/// the step's number, counted from one.
pub const SINES: [u32; 64] = [
    0xd76aa478,
    0xe8c7b756,
    0x242070db,
    0xc1bdceee,
    0xf57c0faf,
    0x4787c62a,
    0xa8304613,
    0xfd469501,
    0x698098d8,
    0x8b44f7af,
    0xffff5bb1,
    0x895cd7be,
    0x6b901122,
    0xfd987193,
    0xa679438e,
    0x49b40821,
    0xf61e2562,
    0xc040b340,
    0x265e5a51,
    0xe9b6c7aa,
    0xd62f105d,
    0x02441453,
    0xd8a1e681,
    0xe7d3fbc8,
    0x21e1cde6,
    0xc33707d6,
    0xf4d50d87,
    0x455a14ed,
    0xa9e3e905,
    0xfcefa3f8,
    0x676f02d9,
    0x8d2a4c8a,
    0xfffa3942,
    0x8771f681,
    0x6d9d6122,
    0xfde5380c,
    0xa4beea44,
    0x4bdecfa9,
    0xf6bb4b60,
    0xbebfbc70,
    0x289b7ec6,
    0xeaa127fa,
    0xd4ef3085,
    0x04881d05,
    0xd9d4d039,
    0xe6db99e5,
    0x1fa27cf8,
    0xc4ac5665,
    0xf4292244,
    0x432aff97,
    0xab9423a7,
    0xfc93a039,
    0x655b59c3,
    0x8f0ccc92,
    0xffeff47d,
    0x85845dd1,
    0x6fa87e4f,
    0xfe2ce6e0,
    0xa3014314,
    0x4e0811a1,
    0xf7537e82,
    0xbd3af235,
    0x2ad7d2bb,
    0xeb86d391,
];

/// The digest's four words.
#[derive(Debug, Clone, Copy, PartialEq, Eq, Structural)]
pub struct Words {
    pub a: u32,
    pub b: u32,
    pub c: u32,
    pub d: u32,
}

/// The words that a digest starts from.
pub open spec fn initial() -> Words {
    Words { a: 0x67452301, b: 0xefcdab89, c: 0x98badcfe, d: 0x10325476 }
}

/// The sum of two words, modulo 2^32.
pub open spec fn word_sum(x: u32, y: u32) -> u32 {
    ((x + y) % 0x1_0000_0000) as u32
}

/// `x` rotated left by `n` bits, `0 < n < 32`.
pub open spec fn rotated(x: u32, n: u32) -> u32 {
    (x << n) | (x >> (32 - n) as u32)
}

/// How step `i` mixes three words.
pub open spec fn mixed(i: int, w: Words) -> u32 {
    if i < 16 {
        (w.b & w.c) | (!w.b & w.d)
    } else if i < 32 {
        (w.d & w.b) | (!w.d & w.c)
    } else if i < 48 {
        w.b ^ w.c ^ w.d
    } else {
        w.c ^ (w.b | !w.d)
    }
}

/// The word of the block that step `i` reads.
pub open spec fn picked(i: int) -> int {
    if i < 16 {
        i
    } else if i < 32 {
        (5 * i + 1) % 16
    } else if i < 48 {
        (3 * i + 5) % 16
    } else {
        (7 * i) % 16
    }
}

/// Step `i` on the 64-byte block at `at`.
pub open spec fn stepped(i: int, w: Words, data: Seq<u8>, at: int) -> Words {
    let word = bytes::le_u32_at(data, at + 4 * picked(i)) as u32;
    let sum = word_sum(word_sum(word_sum(mixed(i, w), w.a), SINES@[i]), word);
    Words { a: w.d, b: word_sum(w.b, rotated(sum, SHIFTS@[i])), c: w.b, d: w.c }
}

/// The first `n` steps on the block at `at`.
pub open spec fn steps(n: nat, w: Words, data: Seq<u8>, at: int) -> Words
    decreases n,
{
    if n == 0 {
        w
    } else {
        stepped(n - 1, steps((n - 1) as nat, w, data, at), data, at)
    }
}

/// The words after the block at `at`.
#[verifier::opaque]
pub open spec fn compressed(w: Words, data: Seq<u8>, at: int) -> Words {
    let s = steps(64, w, data, at);
    Words {
        a: word_sum(w.a, s.a),
        b: word_sum(w.b, s.b),
        c: word_sum(w.c, s.c),
        d: word_sum(w.d, s.d),
    }
}

/// The words after the first `n` blocks.
pub open spec fn blocks(n: nat, data: Seq<u8>) -> Words
    decreases n,
{
    if n == 0 {
        initial()
    } else {
        compressed(blocks((n - 1) as nat, data), data, 64 * (n - 1))
    }
}

/// `n` zero bytes.
pub open spec fn blank(n: nat) -> Seq<u8> {
    Seq::new(n, |i: int| 0u8)
}

/// The message behind which a one bit, zeros up to eight bytes before a block's end and
/// the message's length in bits stand.
pub open spec fn padded(message: Seq<u8>) -> Seq<u8> {
    let bits = 8 * message.len();
    message.push(0x80u8) + blank(((55 - message.len()) % 64) as nat) + bytes::u32_le((bits % 0x1_0000_0000) as u32) + bytes::u32_le(
        (bits / 0x1_0000_0000 % 0x1_0000_0000) as u32,
    )
}

/// The sixteen bytes of the digest.
pub open spec fn md5_of(message: Seq<u8>) -> Seq<u8> {
    let p = padded(message);
    let w = blocks(p.len() / 64, p);
    bytes::u32_le(w.a) + bytes::u32_le(w.b) + bytes::u32_le(w.c) + bytes::u32_le(w.d)
}

fn sum_words(x: u32, y: u32) -> (z: u32)
    ensures
        z == word_sum(x, y),
{
    ((x as u64 + y as u64) % 0x1_0000_0000) as u32
}

fn step(i: usize, w: Words, data: &[u8], at: usize) -> (r: Words)
    requires
        i < 64,
        at + 64 <= data@.len(),
    ensures
        r == stepped(i as int, w, data@, at as int),
{
    let (mix, pick): (u32, usize) = if i < 16 {
        ((w.b & w.c) | (!w.b & w.d), i)
    } else if i < 32 {
        ((w.d & w.b) | (!w.d & w.c), (5 * i + 1) % 16)
    } else if i < 48 {
        (w.b ^ w.c ^ w.d, (3 * i + 5) % 16)
    } else {
        (w.c ^ (w.b | !w.d), (7 * i) % 16)
    };
    let len: usize = data.len();
    assert(at + 64 <= len && pick < 16);
    let word: u32 = get_u32_le(data, at + 4 * pick);
    let sum: u32 = sum_words(sum_words(sum_words(mix, w.a), SINES[i]), word);
    let n: u32 = SHIFTS[i];
    proof {
        lemma_shifts(i as int);
    }
    let turned: u32 = (sum << n) | (sum >> (32 - n));
    Words { a: w.d, b: sum_words(w.b, turned), c: w.b, d: w.c }
}

/// Every shift lies between 1 and 31.
proof fn lemma_shifts(i: int)
    requires
        0 <= i < 64,
    ensures
        0 < SHIFTS@[i] < 32,
{
}

fn compress(w: Words, data: &[u8], at: usize) -> (r: Words)
    requires
        at + 64 <= data@.len(),
    ensures
        r == compressed(w, data@, at as int),
{
    let mut s: Words = w;
    let mut i: usize = 0;
    while i < 64
        invariant
            i <= 64,
            at + 64 <= data@.len(),
            s == steps(i as nat, w, data@, at as int),
        decreases 64 - i,
    {
        s = step(i, s, data, at);
        i = i + 1;
    }
    reveal(compressed);
    Words {
        a: sum_words(w.a, s.a),
        b: sum_words(w.b, s.b),
        c: sum_words(w.c, s.c),
        d: sum_words(w.d, s.d),
    }
}

fn pad(message: &[u8]) -> (p: Vec<u8>)
    ensures
        p@ == padded(message@),
{
    let mut p: Vec<u8> = Vec::new();
    put_all(&mut p, message);
    assert(p@ =~= message@);
    p.push(0x80);
    let ghost start = p@;
    let zeros: usize = (119 - message.len() % 64) % 64;
    assert(zeros == (55 - message@.len()) % 64);
    let mut i: usize = 0;
    assert(p@ =~= start + blank(0));
    while i < zeros
        invariant
            i <= zeros,
            p@ == start + blank(i as nat),
        decreases zeros - i,
    {
        p.push(0);
        i = i + 1;
        assert(p@ =~= start + blank(i as nat));
    }
    let bits: u128 = 8 * (message.len() as u128);
    put_u32_le(&mut p, (bits % 0x1_0000_0000) as u32);
    put_u32_le(&mut p, (bits / 0x1_0000_0000 % 0x1_0000_0000) as u32);
    p
}

/// The sixteen bytes of the message's digest.
pub fn md5(message: &[u8]) -> (digest: Vec<u8>)
    ensures
        digest@ == md5_of(message@),
        digest@.len() == 16,
{
    let p = pad(message);
    let mut w = Words { a: 0x67452301, b: 0xefcdab89, c: 0x98badcfe, d: 0x10325476 };
    let total: usize = p.len() / 64;
    let mut n: usize = 0;
    while n < total
        invariant
            n <= total,
            total == p@.len() / 64,
            p@.len() <= usize::MAX,
            w == blocks(n as nat, p@),
        decreases total - n,
    {
        w = compress(w, p.as_slice(), 64 * n);
        n = n + 1;
    }
    let mut digest: Vec<u8> = Vec::new();
    put_u32_le(&mut digest, w.a);
    assert(digest@ =~= bytes::u32_le(w.a));
    put_u32_le(&mut digest, w.b);
    put_u32_le(&mut digest, w.c);
    put_u32_le(&mut digest, w.d);
    digest
}

/// A padded message is whole blocks of 64 bytes: the message, a one bit, zeros, and the length in
/// bits in the last eight bytes, least significant first.
pub proof fn law_padding_fills_blocks(message: Seq<u8>)
    ensures
        padded(message).len() % 64 == 0,
        message.len() + 9 <= padded(message).len() < message.len() + 73,
        padded(message).subrange(0, message.len() as int) == message,
        padded(message)[message.len() as int] == 0x80,
        forall|i: int|
            message.len() < i < padded(message).len() - 8 ==> #[trigger] padded(message)[i] == 0,
        message.len() < 0x1000_0000 ==> bytes::le_u32_at(padded(message), padded(message).len() - 8)
            == 8 * message.len() && bytes::le_u32_at(padded(message), padded(message).len() - 4)
            == 0,
{
    let n = message.len() as int;
    let p = padded(message);
    let z = (55 - n) % 64;
    assert(p.len() == n + 1 + z + 8);
    assert(p.subrange(0, n) =~= message);
    let bits = 8 * n;
    if n < 0x1000_0000 {
        assert(bits % 0x1_0000_0000 == bits);
        assert(bits / 0x1_0000_0000 % 0x1_0000_0000 == 0);
        let m = p.len() as int;
        assert(p.subrange(m - 8, m - 4) =~= bytes::u32_le(bits as u32));
        assert(p.subrange(m - 4, m) =~= bytes::u32_le(0));
        bytes::law_u32_le_reads_back(p, p.len() - 8, bits as u32);
        bytes::law_u32_le_reads_back(p, p.len() - 4, 0);
    }
}

/// A digest has sixteen bytes.
pub proof fn law_digests_have_sixteen_bytes(message: Seq<u8>)
    ensures
        md5_of(message).len() == 16,
{
}

/// In each round of sixteen steps every word of the block is read once.
pub proof fn law_rounds_read_every_word(i: int, j: int)
    requires
        0 <= i < 64,
        0 <= j < 64,
        i / 16 == j / 16,
        i != j,
    ensures
        0 <= picked(i) < 16,
        picked(i) != picked(j),
        picked(0) == 0,
        picked(16) == 1,
        picked(32) == 5,
        picked(48) == 0,
{
}

/// Rotating a word on by the rest of its bits gives the word back, and the lowest bit moves up by
/// as many places as it is rotated.
pub proof fn law_rotation_comes_round(x: u32, n: u32)
    requires
        0 < n < 32,
    ensures
        rotated(rotated(x, n), (32 - n) as u32) == x,
        rotated(1, n) == 1u32 << n,
{
    let m = (32 - n) as u32;
    let y = rotated(x, n);
    assert((32 - m) as u32 == n);
    assert((((x << n) | (x >> m)) << m) | (((x << n) | (x >> m)) >> n) == x) by (bit_vector)
        requires
            0 < n < 32,
            m == 32 - n,
    ;
    assert((1u32 << n) | (1u32 >> m) == 1u32 << n) by (bit_vector)
        requires
            0 < n < 32,
            m == 32 - n,
    ;
}

/// The first two rounds choose between two words bit by bit, by the second and by the fourth word;
/// the third tells where an odd number of the three is set.
pub proof fn law_rounds_choose_bits(w: Words)
    ensures
        w.b == 0xFFFF_FFFF ==> mixed(0, w) == w.c && mixed(16, w) == w.d | (!w.d & w.c),
        w.b == 0 ==> mixed(0, w) == w.d,
        w.d == 0xFFFF_FFFF ==> mixed(16, w) == w.b,
        w.d == 0 ==> mixed(16, w) == w.c,
        w.c == w.d ==> mixed(0, w) == w.c && mixed(32, w) == w.b,
        w.b == w.c ==> mixed(16, w) == w.b && mixed(32, w) == w.d,
        w.d == 0xFFFF_FFFF ==> mixed(48, w) == w.c ^ w.b,
        w.b == 0xFFFF_FFFF ==> mixed(48, w) == !w.c,
{
    let (b, c, d) = (w.b, w.c, w.d);
    assert(b == 0xFFFF_FFFF ==> (b & c) | (!b & d) == c && (d & b) | (!d & c) == d | (!d & c) && c
        ^ (b | !d) == !c) by (bit_vector);
    assert(b == 0 ==> (b & c) | (!b & d) == d) by (bit_vector);
    assert(d == 0xFFFF_FFFF ==> (d & b) | (!d & c) == b && c ^ (b | !d) == c ^ b) by (bit_vector);
    assert(d == 0 ==> (d & b) | (!d & c) == c) by (bit_vector);
    assert(c == d ==> (b & c) | (!b & d) == c && b ^ c ^ d == b) by (bit_vector);
    assert(b == c ==> (d & b) | (!d & c) == b && b ^ c ^ d == d) by (bit_vector);
}

} // verus!
