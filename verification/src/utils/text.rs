//! Numbers as text, and search in text.

use vstd::prelude::*;
use vstd::string::StringExecFns;

verus! {

/// The digit `d` of a number written in a base up to sixteen.
pub open spec fn digit_char(d: int) -> char {
    if d < 10 {
        (48 + d) as char
    } else {
        (87 + d) as char
    }
}

/// `n` in decimal.
pub open spec fn decimal_of(n: nat) -> Seq<char>
    decreases n,
{
    if n < 10 {
        seq![digit_char(n as int)]
    } else {
        decimal_of(n / 10).push(digit_char((n % 10) as int))
    }
}

/// A byte as two lower-case hexadecimal digits.
pub open spec fn hex_byte(b: u8) -> Seq<char> {
    seq![digit_char((b / 16) as int), digit_char((b % 16) as int)]
}

/// Bytes as lower-case hexadecimal digits, two per byte.
pub open spec fn hex_of(data: Seq<u8>) -> Seq<char>
    decreases data.len(),
{
    if data.len() == 0 {
        Seq::empty()
    } else {
        hex_of(data.drop_last()) + hex_byte(data.last())
    }
}

/// An ASCII capital as a small letter; any other character unchanged.
pub open spec fn ascii_lower(c: char) -> char {
    if 'A' <= c <= 'Z' {
        (c as int + 32) as char
    } else {
        c
    }
}

/// What `str::to_lowercase` gives.
pub uninterp spec fn lowercase(s: Seq<char>) -> Seq<char>;

/// `str::to_lowercase`. The result is named; of an ASCII text it is claimed that each
/// capital becomes its small letter and all else stays.
#[verifier::external_body]
pub(crate) fn to_lower(s: &str) -> (r: String)
    ensures
        r@ == lowercase(s@),
        s.is_ascii() ==> r@ == s@.map_values(|c: char| ascii_lower(c)),
{
    s.to_lowercase()
}

/// Whether `needle` stands in `hay` at `at`.
pub open spec fn stands_at(hay: Seq<char>, needle: Seq<char>, at: int) -> bool {
    0 <= at && at + needle.len() <= hay.len() && hay.subrange(at, at + needle.len()) == needle
}

/// Whether `needle` stands anywhere in `hay`.
pub open spec fn has_text(hay: Seq<char>, needle: Seq<char>) -> bool {
    exists|at: int| #[trigger] stands_at(hay, needle, at)
}

/// `std::string::String::push`: appends one character.
#[verifier::external_body]
pub(crate) fn push_char(s: &mut String, c: char)
    ensures
        final(s)@ == old(s)@.push(c),
{
    s.push(c)
}

/// The digit `d`, for bases up to sixteen.
pub fn digit(d: u8) -> (c: char)
    requires
        d < 16,
    ensures
        c == digit_char(d as int),
{
    if d < 10 {
        (48 + d) as char
    } else {
        (87 + d) as char
    }
}

/// `n` in decimal.
pub fn decimal(n: u128) -> (s: String)
    ensures
        s@ == decimal_of(n as nat),
    decreases n,
{
    if n < 10 {
        let mut s = String::new();
        push_char(&mut s, digit(n as u8));
        assert(s@ =~= decimal_of(n as nat));
        s
    } else {
        let mut s = decimal(n / 10);
        push_char(&mut s, digit((n % 10) as u8));
        s
    }
}

/// Appends the two hexadecimal digits of `b`.
pub fn push_hex(s: &mut String, b: u8)
    ensures
        final(s)@ == old(s)@ + hex_byte(b),
{
    push_char(s, digit(b / 16));
    push_char(s, digit(b % 16));
    assert(s@ =~= old(s)@ + hex_byte(b));
}

/// The characters of `s`.
pub fn chars_of(s: &str) -> (v: Vec<char>)
    ensures
        v@ == s@,
{
    let mut v: Vec<char> = Vec::new();
    for c in it: s.chars()
        invariant
            v@ == it.seq().subrange(0, it.index() as int),
            it.seq() == s@,
    {
        v.push(c);
        assert(v@ =~= it.seq().subrange(0, it.index() + 1));
    }
    assert(v@ =~= s@);
    v
}

/// `hay[from..to]` as a string.
pub fn text_of(hay: &Vec<char>, from: usize, to: usize) -> (s: String)
    requires
        from <= to <= hay@.len(),
    ensures
        s@ == hay@.subrange(from as int, to as int),
{
    let mut s = String::new();
    let mut i: usize = from;
    assert(s@ =~= hay@.subrange(from as int, from as int));
    while i < to
        invariant
            from <= i <= to <= hay@.len(),
            s@ == hay@.subrange(from as int, i as int),
        decreases to - i,
    {
        push_char(&mut s, hay[i]);
        i = i + 1;
        assert(s@ =~= hay@.subrange(from as int, i as int));
    }
    s
}

/// Whether `needle` stands in `hay` at `at`.
pub fn match_at(hay: &Vec<char>, needle: &Vec<char>, at: usize) -> (b: bool)
    requires
        at <= hay@.len(),
    ensures
        b == stands_at(hay@, needle@, at as int),
{
    if needle.len() > hay.len() - at {
        return false;
    }
    let mut i: usize = 0;
    while i < needle.len()
        invariant
            i <= needle@.len(),
            at + needle@.len() <= hay@.len(),
            hay@.len() <= usize::MAX,
            forall|k: int| 0 <= k < i ==> hay@[at + k] == #[trigger] needle@[k],
        decreases needle@.len() - i,
    {
        if hay[at + i] != needle[i] {
            proof {
                let part = hay@.subrange(at as int, at + needle@.len());
                assert(part[i as int] != needle@[i as int]);
            }
            return false;
        }
        i = i + 1;
    }
    assert(hay@.subrange(at as int, at + needle@.len()) =~= needle@);
    true
}

/// Whether `needle` stands anywhere in `hay`.
pub fn contains(hay: &str, needle: &str) -> (b: bool)
    ensures
        b == has_text(hay@, needle@),
{
    let h = chars_of(hay);
    let n = chars_of(needle);
    let mut at: usize = 0;
    while at < h.len()
        invariant
            at <= h@.len(),
            h@ == hay@,
            n@ == needle@,
            forall|k: int| 0 <= k < at ==> !#[trigger] stands_at(h@, n@, k),
        decreases h@.len() - at,
    {
        if match_at(&h, &n, at) {
            return true;
        }
        at = at + 1;
    }
    let last = match_at(&h, &n, at);
    proof {
        if !last {
            assert forall|k: int| !#[trigger] stands_at(h@, n@, k) by {
                if k > at {
                    assert(k + n@.len() > h@.len());
                }
            }
        }
    }
    last
}

/// Whether the two texts are the same.
pub fn same(a: &str, b: &str) -> (r: bool)
    ensures
        r == (a@ == b@),
{
    let x = chars_of(a);
    let y = chars_of(b);
    if x.len() != y.len() {
        return false;
    }
    let r = match_at(&x, &y, 0);
    assert(x@.subrange(0, y@.len() as int) =~= x@);
    r
}

/// `a` followed by `b`.
pub fn join(a: &str, b: &str) -> (s: String)
    ensures
        s@ == a@ + b@,
{
    let mut s = String::from_str(a);
    s.append(b);
    s
}

/// `n / scale` to the nearest whole number; of two equally near, the even one.
pub open spec fn rounded(n: int, scale: int) -> int {
    let (q, r) = (n / scale, n % scale);
    if 2 * r > scale || 2 * r == scale && q % 2 == 1 {
        q + 1
    } else {
        q
    }
}

/// A number of millionths with `digits` decimals: none, one or two.
pub open spec fn fixed_of(micro: int, digits: int) -> Seq<char> {
    let sign = if micro < 0 {
        seq!['-']
    } else {
        Seq::empty()
    };
    let size = if micro < 0 {
        -micro
    } else {
        micro
    };
    if digits == 0 {
        sign + decimal_of(rounded(size, 1_000_000) as nat)
    } else if digits == 1 {
        let n = rounded(size, 100_000);
        sign + decimal_of((n / 10) as nat) + seq!['.', digit_char(n % 10)]
    } else {
        let n = rounded(size, 10_000);
        sign + decimal_of((n / 100) as nat) + seq![
            '.',
            digit_char(n / 10 % 10),
            digit_char(n % 10),
        ]
    }
}

/// `n / scale` to the nearest whole number; of two equally near, the even one.
pub fn round_div(n: u128, scale: u128) -> (q: u128)
    requires
        1 < scale <= 1_000_000,
    ensures
        q == rounded(n as int, scale as int),
{
    let q: u128 = n / scale;
    let r: u128 = n % scale;
    assert(q <= n / 2) by (nonlinear_arith)
        requires
            q == n / scale,
            scale >= 2,
    ;
    if 2 * r > scale || 2 * r == scale && q % 2 == 1 {
        q + 1
    } else {
        q
    }
}

/// A number of millionths with `digits` decimals.
pub fn fixed(micro: i128, digits: u8) -> (s: String)
    requires
        micro > i128::MIN,
        digits <= 2,
    ensures
        s@ == fixed_of(micro as int, digits as int),
{
    let size: u128 = if micro < 0 { (-micro) as u128 } else { micro as u128 };
    let mut s = String::new();
    if micro < 0 {
        push_char(&mut s, '-');
    }
    let ghost sign = s@;
    if digits == 0 {
        s.append(decimal(round_div(size, 1_000_000)).as_str());
    } else if digits == 1 {
        let n: u128 = round_div(size, 100_000);
        s.append(decimal(n / 10).as_str());
        push_char(&mut s, '.');
        push_char(&mut s, digit((n % 10) as u8));
    } else {
        let n: u128 = round_div(size, 10_000);
        s.append(decimal(n / 100).as_str());
        push_char(&mut s, '.');
        push_char(&mut s, digit((n / 10 % 10) as u8));
        push_char(&mut s, digit((n % 10) as u8));
    }
    assert(sign == if micro < 0 {
        seq!['-']
    } else {
        Seq::empty()
    });
    assert(s@ =~= fixed_of(micro as int, digits as int));
    s
}

/// A number is rounded to the nearest whole one: it is off by no more than half, and exact where
/// there is nothing to round.
pub proof fn law_rounding_is_to_the_nearest(n: int, scale: int)
    requires
        n >= 0,
        scale > 1,
    ensures
        -scale <= 2 * (rounded(n, scale) * scale) - 2 * n <= scale,
        n % scale == 0 ==> rounded(n, scale) * scale == n,
        2 * (n % scale) == scale ==> rounded(n, scale) % 2 == 0,
{
    let (q, r) = (n / scale, n % scale);
    assert(n == q * scale + r && 0 <= r < scale) by (nonlinear_arith)
        requires
            scale > 1,
            q == n / scale,
            r == n % scale,
    ;
    assert((q + 1) * scale == q * scale + scale) by (nonlinear_arith);
}

/// A decimal grows by one digit, which is the last of the number; digits are the characters from
/// `0` to `9`, and from `a` to `f` in base sixteen.
pub proof fn law_digits_stand_in_order(n: nat, d: nat)
    requires
        d < 10,
    ensures
        decimal_of(d) == seq![(48 + d) as char],
        n > 0 ==> decimal_of(10 * n + d) == decimal_of(n).push((48 + d) as char),
        digit_char(0) == '0',
        digit_char(9) == '9',
        digit_char(10) == 'a',
        digit_char(15) == 'f',
{
    assert((10 * n + d) / 10 == n);
    assert((10 * n + d) % 10 == d);
}

/// A byte is written by its upper half, and behind it its lower half.
pub proof fn law_hex_writes_the_upper_half_first(high: u8, low: u8)
    requires
        high < 16,
        low < 16,
    ensures
        hex_byte((16 * high + low) as u8) == seq![digit_char(high as int), digit_char(low as int)],
        hex_of(seq![(16 * high + low) as u8]) == hex_byte((16 * high + low) as u8),
{
    let b = (16 * high + low) as u8;
    assert(b / 16 == high && b % 16 == low);
    let s = seq![b];
    assert(s.drop_last() =~= Seq::empty());
    assert(s.last() == b);
    assert(hex_of(s.drop_last()) =~= Seq::empty());
    assert(hex_of(s) =~= hex_byte(b));
}

/// A number of millionths is written with its sign, its whole part, and as many decimals as asked
/// for; a whole number has zeros for decimals.
pub proof fn law_whole_numbers_are_written_with_zeros(n: int)
    requires
        n >= 0,
    ensures
        fixed_of(1_000_000 * n, 0) == decimal_of(n as nat),
        fixed_of(1_000_000 * n, 1) == decimal_of(n as nat) + seq!['.', '0'],
        fixed_of(1_000_000 * n, 2) == decimal_of(n as nat) + seq!['.', '0', '0'],
        n > 0 ==> fixed_of(-(1_000_000 * n), 0) == seq!['-'] + decimal_of(n as nat),
        fixed_of(1_000_000 * n + 250_000, 2) == decimal_of(n as nat) + seq!['.', '2', '5'],
        fixed_of(1_000_000 * n + 700_000, 1) == decimal_of(n as nat) + seq!['.', '7'],
{
    let m = 1_000_000 * n;
    assert(rounded(m, 1_000_000) == n);
    assert(rounded(m, 100_000) == 10 * n);
    assert(rounded(m, 10_000) == 100 * n);
    assert(rounded(m + 250_000, 10_000) == 100 * n + 25);
    assert(rounded(m + 700_000, 100_000) == 10 * n + 7);
    assert(fixed_of(m, 0) =~= decimal_of(n as nat));
    assert(fixed_of(m, 1) =~= decimal_of(n as nat) + seq!['.', '0']);
    assert(fixed_of(m, 2) =~= decimal_of(n as nat) + seq!['.', '0', '0']);
    assert(fixed_of(m + 250_000, 2) =~= decimal_of(n as nat) + seq!['.', '2', '5']);
    if n > 0 {
        assert(fixed_of(-m, 0) =~= seq!['-'] + decimal_of(n as nat));
    }
    assert(fixed_of(m + 700_000, 1) =~= decimal_of(n as nat) + seq!['.', '7']);
}

} // verus!
