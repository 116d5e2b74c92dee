//! Whole numbers of 256 bits.

#[allow(unused_imports)]
use crate::utils::roots;
use vstd::prelude::*;

verus! {

/// What one step of the upper half counts for.
pub open spec fn base() -> int {
    0x1_0000_0000_0000_0000_0000_0000_0000_0000int
}

/// One more than the largest number.
pub open spec fn limit() -> int {
    0x1_0000_0000_0000_0000_0000_0000_0000_0000_0000_0000_0000_0000_0000_0000_0000_0000int
}

/// A whole number of 256 bits, in two halves.
#[derive(Debug, Clone, Copy, PartialEq, Eq, Structural)]
pub struct Wide {
    pub high: u128,
    pub low: u128,
}

impl View for Wide {
    type V = int;

    open spec fn view(&self) -> int {
        self.high * 0x1_0000_0000_0000_0000_0000_0000_0000_0000int + self.low
    }
}

/// The number of 256 bits that stands for `x`.
pub open spec fn wide_of(x: int) -> Wide {
    Wide { high: (x / base()) as u128, low: (x % base()) as u128 }
}

/// Every number of 256 bits stands for what it is.
pub proof fn lemma_wide_of(w: Wide)
    ensures
        wide_of(w@) == w,
{
    let (h, l) = (w.high as int, w.low as int);
    vstd::arithmetic::div_mod::lemma_fundamental_div_mod_converse(w@, base(), h, l);
}

/// Every number below the limit has one.
pub proof fn lemma_wide_exists(x: int)
    requires
        0 <= x < limit(),
    ensures
        wide_of(x)@ == x,
{
    vstd::arithmetic::div_mod::lemma_fundamental_div_mod(x, base());
    assert(0 <= x / base() < base()) by (nonlinear_arith)
        requires
            0 <= x < base() * base(),
            base() > 0,
    ;
}

/// A product of two sums, part by part.
proof fn lemma_expand(a1: int, a0: int, b1: int, b0: int, b: int)
    ensures
        (a1 * b + a0) * (b1 * b + b0) == (a1 * b1) * (b * b) + (a0 * b1) * b + (a1 * b0) * b + a0
            * b0,
{
    let (x, y) = (a1 * b, b1 * b);
    assert((x + a0) * (y + b0) == x * y + x * b0 + a0 * y + a0 * b0) by (nonlinear_arith);
    assert((a1 * b) * (b1 * b) == (a1 * b1) * (b * b)) by (nonlinear_arith);
    assert((a1 * b) * b0 == (a1 * b0) * b) by (nonlinear_arith);
    assert(a0 * (b1 * b) == (a0 * b1) * b) by (nonlinear_arith);
}

/// A product of two numbers by their halves of 64 bits.
proof fn lemma_product(a1: int, a0: int, b1: int, b0: int, t: int, u: int)
    requires
        0 <= a1 < 0x1_0000_0000_0000_0000,
        0 <= a0 < 0x1_0000_0000_0000_0000,
        0 <= b1 < 0x1_0000_0000_0000_0000,
        0 <= b0 < 0x1_0000_0000_0000_0000,
        t == a0 * b1 + a0 * b0 / 0x1_0000_0000_0000_0000,
        u == a1 * b0 + t % 0x1_0000_0000_0000_0000,
    ensures
        ({
            let b = 0x1_0000_0000_0000_0000int;
            &&& (a1 * b + a0) * (b1 * b + b0) == (a1 * b1 + t / b + u / b) * (b * b) + (u % b) * b
                + (a0 * b0) % b
        }),
{
    let b = 0x1_0000_0000_0000_0000int;
    let (p, q, r, s) = (a0 * b0, a0 * b1, a1 * b0, a1 * b1);
    lemma_expand(a1, a0, b1, b0, b);
    assert((s + t / b + u / b) * (b * b) == s * (b * b) + (t / b) * (b * b) + (u / b) * (b * b))
        by (nonlinear_arith);
    vstd::arithmetic::div_mod::lemma_fundamental_div_mod(p, b);
    vstd::arithmetic::div_mod::lemma_fundamental_div_mod(t, b);
    vstd::arithmetic::div_mod::lemma_fundamental_div_mod(u, b);
}

/// The product of two numbers of 64 bits fits 128, with room for one such number more.
proof fn lemma_halves(x: int, y: int)
    requires
        0 <= x < 0x1_0000_0000_0000_0000,
        0 <= y < 0x1_0000_0000_0000_0000,
    ensures
        0 <= x * y <= 0xFFFF_FFFF_FFFF_FFFE_0000_0000_0000_0001,
{
    assert(0 <= x * y <= 0xFFFF_FFFF_FFFF_FFFF * 0xFFFF_FFFF_FFFF_FFFF) by (nonlinear_arith)
        requires
            0 <= x <= 0xFFFF_FFFF_FFFF_FFFF,
            0 <= y <= 0xFFFF_FFFF_FFFF_FFFF,
    ;
}

impl Wide {
    /// The number itself.
    pub fn of(x: u128) -> (w: Self)
        ensures
            w@ == x,
    {
        Wide { high: 0, low: x }
    }

    /// A product of two numbers.
    pub fn product(x: u128, y: u128) -> (w: Self)
        ensures
            w@ == x * y,
    {
        let b: u128 = 0x1_0000_0000_0000_0000;
        let (a1, a0): (u128, u128) = (x / b, x % b);
        let (b1, b0): (u128, u128) = (y / b, y % b);
        proof {
            lemma_halves(a0 as int, b0 as int);
            lemma_halves(a0 as int, b1 as int);
            lemma_halves(a1 as int, b0 as int);
            lemma_halves(a1 as int, b1 as int);
        }
        let p: u128 = a0 * b0;
        let t: u128 = a0 * b1 + p / b;
        let u: u128 = a1 * b0 + t % b;
        let low: u128 = (u % b) * b + p % b;
        proof {
            lemma_product(a1 as int, a0 as int, b1 as int, b0 as int, t as int, u as int);
            assert(x * y == (a1 * b + a0) * (b1 * b + b0));
            let rest = a1 * b1 + t / b + u / b;
            assert(x * y < base() * base()) by (nonlinear_arith)
                requires
                    x < base(),
                    y < base(),
                    x >= 0,
                    y >= 0,
            ;
            assert(rest < base()) by (nonlinear_arith)
                requires
                    rest * base() + low < base() * base(),
                    low >= 0,
            ;
        }
        Wide { high: a1 * b1 + t / b + u / b, low }
    }

    /// Whether the number is smaller.
    pub fn less(self, other: Self) -> (b: bool)
        ensures
            b == (self@ < other@),
    {
        self.high < other.high || self.high == other.high && self.low < other.low
    }

    /// A sum.
    pub fn plus(self, other: Self) -> (w: Self)
        requires
            self@ + other@ < limit(),
        ensures
            w@ == self@ + other@,
    {
        if self.low > u128::MAX - other.low {
            Wide {
                high: self.high + other.high + 1,
                low: self.low - (u128::MAX - other.low) - 1,
            }
        } else {
            Wide { high: self.high + other.high, low: self.low + other.low }
        }
    }

    /// A difference.
    pub fn minus(self, other: Self) -> (w: Self)
        requires
            other@ <= self@,
        ensures
            w@ == self@ - other@,
    {
        if self.low < other.low {
            Wide {
                high: self.high - other.high - 1,
                low: u128::MAX - other.low + self.low + 1,
            }
        } else {
            Wide { high: self.high - other.high, low: self.low - other.low }
        }
    }

    /// A product with a number of one half.
    pub fn times(self, k: u128) -> (w: Self)
        requires
            self@ * k < limit(),
        ensures
            w@ == self@ * k,
    {
        let low = Wide::product(self.low, k);
        proof {
            let (h, l) = (self.high as int, self.low as int);
            assert((h * base() + l) * k == (h * k) * base() + l * k) by (nonlinear_arith);
            assert(0 <= l * k) by (nonlinear_arith)
                requires
                    l >= 0,
                    k >= 0,
            ;
            assert(0 <= h * k < base()) by (nonlinear_arith)
                requires
                    (h * k) * base() < base() * base(),
                    h >= 0,
                    k >= 0,
            ;
        }
        low.plus(Wide { high: self.high * k, low: 0 })
    }

    /// How often `d` goes into the number, and what is left.
    pub fn divide(self, d: Self) -> (r: (Self, Self))
        requires
            d@ > 0,
        ensures
            self@ == r.0@ * d@ + r.1@,
            0 <= r.1@ < d@,
            r.0@ == self@ / d@,
        decreases self@ - d@,
    {
        if self.less(d) {
            assert(self@ / d@ == 0) by (nonlinear_arith)
                requires
                    0 <= self@ < d@,
            ;
            return (Wide::of(0), self);
        }
        let rest = self.minus(d);
        let r: (Self, Self) = if rest.less(d) {
            (Wide::of(1), rest)
        } else {
            let (q, left): (Self, Self) = self.divide(d.plus(d));
            proof {
                let (x, y) = (q@, d@);
                assert(x * (y + y) == (x + x) * y) by (nonlinear_arith);
                assert((x + x + 1) * y == (x + x) * y + y) by (nonlinear_arith);
                assert(x + x + 1 < limit()) by (nonlinear_arith)
                    requires
                        (x + x) * y < limit(),
                        x >= 0,
                        y >= 1,
                        limit() % 2 == 0,
                ;
            }
            if left.less(d) {
                (q.plus(q), left)
            } else {
                (q.plus(q).plus(Wide::of(1)), left.minus(d))
            }
        };
        proof {
            vstd::arithmetic::div_mod::lemma_fundamental_div_mod_converse(
                self@,
                d@,
                r.0@,
                r.1@,
            );
        }
        r
    }

    /// How often `d` goes into the number, where the answer fits one half.
    pub fn over(self, d: Self) -> (q: u128)
        requires
            d@ > 0,
            self@ / d@ <= u128::MAX,
        ensures
            q == self@ / d@,
    {
        self.divide(d).0.low
    }

    /// A fourth of the number, rounded down.
    fn fourth(self) -> (w: Self)
        ensures
            w@ == self@ / 4,
    {
        let part: u128 = 0x4000_0000_0000_0000_0000_0000_0000_0000;
        Wide { high: self.high / 4, low: (self.high % 4) * part + self.low / 4 }
    }

    /// The square root, rounded down.
    pub fn root(self) -> (r: u128)
        ensures
            r == roots::root(self@),
            roots::is_root(r as int, self@),
        decreases self@,
    {
        if self.high == 0 && self.low == 0 {
            assert(roots::is_root(0, 0)) by (nonlinear_arith);
            proof {
                roots::law_root_is_unique(0, 0);
            }
            return 0;
        }
        let x = self.fourth();
        let t: u128 = x.root();
        proof {
            let (h, q, y) = (t as int, x@, self@);
            assert(2 * h < base()) by (nonlinear_arith)
                requires
                    h >= 0,
                    h * h <= q,
                    4 * q < base() * base(),
                    base() > 0,
            ;
            assert((2 * h) * (2 * h) <= y < (2 * h + 2) * (2 * h + 2)) by (nonlinear_arith)
                requires
                    h * h <= q < (h + 1) * (h + 1),
                    4 * q <= y < 4 * q + 4,
            ;
        }
        let s: u128 = 2 * t;
        let r: u128 = if self.less(Wide::product(s + 1, s + 1)) {
            s
        } else {
            s + 1
        };
        proof {
            roots::law_root_is_unique(r as int, self@);
        }
        r
    }
}

} // verus!
