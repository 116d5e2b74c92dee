//! Whole square roots.

use vstd::prelude::*;

verus! {

/// Whether `r` is the square root of `x`, rounded down.
pub open spec fn is_root(r: int, x: int) -> bool {
    r >= 0 && r * r <= x < (r + 1) * (r + 1)
}

/// The square root of `x`, rounded down.
pub open spec fn root(x: int) -> int {
    choose|r: int| is_root(r, x)
}

/// There is only one.
pub proof fn law_root_is_unique(r: int, x: int)
    requires
        is_root(r, x),
    ensures
        root(x) == r,
{
    let q = root(x);
    assert(is_root(q, x));
    assert(q == r) by (nonlinear_arith)
        requires
            q >= 0,
            r >= 0,
            q * q <= x < (q + 1) * (q + 1),
            r * r <= x < (r + 1) * (r + 1),
    ;
}

/// Every number that is not negative has a root.
pub proof fn lemma_root_exists(x: int)
    requires
        x >= 0,
    ensures
        is_root(root(x), x),
    decreases x,
{
    if x == 0 {
        assert(is_root(0, 0)) by (nonlinear_arith);
        law_root_is_unique(0, 0);
    } else {
        lemma_root_exists(x - 1);
        let r = root(x - 1);
        if x < (r + 1) * (r + 1) {
            law_root_is_unique(r, x);
        } else {
            assert((r + 1) * (r + 1) < (r + 2) * (r + 2)) by (nonlinear_arith)
                requires
                    r >= 0,
            ;
            law_root_is_unique(r + 1, x);
        }
    }
}

/// The square root of `x`, rounded down.
pub fn square_root(x: u128) -> (r: u128)
    ensures
        r == root(x as int),
        is_root(r as int, x as int),
{
    let mut low: u128 = 0;
    let mut high: u128 = 0x1_0000_0000_0000_0000;
    assert(0x1_0000_0000_0000_0000int * 0x1_0000_0000_0000_0000int > u128::MAX)
        by (nonlinear_arith);
    while low + 1 < high
        invariant
            low < high <= 0x1_0000_0000_0000_0000,
            low * low <= x,
            x < high * high,
        decreases high - low,
    {
        let mid: u128 = low + (high - low) / 2;
        assert(mid * mid <= u128::MAX) by (nonlinear_arith)
            requires
                mid < 0x1_0000_0000_0000_0000,
        ;
        if mid * mid <= x {
            low = mid;
        } else {
            high = mid;
        }
    }
    proof {
        law_root_is_unique(low as int, x as int);
    }
    low
}

/// A larger number has no smaller root.
pub proof fn law_roots_ascend(x: int, y: int, r: int, s: int)
    requires
        x <= y,
        is_root(r, x),
        is_root(s, y),
    ensures
        r <= s,
{
    assert(r <= s) by (nonlinear_arith)
        requires
            r * r <= x,
            x <= y,
            y < (s + 1) * (s + 1),
            r >= 0,
            s >= 0,
    ;
}

} // verus!
