//! How well counts and samples fit what is expected of them. Scores are in millionths.

use vstd::prelude::*;

verus! {

/// How many counts of 32 bits can always be compared at once.
pub const MOST_COUNTS: usize = 0x10_0000;

/// The largest expected count, in millionths.
pub const MOST_EXPECTED: u64 = 0x10_0000_0000_0000;

/// How many bins samples are sorted into.
pub const BINS: usize = 10;

/// What one count adds: its squared distance from the expected one, in parts of that;
/// nothing where none is expected.
pub open spec fn chi_term(observed: int, expected: int) -> int {
    if expected == 0 {
        0
    } else {
        let off = 1_000_000 * observed - expected;
        off * off / expected
    }
}

/// What the first `n` counts add up to.
pub open spec fn chi_total(observed: Seq<u64>, expected: Seq<u64>, n: int) -> int
    decreases n,
{
    if n <= 0 {
        0
    } else {
        chi_total(observed, expected, n - 1) + chi_term(
            observed[n - 1] as int,
            expected[n - 1] as int,
        )
    }
}

/// Whether no count or expectation, in millionths, is above `top`, and `n` squares of that can
/// be added up.
pub open spec fn are_within(observed: Seq<u64>, expected: Seq<u64>, n: int, top: int) -> bool {
    &&& n * (top * top) <= u128::MAX
    &&& forall|i: int|
        0 <= i < n ==> 1_000_000 * #[trigger] observed[i] <= top && expected[i] <= top
}

/// Whether counts and expectations can be compared.
pub open spec fn are_counts(observed: Seq<u64>, expected: Seq<u64>, n: int) -> bool {
    &&& 0 <= n <= observed.len()
    &&& n <= expected.len()
    &&& exists|top: int| #[trigger] are_within(observed, expected, n, top)
}

/// Counts of 32 bits that are not too many can be compared.
pub proof fn lemma_small_counts(observed: Seq<u64>, expected: Seq<u64>, n: int)
    requires
        0 <= n <= observed.len(),
        n <= expected.len(),
        n <= MOST_COUNTS,
        forall|i: int|
            0 <= i < n ==> #[trigger] observed[i] <= u32::MAX && expected[i] <= MOST_EXPECTED,
    ensures
        are_counts(observed, expected, n),
{
    let top = 0x10_0000_0000_0000int;
    assert(n * (top * top) <= u128::MAX) by (nonlinear_arith)
        requires
            n <= 0x10_0000,
            top == 0x10_0000_0000_0000,
    ;
    assert(are_within(observed, expected, n, top));
}

/// The chi-squared statistic of the first `n` counts, where expectations are in millionths.
pub fn chi_squared(observed: &[u64], expected: &[u64], n: usize) -> (c: u128)
    requires
        are_counts(observed@, expected@, n as int),
    ensures
        c == chi_total(observed@, expected@, n as int),
{
    let mut c: u128 = 0;
    let mut i: usize = 0;
    let ghost top = choose|top: int| #[trigger] are_within(observed@, expected@, n as int, top);
    while i < n
        invariant
            i <= n <= observed@.len(),
            n <= expected@.len(),
            are_within(observed@, expected@, n as int, top),
            c == chi_total(observed@, expected@, i as int),
            c <= i * (top * top),
        decreases n - i,
    {
        let (o, e): (u64, u64) = (observed[i], expected[i]);
        assert(1_000_000 * o <= top && e <= top);
        assert(i * (top * top) + top * top <= n * (top * top)) by (nonlinear_arith)
            requires
                i + 1 <= n,
        ;
        assert(top * top >= 0) by (nonlinear_arith);
        if e > 0 {
            let scaled: u128 = 1_000_000 * (o as u128);
            let off: u128 = if scaled >= e as u128 {
                scaled - e as u128
            } else {
                e as u128 - scaled
            };
            proof {
                let d = scaled - e;
                assert(off * off == d * d) by (nonlinear_arith)
                    requires
                        off == d || off == -d,
                ;
                assert(0 <= off * off <= top * top) by (nonlinear_arith)
                    requires
                        0 <= off <= top,
                ;
                let q = off * off;
                assert(0 <= q / (e as int) <= q) by (nonlinear_arith)
                    requires
                        q >= 0,
                        e >= 1,
                ;
                assert(top * top <= n * (top * top)) by (nonlinear_arith)
                    requires
                        n >= 1,
                        top * top >= 0,
                ;
            }
            c = c + off * off / (e as u128);
        }
        i += 1;
        assert(i * (top * top) == (i - 1) * (top * top) + top * top) by (nonlinear_arith);
    }
    c
}

/// Counts that are what is expected fit without any distance.
pub proof fn law_expected_counts_fit(observed: Seq<u64>, expected: Seq<u64>, n: int)
    requires
        0 <= n <= observed.len(),
        n <= expected.len(),
        forall|i: int| 0 <= i < n ==> #[trigger] expected[i] == 1_000_000 * observed[i],
    ensures
        chi_total(observed, expected, n) == 0,
    decreases n,
{
    if n > 0 {
        law_expected_counts_fit(observed, expected, n - 1);
        let e = expected[n - 1] as int;
        if e != 0 {
            assert(0int / e == 0) by (nonlinear_arith)
                requires
                    e != 0,
            ;
        }
    }
}

/// The bin of `x` among bins of one width over `low..=high`.
pub open spec fn bin_among(x: int, low: int, high: int) -> int {
    let raw = BINS * (x - low) / (high - low);
    if raw < BINS - 1 {
        raw
    } else {
        BINS - 1
    }
}

/// How many of the first `n` samples are in the bin `b`.
pub open spec fn bin_count(s: Seq<u64>, low: int, high: int, b: int, n: int) -> int
    decreases n,
{
    if n <= 0 {
        0
    } else {
        bin_count(s, low, high, b, n - 1) + if bin_among(s[n - 1] as int, low, high) == b {
            1int
        } else {
            0
        }
    }
}

/// The counts of samples by bins.
pub open spec fn bin_counts(s: Seq<u64>, low: int, high: int) -> Seq<u64> {
    Seq::new(BINS as nat, |b: int| bin_count(s, low, high, b, s.len() as int) as u64)
}

/// Counts samples by bins of one width.
pub fn count_bins(s: &[u64], low: u64, high: u64) -> (counts: Vec<u64>)
    requires
        low < high,
        s@.len() <= u32::MAX,
        forall|i: int| 0 <= i < s@.len() ==> low <= #[trigger] s@[i] <= high,
    ensures
        counts@ == bin_counts(s@, low as int, high as int),
        forall|b: int| 0 <= b < BINS ==> #[trigger] counts@[b] <= s@.len(),
{
    let mut counts: Vec<u64> = vec![0u64; BINS];
    let mut i: usize = 0;
    while i < s.len()
        invariant
            i <= s@.len() <= u32::MAX,
            low < high,
            forall|k: int| 0 <= k < s@.len() ==> low <= #[trigger] s@[k] <= high,
            counts@.len() == BINS,
            forall|b: int|
                0 <= b < BINS ==> 0 <= #[trigger] counts@[b] <= i && counts@[b] == bin_count(
                    s@,
                    low as int,
                    high as int,
                    b,
                    i as int,
                ),
        decreases s@.len() - i,
    {
        let raw: u128 = 10 * ((s[i] - low) as u128) / ((high - low) as u128);
        let bin: usize = if raw < 9 {
            raw as usize
        } else {
            9
        };
        assert(bin == bin_among(s@[i as int] as int, low as int, high as int));
        counts[bin] = counts[bin] + 1;
        i += 1;
    }
    assert(counts@ =~= bin_counts(s@, low as int, high as int));
    counts
}

/// How far the share of the first `i + 1` of `n` samples is from what is expected of them.
pub open spec fn share_off(theory: Seq<u64>, i: int) -> int {
    let share = 1_000_000 * (i + 1) / (theory.len() as int);
    if share >= theory[i] {
        share - theory[i]
    } else {
        theory[i] - share
    }
}

/// The largest distance among the first `n` samples.
pub open spec fn widest_off(theory: Seq<u64>, n: int) -> int
    decreases n,
{
    if n <= 0 {
        0
    } else {
        let before = widest_off(theory, n - 1);
        if share_off(theory, n - 1) > before {
            share_off(theory, n - 1)
        } else {
            before
        }
    }
}

/// The Kolmogorov-Smirnov statistic, where `theory` holds for each sample in order how many
/// are expected to be no larger, in millionths.
pub fn ks_statistic(theory: &[u64]) -> (d: u64)
    ensures
        d == widest_off(theory@, theory@.len() as int),
{
    let n: u128 = theory.len() as u128;
    let mut d: u64 = 0;
    let mut i: usize = 0;
    while i < theory.len()
        invariant
            i <= theory@.len(),
            n == theory@.len(),
            d == widest_off(theory@, i as int),
        decreases theory@.len() - i,
    {
        let scaled: u128 = 1_000_000 * (i as u128 + 1);
        assert(0 <= scaled as int / n as int <= 1_000_000) by (nonlinear_arith)
            requires
                0 <= scaled <= 1_000_000 * n,
                n >= 1,
        ;
        let share: u64 = (scaled / n) as u64;
        let expected: u64 = theory[i];
        let off: u64 = if share >= expected {
            share - expected
        } else {
            expected - share
        };
        if off > d {
            d = off;
        }
        i += 1;
    }
    d
}

/// No sample is farther off than the statistic says, and one is just as far.
pub proof fn law_widest_is_widest(theory: Seq<u64>, n: int)
    requires
        0 < n <= theory.len(),
    ensures
        forall|i: int| 0 <= i < n ==> #[trigger] share_off(theory, i) <= widest_off(theory, n),
        exists|i: int| 0 <= i < n && #[trigger] share_off(theory, i) == widest_off(theory, n),
    decreases n,
{
    reveal_with_fuel(widest_off, 2);
    if n > 1 {
        law_widest_is_widest(theory, n - 1);
        if share_off(theory, n - 1) <= widest_off(theory, n - 1) {
            let i = choose|i: int|
                0 <= i < n - 1 && #[trigger] share_off(theory, i) == widest_off(theory, n - 1);
            assert(share_off(theory, i) == widest_off(theory, n));
        } else {
            assert(share_off(theory, n - 1) == widest_off(theory, n));
        }
    } else {
        assert(share_off(theory, 0) >= 0);
        assert(share_off(theory, 0) == widest_off(theory, 1));
    }
}

/// A count adds its squared distance in parts of what is expected: nothing where it is met, all of
/// what is expected where there is none or twice as many, and more the farther it is off.
pub proof fn law_counts_add_by_their_distance(observed: int, expected: int)
    requires
        observed >= 0,
        expected > 0,
    ensures
        1_000_000 * observed == expected ==> chi_term(observed, expected) == 0,
        chi_term(0, expected) == expected,
        1_000_000 * observed == 2 * expected ==> chi_term(observed, expected) == expected,
        1_000_000 * observed == 3 * expected ==> chi_term(observed, expected) == 4 * expected,
        chi_term(observed, expected) * expected <= (1_000_000 * observed - expected) * (1_000_000
            * observed - expected) < (chi_term(observed, expected) + 1) * expected,
{
    let off = 1_000_000 * observed - expected;
    let square = off * off;
    let q = square / expected;
    assert(square >= 0) by (nonlinear_arith)
        requires
            square == off * off,
    ;
    assert(q * expected <= square < (q + 1) * expected) by (nonlinear_arith)
        requires
            expected > 0,
            q == square / expected,
    ;
    assert(off == 0 ==> square / expected == 0) by (nonlinear_arith)
        requires
            expected > 0,
            square == off * off,
    ;
    assert((off == expected) ==> square / expected == expected) by (nonlinear_arith)
        requires
            expected > 0,
            square == off * off,
    ;
    assert((off == 2 * expected) ==> square / expected == 4 * expected) by (nonlinear_arith)
        requires
            expected > 0,
            square == off * off,
    ;
    let zero = 1_000_000 * 0 - expected;
    assert((zero * zero) / expected == expected) by (nonlinear_arith)
        requires
            expected > 0,
            zero == -expected,
    ;
}

/// The bins cut their range into ten equal parts, the least number in the first and the greatest
/// in the last.
pub proof fn law_bins_are_equal_parts(x: int, low: int, high: int)
    requires
        low <= x <= high,
        low < high,
    ensures
        0 <= bin_among(x, low, high) <= 9,
        bin_among(x, low, high) * (high - low) <= 10 * (x - low),
        bin_among(x, low, high) < 9 ==> 10 * (x - low) < (bin_among(x, low, high) + 1) * (high
            - low),
        bin_among(low, low, high) == 0,
        bin_among(high, low, high) == 9,
{
    let range = high - low;
    let y = 10 * (x - low);
    let q = y / range;
    assert(q * range <= y < (q + 1) * range && q >= 0) by (nonlinear_arith)
        requires
            range > 0,
            y >= 0,
            q == y / range,
    ;
    assert(q >= 9 ==> 9 * range <= q * range) by (nonlinear_arith)
        requires
            range > 0,
    ;
    assert(0int / range == 0) by (nonlinear_arith)
        requires
            range > 0,
    ;
    assert((10 * range) / range == 10) by (nonlinear_arith)
        requires
            range > 0,
    ;
}

/// The share of samples up to one in order is held against what is expected: it is off by nothing
/// where it is met, and the last sample's share is the whole.
pub proof fn law_shares_are_held_against_theory(theory: Seq<u64>, i: int)
    requires
        0 <= i < theory.len(),
    ensures
        theory[i] * theory.len() == 1_000_000 * (i + 1) ==> share_off(theory, i) == 0,
        theory[theory.len() - 1] <= 1_000_000 ==> share_off(theory, theory.len() - 1) == 1_000_000
            - theory[theory.len() - 1],
        share_off(theory, i) >= 0,
{
    let n = theory.len() as int;
    let x = 1_000_000 * (i + 1);
    let e = theory[i] as int;
    assert(e * n == x ==> x / n == e) by (nonlinear_arith)
        requires
            n > 0,
    ;
    assert((1_000_000 * n) / n == 1_000_000) by (nonlinear_arith)
        requires
            n > 0,
    ;
}

} // verus!
