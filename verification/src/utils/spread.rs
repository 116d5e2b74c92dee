//! How numbers spread about their mean, and how they follow one another.
//!
//! Everything is computed from whole numbers: with `n` numbers that add up to `t`, the
//! deviation of `x` is taken as `n * x - t`, so that no part is lost on the way.

#[allow(unused_imports)]
use crate::utils::roots;
use crate::utils::stats::RunCounts;
#[allow(unused_imports)]
use crate::utils::stats;
use crate::utils::wide::Wide;
#[allow(unused_imports)]
use crate::utils::wide;
use crate::utils::window::sum_of;
#[allow(unused_imports)]
use crate::utils::window;
use vstd::prelude::*;

verus! {

/// How many numbers can be measured at once: what is made of so many fits 256 bits.
pub const MOST: usize = 0xFFFF_FFFF;

/// The largest score in millionths that one of so many numbers can have.
pub const TOP_SCORE: u128 = 131_072_000_000;

/// Whether all numbers fit 32 bits.
pub open spec fn are_small(s: Seq<u64>) -> bool {
    are_within(s, u32::MAX as int)
}

/// Whether no number is larger than `most`.
pub open spec fn are_within(s: Seq<u64>, most: int) -> bool {
    forall|i: int| 0 <= i < s.len() ==> #[trigger] s[i] <= most
}

/// So many times the sum of squares, less the square of the sum: the variance, times the
/// square of how many there are.
pub open spec fn scatter(s: Seq<u64>) -> int {
    s.len() * stats::square_total(s) - window::total(s) * window::total(s)
}

/// The standard deviation, in millionths.
pub open spec fn std_micro_of(s: Seq<u64>) -> int {
    if s.len() == 0 {
        0
    } else {
        roots::root(1_000_000_000_000 * scatter(s)) / (s.len() as int)
    }
}

/// The standard deviation in parts of the mean, in millionths; nothing where the mean is 0.
pub open spec fn cv_micro_of(s: Seq<u64>) -> int {
    if window::total(s) == 0 {
        0
    } else {
        roots::root(1_000_000_000_000 * scatter(s)) / window::total(s)
    }
}

/// The deviation of the number at `i`, times how many there are.
pub open spec fn deviation(s: Seq<u64>, i: int) -> int {
    s.len() * s[i] - window::total(s)
}

/// The products of the first `k` deviations with those that follow them, added up.
pub open spec fn lag_total(s: Seq<u64>, k: int) -> int
    decreases k,
{
    if k <= 0 {
        0
    } else {
        lag_total(s, k - 1) + deviation(s, k - 1) * deviation(s, k)
    }
}

/// The part of a number above zero.
pub open spec fn rise(x: int) -> int {
    if x > 0 {
        x
    } else {
        0
    }
}

/// What of `lag_total` comes of products above zero, or with `sign` -1, below.
pub open spec fn lag_part(s: Seq<u64>, k: int, sign: int) -> int
    decreases k,
{
    if k <= 0 {
        0
    } else {
        lag_part(s, k - 1, sign) + rise(sign * (deviation(s, k - 1) * deviation(s, k)))
    }
}

/// What of `cube_total` comes of cubes above zero, or with `sign` -1, below.
pub open spec fn cube_part(s: Seq<u64>, k: int, sign: int) -> int
    decreases k,
{
    if k <= 0 {
        0
    } else {
        let z = score_micro(s, k - 1);
        cube_part(s, k - 1, sign) + rise(sign * (z * z * z))
    }
}

/// `a` over `b`, rounded towards zero.
pub open spec fn quotient(a: int, b: int) -> int {
    if a >= 0 {
        a / b
    } else {
        -((-a) / b)
    }
}

/// How strongly each number follows the one before it: the covariance of neighbours in
/// parts of the variance, in millionths; nothing where all numbers are the same.
pub open spec fn lag_micro_of(s: Seq<u64>) -> int {
    if s.len() < 2 || scatter(s) == 0 {
        0
    } else {
        quotient(1_000_000 * lag_total(s, s.len() - 1), (s.len() - 1) * scatter(s))
    }
}

/// The deviation of the number at `i` in standard deviations, in millionths.
pub open spec fn score_micro(s: Seq<u64>, i: int) -> int {
    quotient(1_000_000_000_000 * deviation(s, i), roots::root(1_000_000_000_000 * scatter(s)))
}

/// The cubes of the first `k` scores, added up.
pub open spec fn cube_total(s: Seq<u64>, k: int) -> int
    decreases k,
{
    if k <= 0 {
        0
    } else {
        let z = score_micro(s, k - 1);
        cube_total(s, k - 1) + z * z * z
    }
}

/// The fourth powers of the first `k` scores, added up.
pub open spec fn fourth_total(s: Seq<u64>, k: int) -> int
    decreases k,
{
    if k <= 0 {
        0
    } else {
        let z = score_micro(s, k - 1);
        fourth_total(s, k - 1) + (z * z) * (z * z)
    }
}

/// The skewness of a sample, in millionths; nothing for fewer than three numbers or where
/// all are the same.
pub open spec fn skewness_micro_of(s: Seq<u64>) -> int {
    let n = s.len() as int;
    if n < 3 || scatter(s) == 0 {
        0
    } else {
        quotient(n * cube_total(s, n), 1_000_000_000_000 * ((n - 1) * (n - 2)))
    }
}

/// The kurtosis, in millionths; that of a bell curve for fewer than four numbers or where
/// all are the same.
pub open spec fn kurtosis_micro_of(s: Seq<u64>) -> int {
    let n = s.len() as int;
    if n < 4 || scatter(s) == 0 {
        3_000_000
    } else {
        fourth_total(s, n) / (1_000_000_000_000_000_000 * n)
    }
}

/// How far the number of runs is from the expected one, in deviations, in millionths;
/// nothing where all numbers are on one side or the deviation is 0.
pub open spec fn run_micro_of(runs: int, above: int, below: int) -> int {
    let n = above + below;
    let pairs = 2 * (above * below);
    let off = runs * n - pairs - n;
    if above == 0 || below == 0 || pairs == n {
        0
    } else {
        roots::root((1_000_000_000_000 * ((off * off) * (n - 1))) / (pairs * (pairs - n)))
    }
}

/// Squared distances from `x`, added up, are not negative.
proof fn lemma_distances(s: Seq<u64>, x: int)
    ensures
        stats::square_total(s) + s.len() * (x * x) - 2 * (window::total(s) * x) >= 0,
    decreases s.len(),
{
    if s.len() > 0 {
        let rest = s.drop_last();
        lemma_distances(rest, x);
        let (y, n, t, q) = (
            s.last() as int,
            rest.len() as int,
            window::total(rest),
            stats::square_total(rest),
        );
        assert((q + y * y) + (n + 1) * (x * x) - 2 * ((t + y) * x) >= 0) by (nonlinear_arith)
            requires
                q + n * (x * x) - 2 * (t * x) >= 0,
        ;
    } else {
        assert(0 * (x * x) == 0 && 0 * x == 0) by (nonlinear_arith);
    }
}

/// The scatter is not negative, and its parts are bounded.
pub proof fn lemma_scatter(s: Seq<u64>)
    ensures
        0 <= scatter(s),
        0 <= window::total(s) <= s.len() * u64::MAX,
        0 <= stats::square_total(s) <= s.len() * (u64::MAX * u64::MAX),
        stats::square_total(s) <= window::total(s) * window::total(s),
    decreases s.len(),
{
    if s.len() > 0 {
        let rest = s.drop_last();
        lemma_scatter(rest);
        let (y, n, t, q) = (
            s.last() as int,
            rest.len() as int,
            window::total(rest),
            stats::square_total(rest),
        );
        lemma_distances(rest, y);
        assert((n + 1) * (q + y * y) - (t + y) * (t + y) >= 0) by (nonlinear_arith)
            requires
                n * q - t * t >= 0,
                q + n * (y * y) - 2 * (t * y) >= 0,
        ;
        assert(q + y * y <= (t + y) * (t + y)) by (nonlinear_arith)
            requires
                q <= t * t,
                t >= 0,
                y >= 0,
        ;
        assert(0 <= y * y <= u64::MAX * u64::MAX) by (nonlinear_arith)
            requires
                0 <= y <= u64::MAX,
        ;
        assert((n + 1) * u64::MAX == n * u64::MAX + u64::MAX) by (nonlinear_arith);
        assert((n + 1) * (u64::MAX * u64::MAX) == n * (u64::MAX * u64::MAX) + u64::MAX * u64::MAX)
            by (nonlinear_arith);
    } else {
        assert(0 * 0 == 0) by (nonlinear_arith);
    }
}

/// 2 to the 96th, the 160th, the 192nd and the 224th.
pub open spec fn sum_limit() -> int {
    0x1_0000_0000_0000_0000_0000_0000int
}

pub open spec fn square_limit() -> int {
    0x1_0000_0000_0000_0000_0000_0000_0000_0000_0000_0000int
}

pub open spec fn scatter_limit() -> int {
    0x1_0000_0000_0000_0000_0000_0000_0000_0000_0000_0000_0000_0000int
}

pub open spec fn lag_limit() -> int {
    0x1_0000_0000_0000_0000_0000_0000_0000_0000_0000_0000_0000_0000_0000_0000int
}

/// What is made of at most so many numbers fits its words.
pub proof fn lemma_fits(n: int, sum: int, squares: int)
    requires
        0 < n <= MOST,
        0 <= sum <= n * u64::MAX,
        0 <= squares <= n * (u64::MAX * u64::MAX),
        squares <= sum * sum,
        0 <= n * squares - sum * sum,
    ensures
        sum <= sum_limit(),
        sum * sum <= scatter_limit(),
        squares <= square_limit(),
        n * squares <= scatter_limit(),
        n * squares - sum * sum <= n * (sum * sum),
{
    assert(sum <= sum_limit()) by (nonlinear_arith)
        requires
            sum <= n * u64::MAX,
            n <= 0x1_0000_0000,
    ;
    assert(sum * sum <= sum_limit() * sum_limit()) by (nonlinear_arith)
        requires
            0 <= sum <= sum_limit(),
    ;
    assert(squares <= square_limit()) by (nonlinear_arith)
        requires
            squares <= n * (u64::MAX * u64::MAX),
            n <= 0x1_0000_0000,
    ;
    assert(n * squares <= scatter_limit()) by (nonlinear_arith)
        requires
            0 <= squares <= square_limit(),
            0 < n <= 0x1_0000_0000,
    ;
    assert(n * squares - sum * sum <= n * (sum * sum)) by (nonlinear_arith)
        requires
            0 <= squares <= sum * sum,
            0 < n,
    ;
}

/// Sums of numbers that are not larger than `most`.
pub proof fn lemma_sums_within(s: Seq<u64>, most: int)
    requires
        are_within(s, most),
        most >= 0,
    ensures
        0 <= window::total(s) <= s.len() * most,
        0 <= stats::square_total(s) <= s.len() * (most * most),
    decreases s.len(),
{
    if s.len() > 0 {
        let rest = s.drop_last();
        assert forall|i: int| 0 <= i < rest.len() implies #[trigger] rest[i] <= most by {
            assert(rest[i] == s[i]);
        }
        lemma_sums_within(rest, most);
        let (y, n) = (s.last() as int, rest.len() as int);
        assert(s[s.len() - 1] == y);
        assert(0 <= y * y <= most * most) by (nonlinear_arith)
            requires
                0 <= y <= most,
        ;
        assert((n + 1) * most == n * most + most) by (nonlinear_arith);
        assert((n + 1) * (most * most) == n * (most * most) + most * most) by (nonlinear_arith);
    } else {
        assert(0 * most == 0 && 0 * (most * most) == 0) by (nonlinear_arith);
    }
}

/// The mean and the deviation of numbers are no larger than the largest number can be.
pub proof fn law_measures_stay_within(s: Seq<u64>, most: int)
    requires
        are_within(s, most),
        0 <= most,
    ensures
        0 <= window::mean_micro_of(s) <= 1_000_000 * most,
        0 <= std_micro_of(s) <= 1_000_000 * most,
{
    if s.len() > 0 {
        let (n, t, q, c) = (
            s.len() as int,
            window::total(s),
            stats::square_total(s),
            scatter(s),
        );
        lemma_sums_within(s, most);
        lemma_scatter(s);
        assert(0 <= (1_000_000 * t) / n <= 1_000_000 * most) by (nonlinear_arith)
            requires
                0 <= t <= n * most,
                n >= 1,
        ;
        roots::lemma_root_exists(1_000_000_000_000 * c);
        let r = roots::root(1_000_000_000_000 * c);
        assert(t * t >= 0) by (nonlinear_arith);
        assert(n * q <= (n * most) * (n * most)) by (nonlinear_arith)
            requires
                0 <= q <= n * (most * most),
                n >= 1,
        ;
        let p = n * most;
        assert(p >= 0) by (nonlinear_arith)
            requires
                p == n * most,
                n >= 1,
                most >= 0,
        ;
        assert(r <= 1_000_000 * p) by (nonlinear_arith)
            requires
                r * r <= 1_000_000_000_000 * c,
                c <= p * p,
                p >= 0,
                r >= 0,
        ;
        assert(0 <= r / n <= 1_000_000 * most) by (nonlinear_arith)
            requires
                0 <= r <= 1_000_000 * (n * most),
                n >= 1,
        ;
    }
}

/// A number that is not too large keeps a window of such numbers so.
pub proof fn lemma_slid_within(s: Seq<u64>, x: u64, limit: int, most: int)
    requires
        are_within(s, most),
        x <= most,
    ensures
        are_within(window::slid(s, x, limit), most),
{
    let w = window::slid(s, x, limit);
    assert forall|i: int| 0 <= i < w.len() implies #[trigger] w[i] <= most by {
        if i < w.len() - 1 {
            if s.len() >= limit && s.len() > 0 {
                assert(w[i] == s[i + 1]);
            } else {
                assert(w[i] == s[i]);
            }
        }
    }
}

/// Numbers that are all the same do not spread.
pub proof fn law_equal_numbers_do_not_spread(s: Seq<u64>, x: u64)
    requires
        forall|i: int| 0 <= i < s.len() ==> #[trigger] s[i] == x,
    ensures
        scatter(s) == 0,
        std_micro_of(s) == 0,
        cv_micro_of(s) == 0,
        lag_micro_of(s) == 0,
        skewness_micro_of(s) == 0,
        kurtosis_micro_of(s) == 3_000_000,
{
    lemma_equal_sums(s, x);
    let n = s.len() as int;
    let y = x as int;
    assert(n * (n * (y * y)) - (n * y) * (n * y) == 0) by (nonlinear_arith);
    assert(roots::is_root(0, 0)) by (nonlinear_arith);
    roots::law_root_is_unique(0, 0);
    if n > 0 {
        assert(0int / n == 0) by (nonlinear_arith)
            requires
                n > 0,
        ;
    }
    let t = window::total(s);
    if t != 0 {
        assert(0int / t == 0) by (nonlinear_arith)
            requires
                t != 0,
        ;
    }
}

proof fn lemma_equal_sums(s: Seq<u64>, x: u64)
    requires
        forall|i: int| 0 <= i < s.len() ==> #[trigger] s[i] == x,
    ensures
        window::total(s) == s.len() * x,
        stats::square_total(s) == s.len() * (x * x),
    decreases s.len(),
{
    let y = x as int;
    if s.len() > 0 {
        let rest = s.drop_last();
        assert forall|i: int| 0 <= i < rest.len() implies #[trigger] rest[i] == x by {
            assert(rest[i] == s[i]);
        }
        lemma_equal_sums(rest, x);
        let n = rest.len() as int;
        assert(s[s.len() - 1] == x);
        assert((n + 1) * y == n * y + y) by (nonlinear_arith);
        assert((n + 1) * (y * y) == n * (y * y) + y * y) by (nonlinear_arith);
    } else {
        assert(0 * y == 0 && 0 * (y * y) == 0) by (nonlinear_arith);
    }
}

/// Squares of `a * x - b` over the numbers, added up.
pub open spec fn square_devs(s: Seq<u64>, a: int, b: int) -> int
    decreases s.len(),
{
    if s.len() == 0 {
        0
    } else {
        let d = a * s.last() - b;
        square_devs(s.drop_last(), a, b) + d * d
    }
}

proof fn lemma_square_devs(s: Seq<u64>, a: int, b: int)
    ensures
        square_devs(s, a, b) == (a * a) * stats::square_total(s) - 2 * ((a * b) * window::total(s))
            + s.len() * (b * b),
        square_devs(s, a, b) >= 0,
    decreases s.len(),
{
    if s.len() > 0 {
        let rest = s.drop_last();
        lemma_square_devs(rest, a, b);
        let (y, n, t, q) = (
            s.last() as int,
            rest.len() as int,
            window::total(rest),
            stats::square_total(rest),
        );
        let d = a * y - b;
        assert(d * d == (a * a) * (y * y) - 2 * ((a * b) * y) + b * b && d * d >= 0)
            by (nonlinear_arith)
            requires
                d == a * y - b,
        ;
        assert((a * a) * (q + y * y) == (a * a) * q + (a * a) * (y * y)) by (nonlinear_arith);
        assert((a * b) * (t + y) == (a * b) * t + (a * b) * y) by (nonlinear_arith);
        assert((n + 1) * (b * b) == n * (b * b) + b * b) by (nonlinear_arith);
    } else {
        assert((a * a) * 0 == 0 && (a * b) * 0 == 0 && 0 * (b * b) == 0) by (nonlinear_arith);
    }
}

/// The squares of all deviations add up to so many times the scatter.
proof fn lemma_deviations(s: Seq<u64>)
    ensures
        square_devs(s, s.len() as int, window::total(s)) == s.len() * scatter(s),
{
    let (n, t, q) = (s.len() as int, window::total(s), stats::square_total(s));
    lemma_square_devs(s, n, t);
    assert((n * n) * q - 2 * ((n * t) * t) + n * (t * t) == n * (n * q - t * t))
        by (nonlinear_arith);
}

/// A deviation's square is one of those that add up.
proof fn lemma_one_of(s: Seq<u64>, a: int, b: int, i: int)
    requires
        0 <= i < s.len(),
    ensures
        (a * s[i] - b) * (a * s[i] - b) <= square_devs(s, a, b),
    decreases s.len(),
{
    let d = a * s.last() - b;
    assert(d * d >= 0) by (nonlinear_arith);
    lemma_square_devs(s.drop_last(), a, b);
    if i < s.len() - 1 {
        lemma_one_of(s.drop_last(), a, b, i);
    }
}

/// Products of neighbours stay below the squares up to the later one.
proof fn lemma_lag_bounded(s: Seq<u64>, k: int)
    requires
        0 <= k < s.len(),
    ensures
        ({
            let (a, b) = (s.len() as int, window::total(s));
            let all = 2 * square_devs(s.take(k + 1), a, b) - deviation(s, k) * deviation(s, k);
            let (up, down) = (lag_part(s, k, 1), lag_part(s, k, -1));
            up >= 0 && down >= 0 && up - down == lag_total(s, k) && 2 * (up + down) <= all
        }),
    decreases k,
{
    let (a, b) = (s.len() as int, window::total(s));
    let y = deviation(s, k);
    let part = s.take(k + 1);
    assert(part.drop_last() =~= s.take(k));
    assert(part.last() == s[k]);
    if k > 0 {
        lemma_lag_bounded(s, k - 1);
        let x = deviation(s, k - 1);
        assert(-(x * x + y * y) <= 2 * (x * y) <= x * x + y * y) by (nonlinear_arith);
        assert(1 * (x * y) == x * y && (-1) * (x * y) == -(x * y));
        assert(square_devs(part, a, b) == square_devs(s.take(k), a, b) + y * y);
    } else {
        assert(s.take(0) =~= Seq::empty());
        assert(square_devs(part, a, b) == square_devs(s.take(0), a, b) + y * y);
        assert(square_devs(s.take(0), a, b) == 0);
        assert(y * y >= 0) by (nonlinear_arith);
    }
}

/// The squares up to a number are among those of all.
proof fn lemma_devs_of_part(s: Seq<u64>, a: int, b: int, k: int)
    requires
        0 <= k <= s.len(),
    ensures
        square_devs(s.take(k), a, b) <= square_devs(s, a, b),
    decreases s.len(),
{
    if k == s.len() {
        assert(s.take(k) =~= s);
    } else {
        let rest = s.drop_last();
        lemma_devs_of_part(rest, a, b, k);
        assert(rest.take(k) =~= s.take(k));
        let d = a * s.last() - b;
        assert(d * d >= 0) by (nonlinear_arith);
    }
}

/// No more than so many times the scatter comes of all products of neighbours.
pub proof fn lemma_lag(s: Seq<u64>, k: int)
    requires
        0 <= k < s.len(),
    ensures
        0 <= lag_part(s, k, 1),
        0 <= lag_part(s, k, -1),
        lag_part(s, k, 1) - lag_part(s, k, -1) == lag_total(s, k),
        lag_part(s, k, 1) + lag_part(s, k, -1) <= s.len() * scatter(s),
{
    let y = deviation(s, k);
    lemma_lag_bounded(s, k);
    lemma_deviations(s);
    lemma_devs_of_part(s, s.len() as int, window::total(s), k + 1);
    assert(y * y >= 0) by (nonlinear_arith);
}

/// A number's score is at most twice the root of how many there are.
proof fn lemma_score(s: Seq<u64>, i: int)
    requires
        0 <= i < s.len() <= MOST,
        scatter(s) > 0,
    ensures
        roots::root(1_000_000_000_000 * scatter(s)) >= 1,
        roots::is_root(roots::root(1_000_000_000_000 * scatter(s)), 1_000_000_000_000 * scatter(s)),
        -TOP_SCORE <= score_micro(s, i) <= TOP_SCORE,
{
    let n = s.len() as int;
    let c = 1_000_000_000_000 * scatter(s);
    let d = deviation(s, i);
    let r = roots::root(c);
    roots::lemma_root_exists(c);
    lemma_deviations(s);
    lemma_one_of(s, n, window::total(s), i);
    assert(d * d <= n * scatter(s));
    assert(r >= 1) by (nonlinear_arith)
        requires
            r >= 0,
            c >= 1,
            (r + 1) * (r + 1) > c,
    ;
    let m = if d >= 0 {
        d
    } else {
        -d
    };
    assert(m * m == d * d) by (nonlinear_arith)
        requires
            m == d || m == -d,
    ;
    let k = 1_000_000 * m;
    assert(k * k <= n * c) by (nonlinear_arith)
        requires
            k == 1_000_000 * m,
            m * m <= n * scatter(s),
            c == 1_000_000_000_000 * scatter(s),
    ;
    assert(k <= 131_072 * r) by (nonlinear_arith)
        requires
            k * k <= n * c,
            n <= 0x1_0000_0000,
            c >= 0,
            c < (r + 1) * (r + 1),
            r >= 1,
            k >= 0,
    ;
    assert(0 <= (1_000_000 * k) / r <= 131_072_000_000) by (nonlinear_arith)
        requires
            0 <= k <= 131_072 * r,
            r >= 1,
    ;
}

/// The squares of the numbers, added up.
pub fn square_sum(v: &[u64]) -> (t: Wide)
    requires
        v@.len() <= MOST,
    ensures
        t@ == stats::square_total(v@),
{
    let mut t: Wide = Wide::of(0);
    let mut i: usize = 0;
    assert(v@.subrange(0, 0) =~= Seq::empty());
    while i < v.len()
        invariant
            i <= v@.len() <= MOST,
            t@ == stats::square_total(v@.subrange(0, i as int)),
            0 <= t@ <= i * 0x1_0000_0000_0000_0000_0000_0000_0000_0000int,
        decreases v@.len() - i,
    {
        let x: u128 = v[i] as u128;
        proof {
            let upto = v@.subrange(0, i + 1);
            assert(upto.drop_last() =~= v@.subrange(0, i as int));
            assert(0 <= x * x <= 0x1_0000_0000_0000_0000_0000_0000_0000_0000int)
                by (nonlinear_arith)
                requires
                    0 <= x <= 0x1_0000_0000_0000_0000,
            ;
        }
        t = t.plus(Wide::product(x, x));
        i = i + 1;
    }
    assert(v@.subrange(0, i as int) =~= v@);
    t
}

/// The scatter of the numbers.
pub fn scattered(v: &[u64]) -> (c: Wide)
    requires
        0 < v@.len() <= MOST,
    ensures
        c@ == scatter(v@),
        0 <= c@ <= scatter_limit(),
{
    let n: u128 = v.len() as u128;
    let sum: u128 = sum_of(v);
    let squares: Wide = square_sum(v);
    proof {
        lemma_scatter(v@);
        lemma_fits(n as int, sum as int, squares@);
        assert(sum * sum >= 0) by (nonlinear_arith);
        assert(squares@ * n == n * squares@) by (nonlinear_arith);
    }
    squares.times(n).minus(Wide::product(sum, sum))
}

/// The root of a scatter, in millionths.
fn scatter_root(c: Wide) -> (r: u128)
    requires
        0 <= c@ <= scatter_limit(),
    ensures
        r == roots::root(1_000_000_000_000 * c@),
        roots::is_root(r as int, 1_000_000_000_000 * c@),
{
    c.times(1_000_000_000_000).root()
}

/// The standard deviation, in millionths.
pub fn std_micro(v: &[u64]) -> (d: u128)
    requires
        v@.len() <= MOST,
    ensures
        d == std_micro_of(v@),
{
    if v.len() == 0 {
        return 0;
    }
    scatter_root(scattered(v)) / (v.len() as u128)
}

/// The standard deviation in parts of the mean, in millionths.
pub fn cv_micro(v: &[u64]) -> (d: u64)
    requires
        v@.len() <= MOST,
    ensures
        d == cv_micro_of(v@),
        d <= 65_536_000_000,
{
    let sum: u128 = sum_of(v);
    if sum == 0 {
        return 0;
    }
    proof {
        if v@.len() == 0 {
            assert(window::total(v@) == 0);
        }
        lemma_scatter(v@);
        lemma_fits(v@.len() as int, sum as int, stats::square_total(v@));
    }
    let c: Wide = scattered(v);
    let r: u128 = scatter_root(c);
    proof {
        let n = v@.len() as int;
        assert(n * (sum * sum) <= 0x1_0000_0000 * (sum * sum)) by (nonlinear_arith)
            requires
                n <= 0x1_0000_0000,
                sum >= 0,
        ;
        assert(r <= 65_536_000_000 * sum) by (nonlinear_arith)
            requires
                r * r <= 1_000_000_000_000 * c@,
                c@ <= 0x1_0000_0000 * (sum * sum),
                sum > 0,
                r >= 0,
        ;
        assert(0 <= r as int / sum as int <= 65_536_000_000) by (nonlinear_arith)
            requires
                0 <= r <= 65_536_000_000 * sum,
                sum > 0,
        ;
    }
    (r / sum) as u64
}

/// `a` over `b`, rounded towards zero.
pub fn divided(a: i128, b: i128) -> (q: i128)
    requires
        b > 0,
        a > i128::MIN,
    ensures
        q == quotient(a as int, b as int),
{
    if a >= 0 {
        a / b
    } else {
        assert(0 <= (-a) as int / b as int <= -a) by (nonlinear_arith)
            requires
                b > 0,
                a < 0,
        ;
        -((-a) / b)
    }
}

/// The size of a deviation, and whether it is below the mean.
fn deviate(n: u128, x: u64, sum: u128) -> (d: (u128, bool))
    requires
        0 < n <= MOST,
        0 <= sum <= sum_limit(),
    ensures
        d.0 <= sum_limit(),
        d.1 ==> d.0 > 0,
        n * x - sum == if d.1 {
            -(d.0 as int)
        } else {
            d.0 as int
        },
{
    assert(0 <= n * x <= sum_limit()) by (nonlinear_arith)
        requires
            0 < n <= 0x1_0000_0000,
            0 <= x <= 0x1_0000_0000_0000_0000,
    ;
    let y: u128 = n * (x as u128);
    if y >= sum {
        (y - sum, false)
    } else {
        (sum - y, true)
    }
}

/// Products of neighbouring deviations above zero, and those below without their sign, each
/// added up.
fn lag_sums(v: &[u64], sum: u128) -> (t: (Wide, Wide))
    requires
        0 < v@.len() <= MOST,
        sum == window::total(v@),
    ensures
        t.0@ == lag_part(v@, v@.len() - 1, 1),
        t.1@ == lag_part(v@, v@.len() - 1, -1),
{
    let n: u128 = v.len() as u128;
    let mut up: Wide = Wide::of(0);
    let mut down: Wide = Wide::of(0);
    let mut i: usize = 1;
    proof {
        lemma_scatter(v@);
        lemma_fits(n as int, sum as int, stats::square_total(v@));
        assert(sum * sum >= 0) by (nonlinear_arith);
        let c = scatter(v@);
        assert(n * c <= lag_limit()) by (nonlinear_arith)
            requires
                0 < n <= 0x1_0000_0000,
                0 <= c <= scatter_limit(),
        ;
    }
    while i < v.len()
        invariant
            1 <= i <= v@.len() <= MOST,
            n == v@.len(),
            sum == window::total(v@),
            0 <= sum <= sum_limit(),
            n * scatter(v@) <= lag_limit(),
            up@ == lag_part(v@, i - 1, 1),
            down@ == lag_part(v@, i - 1, -1),
        decreases v@.len() - i,
    {
        let (x, low): (u128, bool) = deviate(n, v[i - 1], sum);
        let (y, under): (u128, bool) = deviate(n, v[i], sum);
        let p: Wide = Wide::product(x, y);
        proof {
            lemma_lag(v@, i as int);
            let (a, b) = (deviation(v@, i - 1), deviation(v@, i as int));
            assert(low != under ==> a * b == -(x * y)) by (nonlinear_arith)
                requires
                    low ==> a == -x,
                    !low ==> a == x,
                    under ==> b == -y,
                    !under ==> b == y,
            ;
            assert(low == under ==> a * b == x * y) by (nonlinear_arith)
                requires
                    low ==> a == -x,
                    !low ==> a == x,
                    under ==> b == -y,
                    !under ==> b == y,
            ;
            assert(x * y >= 0) by (nonlinear_arith)
                requires
                    x >= 0,
                    y >= 0,
            ;
            assert(1 * (a * b) == a * b && (-1) * (a * b) == -(a * b));
        }
        if low == under {
            up = up.plus(p);
        } else {
            down = down.plus(p);
        }
        i += 1;
    }
    (up, down)
}

/// How strongly each number follows the one before it, in millionths.
pub fn lag_micro(v: &[u64]) -> (a: i64)
    requires
        v@.len() <= MOST,
    ensures
        a == lag_micro_of(v@),
        -2_000_000 <= a <= 2_000_000,
{
    if v.len() < 2 {
        return 0;
    }
    let c: Wide = scattered(v);
    if !Wide::of(0).less(c) {
        return 0;
    }
    let sum: u128 = sum_of(v);
    let (up, down): (Wide, Wide) = lag_sums(v, sum);
    let n: u128 = v.len() as u128;
    let fall: bool = up.less(down);
    proof {
        lemma_lag(v@, v@.len() - 1);
        lemma_lag_fits(n as int, c@, up@ - down@);
        let (b, k) = (c@, n - 1);
        assert(b * k == k * b) by (nonlinear_arith);
    }
    let off: Wide = if fall {
        down.minus(up)
    } else {
        up.minus(down)
    };
    let q: i64 = off.times(1_000_000).over(c.times(n - 1)) as i64;
    if fall {
        -q
    } else {
        q
    }
}

proof fn lemma_lag_fits(n: int, c: int, lag: int)
    requires
        2 <= n <= MOST,
        0 < c <= scatter_limit(),
        -(n * c) <= lag <= n * c,
    ensures
        0 < (n - 1) * c <= lag_limit(),
        -lag_limit() <= lag <= lag_limit(),
        -2_000_000 <= quotient(1_000_000 * lag, (n - 1) * c) <= 2_000_000,
{
    let below = (n - 1) * c;
    assert(0 < below <= lag_limit()) by (nonlinear_arith)
        requires
            2 <= n <= 0x1_0000_0000,
            0 < c <= scatter_limit(),
            below == (n - 1) * c,
    ;
    assert(n * c <= 2 * below && n * c <= lag_limit()) by (nonlinear_arith)
        requires
            2 <= n <= 0x1_0000_0000,
            0 < c <= scatter_limit(),
            below == (n - 1) * c,
    ;
    let m = if lag >= 0 {
        lag
    } else {
        -lag
    };
    assert(0 <= (1_000_000 * m) / below <= 2_000_000) by (nonlinear_arith)
        requires
            0 <= m <= 2 * below,
            below > 0,
    ;
}

/// The size of a number's score in millionths, and whether it is below the mean.
fn score(v: &[u64], i: usize, sum: u128, r: u128) -> (z: (u128, bool))
    requires
        i < v@.len() <= MOST,
        scatter(v@) > 0,
        sum == window::total(v@),
        0 <= sum <= sum_limit(),
        r == roots::root(1_000_000_000_000 * scatter(v@)),
    ensures
        score_micro(v@, i as int) == if z.1 {
            -(z.0 as int)
        } else {
            z.0 as int
        },
        z.0 <= TOP_SCORE,
{
    let (d, low): (u128, bool) = deviate(v.len() as u128, v[i], sum);
    proof {
        lemma_score(v@, i as int);
        assert(d * 1_000_000_000_000 == 1_000_000_000_000 * d);
    }
    let z: u128 = Wide::product(d, 1_000_000_000_000).over(Wide::of(r));
    (z, low)
}

/// Cubes of scores, by sign.
proof fn lemma_cube(s: Seq<u64>, k: int)
    requires
        0 <= k <= s.len() <= MOST,
        scatter(s) > 0,
    ensures
        0 <= cube_part(s, k, 1) <= k * cube_limit(),
        0 <= cube_part(s, k, -1) <= k * cube_limit(),
        cube_part(s, k, 1) - cube_part(s, k, -1) == cube_total(s, k),
    decreases k,
{
    if k > 0 {
        lemma_cube(s, k - 1);
        lemma_score(s, k - 1);
        let z = score_micro(s, k - 1);
        lemma_powers(z);
        assert(1 * (z * z * z) == z * z * z && (-1) * (z * z * z) == -(z * z * z));
        assert(k * cube_limit() == (k - 1) * cube_limit() + cube_limit()) by (nonlinear_arith);
    } else {
        assert(0 * cube_limit() == 0);
    }
}

/// The cube and the fourth power of the largest score.
pub open spec fn cube_limit() -> int {
    2_251_799_813_685_248_000_000_000_000_000_000int
}

pub open spec fn fourth_limit() -> int {
    295_147_905_179_352_825_856_000_000_000_000_000_000_000_000int
}

/// Powers of a score.
proof fn lemma_powers(z: int)
    requires
        -TOP_SCORE <= z <= TOP_SCORE,
    ensures
        0 <= z * z <= 17_179_869_184_000_000_000_000,
        -cube_limit() <= z * z * z <= cube_limit(),
        0 <= (z * z) * (z * z) <= fourth_limit(),
{
    assert(0 <= z * z <= 17_179_869_184_000_000_000_000) by (nonlinear_arith)
        requires
            -131_072_000_000 <= z <= 131_072_000_000,
    ;
    let q = z * z;
    assert(-cube_limit() <= q * z <= cube_limit()) by (nonlinear_arith)
        requires
            0 <= q <= 17_179_869_184_000_000_000_000,
            -131_072_000_000 <= z <= 131_072_000_000,
    ;
    assert(0 <= q * q <= fourth_limit()) by (nonlinear_arith)
        requires
            0 <= q <= 17_179_869_184_000_000_000_000,
    ;
}

/// The cubes of the scores, added up by sign.
fn cube_sums(v: &[u64], sum: u128, r: u128) -> (t: (Wide, Wide))
    requires
        v@.len() <= MOST,
        scatter(v@) > 0,
        sum == window::total(v@),
        0 <= sum <= sum_limit(),
        r == roots::root(1_000_000_000_000 * scatter(v@)),
    ensures
        t.0@ == cube_part(v@, v@.len() as int, 1),
        t.1@ == cube_part(v@, v@.len() as int, -1),
{
    let mut up: Wide = Wide::of(0);
    let mut down: Wide = Wide::of(0);
    let mut i: usize = 0;
    while i < v.len()
        invariant
            i <= v@.len() <= MOST,
            scatter(v@) > 0,
            sum == window::total(v@),
            0 <= sum <= sum_limit(),
            r == roots::root(1_000_000_000_000 * scatter(v@)),
            up@ == cube_part(v@, i as int, 1),
            down@ == cube_part(v@, i as int, -1),
        decreases v@.len() - i,
    {
        let (z, low): (u128, bool) = score(v, i, sum, r);
        proof {
            lemma_cube(v@, i + 1);
            lemma_powers(z as int);
            let x = score_micro(v@, i as int);
            assert(x * x * x == if low {
                -(z * z * z)
            } else {
                z * z * z
            }) by (nonlinear_arith)
                requires
                    low ==> x == -z,
                    !low ==> x == z,
            ;
            assert(z * z * z >= 0) by (nonlinear_arith)
                requires
                    z >= 0,
            ;
            assert(1 * (x * x * x) == x * x * x && (-1) * (x * x * x) == -(x * x * x));
            let k = i + 1;
            assert(k * cube_limit() < wide::limit()) by (nonlinear_arith)
                requires
                    0 <= k <= 0x1_0000_0000,
            ;
        }
        let cube: Wide = Wide::of(z * z * z);
        if low {
            down = down.plus(cube);
        } else {
            up = up.plus(cube);
        }
        i += 1;
    }
    (up, down)
}

/// The skewness of a sample, in millionths.
pub fn skewness_micro(v: &[u64]) -> (k: i128)
    requires
        v@.len() <= MOST,
    ensures
        k == skewness_micro_of(v@),
{
    if v.len() < 3 {
        return 0;
    }
    let c: Wide = scattered(v);
    if !Wide::of(0).less(c) {
        return 0;
    }
    let sum: u128 = sum_of(v);
    proof {
        lemma_scatter(v@);
        lemma_fits(v@.len() as int, sum as int, stats::square_total(v@));
    }
    let r: u128 = scatter_root(c);
    let (up, down): (Wide, Wide) = cube_sums(v, sum, r);
    let n: u128 = v.len() as u128;
    let fall: bool = up.less(down);
    let off: Wide = if fall {
        down.minus(up)
    } else {
        up.minus(down)
    };
    proof {
        lemma_cube(v@, n as int);
        lemma_skew_fits(n as int, off@);
        let (t, m) = (cube_total(v@, n as int), off@);
        assert(n * m == m * n) by (nonlinear_arith);
        assert(n * t == if fall {
            -(n * m)
        } else {
            n * m
        }) by (nonlinear_arith)
            requires
                fall ==> t == -m,
                !fall ==> t == m,
        ;
        assert(fall ==> n * m > 0) by (nonlinear_arith)
            requires
                fall ==> m > 0,
                n > 0,
        ;
    }
    let q: i128 = off.times(n).over(Wide::of(1_000_000_000_000 * ((n - 1) * (n - 2)))) as i128;
    if fall {
        -q
    } else {
        q
    }
}

proof fn lemma_skew_fits(n: int, m: int)
    requires
        3 <= n <= MOST,
        0 <= m <= n * cube_limit(),
    ensures
        0 <= n * m < wide::limit(),
        2 <= (n - 1) * (n - 2) <= 0x1_0000_0000_0000_0000,
        0 <= (n * m) / (1_000_000_000_000 * ((n - 1) * (n - 2)))
            <= 11_258_999_068_426_240_000_000,
{
    let p = (n - 1) * (n - 2);
    assert(0 <= n * m <= (n * n) * cube_limit()) by (nonlinear_arith)
        requires
            0 <= m <= n * cube_limit(),
            n >= 0,
    ;
    assert(n * n <= 5 * p && 2 <= p <= 0x1_0000_0000_0000_0000 && n * n
        <= 0x1_0000_0000_0000_0000) by (nonlinear_arith)
        requires
            3 <= n <= 0x1_0000_0000,
            p == (n - 1) * (n - 2),
    ;
    assert(n * m <= (5 * p) * cube_limit() && n * m <= 0x1_0000_0000_0000_0000 * cube_limit())
        by (nonlinear_arith)
        requires
            n * m <= (n * n) * cube_limit(),
            n * n <= 5 * p,
            n * n <= 0x1_0000_0000_0000_0000,
            cube_limit() >= 0,
    ;
    assert(0 <= (n * m) / (1_000_000_000_000 * p) <= 11_258_999_068_426_240_000_000)
        by (nonlinear_arith)
        requires
            0 <= n * m <= 11_258_999_068_426_240_000_000 * (1_000_000_000_000 * p),
            p >= 1,
    ;
}

/// The kurtosis, in millionths.
pub fn kurtosis_micro(v: &[u64]) -> (k: u128)
    requires
        v@.len() <= MOST,
    ensures
        k == kurtosis_micro_of(v@),
        k <= 295_147_905_179_352_825_856_000_000,
{
    if v.len() < 4 {
        return 3_000_000;
    }
    let c: Wide = scattered(v);
    if !Wide::of(0).less(c) {
        return 3_000_000;
    }
    let sum: u128 = sum_of(v);
    proof {
        lemma_scatter(v@);
        lemma_fits(v@.len() as int, sum as int, stats::square_total(v@));
    }
    let r: u128 = scatter_root(c);
    let mut t: Wide = Wide::of(0);
    let mut i: usize = 0;
    while i < v.len()
        invariant
            i <= v@.len() <= MOST,
            scatter(v@) > 0,
            sum == window::total(v@),
            0 <= sum <= sum_limit(),
            r == roots::root(1_000_000_000_000 * scatter(v@)),
            t@ == fourth_total(v@, i as int),
            0 <= t@ <= i * fourth_limit(),
        decreases v@.len() - i,
    {
        let (z, low): (u128, bool) = score(v, i, sum, r);
        proof {
            lemma_powers(z as int);
            let x = score_micro(v@, i as int);
            assert(x * x == z * z) by (nonlinear_arith)
                requires
                    x == z || x == -z,
            ;
            let k = i + 1;
            assert(k * fourth_limit() == i * fourth_limit() + fourth_limit()) by (nonlinear_arith)
                requires
                    k == i + 1,
            ;
            assert(k * fourth_limit() < wide::limit()) by (nonlinear_arith)
                requires
                    0 <= k <= 0x1_0000_0000,
            ;
        }
        t = t.plus(Wide::product(z * z, z * z));
        i += 1;
    }
    let n: u128 = v.len() as u128;
    assert(0 <= t@ / (1_000_000_000_000_000_000 * n) <= 295_147_905_179_352_825_856_000_000)
        by (nonlinear_arith)
        requires
            0 <= t@ <= n * fourth_limit(),
            n >= 1,
    ;
    t.over(Wide::of(1_000_000_000_000_000_000 * n))
}

/// How far the number of runs is from the expected one, in deviations, in millionths.
pub fn run_micro(r: &RunCounts) -> (z: u128)
    requires
        r.above + r.below <= MOST,
        r.runs <= r.above + r.below,
    ensures
        z == run_micro_of(r.runs as int, r.above as int, r.below as int),
{
    if r.above == 0 || r.below == 0 {
        return 0;
    }
    let (a, b): (u128, u128) = (r.above as u128, r.below as u128);
    let n: u128 = a + b;
    proof {
        assert(a >= 1 && b >= 1 && a * b <= 0x1_0000_0000_0000_0000 && 2 * (a * b) >= a + b)
            by (nonlinear_arith)
            requires
                1 <= a <= 0x1_0000_0000,
                1 <= b <= 0x1_0000_0000,
        ;
    }
    let pairs: u128 = 2 * (a * b);
    if pairs == n {
        return 0;
    }
    let runs: u128 = r.runs as u128;
    assert(0 <= runs * n <= 0x1_0000_0000_0000_0000) by (nonlinear_arith)
        requires
            0 <= runs <= n <= 0x1_0000_0000,
    ;
    let (made, due): (u128, u128) = (runs * n, pairs + n);
    let off: u128 = if made >= due {
        made - due
    } else {
        due - made
    };
    proof {
        let exact = runs * n - pairs - n;
        assert(off * off == exact * exact) by (nonlinear_arith)
            requires
                off == exact || off == -exact,
        ;
        let q = off * off;
        assert(0 <= q <= 0x1000_0000_0000_0000_0000 * 0x1000_0000_0000_0000_0000)
            by (nonlinear_arith)
            requires
                q == off * off,
                0 <= off <= 0x1000_0000_0000_0000_0000,
        ;
        assert(0 <= q * (n - 1) <= 0x1_0000_0000 * q) by (nonlinear_arith)
            requires
                0 <= q,
                2 <= n <= 0x1_0000_0000,
        ;
        assert(0 < pairs * (pairs - n)) by (nonlinear_arith)
            requires
                n < pairs,
                n >= 0,
        ;
    }
    let above: Wide = Wide::product(off, off).times(n - 1).times(1_000_000_000_000);
    let below: Wide = Wide::product(pairs, pairs - n);
    above.divide(below).0.root()
}

/// The mean of numbers that are all the same is that number, and so is their total over their
/// count.
pub proof fn law_equal_numbers_are_their_mean(s: Seq<u64>, x: u64)
    requires
        s.len() > 0,
        forall|i: int| 0 <= i < s.len() ==> #[trigger] s[i] == x,
    ensures
        window::mean_micro_of(s) == 1_000_000 * x,
        window::total(s) == s.len() * x,
{
    lemma_equal_sums(s, x);
    let (n, y) = (s.len() as int, x as int);
    assert(1_000_000 * (n * y) / n == 1_000_000 * y) by (nonlinear_arith)
        requires
            n > 0,
    ;
}

/// The measures of a pair: a deviation of half of how far they are apart, and each as far from
/// the mean, on the other side, as the one before.
pub proof fn law_pairs_are_half_apart(a: u64, b: u64)
    requires
        a != b,
    ensures
        ({
            let s = seq![a, b];
            let apart = if a < b {
                b - a
            } else {
                a - b
            };
            &&& std_micro_of(s) == 500_000 * apart
            &&& cv_micro_of(s) * (a + b) <= 1_000_000 * apart < (cv_micro_of(s) + 1) * (a + b)
            &&& lag_micro_of(s) == -1_000_000
        }),
{
    let s = seq![a, b];
    let (x, y) = (a as int, b as int);
    let apart = if a < b {
        y - x
    } else {
        x - y
    };
    lemma_pair(s);
    let sq = apart * apart;
    assert(2 * (x * x + y * y) - (x + y) * (x + y) == (x - y) * (x - y)) by (nonlinear_arith);
    assert((x - y) * (x - y) == (y - x) * (y - x)) by (nonlinear_arith);
    assert(scatter(s) == sq);
    lemma_exact_root(1_000_000 * apart);
    assert((1_000_000 * apart) * (1_000_000 * apart) == 1_000_000_000_000 * sq) by (nonlinear_arith)
        requires
            sq == apart * apart,
    ;
    let r = 1_000_000 * apart;
    assert(roots::root(1_000_000_000_000 * scatter(s)) == r);
    let w = x + y;
    let q = r / w;
    assert(q * w <= r < (q + 1) * w) by (nonlinear_arith)
        requires
            w > 0,
            r >= 0,
            q == r / w,
    ;
    assert(deviation(s, 0) == x - y);
    assert(deviation(s, 1) == y - x);
    assert((x - y) * (y - x) == -sq) by (nonlinear_arith)
        requires
            sq == (x - y) * (x - y),
    ;
    assert(lag_total(s, 0) == 0);
    assert(lag_total(s, 1) == -sq);
    assert(sq > 0) by (nonlinear_arith)
        requires
            sq == apart * apart,
            apart > 0,
    ;
    assert((1_000_000 * sq) / sq == 1_000_000) by (nonlinear_arith)
        requires
            sq > 0,
    ;
    assert((s.len() - 1) * scatter(s) == sq) by (nonlinear_arith)
        requires
            s.len() == 2,
            scatter(s) == sq,
    ;
}

proof fn lemma_pair(s: Seq<u64>)
    requires
        s.len() == 2,
    ensures
        window::total(s) == s[0] + s[1],
        stats::square_total(s) == s[0] * s[0] + s[1] * s[1],
{
    let t = s.drop_last();
    assert(t.drop_last() =~= Seq::<u64>::empty());
    assert(window::total(t.drop_last()) == 0);
    assert(t.last() == s[0]);
    assert(window::total(t) == s[0]);
    assert(stats::square_total(t.drop_last()) == 0);
    assert(stats::square_total(t) == s[0] * s[0]);
}

proof fn lemma_exact_root(r: int)
    requires
        r >= 0,
    ensures
        roots::root(r * r) == r,
{
    assert(r * r < (r + 1) * (r + 1)) by (nonlinear_arith)
        requires
            r >= 0,
    ;
    roots::law_root_is_unique(r, r * r);
}

/// Two numbers in turn are as flat as numbers can be: their kurtosis is one, and they are not
/// skewed.
pub proof fn law_numbers_in_turn_are_flat(a: u64, b: u64)
    requires
        a != b,
    ensures
        kurtosis_micro_of(seq![a, b, a, b]) == 1_000_000,
        skewness_micro_of(seq![a, b, a, b]) == 0,
        std_micro_of(seq![a, b, a, b]) == std_micro_of(seq![a, b]),
{
    let s = seq![a, b, a, b];
    let (x, y) = (a as int, b as int);
    let apart = if a < b {
        y - x
    } else {
        x - y
    };
    law_pairs_are_half_apart(a, b);
    let p = s.drop_last().drop_last();
    assert(p =~= seq![a, b]);
    lemma_pair(p);
    assert(s.drop_last().last() == a);
    assert(window::total(s.drop_last()) == window::total(p) + x);
    assert(window::total(s) == 2 * x + 2 * y);
    assert(stats::square_total(s.drop_last()) == stats::square_total(p) + x * x);
    assert(stats::square_total(s) == 2 * (x * x) + 2 * (y * y));
    let sq = apart * apart;
    assert(4 * (2 * (x * x) + 2 * (y * y)) - (2 * x + 2 * y) * (2 * x + 2 * y) == 4 * ((x - y) * (x
        - y))) by (nonlinear_arith);
    assert((x - y) * (x - y) == (y - x) * (y - x)) by (nonlinear_arith);
    assert(scatter(s) == 4 * sq);
    let r = 2_000_000 * apart;
    lemma_exact_root(r);
    assert(r * r == 1_000_000_000_000 * (4 * sq)) by (nonlinear_arith)
        requires
            r == 2_000_000 * apart,
            sq == apart * apart,
    ;
    assert(roots::root(1_000_000_000_000 * scatter(s)) == r);
    assert(sq > 0) by (nonlinear_arith)
        requires
            sq == apart * apart,
            apart > 0,
    ;
    let up = 2_000_000_000_000 * apart;
    assert(up / r == 1_000_000) by (nonlinear_arith)
        requires
            r == 2_000_000 * apart,
            up == 2_000_000_000_000 * apart,
            apart > 0,
    ;
    let z = if a < b {
        -1_000_000int
    } else {
        1_000_000int
    };
    assert(deviation(s, 0) == 2 * x - 2 * y);
    assert(deviation(s, 1) == 2 * y - 2 * x);
    assert(deviation(s, 2) == 2 * x - 2 * y);
    assert(deviation(s, 3) == 2 * y - 2 * x);
    assert(score_micro(s, 0) == z);
    assert(score_micro(s, 1) == -z);
    assert(score_micro(s, 2) == z);
    assert(score_micro(s, 3) == -z);
    assert((-z) * (-z) * (-z) == -(z * z * z)) by (nonlinear_arith);
    assert((-z) * (-z) == z * z) by (nonlinear_arith);
    assert(z * z == 1_000_000_000_000) by (nonlinear_arith)
        requires
            z == 1_000_000 || z == -1_000_000,
    ;
    assert((z * z) * (z * z) == 1_000_000_000_000_000_000_000_000) by (nonlinear_arith)
        requires
            z * z == 1_000_000_000_000,
    ;
    assert(cube_total(s, 0) == 0);
    assert(cube_total(s, 1) == z * z * z);
    assert(cube_total(s, 2) == 0);
    assert(cube_total(s, 3) == z * z * z);
    assert(cube_total(s, 4) == 0);
    assert(fourth_total(s, 0) == 0);
    assert(fourth_total(s, 1) == (z * z) * (z * z));
    assert(fourth_total(s, 2) == 2 * ((z * z) * (z * z)));
    assert(fourth_total(s, 3) == 3 * ((z * z) * (z * z)));
    assert(fourth_total(s, 4) == 4_000_000_000_000_000_000_000_000);
    assert(4 * cube_total(s, 4) == 0);
    assert(scatter(s) != 0);
    let n = s.len() as int;
    assert(n == 4);
    assert(kurtosis_micro_of(s) == fourth_total(s, n) / (1_000_000_000_000_000_000 * n));
    assert(4_000_000_000_000_000_000_000_000int / 4_000_000_000_000_000_000int == 1_000_000);
    let down = 1_000_000_000_000 * ((n - 1) * (n - 2));
    assert((n - 1) * (n - 2) == 6) by (nonlinear_arith)
        requires
            n == 4,
    ;
    assert(n * cube_total(s, n) == 0) by (nonlinear_arith)
        requires
            cube_total(s, n) == 0,
    ;
    assert(0int / down == 0) by (nonlinear_arith)
        requires
            down == 6_000_000_000_000,
    ;
    assert(r / 4 == 500_000 * apart);
}

/// Where there are just as many runs as chance would make, they are not off at all; they are off
/// alike whichever side is called above, and the farther off the more they are too many or few.
pub proof fn law_runs_are_off_from_chance(runs: int, more: int, above: int, below: int)
    requires
        above > 0,
        below > 0,
        above + below > 2,
    ensures
        runs * (above + below) == 2 * (above * below) + above + below ==> run_micro_of(
            runs,
            above,
            below,
        ) == 0,
        run_micro_of(runs, above, below) == run_micro_of(runs, below, above),
        runs <= more && runs * (above + below) >= 2 * (above * below) + above + below
            ==> run_micro_of(runs, above, below) <= run_micro_of(more, above, below),
        more <= runs && runs * (above + below) <= 2 * (above * below) + above + below
            ==> run_micro_of(runs, above, below) <= run_micro_of(more, above, below),
{
    let n = above + below;
    let pairs = 2 * (above * below);
    assert(above * below == below * above) by (nonlinear_arith);
    assert(above * below >= n - 1) by (nonlinear_arith)
        requires
            above > 0,
            below > 0,
            n == above + below,
    ;
    assert(pairs > n);
    let base = pairs * (pairs - n);
    assert(base > 0) by (nonlinear_arith)
        requires
            pairs > n,
            n > 0,
            base == pairs * (pairs - n),
    ;
    let (off, far) = (runs * n - pairs - n, more * n - pairs - n);
    assert(runs <= more ==> runs * n <= more * n) by (nonlinear_arith)
        requires
            n > 0,
    ;
    assert(more <= runs ==> more * n <= runs * n) by (nonlinear_arith)
        requires
            n > 0,
    ;
    let (p, q) = (off * off, far * far);
    assert(p >= 0 && q >= 0) by (nonlinear_arith)
        requires
            p == off * off,
            q == far * far,
    ;
    assert(off == 0 ==> p == 0) by (nonlinear_arith)
        requires
            p == off * off,
    ;
    assert((0 <= off <= far || far <= off <= 0) ==> p <= q) by (nonlinear_arith)
        requires
            p == off * off,
            q == far * far,
    ;
    let (u, v) = (1_000_000_000_000 * (p * (n - 1)), 1_000_000_000_000 * (q * (n - 1)));
    assert(0 <= p * (n - 1) && 0 <= q * (n - 1) && (p <= q ==> p * (n - 1) <= q * (n - 1)) && (p == 0
        ==> p * (n - 1) == 0)) by (nonlinear_arith)
        requires
            p >= 0,
            q >= 0,
            n > 2,
    ;
    assert(0 <= u / base && 0 <= v / base && (u <= v ==> u / base <= v / base) && (u == 0 ==> u
        / base == 0)) by (nonlinear_arith)
        requires
            base > 0,
            u >= 0,
            v >= 0,
    ;
    roots::lemma_root_exists(u / base);
    roots::lemma_root_exists(v / base);
    if u <= v {
        roots::law_roots_ascend(
            u / base,
            v / base,
            roots::root(u / base),
            roots::root(v / base),
        );
    }
    roots::law_root_is_unique(0, 0);
}

/// Two equal numbers and a larger one are skewed upwards, by about 3.18 however far apart they
/// are.
pub proof fn law_a_larger_number_skews_upwards(a: u64, b: u64)
    requires
        a < b,
    ensures
        3_181_974 <= skewness_micro_of(seq![a, a, b]) <= 3_181_987,
{
    let s = seq![a, a, b];
    let (x, y) = (a as int, b as int);
    let d = y - x;
    let p = s.drop_last();
    lemma_pair(p);
    assert(p[0] == a && p[1] == a);
    assert(s.last() == b);
    assert(window::total(s) == 2 * x + y);
    assert(stats::square_total(s) == stats::square_total(p) + y * y);
    assert(stats::square_total(s) == 2 * (x * x) + y * y);
    let sq = d * d;
    assert(3 * (2 * (x * x) + y * y) - (2 * x + y) * (2 * x + y) == 2 * ((y - x) * (y - x)))
        by (nonlinear_arith);
    assert(scatter(s) == 2 * sq);
    let big = 2_000_000_000_000 * sq;
    assert(1_000_000_000_000 * scatter(s) == big);
    assert(sq > 0) by (nonlinear_arith)
        requires
            sq == d * d,
            d > 0,
    ;
    roots::lemma_root_exists(big);
    let r = roots::root(big);
    assert(1_414_213 * d <= r < 1_414_214 * d) by (nonlinear_arith)
        requires
            r >= 0,
            d > 0,
            sq == d * d,
            big == 2_000_000_000_000 * sq,
            r * r <= big < (r + 1) * (r + 1),
    ;
    let (one, two) = (1_000_000_000_000 * d, 2_000_000_000_000 * d);
    let (u, v) = (one / r, two / r);
    assert(707_106 <= u <= 707_107) by (nonlinear_arith)
        requires
            d > 0,
            1_414_213 * d <= r < 1_414_214 * d,
            one == 1_000_000_000_000 * d,
            u == one / r,
    ;
    assert(1_414_213 <= v <= 1_414_214) by (nonlinear_arith)
        requires
            d > 0,
            1_414_213 * d <= r < 1_414_214 * d,
            two == 2_000_000_000_000 * d,
            v == two / r,
    ;
    assert(deviation(s, 0) == -d && deviation(s, 1) == -d && deviation(s, 2) == 2 * d);
    assert(score_micro(s, 0) == -u && score_micro(s, 1) == -u && score_micro(s, 2) == v);
    let (cu, cv) = (u * u * u, v * v * v);
    assert((-u) * (-u) * (-u) == -cu) by (nonlinear_arith)
        requires
            cu == u * u * u,
    ;
    assert(353_552_218_814_747_016 <= cu <= 353_553_718_813_554_043) by (nonlinear_arith)
        requires
            cu == u * u * u,
            u == 707_106 || u == 707_107,
    ;
    assert(2_828_423_750_508_961_597 <= cv <= 2_828_429_750_508_432_344) by (nonlinear_arith)
        requires
            cv == v * v * v,
            v == 1_414_213 || v == 1_414_214,
    ;
    assert(cube_total(s, 0) == 0);
    assert(cube_total(s, 1) == -cu);
    assert(cube_total(s, 2) == -2 * cu);
    assert(cube_total(s, 3) == cv - 2 * cu);
    let n = s.len() as int;
    assert((n - 1) * (n - 2) == 2) by (nonlinear_arith)
        requires
            n == 3,
    ;
    assert(n * cube_total(s, n) == 3 * (cv - 2 * cu)) by (nonlinear_arith)
        requires
            n == 3,
            cube_total(s, n) == cv - 2 * cu,
    ;
    assert(skewness_micro_of(s) == (3 * (cv - 2 * cu)) / 2_000_000_000_000);
}

} // verus!
