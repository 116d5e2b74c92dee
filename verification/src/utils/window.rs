//! A window over the most recent numbers of a series.

use std::collections::VecDeque;

use crate::utils::stats::{percentile, sorted};
#[allow(unused_imports)]
use crate::utils::stats;
use vstd::prelude::*;

verus! {

/// `s` with `x` behind it, and without its first element where it held `limit` already.
pub open spec fn slid<T>(s: Seq<T>, x: T, limit: int) -> Seq<T> {
    if s.len() >= limit && s.len() > 0 {
        s.subrange(1, s.len() as int).push(x)
    } else {
        s.push(x)
    }
}

/// The numbers of `s`, added up.
pub open spec fn total(s: Seq<u64>) -> int
    decreases s.len(),
{
    if s.len() == 0 {
        0
    } else {
        total(s.drop_last()) + s.last()
    }
}

/// The mean of `s` in millionths, rounded down; zero where there is nothing.
pub open spec fn mean_micro_of(s: Seq<u64>) -> int {
    if s.len() == 0 {
        0
    } else {
        1_000_000 * total(s) / s.len() as int
    }
}

/// A total lies between nothing and the largest number times the count.
pub proof fn lemma_total_bounds(s: Seq<u64>)
    ensures
        0 <= total(s) <= s.len() * 0xFFFF_FFFF_FFFF_FFFF,
    decreases s.len(),
{
    if s.len() > 0 {
        lemma_total_bounds(s.drop_last());
    }
}

/// A fraction scaled by a million, by whole part and rest.
proof fn lemma_scaled_div(sum: int, n: int)
    requires
        sum >= 0,
        n > 0,
    ensures
        1_000_000 * (sum / n) + 1_000_000 * (sum % n) / n == 1_000_000 * sum / n,
{
    let q = sum / n;
    let r = sum % n;
    vstd::arithmetic::div_mod::lemma_fundamental_div_mod(sum, n);
    assert(1_000_000 * sum == n * (1_000_000 * q) + 1_000_000 * r) by (nonlinear_arith)
        requires
            sum == n * q + r,
    ;
    vstd::arithmetic::div_mod::lemma_hoist_over_denominator(1_000_000 * r, 1_000_000 * q, n as nat);
    assert(n * (1_000_000 * q) == (1_000_000 * q) * n) by (nonlinear_arith);
}

/// The mean of so many numbers that add up to `sum`, in millionths.
pub fn mean_of(sum: u128, n: usize) -> (m: u128)
    requires
        n > 0,
        sum <= n * 0xFFFF_FFFF_FFFF_FFFF,
    ensures
        m == 1_000_000 * (sum as int) / n as int,
{
    let d: u128 = n as u128;
    let q: u128 = sum / d;
    let r: u128 = sum % d;
    proof {
        lemma_scaled_div(sum as int, n as int);
        assert(q <= 0xFFFF_FFFF_FFFF_FFFF) by (nonlinear_arith)
            requires
                q == sum as int / n as int,
                sum <= n * 0xFFFF_FFFF_FFFF_FFFF,
                n > 0,
        ;
        assert(1_000_000 * (r as int) / (d as int) < 1_000_000) by (nonlinear_arith)
            requires
                0 <= r < d,
        ;
    }
    1_000_000 * q + 1_000_000 * r / d
}

/// The numbers of `s`, added up.
pub fn sum_of(s: &[u64]) -> (t: u128)
    ensures
        t == total(s@),
{
    let mut t: u128 = 0;
    let mut i: usize = 0;
    assert(s@.subrange(0, 0) =~= Seq::empty());
    while i < s.len()
        invariant
            i <= s@.len(),
            t == total(s@.subrange(0, i as int)),
            t <= i * 0xFFFF_FFFF_FFFF_FFFF,
        decreases s@.len() - i,
    {
        proof {
            let upto = s@.subrange(0, i + 1);
            assert(upto.drop_last() =~= s@.subrange(0, i as int));
        }
        t = t + s[i] as u128;
        i = i + 1;
    }
    assert(s@.subrange(0, i as int) =~= s@);
    t
}

/// The most recent numbers, oldest first.
#[derive(Debug)]
pub struct SlidingWindow {
    pub values: VecDeque<u64>,
    pub limit: usize,
}

impl View for SlidingWindow {
    type V = Seq<u64>;

    open spec fn view(&self) -> Seq<u64> {
        self.values@
    }
}

impl SlidingWindow {
    /// No more than the limit is held; a window of no size still holds the last number.
    pub open spec fn wf(&self) -> bool {
        self@.len() <= if self.limit < 1 {
            1
        } else {
            self.limit as int
        }
    }

    pub fn new(limit: usize) -> (w: Self)
        ensures
            w.wf(),
            w@ == Seq::<u64>::empty(),
            w.limit == limit,
    {
        SlidingWindow { values: VecDeque::new(), limit }
    }

    pub fn observe(&mut self, x: u64)
        requires
            old(self).wf(),
        ensures
            final(self).wf(),
            final(self)@ == slid(old(self)@, x, old(self).limit as int),
            final(self).limit == old(self).limit,
    {
        if self.values.len() >= self.limit {
            self.values.pop_front();
        }
        self.values.push_back(x);
        assert(self@ =~= slid(old(self)@, x, old(self).limit as int));
    }

    pub fn clear(&mut self)
        ensures
            final(self).wf(),
            final(self)@ == Seq::<u64>::empty(),
            final(self).limit == old(self).limit,
    {
        self.values.clear();
    }

    pub fn len(&self) -> (n: usize)
        ensures
            n == self@.len(),
    {
        self.values.len()
    }

    /// The numbers, oldest first.
    pub fn to_vec(&self) -> (v: Vec<u64>)
        ensures
            v@ == self@,
    {
        let mut v: Vec<u64> = Vec::new();
        let mut i: usize = 0;
        while i < self.values.len()
            invariant
                i <= self@.len(),
                v@ == self@.subrange(0, i as int),
            decreases self@.len() - i,
        {
            v.push(self.values[i]);
            i = i + 1;
            assert(v@ =~= self@.subrange(0, i as int));
        }
        assert(v@ =~= self@);
        v
    }

    /// The mean, in millionths.
    pub fn mean_micro(&self) -> (m: u128)
        ensures
            m == mean_micro_of(self@),
    {
        let v = self.to_vec();
        if v.len() == 0 {
            return 0;
        }
        let sum: u128 = sum_of(v.as_slice());
        proof {
            lemma_total_bounds(v@);
        }
        mean_of(sum, v.len())
    }

    /// The value a `percent` part of the way through the numbers in order, in hundredths.
    pub fn percentile(&self, percent: u64) -> (v: u128)
        requires
            percent <= 100,
        ensures
            v == stats::percentile_of(stats::in_order(self@), percent as int),
    {
        let all = self.to_vec();
        let t = sorted(all.as_slice());
        proof {
            stats::lemma_in_order(t@, all@);
        }
        percentile(t.as_slice(), percent)
    }
}

/// A window takes a number in at its end, loses at most its oldest one, and never outgrows its
/// limit.
pub proof fn law_windows_slide<T>(s: Seq<T>, x: T, limit: int)
    requires
        s.len() <= limit,
        limit > 0,
    ensures
        slid(s, x, limit).len() <= limit,
        slid(s, x, limit).last() == x,
        s.len() < limit ==> slid(s, x, limit) == s.push(x),
        s.len() == limit ==> {
            &&& slid(s, x, limit).len() == limit
            &&& forall|i: int| 0 <= i < limit - 1 ==> #[trigger] slid(s, x, limit)[i] == s[i + 1]
        },
{
}

/// The total of a list lies between so many times its least and its greatest number.
pub proof fn lemma_total_between(s: Seq<u64>, low: int, high: int)
    requires
        forall|i: int| 0 <= i < s.len() ==> low <= #[trigger] s[i] <= high,
    ensures
        s.len() * low <= total(s) <= s.len() * high,
    decreases s.len(),
{
    if s.len() > 0 {
        let t = s.drop_last();
        assert forall|i: int| 0 <= i < t.len() implies low <= #[trigger] t[i] <= high by {
            assert(t[i] == s[i]);
        }
        lemma_total_between(t, low, high);
        let n = t.len() as int;
        assert((n + 1) * low == n * low + low) by (nonlinear_arith);
        assert((n + 1) * high == n * high + high) by (nonlinear_arith);
        assert(s.last() == s[s.len() - 1]);
    }
}

/// A mean lies, in millionths, among the numbers that it is the mean of.
pub proof fn law_mean_lies_among_the_numbers(s: Seq<u64>, low: int, high: int)
    requires
        s.len() > 0,
        forall|i: int| 0 <= i < s.len() ==> low <= #[trigger] s[i] <= high,
    ensures
        1_000_000 * low <= mean_micro_of(s) <= 1_000_000 * high,
{
    lemma_total_between(s, low, high);
    let n = s.len() as int;
    let sum = 1_000_000 * total(s);
    let (a, b) = (1_000_000 * low, 1_000_000 * high);
    assert(n * a == 1_000_000 * (n * low)) by (nonlinear_arith)
        requires
            a == 1_000_000 * low,
    ;
    assert(n * b == 1_000_000 * (n * high)) by (nonlinear_arith)
        requires
            b == 1_000_000 * high,
    ;
    assert(a <= sum / n <= b) by (nonlinear_arith)
        requires
            n > 0,
            n * a <= sum <= n * b,
    ;
}

/// One more number moves the total by itself.
pub proof fn law_totals_add_up(s: Seq<u64>, x: u64)
    ensures
        total(s.push(x)) == total(s) + x,
        total(Seq::<u64>::empty()) == 0,
{
    assert(s.push(x).drop_last() =~= s);
}

} // verus!
