//! How regular the gaps between packets are.
//!
//! Scores are in millionths.

use crate::utils::spread::{cv_micro, lag_micro, run_micro, scattered};
use crate::utils::wide::Wide;
#[allow(unused_imports)]
use crate::utils::wide;
#[allow(unused_imports)]
use crate::utils::spread;
use crate::utils::stats::runs_about_median;
#[allow(unused_imports)]
use crate::utils::stats;
use vstd::prelude::*;

verus! {

/// `x`, at most `most`.
pub open spec fn capped(x: int, most: int) -> int {
    if x > most {
        most
    } else {
        x
    }
}

/// The size of a number.
pub open spec fn magnitude(x: int) -> int {
    if x >= 0 {
        x
    } else {
        -x
    }
}

/// How far the runs of gaps about their median are from chance.
pub open spec fn run_off_of(gaps: Seq<u64>) -> int {
    let n = gaps.len() as int;
    let above = stats::count_above(gaps, stats::in_order(gaps), n);
    spread::run_micro_of(stats::count_runs(gaps, stats::in_order(gaps), n), above, n - above)
}

/// Whether gaps vary by less than a nanosecond about their mean, so that none is said to follow
/// another; `unit` of what they are in make a millisecond.
pub open spec fn is_even(gaps: Seq<u64>, unit: int) -> bool {
    1_000_000_000_000 * spread::scatter(gaps) < (unit * gaps.len()) * (unit * gaps.len())
}

/// How strongly each gap follows the one before, without its sign.
pub open spec fn follow_of(gaps: Seq<u64>, unit: int) -> int {
    if is_even(gaps, unit) {
        0
    } else {
        magnitude(spread::lag_micro_of(gaps))
    }
}

/// How regular a middlebox finds gaps, `unit` of which make a millisecond: three tenths of their
/// variation, four tenths of how strongly each follows the one before, less so the more they
/// vary, and three tenths of their runs, which count as at most four deviations.
pub open spec fn flow_periodicity_of(gaps: Seq<u64>, unit: int) -> int {
    let cv = spread::cv_micro_of(gaps);
    let lag = follow_of(gaps, unit);
    let run = capped(run_off_of(gaps), 4_000_000) / 4;
    let sum = 3_000_000 * cv + 4 * ((1_000_000 - cv) * lag) + 3_000_000 * run;
    if sum <= 0 {
        0
    } else {
        capped(sum / 10_000_000, 1_000_000)
    }
}

/// How regular the masker finds gaps in microseconds: four tenths of their variation, four tenths
/// of how strongly each follows the one before, and two tenths of their runs.
pub open spec fn masker_periodicity_of(gaps: Seq<u64>) -> int {
    let cv = spread::cv_micro_of(gaps);
    let lag = capped(follow_of(gaps, 1000), 1_000_000);
    let run = capped(run_off_of(gaps) / 4, 1_000_000);
    capped((4 * cv + 4 * lag + 2 * run) / 10, 1_000_000)
}

fn cap(x: u128, most: u64) -> (r: u64)
    ensures
        r == capped(x as int, most as int),
{
    if x > most as u128 {
        most
    } else {
        x as u64
    }
}

/// Whether gaps vary by less than a nanosecond about their mean.
pub fn even(gaps: &[u64], unit: u64) -> (b: bool)
    requires
        0 < gaps@.len() <= spread::MOST,
    ensures
        b == is_even(gaps@, unit as int),
{
    let c: Wide = scattered(gaps);
    let n: u128 = gaps.len() as u128;
    assert(0 <= unit * n <= 0x1_0000_0000_0000_0000 * 0x1_0000_0000) by (nonlinear_arith)
        requires
            0 <= unit <= 0x1_0000_0000_0000_0000,
            0 <= n <= 0x1_0000_0000,
    ;
    let k: u128 = (unit as u128) * n;
    c.times(1_000_000_000_000).less(Wide::product(k, k))
}

/// How strongly each gap follows the one before, without its sign.
fn follow(gaps: &[u64], unit: u64) -> (a: u64)
    requires
        0 < gaps@.len() <= spread::MOST,
    ensures
        a == follow_of(gaps@, unit as int),
        a <= 2_000_000,
{
    if even(gaps, unit) {
        return 0;
    }
    let lag: i64 = lag_micro(gaps);
    if lag >= 0 {
        lag as u64
    } else {
        (-lag) as u64
    }
}

fn run_off(gaps: &[u64]) -> (z: u128)
    requires
        0 < gaps@.len() <= spread::MOST,
    ensures
        z == run_off_of(gaps@),
{
    let r = runs_about_median(gaps);
    run_micro(&r)
}

/// How regular a middlebox finds gaps, `unit` of which make a millisecond.
pub fn flow_periodicity(gaps: &[u64], unit: u64) -> (p: u64)
    requires
        0 < gaps@.len() <= spread::MOST,
    ensures
        p == flow_periodicity_of(gaps@, unit as int),
        p <= 1_000_000,
{
    let cv: i128 = cv_micro(gaps) as i128;
    let lag: i128 = follow(gaps, unit) as i128;
    let run: i128 = (cap(run_off(gaps), 4_000_000) / 4) as i128;
    assert(-132_000_000_000_000_000 <= (1_000_000 - cv) * lag <= 2_000_000_000_000)
        by (nonlinear_arith)
        requires
            0 <= cv <= 65_536_000_000,
            0 <= lag <= 2_000_000,
    ;
    let sum: i128 = 3_000_000 * cv + 4 * ((1_000_000 - cv) * lag) + 3_000_000 * run;
    if sum <= 0 {
        0
    } else {
        cap((sum / 10_000_000) as u128, 1_000_000)
    }
}

/// How regular the masker finds gaps in microseconds.
pub fn masker_periodicity(gaps: &[u64]) -> (p: u64)
    requires
        0 < gaps@.len() <= spread::MOST,
    ensures
        p == masker_periodicity_of(gaps@),
        p <= 1_000_000,
{
    let cv: u128 = cv_micro(gaps) as u128;
    let lag: u64 = cap(follow(gaps, 1000) as u128, 1_000_000);
    let run: u64 = cap(run_off(gaps) / 4, 1_000_000);
    cap((4 * cv + 4 * (lag as u128) + 2 * (run as u128)) / 10, 1_000_000)
}

/// Gaps that are all the same have neither variation, nor order, nor runs: neither the
/// middlebox nor the masker finds them regular.
pub proof fn law_an_exact_beat_is_not_noticed(gaps: Seq<u64>, gap: u64, unit: int)
    requires
        gaps.len() > 0,
        unit > 0,
        forall|i: int| 0 <= i < gaps.len() ==> #[trigger] gaps[i] == gap,
    ensures
        flow_periodicity_of(gaps, unit) == 0,
        masker_periodicity_of(gaps) == 0,
{
    spread::law_equal_numbers_do_not_spread(gaps, gap);
    let t = stats::in_order(gaps);
    stats::lemma_order_exists(gaps);
    lemma_none_above(gaps, gap, gaps.len() as int);
}

proof fn lemma_none_above(gaps: Seq<u64>, gap: u64, n: int)
    requires
        0 <= n <= gaps.len(),
        gaps.len() > 0,
        forall|i: int| 0 <= i < gaps.len() ==> #[trigger] gaps[i] == gap,
    ensures
        stats::count_above(gaps, stats::in_order(gaps), n) == 0,
    decreases n,
{
    let t = stats::in_order(gaps);
    stats::lemma_order_exists(gaps);
    stats::lemma_sorts_len(t, gaps);
    if n > 0 {
        lemma_none_above(gaps, gap, n - 1);
        assert forall|i: int| 0 <= i < t.len() implies #[trigger] t[i] == gap by {
            assert(t.to_multiset().contains(t[i])) by {
                vstd::seq_lib::to_multiset_contains(t, t[i]);
            }
            vstd::seq_lib::to_multiset_contains(gaps, t[i]);
            assert(gaps.contains(t[i]));
        }
        let pos = 50 * (t.len() - 1);
        assert(0 <= pos / 100 < t.len());
        let part = pos % 100;
        assert(gap * (100 - part) + gap * part == 100 * gap) by (nonlinear_arith);
        assert(!stats::above_median(t, gaps[n - 1]));
    }
}

/// Gaps without any order, neither one after the other nor in runs, are found regular by how much
/// they vary: by three tenths of the variation for the middlebox, by four tenths for the masker,
/// and by no more than all.
pub proof fn law_variation_alone_counts_in_part(gaps: Seq<u64>, unit: int)
    requires
        0 <= spread::cv_micro_of(gaps),
        follow_of(gaps, unit) == 0,
        follow_of(gaps, 1000) == 0,
        0 <= run_off_of(gaps) <= 3,
    ensures
        spread::cv_micro_of(gaps) <= 2_500_000 ==> {
            &&& -10 < 10 * flow_periodicity_of(gaps, unit) - 3 * spread::cv_micro_of(gaps) <= 0
            &&& -10 < 10 * masker_periodicity_of(gaps) - 4 * spread::cv_micro_of(gaps) <= 0
        },
        spread::cv_micro_of(gaps) >= 4_000_000 ==> flow_periodicity_of(gaps, unit) == 1_000_000
            && masker_periodicity_of(gaps) == 1_000_000,
{
    let cv = spread::cv_micro_of(gaps);
    assert((1_000_000 - cv) * 0 == 0) by (nonlinear_arith);
}

/// Gaps that hardly vary are found regular by how strongly each follows the one before: by four
/// tenths of that, for the middlebox and the masker alike.
pub proof fn law_order_alone_counts_four_tenths(gaps: Seq<u64>)
    requires
        spread::cv_micro_of(gaps) == 0,
        0 <= run_off_of(gaps) <= 3,
        follow_of(gaps, 1000) <= 1_000_000,
    ensures
        -10 < 10 * flow_periodicity_of(gaps, 1000) - 4 * follow_of(gaps, 1000) <= 0,
        -10 < 10 * masker_periodicity_of(gaps) - 4 * follow_of(gaps, 1000) <= 0,
{
}

/// Runs count as at most four deviations: for the middlebox as three tenths, for the masker as two.
pub proof fn law_runs_alone_count_in_part(gaps: Seq<u64>)
    requires
        spread::cv_micro_of(gaps) == 0,
        follow_of(gaps, 1000) == 0,
        0 <= run_off_of(gaps),
    ensures
        run_off_of(gaps) <= 4_000_000 ==> {
            &&& -60 <= 40 * flow_periodicity_of(gaps, 1000) - 3 * run_off_of(gaps) <= 0
            &&& -60 <= 40 * masker_periodicity_of(gaps) - 2 * run_off_of(gaps) <= 0
        },
        run_off_of(gaps) >= 4_000_000 ==> flow_periodicity_of(gaps, 1000) == 300_000
            && masker_periodicity_of(gaps) == 200_000,
{
}

/// The more strongly gaps follow each other, up or down, the more regular they are found, but the
/// less the middlebox makes of it the more they vary; beyond a variation of one it counts against.
pub proof fn law_order_counts_either_way(a: Seq<u64>, b: Seq<u64>)
    requires
        spread::cv_micro_of(a) == spread::cv_micro_of(b),
        0 <= spread::cv_micro_of(a),
        run_off_of(a) == run_off_of(b),
        !is_even(a, 1000),
        !is_even(b, 1000),
        magnitude(spread::lag_micro_of(a)) <= magnitude(spread::lag_micro_of(b)),
    ensures
        masker_periodicity_of(a) <= masker_periodicity_of(b),
        spread::cv_micro_of(a) <= 1_000_000 ==> flow_periodicity_of(a, 1000)
            <= flow_periodicity_of(b, 1000),
        spread::cv_micro_of(a) >= 1_000_000 ==> flow_periodicity_of(a, 1000)
            >= flow_periodicity_of(b, 1000),
        spread::lag_micro_of(a) == -spread::lag_micro_of(b) ==> masker_periodicity_of(a)
            == masker_periodicity_of(b) && flow_periodicity_of(a, 1000) == flow_periodicity_of(
            b,
            1000,
        ),
{
    let rest = 1_000_000 - spread::cv_micro_of(a);
    let (x, y) = (follow_of(a, 1000), follow_of(b, 1000));
    assert(rest >= 0 ==> rest * x <= rest * y) by (nonlinear_arith)
        requires
            x <= y,
    ;
    assert(rest <= 0 ==> rest * x >= rest * y) by (nonlinear_arith)
        requires
            x <= y,
    ;
}

} // verus!
