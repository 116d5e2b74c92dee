//! How the weights of a blend move away from what is being detected.
//!
//! Weights are whole numbers of septillionths, other fractions of millionths.

use crate::utils::wide::Wide;
#[allow(unused_imports)]
use crate::utils::wide;
use vstd::prelude::*;

verus! {

/// The whole of the blend's weights.
pub const WHOLE: u128 = 1_000_000_000_000_000_000_000_000;

/// One, in millionths.
pub const ONE: u64 = 1_000_000;

/// One times one, in millionths of millionths.
pub const SQUARE: u64 = 1_000_000_000_000;

/// All weights together.
pub open spec fn total(weights: Seq<u128>) -> int
    decreases weights.len(),
{
    if weights.len() == 0 {
        0
    } else {
        total(weights.drop_last()) + weights.last()
    }
}

/// The first `n` weights together.
pub open spec fn part(weights: Seq<u128>, n: int) -> int
    decreases n,
{
    if n <= 0 {
        0
    } else {
        part(weights, n - 1) + weights[n - 1]
    }
}

/// Weights scaled up or down to the whole; unchanged where they are all zero.
pub open spec fn normalised(weights: Seq<u128>) -> Seq<u128> {
    if total(weights) > 0 {
        weights.map_values(|w: u128| (w * WHOLE / total(weights)) as u128)
    } else {
        weights
    }
}

/// How fast weights move at a given risk.
pub open spec fn smoothing(risk: int) -> int {
    if risk < 300_000 {
        50_000
    } else if risk < 600_000 {
        150_000
    } else {
        300_000
    }
}

/// An equal share of the whole.
pub open spec fn share(n: int) -> int {
    WHOLE as int / n
}

/// What a protocol's weight is pulled towards: away from the protocol in use by the
/// risk, back to an equal share by a lack of variety, and less where its traffic is
/// steady; never below a tenth of an equal share or above three times as much.
pub open spec fn target(
    n: int,
    in_use: bool,
    weight: int,
    risk: int,
    variety: int,
    inertia: int,
) -> int {
    let step = risk * smoothing(risk) * SQUARE;
    let moved = if in_use {
        weight - step
    } else {
        weight + step / (n - 1)
    };
    let pull = (ONE - variety) / 5;
    let factor = ONE - inertia * smoothing(risk) / 2_000_000;
    let aim = (moved * ONE + pull * (share(n) - weight)) * factor;
    let (low, high) = (share(n) / 10, 3 * share(n));
    if aim < low * SQUARE {
        low
    } else if aim > high * SQUARE {
        high
    } else {
        aim / SQUARE as int
    }
}

/// The targets of all protocols.
pub open spec fn targets(
    weights: Seq<u128>,
    current: int,
    risk: int,
    variety: int,
    inertia: Seq<u64>,
) -> Seq<u128> {
    Seq::new(
        weights.len(),
        |i: int|
            target(
                weights.len() as int,
                i == current,
                weights[i] as int,
                risk,
                variety,
                inertia[i] as int,
            ) as u128,
    )
}

/// The targets as shares of the whole; equal shares where there are none.
pub open spec fn fresh(aims: Seq<u128>) -> Seq<u128> {
    if total(aims) > 0 {
        normalised(aims)
    } else {
        Seq::new(aims.len(), |i: int| share(aims.len() as int) as u128)
    }
}

/// Old and new weights mixed.
pub open spec fn mixed(old_weights: Seq<u128>, new_weights: Seq<u128>, step: int) -> Seq<u128> {
    Seq::new(
        old_weights.len(),
        |i: int| (((ONE - step) * old_weights[i] + step * new_weights[i]) / ONE as int) as u128,
    )
}

/// The weights after one adaptation.
pub open spec fn adapted(
    weights: Seq<u128>,
    current: int,
    risk: int,
    variety: int,
    inertia: Seq<u64>,
) -> Seq<u128> {
    normalised(
        mixed(weights, fresh(targets(weights, current, risk, variety, inertia)), smoothing(risk)),
    )
}

/// Weights of at least two protocols that make up no more than the whole.
pub open spec fn is_blend(weights: Seq<u128>) -> bool {
    weights.len() >= 2 && total(weights) <= WHOLE
}

/// Measures of all protocols that lie between nothing and one.
pub open spec fn are_fractions(s: Seq<u64>) -> bool {
    forall|i: int| 0 <= i < s.len() ==> #[trigger] s[i] <= ONE
}

/// No weight is more than all together.
proof fn lemma_part_of_total(weights: Seq<u128>, i: int)
    requires
        0 <= i < weights.len(),
    ensures
        0 <= weights[i] <= total(weights),
    decreases weights.len(),
{
    lemma_total_bounds(weights.drop_last(), u128::MAX as int);
    if i < weights.len() - 1 {
        lemma_part_of_total(weights.drop_last(), i);
    }
}

/// Weights that are each at most `top` make up at most so many times `top`.
proof fn lemma_total_bounds(weights: Seq<u128>, top: int)
    requires
        forall|i: int| 0 <= i < weights.len() ==> #[trigger] weights[i] <= top,
    ensures
        0 <= total(weights) <= weights.len() * top,
    decreases weights.len(),
{
    if weights.len() > 0 {
        let rest = weights.drop_last();
        assert forall|i: int| 0 <= i < rest.len() implies #[trigger] rest[i] <= top by {
            assert(rest[i] == weights[i]);
        }
        lemma_total_bounds(rest, top);
        assert(weights.len() * top == rest.len() * top + top) by (nonlinear_arith)
            requires
                weights.len() == rest.len() + 1,
        ;
    }
}

/// Weights that are each larger than those of another blend make up more.
proof fn lemma_total_apart(a: Seq<u128>, scale: int, b: Seq<u128>, over: int, slack: int)
    requires
        a.len() == b.len(),
        forall|i: int|
            0 <= i < a.len() ==> over * #[trigger] b[i] - slack <= scale * a[i] <= over * b[i],
    ensures
        over * total(b) - slack * a.len() <= scale * total(a) <= over * total(b),
    decreases a.len(),
{
    if a.len() > 0 {
        let (ra, rb) = (a.drop_last(), b.drop_last());
        assert forall|i: int| 0 <= i < ra.len() implies over * #[trigger] rb[i] - slack <= scale
            * ra[i] <= over * rb[i] by {
            assert(b[i] == rb[i] && a[i] == ra[i]);
        }
        lemma_total_apart(ra, scale, rb, over, slack);
        let n = a.len() as int;
        let _ = b[n - 1];
        assert(scale * total(a) == scale * total(ra) + scale * a.last()) by (nonlinear_arith)
            requires
                total(a) == total(ra) + a.last(),
        ;
        assert(over * total(b) == over * total(rb) + over * b.last()) by (nonlinear_arith)
            requires
                total(b) == total(rb) + b.last(),
        ;
        assert(slack * n == slack * (n - 1) + slack) by (nonlinear_arith);
    } else {
        assert(over * 0 == 0 && scale * 0 == 0 && slack * 0 == 0) by (nonlinear_arith);
    }
}

/// A part scaled to the whole: rounded down, and no more than the whole.
proof fn lemma_scaled(w: int, t: int)
    requires
        0 <= w <= t,
        t > 0,
    ensures
        0 <= w * WHOLE / t <= WHOLE,
        WHOLE * w - t < t * (w * WHOLE / t) <= WHOLE * w,
{
    let q = w * WHOLE / t;
    let r = (w * WHOLE) % t;
    vstd::arithmetic::div_mod::lemma_fundamental_div_mod(w * WHOLE, t);
    assert(0 <= r < t);
    assert(0 <= q <= WHOLE) by (nonlinear_arith)
        requires
            w * WHOLE == t * q + r,
            0 <= r < t,
            0 <= w <= t,
            t > 0,
            WHOLE == 1_000_000_000_000_000_000_000_000,
    ;
}

/// Scaled weights make up the whole, but for less than one unit per protocol.
pub proof fn law_normalised_weights_make_up_the_whole(weights: Seq<u128>)
    requires
        total(weights) > 0,
    ensures
        WHOLE - weights.len() <= total(normalised(weights)) <= WHOLE,
        forall|i: int| 0 <= i < weights.len() ==> #[trigger] normalised(weights)[i] <= WHOLE,
{
    let t = total(weights);
    let s = normalised(weights);
    assert forall|i: int| 0 <= i < weights.len() implies WHOLE * #[trigger] weights[i] - t <= t
        * s[i] <= WHOLE * weights[i] && s[i] <= WHOLE by {
        lemma_part_of_total(weights, i);
        lemma_scaled(weights[i] as int, t);
    }
    lemma_total_apart(s, t, weights, WHOLE as int, t);
    let n = weights.len() as int;
    let sum = total(s);
    assert(WHOLE - n <= sum <= WHOLE) by (nonlinear_arith)
        requires
            WHOLE * t - t * n <= t * sum <= WHOLE * t,
            t > 0,
    ;
    assert forall|i: int| 0 <= i < weights.len() implies #[trigger] s[i] <= WHOLE by {
        let _ = weights[i];
    }
}

/// Equal shares make up no more than the whole.
proof fn lemma_share(n: int)
    requires
        n >= 2,
    ensures
        0 <= share(n) <= WHOLE / 2,
        n * share(n) <= WHOLE,
        WHOLE - n < n * share(n),
{
    vstd::arithmetic::div_mod::lemma_fundamental_div_mod(WHOLE as int, n);
    vstd::arithmetic::div_mod::lemma_mod_bound(WHOLE as int, n);
    let q = share(n);
    assert(0 <= q <= WHOLE / 2) by (nonlinear_arith)
        requires
            n * q <= WHOLE,
            WHOLE - n < n * q,
            n >= 2,
            WHOLE == 1_000_000_000_000_000_000_000_000,
    ;
}

/// A target keeps to its bounds.
proof fn lemma_target_bounds(
    n: int,
    in_use: bool,
    weight: int,
    risk: int,
    variety: int,
    inertia: int,
)
    requires
        n >= 2,
    ensures
        share(n) / 10 <= target(n, in_use, weight, risk, variety, inertia) <= 3 * share(n),
        0 <= share(n) / 10,
{
    lemma_share(n);
}

fn smooth(risk: u64) -> (s: u64)
    ensures
        s == smoothing(risk as int),
        50_000 <= s <= 300_000,
{
    if risk < 300_000 {
        50_000
    } else if risk < 600_000 {
        150_000
    } else {
        300_000
    }
}

fn target_weight(n: usize, in_use: bool, weight: u128, risk: u64, variety: u64, inertia: u64) -> (t:
    u128)
    requires
        n >= 2,
        weight <= WHOLE,
        risk <= ONE,
        variety <= ONE,
        inertia <= ONE,
    ensures
        t == target(
            n as int,
            in_use,
            weight as int,
            risk as int,
            variety as int,
            inertia as int,
        ),
{
    let equal: u128 = WHOLE / (n as u128);
    proof {
        lemma_share(n as int);
    }
    let s: u64 = smooth(risk);
    assert(0 <= risk * s <= 300_000_000_000) by (nonlinear_arith)
        requires
            0 <= risk <= 1_000_000,
            0 <= s <= 300_000,
    ;
    assert(0 <= inertia * s <= 300_000_000_000) by (nonlinear_arith)
        requires
            0 <= inertia <= 1_000_000,
            0 <= s <= 300_000,
    ;
    let step: u128 = (risk * s) as u128 * 1_000_000_000_000;
    let part: u128 = step / (n as u128 - 1);
    assert(0 <= part <= step) by (nonlinear_arith)
        requires
            part == step / ((n - 1) as u128),
            n >= 2,
    ;
    let moved: i128 = if in_use {
        weight as i128 - step as i128
    } else {
        weight as i128 + part as i128
    };
    let pull: i128 = ((ONE - variety) / 5) as i128;
    let factor: i128 = (ONE - inertia * s / 2_000_000) as i128;
    let gap: i128 = equal as i128 - weight as i128;
    assert(-200_000_000_000_000_000_000_000_000_000 <= pull * gap
        <= 200_000_000_000_000_000_000_000_000_000) by (nonlinear_arith)
        requires
            0 <= pull <= 200_000,
            -1_000_000_000_000_000_000_000_000 <= gap <= 1_000_000_000_000_000_000_000_000,
    ;
    let sum: i128 = moved * 1_000_000 + pull * gap;
    assert(-2_000_000_000_000_000_000_000_000_000_000_000_000 <= sum * factor
        <= 2_000_000_000_000_000_000_000_000_000_000_000_000) by (nonlinear_arith)
        requires
            -2_000_000_000_000_000_000_000_000_000_000 <= sum
                <= 2_000_000_000_000_000_000_000_000_000_000,
            0 <= factor <= 1_000_000,
    ;
    let aim: i128 = sum * factor;
    let low: u128 = equal / 10;
    let high: u128 = 3 * equal;
    if aim < low as i128 * 1_000_000_000_000 {
        low
    } else if aim > high as i128 * 1_000_000_000_000 {
        high
    } else {
        (aim / 1_000_000_000_000) as u128
    }
}

/// Fewer weights make up no more.
proof fn lemma_total_prefix(weights: Seq<u128>, n: int)
    requires
        0 <= n <= weights.len(),
    ensures
        0 <= total(weights.subrange(0, n)) <= total(weights),
    decreases weights.len(),
{
    lemma_total_bounds(weights.subrange(0, n), u128::MAX as int);
    if n < weights.len() {
        lemma_total_prefix(weights.drop_last(), n);
        assert(weights.drop_last().subrange(0, n) =~= weights.subrange(0, n));
    } else {
        assert(weights.subrange(0, n) =~= weights);
    }
}

fn sum_weights(weights: &Vec<u128>) -> (sum: u128)
    requires
        total(weights@) <= 3 * WHOLE,
    ensures
        sum == total(weights@),
{
    let mut sum: u128 = 0;
    let mut i: usize = 0;
    assert(weights@.subrange(0, 0) =~= Seq::empty());
    while i < weights.len()
        invariant
            i <= weights@.len(),
            total(weights@) <= 3 * WHOLE,
            sum == total(weights@.subrange(0, i as int)),
        decreases weights@.len() - i,
    {
        proof {
            let upto = weights@.subrange(0, i + 1);
            assert(upto.drop_last() =~= weights@.subrange(0, i as int));
            lemma_total_prefix(weights@, i + 1);
        }
        sum = sum + weights[i];
        i = i + 1;
    }
    assert(weights@.subrange(0, i as int) =~= weights@);
    sum
}

fn normalise(weights: Vec<u128>) -> (r: Vec<u128>)
    requires
        total(weights@) <= 3 * WHOLE,
    ensures
        r@ == normalised(weights@),
{
    let sum: u128 = sum_weights(&weights);
    if sum == 0 {
        return weights;
    }
    let ghost want = normalised(weights@);
    let mut r: Vec<u128> = Vec::new();
    let mut i: usize = 0;
    while i < weights.len()
        invariant
            i <= weights@.len(),
            sum == total(weights@),
            sum > 0,
            want == normalised(weights@),
            r@ == want.subrange(0, i as int),
        decreases weights@.len() - i,
    {
        proof {
            lemma_part_of_total(weights@, i as int);
            lemma_scaled(weights@[i as int] as int, sum as int);
        }
        r.push(Wide::product(weights[i], WHOLE).over(Wide::of(sum)));
        i = i + 1;
        assert(r@ =~= want.subrange(0, i as int));
    }
    assert(r@ =~= want);
    r
}

/// The weights after one adaptation.
pub fn adapt(weights: &Vec<u128>, current: usize, risk: u64, variety: u64, inertia: &Vec<u64>) -> (r:
    Vec<u128>)
    requires
        is_blend(weights@),
        risk <= ONE,
        variety <= ONE,
        inertia@.len() == weights@.len(),
        are_fractions(inertia@),
    ensures
        r@ == adapted(weights@, current as int, risk as int, variety as int, inertia@),
        is_blend(r@),
{
    let n: usize = weights.len();
    let equal: u128 = WHOLE / (n as u128);
    let ghost aims = targets(weights@, current as int, risk as int, variety as int, inertia@);
    proof {
        lemma_share(n as int);
    }
    let mut aim: Vec<u128> = Vec::new();
    let mut i: usize = 0;
    while i < n
        invariant
            i <= n,
            n == weights@.len(),
            is_blend(weights@),
            risk <= ONE,
            variety <= ONE,
            inertia@.len() == weights@.len(),
            are_fractions(inertia@),
            aims == targets(weights@, current as int, risk as int, variety as int, inertia@),
            aim@ == aims.subrange(0, i as int),
        decreases n - i,
    {
        proof {
            lemma_part_of_total(weights@, i as int);
            let _ = inertia@[i as int];
        }
        aim.push(target_weight(n, i == current, weights[i], risk, variety, inertia[i]));
        i = i + 1;
        assert(aim@ =~= aims.subrange(0, i as int));
    }
    assert(aim@ =~= aims);
    proof {
        lemma_aims(weights@, current as int, risk as int, variety as int, inertia@);
        lemma_aims_total(weights@, current as int, risk as int, variety as int, inertia@);
    }
    let mut new_weights: Vec<u128> = Vec::new();
    if sum_weights(&aim) > 0 {
        proof {
            law_normalised_weights_make_up_the_whole(aims);
        }
        new_weights = normalise(aim);
    } else {
        i = 0;
        let ghost want = fresh(aims);
        while i < n
            invariant
                i <= n,
                n == aims.len(),
                total(aims) == 0,
                want == fresh(aims),
                equal == share(n as int),
                new_weights@ == want.subrange(0, i as int),
            decreases n - i,
        {
            new_weights.push(equal);
            i = i + 1;
            assert(new_weights@ =~= want.subrange(0, i as int));
        }
        assert(new_weights@ =~= want);
    }
    proof {
        lemma_fresh(aims);
    }
    let s: u64 = smooth(risk);
    let ghost want = mixed(weights@, fresh(aims), smoothing(risk as int));
    let mut mix: Vec<u128> = Vec::new();
    i = 0;
    while i < n
        invariant
            i <= n,
            n == weights@.len(),
            is_blend(weights@),
            new_weights@.len() == n,
            new_weights@ == fresh(aims),
            total(new_weights@) <= WHOLE,
            s == smoothing(risk as int),
            s <= 300_000,
            want == mixed(weights@, fresh(aims), smoothing(risk as int)),
            mix@ == want.subrange(0, i as int),
        decreases n - i,
    {
        let (x, y): (u128, u128) = (weights[i], new_weights[i]);
        proof {
            lemma_part_of_total(weights@, i as int);
            lemma_part_of_total(new_weights@, i as int);
            lemma_mix(x as int, y as int, s as int);
        }
        let keep: u128 = (ONE - s) as u128;
        mix.push((keep * x + s as u128 * y) / 1_000_000);
        i = i + 1;
        assert(mix@ =~= want.subrange(0, i as int));
    }
    assert(mix@ =~= want);
    proof {
        lemma_mixed_total(weights@, fresh(aims), s as int);
        if total(want) > 0 {
            law_normalised_weights_make_up_the_whole(want);
        }
    }
    normalise(mix)
}

/// Every target fits a word and keeps to its bounds.
proof fn lemma_aims(weights: Seq<u128>, current: int, risk: int, variety: int, inertia: Seq<u64>)
    requires
        weights.len() >= 2,
    ensures
        forall|i: int|
            0 <= i < weights.len() ==> share(weights.len() as int) / 10 <= #[trigger] targets(
                weights,
                current,
                risk,
                variety,
                inertia,
            )[i] <= 3 * share(weights.len() as int),
        3 * share(weights.len() as int) <= 2 * WHOLE,
{
    let n = weights.len() as int;
    lemma_share(n);
    assert forall|i: int| 0 <= i < n implies share(n) / 10 <= #[trigger] targets(
        weights,
        current,
        risk,
        variety,
        inertia,
    )[i] <= 3 * share(n) by {
        lemma_target_bounds(n, i == current, weights[i] as int, risk, variety, inertia[i] as int);
    }
}

/// Targets make up no more than three times the whole.
proof fn lemma_aims_total(
    weights: Seq<u128>,
    current: int,
    risk: int,
    variety: int,
    inertia: Seq<u64>,
)
    requires
        weights.len() >= 2,
    ensures
        0 <= total(targets(weights, current, risk, variety, inertia)) <= 3 * WHOLE,
{
    let n = weights.len() as int;
    let equal = share(n);
    let aims = targets(weights, current, risk, variety, inertia);
    lemma_share(n);
    lemma_aims(weights, current, risk, variety, inertia);
    lemma_total_bounds(aims, 3 * equal);
    let t = total(aims);
    assert(t <= 3 * WHOLE) by (nonlinear_arith)
        requires
            t <= n * (3 * equal),
            n * equal <= WHOLE,
    ;
}

/// Fresh weights make up no more than the whole.
proof fn lemma_fresh(aims: Seq<u128>)
    requires
        aims.len() >= 2,
    ensures
        fresh(aims).len() == aims.len(),
        total(fresh(aims)) <= WHOLE,
{
    let n = aims.len() as int;
    if total(aims) > 0 {
        law_normalised_weights_make_up_the_whole(aims);
    } else {
        lemma_share(n);
        lemma_total_bounds(fresh(aims), share(n));
    }
}

/// What a mix of two weights lies between.
proof fn lemma_mix(x: int, y: int, s: int)
    requires
        0 <= x <= WHOLE,
        0 <= y <= WHOLE,
        0 <= s <= 300_000,
    ensures
        0 <= (ONE - s) * x,
        0 <= s * y,
        (ONE - s) * x + s * y <= 1_000_000_000_000_000_000_000_000_000_000,
        0 <= ((ONE - s) * x + s * y) / 1_000_000 <= WHOLE,
        s * y / 1_000_000 <= ((ONE - s) * x + s * y) / 1_000_000,
{
    assert(0 <= (1_000_000 - s) * x && 0 <= s * y) by (nonlinear_arith)
        requires
            0 <= x,
            0 <= y,
            0 <= s <= 300_000,
    ;
    assert((1_000_000 - s) * x + s * y <= 1_000_000_000_000_000_000_000_000_000_000)
        by (nonlinear_arith)
        requires
            0 <= x <= 1_000_000_000_000_000_000_000_000,
            0 <= y <= 1_000_000_000_000_000_000_000_000,
            0 <= s <= 300_000,
    ;
}

/// A mix of weights that make up no more than the whole does not either.
proof fn lemma_mixed_total(a: Seq<u128>, b: Seq<u128>, s: int)
    requires
        a.len() == b.len(),
        total(a) <= WHOLE,
        total(b) <= WHOLE,
        0 <= s <= 300_000,
    ensures
        0 <= total(mixed(a, b, s)) <= WHOLE,
{
    lemma_mixed_parts(a, b, s);
    lemma_total_bounds(a, u128::MAX as int);
    lemma_total_bounds(b, u128::MAX as int);
    lemma_mix(total(a), total(b), s);
    lemma_total_bounds(mixed(a, b, s), u128::MAX as int);
}

proof fn lemma_mixed_parts(a: Seq<u128>, b: Seq<u128>, s: int)
    requires
        a.len() == b.len(),
        total(a) <= WHOLE,
        total(b) <= WHOLE,
        0 <= s <= 300_000,
    ensures
        1_000_000 * total(mixed(a, b, s)) <= (ONE - s) * total(a) + s * total(b),
    decreases a.len(),
{
    if a.len() > 0 {
        let (ra, rb) = (a.drop_last(), b.drop_last());
        lemma_part_of_total(a, a.len() - 1);
        lemma_part_of_total(b, b.len() - 1);
        lemma_total_bounds(ra, u128::MAX as int);
        lemma_total_bounds(rb, u128::MAX as int);
        lemma_mixed_parts(ra, rb, s);
        assert(mixed(a, b, s).drop_last() =~= mixed(ra, rb, s));
        let (x, y) = (a.last() as int, b.last() as int);
        lemma_mix(x, y, s);
        assert((1_000_000 - s) * total(a) == (1_000_000 - s) * total(ra) + (1_000_000 - s) * x)
            by (nonlinear_arith)
            requires
                total(a) == total(ra) + x,
        ;
        assert(s * total(b) == s * total(rb) + s * y) by (nonlinear_arith)
            requires
                total(b) == total(rb) + y,
        ;
    } else {
        assert((1_000_000 - s) * 0 == 0 && s * 0 == 0) by (nonlinear_arith);
    }
}

/// However often weights are adapted, every protocol keeps a chance, and together they
/// make up the whole but for less than one unit per protocol, and less than a thousandth. This
/// holds for as many protocols as a vector can have.
pub proof fn law_adapted_weights_stay_a_blend(
    weights: Seq<u128>,
    current: int,
    risk: int,
    variety: int,
    inertia: Seq<u64>,
)
    requires
        is_blend(weights),
        weights.len() <= usize::MAX,
        inertia.len() == weights.len(),
    ensures
        ({
            let a = adapted(weights, current, risk, variety, inertia);
            &&& is_blend(a)
            &&& a.len() == weights.len()
            &&& WHOLE - a.len() <= total(a) <= WHOLE
            &&& 1000 * (WHOLE - total(a)) < WHOLE
            &&& forall|i: int| 0 <= i < a.len() ==> #[trigger] a[i] > 0
        }),
{
    let n = weights.len() as int;
    let equal = share(n);
    let aims = targets(weights, current, risk, variety, inertia);
    let new_weights = fresh(aims);
    let s = smoothing(risk);
    let m = mixed(weights, new_weights, s);
    lemma_share(n);
    assert(equal >= 10_000) by (nonlinear_arith)
        requires
            equal == 1_000_000_000_000_000_000_000_000int / n,
            2 <= n <= 0xFFFF_FFFF_FFFF_FFFF,
    ;
    lemma_aims(weights, current, risk, variety, inertia);
    lemma_aims_total(weights, current, risk, variety, inertia);
    let t = total(aims);
    lemma_part_of_total(aims, 0);
    lemma_fresh(aims);
    lemma_mixed_total(weights, new_weights, s);
    assert forall|i: int| 0 <= i < n implies 0 < #[trigger] m[i] by {
        lemma_part_of_total(aims, i);
        lemma_scaled(aims[i] as int, t);
        let (w, q) = (aims[i] as int, new_weights[i] as int);
        assert(q >= 300) by (nonlinear_arith)
            requires
                WHOLE * w - t < t * q,
                w >= 1_000,
                0 < t <= 3 * WHOLE,
                WHOLE == 1_000_000_000_000_000_000_000_000,
        ;
        lemma_part_of_total(weights, i);
        lemma_part_of_total(new_weights, i);
        lemma_mix(weights[i] as int, q, s);
        assert(s * q >= 1_000_000) by (nonlinear_arith)
            requires
                s >= 50_000,
                q >= 300,
        ;
    }
    lemma_part_of_total(m, 0);
    law_normalised_weights_make_up_the_whole(m);
    let a = normalised(m);
    assert forall|i: int| 0 <= i < a.len() implies #[trigger] a[i] > 0 by {
        lemma_part_of_total(m, i);
        lemma_scaled(m[i] as int, total(m));
        let (w, q, tm) = (m[i] as int, a[i] as int, total(m));
        assert(q > 0) by (nonlinear_arith)
            requires
                WHOLE * w - tm < tm * q,
                w >= 1,
                0 < tm <= WHOLE,
        ;
    }
}

/// Equal shares are a blend, and make up the whole but for less than one unit per
/// protocol.
pub proof fn law_equal_weights_are_a_blend(weights: Seq<u128>)
    requires
        weights.len() >= 2,
        forall|i: int|
            0 <= i < weights.len() ==> #[trigger] weights[i] == share(weights.len() as int),
    ensures
        is_blend(weights),
        WHOLE - weights.len() < total(weights) <= WHOLE,
{
    let n = weights.len() as int;
    lemma_share(n);
    lemma_total_equal(weights, share(n));
}

proof fn lemma_total_equal(weights: Seq<u128>, each: int)
    requires
        forall|i: int| 0 <= i < weights.len() ==> #[trigger] weights[i] == each,
    ensures
        total(weights) == weights.len() * each,
    decreases weights.len(),
{
    if weights.len() > 0 {
        let rest = weights.drop_last();
        assert forall|i: int| 0 <= i < rest.len() implies #[trigger] rest[i] == each by {
            assert(rest[i] == weights[i]);
        }
        lemma_total_equal(rest, each);
        assert(weights.len() * each == rest.len() * each + each) by (nonlinear_arith)
            requires
                weights.len() == rest.len() + 1,
        ;
    }
}

/// No weight of a blend is more than the whole.
pub proof fn lemma_weight_of_blend(weights: Seq<u128>, i: int)
    requires
        is_blend(weights),
        0 <= i < weights.len(),
    ensures
        weights[i] <= WHOLE,
{
    lemma_part_of_total(weights, i);
}

// ---- What adaptation keeps to ----

/// Weights move faster at a higher risk: by a twentieth, from three tenths of risk on by three
/// twentieths, and from six tenths on by three tenths.
pub proof fn law_weights_move_faster_at_risk(low: int, high: int)
    requires
        low <= high,
    ensures
        smoothing(low) <= smoothing(high),
        low < 300_000 ==> 20 * smoothing(low) == ONE,
        300_000 <= low < 600_000 ==> 20 * smoothing(low) == 3 * ONE,
        low >= 600_000 ==> 10 * smoothing(low) == 3 * ONE,
{
}

/// Mixed weights lie between the old and the new ones, nearer to the new the larger the step.
pub proof fn law_mixed_weights_lie_between(a: Seq<u128>, b: Seq<u128>, step: int, i: int)
    requires
        a.len() == b.len(),
        0 <= step <= ONE,
        0 <= i < a.len(),
        a[i] <= WHOLE,
        b[i] <= WHOLE,
    ensures
        a[i] <= b[i] ==> a[i] <= mixed(a, b, step)[i] <= b[i],
        b[i] <= a[i] ==> b[i] <= mixed(a, b, step)[i] <= a[i],
        mixed(a, b, 0)[i] == a[i],
        mixed(a, b, ONE as int)[i] == b[i],
        ONE * mixed(a, b, step)[i] <= (ONE - step) * a[i] + step * b[i] < ONE * (mixed(a, b, step)[i]
            + 1),
{
    let (x, y) = (a[i] as int, b[i] as int);
    let t = (ONE - step) * x + step * y;
    assert((x <= y ==> 1_000_000 * x <= t <= 1_000_000 * y) && (y <= x ==> 1_000_000 * y <= t
        <= 1_000_000 * x)) by (nonlinear_arith)
        requires
            t == (1_000_000 - step) * x + step * y,
            0 <= step <= 1_000_000,
    ;
    assert((ONE - 0) * x + 0 * y == ONE * x && (ONE - ONE) * x + ONE * y == ONE * y)
        by (nonlinear_arith);
}

/// What a target is pulled by, with nothing detected: a steady weight keeps its place, and where there
/// is no variety it moves a fifth of the way back to an equal share.
pub proof fn law_targets_without_risk(n: int, in_use: bool, weight: int)
    requires
        n >= 2,
        share(n) / 10 <= weight <= 3 * share(n),
    ensures
        target(n, in_use, weight, 0, ONE as int, 0) == weight,
        ({
            let t = target(n, in_use, weight, 0, 0, 0);
            5 * t <= 4 * weight + share(n) < 5 * (t + 1)
        }),
{
    lemma_share(n);
    let m = n - 1;
    assert(0int * smoothing(0) * 1_000_000_000_000 == 0 && 0int / m == 0) by (nonlinear_arith)
        requires
            m >= 1,
    ;
    let one = 1_000_000int;
    assert((weight * one + 0int * (share(n) - weight)) * one == weight * 1_000_000_000_000)
        by (nonlinear_arith)
        requires
            one == 1_000_000,
    ;
    let x = (weight * one + 200_000 * (share(n) - weight)) * one;
    assert(x == 1_000_000_000_000 * weight + 200_000_000_000 * (share(n) - weight))
        by (nonlinear_arith)
        requires
            x == (weight * one + 200_000 * (share(n) - weight)) * one,
            one == 1_000_000,
    ;
}

/// The protocol in use is never aimed higher than one that has as much weight or more and is as
/// settled; and its aim falls, or stays at its floor, where the others' grow.
pub proof fn law_protocol_in_use_is_aimed_lower(
    n: int,
    weight: int,
    other: int,
    risk: int,
    variety: int,
    inertia: int,
)
    requires
        n >= 2,
        0 <= weight <= other,
        0 <= risk <= ONE,
        0 <= variety <= ONE,
        0 <= inertia <= ONE,
    ensures
        target(n, true, weight, risk, variety, inertia) <= target(
            n,
            false,
            other,
            risk,
            variety,
            inertia,
        ),
{
    lemma_share(n);
    let (s, r) = (smoothing(risk), risk);
    let step = r * s * SQUARE;
    assert(step >= 0) by (nonlinear_arith)
        requires
            step == r * s * 1_000_000_000_000,
            r >= 0,
            s >= 0,
    ;
    assert(step / (n - 1) >= 0) by (nonlinear_arith)
        requires
            step >= 0,
            n >= 2,
    ;
    let (a, b) = (weight - step, other + step / (n - 1));
    let pull = (ONE - variety) / 5;
    let factor = ONE - inertia * s / 2_000_000;
    assert(0 <= inertia * s <= 300_000_000_000) by (nonlinear_arith)
        requires
            0 <= inertia <= 1_000_000,
            0 <= s <= 300_000,
    ;
    let e = share(n);
    let (x, y) = (a * ONE + pull * (e - weight), b * ONE + pull * (e - other));
    assert(x <= y) by (nonlinear_arith)
        requires
            x == a * 1_000_000 + pull * (e - weight),
            y == b * 1_000_000 + pull * (e - other),
            b - a >= other - weight,
            other >= weight,
            0 <= pull <= 200_000,
    ;
    assert(x * factor <= y * factor) by (nonlinear_arith)
        requires
            x <= y,
            factor >= 0,
    ;
}

/// Adapting the weights never leaves the protocol in use with more weight than one that had as much or
/// more and is as settled.
pub proof fn law_protocol_in_use_never_gains(
    weights: Seq<u128>,
    current: int,
    risk: int,
    variety: int,
    inertia: Seq<u64>,
    j: int,
)
    requires
        is_blend(weights),
        weights.len() <= usize::MAX,
        inertia.len() == weights.len(),
        are_fractions(inertia),
        0 <= risk <= ONE,
        0 <= variety <= ONE,
        0 <= current < weights.len(),
        0 <= j < weights.len(),
        j != current,
        weights[current] <= weights[j],
        inertia[current] == inertia[j],
    ensures
        adapted(weights, current, risk, variety, inertia)[current] <= adapted(
            weights,
            current,
            risk,
            variety,
            inertia,
        )[j],
{
    let n = weights.len() as int;
    let aims = targets(weights, current, risk, variety, inertia);
    let _ = inertia[current];
    law_protocol_in_use_is_aimed_lower(
        n,
        weights[current] as int,
        weights[j] as int,
        risk,
        variety,
        inertia[current] as int,
    );
    lemma_target_bounds(
        n,
        true,
        weights[current] as int,
        risk,
        variety,
        inertia[current] as int,
    );
    lemma_target_bounds(n, false, weights[j] as int, risk, variety, inertia[j] as int);
    lemma_share(n);
    assert(aims[current] <= aims[j]);
    lemma_part_of_total(aims, current);
    lemma_part_of_total(aims, j);
    let f = fresh(aims);
    if total(aims) > 0 {
        lemma_normalised_order(aims, current, j);
    }
    assert(f[current] <= f[j]);
    let s = smoothing(risk);
    let m = mixed(weights, f, s);
    lemma_weight_of_blend(weights, current);
    lemma_weight_of_blend(weights, j);
    if total(aims) > 0 {
        law_normalised_weights_make_up_the_whole(aims);
    }
    assert(f[current] <= WHOLE && f[j] <= WHOLE);
    law_mixed_weights_lie_between(weights, f, s, current);
    law_mixed_weights_lie_between(weights, f, s, j);
    let (a, b, x, y) = (
        weights[current] as int,
        weights[j] as int,
        f[current] as int,
        f[j] as int,
    );
    assert((1_000_000 - s) * a + s * x <= (1_000_000 - s) * b + s * y) by (nonlinear_arith)
        requires
            a <= b,
            x <= y,
            0 <= s <= 300_000,
    ;
    assert(m[current] <= m[j]);
    if total(m) > 0 {
        lemma_normalised_order(m, current, j);
    }
}

/// Scaling keeps the order of weights.
proof fn lemma_normalised_order(w: Seq<u128>, i: int, j: int)
    requires
        total(w) > 0,
        0 <= i < w.len(),
        0 <= j < w.len(),
        w[i] <= w[j],
    ensures
        normalised(w)[i] <= normalised(w)[j],
{
    let t = total(w);
    lemma_part_of_total(w, i);
    lemma_part_of_total(w, j);
    lemma_scaled(w[i] as int, t);
    lemma_scaled(w[j] as int, t);
    let (a, b) = (w[i] * WHOLE, w[j] * WHOLE);
    assert(a <= b) by (nonlinear_arith)
        requires
            a == w[i] * WHOLE,
            b == w[j] * WHOLE,
            w[i] <= w[j],
            WHOLE >= 0,
    ;
    vstd::arithmetic::div_mod::lemma_div_is_ordered(a, b, t);
}

/// A scaled weight has the part of the whole that it had of all weights.
pub proof fn law_scaled_weights_keep_their_parts(w: Seq<u128>, i: int)
    requires
        total(w) > 0,
        0 <= i < w.len(),
    ensures
        normalised(w)[i] * total(w) <= w[i] * WHOLE < (normalised(w)[i] + 1) * total(w),
{
    let t = total(w);
    lemma_part_of_total(w, i);
    lemma_scaled(w[i] as int, t);
    let q = normalised(w)[i] as int;
    assert(q * t == t * q && (q + 1) * t == t * q + t && w[i] * WHOLE == WHOLE * w[i])
        by (nonlinear_arith);
}

/// An equal share is the whole over the number of protocols.
pub proof fn law_equal_shares_fill_the_whole(n: int)
    requires
        n >= 2,
    ensures
        n * share(n) <= WHOLE < n * (share(n) + 1),
{
    lemma_share(n);
    let s = share(n);
    assert(n * (s + 1) == n * s + n) by (nonlinear_arith);
}

} // verus!
