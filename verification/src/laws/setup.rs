//! What the grid that a model's answer sets up amounts to.
use vstd::prelude::*;

use super::weights::{powers_keep_order, trend_weights_lean_with_the_trend};
use crate::arith::{
    count, difference, product, quotient, sum, total, unsigned, Calculation, HALF_BITS, ONE_BITS, TWO_BITS,
};
use crate::exact::{exact, reads, sum_over, without};
use crate::graph::setup::{
    blended, bounds_are_in_order, frame, half_width, has_range, long_probability, setup_grid, setup_weights,
    short_probability, sign_of, strength_of, tilted, ALPHA_BITS, SETUP_CANDLES, SETUP_LEVELS, SETUP_OUTCOMES,
};
use crate::graph::strategy::{market_read, MarketRead, DOWN_BELOW_BITS, SL_PCT_BITS, UP_ABOVE_BITS};
use crate::grid::{get_or, GridView, TradingGrid};
use crate::num::Num;
use crate::plan::{grid_realized, realized_to, sum_to};
use crate::pricing::{even_step, normal_weights, spaced, trend_pull, trend_weights, FOUR_BITS};

verus! {

/// Whether two lists of grids counted the same outcomes of long orders.
pub open spec fn same_long_outcomes(a: Seq<TradingGrid>, b: Seq<TradingGrid>) -> bool {
    &&& a.len() == b.len()
    &&& forall|i: int| #![trigger a[i]] #![trigger b[i]]
        0 <= i < a.len() ==> a[i]@.levels.len() == b[i]@.levels.len() && a[i]@.long_win == b[i]@.long_win
            && a[i]@.long_lost == b[i]@.long_lost
}

/// Whether two lists of grids counted the same outcomes of short orders.
pub open spec fn same_short_outcomes(a: Seq<TradingGrid>, b: Seq<TradingGrid>) -> bool {
    &&& a.len() == b.len()
    &&& forall|i: int| #![trigger a[i]] #![trigger b[i]]
        0 <= i < a.len() ==> a[i]@.levels.len() == b[i]@.levels.len() && a[i]@.short_win == b[i]@.short_win
            && a[i]@.short_lost == b[i]@.short_lost
}

proof fn lemma_same_sums(a: Seq<TradingGrid>, b: Seq<TradingGrid>, n: nat)
    requires
        n <= a.len(),
    ensures
        same_long_outcomes(a, b) ==> realized_to(a, n).0 == realized_to(b, n).0 && realized_to(a, n).1 == realized_to(b, n).1,
        same_short_outcomes(a, b) ==> realized_to(a, n).2 == realized_to(b, n).2 && realized_to(a, n).3 == realized_to(
            b,
            n,
        ).3,
    decreases n,
{
    if n > 0 {
        lemma_same_sums(a, b, (n - 1) as nat);
        let x = a[n - 1]@;
        let y = b[n - 1]@;
    }
}

/// The short win probabilities of a grid that is set up do not depend on the outcomes
/// of long orders, nor the long ones on those of short orders; and nothing else of the
/// grid depends on any outcome.
pub proof fn each_side_learns_from_its_own_outcomes<F: Fn(Calculation) -> Num>(
    f: F,
    last_close: Num,
    m: MarketRead,
    a: Seq<TradingGrid>,
    b: Seq<TradingGrid>,
)
    ensures
        ({
            let x = setup_grid(f, last_close, m, realized_to(a, a.len()));
            let y = setup_grid(f, last_close, m, realized_to(b, b.len()));
            &&& same_short_outcomes(a, b) ==> x.short_win_p == y.short_win_p
            &&& same_long_outcomes(a, b) ==> x.long_win_p == y.long_win_p
            &&& y == (GridView { long_win_p: y.long_win_p, short_win_p: y.short_win_p, ..x })
        }),
{
    let x = setup_grid(f, last_close, m, realized_to(a, a.len()));
    let y = setup_grid(f, last_close, m, realized_to(b, b.len()));
    if a.len() == b.len() {
        lemma_same_sums(a, b, a.len());
    }
    if same_short_outcomes(a, b) {
        assert(x.short_win_p =~= y.short_win_p);
    }
    if same_long_outcomes(a, b) {
        assert(x.long_win_p =~= y.long_win_p);
    }
}

/// How many outcomes of a kind were counted on grids, `of` being the counts of that
/// kind.
pub open spec fn outcomes(grids: Seq<TradingGrid>, of: spec_fn(GridView) -> Seq<usize>) -> real {
    sum_over(grids, |g: TradingGrid| sum_over(of(g@), |c: usize| c as real))
}

/// Wins of long orders.
pub open spec fn long_wins(grids: Seq<TradingGrid>) -> real {
    outcomes(grids, |g: GridView| g.long_win)
}

/// Losses of long orders.
pub open spec fn long_losses(grids: Seq<TradingGrid>) -> real {
    outcomes(grids, |g: GridView| g.long_lost)
}

/// Wins of short orders.
pub open spec fn short_wins(grids: Seq<TradingGrid>) -> real {
    outcomes(grids, |g: GridView| g.short_win)
}

/// Losses of short orders.
pub open spec fn short_losses(grids: Seq<TradingGrid>) -> real {
    outcomes(grids, |g: GridView| g.short_lost)
}

proof fn lemma_sum_to(s: Seq<usize>, n: nat)
    requires
        n <= s.len(),
    ensures
        sum_to(s, n) as real == sum_over(s.take(n as int), |c: usize| c as real),
        sum_over(s.take(n as int), |c: usize| c as real) >= 0 as real,
    decreases n,
{
    if n > 0 {
        lemma_sum_to(s, (n - 1) as nat);
        assert(s.take(n as int).drop_last() =~= s.take(n - 1));
    } else {
        assert(s.take(0) =~= Seq::empty());
    }
}

proof fn lemma_realized(grids: Seq<TradingGrid>, n: nat)
    requires
        n <= grids.len(),
        forall|i: int| 0 <= i < grids.len() ==> (#[trigger] grids[i])@.inv(),
    ensures
        ({
            let r = realized_to(grids, n);
            let g = grids.take(n as int);
            &&& r.0 as real == long_wins(g)
            &&& r.1 as real == long_wins(g) + long_losses(g)
            &&& r.2 as real == short_wins(g)
            &&& r.3 as real == short_wins(g) + short_losses(g)
            &&& long_losses(g) >= 0 as real
            &&& short_losses(g) >= 0 as real
        }),
    decreases n,
{
    if n > 0 {
        lemma_realized(grids, (n - 1) as nat);
        let all = grids.take(n as int);
        assert(all.drop_last() =~= grids.take(n - 1));
        assert(all.last() == grids[n - 1]);
        let g = grids[n - 1]@;
        assert(g.inv());
        let k = g.levels.len();
        lemma_sum_to(g.long_win, k);
        lemma_sum_to(g.long_lost, k);
        lemma_sum_to(g.short_win, k);
        lemma_sum_to(g.short_lost, k);
        assert(g.long_win.take(k as int) =~= g.long_win);
        assert(g.long_lost.take(k as int) =~= g.long_lost);
        assert(g.short_win.take(k as int) =~= g.short_win);
        assert(g.short_lost.take(k as int) =~= g.short_lost);
        let r0 = realized_to(grids, (n - 1) as nat);
        let b = grid_realized(g);
        assert(realized_to(grids, n) == (r0.0 + b.0, r0.1 + b.1, r0.2 + b.2, r0.3 + b.3));
    } else {
        assert(grids.take(0) =~= Seq::empty());
    }
}

/// `p` drawn towards `share` by the part `alpha` of the way.
pub open spec fn drawn(p: real, share: real, alpha: real) -> real {
    p + alpha * (share - p)
}

proof fn lemma_blend<F: Fn(Calculation) -> Num>(f: F, val: spec_fn(Num) -> real, p: Num, wins: nat, all: nat)
    requires
        exact(f, val),
        all <= u128::MAX,
        wins <= all,
    ensures
        all < SETUP_OUTCOMES ==> blended(f, p, wins, all) == p,
        all >= SETUP_OUTCOMES && !blended(f, p, wins, all).nan() ==> !p.nan() && val(blended(f, p, wins, all)) == drawn(
            val(p),
            wins as real / all as real,
            val(Num { bits: ALPHA_BITS }),
        ),
{
    let b = blended(f, p, wins, all);
    if all >= SETUP_OUTCOMES && !b.nan() {
        let alpha = Num { bits: ALPHA_BITS };
        let one = Num { bits: ONE_BITS };
        let rest = difference(f, one, alpha);
        let kept = product(f, rest, p);
        let rate = quotient(f, count(f, wins as int), count(f, all as int));
        let pull = product(f, alpha, rate);
        assert(b == sum(f, kept, pull));
        assert(!kept.nan() && !pull.nan() && !rest.nan() && !rate.nan());
        let x = val(alpha);
        let y = val(p);
        let s = val(rate);
        assert((1 as real - x) * y + x * s == y + x * (s - y)) by (nonlinear_arith);
    }
}

/// The outcomes of the grids before draw the win probabilities of a new grid towards
/// the share of orders that were won, each side's by the share of that side: wins over
/// wins and losses. Under five outcomes of a side, its probabilities stay as the model
/// has them. What the model has them at is what they are without any grids before.
pub proof fn outcomes_draw_the_chances<F: Fn(Calculation) -> Num>(
    f: F,
    val: spec_fn(Num) -> real,
    last_close: Num,
    m: MarketRead,
    grids: Seq<TradingGrid>,
    j: int,
)
    requires
        exact(f, val),
        forall|i: int| 0 <= i < grids.len() ==> (#[trigger] grids[i])@.inv(),
        realized_to(grids, grids.len()).1 <= u128::MAX,
        realized_to(grids, grids.len()).3 <= u128::MAX,
        0 <= j < SETUP_LEVELS,
    ensures
        ({
            let fresh = setup_grid(f, last_close, m, realized_to(Seq::empty(), 0));
            let g = setup_grid(f, last_close, m, realized_to(grids, grids.len()));
            let alpha = val(Num { bits: ALPHA_BITS });
            let longs = long_wins(grids) + long_losses(grids);
            let shorts = short_wins(grids) + short_losses(grids);
            &&& fresh.long_win_p.len() == SETUP_LEVELS && g.long_win_p.len() == SETUP_LEVELS
            &&& fresh.short_win_p.len() == SETUP_LEVELS && g.short_win_p.len() == SETUP_LEVELS
            &&& longs < 5 as real ==> g.long_win_p[j] == fresh.long_win_p[j]
            &&& shorts < 5 as real ==> g.short_win_p[j] == fresh.short_win_p[j]
            &&& longs >= 5 as real && !g.long_win_p[j].nan() ==> val(g.long_win_p[j]) == drawn(
                val(fresh.long_win_p[j]),
                long_wins(grids) / longs,
                alpha,
            )
            &&& shorts >= 5 as real && !g.short_win_p[j].nan() ==> val(g.short_win_p[j]) == drawn(
                val(fresh.short_win_p[j]),
                short_wins(grids) / shorts,
                alpha,
            )
            &&& alpha > 0 as real
            &&& (alpha * 2 as real) < 1 as real
        }),
{
    let n = grids.len();
    let seen = realized_to(grids, n);
    let none = realized_to(Seq::empty(), 0);
    assert(grids.take(n as int) =~= grids);
    lemma_realized(grids, n);
    let long0 = tilted(f, m, j).0.held(m.long_low, m.long_high);
    let short0 = tilted(f, m, j).1.held(m.short_low, m.short_high);
    lemma_blend(f, val, long0, seen.0, seen.1);
    lemma_blend(f, val, short0, seen.2, seen.3);
    assert(long_probability(f, m, none, j) == long0);
    assert(short_probability(f, m, none, j) == short0);
    let g = setup_grid(f, last_close, m, seen);
    assert(g.long_win_p[j] == long_probability(f, m, seen, j));
    assert(g.short_win_p[j] == short_probability(f, m, seen, j));
    let alpha = Num { bits: ALPHA_BITS };
    let half = Num { bits: HALF_BITS };
    let zero = Num { bits: 0 };
    assert(alpha.key() <= zero.key() <==> val(alpha) <= val(zero));
    assert(half.key() <= alpha.key() <==> val(half) <= val(alpha));
}

/// How far a reading of the market leans, from zero to one.
pub open spec fn leaning(val: spec_fn(Num) -> real, m: MarketRead) -> real {
    let d = without(val(m.market_bias) - val(Num { bits: HALF_BITS })) * 2 as real;
    if d > 1 as real {
        1 as real
    } else {
        d
    }
}

/// A real number, or the bound that it lies beyond.
pub open spec fn clamped(x: real, low: real, high: real) -> real {
    if x < low {
        low
    } else if x > high {
        high
    } else {
        x
    }
}

pub proof fn lemma_held(val: spec_fn(Num) -> real, x: Num, low: Num, high: Num)
    requires
        reads(val),
        low.at_most(high),
    ensures
        !x.held(low, high).nan() ==> !x.nan() && val(x.held(low, high)) == clamped(val(x), val(low), val(high)),
{
    assert(!x.nan() ==> (x.key() <= low.key() <==> val(x) <= val(low)));
    assert(!x.nan() ==> (low.key() <= x.key() <==> val(low) <= val(x)));
    assert(!x.nan() ==> (x.key() <= high.key() <==> val(x) <= val(high)));
    assert(!x.nan() ==> (high.key() <= x.key() <==> val(high) <= val(x)));
    assert(low.key() <= high.key() <==> val(low) <= val(high));
}

/// A number held between two bounds lies between them.
pub proof fn lemma_within(val: spec_fn(Num) -> real, x: Num, low: Num, high: Num)
    requires
        reads(val),
        low.at_most(high),
        !x.held(low, high).nan(),
    ensures
        val(low) <= val(x.held(low, high)),
        val(x.held(low, high)) <= val(high),
{
    lemma_held(val, x, low, high);
    assert(low.key() <= high.key() <==> val(low) <= val(high));
}

proof fn lemma_strength<F: Fn(Calculation) -> Num>(f: F, val: spec_fn(Num) -> real, m: MarketRead)
    requires
        exact(f, val),
        !(m.direction is Flat),
        m.direction is Up ==> val(m.market_bias) >= val(Num { bits: HALF_BITS }),
    ensures
        !strength_of(f, m).nan() ==> val(strength_of(f, m)) == leaning(val, m),
{
    let off = difference(f, m.market_bias, Num { bits: HALF_BITS });
    let zero = Num { bits: 0 };
    let one = Num { bits: ONE_BITS };
    let two = Num { bits: TWO_BITS };
    let s = strength_of(f, m);
    if !s.nan() {
        if m.direction is Up {
            let x = product(f, off, two);
            lemma_held(val, x, zero, one);
            assert(!off.nan());
        } else {
            let x = product(f, unsigned(off), two);
            lemma_held(val, x, zero, one);
            assert(!unsigned(off).nan());
            assert(!off.nan());
        }
    }
}

/// Without outcomes, the chances of a grid that is set up are those the model gives:
/// its base, plus for long orders and minus for short ones what the market leans by;
/// over the levels from the lowest to the highest the chances of both sides fall by the
/// trend. Each side's are kept within that side's bounds. In a flat market all are the
/// base.
pub proof fn the_model_sets_the_chances<F: Fn(Calculation) -> Num>(
    f: F,
    val: spec_fn(Num) -> real,
    last_close: Num,
    outputs: Seq<Vec<Num>>,
    j: int,
)
    requires
        exact(f, val),
        market_read(last_close, outputs) is Some,
        0 <= j < SETUP_LEVELS,
    ensures
        ({
            let m = market_read(last_close, outputs)->0;
            let g = setup_grid(f, last_close, m, realized_to(Seq::empty(), 0));
            let base = val(m.prob_base);
            let lean = if m.direction is Flat { 0 as real } else { leaning(val, m) * val(m.bias_scale) };
            let slope = if m.direction is Flat { 0 as real } else { val(m.level_trend) };
            let t = j as real / 4 as real;
            &&& !g.long_win_p[j].nan() ==> val(g.long_win_p[j]) == clamped(
                base + lean + (1 as real - t) * slope,
                val(m.long_low),
                val(m.long_high),
            )
            &&& !g.short_win_p[j].nan() ==> val(g.short_win_p[j]) == clamped(
                base - lean - t * slope,
                val(m.short_low),
                val(m.short_high),
            )
        }),
{
    bounds_are_in_order(last_close, outputs);
    let m = market_read(last_close, outputs)->0;
    let none = realized_to(Seq::empty(), 0);
    let g = setup_grid(f, last_close, m, none);
    let half = Num { bits: HALF_BITS };
    let up = Num { bits: UP_ABOVE_BITS };
    let long = tilted(f, m, j).0;
    let short = tilted(f, m, j).1;
    assert(g.long_win_p[j] == long.held(m.long_low, m.long_high));
    assert(g.short_win_p[j] == short.held(m.short_low, m.short_high));
    lemma_held(val, long, m.long_low, m.long_high);
    lemma_held(val, short, m.short_low, m.short_high);
    let t0 = j as real / 4 as real;
    if m.direction is Flat {
        assert((1 as real - t0) * 0 as real == 0 as real) by (nonlinear_arith);
        assert(t0 * 0 as real == 0 as real) by (nonlinear_arith);
    } else {
        if m.direction is Up {
            assert(up.below(m.market_bias));
            assert(half.key() <= m.market_bias.key() <==> val(half) <= val(m.market_bias));
        }
        lemma_strength(f, val, m);
        let t = quotient(f, count(f, j), count(f, SETUP_LEVELS - 1));
        let bias = product(f, strength_of(f, m), m.bias_scale);
        let one = Num { bits: ONE_BITS };
        if !long.nan() {
            let a = sum(f, m.prob_base, bias);
            let b = product(f, difference(f, one, t), m.level_trend);
            assert(long == sum(f, a, b));
            assert(!a.nan() && !b.nan() && !bias.nan() && !strength_of(f, m).nan() && !difference(f, one, t).nan());
            assert(!t.nan());
            assert(val(t) == t0);
        }
        if !short.nan() {
            let a = difference(f, m.prob_base, bias);
            let b = product(f, t, m.level_trend);
            assert(short == difference(f, a, b));
            assert(!a.nan() && !b.nan() && !bias.nan() && !strength_of(f, m).nan() && !t.nan());
            assert(val(t) == t0);
        }
    }
}

/// The grid that is set up reaches one average true range below and above the last
/// close, its levels evenly spaced from the lowest to the highest. It counts no outcome
/// yet.
pub proof fn the_grid_spans_the_true_range<F: Fn(Calculation) -> Num>(
    f: F,
    val: spec_fn(Num) -> real,
    last_close: Num,
    m: MarketRead,
    seen: (nat, nat, nat, nat),
    j: int,
)
    requires
        exact(f, val),
        0 <= j < SETUP_LEVELS,
    ensures
        ({
            let g = setup_grid(f, last_close, m, seen);
            &&& g.levels.len() == SETUP_LEVELS
            &&& !g.levels[j].nan() ==> val(g.levels[j]) == val(last_close) + val(m.atr) * (j as real / 2 as real - 1 as real)
            &&& g.sl_pct == (Num { bits: SL_PCT_BITS })
            &&& g.max_candles == SETUP_CANDLES
            &&& forall|i: int| 0 <= i < SETUP_LEVELS ==> #[trigger] get_or(g.long_win, i, 0) == 0 && get_or(g.long_lost, i, 0)
                == 0 && get_or(g.short_win, i, 0) == 0 && get_or(g.short_lost, i, 0) == 0
            &&& has_range(f, last_close, m) ==> val(m.atr) > 0 as real
        }),
{
    let g = setup_grid(f, last_close, m, seen);
    let two = Num { bits: TWO_BITS };
    let wide = product(f, two, m.atr);
    let half = quotient(f, wide, two);
    let min = difference(f, last_close, half);
    let max = sum(f, last_close, half);
    let step = even_step(f, SETUP_LEVELS, min, max);
    let a = val(m.atr);
    assert(half_width(f, m) == half);
    assert(frame(f, last_close, m) == (min, max));
    assert(g.levels == spaced(f, SETUP_LEVELS, min, step));
    assert((2 as real * a) / 2 as real == a) by (nonlinear_arith);
    if !g.levels[j].nan() {
        let off = product(f, count(f, j), step);
        assert(g.levels[j] == sum(f, min, off));
        assert(!min.nan() && !off.nan() && !step.nan() && !count(f, j).nan());
        let width = difference(f, max, min);
        let parts = count(f, SETUP_LEVELS - 1);
        assert(step == quotient(f, width, parts));
        assert(!width.nan() && !max.nan() && !half.nan() && !wide.nan());
        assert(val(half) == a);
        assert(val(width) == 2 as real * a);
        assert(val(step) == (2 as real * a) / 4 as real);
        let jj = j as real;
        assert(jj * ((2 as real * a) / 4 as real) - a == a * (jj / 2 as real - 1 as real)) by (nonlinear_arith);
    }
    if has_range(f, last_close, m) {
        assert(!min.nan() && !max.nan() && !half.nan() && !wide.nan());
        assert(max.key() <= min.key() <==> val(max) <= val(min));
    }
}

/// A head with eight finite outputs is read as it stands: the market's bias, the base,
/// the scale of the bias and the trend over the levels, then the bounds of the long
/// chances and those of the short ones, whichever way round they come.
pub proof fn a_finite_head_is_read_as_it_stands(last_close: Num, outputs: Seq<Vec<Num>>)
    requires
        outputs.len() >= 2,
        outputs[0]@.len() >= 8,
        forall|i: int| 0 <= i < 8 ==> (#[trigger] outputs[0]@[i]).finite(),
        outputs[1]@.len() >= 1,
        outputs[1]@[0].finite(),
    ensures
        ({
            let gp = outputs[0]@;
            let zero = Num { bits: 0 };
            match market_read(last_close, outputs) {
                None => outputs[1]@[0].at_most(zero) || !last_close.finite() || last_close.at_most(zero),
                Some(m) => {
                    &&& zero.below(outputs[1]@[0]) && last_close.finite() && zero.below(last_close)
                    &&& m.atr == outputs[1]@[0]
                    &&& m.market_bias == gp[0] && m.prob_base == gp[1] && m.bias_scale == gp[2] && m.level_trend == gp[3]
                    &&& m.long_low.at_most(m.long_high) && m.short_low.at_most(m.short_high)
                    &&& (m.long_low == gp[4] && m.long_high == gp[5]) || (m.long_low == gp[5] && m.long_high == gp[4])
                        || (m.long_low == gp[5] && m.long_high == gp[5] && gp[4].key() == gp[5].key())
                    &&& (m.short_low == gp[6] && m.short_high == gp[7]) || (m.short_low == gp[7] && m.short_high == gp[6])
                        || (m.short_low == gp[7] && m.short_high == gp[7] && gp[6].key() == gp[7].key())
                    &&& m.direction is Up ==> (Num { bits: HALF_BITS }).below(gp[0])
                    &&& m.direction is Down ==> gp[0].below(Num { bits: HALF_BITS })
                },
            }
        }),
{
    let gp = outputs[0]@;
    assert(gp[0].finite() && gp[1].finite() && gp[2].finite() && gp[3].finite());
    assert(gp[4].finite() && gp[5].finite() && gp[6].finite() && gp[7].finite());
}


/// At every candle the capital leans with the market: towards the low levels where the
/// model's bias says that it rises, towards the high ones where it says that it falls;
/// and in a flat market it lies as on a bell.
pub proof fn the_capital_leans_with_the_market<F: Fn(Calculation) -> Num>(
    f: F,
    val: spec_fn(Num) -> real,
    last_close: Num,
    outputs: Seq<Vec<Num>>,
    seen: (nat, nat, nat, nat),
    i: int,
    j: int,
    t: int,
)
    requires
        exact(f, val),
        powers_keep_order(f, val),
        val(Num { bits: FOUR_BITS }) == 4 as real,
        market_read(last_close, outputs) is Some,
        0 <= i < j < SETUP_LEVELS,
        0 <= t,
        ({
            let m = market_read(last_close, outputs)->0;
            let g = setup_grid(f, last_close, m, seen);
            &&& forall|q: int| 0 <= q < SETUP_LEVELS ==> !(#[trigger] g.weight(q, 0)).nan()
            &&& val(
                total(
                    f,
                    Seq::new(
                        SETUP_LEVELS as nat,
                        |q: int| trend_pull(f, SETUP_LEVELS, sign_of(m.direction), strength_of(f, m), q),
                    ),
                ),
            ) > 0 as real
        }),
    ensures
        ({
            let m = market_read(last_close, outputs)->0;
            let g = setup_grid(f, last_close, m, seen);
            let half = val(Num { bits: HALF_BITS });
            &&& m.direction !is Flat && val(m.market_bias) > half ==> val(g.weight(i, t)) >= val(g.weight(j, t))
            &&& m.direction !is Flat && val(m.market_bias) < half ==> val(g.weight(i, t)) <= val(g.weight(j, t))
            &&& m.direction is Flat ==> g.weight(i, t) == normal_weights(f, SETUP_LEVELS, Num { bits: FOUR_BITS })[i]
        }),
{
    let m = market_read(last_close, outputs)->0;
    let g = setup_grid(f, last_close, m, seen);
    let w = setup_weights(f, m);
    assert(w.len() == SETUP_LEVELS);
    assert forall|q: int, u: int| 0 <= q < SETUP_LEVELS && 0 <= u implies #[trigger] g.weight(q, u) == w[q] by {}
    let half = Num { bits: HALF_BITS };
    let up = Num { bits: UP_ABOVE_BITS };
    let down = Num { bits: DOWN_BELOW_BITS };
    if m.direction !is Flat {
        let sign = sign_of(m.direction);
        assert(w == trend_weights(f, SETUP_LEVELS, sign, strength_of(f, m)));
        assert forall|q: int| 0 <= q < SETUP_LEVELS implies !(#[trigger] trend_weights(
            f,
            SETUP_LEVELS,
            sign,
            strength_of(f, m),
        )[q]).nan() by {
            assert(!g.weight(q, 0).nan());
        }
        trend_weights_lean_with_the_trend(f, val, SETUP_LEVELS, sign, strength_of(f, m), i, j);
        let zero = Num { bits: 0 };
        assert(sign.key() <= zero.key() <==> val(sign) <= val(zero));
        assert(zero.key() <= sign.key() <==> val(zero) <= val(sign));
        assert(m.market_bias.key() <= half.key() <==> val(m.market_bias) <= val(half));
        assert(half.key() <= m.market_bias.key() <==> val(half) <= val(m.market_bias));
    }
}

} // verus!
