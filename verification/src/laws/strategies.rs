//! What the chances, stops and ranges of strategies amount to, and what trades cost.
use vstd::prelude::*;

use super::setup::{clamped, lemma_held};
use crate::arith::{count, difference, product, quotient, sum, total, unsigned, Calculation, HALF_BITS, ONE_BITS};
use crate::candle::CandleStick;
use crate::exact::{exact, real_total, sums_are_exact, without};
use crate::fee::{both_sides, DerivativeFee, Fee};
use crate::graph::meaning::{greater_of, lesser_of};
use crate::grid::GridView;
use crate::num::{Num, INFINITY_BITS};
use crate::strategies::{
    average_range, bounded, drift_of, highest, lowest, modelled, rated, smoothed, true_range, true_ranges, updated,
    Design, VolatilityAdaptiveGridStrategy, LEAST_STOP_BITS, LEAST_WIN_BITS, MOST_WIN_BITS, TENTH_BITS,
};

verus! {

proof fn lemma_bounds()
    ensures
        (Num { bits: LEAST_WIN_BITS }).at_most(Num { bits: MOST_WIN_BITS }),
        (Num { bits: LEAST_STOP_BITS }).at_most(Num { bits: TENTH_BITS }),
{
}

/// A probability kept within the bounds of a level's.
pub open spec fn kept(val: spec_fn(Num) -> real, p: real) -> real {
    clamped(p, val(Num { bits: LEAST_WIN_BITS }), val(Num { bits: MOST_WIN_BITS }))
}

/// The drift of a cell is how much more often prices leave it upwards than downwards, of
/// all the times they leave it.
pub proof fn the_drift_is_the_balance_of_leaving<F: Fn(Calculation) -> Num>(
    f: F,
    val: spec_fn(Num) -> real,
    up: Seq<Num>,
    down: Seq<Num>,
    cell: int,
)
    requires
        exact(f, val),
        0 <= cell < up.len(),
        cell < down.len(),
        !drift_of(f, up, down, cell).nan(),
        drift_of(f, up, down, cell).key() != 0,
    ensures
        val(drift_of(f, up, down, cell)) * (val(up[cell]) + val(down[cell])) == val(up[cell]) - val(down[cell]),
{
    let u = up[cell];
    let d = down[cell];
    let r = drift_of(f, up, down, cell);
    let s = sum(f, u, d);
    let m = difference(f, u, d);
    assert(r == quotient(f, m, s));
    assert(!m.nan() && !s.nan());
    lemma_times(val(r), val(m), val(s));
}

proof fn lemma_times(x: real, a: real, b: real)
    requires
        x == a / b,
        b != 0 as real,
    ensures
        x * b == a,
{
    assert(x * b == a) by (nonlinear_arith)
        requires
            x == a / b,
            b != 0 as real,
    ;
}

/// A drift upwards makes long orders likelier to win and short ones less so, by as much.
/// Long orders are likelier to win the lower their level, short ones the higher, by up to
/// a tenth. What holds for long orders holds for short ones with the drift and the
/// levels turned over.
pub proof fn a_drift_favours_its_side<F: Fn(Calculation) -> Num>(
    f: F,
    val: spec_fn(Num) -> real,
    drift: Num,
    j: int,
    k: int,
)
    requires
        exact(f, val),
        2 <= k <= usize::MAX,
        0 <= j < k,
    ensures
        ({
            let (long, short) = modelled(f, drift, j, k);
            let half = val(Num { bits: HALF_BITS });
            let tenth = val(Num { bits: TENTH_BITS });
            let low = j as real / (k - 1) as real;
            let high = (k - 1 - j) as real / (k - 1) as real;
            &&& !long.nan() ==> val(long) == kept(val, half + val(drift) + high * tenth)
            &&& !short.nan() ==> val(short) == kept(val, half - val(drift) + low * tenth)
        }),
{
    lemma_bounds();
    let (long, short) = modelled(f, drift, j, k);
    let half = Num { bits: HALF_BITS };
    let tenth = Num { bits: TENTH_BITS };
    let one = Num { bits: ONE_BITS };
    let t = quotient(f, count(f, j), count(f, k - 1));
    let least = Num { bits: LEAST_WIN_BITS };
    let most = Num { bits: MOST_WIN_BITS };
    let m = (k - 1) as real;
    let a = j as real;
    assert(1 as real - a / m == (m - a) / m) by (nonlinear_arith)
        requires
            m > 0 as real,
    ;
    let l = sum(f, sum(f, half, drift), product(f, difference(f, one, t), tenth));
    let s = sum(f, difference(f, half, drift), product(f, t, tenth));
    lemma_held(val, l, least, most);
    lemma_held(val, s, least, most);
    if !long.nan() {
        assert(long == l.held(least, most));
        assert(!l.nan());
        let x = product(f, difference(f, one, t), tenth);
        assert(!x.nan() && !sum(f, half, drift).nan());
        assert(!difference(f, one, t).nan());
        assert(!t.nan());
    }
    if !short.nan() {
        assert(short == s.held(least, most));
        assert(!s.nan());
        let x = product(f, t, tenth);
        assert(!x.nan() && !difference(f, half, drift).nan());
        assert(!t.nan());
    }
}

/// What a level learns from its trades: as if it had seen `smoothing_k` more of them, of
/// which the part that it was thought to win was won. With too few trades it learns
/// nothing.
pub proof fn learning_adds_the_trades_that_were_expected<F: Fn(Calculation) -> Num>(
    f: F,
    val: spec_fn(Num) -> real,
    wins: usize,
    losses: usize,
    p: Num,
    min_trades: usize,
    smoothing_k: Num,
)
    requires
        exact(f, val),
        wins + losses > 0,
        !smoothing_k.nan(),
        val(smoothing_k) >= 0 as real,
    ensures
        ({
            let new = smoothed(f, wins, losses, p, min_trades, smoothing_k);
            let n = (wins + losses) as real;
            let k = val(smoothing_k);
            &&& wins + losses < min_trades ==> new == p
            &&& wins + losses >= min_trades && !new.nan() ==> val(new) == kept(
                val,
                (wins as real + k * val(p)) / (n + k),
            )
        }),
{
    lemma_bounds();
    let new = smoothed(f, wins, losses, p, min_trades, smoothing_k);
    if wins + losses >= min_trades && !new.nan() {
        let least = Num { bits: LEAST_WIN_BITS };
        let most = Num { bits: MOST_WIN_BITS };
        let one = Num { bits: ONE_BITS };
        let c = count(f, wins + losses);
        let spread = sum(f, c, smoothing_k);
        let w = quotient(f, c, spread);
        let rate = quotient(f, count(f, wins as int), c);
        let seen = product(f, w, rate);
        let rest = difference(f, one, w);
        let before = product(f, rest, p);
        let x = sum(f, seen, before);
        assert(new == bounded(x));
        lemma_held(val, x, least, most);
        assert(!x.nan());
        assert(!seen.nan() && !before.nan() && !w.nan() && !rate.nan() && !rest.nan() && !spread.nan() && !c.nan());
        let n = (wins + losses) as real;
        let k = val(smoothing_k);
        let s = wins as real;
        let q = val(p);
        let d = n + k;
        assert(val(w) == n / d && val(rate) == s / n);
        assert((n / d) * (s / n) == s / d) by (nonlinear_arith)
            requires
                n > 0 as real,
                d > 0 as real,
        ;
        assert((1 as real - n / d) * q == (k * q) / d) by (nonlinear_arith)
            requires
                d == n + k,
                d > 0 as real,
        ;
        assert(s / d + (k * q) / d == (s + k * q) / d) by (nonlinear_arith)
            requires
                d > 0 as real,
        ;
    }
}

/// Long chances learn from long orders and short chances from short ones: what a grid
/// learns of one side does not depend on the outcomes or the chances of the other.
pub proof fn each_side_learns_from_itself<F: Fn(Calculation) -> Num>(
    f: F,
    a: GridView,
    b: GridView,
    min_trades: usize,
    smoothing_k: Num,
)
    requires
        a.inv(),
        b.inv(),
        a.levels.len() == b.levels.len(),
    ensures
        a.long_win == b.long_win && a.long_lost == b.long_lost && a.long_win_p == b.long_win_p ==> updated(
            f,
            a,
            min_trades,
            smoothing_k,
        ).long_win_p == updated(f, b, min_trades, smoothing_k).long_win_p,
        a.short_win == b.short_win && a.short_lost == b.short_lost && a.short_win_p == b.short_win_p ==> updated(
            f,
            a,
            min_trades,
            smoothing_k,
        ).short_win_p == updated(f, b, min_trades, smoothing_k).short_win_p,
{
    let x = updated(f, a, min_trades, smoothing_k);
    let y = updated(f, b, min_trades, smoothing_k);
    if a.long_win == b.long_win && a.long_lost == b.long_lost && a.long_win_p == b.long_win_p {
        assert(x.long_win_p =~= y.long_win_p);
    }
    if a.short_win == b.short_win && a.short_lost == b.short_lost && a.short_win_p == b.short_win_p {
        assert(x.short_win_p =~= y.short_win_p);
    }
}

/// The chances of a level come from the same level of the same cell before, long from
/// long and short from short, where three trades or more were closed there; else from
/// the drift of the cell.
pub proof fn chances_come_from_the_same_level<F: Fn(Calculation) -> Num>(
    f: F,
    d: Design,
    plan: Seq<GridView>,
    cell: int,
    j: int,
)
    requires
        forall|i: int| 0 <= i < plan.len() ==> (#[trigger] plan[i]).inv(),
        0 <= cell,
        0 <= j < d.levels,
    ensures
        ({
            let drift = modelled(f, drift_of(f, d.up@, d.down@, cell), j, d.levels as int);
            let chances = d.chances(f, plan, cell, j);
            &&& cell >= plan.len() || j >= plan[cell].levels.len() ==> chances == drift
            &&& cell < plan.len() && j < plan[cell].levels.len() ==> {
                let g = plan[cell];
                &&& g.long_win[j] + g.long_lost[j] >= 3 ==> chances.0 == g.long_win_p[j]
                &&& g.long_win[j] + g.long_lost[j] < 3 ==> chances.0 == drift.0
                &&& g.short_win[j] + g.short_lost[j] >= 3 ==> chances.1 == g.short_win_p[j]
                &&& g.short_win[j] + g.short_lost[j] < 3 ==> chances.1 == drift.1
            }
        }),
{
    if cell < plan.len() {
        assert(plan[cell].inv());
    }
}

/// The true range of a candle goes from the lower of its low and the close before to the
/// higher of its high and the close before.
pub proof fn a_true_range_spans_the_gap<F: Fn(Calculation) -> Num>(
    f: F,
    val: spec_fn(Num) -> real,
    before: CandleStick,
    c: CandleStick,
)
    requires
        exact(f, val),
        val(c.l) <= val(c.h),
        !difference(f, c.h, c.l).nan(),
        !difference(f, c.h, before.c).nan(),
        !difference(f, c.l, before.c).nan(),
    ensures
        !true_range(f, before, c).nan(),
        val(true_range(f, before, c)) == greater_of(val(c.h), val(before.c)) - lesser_of(val(c.l), val(before.c)),
{
    let a = difference(f, c.h, c.l);
    let x = difference(f, c.h, before.c);
    let y = difference(f, c.l, before.c);
    let b = unsigned(x);
    let d = unsigned(y);
    assert(!b.nan() && !d.nan());
    assert(val(b) == without(val(x)) && val(d) == without(val(y)));
    let m = a.greater(b);
    assert(a.key() <= b.key() <==> val(a) <= val(b));
    assert(b.key() <= a.key() <==> val(b) <= val(a));
    assert(m.key() <= d.key() <==> val(m) <= val(d));
    assert(d.key() <= m.key() <==> val(d) <= val(m));
}

/// The average true range is the mean of the last true ranges, as many as the period
/// asks for and there are.
pub proof fn the_average_range_is_a_mean<F: Fn(Calculation) -> Num>(
    f: F,
    val: spec_fn(Num) -> real,
    candles: Seq<CandleStick>,
    period: usize,
)
    requires
        exact(f, val),
        2 <= candles.len() <= usize::MAX,
        period > 0,
        !average_range(f, candles, period).nan(),
    ensures
        ({
            let all = true_ranges(f, candles);
            let n = if all.len() < period { all.len() as int } else { period as int };
            &&& all.len() == candles.len() - 1
            &&& val(average_range(f, candles, period)) * n as real == real_total(val, all.skip(all.len() - n))
        }),
{
    let all = true_ranges(f, candles);
    let n = if all.len() < period { all.len() as int } else { period as int };
    let r = average_range(f, candles, period);
    let t = total(f, all.skip(all.len() - n));
    assert(r == quotient(f, t, count(f, n)));
    assert(!t.nan());
    sums_are_exact(f, val, all.skip(all.len() - n));
    lemma_times(val(r), val(t), n as real);
}

/// The stop that follows the average true range is that many ranges as a part of the
/// last close, kept within its bounds.
pub proof fn a_stop_follows_the_range<F: Fn(Calculation) -> Num>(
    f: F,
    val: spec_fn(Num) -> real,
    atr: Num,
    multiplier: Num,
    last_close: Num,
)
    requires
        exact(f, val),
        !VolatilityAdaptiveGridStrategy::stop_of(f, atr, multiplier, last_close).nan(),
    ensures
        val(VolatilityAdaptiveGridStrategy::stop_of(f, atr, multiplier, last_close)) == clamped(
            (val(atr) * val(multiplier)) / val(last_close),
            val(Num { bits: LEAST_STOP_BITS }),
            val(Num { bits: TENTH_BITS }),
        ),
{
    lemma_bounds();
    let w = product(f, atr, multiplier);
    let x = quotient(f, w, last_close);
    lemma_held(val, x, Num { bits: LEAST_STOP_BITS }, Num { bits: TENTH_BITS });
    assert(!x.nan());
    assert(!w.nan());
}

/// The range of prices holds every low and every high, and no more: its bounds are the
/// low of one candle and the high of one.
pub proof fn the_price_range_holds_every_candle(candles: Seq<CandleStick>, n: nat)
    requires
        0 < n <= candles.len(),
        forall|i: int| 0 <= i < candles.len() ==> (#[trigger] candles[i]).l.finite() && candles[i].h.finite(),
    ensures
        forall|i: int| 0 <= i < n ==> lowest(candles, n).at_most((#[trigger] candles[i]).l),
        forall|i: int| 0 <= i < n ==> (#[trigger] candles[i]).h.at_most(highest(candles, n)),
        exists|i: int| 0 <= i < n && (#[trigger] candles[i]).l == lowest(candles, n),
        exists|i: int| 0 <= i < n && (#[trigger] candles[i]).h == highest(candles, n),
    decreases n,
{
    assert(candles[n - 1].l.finite() && candles[n - 1].h.finite());
    if n > 1 {
        the_price_range_holds_every_candle(candles, (n - 1) as nat);
        let a = choose|i: int| 0 <= i < n - 1 && (#[trigger] candles[i]).l == lowest(candles, (n - 1) as nat);
        let b = choose|i: int| 0 <= i < n - 1 && (#[trigger] candles[i]).h == highest(candles, (n - 1) as nat);
        assert(candles[a].l.finite() && candles[b].h.finite());
        assert(0 <= a < n && 0 <= b < n);
    } else {
        assert(lowest(candles, 0) == (Num { bits: INFINITY_BITS }));
        let bottom = highest(candles, 0);
        assert(bottom.bits == 0xFFF0_0000_0000_0000u64);
        assert(bottom.key() == -0x7FF0_0000_0000_0000);
        assert(candles[0].l == lowest(candles, n));
        assert(candles[0].h == highest(candles, n));
    }
}

/// What a trade of a derivative costs: opening and closing cost twice one side; one side
/// costs the commission, but no less than the least one, the fixed fee and the tax on
/// the value of the contract; and as a rate, that over the value.
pub proof fn fees_add_up<F: Fn(Calculation) -> Num>(f: F, val: spec_fn(Num) -> real, fee: DerivativeFee, rate: Num)
    requires
        exact(f, val),
        rate == fee.rated(f),
        !fee.min_commission.nan(),
        !fee.valued(f).nan(),
        val(fee.valued(f)) > 0 as real,
        !product(f, fee.commission_rate, fee.valued(f)).nan(),
    ensures
        ({
            let value = val(fee.assumed_price) * val(fee.contract_multiplier);
            let side = greater_of(val(fee.commission_rate) * value, val(fee.min_commission)) + val(fee.vsd_fee) + val(
                fee.tax_rate,
            ) * value;
            &&& val(fee.valued(f)) == value
            &&& !fee.side(f).nan() ==> val(fee.side(f)) == side
            &&& !rate.nan() ==> val(rate) * value == side
            &&& !both_sides(f, rate).nan() ==> val(both_sides(f, rate)) == 2 as real * val(rate)
            &&& !both_sides(f, fee.side(f)).nan() ==> val(both_sides(f, fee.side(f))) == 2 as real * side
        }),
{
    let cv = fee.valued(f);
    let zero = Num { bits: 0 };
    assert(cv.key() <= zero.key() <==> val(cv) <= val(zero));
    let c = product(f, fee.commission_rate, cv);
    let m = fee.min_commission;
    let commission = c.greater(m);
    assert(c.key() <= m.key() <==> val(c) <= val(m));
    assert(m.key() <= c.key() <==> val(m) <= val(c));
    let tax = product(f, fee.tax_rate, cv);
    let s = sum(f, sum(f, commission, fee.vsd_fee), tax);
    assert(fee.side(f) == s);
    if !s.nan() {
        assert(!tax.nan() && !sum(f, commission, fee.vsd_fee).nan());
    }
    assert(rate == quotient(f, s, cv));
    if !rate.nan() {
        assert(!s.nan());
        lemma_times(val(rate), val(s), val(cv));
    }
    if !both_sides(f, s).nan() {
        assert(!s.nan());
    }
}

} // verus!
