//! What the plans of the grid strategies amount to.
use vstd::arithmetic::div_mod::lemma_fundamental_div_mod;
use vstd::prelude::*;

use super::analysis::{lemma_nearest, lemma_whole, stands_for};
use super::setup::clamped;
use super::strategies::{a_stop_follows_the_range, the_price_range_holds_every_candle};
use super::trading::how_many;
use super::weights::even_grids_reach_from_bound_to_bound;
use crate::analysis::AnalysisGrid;
use crate::arith::{count, difference, product, quotient, sum, Calculation, TWO_BITS};
use crate::candle::CandleStick;
use crate::exact::exact;
use crate::grid::GridView;
use crate::num::{Num, SIGN_BIT};
use crate::pricing::{centered_start, normal_weights, FOUR_BITS};
use crate::rounding::{in_memory, in_word};
use crate::strategies::{
    candles_of, Design, GridStrategy, Layout, VolatilityAdaptiveGridStrategy, LEAST_STOP_BITS, MIN_ATR_PERIOD, TENTH_BITS,
};

verus! {

/// The grid of a cell has the stop and the candles of its design, the chances of its own
/// cell, long and short each on its side and level by level, and at every candle the
/// weight of its level. Nothing is counted on it yet.
pub proof fn a_cells_grid_is_as_designed<F: Fn(Calculation) -> Num>(
    f: F,
    d: Design,
    plan: Seq<GridView>,
    cell: int,
    j: int,
    t: int,
)
    requires
        d.levels >= 2,
        0 <= j < d.levels,
        0 <= t,
        normal_weights(f, d.levels, Num { bits: FOUR_BITS }).len() == d.levels,
    ensures
        ({
            let g = d.grid_of(f, plan, cell);
            &&& g.inv()
            &&& g.levels.len() == d.levels
            &&& g.sl_pct == d.sl_pct
            &&& g.max_candles == d.max_candles
            &&& (g.long_win_p[j], g.short_win_p[j]) == d.chances(f, plan, cell, j)
            &&& g.weight(j, t) == normal_weights(f, d.levels, Num { bits: FOUR_BITS })[j]
            &&& g.long_win[j] == 0 && g.long_lost[j] == 0 && g.short_win[j] == 0 && g.short_lost[j] == 0
        }),
{
    let bare = d.layout.bare(f, d.levels, d.cells.range_of(f, cell));
    assert(bare.inv());
    let g1 = (GridView { sl_pct: d.sl_pct, ..bare }).with_weights(normal_weights(f, d.levels, Num { bits: FOUR_BITS }));
    assert(g1.weights[j].len() == g1.weight_cols());
    let g2 = g1.with_max_candles(d.max_candles);
    assert(g2.weight(j, t) == normal_weights(f, d.levels, Num { bits: FOUR_BITS })[j]);
}

/// A grid lies in its cell, and the cells side by side from the lower bound of the range:
/// one that is evenly laid goes from the lower to the upper bound of its cell, one that
/// is centered lies evenly about the middle of its cell, its levels a step apart.
pub proof fn grids_lie_in_their_cells<F: Fn(Calculation) -> Num>(
    f: F,
    val: spec_fn(Num) -> real,
    d: Design,
    plan: Seq<GridView>,
    cell: int,
    j: int,
)
    requires
        exact(f, val),
        d.levels >= 2,
        0 <= cell <= u64::MAX,
        0 <= j < d.levels,
        !d.grid_of(f, plan, cell).levels[j].nan(),
        !d.cells.range_of(f, cell).1.nan(),
    ensures
        ({
            let level = val(d.grid_of(f, plan, cell).levels[j]);
            let low = val(d.cells.min) + cell as real * val(d.cells.step);
            let high = low + val(d.cells.step);
            &&& d.layout is Even ==> (level - low) * (d.levels - 1) as real == (high - low) * j as real
            &&& d.layout is Even && j == 0 ==> level == low
            &&& d.layout is Even && j == d.levels - 1 ==> level == high
            &&& d.layout matches Layout::Centered { step } ==> 2 as real * level - (low + high) == (2 as real * j as real - (
            d.levels - 1) as real) * val(step)
        }),
{
    let range = d.cells.range_of(f, cell);
    let off = product(f, count(f, cell), d.cells.step);
    assert(!range.0.nan());
    assert(!off.nan());
    let middle = quotient(f, sum(f, range.0, range.1), Num { bits: TWO_BITS });
    let step = match d.layout {
        Layout::Centered { step } => step,
        Layout::Even => range.0,
    };
    even_grids_reach_from_bound_to_bound(f, val, d.levels, range.0, range.1, middle, step, j);
    let g = d.grid_of(f, plan, cell);
    assert(g.levels == d.layout.bare(f, d.levels, range).levels);
    if d.layout is Centered {
        lemma_center(f, d.levels, middle, step, j, val);
        let both = sum(f, range.0, range.1);
        assert(!middle.nan());
        assert(!both.nan());
        let (m, b) = (val(middle), val(both));
        assert(2 as real * m == b) by (nonlinear_arith)
            requires
                m == b / 2 as real,
        ;
    }
}

/// A level around a centre is a number only where the centre is.
proof fn lemma_center<F: Fn(Calculation) -> Num>(
    f: F,
    n: usize,
    center: Num,
    step: Num,
    j: int,
    val: spec_fn(Num) -> real,
)
    requires
        exact(f, val),
        0 <= j < n,
        !GridView::around(f, n, center, step).levels[j].nan(),
    ensures
        !center.nan(),
{
    let start = centered_start(f, n, center, step);
    let off = product(f, count(f, j), step);
    assert(GridView::around(f, n, center, step).levels[j] == sum(f, start, off));
    assert(!start.nan());
}

/// How many of the first `n` cells get a grid.
pub open spec fn cells_with_grids<F: Fn(Calculation) -> Num>(f: F, d: Design, n: nat) -> nat {
    how_many(Seq::new(n, |c: int| c), |c: int| d.layout.lays(d.levels as int, d.cells.range_of(f, c)))
}

/// Whether a cell that gets a grid has it in `grids` behind those of the cells before.
pub open spec fn has_its_grid<F: Fn(Calculation) -> Num>(
    f: F,
    d: Design,
    plan: Seq<GridView>,
    grids: Seq<GridView>,
    cell: int,
) -> bool {
    let at = cells_with_grids(f, d, cell as nat) as int;
    d.layout.lays(d.levels as int, d.cells.range_of(f, cell)) ==> at < grids.len() && grids[at] == d.grid_of(f, plan, cell)
}

/// A plan holds one grid for each cell that gets one, in the order of the cells.
pub proof fn grids_follow_their_cells<F: Fn(Calculation) -> Num>(f: F, d: Design, plan: Seq<GridView>, n: nat)
    ensures
        d.laid(f, plan, n).len() == cells_with_grids(f, d, n),
        forall|c: int| 0 <= c < n ==> #[trigger] has_its_grid(f, d, plan, d.laid(f, plan, n), c),
    decreases n,
{
    let s = Seq::new(n, |c: int| c);
    if n > 0 {
        let m = (n - 1) as nat;
        grids_follow_their_cells(f, d, plan, m);
        assert(s.drop_last() =~= Seq::new(m, |c: int| c));
        assert(s.last() == m);
        let before = d.laid(f, plan, m);
        let all = d.laid(f, plan, n);
        assert forall|c: int| 0 <= c < n implies #[trigger] has_its_grid(f, d, plan, all, c) by {
            if c < m {
                assert(has_its_grid(f, d, plan, before, c));
            }
        }
    }
}

proof fn lemma_counts_are_whole<F: Fn(Calculation) -> Num>(f: F, val: spec_fn(Num) -> real, n: u64)
    requires
        exact(f, val),
        stands_for(val),
        count(f, n as int).finite(),
        count(f, n as int).bits < SIGN_BIT,
    ensures
        in_word(count(f, n as int), count(f, n as int).whole()) == n,
        1 <= count(f, n as int).exponent() <= 1075 ==> in_word(count(f, n as int), count(f, n as int).nearest()) == n,
{
    let x = count(f, n as int);
    assert(!x.nan());
    assert(val(x) == n as real);
    lemma_whole(val, x);
    assert(x.whole() == n);
    if 1 <= x.exponent() <= 1075 {
        lemma_nearest(val, x);
        assert(x.nearest() == n);
    }
}

/// A grid strategy that starts out designs its grids by its own settings: as many levels
/// and the stop that were set, evenly laid over the cells of a range that holds every
/// low and every high; and it looks back as far as was set.
pub proof fn a_strategy_starts_out_by_its_settings<T, F>(
    f: F,
    val: spec_fn(Num) -> real,
    s: GridStrategy,
    transitions: T,
    analysis: Seq<CandleStick>,
    params: Seq<Num>,
    d: Design,
    i: int,
) where T: Fn(AnalysisGrid, Vec<(i64, Num)>, i64) -> (Vec<Num>, Vec<Num>), F: Fn(Calculation) -> Num
    requires
        exact(f, val),
        stands_for(val),
        params.len() == 5,
        params[2] == count(f, s.grid_levels as int),
        params[3] == s.sl_pct,
        params[4] == count(f, s.lookback_secs as int),
        s.is_design(f, transitions, analysis, params, d),
        params[2].finite() && params[2].bits < SIGN_BIT,
        1 <= params[2].exponent() <= 1075,
        params[4].finite() && params[4].bits < SIGN_BIT,
        0 <= i < analysis.len(),
        forall|k: int| 0 <= k < analysis.len() ==> (#[trigger] analysis[k]).l.finite() && analysis[k].h.finite(),
    ensures
        d.levels == s.grid_levels,
        d.sl_pct == s.sl_pct,
        d.layout is Even,
        in_word(params[4], params[4].whole()) == s.lookback_secs,
        d.cells.min.at_most(analysis[i].l),
        analysis[i].h.at_most(d.cells.max),
{
    lemma_counts_are_whole(f, val, s.grid_levels as u64);
    lemma_counts_are_whole(f, val, s.lookback_secs);
    the_price_range_holds_every_candle(analysis, analysis.len());
}

/// An adaptive strategy lays its levels a multiple of the average true range apart, and
/// stops a multiple of it away, each the one that its parameters give for that.
pub proof fn an_adaptive_design_goes_by_the_range<T, F>(
    f: F,
    val: spec_fn(Num) -> real,
    a: VolatilityAdaptiveGridStrategy,
    transitions: T,
    atr: Num,
    analysis: Seq<CandleStick>,
    params: Seq<Num>,
    d: Design,
) where T: Fn(AnalysisGrid, Vec<(i64, Num)>, i64) -> (Vec<Num>, Vec<Num>), F: Fn(Calculation) -> Num
    requires
        exact(f, val),
        analysis.len() > 0,
        a.is_design(f, transitions, atr, analysis, params, d),
        !d.sl_pct.nan(),
        d.layout matches Layout::Centered { step } ==> !step.nan(),
    ensures
        ({
            let stop = val(atr) * val(params[3]) / val(analysis.last().c);
            let low = val(Num { bits: LEAST_STOP_BITS });
            let high = val(Num { bits: TENTH_BITS });
            &&& d.layout is Centered
            &&& val(d.layout->step) == val(atr) * val(params[2])
            &&& val(d.sl_pct) == clamped(stop, low, high)
        }),
{
    a_stop_follows_the_range(f, val, atr, params[3], analysis.last().c);
}

/// The levels over a range are as many as its steps and one more, the steps being the
/// range over the step rounded to the nearest; never fewer than two nor more than the
/// most.
pub proof fn levels_follow_the_steps_of_a_range<F: Fn(Calculation) -> Num>(
    f: F,
    val: spec_fn(Num) -> real,
    a: VolatilityAdaptiveGridStrategy,
    atr: Num,
    low: Num,
    high: Num,
    multiplier: Num,
)
    requires
        exact(f, val),
        stands_for(val),
        a.max_grid_levels >= 2,
        (Num { bits: 0 }).below(atr),
        low.below(high),
        (Num { bits: 0 }).below(product(f, atr, multiplier)),
        quotient(f, difference(f, high, low), product(f, atr, multiplier)).finite(),
        1 <= quotient(f, difference(f, high, low), product(f, atr, multiplier)).exponent() <= 1075,
    ensures
        ({
            let k = a.optimal_levels(f, atr, low, high, multiplier);
            let step = val(atr) * val(multiplier);
            let width = val(high) - val(low);
            &&& 2 <= k <= a.max_grid_levels
            &&& 2 < k ==> (2 as real * (k - 1) as real - 1 as real) * step <= 2 as real * width
            &&& k < a.max_grid_levels ==> 2 as real * width < (2 as real * (k - 1) as real + 1 as real) * step
        }),
{
    let zero = Num { bits: 0 };
    let w = difference(f, high, low);
    let s = product(f, atr, multiplier);
    let x = quotient(f, w, s);
    assert(!x.nan());
    assert(!w.nan());
    assert(high.key() <= low.key() <==> val(high) <= val(low));
    assert(s.key() <= zero.key() <==> val(s) <= val(zero));
    let (wide, step, v) = (val(w), val(s), val(x));
    assert(v > 0 as real) by (nonlinear_arith)
        requires
            v == wide / step,
            wide > 0 as real,
            step > 0 as real,
    ;
    assert(x.key() <= zero.key() <==> val(x) <= val(zero));
    assert(x.bits < SIGN_BIT);
    lemma_nearest(val, x);
    let q = x.nearest();
    let k = a.optimal_levels(f, atr, low, high, multiplier);
    assert(v * step == wide) by (nonlinear_arith)
        requires
            v == wide / step,
            step > 0 as real,
    ;
    let n = q as real;
    let r = (k - 1) as real;
    let steps = in_memory(in_word(x, q));
    assert(steps <= q);
    if 2 < k {
        assert(k - 1 <= steps);
        assert(r <= n);
        assert((2 as real * r - 1 as real) * step <= 2 as real * wide) by (nonlinear_arith)
            requires
                r <= n,
                2 as real * n <= 2 as real * v + 1 as real,
                v * step == wide,
                step > 0 as real,
        ;
    }
    if k < a.max_grid_levels {
        assert(steps < usize::MAX);
        assert(steps == q);
        assert(k - 1 >= q);
        assert(n <= r);
        assert(2 as real * wide < (2 as real * r + 1 as real) * step) by (nonlinear_arith)
            requires
                n <= r,
                2 as real * v < 2 as real * n + 1 as real,
                v * step == wide,
                step > 0 as real,
        ;
    }
}

/// The candles of a review are those that it has time for, and the candles that an
/// average true range is taken over those of five minutes that its lookback has time
/// for, but never fewer than the least.
pub proof fn spans_hold_whole_candles(
    a: VolatilityAdaptiveGridStrategy,
    review_interval_secs: u64,
    trading_candle_secs: u64,
    atr_lookback: u64,
)
    requires
        trading_candle_secs >= 1,
    ensures
        ({
            let n = candles_of(review_interval_secs, trading_candle_secs);
            n * trading_candle_secs <= review_interval_secs < (n + 1) * trading_candle_secs
        }),
        ({
            let p = a.period(atr_lookback);
            &&& p >= MIN_ATR_PERIOD
            &&& p > MIN_ATR_PERIOD ==> p * 300 <= atr_lookback
            &&& atr_lookback < (p + 1) * 300
        }),
{
    let (x, y) = (review_interval_secs as int, trading_candle_secs as int);
    lemma_fundamental_div_mod(x, y);
    let n = x / y;
    assert(y * n == n * y && (n + 1) * y == n * y + y) by (nonlinear_arith);
}

} // verus!
