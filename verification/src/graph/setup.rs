//! The grid that a model's answer sets up.
use vstd::prelude::*;

use super::genome::Graph;
use super::strategy::{
    head_defaults, head_value, market_read, output_or_empty, read_market, Direction, MarketRead, SL_PCT_BITS,
};
use crate::arith::{
    calculate, calculates, count, difference, product, quotient, sum, unsigned, without_sign, Calculation, HALF_BITS,
    ONE_BITS, TWO_BITS,
};
use crate::grid::{GridView, TradingGrid};
use crate::num::Num;
use crate::plan::{realized_outcomes, realized_to};
use crate::pricing::{normal_weights, trend_weights, FOUR_BITS};

verus! {

/// Levels of the grid that a model's answer sets up.
pub const SETUP_LEVELS: usize = 5;

/// Candles that the grid holds for.
pub const SETUP_CANDLES: usize = 48;

/// Outcomes that a side needs before they count.
pub const SETUP_OUTCOMES: usize = 5;

/// -1.0
pub const MINUS_ONE_BITS: u64 = 0xBFF0_0000_0000_0000;

/// 0.2, the weight of the outcomes so far.
pub const ALPHA_BITS: u64 = 0x3FC9_9999_9999_999A;

/// Which way a direction points, as a number.
pub open spec fn sign_of(d: Direction) -> Num {
    match d {
        Direction::Up => Num { bits: ONE_BITS },
        Direction::Down => Num { bits: MINUS_ONE_BITS },
        Direction::Flat => Num { bits: 0 },
    }
}

/// How far the market leans, from zero to one.
pub open spec fn strength_of<F: Fn(Calculation) -> Num>(f: F, m: MarketRead) -> Num {
    let off = difference(f, m.market_bias, Num { bits: HALF_BITS });
    let zero = Num { bits: 0 };
    let one = Num { bits: ONE_BITS };
    match m.direction {
        Direction::Up => product(f, off, Num { bits: TWO_BITS }).held(zero, one),
        Direction::Down => product(f, unsigned(off), Num { bits: TWO_BITS }).held(zero, one),
        Direction::Flat => zero,
    }
}

/// Half the width of the grid: twice the average true range, halved.
pub open spec fn half_width<F: Fn(Calculation) -> Num>(f: F, m: MarketRead) -> Num {
    quotient(f, product(f, Num { bits: TWO_BITS }, m.atr), Num { bits: TWO_BITS })
}

/// The range of the grid around the last close.
pub open spec fn frame<F: Fn(Calculation) -> Num>(f: F, last_close: Num, m: MarketRead) -> (Num, Num) {
    (difference(f, last_close, half_width(f, m)), sum(f, last_close, half_width(f, m)))
}

/// The capital weights: bell-shaped in a flat market, leaning with the market
/// otherwise.
pub open spec fn setup_weights<F: Fn(Calculation) -> Num>(f: F, m: MarketRead) -> Seq<Num> {
    if m.direction is Flat {
        normal_weights(f, SETUP_LEVELS, Num { bits: FOUR_BITS })
    } else {
        trend_weights(f, SETUP_LEVELS, sign_of(m.direction), strength_of(f, m))
    }
}

/// The model's long and short win probabilities at level `j` before they are
/// bounded: the base in a flat market, tilted otherwise.
pub open spec fn tilted<F: Fn(Calculation) -> Num>(f: F, m: MarketRead, j: int) -> (Num, Num) {
    if m.direction is Flat {
        (m.prob_base, m.prob_base)
    } else {
        let t = quotient(f, count(f, j), count(f, SETUP_LEVELS - 1));
        let bias = product(f, strength_of(f, m), m.bias_scale);
        (
            sum(
                f,
                sum(f, m.prob_base, bias),
                product(f, difference(f, Num { bits: ONE_BITS }, t), m.level_trend),
            ),
            difference(f, difference(f, m.prob_base, bias), product(f, t, m.level_trend)),
        )
    }
}

/// A probability mixed with the outcomes so far, where there are enough.
pub open spec fn blended<F: Fn(Calculation) -> Num>(f: F, p: Num, wins: nat, all: nat) -> Num {
    let alpha = Num { bits: ALPHA_BITS };
    if all >= SETUP_OUTCOMES {
        sum(
            f,
            product(f, difference(f, Num { bits: ONE_BITS }, alpha), p),
            product(f, alpha, quotient(f, count(f, wins as int), count(f, all as int))),
        )
    } else {
        p
    }
}

/// The long win probability at level `j`.
pub open spec fn long_probability<F: Fn(Calculation) -> Num>(
    f: F,
    m: MarketRead,
    seen: (nat, nat, nat, nat),
    j: int,
) -> Num {
    blended(f, tilted(f, m, j).0.held(m.long_low, m.long_high), seen.0, seen.1)
}

/// The short win probability at level `j`.
pub open spec fn short_probability<F: Fn(Calculation) -> Num>(
    f: F,
    m: MarketRead,
    seen: (nat, nat, nat, nat),
    j: int,
) -> Num {
    blended(f, tilted(f, m, j).1.held(m.short_low, m.short_high), seen.2, seen.3)
}

/// The grid around the last close for a reading of the market, the outcomes of
/// the grids before being `seen`.
pub open spec fn setup_grid<F: Fn(Calculation) -> Num>(
    f: F,
    last_close: Num,
    m: MarketRead,
    seen: (nat, nat, nat, nat),
) -> GridView {
    let (min, max) = frame(f, last_close, m);
    (GridView {
        sl_pct: Num { bits: SL_PCT_BITS },
        ..GridView::even(f, SETUP_LEVELS, min, max).with_weights(setup_weights(f, m))
    }).with_max_candles(SETUP_CANDLES).with_win_probabilities(
        Seq::new(SETUP_LEVELS as nat, |j: int| long_probability(f, m, seen, j)),
        Seq::new(SETUP_LEVELS as nat, |j: int| short_probability(f, m, seen, j)),
    )
}

/// Whether there is a range for a grid around the last close.
pub open spec fn has_range<F: Fn(Calculation) -> Num>(f: F, last_close: Num, m: MarketRead) -> bool {
    frame(f, last_close, m).0.below(frame(f, last_close, m).1)
}

/// The head's outputs are finite numbers.
proof fn lemma_head_is_finite(gp: Seq<Num>, i: int)
    ensures
        head_value(gp, i).finite(),
{
    assert((Num { bits: head_defaults(i).1 }).finite());
}

/// The bounds of a reading are in order.
pub proof fn bounds_are_in_order(last_close: Num, outputs: Seq<Vec<Num>>)
    ensures
        market_read(last_close, outputs) matches Some(m) ==> m.long_low.at_most(m.long_high) && m.short_low.at_most(
            m.short_high,
        ),
{
    let gp = output_or_empty(outputs, 0);
    lemma_head_is_finite(gp, 4);
    lemma_head_is_finite(gp, 5);
    lemma_head_is_finite(gp, 6);
    lemma_head_is_finite(gp, 7);
}

fn strength<F: Fn(Calculation) -> Num>(f: &F, m: &MarketRead) -> (r: Num)
    requires
        calculates(*f),
    ensures
        r == strength_of(*f, *m),
{
    let zero = Num { bits: 0 };
    let one = Num { bits: ONE_BITS };
    let off = calculate(f, Calculation::Difference(m.market_bias, Num { bits: HALF_BITS }));
    match m.direction {
        Direction::Up => calculate(f, Calculation::Product(off, Num { bits: TWO_BITS })).clamp(zero, one),
        Direction::Down => calculate(
            f,
            Calculation::Product(without_sign(off), Num { bits: TWO_BITS }),
        ).clamp(zero, one),
        Direction::Flat => zero,
    }
}

fn tilt<F: Fn(Calculation) -> Num>(f: &F, m: &MarketRead, j: usize) -> (r: (Num, Num))
    requires
        calculates(*f),
    ensures
        r == tilted(*f, *m, j as int),
{
    match m.direction {
        Direction::Flat => (m.prob_base, m.prob_base),
        _ => {
            let at = calculate(f, Calculation::Count(j as u128));
            let last = calculate(f, Calculation::Count(SETUP_LEVELS as u128 - 1));
            let t = calculate(f, Calculation::Quotient(at, last));
            let s = strength(f, m);
            let bias = calculate(f, Calculation::Product(s, m.bias_scale));
            let up = calculate(f, Calculation::Sum(m.prob_base, bias));
            let left = calculate(f, Calculation::Difference(Num { bits: ONE_BITS }, t));
            let more = calculate(f, Calculation::Product(left, m.level_trend));
            let down = calculate(f, Calculation::Difference(m.prob_base, bias));
            let less = calculate(f, Calculation::Product(t, m.level_trend));
            (calculate(f, Calculation::Sum(up, more)), calculate(f, Calculation::Difference(down, less)))
        },
    }
}

fn blend<F: Fn(Calculation) -> Num>(f: &F, p: Num, wins: u128, all: u128) -> (r: Num)
    requires
        calculates(*f),
    ensures
        r == blended(*f, p, wins as nat, all as nat),
{
    if all >= SETUP_OUTCOMES as u128 {
        let alpha = Num { bits: ALPHA_BITS };
        let rest = calculate(f, Calculation::Difference(Num { bits: ONE_BITS }, alpha));
        let kept = calculate(f, Calculation::Product(rest, p));
        let w = calculate(f, Calculation::Count(wins));
        let t = calculate(f, Calculation::Count(all));
        let rate = calculate(f, Calculation::Quotient(w, t));
        let pull = calculate(f, Calculation::Product(alpha, rate));
        calculate(f, Calculation::Sum(kept, pull))
    } else {
        p
    }
}

impl Graph {
    /// The plan that a model's outputs set up: nothing where they cannot be
    /// read or leave no range, else one grid.
    pub fn setup<F: Fn(Calculation) -> Num>(
        last_close: Num,
        outputs: &Vec<Vec<Num>>,
        grids: &Vec<TradingGrid>,
        f: &F,
    ) -> (r: Vec<TradingGrid>)
        requires
            calculates(*f),
            realized_to(grids@, grids@.len()).1 <= u128::MAX,
            realized_to(grids@, grids@.len()).3 <= u128::MAX,
        ensures
            market_read(last_close, outputs@) is None ==> r@.len() == 0,
            market_read(last_close, outputs@) matches Some(m) ==> r@.len() == (if has_range(*f, last_close, m) {
                1nat
            } else {
                0
            }),
            market_read(last_close, outputs@) matches Some(m) ==> (has_range(*f, last_close, m) ==> r@[0]@.inv() && r@[0]@
                == setup_grid(*f, last_close, m, realized_to(grids@, grids@.len()))),
    {
        let mut out: Vec<TradingGrid> = Vec::new();
        let m = match read_market(last_close, outputs) {
            Some(m) => m,
            None => {
                return out;
            },
        };
        proof {
            bounds_are_in_order(last_close, outputs@);
        }
        let two = Num { bits: TWO_BITS };
        let wide = calculate(f, Calculation::Product(two, m.atr));
        let half = calculate(f, Calculation::Quotient(wide, two));
        let min = calculate(f, Calculation::Difference(last_close, half));
        let max = calculate(f, Calculation::Sum(last_close, half));
        let g = match TradingGrid::new(SETUP_LEVELS, min, max, f) {
            Some(g) => g,
            None => {
                return out;
            },
        };
        let g = match m.direction {
            Direction::Flat => g.with_weights_normal(Num { bits: FOUR_BITS }, f),
            Direction::Up => {
                let s = strength(f, &m);
                g.with_weights_trend(Num { bits: ONE_BITS }, s, f)
            },
            Direction::Down => {
                let s = strength(f, &m);
                g.with_weights_trend(Num { bits: MINUS_ONE_BITS }, s, f)
            },
        };
        assert(g@ == GridView::even(*f, SETUP_LEVELS, min, max).with_weights(setup_weights(*f, m)));
        let realized = match realized_outcomes(grids) {
            Some(realized) => realized,
            None => {
                return out;
            },
        };
        let ghost seen = realized_to(grids@, grids@.len());
        let ghost all_long = Seq::new(SETUP_LEVELS as nat, |j: int| long_probability(*f, m, seen, j));
        let ghost all_short = Seq::new(SETUP_LEVELS as nat, |j: int| short_probability(*f, m, seen, j));
        let mut long: Vec<Num> = Vec::new();
        let mut short: Vec<Num> = Vec::new();
        let mut j: usize = 0;
        while j < SETUP_LEVELS
            invariant
                j <= SETUP_LEVELS,
                calculates(*f),
                m.long_low.at_most(m.long_high),
                m.short_low.at_most(m.short_high),
                seen == (
                    realized.long_wins as nat,
                    realized.long_total as nat,
                    realized.short_wins as nat,
                    realized.short_total as nat,
                ),
                all_long == Seq::new(SETUP_LEVELS as nat, |j: int| long_probability(*f, m, seen, j)),
                all_short == Seq::new(SETUP_LEVELS as nat, |j: int| short_probability(*f, m, seen, j)),
                long@ == all_long.take(j as int),
                short@ == all_short.take(j as int),
            decreases SETUP_LEVELS - j,
        {
            let (lp, sp) = tilt(f, &m, j);
            let lp = lp.clamp(m.long_low, m.long_high);
            let sp = sp.clamp(m.short_low, m.short_high);
            long.push(blend(f, lp, realized.long_wins, realized.long_total));
            short.push(blend(f, sp, realized.short_wins, realized.short_total));
            j += 1;
            assert(long@ =~= all_long.take(j as int));
            assert(short@ =~= all_short.take(j as int));
        }
        assert(long@ =~= all_long);
        assert(short@ =~= all_short);
        let g = g.with_sl_pct(Num { bits: SL_PCT_BITS }).with_max_candles(SETUP_CANDLES).with_win_probabilities(
            long,
            short,
        );
        assert(g@ == setup_grid(*f, last_close, m, seen));
        out.push(g);
        out
    }
}

} // verus!
