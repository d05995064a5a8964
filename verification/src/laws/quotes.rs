//! What quotes, orders and their profits amount to.
use vstd::prelude::*;

use crate::arith::{difference, product, quotient, sum, Calculation, ONE_BITS, TWO_BITS};
use crate::candle::CandleStick;
use crate::entries::{
    grid_outcomes, lemma_placed_add, level_outcomes, meets, order_at, outcome_at, placed, taken, touches, EntryRule,
};
use crate::exact::exact;
use crate::grid::{ascending, GridView};
use crate::num::Num;
use crate::order::{Order, OrderEvent, OrderType};
use crate::quotes::{kelly, level_quote, moved, order_size, quotes_grid};
use crate::session::{event_time, GridQuotes, LevelQuote};

verus! {

/// Short orders are sized by the short win probabilities alone and long orders by the
/// long ones: for two grids that differ in the win probabilities of one side only,
/// the quotes differ in the sizes of that side only; and a level's size goes by the
/// probability of that level alone.
pub proof fn each_side_is_sized_by_its_own_chances<F: Fn(Calculation) -> Num>(
    f: F,
    a: GridView,
    b: GridView,
    t: int,
    fraction: Num,
    base_capital: Num,
    p: GridQuotes,
    q: GridQuotes,
    j: int,
)
    requires
        quotes_grid(f, a, t, fraction, base_capital, p),
        quotes_grid(f, b, t, fraction, base_capital, q),
        0 <= j < a.levels.len(),
        a.inv(),
        b.inv(),
    ensures
        b == (GridView { long_win_p: b.long_win_p, ..a }) ==> q.mid == p.mid && q.levels@[j] == (LevelQuote {
            size_long: q.levels@[j].size_long,
            ..p.levels@[j]
        }),
        b == (GridView { short_win_p: b.short_win_p, ..a }) ==> q.mid == p.mid && q.levels@[j] == (LevelQuote {
            size_short: q.levels@[j].size_short,
            ..p.levels@[j]
        }),
        b == (GridView { long_win_p: b.long_win_p, short_win_p: b.short_win_p, ..a }) && b.long_win_p[j] == a.long_win_p[j]
            && b.short_win_p[j] == a.short_win_p[j] ==> q.levels@[j] == p.levels@[j],
{
}

/// What Kelly's rule stakes of the capital at a chance of winning `p` that puts `sl` at
/// risk, of which a fraction is used.
pub open spec fn stake(capital: real, fraction: real, p: real, sl: real) -> real {
    capital * (fraction * (p - (1 as real - p) * sl))
}

proof fn lemma_kelly(k: real, p: real, sl: real, odds: real)
    requires
        sl > 0 as real,
        odds == 1 as real / sl,
        k == (p * odds - (1 as real - p)) / odds,
    ensures
        k == p - (1 as real - p) * sl,
{
    assert(odds * sl == 1 as real) by (nonlinear_arith)
        requires
            sl > 0 as real,
            odds == 1 as real / sl,
    ;
    assert(odds != 0 as real) by (nonlinear_arith)
        requires
            odds * sl == 1 as real,
    ;
    let e = p * odds - (1 as real - p);
    assert(k * odds == e) by (nonlinear_arith)
        requires
            k == e / odds,
            odds != 0 as real,
    ;
    assert((k * odds) * sl == e * sl);
    assert((k * odds) * sl == k * (odds * sl)) by (nonlinear_arith);
    assert(k * (odds * sl) == k) by (nonlinear_arith)
        requires
            odds * sl == 1 as real,
    ;
    assert(e * sl == p * (odds * sl) - (1 as real - p) * sl) by (nonlinear_arith)
        requires
            e == p * odds - (1 as real - p),
    ;
    assert(p * (odds * sl) == p) by (nonlinear_arith)
        requires
            odds * sl == 1 as real,
    ;
}

proof fn lemma_size<F: Fn(Calculation) -> Num>(
    f: F,
    val: spec_fn(Num) -> real,
    win_p: Num,
    sl_pct: Num,
    fraction: Num,
    base_capital: Num,
)
    requires
        exact(f, val),
    ensures
        ({
            let size = order_size(f, win_p, sl_pct, fraction, base_capital);
            let zero = Num { bits: 0 };
            &&& zero.below(size) ==> {
                &&& !win_p.nan()
                &&& (0 as real) < val(win_p) && val(win_p) < (1 as real)
                &&& val(sl_pct) > 0 as real
                &&& val(size) == stake(val(base_capital), val(fraction), val(win_p), val(sl_pct))
            }
            &&& !size.nan() && zero.at_most(base_capital) ==> val(size) >= 0 as real
        }),
{
    let size = order_size(f, win_p, sl_pct, fraction, base_capital);
    let zero = Num { bits: 0 };
    let one = Num { bits: ONE_BITS };
    let k = kelly(f, win_p, sl_pct);
    let part = product(f, k, fraction);
    let safe = part.greater(zero);
    assert(val(zero) == 0 as real && val(one) == 1 as real);
    assert(!size.nan() ==> (zero.key() <= size.key() <==> val(zero) <= val(size)));
    assert(!size.nan() ==> (size.key() <= zero.key() <==> val(size) <= val(zero)));
    if size == product(f, base_capital, safe) && !size.nan() {
        assert(!safe.nan());
        assert(zero.key() <= safe.key() <==> val(zero) <= val(safe));
        assert(val(safe) >= 0 as real);
        assert(zero.key() <= base_capital.key() <==> val(zero) <= val(base_capital));
        assert(val(base_capital) >= 0 as real ==> val(base_capital) * val(safe) >= 0 as real) by (nonlinear_arith)
            requires
                val(safe) >= 0 as real,
        ;
    }
    if zero.below(size) {
        assert(size == product(f, base_capital, safe));
        if safe == zero {
            assert(val(base_capital) * 0 as real == 0 as real) by (nonlinear_arith);
            assert(false);
        }
        assert(safe == part);
        assert(!part.nan() && !k.nan());
        let odds = quotient(f, one, sl_pct);
        let gain = product(f, win_p, odds);
        let lose = difference(f, one, win_p);
        let edge = difference(f, gain, lose);
        assert(k == quotient(f, edge, odds));
        assert(!edge.nan() && !odds.nan() && !gain.nan() && !lose.nan() && !win_p.nan() && !sl_pct.nan());
        assert(win_p.key() <= zero.key() <==> val(win_p) <= val(zero));
        assert(one.key() <= win_p.key() <==> val(one) <= val(win_p));
        assert(sl_pct.key() <= zero.key() <==> val(sl_pct) <= val(zero));
        lemma_kelly(val(k), val(win_p), val(sl_pct), val(odds));
        assert(val(k) * val(fraction) == val(fraction) * val(k)) by (nonlinear_arith);
    }
}

/// The weight of level `j` at candle `t`, or that of the last candle it has one for.
pub open spec fn weight_at(g: GridView, j: int, t: int) -> Num {
    g.weights[j][if t < g.weights[j].len() { t } else { g.weights[j].len() - 1 }]
}

/// What a level is quoted at, where nothing was rounded: either side's size is Kelly's
/// stake for that side's own win probability at that level, scaled by the weight of the
/// level; nothing is ever staked against the odds; the stops lie the stop-loss below
/// the price and above it; the profits are the ways to the next level up and down, as
/// parts of the price; and the middle lies halfway between the lowest and the highest
/// level.
pub proof fn a_quote_stakes_by_kelly<F: Fn(Calculation) -> Num>(
    f: F,
    val: spec_fn(Num) -> real,
    g: GridView,
    t: int,
    fraction: Num,
    base_capital: Num,
    q: GridQuotes,
    j: int,
)
    requires
        exact(f, val),
        quotes_grid(f, g, t, fraction, base_capital, q),
        0 <= j < g.levels.len(),
        0 <= t,
        g.inv(),
    ensures
        ({
            let l = q.levels@[j];
            let zero = Num { bits: 0 };
            let price = val(g.levels[j]);
            let sl = val(g.sl_pct);
            let w = val(weight_at(g, j, t));
            let above = if j + 1 < g.levels.len() { val(g.levels[j + 1]) } else { price };
            let below = if j > 0 { val(g.levels[j - 1]) } else { price };
            &&& zero.below(l.size_long) ==> val(l.size_long) == stake(
                val(base_capital),
                val(fraction),
                val(g.long_win_p[j]) * w,
                sl,
            )
            &&& zero.below(l.size_short) ==> val(l.size_short) == stake(
                val(base_capital),
                val(fraction),
                val(g.short_win_p[j]) * w,
                sl,
            )
            &&& zero.at_most(base_capital) && !l.size_long.nan() ==> val(l.size_long) >= 0 as real
            &&& zero.at_most(base_capital) && !l.size_short.nan() ==> val(l.size_short) >= 0 as real
            &&& !l.sl_long.nan() ==> val(l.sl_long) == price - price * sl
            &&& !l.sl_short.nan() ==> val(l.sl_short) == price + price * sl
            &&& !l.profit_long.nan() ==> val(l.profit_long) * price == above - price
            &&& !l.profit_short.nan() ==> val(l.profit_short) * price == price - below
            &&& !q.mid.nan() ==> val(q.mid) * 2 as real == val(g.levels[0]) + val(g.levels.last())
        }),
{
    let l = q.levels@[j];
    let zero = Num { bits: 0 };
    let one = Num { bits: ONE_BITS };
    let two = Num { bits: TWO_BITS };
    assert(l == level_quote(f, g, j, t, fraction, base_capital));
    assert(g.weights[j].len() > 0);
    let w = weight_at(g, j, t);
    let price = g.levels[j];
    let long_p = product(f, g.long_win_p[j], w);
    let short_p = product(f, g.short_win_p[j], w);
    assert(l.size_long == order_size(f, long_p, g.sl_pct, fraction, base_capital));
    assert(l.size_short == order_size(f, short_p, g.sl_pct, fraction, base_capital));
    lemma_size(f, val, long_p, g.sl_pct, fraction, base_capital);
    lemma_size(f, val, short_p, g.sl_pct, fraction, base_capital);
    let p = val(price);
    let s = val(g.sl_pct);
    if !l.sl_long.nan() {
        assert(l.sl_long == product(f, price, difference(f, one, g.sl_pct)));
        assert(p * (1 as real - s) == p - p * s) by (nonlinear_arith);
    }
    if !l.sl_short.nan() {
        assert(l.sl_short == product(f, price, sum(f, one, g.sl_pct)));
        assert(p * (1 as real + s) == p + p * s) by (nonlinear_arith);
    }
    if !l.profit_long.nan() {
        let d = difference(f, g.tp_above(j), price);
        assert(l.profit_long == quotient(f, d, price));
        assert(!d.nan());
        lemma_part(val(l.profit_long), val(d), p);
    }
    if !l.profit_short.nan() {
        let d = difference(f, price, g.tp_below(j));
        assert(l.profit_short == quotient(f, d, price));
        assert(!d.nan());
        lemma_part(val(l.profit_short), val(d), p);
    }
    if !q.mid.nan() {
        let e = sum(f, g.levels[0], g.levels[g.levels.len() - 1]);
        assert(q.mid == quotient(f, e, two));
        assert(!e.nan());
        lemma_part(val(q.mid), val(e), 2 as real);
    }
}

proof fn lemma_favour<F: Fn(Calculation) -> Num>(
    f: F,
    val: spec_fn(Num) -> real,
    win_p: Num,
    sl_pct: Num,
    fraction: Num,
    base_capital: Num,
)
    requires
        exact(f, val),
        (Num { bits: 0 }).below(win_p),
        win_p.below(Num { bits: ONE_BITS }),
        (Num { bits: 0 }).below(sl_pct),
        !product(f, kelly(f, win_p, sl_pct), fraction).nan(),
        !order_size(f, win_p, sl_pct, fraction, base_capital).nan(),
    ensures
        ({
            let share = val(fraction) * (val(win_p) - (1 as real - val(win_p)) * val(sl_pct));
            val(order_size(f, win_p, sl_pct, fraction, base_capital)) == val(base_capital) * (if share > 0 as real {
                share
            } else {
                0 as real
            })
        }),
{
    let zero = Num { bits: 0 };
    let one = Num { bits: ONE_BITS };
    let k = kelly(f, win_p, sl_pct);
    let part = product(f, k, fraction);
    assert(!k.nan());
    let odds = quotient(f, one, sl_pct);
    let gain = product(f, win_p, odds);
    let lose = difference(f, one, win_p);
    let edge = difference(f, gain, lose);
    assert(k == quotient(f, edge, odds));
    assert(!edge.nan() && !odds.nan() && !gain.nan() && !lose.nan());
    assert(sl_pct.key() <= zero.key() <==> val(sl_pct) <= val(zero));
    lemma_kelly(val(k), val(win_p), val(sl_pct), val(odds));
    assert(val(k) * val(fraction) == val(fraction) * val(k)) by (nonlinear_arith);
    assert(part.key() <= zero.key() <==> val(part) <= val(zero));
    assert(zero.key() <= part.key() <==> val(zero) <= val(part));
}

/// A level is staked on where the odds are in favour: where its chance, by the weight of
/// the level, lies between none and certainty and Kelly's rule gives it a share, that
/// share of the capital is what either side's order is sized at; where the rule gives
/// none, nothing.
pub proof fn favourable_levels_are_staked_on<F: Fn(Calculation) -> Num>(
    f: F,
    val: spec_fn(Num) -> real,
    g: GridView,
    t: int,
    fraction: Num,
    base_capital: Num,
    q: GridQuotes,
    j: int,
    long: bool,
)
    requires
        exact(f, val),
        quotes_grid(f, g, t, fraction, base_capital, q),
        0 <= j < g.levels.len(),
        0 <= t,
        g.inv(),
        (Num { bits: 0 }).below(g.sl_pct),
        ({
            let chance = product(f, if long { g.long_win_p[j] } else { g.short_win_p[j] }, weight_at(g, j, t));
            let size = if long { q.levels@[j].size_long } else { q.levels@[j].size_short };
            &&& (Num { bits: 0 }).below(chance)
            &&& chance.below(Num { bits: ONE_BITS })
            &&& !product(f, kelly(f, chance, g.sl_pct), fraction).nan()
            &&& !size.nan()
        }),
    ensures
        ({
            let p = val(if long { g.long_win_p[j] } else { g.short_win_p[j] }) * val(weight_at(g, j, t));
            let size = if long { q.levels@[j].size_long } else { q.levels@[j].size_short };
            let share = val(fraction) * (p - (1 as real - p) * val(g.sl_pct));
            &&& share > 0 as real ==> val(size) == val(base_capital) * share
            &&& share <= 0 as real ==> val(size) == 0 as real
        }),
{
    let chance = product(f, if long { g.long_win_p[j] } else { g.short_win_p[j] }, weight_at(g, j, t));
    assert(q.levels@[j] == level_quote(f, g, j, t, fraction, base_capital));
    assert(g.weights[j].len() > 0);
    lemma_favour(f, val, chance, g.sl_pct, fraction, base_capital);
    assert(val(base_capital) * 0 as real == 0 as real) by (nonlinear_arith);
}

proof fn lemma_part(x: real, a: real, b: real)
    requires
        x == a / b,
        b != 0 as real,
    ensures
        x * b == a,
{
    assert(x * b == a) by (nonlinear_arith)
        requires
            x == a / b,
            b != 0 as real,
    ;
}

/// An order earns the part of its entry that the price moved its way, less the fee: up
/// for a long order, down for a short one. What one side gains on a move, the other
/// loses.
pub proof fn an_order_earns_the_move<F: Fn(Calculation) -> Num>(
    f: F,
    val: spec_fn(Num) -> real,
    order: Order,
    exit: Num,
    fee: Num,
    pnl: Num,
)
    requires
        exact(f, val),
        pnl == difference(f, moved(f, order, exit), fee),
        !pnl.nan(),
    ensures
        order.dtype == OrderType::Long ==> (val(pnl) + val(fee)) * val(order.entry_price) == val(exit) - val(
            order.entry_price,
        ),
        order.dtype == OrderType::Short ==> (val(pnl) + val(fee)) * val(order.entry_price) == val(order.entry_price) - val(
            exit,
        ),
        order.dtype == OrderType::Unknown ==> val(pnl) == -val(fee),
{
    let m = moved(f, order, exit);
    assert(!m.nan());
    assert(val(pnl) + val(fee) == val(m));
    let e = order.entry_price;
    if order.dtype == OrderType::Long {
        let d = difference(f, exit, e);
        assert(m == quotient(f, d, e));
        assert(!d.nan());
        lemma_part(val(m), val(d), val(e));
    } else if order.dtype == OrderType::Short {
        let d = difference(f, e, exit);
        assert(m == quotient(f, d, e));
        assert(!d.nan());
        lemma_part(val(m), val(d), val(e));
    }
}

/// Whether an order that was placed fits its level: it is opened at the level's price,
/// which the candle touched and at which no order was open. Up to the middle of the
/// grid it is a long one, with the next level up as its target and the long stop and
/// size; above, a short one, with the next level down as its target and the short stop
/// and size.
pub open spec fn fits_its_level(
    open: Seq<Order>,
    plan: Seq<GridView>,
    quotes: Seq<GridQuotes>,
    candle: CandleStick,
    rule: EntryRule,
    o: Order,
) -> bool {
    let ig = o.grid_index as int;
    let il = o.level_index as int;
    &&& 0 <= ig < plan.len()
    &&& 0 <= il < plan[ig].levels.len()
    &&& o.entry_price == plan[ig].levels[il]
    &&& candle.l.at_most(o.entry_price) && o.entry_price.at_most(candle.h)
    &&& forall|k: int| 0 <= k < open.len() ==> (#[trigger] open[k]).grid_index != ig || open[k].level_index != il
    &&& o.unlock_seq == rule.unlock_seq && o.pnl_pct is None && o.exit_price is None
    &&& o.entry_price.at_most(quotes[ig].mid) ==> {
        &&& o.dtype == OrderType::Long
        &&& o.sl_price == quotes[ig].levels@[il].sl_long
        &&& o.size == quotes[ig].levels@[il].size_long
        &&& o.tp_price == (if il + 1 < plan[ig].levels.len() { plan[ig].levels[il + 1] } else { o.entry_price })
        &&& !quotes[ig].levels@[il].profit_long.at_most(rule.round_trip_fee)
    }
    &&& !o.entry_price.at_most(quotes[ig].mid) ==> {
        &&& o.dtype == OrderType::Short
        &&& o.sl_price == quotes[ig].levels@[il].sl_short
        &&& o.size == quotes[ig].levels@[il].size_short
        &&& o.tp_price == (if il > 0 { plan[ig].levels[il - 1] } else { o.entry_price })
        &&& !quotes[ig].levels@[il].profit_short.at_most(rule.round_trip_fee)
    }
}

proof fn lemma_levels_fit(
    open: Seq<Order>,
    plan: Seq<GridView>,
    quotes: Seq<GridQuotes>,
    candle: CandleStick,
    rule: EntryRule,
    ig: int,
    n: nat,
)
    requires
        0 <= ig < plan.len() <= usize::MAX,
        n <= plan[ig].levels.len() <= usize::MAX,
    ensures
        forall|k: int|
            0 <= k < placed(level_outcomes(open, plan[ig], quotes[ig], candle, rule, ig, n)).len() ==> fits_its_level(
                open,
                plan,
                quotes,
                candle,
                rule,
                #[trigger] placed(level_outcomes(open, plan[ig], quotes[ig], candle, rule, ig, n))[k],
            ),
    decreases n,
{
    if n > 0 {
        let il = n - 1;
        let g = plan[ig];
        let q = quotes[ig];
        lemma_levels_fit(open, plan, quotes, candle, rule, ig, (n - 1) as nat);
        let rest = level_outcomes(open, g, q, candle, rule, ig, (n - 1) as nat);
        let here = outcome_at(open, g, q, candle, rule, ig, il);
        lemma_placed_add(rest, here);
        if here.len() == 1 {
            assert(here.drop_last() =~= Seq::empty());
            assert(placed(here.drop_last()) =~= Seq::empty());
            if placed(here).len() == 1 {
                let o = placed(here)[0];
                assert(o == order_at(g, q, ig, il, rule.unlock_seq));
                assert(touches(candle, g.levels[il]) && !taken(open, ig, il));
                assert(fits_its_level(open, plan, quotes, candle, rule, o));
            }
        }
    }
}

/// Every order that an entry step places fits its level.
pub proof fn placed_orders_fit_their_levels(
    open: Seq<Order>,
    plan: Seq<GridView>,
    quotes: Seq<GridQuotes>,
    candle: CandleStick,
    rule: EntryRule,
    n: nat,
)
    requires
        n <= plan.len() <= usize::MAX,
        forall|i: int| 0 <= i < plan.len() ==> (#[trigger] plan[i]).levels.len() <= usize::MAX,
    ensures
        forall|k: int|
            0 <= k < placed(grid_outcomes(open, plan, quotes, candle, rule, n)).len() ==> fits_its_level(
                open,
                plan,
                quotes,
                candle,
                rule,
                #[trigger] placed(grid_outcomes(open, plan, quotes, candle, rule, n))[k],
            ),
    decreases n,
{
    if n > 0 {
        let ig = n - 1;
        placed_orders_fit_their_levels(open, plan, quotes, candle, rule, (n - 1) as nat);
        if meets(plan[ig], candle) {
            let rest = grid_outcomes(open, plan, quotes, candle, rule, (n - 1) as nat);
            let here = level_outcomes(open, plan[ig], quotes[ig], candle, rule, ig, plan[ig].levels.len());
            lemma_levels_fit(open, plan, quotes, candle, rule, ig, plan[ig].levels.len());
            lemma_placed_add(rest, here);
            let all = placed(grid_outcomes(open, plan, quotes, candle, rule, n));
            assert(all == placed(rest) + placed(here));
            assert forall|k: int| 0 <= k < all.len() implies fits_its_level(open, plan, quotes, candle, rule, #[trigger] all[k]) by {
                if k < placed(rest).len() {
                    assert(all[k] == placed(rest)[k]);
                } else {
                    assert(all[k] == placed(here)[k - placed(rest).len()]);
                }
            }
        } else {
            assert(grid_outcomes(open, plan, quotes, candle, rule, n) == grid_outcomes(
                open,
                plan,
                quotes,
                candle,
                rule,
                (n - 1) as nat,
            ));
        }
    } else {
        assert(placed(grid_outcomes(open, plan, quotes, candle, rule, n)).len() == 0);
    }
}

/// Whether an event tells what became of a level: an order placed there, or one
/// refused for its profit not exceeding the fee.
pub open spec fn tells_of(e: OrderEvent, candle: CandleStick, ig: int, il: int) -> bool {
    match e {
        OrderEvent::Placed { ts, order } => ts == event_time(candle.t) && order.grid_index == ig && order.level_index == il,
        OrderEvent::Rejected { ts, grid, level, expected_profit, fee } => ts == event_time(candle.t) && grid == ig && level
            == il && expected_profit.at_most(fee),
        _ => false,
    }
}

/// Whether events tell what became of a level.
pub open spec fn is_told(events: Seq<OrderEvent>, candle: CandleStick, ig: int, il: int) -> bool {
    exists|k: int| 0 <= k < events.len() && tells_of(#[trigger] events[k], candle, ig, il)
}

proof fn lemma_told_more(a: Seq<OrderEvent>, b: Seq<OrderEvent>, candle: CandleStick, ig: int, il: int)
    ensures
        is_told(a, candle, ig, il) ==> is_told(a + b, candle, ig, il),
        is_told(b, candle, ig, il) ==> is_told(a + b, candle, ig, il),
{
    if is_told(a, candle, ig, il) {
        let k = choose|k: int| 0 <= k < a.len() && tells_of(#[trigger] a[k], candle, ig, il);
        assert((a + b)[k] == a[k]);
    }
    if is_told(b, candle, ig, il) {
        let k = choose|k: int| 0 <= k < b.len() && tells_of(#[trigger] b[k], candle, ig, il);
        assert((a + b)[a.len() + k] == b[k]);
    }
}

proof fn lemma_level_told(
    open: Seq<Order>,
    g: GridView,
    q: GridQuotes,
    candle: CandleStick,
    rule: EntryRule,
    ig: int,
    il: int,
    n: nat,
)
    requires
        0 <= il < n <= g.levels.len() <= usize::MAX,
        0 <= ig <= usize::MAX,
        touches(candle, g.levels[il]),
        !taken(open, ig, il),
    ensures
        is_told(level_outcomes(open, g, q, candle, rule, ig, n), candle, ig, il),
    decreases n,
{
    let rest = level_outcomes(open, g, q, candle, rule, ig, (n - 1) as nat);
    let here = outcome_at(open, g, q, candle, rule, ig, n - 1);
    if il == n - 1 {
        assert(here.len() == 1);
        assert(tells_of(here[0], candle, ig, il));
    } else {
        lemma_level_told(open, g, q, candle, rule, ig, il, (n - 1) as nat);
    }
    lemma_told_more(rest, here, candle, ig, il);
}

/// No level is passed over: where a candle touches a level of a plan with rising
/// levels and no order is open there, an entry step places an order there or says why
/// it does not.
pub proof fn a_touched_level_is_answered(
    open: Seq<Order>,
    plan: Seq<GridView>,
    quotes: Seq<GridQuotes>,
    candle: CandleStick,
    rule: EntryRule,
    ig: int,
    il: int,
    n: nat,
)
    requires
        0 <= ig < n <= plan.len() <= usize::MAX,
        0 <= il < plan[ig].levels.len() <= usize::MAX,
        ascending(plan[ig].levels),
        !plan[ig].levels[0].nan(),
        !plan[ig].levels.last().nan(),
        candle.l.at_most(plan[ig].levels[il]) && plan[ig].levels[il].at_most(candle.h),
        forall|k: int| 0 <= k < open.len() ==> (#[trigger] open[k]).grid_index != ig || open[k].level_index != il,
    ensures
        is_told(grid_outcomes(open, plan, quotes, candle, rule, n), candle, ig, il),
    decreases n,
{
    let rest = grid_outcomes(open, plan, quotes, candle, rule, (n - 1) as nat);
    if ig == n - 1 {
        let g = plan[ig];
        assert(g.levels[0].key() <= g.levels[il].key());
        assert(g.levels[il].key() <= g.levels[g.levels.len() - 1].key());
        assert(meets(g, candle));
        lemma_level_told(open, g, quotes[ig], candle, rule, ig, il, g.levels.len());
        lemma_told_more(
            rest,
            level_outcomes(open, g, quotes[ig], candle, rule, ig, g.levels.len()),
            candle,
            ig,
            il,
        );
    } else {
        a_touched_level_is_answered(open, plan, quotes, candle, rule, ig, il, (n - 1) as nat);
        let here = level_outcomes(open, plan[n - 1], quotes[n - 1], candle, rule, n - 1, plan[n - 1].levels.len());
        lemma_told_more(rest, here, candle, ig, il);
    }
}

} // verus!
