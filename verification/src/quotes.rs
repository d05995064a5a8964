//! What the levels of a plan trade at, and what orders earn.
use vstd::prelude::*;

use crate::arith::{
    calculate, calculates, difference, product, quotient, sum, Calculation, ONE_BITS, TWO_BITS,
};
use crate::candle::CandleStick;
use crate::entries::{
    grid_outcomes, lemma_placed_add, level_outcomes, meets, order_at, outcome_at, placed, profit_at, quoted, EntryRule,
};
use crate::grid::{get_or, GridView, TradingGrid};
use crate::num::Num;
use crate::order::{target_never_fills_worse, Order, OrderType};
use crate::session::{plan_view, GridQuotes, LevelQuote};
use crate::streaming::sound_plan;

verus! {

/// Whether an order is sized at all: its chance of winning lies between none and
/// certainty, and it has a stop-loss.
pub open spec fn is_sized(win_p: Num, sl_pct: Num) -> bool {
    &&& !win_p.at_most(Num { bits: 0 })
    &&& !(Num { bits: ONE_BITS }).at_most(win_p)
    &&& !sl_pct.at_most(Num { bits: 0 })
}

/// The fraction that Kelly's rule gives a chance of winning at the odds of a
/// stop-loss.
pub open spec fn kelly<F: Fn(Calculation) -> Num>(f: F, win_p: Num, sl_pct: Num) -> Num {
    let one = Num { bits: ONE_BITS };
    let odds = quotient(f, one, sl_pct);
    quotient(f, difference(f, product(f, win_p, odds), difference(f, one, win_p)), odds)
}

/// The size of an order: a fraction of Kelly's share of the capital, nothing
/// where the chance or the stop-loss makes no sense.
pub open spec fn order_size<F: Fn(Calculation) -> Num>(
    f: F,
    win_p: Num,
    sl_pct: Num,
    fraction: Num,
    base_capital: Num,
) -> Num {
    if is_sized(win_p, sl_pct) {
        product(f, base_capital, product(f, kelly(f, win_p, sl_pct), fraction).greater(Num { bits: 0 }))
    } else {
        Num { bits: 0 }
    }
}

/// The size of an order.
pub fn calculate_order_size<F: Fn(Calculation) -> Num>(
    win_p: Num,
    sl_pct: Num,
    fraction: Num,
    base_capital: Num,
    f: &F,
) -> (r: Num)
    requires
        calculates(*f),
    ensures
        r == order_size(*f, win_p, sl_pct, fraction, base_capital),
{
    let zero = Num::zero();
    let one = Num { bits: ONE_BITS };
    if win_p.le(zero) || one.le(win_p) || sl_pct.le(zero) {
        return zero;
    }
    let odds = calculate(f, Calculation::Quotient(one, sl_pct));
    let lose_p = calculate(f, Calculation::Difference(one, win_p));
    let gain = calculate(f, Calculation::Product(win_p, odds));
    let edge = calculate(f, Calculation::Difference(gain, lose_p));
    let share = calculate(f, Calculation::Quotient(edge, odds));
    let safe = calculate(f, Calculation::Product(share, fraction)).max(zero);
    calculate(f, Calculation::Product(base_capital, safe))
}

/// What level `j` of a grid trades at, `t` candles after the grid was laid.
pub open spec fn level_quote<F: Fn(Calculation) -> Num>(
    f: F,
    g: GridView,
    j: int,
    t: int,
    fraction: Num,
    base_capital: Num,
) -> LevelQuote {
    let price = g.levels[j];
    let zero = Num { bits: 0 };
    let w = g.weight(j, t);
    LevelQuote {
        sl_long: g.stop_long(f, j),
        sl_short: g.stop_short(f, j),
        profit_long: quotient(f, difference(f, g.tp_above(j), price), price),
        profit_short: quotient(f, difference(f, price, g.tp_below(j)), price),
        size_long: order_size(f, product(f, get_or(g.long_win_p, j, zero), w), g.sl_pct, fraction, base_capital),
        size_short: order_size(f, product(f, get_or(g.short_win_p, j, zero), w), g.sl_pct, fraction, base_capital),
    }
}

/// Whether quotes are those of a grid.
pub open spec fn quotes_grid<F: Fn(Calculation) -> Num>(
    f: F,
    g: GridView,
    t: int,
    fraction: Num,
    base_capital: Num,
    q: GridQuotes,
) -> bool {
    &&& q.mid == quotient(f, sum(f, g.levels[0], g.levels[g.levels.len() - 1]), Num { bits: TWO_BITS })
    &&& q.levels@ == Seq::new(g.levels.len(), |j: int| level_quote(f, g, j, t, fraction, base_capital))
}

fn quote_level<F: Fn(Calculation) -> Num>(
    f: &F,
    g: &TradingGrid,
    j: usize,
    t: usize,
    fraction: Num,
    base_capital: Num,
) -> (r: LevelQuote)
    requires
        calculates(*f),
        g@.inv(),
        j < g@.levels.len(),
    ensures
        r == level_quote(*f, g@, j as int, t as int, fraction, base_capital),
{
    let price = g.level_price(j);
    let w = g.weight(j, t);
    let sl = g.stoploss_pct();
    let up = calculate(f, Calculation::Difference(g.tp_above(j), price));
    let down = calculate(f, Calculation::Difference(price, g.tp_below(j)));
    let long_p = calculate(f, Calculation::Product(g.long_win_pct(j), w));
    let short_p = calculate(f, Calculation::Product(g.short_win_pct(j), w));
    LevelQuote {
        sl_long: g.sl_long(j, f),
        sl_short: g.sl_short(j, f),
        profit_long: calculate(f, Calculation::Quotient(up, price)),
        profit_short: calculate(f, Calculation::Quotient(down, price)),
        size_long: calculate_order_size(long_p, sl, fraction, base_capital, f),
        size_short: calculate_order_size(short_p, sl, fraction, base_capital, f),
    }
}

fn quote_grid<F: Fn(Calculation) -> Num>(f: &F, g: &TradingGrid, t: usize, fraction: Num, base_capital: Num) -> (q:
    GridQuotes)
    requires
        calculates(*f),
        g@.inv(),
    ensures
        quotes_grid(*f, g@, t as int, fraction, base_capital, q),
{
    let ends = calculate(f, Calculation::Sum(g.min(), g.max()));
    let mid = calculate(f, Calculation::Quotient(ends, Num { bits: TWO_BITS }));
    let ghost want = Seq::new(g@.levels.len(), |j: int| level_quote(*f, g@, j, t as int, fraction, base_capital));
    let n: usize = g.num_levels();
    let mut levels: Vec<LevelQuote> = Vec::new();
    let mut j: usize = 0;
    while j < n
        invariant
            j <= n == g@.levels.len(),
            calculates(*f),
            g@.inv(),
            want == Seq::new(g@.levels.len(), |j: int| level_quote(*f, g@, j, t as int, fraction, base_capital)),
            levels@ == want.take(j as int),
        decreases n - j,
    {
        levels.push(quote_level(f, g, j, t, fraction, base_capital));
        j += 1;
        assert(levels@ =~= want.take(j as int));
    }
    assert(levels@ =~= want);
    GridQuotes { mid, levels }
}

/// What the levels of a plan trade at, `t` candles after it was laid.
pub fn quote_plan<F: Fn(Calculation) -> Num>(
    plan: &Vec<TradingGrid>,
    t: usize,
    fraction: Num,
    base_capital: Num,
    f: &F,
) -> (r: Vec<GridQuotes>)
    requires
        calculates(*f),
        sound_plan(plan@),
    ensures
        quoted(plan_view(plan@), r@),
        forall|i: int| #![trigger r@[i]]
            0 <= i < r@.len() ==> quotes_grid(*f, plan@[i]@, t as int, fraction, base_capital, r@[i]),
{
    let mut out: Vec<GridQuotes> = Vec::new();
    let mut i: usize = 0;
    while i < plan.len()
        invariant
            i <= plan@.len(),
            calculates(*f),
            sound_plan(plan@),
            out@.len() == i,
            forall|k: int| #![trigger out@[k]]
                0 <= k < i ==> quotes_grid(*f, plan@[k]@, t as int, fraction, base_capital, out@[k]),
        decreases plan@.len() - i,
    {
        assert(plan@[i as int]@.inv());
        out.push(quote_grid(f, &plan[i], t, fraction, base_capital));
        i += 1;
    }
    proof {
        assert forall|k: int| #![trigger plan_view(plan@)[k]] 0 <= k < plan@.len() implies plan_view(plan@)[k].inv()
            && out@[k].levels@.len() == plan_view(plan@)[k].levels.len() by {
            assert(plan@[k]@.inv());
            assert(quotes_grid(*f, plan@[k]@, t as int, fraction, base_capital, out@[k]));
        }
    }
    out
}

/// The move of the price in an order's favour, as a fraction of its entry.
pub open spec fn moved<F: Fn(Calculation) -> Num>(f: F, order: Order, exit: Num) -> Num {
    match order.dtype {
        OrderType::Long => quotient(f, difference(f, exit, order.entry_price), order.entry_price),
        OrderType::Short => quotient(f, difference(f, order.entry_price, exit), order.entry_price),
        OrderType::Unknown => Num { bits: 0 },
    }
}

/// An order that closes at its target has moved by the profit that was expected of
/// its level when it was placed: what is held against the fee then is what the
/// fee is taken from in the end.
pub proof fn a_target_pays_what_was_expected<F: Fn(Calculation) -> Num>(
    f: F,
    g: GridView,
    j: int,
    t: int,
    fraction: Num,
    base_capital: Num,
    order: Order,
)
    requires
        order.entry_price == g.levels[j],
        order.dtype is Long ==> order.tp_price == g.tp_above(j),
        order.dtype is Short ==> order.tp_price == g.tp_below(j),
    ensures
        order.dtype is Long ==> moved(f, order, order.tp_price) == level_quote(f, g, j, t, fraction, base_capital).profit_long,
        order.dtype is Short ==> moved(f, order, order.tp_price) == level_quote(
            f,
            g,
            j,
            t,
            fraction,
            base_capital,
        ).profit_short,
{
}

/// Whether taking a lesser number from a greater one leaves more than zero.
pub open spec fn differences_are_positive<F: Fn(Calculation) -> Num>(f: F) -> bool {
    forall|a: Num, b: Num| b.below(a) ==> (Num { bits: 0 }).below(#[trigger] difference(f, a, b))
}

/// Whether an order that closes at its target earns more than zero after the fee.
pub open spec fn pays<F: Fn(Calculation) -> Num>(f: F, order: Order, round_trip_fee: Num) -> bool {
    (Num { bits: 0 }).below(difference(f, moved(f, order, order.tp_price), round_trip_fee))
}

/// Whether the quotes of every grid of a plan are numbers.
pub open spec fn profits_are_numbers(plan: Seq<GridView>, quotes: Seq<GridQuotes>) -> bool {
    forall|i: int, j: int|
        0 <= i < plan.len() && 0 <= j < plan[i].levels.len() ==> !(#[trigger] profit_at(plan[i], quotes[i], j)).nan()
}

/// Whether differences keep order: where more is taken from, no less is left, and
/// where more is taken, no more is left.
pub open spec fn differences_keep_order<F: Fn(Calculation) -> Num>(f: F) -> bool {
    &&& forall|a: Num, b: Num, c: Num| #![trigger difference(f, a, c), difference(f, b, c)]
        a.at_most(b) && c.finite() ==> difference(f, a, c).at_most(difference(f, b, c))
    &&& forall|a: Num, b: Num, c: Num| #![trigger difference(f, c, a), difference(f, c, b)]
        a.at_most(b) && c.finite() ==> difference(f, c, b).at_most(difference(f, c, a))
}

/// Whether quotients by one number above zero keep order.
pub open spec fn quotients_keep_order<F: Fn(Calculation) -> Num>(f: F) -> bool {
    forall|a: Num, b: Num, c: Num| #![trigger quotient(f, a, c), quotient(f, b, c)]
        a.at_most(b) && is_price(c) ==> quotient(f, a, c).at_most(quotient(f, b, c))
}

/// Whether a number is a price: finite and above zero.
pub open spec fn is_price(x: Num) -> bool {
    x.finite() && (Num { bits: 0 }).below(x)
}

/// Whether every level of a grid is a price.
pub open spec fn levels_are_prices(g: GridView) -> bool {
    forall|j: int| 0 <= j < g.levels.len() ==> is_price(#[trigger] g.levels[j])
}

/// Whether the move to an order's target exceeds the fee.
pub open spec fn exceeds_fee<F: Fn(Calculation) -> Num>(f: F, order: Order, round_trip_fee: Num) -> bool {
    round_trip_fee.below(moved(f, order, order.tp_price))
}

/// Whether a candle with number `seq` that reaches an order's target and not its
/// stop, once the order is unlocked, closes it with more than zero after the fee.
pub open spec fn wins<F: Fn(Calculation) -> Num>(
    f: F,
    order: Order,
    candle: CandleStick,
    seq: u64,
    round_trip_fee: Num,
) -> bool {
    seq >= order.unlock_seq && !order.hits_stop(candle) && order.hits_target(candle) ==> (order.exit_at(
        candle,
        seq,
    ) matches Some(p) && (Num { bits: 0 }).below(difference(f, moved(f, order, p), round_trip_fee)))
}

proof fn lemma_moves_keep_order<F: Fn(Calculation) -> Num>(f: F, order: Order, near: Num, far: Num)
    requires
        differences_keep_order(f),
        quotients_keep_order(f),
        is_price(order.entry_price),
        order.dtype is Long ==> near.at_most(far),
        order.dtype is Short ==> far.at_most(near),
        order.dtype !is Unknown,
    ensures
        moved(f, order, near).at_most(moved(f, order, far)),
{
    let e = order.entry_price;
    if order.dtype is Long {
        assert(difference(f, near, e).at_most(difference(f, far, e)));
        assert(quotient(f, difference(f, near, e), e).at_most(quotient(f, difference(f, far, e), e)));
    } else {
        assert(difference(f, e, near).at_most(difference(f, e, far)));
        assert(quotient(f, difference(f, e, near), e).at_most(quotient(f, difference(f, e, far), e)));
    }
}

/// A candle that opens beyond an order's target closes it at its open, and the
/// order earns no less than it would have at the target: for arithmetic in which
/// differences and quotients keep order, and for every candle that closes an order
/// at its target or beyond.
pub proof fn a_fill_beyond_the_target_earns_no_less<F: Fn(Calculation) -> Num>(
    f: F,
    order: Order,
    candle: CandleStick,
    seq: u64,
    round_trip_fee: Num,
)
    requires
        differences_keep_order(f),
        quotients_keep_order(f),
        is_price(order.entry_price),
        round_trip_fee.finite(),
        seq >= order.unlock_seq,
        !order.hits_stop(candle),
        order.hits_target(candle),
    ensures
        order.exit_at(candle, seq) matches Some(p) && difference(
            f,
            moved(f, order, order.tp_price),
            round_trip_fee,
        ).at_most(difference(f, moved(f, order, p), round_trip_fee)),
{
    target_never_fills_worse(order, candle, seq);
    lemma_moves_keep_order(f, order, order.tp_price, order.exit_at(candle, seq)->0);
}

proof fn lemma_levels_exceed_fee<F: Fn(Calculation) -> Num>(
    f: F,
    open: Seq<Order>,
    g: GridView,
    q: GridQuotes,
    candle: CandleStick,
    rule: EntryRule,
    ig: int,
    t: int,
    fraction: Num,
    base_capital: Num,
    n: nat,
)
    requires
        !rule.round_trip_fee.nan(),
        quotes_grid(f, g, t, fraction, base_capital, q),
        forall|j: int| 0 <= j < g.levels.len() ==> !(#[trigger] profit_at(g, q, j)).nan(),
        n <= g.levels.len(),
    ensures
        forall|k: int| #![trigger placed(level_outcomes(open, g, q, candle, rule, ig, n))[k]]
            0 <= k < placed(level_outcomes(open, g, q, candle, rule, ig, n)).len() ==> {
                let order = placed(level_outcomes(open, g, q, candle, rule, ig, n))[k];
                &&& exceeds_fee(f, order, rule.round_trip_fee)
                &&& levels_are_prices(g) ==> is_price(order.entry_price)
            },
    decreases n,
{
    if n > 0 {
        let il = n - 1;
        lemma_levels_exceed_fee(f, open, g, q, candle, rule, ig, t, fraction, base_capital, (n - 1) as nat);
        let rest = level_outcomes(open, g, q, candle, rule, ig, (n - 1) as nat);
        let here = outcome_at(open, g, q, candle, rule, ig, il);
        lemma_placed_add(rest, here);
        if here.len() == 1 {
            assert(here.drop_last() =~= Seq::empty());
            assert(placed(here.drop_last()) =~= Seq::empty());
            let order = order_at(g, q, ig, il, rule.unlock_seq);
            assert(!profit_at(g, q, il).nan());
            a_target_pays_what_was_expected(f, g, il, t, fraction, base_capital, order);
            assert(q.levels@[il] == level_quote(f, g, il, t, fraction, base_capital));
            assert(moved(f, order, order.tp_price) == profit_at(g, q, il));
            assert(order.entry_price == g.levels[il]);
        }
    }
}

/// An entry step places no order whose expected move does not exceed the fee of
/// both sides, and it opens every order at a level of the plan.
pub proof fn placed_orders_exceed_the_fee<F: Fn(Calculation) -> Num>(
    f: F,
    open: Seq<Order>,
    plan: Seq<GridView>,
    quotes: Seq<GridQuotes>,
    candle: CandleStick,
    rule: EntryRule,
    t: int,
    fraction: Num,
    base_capital: Num,
    n: nat,
)
    requires
        !rule.round_trip_fee.nan(),
        plan.len() == quotes.len(),
        forall|i: int| #![trigger quotes[i]]
            0 <= i < plan.len() ==> quotes_grid(f, plan[i], t, fraction, base_capital, quotes[i]),
        profits_are_numbers(plan, quotes),
        n <= plan.len(),
    ensures
        forall|k: int| #![trigger placed(grid_outcomes(open, plan, quotes, candle, rule, n))[k]]
            0 <= k < placed(grid_outcomes(open, plan, quotes, candle, rule, n)).len() ==> {
                let order = placed(grid_outcomes(open, plan, quotes, candle, rule, n))[k];
                &&& exceeds_fee(f, order, rule.round_trip_fee)
                &&& (forall|i: int| 0 <= i < plan.len() ==> levels_are_prices(#[trigger] plan[i])) ==> is_price(
                    order.entry_price,
                )
            },
    decreases n,
{
    if n > 0 {
        let ig = n - 1;
        placed_orders_exceed_the_fee(f, open, plan, quotes, candle, rule, t, fraction, base_capital, (n - 1) as nat);
        if meets(plan[ig], candle) {
            let rest = grid_outcomes(open, plan, quotes, candle, rule, (n - 1) as nat);
            let here = level_outcomes(open, plan[ig], quotes[ig], candle, rule, ig, plan[ig].levels.len());
            assert(quotes_grid(f, plan[ig], t, fraction, base_capital, quotes[ig]));
            lemma_levels_exceed_fee(
                f,
                open,
                plan[ig],
                quotes[ig],
                candle,
                rule,
                ig,
                t,
                fraction,
                base_capital,
                plan[ig].levels.len(),
            );
            lemma_placed_add(rest, here);
        }
    }
}

/// An entry step places no order that does not pay: for arithmetic in which a
/// greater number less a smaller one is above zero, every order placed earns more
/// than zero after the fee where it closes at its target.
pub proof fn placed_orders_pay_at_their_targets<F: Fn(Calculation) -> Num>(
    f: F,
    open: Seq<Order>,
    plan: Seq<GridView>,
    quotes: Seq<GridQuotes>,
    candle: CandleStick,
    rule: EntryRule,
    t: int,
    fraction: Num,
    base_capital: Num,
    n: nat,
)
    requires
        differences_are_positive(f),
        !rule.round_trip_fee.nan(),
        plan.len() == quotes.len(),
        forall|i: int| #![trigger quotes[i]]
            0 <= i < plan.len() ==> quotes_grid(f, plan[i], t, fraction, base_capital, quotes[i]),
        profits_are_numbers(plan, quotes),
        n <= plan.len(),
    ensures
        forall|k: int|
            0 <= k < placed(grid_outcomes(open, plan, quotes, candle, rule, n)).len() ==> pays(
                f,
                #[trigger] placed(grid_outcomes(open, plan, quotes, candle, rule, n))[k],
                rule.round_trip_fee,
            ),
{
    placed_orders_exceed_the_fee(f, open, plan, quotes, candle, rule, t, fraction, base_capital, n);
}

proof fn lemma_prices_give_profits<F: Fn(Calculation) -> Num>(
    f: F,
    g: GridView,
    q: GridQuotes,
    t: int,
    fraction: Num,
    base_capital: Num,
    j: int,
)
    requires
        differences_keep_order(f),
        quotients_keep_order(f),
        levels_are_prices(g),
        quotes_grid(f, g, t, fraction, base_capital, q),
        0 <= j < g.levels.len(),
    ensures
        !profit_at(g, q, j).nan(),
{
    let price = g.levels[j];
    let above = difference(f, g.tp_above(j), price);
    let below = difference(f, price, g.tp_below(j));
    assert(is_price(price));
    assert(is_price(g.tp_above(j)));
    assert(is_price(g.tp_below(j)));
    assert(above.at_most(above));
    assert(below.at_most(below));
    assert(quotient(f, above, price).at_most(quotient(f, above, price)));
    assert(quotient(f, below, price).at_most(quotient(f, below, price)));
    assert(q.levels@[j] == level_quote(f, g, j, t, fraction, base_capital));
}

/// Every order that an entry step places over a plan of prices wins at its target:
/// whatever later candle reaches the target and not the stop, once the order is
/// unlocked, closes the order with more than zero after the fee, be it at the target
/// or at an open beyond it.
pub proof fn placed_orders_win<F: Fn(Calculation) -> Num>(
    f: F,
    open: Seq<Order>,
    plan: Seq<GridView>,
    quotes: Seq<GridQuotes>,
    candle: CandleStick,
    rule: EntryRule,
    t: int,
    fraction: Num,
    base_capital: Num,
    n: nat,
)
    requires
        differences_are_positive(f),
        differences_keep_order(f),
        quotients_keep_order(f),
        !rule.round_trip_fee.nan(),
        plan.len() == quotes.len(),
        forall|i: int| 0 <= i < plan.len() ==> levels_are_prices(#[trigger] plan[i]),
        forall|i: int| #![trigger quotes[i]]
            0 <= i < plan.len() ==> quotes_grid(f, plan[i], t, fraction, base_capital, quotes[i]),
        n <= plan.len(),
    ensures
        forall|k: int, later: CandleStick, seq: u64|
            0 <= k < placed(grid_outcomes(open, plan, quotes, candle, rule, n)).len() ==> #[trigger] wins(
                f,
                placed(grid_outcomes(open, plan, quotes, candle, rule, n))[k],
                later,
                seq,
                rule.round_trip_fee,
            ),
{
    assert forall|i: int, j: int| 0 <= i < plan.len() && 0 <= j < plan[i].levels.len() implies !(#[trigger] profit_at(
        plan[i],
        quotes[i],
        j,
    )).nan() by {
        lemma_prices_give_profits(f, plan[i], quotes[i], t, fraction, base_capital, j);
    }
    placed_orders_exceed_the_fee(f, open, plan, quotes, candle, rule, t, fraction, base_capital, n);
    let all = placed(grid_outcomes(open, plan, quotes, candle, rule, n));
    assert forall|k: int, later: CandleStick, seq: u64| 0 <= k < all.len() implies #[trigger] wins(
        f,
        all[k],
        later,
        seq,
        rule.round_trip_fee,
    ) by {
        let order = all[k];
        if seq >= order.unlock_seq && !order.hits_stop(later) && order.hits_target(later) {
            target_never_fills_worse(order, later, seq);
            lemma_moves_keep_order(f, order, order.tp_price, order.exit_at(later, seq)->0);
        }
    }
}

/// What an order earned at its exit price, after the fee of both sides.
pub fn pnl_pct<F: Fn(Calculation) -> Num>(order: Order, exit: Num, round_trip_fee: Num, f: &F) -> (r: Num)
    requires
        calculates(*f),
    ensures
        r == difference(*f, moved(*f, order, exit), round_trip_fee),
{
    let entry = order.entry_price;
    let gross = match order.dtype {
        OrderType::Long => {
            let up = calculate(f, Calculation::Difference(exit, entry));
            calculate(f, Calculation::Quotient(up, entry))
        },
        OrderType::Short => {
            let down = calculate(f, Calculation::Difference(entry, exit));
            calculate(f, Calculation::Quotient(down, entry))
        },
        OrderType::Unknown => Num::zero(),
    };
    calculate(f, Calculation::Difference(gross, round_trip_fee))
}

/// What an order earned that is closed at the end of a stream; it may have no
/// price it was opened at, and then has not moved.
pub fn flush_pnl_pct<F: Fn(Calculation) -> Num>(order: Order, close: Num, round_trip_fee: Num, f: &F) -> (r: Num)
    requires
        calculates(*f),
    ensures
        r == difference(
            *f,
            if (Num { bits: 0 }).below(order.entry_price) {
                moved(*f, order, close)
            } else {
                Num { bits: 0 }
            },
            round_trip_fee,
        ),
{
    if order.entry_price.is_positive() {
        pnl_pct(order, close, round_trip_fee, f)
    } else {
        calculate(f, Calculation::Difference(Num::zero(), round_trip_fee))
    }
}

} // verus!
