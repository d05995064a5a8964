//! What a report says of a history, over real numbers.
use vstd::prelude::*;

use crate::arith::{
    count, difference, product, quotient, root, sum, total, unsigned, Calculation, HUNDRED_BITS, ONE_BITS,
};
use crate::exact::{exact, reads, real_total, sum_over, sums_are_exact, without};
use crate::num::{Num, INFINITY_BITS};
use crate::order::{Order, OrderType};
use crate::report::{
    a_drawdown_is_not_negative, counts_agree, downside, drawdown, earned, gross_loss, gross_profit, is_report_of,
    losing_run, mean_of, peak, profits_to, report_of, side_count, spread, tallied, win_share, wins_in, won, Tally,
};
use crate::score::Report;

verus! {

/// What a closed order earned; nothing where it is open, or earned what is no number.
pub open spec fn profit(val: spec_fn(Num) -> real, o: Order) -> real {
    match o.pnl_pct {
        Some(p) => if p.nan() {
            0 as real
        } else {
            val(p)
        },
        None => 0 as real,
    }
}

/// Whether an order was closed with more than nothing.
pub open spec fn gained(val: spec_fn(Num) -> real, o: Order) -> bool {
    o.pnl_pct matches Some(p) && !p.nan() && val(p) > 0 as real
}

/// What an order gained; nothing where it lost.
pub open spec fn gain(val: spec_fn(Num) -> real, o: Order) -> real {
    if profit(val, o) > 0 as real {
        profit(val, o)
    } else {
        0 as real
    }
}

/// What an order lost; nothing where it gained.
pub open spec fn loss(val: spec_fn(Num) -> real, o: Order) -> real {
    if profit(val, o) < 0 as real {
        -profit(val, o)
    } else {
        0 as real
    }
}

/// What all orders earned together.
pub open spec fn net(val: spec_fn(Num) -> real, orders: Seq<Order>) -> real {
    sum_over(orders, |o: Order| profit(val, o))
}

/// What the orders that gained brought in.
pub open spec fn gains(val: spec_fn(Num) -> real, orders: Seq<Order>) -> real {
    sum_over(orders, |o: Order| gain(val, o))
}

/// What the orders that lost cost.
pub open spec fn losses(val: spec_fn(Num) -> real, orders: Seq<Order>) -> real {
    sum_over(orders, |o: Order| loss(val, o))
}

/// The squares of what was lost.
pub open spec fn squared_losses(val: spec_fn(Num) -> real, orders: Seq<Order>) -> real {
    sum_over(orders, |o: Order| loss(val, o) * loss(val, o))
}

/// The squares of how far the profits of closed orders lie from `mean`.
pub open spec fn squared_distances(val: spec_fn(Num) -> real, orders: Seq<Order>, mean: real) -> real {
    sum_over(
        orders,
        |o: Order|
            if o.pnl_pct is Some {
                (profit(val, o) - mean) * (profit(val, o) - mean)
            } else {
                0 as real
            },
    )
}

/// What all orders earned in money.
pub open spec fn money(val: spec_fn(Num) -> real, orders: Seq<Order>) -> real {
    sum_over(orders, |o: Order| val(o.size) * profit(val, o))
}

/// The orders that gained.
pub open spec fn winners(val: spec_fn(Num) -> real, orders: Seq<Order>) -> Seq<Order> {
    orders.filter(|o: Order| gained(val, o))
}

/// The orders closed on one side.
pub open spec fn closed_on(orders: Seq<Order>, side: OrderType) -> Seq<Order> {
    orders.filter(|o: Order| o.pnl_pct is Some && o.dtype == side)
}

/// The orders closed on one side that gained.
pub open spec fn winners_on(val: spec_fn(Num) -> real, orders: Seq<Order>, side: OrderType) -> Seq<Order> {
    orders.filter(|o: Order| gained(val, o) && o.dtype == side)
}

proof fn lemma_step(orders: Seq<Order>, n: nat)
    requires
        0 < n <= orders.len(),
    ensures
        orders.take(n as int).drop_last() == orders.take(n - 1),
        orders.take(n as int).last() == orders[n - 1],
{
    assert(orders.take(n as int).drop_last() =~= orders.take(n - 1));
}

proof fn lemma_won(val: spec_fn(Num) -> real, p: Num)
    requires
        reads(val),
    ensures
        won(p) <==> !p.nan() && val(p) > 0 as real,
        !p.nan() ==> (p.below(Num { bits: 0 }) <==> val(p) < 0 as real),
        !p.nan() ==> val(unsigned(p)) == without(val(p)),
        unsigned(p).nan() == p.nan(),
{
    let zero = Num { bits: 0 };
    assert(val(zero) == 0 as real);
    if !p.nan() {
        assert(p.key() <= zero.key() <==> val(p) <= val(zero));
        assert(zero.key() <= p.key() <==> val(zero) <= val(p));
    }
}

/// The counts of a history are those of its orders.
proof fn lemma_counts_of(val: spec_fn(Num) -> real, orders: Seq<Order>, n: nat)
    requires
        reads(val),
        n <= orders.len(),
    ensures
        wins_in(profits_to(orders, n)) == winners(val, orders.take(n as int)).len(),
        side_count(orders, OrderType::Long, false, n) == closed_on(orders.take(n as int), OrderType::Long).len(),
        side_count(orders, OrderType::Short, false, n) == closed_on(orders.take(n as int), OrderType::Short).len(),
        side_count(orders, OrderType::Long, true, n) == winners_on(val, orders.take(n as int), OrderType::Long).len(),
        side_count(orders, OrderType::Short, true, n) == winners_on(val, orders.take(n as int), OrderType::Short).len(),
    decreases n,
{
    reveal(Seq::filter);
    if n == 0 {
        assert(orders.take(0) =~= Seq::empty());
    } else {
        lemma_step(orders, n);
        lemma_counts_of(val, orders, (n - 1) as nat);
        let before = profits_to(orders, (n - 1) as nat);
        let o = orders[n - 1];
        if let Some(p) = o.pnl_pct {
            lemma_won(val, p);
            assert(before.push(p).drop_last() =~= before);
            assert(gained(val, o) == won(p));
        }
    }
}

/// What is added up of a history without rounding is the sum over its orders.
proof fn lemma_sums_of<F: Fn(Calculation) -> Num>(f: F, val: spec_fn(Num) -> real, orders: Seq<Order>, mean: Num, n: nat)
    requires
        exact(f, val),
        n <= orders.len(),
    ensures
        ({
            let p = profits_to(orders, n);
            let o = orders.take(n as int);
            &&& !total(f, p).nan() ==> val(total(f, p)) == net(val, o)
            &&& !gross_profit(f, p).nan() ==> val(gross_profit(f, p)) == gains(val, o)
            &&& !gross_loss(f, p).nan() ==> val(gross_loss(f, p)) == losses(val, o)
            &&& !downside(f, p).nan() ==> val(downside(f, p)) == squared_losses(val, o)
            &&& !spread(f, p, mean).nan() ==> val(spread(f, p, mean)) == squared_distances(val, o, val(mean))
            &&& !earned(f, orders, n).nan() ==> val(earned(f, orders, n)) == money(val, o)
        }),
    decreases n,
{
    if n == 0 {
        assert(orders.take(0) =~= Seq::empty());
    } else {
        lemma_step(orders, n);
        lemma_sums_of(f, val, orders, mean, (n - 1) as nat);
        let before = profits_to(orders, (n - 1) as nat);
        let o = orders[n - 1];
        if let Some(p) = o.pnl_pct {
            let all = profits_to(orders, n);
            lemma_won(val, p);
            assert(all == before.push(p));
            assert(all.drop_last() =~= before);
            assert(all.last() == p);
            assert(total(f, all) == sum(f, total(f, before), p));
            assert((-val(p)) * (-val(p)) == val(p) * val(p)) by (nonlinear_arith);
            assert(val(o.size) * 0 as real == 0 as real) by (nonlinear_arith);
            if won(p) {
                assert(gross_profit(f, all) == sum(f, gross_profit(f, before), p));
                assert(gross_loss(f, all) == gross_loss(f, before));
            } else {
                assert(gross_profit(f, all) == gross_profit(f, before));
                assert(gross_loss(f, all) == sum(f, gross_loss(f, before), unsigned(p)));
            }
            let d = difference(f, p, mean);
            assert(spread(f, all, mean) == sum(f, spread(f, before, mean), product(f, d, d)));
            if !product(f, d, d).nan() {
                assert(!d.nan());
            }
            assert(0 as real * 0 as real == 0 as real) by (nonlinear_arith);
            if p.below(Num { bits: 0 }) {
                assert(downside(f, all) == sum(f, downside(f, before), product(f, p, p)));
            } else {
                assert(downside(f, all) == downside(f, before));
            }
            assert(earned(f, orders, n) == sum(f, earned(f, orders, (n - 1) as nat), product(f, o.size, p)));
        } else {
            assert(val(o.size) * 0 as real == 0 as real) by (nonlinear_arith);
            assert(0 as real * 0 as real == 0 as real) by (nonlinear_arith);
        }
    }
}

proof fn lemma_nothing_won<F: Fn(Calculation) -> Num>(f: F, p: Seq<Num>)
    ensures
        wins_in(p) <= p.len(),
        wins_in(p) == 0 ==> gross_profit(f, p) == (Num { bits: 0 }),
        wins_in(p) == p.len() ==> gross_loss(f, p) == (Num { bits: 0 }),
    decreases p.len(),
{
    if p.len() > 0 {
        lemma_nothing_won(f, p.drop_last());
    }
}

/// Gains less losses are what was earned, and none of the three sums hides a sign.
proof fn lemma_net_splits(val: spec_fn(Num) -> real, orders: Seq<Order>)
    ensures
        net(val, orders) == gains(val, orders) - losses(val, orders),
        gains(val, orders) >= 0 as real,
        losses(val, orders) >= 0 as real,
    decreases orders.len(),
{
    if orders.len() > 0 {
        lemma_net_splits(val, orders.drop_last());
    }
}

proof fn lemma_share_times_mean(part: real, all: real, amount: real)
    requires
        part > 0 as real,
        all > 0 as real,
    ensures
        (part / all) * (amount / part) == amount / all,
        (amount / all) * all == amount,
        (amount / part) * part == amount,
{
    assert((part / all) * (amount / part) == amount / all) by (nonlinear_arith)
        requires
            part > 0 as real,
            all > 0 as real,
    ;
    assert((amount / all) * all == amount) by (nonlinear_arith)
        requires
            all > 0 as real,
    ;
    assert((amount / part) * part == amount) by (nonlinear_arith)
        requires
            part > 0 as real,
    ;
}

/// The report of a history says what it earned: the net profit is the sum of the
/// profits, and the expectancy is their mean, whatever was won and lost. A history
/// that only won expects its average win, and one that only lost its average loss.
pub proof fn the_expectancy_is_the_mean_profit<F: Fn(Calculation) -> Num>(
    f: F,
    val: spec_fn(Num) -> real,
    orders: Seq<Order>,
    r: Report,
)
    requires
        exact(f, val),
        is_report_of(f, orders, r),
        orders.len() > 0,
    ensures
        r.total_trades == orders.len(),
        !r.net_pnl_pct.nan() ==> val(r.net_pnl_pct) == 100 as real * net(val, orders),
        r.total_return == r.net_pnl_pct,
        !r.expectancy.nan() ==> val(r.expectancy) * orders.len() as real == 100 as real * net(val, orders),
        !r.expectancy.nan() && !r.avg_win_pct.nan() && winners(val, orders).len() == orders.len() ==> val(r.expectancy)
            == val(r.avg_win_pct),
        !r.expectancy.nan() && !r.avg_loss_pct.nan() && winners(val, orders).len() == 0 ==> val(r.expectancy) == -val(
            r.avg_loss_pct,
        ),
{
    let n = orders.len();
    let t = choose|t: Tally| #[trigger] tallied(orders, t) && r == report_of(f, orders, t);
    let p = t.profits@;
    let zero = Num { bits: 0 };
    let one = Num { bits: ONE_BITS };
    let hundred = Num { bits: HUNDRED_BITS };
    counts_agree(orders, t);
    assert(orders.take(n as int) =~= orders);
    lemma_counts_of(val, orders, n);
    lemma_sums_of(f, val, orders, zero, n);
    lemma_nothing_won(f, p);
    lemma_net_splits(val, orders);
    let g = gains(val, orders);
    let l = losses(val, orders);
    let w = t.wins as int;
    let lost = n - w;
    let nn = n as real;
    let c = count(f, n as int);
    let win_rate = quotient(f, count(f, w), c);
    let avg_win = mean_of(f, gross_profit(f, p), t.wins);
    let avg_loss = mean_of(f, gross_loss(f, p), (t.total_trades - t.wins) as usize);
    let lose_rate = difference(f, one, win_rate);
    let gain_part = product(f, win_rate, avg_win);
    let cost_part = product(f, lose_rate, avg_loss);
    let expected = difference(f, gain_part, cost_part);
    assert(r.net_pnl_pct == product(f, total(f, p), hundred));
    assert(r.expectancy == product(f, expected, hundred));
    assert(r.avg_win_pct == product(f, avg_win, hundred));
    assert(r.avg_loss_pct == product(f, avg_loss, hundred));
    if !r.expectancy.nan() {
        assert(!expected.nan());
        assert(!gain_part.nan() && !cost_part.nan());
        assert(!win_rate.nan() && !avg_win.nan() && !lose_rate.nan() && !avg_loss.nan());
        assert(val(win_rate) == w as real / nn);
        assert(val(lose_rate) == 1 as real - w as real / nn);
        if w > 0 {
            assert(avg_win == quotient(f, gross_profit(f, p), count(f, w)));
            assert(val(avg_win) == g / (w as real));
            lemma_share_times_mean(w as real, nn, g);
            assert(val(gain_part) == g / nn);
        } else {
            assert(val(avg_win) == 0 as real);
            assert(g == 0 as real);
            assert(val(gain_part) == 0 as real) by (nonlinear_arith)
                requires
                    val(gain_part) == val(win_rate) * val(avg_win),
                    val(avg_win) == 0 as real,
            ;
            assert(0 as real / nn == 0 as real) by (nonlinear_arith)
                requires
                    nn > 0 as real,
            ;
            assert(val(gain_part) == g / nn);
        }
        assert(val(lose_rate) == lost as real / nn) by (nonlinear_arith)
            requires
                val(lose_rate) == 1 as real - w as real / nn,
                lost as real == nn - w as real,
                nn > 0 as real,
        ;
        if lost > 0 {
            assert(avg_loss == quotient(f, gross_loss(f, p), count(f, lost)));
            assert(val(avg_loss) == l / (lost as real));
            lemma_share_times_mean(lost as real, nn, l);
            assert(val(cost_part) == l / nn);
        } else {
            assert(val(avg_loss) == 0 as real);
            assert(l == 0 as real);
            assert(val(cost_part) == 0 as real) by (nonlinear_arith)
                requires
                    val(cost_part) == val(lose_rate) * val(avg_loss),
                    val(avg_loss) == 0 as real,
            ;
            assert(0 as real / nn == 0 as real) by (nonlinear_arith)
                requires
                    nn > 0 as real,
            ;
            assert(val(cost_part) == l / nn);
        }
        assert(val(r.expectancy) == (g / nn - l / nn) * 100 as real);
        assert(val(r.expectancy) * nn == 100 as real * (g - l)) by (nonlinear_arith)
            requires
                val(r.expectancy) == (g / nn - l / nn) * 100 as real,
                nn > 0 as real,
        ;
    }
}

/// The rates and averages of a report are shares and means: times what they are taken
/// of, they give back the wins, the gains and the losses. Both sides are counted apart.
/// The profit in money weighs every profit by the size of its order.
pub proof fn rates_and_averages_multiply_back<F: Fn(Calculation) -> Num>(
    f: F,
    val: spec_fn(Num) -> real,
    orders: Seq<Order>,
    r: Report,
)
    requires
        exact(f, val),
        is_report_of(f, orders, r),
        orders.len() > 0,
    ensures
        ({
            let wins = winners(val, orders).len();
            let lost = orders.len() - wins;
            let longs = closed_on(orders, OrderType::Long).len();
            let shorts = closed_on(orders, OrderType::Short).len();
            &&& !r.win_rate.nan() ==> val(r.win_rate) * orders.len() as real == 100 as real * wins as real
            &&& !r.avg_win_pct.nan() ==> val(r.avg_win_pct) * wins as real == 100 as real * gains(val, orders)
            &&& !r.avg_loss_pct.nan() ==> val(r.avg_loss_pct) * lost as real == 100 as real * losses(val, orders)
            &&& r.long_trades == longs
            &&& r.short_trades == shorts
            &&& !r.long_win_rate.nan() ==> val(r.long_win_rate) * longs as real == 100 as real * winners_on(
                val,
                orders,
                OrderType::Long,
            ).len() as real
            &&& !r.short_win_rate.nan() ==> val(r.short_win_rate) * shorts as real == 100 as real * winners_on(
                val,
                orders,
                OrderType::Short,
            ).len() as real
            &&& !r.net_pnl_abs.nan() ==> val(r.net_pnl_abs) == money(val, orders)
        }),
{
    let n = orders.len();
    let t = choose|t: Tally| #[trigger] tallied(orders, t) && r == report_of(f, orders, t);
    let p = t.profits@;
    let zero = Num { bits: 0 };
    let hundred = Num { bits: HUNDRED_BITS };
    counts_agree(orders, t);
    assert(orders.take(n as int) =~= orders);
    lemma_counts_of(val, orders, n);
    lemma_sums_of(f, val, orders, zero, n);
    lemma_nothing_won(f, p);
    let w = t.wins as int;
    let lost = n - w;
    let win_rate = quotient(f, count(f, w), count(f, n as int));
    let avg_win = mean_of(f, gross_profit(f, p), t.wins);
    let avg_loss = mean_of(f, gross_loss(f, p), (t.total_trades - t.wins) as usize);
    assert(r.win_rate == product(f, win_rate, hundred));
    assert(r.avg_win_pct == product(f, avg_win, hundred));
    assert(r.avg_loss_pct == product(f, avg_loss, hundred));
    if !r.win_rate.nan() {
        lemma_times_back(val(r.win_rate), w as real, n as real);
    }
    if !r.avg_win_pct.nan() {
        if w > 0 {
            assert(avg_win == quotient(f, gross_profit(f, p), count(f, w)));
            lemma_times_back(val(r.avg_win_pct), gains(val, orders), w as real);
        } else {
            assert(gains(val, orders) == 0 as real);
            assert(val(r.avg_win_pct) * w as real == 0 as real) by (nonlinear_arith)
                requires
                    w as real == 0 as real,
            ;
        }
    }
    if !r.avg_loss_pct.nan() {
        if lost > 0 {
            assert(avg_loss == quotient(f, gross_loss(f, p), count(f, lost)));
            lemma_times_back(val(r.avg_loss_pct), losses(val, orders), lost as real);
        } else {
            assert(losses(val, orders) == 0 as real);
            assert(val(r.avg_loss_pct) * lost as real == 0 as real) by (nonlinear_arith)
                requires
                    lost as real == 0 as real,
            ;
        }
    }
    lemma_side_share(f, val, r.long_win_rate, t.long_wins, t.long_trades);
    lemma_side_share(f, val, r.short_win_rate, t.short_wins, t.short_trades);
}

proof fn lemma_times_back(x: real, amount: real, all: real)
    requires
        x == (amount / all) * 100 as real,
        all > 0 as real,
    ensures
        x * all == 100 as real * amount,
{
    assert(x * all == 100 as real * amount) by (nonlinear_arith)
        requires
            x == (amount / all) * 100 as real,
            all > 0 as real,
    ;
}

proof fn lemma_side_share<F: Fn(Calculation) -> Num>(f: F, val: spec_fn(Num) -> real, share: Num, wins: usize, trades: usize)
    requires
        exact(f, val),
        share == win_share(f, wins, trades),
        wins <= trades,
    ensures
        !share.nan() ==> val(share) * trades as real == 100 as real * wins as real,
{
    if !share.nan() {
        if trades > 0 {
            let q = quotient(f, count(f, wins as int), count(f, trades as int));
            assert(share == product(f, q, Num { bits: HUNDRED_BITS }));
            lemma_times_back(val(share), wins as real, trades as real);
        } else {
            assert(val(share) * trades as real == 0 as real) by (nonlinear_arith)
                requires
                    trades as real == 0 as real,
            ;
        }
    }
}

proof fn lemma_ratio_squares(s: real, m: real, d: real, k: real, spread: real, sum: real, n: real)
    requires
        n > 0 as real,
        d > 0 as real,
        k >= 0 as real,
        k * k == n,
        d * d == spread / n,
        m == sum / n,
        s == (m / d) * k,
    ensures
        s * s * spread == sum * sum,
        s * sum >= 0 as real,
{
    let q = m / d;
    assert(q * d == m) by (nonlinear_arith)
        requires
            q == m / d,
            d > 0 as real,
    ;
    assert(d * d * n == spread) by (nonlinear_arith)
        requires
            d * d == spread / n,
            n > 0 as real,
    ;
    assert(m * n == sum) by (nonlinear_arith)
        requires
            m == sum / n,
            n > 0 as real,
    ;
    assert(s * s == q * q * n) by (nonlinear_arith)
        requires
            s == q * k,
            k * k == n,
    ;
    assert(s * s * spread == (q * d) * (q * d) * n * n) by (nonlinear_arith)
        requires
            s * s == q * q * n,
            d * d * n == spread,
    ;
    assert((q * d) * (q * d) * n * n == sum * sum) by (nonlinear_arith)
        requires
            q * d == m,
            m * n == sum,
    ;
    assert(s * sum == q * q * (k * d * n)) by (nonlinear_arith)
        requires
            s == q * k,
            q * d == m,
            m * n == sum,
    ;
    assert(q * q * (k * d * n) >= 0 as real) by (nonlinear_arith)
        requires
            k >= 0 as real,
            d > 0 as real,
            n > 0 as real,
    ;
}

/// The ratios of a report, squared where they hold a root: the Sharpe ratio is what
/// was earned over the spread of the profits, the Sortino ratio over that of the
/// losses alone, and both have the sign of what was earned. The Calmar ratio times the
/// drawdown is what was earned; the profit factor times the losses are the gains; and
/// the ratio of wins to losses is that of the averages.
pub proof fn ratios_multiply_back<F: Fn(Calculation) -> Num>(
    f: F,
    val: spec_fn(Num) -> real,
    orders: Seq<Order>,
    r: Report,
)
    requires
        exact(f, val),
        is_report_of(f, orders, r),
        orders.len() > 0,
    ensures
        ({
            let wins = winners(val, orders).len() as real;
            let lost = (orders.len() - winners(val, orders).len()) as real;
            let made = net(val, orders);
            let endless = Num { bits: INFINITY_BITS };
            &&& !r.sharpe_ratio.nan() && r.sharpe_ratio.key() != 0 ==> {
                let s = val(r.sharpe_ratio);
                &&& s * s * squared_distances(val, orders, made / (orders.len() as real)) == made * made
                &&& s * made >= 0 as real
            }
            &&& !r.sortino_ratio.nan() && r.sortino_ratio.key() != 0 ==> {
                let s = val(r.sortino_ratio);
                &&& s * s * squared_losses(val, orders) == made * made
                &&& s * made >= 0 as real
            }
            &&& !r.calmar_ratio.nan() && r.calmar_ratio.key() != 0 && !r.max_drawdown_pct.nan() ==> val(r.calmar_ratio)
                * val(r.max_drawdown_pct) == 100 as real * made
            &&& !r.profit_factor.nan() && r.profit_factor != endless ==> val(r.profit_factor) * losses(val, orders)
                == gains(val, orders)
            &&& !r.win_loss_ratio.nan() && r.win_loss_ratio != endless ==> val(r.win_loss_ratio) * (losses(val, orders)
                * wins) == gains(val, orders) * lost
            &&& winners(val, orders).len() == orders.len() ==> r.profit_factor == endless && r.win_loss_ratio == endless
        }),
{
    let n = orders.len();
    let t = choose|t: Tally| #[trigger] tallied(orders, t) && r == report_of(f, orders, t);
    let p = t.profits@;
    let zero = Num { bits: 0 };
    let hundred = Num { bits: HUNDRED_BITS };
    counts_agree(orders, t);
    assert(orders.take(n as int) =~= orders);
    lemma_counts_of(val, orders, n);
    lemma_nothing_won(f, p);
    let nn = n as real;
    let c = count(f, n as int);
    let mean = quotient(f, total(f, p), c);
    lemma_sums_of(f, val, orders, mean, n);
    let made = net(val, orders);
    if !r.sharpe_ratio.nan() && r.sharpe_ratio.key() != 0 {
        let q = quotient(f, spread(f, p, mean), c);
        let d = root(f, q);
        assert(r.sharpe_ratio == product(f, quotient(f, mean, d), root(f, c)));
        assert(!quotient(f, mean, d).nan() && !root(f, c).nan());
        assert(!mean.nan() && !d.nan() && !q.nan());
        assert(val(mean) == made / nn);
        lemma_ratio_squares(
            val(r.sharpe_ratio),
            val(mean),
            val(d),
            val(root(f, c)),
            squared_distances(val, orders, made / nn),
            made,
            nn,
        );
    }
    if !r.sortino_ratio.nan() && r.sortino_ratio.key() != 0 {
        let q = quotient(f, downside(f, p), c);
        let d = root(f, q);
        assert(r.sortino_ratio == product(f, quotient(f, mean, d), root(f, c)));
        assert(!quotient(f, mean, d).nan() && !root(f, c).nan());
        assert(!mean.nan() && !d.nan() && !q.nan());
        assert(val(mean) == made / nn);
        lemma_ratio_squares(
            val(r.sortino_ratio),
            val(mean),
            val(d),
            val(root(f, c)),
            squared_losses(val, orders),
            made,
            nn,
        );
    }
    let dd = drawdown(f, p);
    if !r.calmar_ratio.nan() && r.calmar_ratio.key() != 0 && !r.max_drawdown_pct.nan() {
        assert(r.calmar_ratio == quotient(f, total(f, p), dd));
        assert(r.max_drawdown_pct == product(f, dd, hundred));
        lemma_over_times(val(r.calmar_ratio), made, val(dd));
        assert(val(r.calmar_ratio) * (val(dd) * 100 as real) == 100 as real * made) by (nonlinear_arith)
            requires
                val(r.calmar_ratio) * val(dd) == made,
        ;
    }
    let endless = Num { bits: INFINITY_BITS };
    if !r.profit_factor.nan() && r.profit_factor != endless {
        assert(r.profit_factor == quotient(f, gross_profit(f, p), gross_loss(f, p)));
        lemma_over_times(val(r.profit_factor), gains(val, orders), losses(val, orders));
    }
    if !r.win_loss_ratio.nan() && r.win_loss_ratio != endless {
        let w = t.wins as int;
        let lost = n - w;
        let avg_win = mean_of(f, gross_profit(f, p), t.wins);
        let avg_loss = mean_of(f, gross_loss(f, p), (t.total_trades - t.wins) as usize);
        let x = val(r.win_loss_ratio);
        assert(r.win_loss_ratio == quotient(f, avg_win, avg_loss));
        assert(lost > 0);
        assert(avg_loss == quotient(f, gross_loss(f, p), count(f, lost)));
        let l = losses(val, orders);
        let g = gains(val, orders);
        lemma_over_times(x, val(avg_win), val(avg_loss));
        lemma_over_times(val(avg_loss), l, lost as real);
        if w > 0 {
            assert(avg_win == quotient(f, gross_profit(f, p), count(f, w)));
            lemma_over_times(val(avg_win), g, w as real);
            assert(x * (l * w as real) == g * lost as real) by (nonlinear_arith)
                requires
                    x * val(avg_loss) == val(avg_win),
                    val(avg_loss) * lost as real == l,
                    val(avg_win) * w as real == g,
            ;
        } else {
            assert(g == 0 as real);
            assert(x * (l * w as real) == 0 as real) by (nonlinear_arith)
                requires
                    w as real == 0 as real,
            ;
            assert(g * lost as real == 0 as real) by (nonlinear_arith)
                requires
                    g == 0 as real,
            ;
        }
    }
}

proof fn lemma_over_times(x: real, a: real, b: real)
    requires
        x == a / b,
        b != 0 as real,
    ensures
        x * b == a,
{
    assert(x * b == a) by (nonlinear_arith)
        requires
            x == a / b,
            b != 0 as real,
    ;
}

/// How far the running sum of profits fell from after the first `i` to after the
/// first `j`.
pub open spec fn fall(val: spec_fn(Num) -> real, p: Seq<Num>, i: int, j: int) -> real {
    real_total(val, p.take(i)) - real_total(val, p.take(j))
}

/// Whether the running sums of profits can be held against each other without rounding.
pub open spec fn falls_are_exact<F: Fn(Calculation) -> Num>(f: F, p: Seq<Num>) -> bool {
    forall|i: int, j: int| #![trigger p.take(i), p.take(j)]
        0 <= i <= j <= p.len() ==> !difference(f, total(f, p.take(i)), total(f, p.take(j))).nan()
}

#[verifier::rlimit(80)]
#[verifier::spinoff_prover]
proof fn lemma_drawdown<F: Fn(Calculation) -> Num>(f: F, val: spec_fn(Num) -> real, p: Seq<Num>, n: nat)
    requires
        exact(f, val),
        falls_are_exact(f, p),
        n <= p.len(),
    ensures
        ({
            let q = p.take(n as int);
            let high = peak(f, q);
            let dd = drawdown(f, q);
            &&& !high.nan() && !dd.nan()
            &&& exists|i: int| 0 <= i <= n && #[trigger] total(f, p.take(i)) == high
            &&& forall|i: int| 0 <= i <= n ==> val(#[trigger] total(f, p.take(i))) <= val(high)
            &&& forall|i: int, j: int| 0 <= i <= j <= n ==> #[trigger] fall(val, p, i, j) <= val(dd)
            &&& exists|i: int, j: int| 0 <= i <= j <= n && #[trigger] fall(val, p, i, j) == val(dd)
        }),
    decreases n,
{
    let zero = Num { bits: 0 };
    assert forall|i: int| 0 <= i <= p.len() implies !(#[trigger] total(f, p.take(i))).nan() && val(total(f, p.take(i)))
        == real_total(val, p.take(i)) by {
        assert(!difference(f, total(f, p.take(i)), total(f, p.take(i))).nan());
        sums_are_exact(f, val, p.take(i));
    }
    let q = p.take(n as int);
    if n == 0 {
        assert(q =~= Seq::empty());
        assert(total(f, p.take(0)) == zero);
        assert(fall(val, p, 0, 0) == 0 as real);
        assert forall|i: int, j: int| 0 <= i <= j <= n implies #[trigger] fall(val, p, i, j) <= val(drawdown(f, q)) by {
            assert(i == 0 && j == 0);
        }
        assert forall|i: int| 0 <= i <= n implies val(#[trigger] total(f, p.take(i))) <= val(peak(f, q)) by {
            assert(i == 0);
        }
    } else {
        let b = p.take(n - 1);
        lemma_drawdown(f, val, p, (n - 1) as nat);
        assert(q.drop_last() =~= b);
        let now = total(f, q);
        let high = peak(f, b);
        let dd = drawdown(f, b);
        let hi = choose|i: int| 0 <= i <= n - 1 && #[trigger] total(f, p.take(i)) == high;
        assert(!difference(f, total(f, p.take(hi)), total(f, p.take(n as int))).nan());
        let d = difference(f, high, now);
        let (wi, wj) = choose|i: int, j: int| 0 <= i <= j <= n - 1 && #[trigger] fall(val, p, i, j) == val(dd);
        assert(high.key() <= now.key() <==> val(high) <= val(now));
        assert(now.key() <= high.key() <==> val(now) <= val(high));
        if high.below(now) {
            assert(peak(f, q) == now);
            assert(drawdown(f, q) == dd);
            assert(total(f, p.take(n as int)) == peak(f, q));
            assert forall|i: int| 0 <= i <= n implies val(#[trigger] total(f, p.take(i))) <= val(peak(f, q)) by {
                if i < n {
                    assert(val(total(f, p.take(i))) <= val(high));
                }
            }
            assert forall|i: int, j: int| 0 <= i <= j <= n implies #[trigger] fall(val, p, i, j) <= val(dd) by {
                assert(fall(val, p, 0, 0) == 0 as real);
                if j == n {
                    assert(val(total(f, p.take(i))) <= val(peak(f, q)));
                }
            }
            assert(0 <= wi <= wj <= n && fall(val, p, wi, wj) == val(drawdown(f, q)));
        } else {
            assert(peak(f, q) == high);
            let new = dd.greater(d);
            assert(drawdown(f, q) == new);
            assert(val(d) == fall(val, p, hi, n as int));
            assert(dd.key() <= d.key() <==> val(dd) <= val(d));
            assert(d.key() <= dd.key() <==> val(d) <= val(dd));
            assert(total(f, p.take(hi)) == peak(f, q));
            assert forall|i: int| 0 <= i <= n implies val(#[trigger] total(f, p.take(i))) <= val(peak(f, q)) by {
                if i < n {
                    assert(val(total(f, p.take(i))) <= val(high));
                }
            }
            assert forall|i: int, j: int| 0 <= i <= j <= n implies #[trigger] fall(val, p, i, j) <= val(new) by {
                if j == n {
                    assert(val(total(f, p.take(i))) <= val(high));
                }
            }
            if new == d {
                assert(fall(val, p, hi, n as int) == val(new));
            } else {
                assert(fall(val, p, wi, wj) == val(new));
            }
        }
    }
}

/// The drawdown of a report is the deepest fall of the running sum of profits: no
/// fall from an earlier to a later sum is deeper, and some fall is as deep.
pub proof fn the_drawdown_is_the_deepest_fall<F: Fn(Calculation) -> Num>(
    f: F,
    val: spec_fn(Num) -> real,
    orders: Seq<Order>,
    r: Report,
)
    requires
        exact(f, val),
        is_report_of(f, orders, r),
        orders.len() > 0,
        falls_are_exact(f, profits_to(orders, orders.len())),
        !r.max_drawdown_pct.nan(),
    ensures
        ({
            let p = profits_to(orders, orders.len());
            &&& forall|i: int, j: int|
                0 <= i <= j <= p.len() ==> 100 as real * #[trigger] fall(val, p, i, j) <= val(r.max_drawdown_pct)
            &&& exists|i: int, j: int|
                0 <= i <= j <= p.len() && 100 as real * #[trigger] fall(val, p, i, j) == val(r.max_drawdown_pct)
        }),
{
    let t = choose|t: Tally| #[trigger] tallied(orders, t) && r == report_of(f, orders, t);
    let p = t.profits@;
    let dd = drawdown(f, p);
    assert(p.take(p.len() as int) =~= p);
    lemma_drawdown(f, val, p, p.len());
    assert(r.max_drawdown_pct == product(f, dd, Num { bits: HUNDRED_BITS }));
    let (i, j) = choose|i: int, j: int| 0 <= i <= j <= p.len() && #[trigger] fall(val, p, i, j) == val(dd);
    assert(100 as real * fall(val, p, i, j) == val(r.max_drawdown_pct));
}

/// The profits of a history in which every order was closed are theirs, in their
/// order.
pub proof fn every_closed_order_counts(orders: Seq<Order>, n: nat)
    requires
        n <= orders.len(),
        forall|i: int| 0 <= i < orders.len() ==> (#[trigger] orders[i]).pnl_pct is Some,
    ensures
        profits_to(orders, n).len() == n,
        forall|i: int| 0 <= i < n ==> Some(#[trigger] profits_to(orders, n)[i]) == orders[i].pnl_pct,
    decreases n,
{
    if n > 0 {
        every_closed_order_counts(orders, (n - 1) as nat);
        assert(orders[n - 1].pnl_pct is Some);
    }
}


proof fn lemma_ratio_of_nothing(s: real, m: real, d: real, k: real, made: real, n: real)
    requires
        s == (m / d) * k,
        d > 0 as real,
        k * k == n,
        n > 0 as real,
        m == made / n,
        s == 0 as real,
    ensures
        made == 0 as real,
{
    assert(k != 0 as real) by (nonlinear_arith)
        requires
            k * k == n,
            n > 0 as real,
    ;
    let q = m / d;
    assert(q == 0 as real) by (nonlinear_arith)
        requires
            q * k == 0 as real,
            k != 0 as real,
    ;
    assert(m == 0 as real) by (nonlinear_arith)
        requires
            q == m / d,
            d > 0 as real,
            q == 0 as real,
    ;
    assert(made == 0 as real) by (nonlinear_arith)
        requires
            m == made / n,
            n > 0 as real,
            m == 0 as real,
    ;
}

proof fn lemma_no_spread(d: real, q: real, spread: real, n: real)
    requires
        d * d == q,
        d == 0 as real,
        q == spread / n,
        n > 0 as real,
    ensures
        spread == 0 as real,
{
    assert(q == 0 as real) by (nonlinear_arith)
        requires
            d * d == q,
            d == 0 as real,
    ;
    assert(spread == 0 as real) by (nonlinear_arith)
        requires
            q == spread / n,
            n > 0 as real,
            q == 0 as real,
    ;
}

/// A ratio is nothing only where nothing was earned, or where there is nothing to relate
/// it to: profits that do not spread, no loss, no drawdown. It is endless only where
/// nothing was lost.
pub proof fn ratios_are_nothing_only_where_they_must_be<F: Fn(Calculation) -> Num>(
    f: F,
    val: spec_fn(Num) -> real,
    orders: Seq<Order>,
    r: Report,
)
    requires
        exact(f, val),
        is_report_of(f, orders, r),
        orders.len() > 0,
        ({
            let p = profits_to(orders, orders.len());
            let c = count(f, orders.len() as int);
            let mean = quotient(f, total(f, p), c);
            &&& !root(f, quotient(f, spread(f, p, mean), c)).nan()
            &&& !root(f, quotient(f, downside(f, p), c)).nan()
            &&& !gross_loss(f, p).nan()
            &&& quotient(f, gross_profit(f, p), gross_loss(f, p)) != (Num { bits: INFINITY_BITS })
        }),
    ensures
        ({
            let made = net(val, orders);
            &&& !r.sharpe_ratio.nan() && r.sharpe_ratio.key() == 0 ==> made == 0 as real || squared_distances(
                val,
                orders,
                made / (orders.len() as real),
            ) == 0 as real
            &&& !r.sortino_ratio.nan() && r.sortino_ratio.key() == 0 ==> made == 0 as real || squared_losses(val, orders)
                == 0 as real
            &&& !r.calmar_ratio.nan() && r.calmar_ratio.key() == 0 && !r.max_drawdown_pct.nan() ==> made == 0 as real || val(
                r.max_drawdown_pct,
            ) == 0 as real
            &&& r.profit_factor == (Num { bits: INFINITY_BITS }) ==> losses(val, orders) == 0 as real
        }),
{
    let n = orders.len();
    let t = choose|t: Tally| #[trigger] tallied(orders, t) && r == report_of(f, orders, t);
    let p = t.profits@;
    let zero = Num { bits: 0 };
    let hundred = Num { bits: HUNDRED_BITS };
    assert(orders.take(n as int) =~= orders);
    let nn = n as real;
    let c = count(f, n as int);
    let mean = quotient(f, total(f, p), c);
    lemma_sums_of(f, val, orders, mean, n);
    let made = net(val, orders);
    let q = quotient(f, spread(f, p, mean), c);
    let d = root(f, q);
    assert(!q.nan());
    assert(!spread(f, p, mean).nan() && !c.nan());
    assert(d.key() <= zero.key() <==> val(d) <= val(zero));
    let s = r.sharpe_ratio;
    if !s.nan() && s.key() == 0 {
        assert(s.key() <= zero.key() <==> val(s) <= val(zero));
        assert(zero.key() <= s.key() <==> val(zero) <= val(s));
        if zero.below(d) {
            assert(s == product(f, quotient(f, mean, d), root(f, c)));
            assert(!quotient(f, mean, d).nan() && !root(f, c).nan());
            assert(!mean.nan());
            lemma_ratio_of_nothing(val(s), val(mean), val(d), val(root(f, c)), made, nn);
        } else {
            lemma_no_spread(val(d), val(q), val(spread(f, p, mean)), nn);
            if p.len() > 0 {
                assert(!mean.nan());
                assert(val(mean) == made / nn);
            } else {
                lemma_none_closed(orders, n);
                lemma_none_spread(val, orders, made / nn);
            }
        }
    }
    let q2 = quotient(f, downside(f, p), c);
    let d2 = root(f, q2);
    assert(!q2.nan());
    assert(!downside(f, p).nan());
    assert(d2.key() <= zero.key() <==> val(d2) <= val(zero));
    let s2 = r.sortino_ratio;
    if !s2.nan() && s2.key() == 0 {
        assert(s2.key() <= zero.key() <==> val(s2) <= val(zero));
        assert(zero.key() <= s2.key() <==> val(zero) <= val(s2));
        if zero.below(d2) {
            assert(s2 == product(f, quotient(f, mean, d2), root(f, c)));
            assert(!quotient(f, mean, d2).nan() && !root(f, c).nan());
            assert(!mean.nan());
            lemma_ratio_of_nothing(val(s2), val(mean), val(d2), val(root(f, c)), made, nn);
        } else {
            lemma_no_spread(val(d2), val(q2), val(downside(f, p)), nn);
        }
    }
    let dd = drawdown(f, p);
    let k = r.calmar_ratio;
    if !k.nan() && k.key() == 0 && !r.max_drawdown_pct.nan() {
        assert(r.max_drawdown_pct == product(f, dd, hundred));
        assert(k.key() <= zero.key() <==> val(k) <= val(zero));
        assert(zero.key() <= k.key() <==> val(zero) <= val(k));
        assert(dd.key() <= zero.key() <==> val(dd) <= val(zero));
        if zero.below(dd) {
            assert(k == quotient(f, total(f, p), dd));
            lemma_over_times(val(k), made, val(dd));
            assert(made == 0 as real) by (nonlinear_arith)
                requires
                    val(k) * val(dd) == made,
                    val(k) == 0 as real,
            ;
        } else {
            a_drawdown_is_not_negative(f, p);
            assert(zero.key() <= dd.key() <==> val(zero) <= val(dd));
        }
    }
    let l = gross_loss(f, p);
    assert(l.key() <= zero.key() <==> val(l) <= val(zero));
    if r.profit_factor == (Num { bits: INFINITY_BITS }) {
        assert(!zero.below(l));
        lemma_net_splits(val, orders);
    }
}

proof fn lemma_none_closed(orders: Seq<Order>, n: nat)
    requires
        n <= orders.len(),
        profits_to(orders, n).len() == 0,
    ensures
        forall|i: int| 0 <= i < n ==> (#[trigger] orders[i]).pnl_pct is None,
    decreases n,
{
    if n > 0 {
        lemma_none_closed(orders, (n - 1) as nat);
    }
}

proof fn lemma_none_spread(val: spec_fn(Num) -> real, orders: Seq<Order>, mean: real)
    requires
        forall|i: int| 0 <= i < orders.len() ==> (#[trigger] orders[i]).pnl_pct is None,
    ensures
        squared_distances(val, orders, mean) == 0 as real,
    decreases orders.len(),
{
    if orders.len() > 0 {
        assert forall|i: int| 0 <= i < orders.drop_last().len() implies (#[trigger] orders.drop_last()[i]).pnl_pct is None by {
            assert(orders[i].pnl_pct is None);
        }
        lemma_none_spread(val, orders.drop_last(), mean);
        assert(orders[orders.len() - 1].pnl_pct is None);
    }
}

/// The longest losing run of a history of closed orders is that many orders in a row
/// without a gain, and among any that are more in a row one has gained.
pub proof fn the_longest_losing_run_is_the_longest<F: Fn(Calculation) -> Num>(
    f: F,
    val: spec_fn(Num) -> real,
    orders: Seq<Order>,
    r: Report,
)
    requires
        exact(f, val),
        is_report_of(f, orders, r),
        orders.len() > 0,
        forall|i: int| 0 <= i < orders.len() ==> (#[trigger] orders[i]).pnl_pct is Some,
    ensures
        exists|end: int| #[trigger] loses_up_to(val, orders, end, r.max_consecutive_losses as int),
        forall|end: int, len: int| #[trigger]
            loses_up_to(val, orders, end, len) ==> len <= r.max_consecutive_losses,
{
    let n = orders.len();
    let t = choose|t: Tally| #[trigger] tallied(orders, t) && r == report_of(f, orders, t);
    let p = t.profits@;
    every_closed_order_counts(orders, n);
    let longest = t.max_consecutive_losses as int;
    assert forall|k: int| 0 <= k < n implies won(#[trigger] p[k]) == gained(val, orders[k]) by {
        assert(Some(p[k]) == orders[k].pnl_pct);
        lemma_won(val, p[k]);
    }
    let end = choose|end: int| #[trigger] losing_run(p, end, longest);
    assert(losing_run(p, end, longest));
    assert(loses_up_to(val, orders, end, longest)) by {
        assert forall|k: int| end - longest <= k < end implies !gained(val, #[trigger] orders[k]) by {
            assert(!won(p[k]));
        }
    }
    assert(loses_up_to(val, orders, end, r.max_consecutive_losses as int));
    assert forall|end: int, len: int| #[trigger] loses_up_to(val, orders, end, len) implies len <= longest by {
        assert forall|k: int| end - len <= k < end implies !won(#[trigger] p[k]) by {
            assert(!gained(val, orders[k]));
        }
        assert(losing_run(p, end, len));
    }
}

/// Whether none of the `len` orders before `end` gained.
pub open spec fn loses_up_to(val: spec_fn(Num) -> real, orders: Seq<Order>, end: int, len: int) -> bool {
    &&& 0 <= len <= end <= orders.len()
    &&& forall|k: int| end - len <= k < end ==> !gained(val, #[trigger] orders[k])
}

} // verus!
