//! Where results are numbers.
//!
//! A calculator may answer a step with what is not a number. Where it never does, the
//! results below are numbers too: none of them is given up on the way.
use vstd::prelude::*;

use crate::arith::{total, value, Calculation};
use crate::graph::setup::{bounds_are_in_order, setup_grid, SETUP_LEVELS};
use crate::graph::strategy::market_read;
use crate::grid::GridView;
use crate::num::Num;
use crate::order::Order;
use crate::pricing::{linear_weights, normal_weights, trend_weights};
use crate::quotes::{level_quote, quotes_grid};
use crate::report::{earned, gross_loss, gross_profit, is_report_of, report_of, tallied, Tally};
use crate::score::Report;
use crate::session::GridQuotes;
use crate::strategies::{drift_of, modelled, smoothed, VolatilityAdaptiveGridStrategy};

verus! {

/// Whether a calculator answers every step with a number.
pub open spec fn always_answers<F: Fn(Calculation) -> Num>(f: F) -> bool {
    forall|c: Calculation| !(#[trigger] value(f, c)).nan()
}

proof fn lemma_gross<F: Fn(Calculation) -> Num>(f: F, p: Seq<Num>)
    requires
        always_answers(f),
    ensures
        !gross_profit(f, p).nan(),
        !gross_loss(f, p).nan(),
        !total(f, p).nan(),
    decreases p.len(),
{
    if p.len() > 0 {
        lemma_gross(f, p.drop_last());
    }
}

proof fn lemma_earned<F: Fn(Calculation) -> Num>(f: F, orders: Seq<Order>, n: nat)
    requires
        always_answers(f),
    ensures
        !earned(f, orders, n).nan(),
    decreases n,
{
    if n > 0 {
        lemma_earned(f, orders, (n - 1) as nat);
    }
}

/// Every entry of a report is a number.
pub proof fn reports_hold_numbers<F: Fn(Calculation) -> Num>(f: F, orders: Seq<Order>, r: Report)
    requires
        always_answers(f),
        is_report_of(f, orders, r),
    ensures
        !r.win_rate.nan() && !r.net_pnl_pct.nan() && !r.total_return.nan() && !r.profit_factor.nan(),
        !r.expectancy.nan() && !r.sharpe_ratio.nan() && !r.sortino_ratio.nan() && !r.calmar_ratio.nan(),
        !r.max_drawdown_pct.nan() && !r.avg_win_pct.nan() && !r.avg_loss_pct.nan() && !r.win_loss_ratio.nan(),
        !r.long_win_rate.nan() && !r.short_win_rate.nan() && !r.net_pnl_abs.nan(),
        r.total_trades == orders.len(),
{
    if orders.len() > 0 {
        let t = choose|t: Tally| #[trigger] tallied(orders, t) && r == report_of(f, orders, t);
        lemma_gross(f, t.profits@);
        lemma_earned(f, orders, orders.len());
    }
}

/// Every price, profit and size that a grid is quoted at is a number.
pub proof fn quotes_hold_numbers<F: Fn(Calculation) -> Num>(
    f: F,
    g: GridView,
    t: int,
    fraction: Num,
    base_capital: Num,
    q: GridQuotes,
    j: int,
)
    requires
        always_answers(f),
        quotes_grid(f, g, t, fraction, base_capital, q),
        0 <= j < g.levels.len(),
    ensures
        ({
            let l = q.levels@[j];
            &&& !q.mid.nan()
            &&& !l.sl_long.nan() && !l.sl_short.nan() && !l.profit_long.nan() && !l.profit_short.nan()
            &&& !l.size_long.nan() && !l.size_short.nan()
        }),
{
    assert(q.levels@[j] == level_quote(f, g, j, t, fraction, base_capital));
}

/// Every level and every chance of a grid that is set up is a number.
pub proof fn grids_set_up_hold_numbers<F: Fn(Calculation) -> Num>(
    f: F,
    last_close: Num,
    outputs: Seq<Vec<Num>>,
    seen: (nat, nat, nat, nat),
    j: int,
)
    requires
        always_answers(f),
        market_read(last_close, outputs) is Some,
        0 <= j < SETUP_LEVELS,
    ensures
        ({
            let g = setup_grid(f, last_close, market_read(last_close, outputs)->0, seen);
            &&& !g.levels[j].nan()
            &&& !g.long_win_p[j].nan()
            &&& !g.short_win_p[j].nan()
        }),
{
    bounds_are_in_order(last_close, outputs);
}

/// Every chance that a strategy models or learns, and every stop, is a number.
pub proof fn chances_and_stops_are_numbers<F: Fn(Calculation) -> Num>(
    f: F,
    up: Seq<Num>,
    down: Seq<Num>,
    cell: int,
    j: int,
    k: int,
    wins: usize,
    losses: usize,
    p: Num,
    min_trades: usize,
    smoothing_k: Num,
)
    requires
        always_answers(f),
        !p.nan(),
    ensures
        !drift_of(f, up, down, cell).nan(),
        !modelled(f, drift_of(f, up, down, cell), j, k).0.nan(),
        !modelled(f, drift_of(f, up, down, cell), j, k).1.nan(),
        !smoothed(f, wins, losses, p, min_trades, smoothing_k).nan(),
        !VolatilityAdaptiveGridStrategy::stop_of(f, p, smoothing_k, p).nan(),
{
}

/// Every weight is a number.
pub proof fn weights_are_numbers<F: Fn(Calculation) -> Num>(
    f: F,
    k: usize,
    sharpness: Num,
    ascending: bool,
    direction: Num,
    strength: Num,
    j: int,
)
    requires
        always_answers(f),
        0 <= j < k,
    ensures
        !normal_weights(f, k, sharpness)[j].nan(),
        !linear_weights(f, k, ascending)[j].nan(),
        !trend_weights(f, k, direction, strength)[j].nan(),
{
}

} // verus!
